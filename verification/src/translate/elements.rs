//! The building blocks of the translation.
use crate::models::openai;
use crate::text::{
    ascii_space, chars_of, digit, is_ascii_space, is_digit, is_space, is_word_char, lower, lowered,
    number_up_to, parse_up_to, same_text, space, split_once, split_once_text, to_lower, word_char,
};
use vstd::prelude::*;

verus! {

// ---------------------------------------------------------------------------------------------
// Stop reasons.

/// The Anthropic name of an OpenAI finish reason.
pub open spec fn stop_reason(finish_reason: Seq<char>) -> Seq<char> {
    if finish_reason == "tool_calls"@ {
        "tool_use"@
    } else if finish_reason == "stop"@ {
        "end_turn"@
    } else if finish_reason == "length"@ {
        "max_tokens"@
    } else if finish_reason == "content_filter"@ {
        "refusal"@
    } else {
        "end_turn"@
    }
}

pub fn map_stop_reason(finish_reason: Option<&str>) -> (reason: Option<String>)
    ensures
        match finish_reason {
            Some(r) => reason is Some && reason->0@ == stop_reason(r@),
            None => reason is None,
        },
{
    match finish_reason {
        Some(r) => {
            let name = if same_text(r, "tool_calls") {
                "tool_use"
            } else if same_text(r, "stop") {
                "end_turn"
            } else if same_text(r, "length") {
                "max_tokens"
            } else if same_text(r, "content_filter") {
                "refusal"
            } else {
                "end_turn"
            };
            Some(name.to_owned())
        },
        None => None,
    }
}

// ---------------------------------------------------------------------------------------------
// Context overflow.

/// The least output worth a retry.
pub const MIN_OUTPUT: u32 = 256;

/// Headroom that is left free in a window: a fiftieth of it, and at least 1024 tokens.
pub open spec fn window_margin(context: int) -> int {
    if context / 50 > 1024 {
        context / 50
    } else {
        1024
    }
}

/// Given the window size, the (true) input token count, and the current `max_tokens`,
/// return a reduced `max_tokens` that leaves the prompt room to fit — or `None` when the
/// prompt alone already fills the window (nothing an output clamp can fix) or no reduction
/// is needed.
///
/// This breaks the deadlock where a conversation is just over the limit: the upstream
/// rejects `input + max_tokens > context`, but `input` alone still fits, so trimming the
/// *output* budget lets the request through. Headroom is ~2% of the window
/// (min 1024) to absorb any residual tokenizer drift between our count and the upstream's.
pub fn fit_output_to_window(context: u32, input: u32, current_max: Option<u32>) -> (r: Option<u32>)
    ensures
        r == fitted_output(context, input, current_max),
{
    let share: u32 = context / 50;
    let margin: u32 = if share > 1024 {
        share
    } else {
        1024
    };
    if input > context {
        return None;
    }
    let room: u32 = context - input;
    if margin > room {
        return None;
    }
    let available: u32 = room - margin;
    let current: u32 = match current_max {
        Some(max) => max,
        None => u32::MAX,
    };
    if available >= MIN_OUTPUT && available < current {
        Some(available)
    } else {
        None
    }
}

/// What a window leaves for output beside the input and the margin, where that is enough output
/// and less than what was asked for.
pub open spec fn fitted_output(context: u32, input: u32, current_max: Option<u32>) -> Option<u32> {
    let available = context - input - window_margin(context as int);
    let current = match current_max {
        Some(max) => max,
        None => u32::MAX,
    };
    if MIN_OUTPUT <= available < current {
        Some(available as u32)
    } else {
        None
    }
}

/// How many digits a text starts with.
pub open spec fn leading_digits(s: Seq<char>) -> nat
    decreases s.len(),
{
    if s.len() > 0 && digit(s[0]) {
        1 + leading_digits(s.drop_first())
    } else {
        0
    }
}

/// How many digits a text ends with.
pub open spec fn trailing_digits(s: Seq<char>) -> nat
    decreases s.len(),
{
    if s.len() > 0 && digit(s.last()) {
        1 + trailing_digits(s.drop_last())
    } else {
        0
    }
}

/// The number that a text starts with, where it fits 32 bits.
pub open spec fn leading_value(s: Seq<char>) -> Option<nat> {
    number_up_to(s.take(leading_digits(s) as int), u32::MAX as nat)
}

/// The number that a text ends with, where it fits 32 bits.
pub open spec fn trailing_value(s: Seq<char>) -> Option<nat> {
    number_up_to(s.skip(s.len() - trailing_digits(s)), u32::MAX as nat)
}

pub fn leading_number(s: &str) -> (r: Option<u32>)
    ensures
        match r {
            Some(n) => leading_value(s@) == Some(n as nat),
            None => leading_value(s@) is None,
        },
{
    let chars = chars_of(s);
    let mut end: usize = 0;
    assert(s@.skip(0) =~= s@);
    while end < chars.len() && is_digit(chars[end])
        invariant
            end <= chars@.len(),
            chars@ == s@,
            leading_digits(s@) == end + leading_digits(s@.skip(end as int)),
        decreases chars@.len() - end,
    {
        assert(s@.skip(end as int).drop_first() =~= s@.skip(end + 1));
        end += 1;
    }
    assert(s@.subrange(0, end as int) =~= s@.take(end as int));
    match parse_up_to(&chars, 0, end, u32::MAX as u64) {
        Some(n) => Some(n as u32),
        None => None,
    }
}

pub fn trailing_number(s: &str) -> (r: Option<u32>)
    ensures
        match r {
            Some(n) => trailing_value(s@) == Some(n as nat),
            None => trailing_value(s@) is None,
        },
{
    let chars = chars_of(s);
    let n = chars.len();
    let mut start: usize = n;
    assert(s@.take(n as int) =~= s@);
    while start > 0 && is_digit(chars[start - 1])
        invariant
            start <= n == chars@.len(),
            chars@ == s@,
            trailing_digits(s@) == (n - start) + trailing_digits(s@.take(start as int)),
        decreases start,
    {
        assert(s@.take(start as int).drop_last() =~= s@.take(start - 1));
        start -= 1;
    }
    assert(s@.subrange(start as int, n as int) =~= s@.skip(start as int));
    match parse_up_to(&chars, start, n, u32::MAX as u64) {
        Some(n) => Some(n as u32),
        None => None,
    }
}

/// The window and the input size that an overflow message names: the number after
/// "context length is ", and the number after "contains at least " or, failing that, the one
/// before " input tokens".
pub open spec fn overflow_sizes(message: Seq<char>) -> Option<(nat, nat)> {
    let context = match split_once(message, "context length is "@) {
        Some((_, rest)) => leading_value(rest),
        None => None,
    };
    let at_least = match split_once(message, "contains at least "@) {
        Some((_, rest)) => leading_value(rest),
        None => None,
    };
    let input = if at_least is Some {
        at_least
    } else {
        match split_once(message, " input tokens"@) {
            Some((before, _)) => trailing_value(before),
            None => None,
        }
    };
    match (context, input) {
        (Some(context), Some(input)) => Some((context, input)),
        _ => None,
    }
}

/// Parse `(max_context_tokens, input_tokens)` from an OpenAI-style overflow message.
/// The `input_tokens` here is the upstream's *loose lower bound* (`context+1 - max_tokens`),
/// not the true prompt size — callers that can tokenize the request should prefer that.
pub fn parse_context_overflow(message: &str) -> (r: Option<(u32, u32)>)
    ensures
        match r {
            Some((context, input)) => overflow_sizes(message@) == Some(
                (context as nat, input as nat),
            ),
            None => overflow_sizes(message@) is None,
        },
{
    let context: u32 = match split_once_text(message, "context length is ") {
        Some((_, rest)) => match leading_number(rest.as_str()) {
            Some(n) => n,
            None => return None,
        },
        None => return None,
    };
    let at_least: Option<u32> = match split_once_text(message, "contains at least ") {
        Some((_, rest)) => leading_number(rest.as_str()),
        None => None,
    };
    match at_least {
        Some(input) => Some((context, input)),
        None => match split_once_text(message, " input tokens") {
            Some((before, _)) => match trailing_number(before.as_str()) {
                Some(input) => Some((context, input)),
                None => None,
            },
            None => None,
        },
    }
}

// ---------------------------------------------------------------------------------------------
// Usage.

/// Split OpenAI prompt tokens into Anthropic `(input_tokens, cache_read_input_tokens)`.
///
/// OpenAI's `prompt_tokens` is the *total* input including any cache hits, with the
/// cached subset reported under `prompt_tokens_details.cached_tokens`. Anthropic
/// instead reports the non-cached input separately from `cache_read_input_tokens`,
/// so we subtract to avoid double-counting cached tokens in client cost math. The
/// cache figure is `None` when the upstream did not report cached tokens.
pub fn split_prompt_tokens(usage: &openai::Usage) -> (r: (u32, Option<u32>))
    ensures
        r == prompt_split(*usage),
{
    match usage.prompt_tokens_details {
        Some(details) => {
            let input: u32 = if usage.prompt_tokens > details.cached_tokens {
                usage.prompt_tokens - details.cached_tokens
            } else {
                0
            };
            (input, Some(details.cached_tokens))
        },
        None => (usage.prompt_tokens, None),
    }
}

/// The prompt tokens that no cache served, and those that one did.
pub open spec fn prompt_split(usage: openai::Usage) -> (u32, Option<u32>) {
    match usage.prompt_tokens_details {
        Some(details) => (
            if usage.prompt_tokens > details.cached_tokens {
                (usage.prompt_tokens - details.cached_tokens) as u32
            } else {
                0
            },
            Some(details.cached_tokens),
        ),
        None => (usage.prompt_tokens, None),
    }
}

// ---------------------------------------------------------------------------------------------
// Terms of a system prompt.

/// How many characters stand before the first white space.
pub open spec fn word_len(s: Seq<char>) -> nat
    decreases s.len(),
{
    if s.len() > 0 && !space(s[0]) {
        1 + word_len(s.drop_first())
    } else {
        0
    }
}

/// The words of a text, which white space separates.
pub open spec fn words(s: Seq<char>) -> Seq<Seq<char>>
    decreases s.len(),
{
    if s.len() == 0 {
        Seq::empty()
    } else if space(s[0]) {
        words(s.drop_first())
    } else if word_len(s) <= s.len() {
        seq![s.take(word_len(s) as int)] + words(s.skip(word_len(s) as int))
    } else {
        Seq::empty()
    }
}

/// The words of a term in lower case: what is looked for.
pub open spec fn term_tokens(term: Seq<char>) -> Seq<Seq<char>> {
    words(term).map_values(|w: Seq<char>| lowered(w))
}

/// Where the run of ASCII white space that starts at `i` ends.
pub open spec fn skip_spaces(text: Seq<char>, i: int) -> int
    decreases text.len() - i,
{
    if 0 <= i < text.len() && ascii_space(text[i]) {
        skip_spaces(text, i + 1)
    } else {
        i
    }
}

/// `token` stands in the text at `i`, whatever the case of its ASCII letters.
pub open spec fn token_at(text: Seq<char>, i: int, token: Seq<char>) -> bool {
    0 <= i && i + token.len() <= text.len() && lowered(text.subrange(i, i + token.len())) == token
}

/// Where the tokens end that stand in the text from `i` on, one after another. White space
/// separates each from the one before it; `first` says that none is before the first.
pub open spec fn tokens_end(
    text: Seq<char>,
    i: int,
    tokens: Seq<Seq<char>>,
    first: bool,
) -> Option<int>
    decreases tokens.len(),
{
    if tokens.len() == 0 {
        Some(i)
    } else {
        let at = if first {
            i
        } else {
            skip_spaces(text, i)
        };
        if (first || at > i) && token_at(text, at, tokens[0]) {
            tokens_end(text, at + tokens[0].len(), tokens.drop_first(), false)
        } else {
            None
        }
    }
}

/// A word character stands at `i`.
pub open spec fn word_at(text: Seq<char>, i: int) -> bool {
    0 <= i < text.len() && word_char(text[i])
}

/// Where an occurrence of the tokens ends that starts at `start` and neither starts nor ends
/// within a word.
pub open spec fn term_end(text: Seq<char>, start: int, tokens: Seq<Seq<char>>) -> Option<int> {
    if word_at(text, start) && word_at(text, start - 1) {
        None
    } else {
        match tokens_end(text, start, tokens, true) {
            Some(end) => if word_at(text, end) && word_at(
                text,
                if end > 0 {
                    end - 1
                } else {
                    0
                },
            ) {
                None
            } else {
                Some(end)
            },
            None => None,
        }
    }
}

/// The text from `from` on without the occurrences of the tokens, found from left to right.
pub open spec fn without_tokens(text: Seq<char>, from: int, tokens: Seq<Seq<char>>) -> Seq<char>
    decreases text.len() - from,
{
    if 0 <= from < text.len() {
        match term_end(text, from, tokens) {
            Some(end) => if from < end <= text.len() {
                without_tokens(text, end, tokens)
            } else {
                seq![text[from]] + without_tokens(text, from + 1, tokens)
            },
            None => seq![text[from]] + without_tokens(text, from + 1, tokens),
        }
    } else {
        Seq::empty()
    }
}

/// The text without the occurrences of a term. A term without words occurs nowhere.
pub open spec fn without_term(text: Seq<char>, term: Seq<char>) -> Seq<char> {
    if term_tokens(term).len() == 0 {
        text
    } else {
        without_tokens(text, 0, term_tokens(term))
    }
}

/// The words of a term in lower case.
fn term_words(term: &str) -> (r: Vec<Vec<char>>)
    ensures
        r@.map_values(|w: Vec<char>| w@) == term_tokens(term@),
{
    let chars = chars_of(term);
    let mut r: Vec<Vec<char>> = Vec::new();
    let mut i: usize = 0;
    let ghost lower_word = |w: Seq<char>| lowered(w);
    let ghost of_vec = |w: Vec<char>| w@;
    assert(term@.skip(0) =~= term@);
    assert(r@.map_values(of_vec) + words(term@).map_values(lower_word) =~= words(
        term@,
    ).map_values(lower_word));
    while i < chars.len()
        invariant
            i <= chars@.len(),
            chars@ == term@,
            lower_word == (|w: Seq<char>| lowered(w)),
            of_vec == (|w: Vec<char>| w@),
            r@.map_values(of_vec) + words(term@.skip(i as int)).map_values(lower_word)
                == term_tokens(term@),
        decreases chars@.len() - i,
    {
        let ghost rest = term@.skip(i as int);
        if is_space(chars[i]) {
            assert(rest.drop_first() =~= term@.skip(i + 1));
            i += 1;
        } else {
            let mut word: Vec<char> = Vec::new();
            let start = i;
            while i < chars.len() && !is_space(chars[i])
                invariant
                    start <= i <= chars@.len(),
                    chars@ == term@,
                    rest == term@.skip(start as int),
                    word@ == lowered(rest.take(i - start)),
                    word_len(rest) == (i - start) + word_len(term@.skip(i as int)),
                decreases chars@.len() - i,
            {
                word.push(to_lower(chars[i]));
                assert(lowered(rest.take(i - start + 1)) =~= lowered(rest.take(i - start)).push(
                    lower(rest[i - start]),
                ));
                assert(term@.skip(i as int).drop_first() =~= term@.skip(i + 1));
                i += 1;
            }
            let ghost n = word_len(rest) as int;
            assert(n == i - start);
            assert(rest.skip(n) =~= term@.skip(i as int));
            assert(words(rest) == seq![rest.take(n)] + words(rest.skip(n)));
            let ghost before = r@.map_values(of_vec);
            r.push(word);
            assert(r@.map_values(of_vec) =~= before.push(word@));
            assert(r@.map_values(of_vec) + words(term@.skip(i as int)).map_values(lower_word)
                =~= before + words(rest).map_values(lower_word));
        }
    }
    assert(words(term@.skip(i as int)) =~= Seq::empty());
    assert(r@.map_values(of_vec) =~= term_tokens(term@));
    r
}

/// A word character stands at `i`.
fn is_word_at(text: &Vec<char>, i: usize) -> (r: bool)
    ensures
        r == word_at(text@, i as int),
{
    i < text.len() && is_word_char(text[i])
}

/// `token` stands in the text at `i`, whatever the case of its ASCII letters.
fn is_token_at(text: &Vec<char>, i: usize, token: &Vec<char>) -> (r: bool)
    requires
        i <= text@.len(),
    ensures
        r == token_at(text@, i as int, token@),
{
    if token.len() > text.len() - i {
        return false;
    }
    let ghost part = lowered(text@.subrange(i as int, i + token@.len()));
    let mut k: usize = 0;
    while k < token.len()
        invariant
            k <= token@.len(),
            i + token@.len() <= text@.len() <= usize::MAX,
            part == lowered(text@.subrange(i as int, i + token@.len())),
            forall|j: int| 0 <= j < k ==> part[j] == #[trigger] token@[j],
        decreases token@.len() - k,
    {
        assert(part[k as int] == lower(text@[i + k]));
        if to_lower(text[i + k]) != token[k] {
            return false;
        }
        k += 1;
    }
    assert(part =~= token@);
    true
}

/// The end of the occurrence of the tokens that starts at `start`, if there is one.
fn match_term_at(text: &Vec<char>, start: usize, tokens: &Vec<Vec<char>>) -> (r: Option<usize>)
    requires
        start <= text@.len(),
    ensures
        match r {
            Some(end) => term_end(text@, start as int, tokens@.map_values(|w: Vec<char>| w@))
                == Some(end as int) && end <= text@.len(),
            None => term_end(text@, start as int, tokens@.map_values(|w: Vec<char>| w@)) is None,
        },
{
    let ghost spec_tokens = tokens@.map_values(|w: Vec<char>| w@);
    if is_word_at(text, start) && start > 0 && is_word_at(text, start - 1) {
        return None;
    }
    let len = text.len();
    let mut index: usize = start;
    let mut token_index: usize = 0;
    assert(spec_tokens.skip(0) =~= spec_tokens);
    while token_index < tokens.len()
        invariant
            token_index <= tokens@.len(),
            start <= index <= len == text@.len(),
            spec_tokens == tokens@.map_values(|w: Vec<char>| w@),
            tokens_end(text@, start as int, spec_tokens, true) == tokens_end(
                text@,
                index as int,
                spec_tokens.skip(token_index as int),
                token_index == 0,
            ),
            !(word_at(text@, start as int) && word_at(text@, start - 1)),
        decreases tokens@.len() - token_index,
    {
        let ghost rest = spec_tokens.skip(token_index as int);
        if token_index > 0 {
            let ws_start = index;
            while index < text.len() && is_ascii_space(text[index])
                invariant
                    ws_start <= index <= text@.len(),
                    skip_spaces(text@, ws_start as int) == skip_spaces(text@, index as int),
                decreases text@.len() - index,
            {
                index += 1;
            }
            if ws_start == index {
                return None;
            }
        }
        let token = &tokens[token_index];
        assert(rest[0] == token@);
        if !is_token_at(text, index, token) {
            return None;
        }
        assert(rest.drop_first() =~= spec_tokens.skip(token_index + 1));
        index = index + token.len();
        token_index += 1;
    }
    assert(tokens_end(text@, start as int, spec_tokens, true) == Some(index as int));
    let before: usize = if index > 0 {
        index - 1
    } else {
        0
    };
    if is_word_at(text, before) && is_word_at(text, index) {
        return None;
    }
    Some(index)
}

/// Removes every occurrence of `term`: its words in this order, in any ASCII case and with any
/// ASCII white space between them, not within longer words.
pub fn remove_term(text: &str, term: &str) -> (r: String)
    ensures
        r@ == without_term(text@, term@),
{
    let tokens = term_words(term);
    let ghost spec_tokens = term_tokens(term@);
    if tokens.len() == 0 {
        assert(spec_tokens.len() == tokens@.map_values(|w: Vec<char>| w@).len());
        return text.to_owned();
    }
    assert(spec_tokens.len() == tokens@.map_values(|w: Vec<char>| w@).len());
    let chars = chars_of(text);
    let mut result = String::new();
    let mut index: usize = 0;
    assert(result@ + without_tokens(text@, 0, spec_tokens) =~= without_tokens(
        text@,
        0,
        spec_tokens,
    ));
    while index < chars.len()
        invariant
            index <= chars@.len(),
            chars@ == text@,
            spec_tokens == tokens@.map_values(|w: Vec<char>| w@),
            result@ + without_tokens(text@, index as int, spec_tokens) == without_tokens(
                text@,
                0,
                spec_tokens,
            ),
        decreases chars@.len() - index,
    {
        let ghost before = result@;
        let ghost from = index as int;
        let mut next: usize = index + 1;
        let mut matched = false;
        match match_term_at(&chars, index, &tokens) {
            Some(end) => {
                if end > index {
                    next = end;
                    matched = true;
                }
            },
            None => {},
        }
        if !matched {
            result.push(chars[index]);
            assert(result@ + without_tokens(text@, from + 1, spec_tokens) =~= before + (seq![
                text@[from],
            ] + without_tokens(text@, from + 1, spec_tokens)));
        }
        index = next;
    }
    assert(without_tokens(text@, index as int, spec_tokens) =~= Seq::empty());
    assert(result@ =~= without_tokens(text@, 0, spec_tokens));
    result
}

// ---------------------------------------------------------------------------------------------
// Laws.

/// What a cache served and what it did not make up the prompt, where the upstream's figures are
/// consistent.
pub proof fn law_prompt_tokens_add_up(usage: openai::Usage)
    requires
        usage.prompt_tokens_details is Some ==> usage.prompt_tokens_details->0.cached_tokens
            <= usage.prompt_tokens,
    ensures
        prompt_split(usage).0 + match prompt_split(usage).1 {
            Some(cached) => cached as int,
            None => 0,
        } == usage.prompt_tokens,
{
}

/// Output that is fitted once needs no fitting again.
pub proof fn law_fitted_output_is_stable(context: u32, input: u32, current_max: Option<u32>)
    requires
        fitted_output(context, input, current_max) is Some,
    ensures
        fitted_output(context, input, fitted_output(context, input, current_max)) is None,
{
}

/// Removing a term makes no text longer.
pub proof fn law_removal_never_lengthens(text: Seq<char>, term: Seq<char>)
    ensures
        without_term(text, term).len() <= text.len(),
{
    lemma_without_tokens_len(text, 0, term_tokens(term));
}

proof fn lemma_without_tokens_len(text: Seq<char>, from: int, tokens: Seq<Seq<char>>)
    requires
        0 <= from <= text.len(),
    ensures
        without_tokens(text, from, tokens).len() <= text.len() - from,
    decreases text.len() - from,
{
    if from < text.len() {
        match term_end(text, from, tokens) {
            Some(end) => {
                if from < end <= text.len() {
                    lemma_without_tokens_len(text, end, tokens);
                } else {
                    lemma_without_tokens_len(text, from + 1, tokens);
                }
            },
            None => {
                lemma_without_tokens_len(text, from + 1, tokens);
            },
        }
    }
}

/// A text in which a term occurs nowhere stays as it is.
pub proof fn law_absent_term_changes_nothing(text: Seq<char>, term: Seq<char>)
    requires
        forall|i: int| 0 <= i < text.len() ==> term_end(text, i, term_tokens(term)) is None,
    ensures
        without_term(text, term) == text,
{
    lemma_without_absent_tokens(text, 0, term_tokens(term));
    assert(text.skip(0) =~= text);
}

proof fn lemma_without_absent_tokens(text: Seq<char>, from: int, tokens: Seq<Seq<char>>)
    requires
        0 <= from <= text.len(),
        forall|i: int| 0 <= i < text.len() ==> term_end(text, i, tokens) is None,
    ensures
        without_tokens(text, from, tokens) == text.skip(from),
    decreases text.len() - from,
{
    if from < text.len() {
        lemma_without_absent_tokens(text, from + 1, tokens);
        assert(seq![text[from]] + text.skip(from + 1) =~= text.skip(from));
    } else {
        assert(text.skip(from) =~= Seq::empty());
    }
}

/// The case of a term's ASCII letters makes no difference.
pub proof fn law_case_of_term_does_not_matter(text: Seq<char>, term: Seq<char>)
    ensures
        without_term(text, lowered(term)) == without_term(text, term),
{
    lemma_words_of_lowered(term);
    let tokens = words(term).map_values(|w: Seq<char>| lowered(w));
    assert forall|i: int| 0 <= i < tokens.len() implies lowered(#[trigger] tokens[i])
        == tokens[i] by {
        lemma_lowered_twice(words(term)[i]);
    }
    assert(term_tokens(lowered(term)) =~= term_tokens(term));
}

proof fn lemma_lowered_twice(s: Seq<char>)
    ensures
        lowered(lowered(s)) == lowered(s),
{
    assert(lowered(lowered(s)) =~= lowered(s));
}

proof fn lemma_word_len_of_lowered(s: Seq<char>)
    ensures
        word_len(lowered(s)) == word_len(s),
        word_len(s) <= s.len(),
    decreases s.len(),
{
    if s.len() > 0 {
        lemma_space_of_lower(s[0]);
        lemma_word_len_of_lowered(s.drop_first());
        assert(lowered(s).drop_first() =~= lowered(s.drop_first()));
    }
}

proof fn lemma_space_of_lower(c: char)
    ensures
        space(lower(c)) == space(c),
{
}

proof fn lemma_words_of_lowered(s: Seq<char>)
    ensures
        words(lowered(s)) == words(s).map_values(|w: Seq<char>| lowered(w)),
    decreases s.len(),
{
    let lower_word = |w: Seq<char>| lowered(w);
    if s.len() == 0 {
        assert(words(lowered(s)) =~= words(s).map_values(lower_word));
    } else {
        lemma_space_of_lower(s[0]);
        lemma_word_len_of_lowered(s);
        if space(s[0]) {
            lemma_words_of_lowered(s.drop_first());
            assert(lowered(s).drop_first() =~= lowered(s.drop_first()));
        } else {
            let n = word_len(s) as int;
            lemma_words_of_lowered(s.skip(n));
            assert(lowered(s).skip(n) =~= lowered(s.skip(n)));
            assert(lowered(s).take(n) =~= lowered(s.take(n)));
            assert(words(lowered(s)) =~= words(s).map_values(lower_word));
        }
    }
}

} // verus!
