//! What is removed from a system prompt.
use crate::text::{ascii_space, blank, lower, lowered, space, word_char};
use crate::translate::elements::{
    skip_spaces, term_end, term_tokens, token_at, tokens_end, without_term, without_tokens, word_len,
    words,
};
use crate::translate::pipeline::sanitized;
use vstd::prelude::*;

verus! {

/// Terms are removed one after another, each from what the ones before it have left.
pub proof fn law_terms_are_removed_in_turn(text: Seq<char>, terms: Seq<Seq<char>>, term: Seq<char>)
    ensures
        sanitized(text, Seq::empty()) == text,
        sanitized(text, terms.push(term)) == without_term(sanitized(text, terms), term),
{
    assert(terms.push(term).drop_last() =~= terms);
}

/// Two terms: the second is removed from what the first has left.
pub proof fn law_both_terms_are_removed(text: Seq<char>, a: Seq<char>, b: Seq<char>)
    ensures
        sanitized(text, seq![a]) == without_term(text, a),
        sanitized(text, seq![a, b]) == without_term(without_term(text, a), b),
{
    law_terms_are_removed_in_turn(text, Seq::empty(), a);
    assert(Seq::<Seq<char>>::empty().push(a) =~= seq![a]);
    law_terms_are_removed_in_turn(text, seq![a], b);
    assert(seq![a].push(b) =~= seq![a, b]);
}

/// A list of terms may be cut in two.
pub proof fn law_lists_of_terms_in_turn(text: Seq<char>, a: Seq<Seq<char>>, b: Seq<Seq<char>>)
    ensures
        sanitized(text, a + b) == sanitized(sanitized(text, a), b),
    decreases b.len(),
{
    if b.len() == 0 {
        assert(a + b =~= a);
    } else {
        law_lists_of_terms_in_turn(text, a, b.drop_last());
        assert((a + b).drop_last() =~= a + b.drop_last());
        assert((a + b).last() == b.last());
    }
}

/// The text spells the words: each in any ASCII case, with ASCII white space between any two.
pub open spec fn spells(text: Seq<char>, all: Seq<Seq<char>>) -> bool
    decreases all.len(),
{
    if all.len() == 0 {
        text.len() == 0
    } else if all.len() == 1 {
        lowered(text) == all[0]
    } else {
        exists|a: int, b: int|
            0 <= a < b <= text.len() && lowered(#[trigger] text.take(a)) == all[0] && (forall|k: int|
                a <= k < b ==> ascii_space(#[trigger] text[k])) && spells(
                #[trigger] text.skip(b),
                all.drop_first(),
            )
    }
}

/// A word does not go on over the position.
pub open spec fn between_words(text: Seq<char>, i: int) -> bool {
    !(0 < i < text.len() && word_char(text[i - 1]) && word_char(text[i]))
}

/// The words stand in the text from `i` to `end`, and not within longer words.
pub open spec fn stands(text: Seq<char>, i: int, end: int, all: Seq<Seq<char>>) -> bool {
    &&& 0 <= i <= end <= text.len()
    &&& spells(text.subrange(i, end), all)
    &&& between_words(text, i)
    &&& between_words(text, end)
}

/// Words: none is empty, and none holds white space.
pub open spec fn proper(all: Seq<Seq<char>>) -> bool {
    forall|k: int|
        0 <= k < all.len() ==> (#[trigger] all[k]).len() > 0 && forall|j: int|
            0 <= j < all[k].len() ==> !space(#[trigger] all[k][j])
}

proof fn lemma_space_of_lower(c: char)
    ensures
        ascii_space(lower(c)) == ascii_space(c),
        space(lower(c)) == space(c),
{
}

proof fn lemma_word(s: Seq<char>)
    ensures
        word_len(s) <= s.len(),
        forall|j: int| 0 <= j < word_len(s) ==> !space(#[trigger] s[j]),
        word_len(s) < s.len() ==> space(s[word_len(s) as int]),
    decreases s.len(),
{
    if s.len() > 0 && !space(s[0]) {
        let rest = s.drop_first();
        lemma_word(rest);
        assert forall|j: int| 0 <= j < word_len(s) implies !space(#[trigger] s[j]) by {
            if j > 0 {
                assert(rest[j - 1] == s[j]);
            }
        }
        if word_len(s) < s.len() {
            assert(rest[word_len(rest) as int] == s[word_len(s) as int]);
        }
    }
}

proof fn lemma_words_proper(s: Seq<char>)
    ensures
        proper(words(s)),
    decreases s.len(),
{
    if s.len() > 0 {
        lemma_word(s);
        if space(s[0]) {
            lemma_words_proper(s.drop_first());
        } else {
            let n = word_len(s) as int;
            let rest = s.skip(n);
            lemma_words_proper(rest);
            let all = words(s);
            assert forall|k: int| 0 <= k < all.len() implies (#[trigger] all[k]).len() > 0
                && forall|j: int| 0 <= j < all[k].len() ==> !space(#[trigger] all[k][j]) by {
                if k == 0 {
                    assert(all[0] == s.take(n));
                } else {
                    assert(all[k] == words(rest)[k - 1]);
                }
            }
        }
    }
}

/// What is looked for is words, in lower case.
proof fn lemma_tokens_proper(term: Seq<char>)
    ensures
        proper(term_tokens(term)),
{
    lemma_words_proper(term);
    let all = term_tokens(term);
    assert forall|k: int| 0 <= k < all.len() implies (#[trigger] all[k]).len() > 0 && forall|j: int|
        0 <= j < all[k].len() ==> !space(#[trigger] all[k][j]) by {
        let word = words(term)[k];
        assert(all[k] == lowered(word));
        assert forall|j: int| 0 <= j < all[k].len() implies !space(#[trigger] all[k][j]) by {
            assert(!space(word[j]));
            lemma_space_of_lower(word[j]);
        }
    }
}

/// The words of a term, however they are spaced: white space between two texts parts their words,
/// a text without any is one word, and white space alone is none.
pub proof fn law_words_are_spaced(a: Seq<char>, gap: Seq<char>, b: Seq<char>)
    requires
        gap.len() > 0,
        forall|i: int| 0 <= i < gap.len() ==> space(#[trigger] gap[i]),
    ensures
        words(a + gap + b) == words(a) + words(b),
    decreases a.len(),
{
    let whole = a + gap + b;
    if a.len() == 0 {
        lemma_words_behind(gap, b);
        assert(whole =~= gap + b);
        assert(words(a) + words(b) =~= words(b));
    } else if space(a[0]) {
        law_words_are_spaced(a.drop_first(), gap, b);
        assert(whole.drop_first() =~= a.drop_first() + gap + b);
    } else {
        lemma_word(a);
        let n = word_len(a) as int;
        lemma_word_before(a, gap, b);
        law_words_are_spaced(a.skip(n), gap, b);
        assert(whole.skip(n) =~= a.skip(n) + gap + b);
        assert(whole.take(n) =~= a.take(n));
        assert(words(whole) =~= words(a) + words(b));
    }
}

proof fn lemma_words_behind(gap: Seq<char>, b: Seq<char>)
    requires
        forall|i: int| 0 <= i < gap.len() ==> space(#[trigger] gap[i]),
    ensures
        words(gap + b) == words(b),
    decreases gap.len(),
{
    if gap.len() == 0 {
        assert(gap + b =~= b);
    } else {
        let rest = gap.drop_first();
        assert forall|i: int| 0 <= i < rest.len() implies space(#[trigger] rest[i]) by {
            assert(rest[i] == gap[i + 1]);
        }
        lemma_words_behind(rest, b);
        assert((gap + b).drop_first() =~= rest + b);
        assert((gap + b)[0] == gap[0]);
    }
}

proof fn lemma_word_before(a: Seq<char>, gap: Seq<char>, b: Seq<char>)
    requires
        gap.len() > 0,
        space(gap[0]),
    ensures
        word_len(a + gap + b) == word_len(a),
    decreases a.len(),
{
    let whole = a + gap + b;
    if a.len() == 0 {
        assert(whole[0] == gap[0]);
    } else {
        assert(whole[0] == a[0]);
        assert(whole.drop_first() =~= a.drop_first() + gap + b);
        lemma_word_before(a.drop_first(), gap, b);
    }
}

/// A text without white space is one word, and white space alone is none.
pub proof fn law_one_word(word: Seq<char>)
    ensures
        word.len() > 0 && (forall|i: int| 0 <= i < word.len() ==> !space(#[trigger] word[i]))
            ==> words(word) == seq![word] && term_tokens(word) == seq![lowered(word)],
        blank(word) ==> words(word).len() == 0 && term_tokens(word).len() == 0,
{
    if blank(word) {
        let none = Seq::<char>::empty();
        lemma_words_behind(word, none);
        assert(word + none =~= word);
    }
    if word.len() > 0 && (forall|i: int| 0 <= i < word.len() ==> !space(#[trigger] word[i])) {
        lemma_word(word);
        assert(!space(word[0]));
        assert(word_len(word) == word.len()) by {
            if word_len(word) < word.len() {
                assert(!space(word[word_len(word) as int]));
            }
        }
        assert(word.take(word.len() as int) =~= word);
        assert(word.skip(word.len() as int) =~= Seq::empty());
        assert(words(word.skip(word.len() as int)) =~= Seq::empty());
        assert(words(word) =~= seq![word]);
        assert(term_tokens(word) =~= seq![lowered(word)]);
    }
}

proof fn lemma_skip(text: Seq<char>, i: int)
    requires
        0 <= i <= text.len(),
    ensures
        i <= skip_spaces(text, i) <= text.len(),
        forall|k: int| i <= k < skip_spaces(text, i) ==> ascii_space(#[trigger] text[k]),
        skip_spaces(text, i) < text.len() ==> !ascii_space(text[skip_spaces(text, i)]),
    decreases text.len() - i,
{
    if i < text.len() && ascii_space(text[i]) {
        lemma_skip(text, i + 1);
    }
}

/// White space is skipped up to the first character that is none.
proof fn lemma_skip_to(text: Seq<char>, i: int, j: int)
    requires
        0 <= i <= j < text.len(),
        forall|k: int| i <= k < j ==> ascii_space(#[trigger] text[k]),
        !ascii_space(text[j]),
    ensures
        skip_spaces(text, i) == j,
{
    lemma_skip(text, i);
    let at = skip_spaces(text, i);
    if at < j {
        assert(ascii_space(text[at]));
    }
    if j < at {
        assert(ascii_space(text[j]));
    }
}

proof fn lemma_end_spells(text: Seq<char>, i: int, all: Seq<Seq<char>>)
    requires
        0 <= i <= text.len(),
        tokens_end(text, i, all, true) is Some,
    ensures
        ({
            let end = tokens_end(text, i, all, true)->0;
            i <= end <= text.len() && spells(text.subrange(i, end), all)
        }),
    decreases all.len(),
{
    let end = tokens_end(text, i, all, true)->0;
    if all.len() > 0 {
        let n = all[0].len() as int;
        let rest = all.drop_first();
        let j = i + n;
        assert(token_at(text, i, all[0]));
        if all.len() > 1 {
            let at = skip_spaces(text, j);
            lemma_skip(text, j);
            assert(tokens_end(text, j, rest, false) == Some(end));
            assert(tokens_end(text, at, rest, true) == Some(end));
            lemma_end_spells(text, at, rest);
            let part = text.subrange(i, end);
            assert(part.take(n) =~= text.subrange(i, j));
            assert(part.skip(at - i) =~= text.subrange(at, end));
            assert forall|k: int| n <= k < at - i implies ascii_space(#[trigger] part[k]) by {
                assert(part[k] == text[i + k]);
            }
            assert(0 <= n < at - i <= part.len() && lowered(part.take(n)) == all[0] && spells(
                part.skip(at - i),
                rest,
            ));
        } else {
            assert(rest =~= Seq::empty());
            assert(tokens_end(text, j, rest, false) == Some(j));
        }
    } else {
        assert(text.subrange(i, i) =~= Seq::empty());
    }
}

/// What spells words starts with a character that is no white space.
proof fn lemma_spelled_start(text: Seq<char>, all: Seq<Seq<char>>)
    requires
        proper(all),
        all.len() > 0,
        spells(text, all),
    ensures
        text.len() > 0,
        !ascii_space(text[0]),
{
    let word = all[0];
    assert(word.len() > 0 && !space(word[0]));
    if all.len() == 1 {
        assert(lowered(text)[0] == lower(text[0]));
    } else {
        let (a, b) = choose|a: int, b: int|
            0 <= a < b <= text.len() && lowered(#[trigger] text.take(a)) == all[0] && (forall|k: int|
                a <= k < b ==> ascii_space(#[trigger] text[k])) && spells(
                #[trigger] text.skip(b),
                all.drop_first(),
            );
        assert(lowered(text.take(a))[0] == lower(text[0]));
    }
    lemma_space_of_lower(text[0]);
}

proof fn lemma_spelled_end(text: Seq<char>, i: int, end: int, all: Seq<Seq<char>>)
    requires
        0 <= i <= end <= text.len(),
        proper(all),
        all.len() > 0,
        spells(text.subrange(i, end), all),
    ensures
        tokens_end(text, i, all, true) == Some(end),
    decreases all.len(),
{
    let part = text.subrange(i, end);
    let n = all[0].len() as int;
    let rest = all.drop_first();
    if all.len() == 1 {
        assert(lowered(part).len() == part.len());
        assert(rest =~= Seq::empty());
        assert(token_at(text, i, all[0]));
        assert(tokens_end(text, end, rest, false) == Some(end));
    } else {
        let (a, b) = choose|a: int, b: int|
            0 <= a < b <= part.len() && lowered(#[trigger] part.take(a)) == all[0] && (forall|k: int|
                a <= k < b ==> ascii_space(#[trigger] part[k])) && spells(
                #[trigger] part.skip(b),
                all.drop_first(),
            );
        assert(lowered(part.take(a)).len() == a);
        assert(part.take(a) =~= text.subrange(i, i + a));
        assert(token_at(text, i, all[0]));
        assert forall|k: int| 0 <= k < rest.len() implies (#[trigger] rest[k]).len() > 0
            && forall|j: int| 0 <= j < rest[k].len() ==> !space(#[trigger] rest[k][j]) by {
            assert(rest[k] == all[k + 1]);
        }
        lemma_spelled_start(part.skip(b), rest);
        assert(part.skip(b)[0] == text[i + b]);
        assert(part.skip(b) =~= text.subrange(i + b, end));
        assert forall|k: int| i + a <= k < i + b implies ascii_space(#[trigger] text[k]) by {
            assert(text[k] == part[k - i]);
        }
        lemma_skip_to(text, i + a, i + b);
        lemma_spelled_end(text, i + b, end, rest);
        assert(tokens_end(text, i + a, rest, false) == Some(end));
    }
}

/// What is found of a term at a position is its words, spelled from there, and not within longer
/// words; and what is so spelled is found.
pub proof fn law_term_is_found(text: Seq<char>, i: int, end: int, term: Seq<char>)
    requires
        0 <= i <= text.len(),
        term_tokens(term).len() > 0,
    ensures
        term_end(text, i, term_tokens(term)) == Some(end) <==> stands(
            text,
            i,
            end,
            term_tokens(term),
        ),
{
    let all = term_tokens(term);
    lemma_tokens_proper(term);
    if term_end(text, i, all) == Some(end) {
        lemma_end_spells(text, i, all);
        lemma_spelled_start(text.subrange(i, end), all);
    }
    if stands(text, i, end, all) {
        lemma_spelled_end(text, i, end, all);
        lemma_spelled_start(text.subrange(i, end), all);
    }
}

/// Where a term stands, it is left out, and removing goes on behind it.
pub proof fn law_term_is_left_out(text: Seq<char>, i: int, end: int, term: Seq<char>)
    requires
        0 <= i < text.len(),
        term_tokens(term).len() > 0,
        stands(text, i, end, term_tokens(term)),
    ensures
        without_tokens(text, i, term_tokens(term)) == without_tokens(text, end, term_tokens(term)),
{
    law_term_is_found(text, i, end, term);
    lemma_tokens_proper(term);
    lemma_spelled_start(text.subrange(i, end), term_tokens(term));
}

/// Where it does not, the character stays, and removing goes on behind it.
pub proof fn law_other_characters_stay(text: Seq<char>, i: int, term: Seq<char>)
    requires
        0 <= i < text.len(),
        term_tokens(term).len() > 0,
        forall|end: int| !#[trigger] stands(text, i, end, term_tokens(term)),
    ensures
        without_tokens(text, i, term_tokens(term)) == seq![text[i]] + without_tokens(
            text,
            i + 1,
            term_tokens(term),
        ),
{
    let all = term_tokens(term);
    if term_end(text, i, all) is Some {
        let end = term_end(text, i, all)->0;
        law_term_is_found(text, i, end, term);
        assert(stands(text, i, end, all));
    }
}

/// Removing goes over the whole text, and a term without words removes nothing.
pub proof fn law_removal_goes_over_the_text(text: Seq<char>, term: Seq<char>)
    ensures
        blank(term) ==> without_term(text, term) == text,
        term_tokens(term).len() > 0 ==> without_term(text, term) == without_tokens(
            text,
            0,
            term_tokens(term),
        ),
        without_tokens(text, text.len() as int, term_tokens(term)).len() == 0,
{
    law_one_word(term);
}

proof fn lemma_nothing_from(text: Seq<char>, i: int, term: Seq<char>)
    requires
        0 <= i <= text.len(),
        term_tokens(term).len() > 0,
        forall|k: int, end: int| i <= k < text.len() ==> !#[trigger] stands(
            text,
            k,
            end,
            term_tokens(term),
        ),
    ensures
        without_tokens(text, i, term_tokens(term)) == text.skip(i),
    decreases text.len() - i,
{
    if i < text.len() {
        law_other_characters_stay(text, i, term);
        lemma_nothing_from(text, i + 1, term);
        assert(seq![text[i]] + text.skip(i + 1) =~= text.skip(i));
    } else {
        assert(text.skip(i) =~= Seq::empty());
    }
}

proof fn lemma_up_to(text: Seq<char>, from: int, i: int, term: Seq<char>)
    requires
        0 <= from <= i <= text.len(),
        term_tokens(term).len() > 0,
        forall|k: int, end: int| from <= k < i ==> !#[trigger] stands(
            text,
            k,
            end,
            term_tokens(term),
        ),
    ensures
        without_tokens(text, from, term_tokens(term)) == text.subrange(from, i) + without_tokens(
            text,
            i,
            term_tokens(term),
        ),
    decreases i - from,
{
    let all = term_tokens(term);
    if from < i {
        law_other_characters_stay(text, from, term);
        lemma_up_to(text, from + 1, i, term);
        assert(seq![text[from]] + (text.subrange(from + 1, i) + without_tokens(text, i, all))
            =~= text.subrange(from, i) + without_tokens(text, i, all));
    } else {
        assert(text.subrange(from, i) + without_tokens(text, i, all) =~= without_tokens(
            text,
            i,
            all,
        ));
    }
}

/// A text in which a term stands nowhere stays as it is; one in which it stands once loses that
/// place and nothing else.
pub proof fn law_only_the_term_is_removed(text: Seq<char>, i: int, end: int, term: Seq<char>)
    requires
        term_tokens(term).len() > 0,
    ensures
        (forall|k: int, e: int| !#[trigger] stands(text, k, e, term_tokens(term)))
            ==> without_term(text, term) == text,
        stands(text, i, end, term_tokens(term)) && (forall|k: int, e: int|
            0 <= k < i || end <= k ==> !#[trigger] stands(text, k, e, term_tokens(term)))
            ==> without_term(text, term) == text.take(i) + text.skip(end),
{
    let all = term_tokens(term);
    if forall|k: int, e: int| !#[trigger] stands(text, k, e, all) {
        lemma_nothing_from(text, 0, term);
        assert(text.skip(0) =~= text);
    }
    if stands(text, i, end, all) && (forall|k: int, e: int|
        0 <= k < i || end <= k ==> !#[trigger] stands(text, k, e, all)) {
        lemma_tokens_proper(term);
        lemma_spelled_start(text.subrange(i, end), all);
        lemma_up_to(text, 0, i, term);
        law_term_is_left_out(text, i, end, term);
        lemma_nothing_from(text, end, term);
        assert(text.subrange(0, i) =~= text.take(i));
    }
}

} // verus!
