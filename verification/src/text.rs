//! Text functions over sequences of characters.
use vstd::prelude::*;

verus! {

// ---------------------------------------------------------------------------------------------
// Characters.

/// The `White_Space` property of Unicode.
pub open spec fn space(c: char) -> bool {
    ||| '\u{9}' <= c <= '\u{d}'
    ||| c == ' '
    ||| c == '\u{85}'
    ||| c == '\u{a0}'
    ||| c == '\u{1680}'
    ||| '\u{2000}' <= c <= '\u{200a}'
    ||| c == '\u{2028}'
    ||| c == '\u{2029}'
    ||| c == '\u{202f}'
    ||| c == '\u{205f}'
    ||| c == '\u{3000}'
}

pub fn is_space(c: char) -> (r: bool)
    ensures
        r == space(c),
{
    ('\u{9}' <= c && c <= '\u{d}') || c == ' ' || c == '\u{85}' || c == '\u{a0}' || c == '\u{1680}'
        || ('\u{2000}' <= c && c <= '\u{200a}') || c == '\u{2028}' || c == '\u{2029}' || c
        == '\u{202f}' || c == '\u{205f}' || c == '\u{3000}'
}

/// ASCII white space: space, tab, line feed, form feed, carriage return.
pub open spec fn ascii_space(c: char) -> bool {
    c == ' ' || c == '\t' || c == '\n' || c == '\u{c}' || c == '\r'
}

pub fn is_ascii_space(c: char) -> (r: bool)
    ensures
        r == ascii_space(c),
{
    c == ' ' || c == '\t' || c == '\n' || c == '\u{c}' || c == '\r'
}

pub open spec fn digit(c: char) -> bool {
    '0' <= c <= '9'
}

pub fn is_digit(c: char) -> (r: bool)
    ensures
        r == digit(c),
{
    '0' <= c && c <= '9'
}

/// An ASCII letter or digit, or an underscore.
pub open spec fn word_char(c: char) -> bool {
    digit(c) || 'a' <= c <= 'z' || 'A' <= c <= 'Z' || c == '_'
}

pub fn is_word_char(c: char) -> (r: bool)
    ensures
        r == word_char(c),
{
    is_digit(c) || ('a' <= c && c <= 'z') || ('A' <= c && c <= 'Z') || c == '_'
}

/// An ASCII capital in lower case; any other character as it is.
pub open spec fn lower(c: char) -> char {
    if 'A' <= c <= 'Z' {
        (c as u32 + 32) as char
    } else {
        c
    }
}

pub fn to_lower(c: char) -> (r: char)
    ensures
        r == lower(c),
{
    if 'A' <= c && c <= 'Z' {
        (c as u8 + 32) as char
    } else {
        c
    }
}

pub open spec fn lowered(s: Seq<char>) -> Seq<char> {
    s.map_values(|c: char| lower(c))
}

// ---------------------------------------------------------------------------------------------
// Building strings.

/// `String::push` appends the character.
pub assume_specification[ std::string::String::push ](s: &mut std::string::String, c: char)
    ensures
        final(s)@ == old(s)@.push(c),
;

/// The characters of a text.
pub fn chars_of(s: &str) -> (r: Vec<char>)
    ensures
        r@ == s@,
{
    let mut r: Vec<char> = Vec::new();
    for c in it: s.chars()
        invariant
            it.seq() == s@,
            r@ == s@.take(it.index() as int),
    {
        r.push(c);
        assert(s@.take(it.index() + 1) =~= s@.take(it.index() as int).push(c));
    }
    assert(s@.take(s@.len() as int) =~= s@);
    r
}

/// The characters from `from` up to `to` as a string.
pub fn string_from(chars: &Vec<char>, from: usize, to: usize) -> (r: String)
    requires
        from <= to <= chars@.len(),
    ensures
        r@ == chars@.subrange(from as int, to as int),
{
    let mut r = String::new();
    let mut i: usize = from;
    while i < to
        invariant
            from <= i <= to <= chars@.len(),
            r@ == chars@.subrange(from as int, i as int),
        decreases to - i,
    {
        r.push(chars[i]);
        assert(chars@.subrange(from as int, i + 1) =~= chars@.subrange(from as int, i as int).push(
            chars@[i as int],
        ));
        i += 1;
    }
    r
}

pub fn lower_text(s: &str) -> (r: String)
    ensures
        r@ == lowered(s@),
{
    let chars = chars_of(s);
    let mut r = String::new();
    let mut i: usize = 0;
    while i < chars.len()
        invariant
            i <= chars@.len(),
            chars@ == s@,
            r@ == lowered(s@.take(i as int)),
        decreases chars@.len() - i,
    {
        r.push(to_lower(chars[i]));
        assert(lowered(s@.take(i + 1)) =~= lowered(s@.take(i as int)).push(lower(s@[i as int])));
        i += 1;
    }
    assert(s@.take(s@.len() as int) =~= s@);
    r
}

/// Whether two texts are the same.
pub fn same_text(a: &str, b: &str) -> (r: bool)
    ensures
        r == (a@ == b@),
{
    a.to_owned() == b.to_owned()
}

// ---------------------------------------------------------------------------------------------
// White space.

/// Nothing but white space.
pub open spec fn blank(s: Seq<char>) -> bool {
    forall|i: int| 0 <= i < s.len() ==> space(#[trigger] s[i])
}

/// The text without its leading white space.
pub open spec fn trim_start(s: Seq<char>) -> Seq<char>
    decreases s.len(),
{
    if s.len() > 0 && space(s[0]) {
        trim_start(s.drop_first())
    } else {
        s
    }
}

/// The text without its trailing white space.
pub open spec fn trim_end(s: Seq<char>) -> Seq<char>
    decreases s.len(),
{
    if s.len() > 0 && space(s.last()) {
        trim_end(s.drop_last())
    } else {
        s
    }
}

/// The text without the white space around it.
pub open spec fn trim(s: Seq<char>) -> Seq<char> {
    trim_end(trim_start(s))
}

pub fn is_blank(s: &str) -> (r: bool)
    ensures
        r == blank(s@),
{
    let chars = chars_of(s);
    let mut i: usize = 0;
    while i < chars.len()
        invariant
            i <= chars@.len(),
            chars@ == s@,
            forall|j: int| 0 <= j < i ==> space(#[trigger] s@[j]),
        decreases chars@.len() - i,
    {
        if !is_space(chars[i]) {
            return false;
        }
        i += 1;
    }
    true
}

pub fn trim_text(s: &str) -> (r: String)
    ensures
        r@ == trim(s@),
{
    let chars = chars_of(s);
    let mut from: usize = 0;
    assert(s@.skip(0) =~= s@);
    while from < chars.len() && is_space(chars[from])
        invariant
            from <= chars@.len(),
            chars@ == s@,
            trim_start(s@) == trim_start(s@.skip(from as int)),
        decreases chars@.len() - from,
    {
        assert(s@.skip(from as int).drop_first() =~= s@.skip(from + 1));
        from += 1;
    }
    let ghost rest = s@.skip(from as int);
    assert(trim_start(s@) == rest);
    let mut to: usize = chars.len();
    assert(rest =~= s@.subrange(from as int, to as int));
    while to > from && is_space(chars[to - 1])
        invariant
            from <= to <= chars@.len(),
            chars@ == s@,
            trim_end(rest) == trim_end(s@.subrange(from as int, to as int)),
        decreases to,
    {
        assert(s@.subrange(from as int, to as int).drop_last() =~= s@.subrange(
            from as int,
            to - 1,
        ));
        to -= 1;
    }
    string_from(&chars, from, to)
}

// ---------------------------------------------------------------------------------------------
// Searching.

/// `pattern` stands in `s` at position `i`.
pub open spec fn occurs_at(s: Seq<char>, pattern: Seq<char>, i: int) -> bool {
    0 <= i && i + pattern.len() <= s.len() && s.subrange(i, i + pattern.len()) == pattern
}

/// `i` is the first position at which `pattern` stands in `s`.
pub open spec fn first_at(s: Seq<char>, pattern: Seq<char>, i: int) -> bool {
    occurs_at(s, pattern, i) && forall|j: int| 0 <= j < i ==> !#[trigger] occurs_at(s, pattern, j)
}

/// The first position at which `pattern` stands in `s`.
pub open spec fn find(s: Seq<char>, pattern: Seq<char>) -> Option<int> {
    if exists|i: int| occurs_at(s, pattern, i) {
        Some(choose|i: int| first_at(s, pattern, i))
    } else {
        None
    }
}

pub open spec fn starts_with(s: Seq<char>, prefix: Seq<char>) -> bool {
    occurs_at(s, prefix, 0)
}

/// What stands before and after the first occurrence of `pattern`.
pub open spec fn split_once(s: Seq<char>, pattern: Seq<char>) -> Option<(Seq<char>, Seq<char>)> {
    match find(s, pattern) {
        Some(i) => Some((s.take(i), s.skip(i + pattern.len()))),
        None => None,
    }
}

/// A first position is the position that `find` gives.
pub proof fn lemma_find_is(s: Seq<char>, pattern: Seq<char>, i: int)
    requires
        first_at(s, pattern, i),
    ensures
        find(s, pattern) == Some(i),
{
    let k = choose|k: int| first_at(s, pattern, k);
    assert(first_at(s, pattern, k));
    if k < i {
        assert(occurs_at(s, pattern, k));
    }
    if i < k {
        assert(occurs_at(s, pattern, i));
    }
}

/// What `find` gives is a first position.
pub proof fn lemma_find_first(s: Seq<char>, pattern: Seq<char>)
    ensures
        match find(s, pattern) {
            Some(i) => first_at(s, pattern, i),
            None => forall|i: int| !occurs_at(s, pattern, i),
        },
{
    if exists|i: int| occurs_at(s, pattern, i) {
        let i = choose|i: int| occurs_at(s, pattern, i);
        let k = lemma_least(s, pattern, i);
        lemma_find_is(s, pattern, k);
    }
}

/// Where a pattern occurs there is a first occurrence.
proof fn lemma_least(s: Seq<char>, pattern: Seq<char>, i: int) -> (k: int)
    requires
        occurs_at(s, pattern, i),
    ensures
        first_at(s, pattern, k),
    decreases i,
{
    if exists|j: int| 0 <= j < i && occurs_at(s, pattern, j) {
        let j = choose|j: int| 0 <= j < i && occurs_at(s, pattern, j);
        lemma_least(s, pattern, j)
    } else {
        i
    }
}

pub fn stands_at(chars: &Vec<char>, pattern: &Vec<char>, i: usize) -> (r: bool)
    ensures
        r == occurs_at(chars@, pattern@, i as int),
{
    if i > chars.len() || pattern.len() > chars.len() - i {
        return false;
    }
    let mut k: usize = 0;
    while k < pattern.len()
        invariant
            k <= pattern@.len(),
            i + pattern@.len() <= chars@.len() <= usize::MAX,
            forall|j: int| 0 <= j < k ==> chars@[i + j] == #[trigger] pattern@[j],
        decreases pattern@.len() - k,
    {
        if chars[i + k] != pattern[k] {
            proof {
                let part = chars@.subrange(i as int, i + pattern@.len());
                assert(part[k as int] != pattern@[k as int]);
            }
            return false;
        }
        k += 1;
    }
    assert(chars@.subrange(i as int, i + pattern@.len()) =~= pattern@);
    true
}

pub fn find_chars(chars: &Vec<char>, pattern: &Vec<char>) -> (r: Option<usize>)
    ensures
        match r {
            Some(i) => find(chars@, pattern@) == Some(i as int) && first_at(
                chars@,
                pattern@,
                i as int,
            ),
            None => find(chars@, pattern@) is None,
        },
{
    let mut i: usize = 0;
    while i < chars.len()
        invariant
            i <= chars@.len(),
            forall|j: int| 0 <= j < i ==> !#[trigger] occurs_at(chars@, pattern@, j),
        decreases chars@.len() - i,
    {
        if stands_at(chars, pattern, i) {
            proof {
                lemma_find_is(chars@, pattern@, i as int);
            }
            return Some(i);
        }
        i += 1;
    }
    if stands_at(chars, pattern, i) {
        proof {
            lemma_find_is(chars@, pattern@, i as int);
        }
        return Some(i);
    }
    None
}

pub fn split_once_text(s: &str, pattern: &str) -> (r: Option<(String, String)>)
    ensures
        match r {
            Some((before, after)) => split_once(s@, pattern@) == Some((before@, after@)),
            None => split_once(s@, pattern@) is None,
        },
{
    let chars = chars_of(s);
    let wanted = chars_of(pattern);
    match find_chars(&chars, &wanted) {
        Some(i) => {
            let n = chars.len();
            let before = string_from(&chars, 0, i);
            let after = string_from(&chars, i + wanted.len(), n);
            assert(before@ =~= s@.take(i as int));
            assert(after@ =~= s@.skip(i + wanted@.len()));
            Some((before, after))
        },
        None => None,
    }
}

pub fn starts_with_text(s: &str, prefix: &str) -> (r: bool)
    ensures
        r == starts_with(s@, prefix@),
{
    stands_at(&chars_of(s), &chars_of(prefix), 0)
}

// ---------------------------------------------------------------------------------------------
// Joining.

/// The texts of a list of strings.
pub open spec fn texts(strings: Seq<String>) -> Seq<Seq<char>> {
    strings.map_values(|s: String| s@)
}

/// The same strings again.
pub fn copy_texts(strings: &Vec<String>) -> (copy: Vec<String>)
    ensures
        texts(copy@) == texts(strings@),
{
    let mut copy: Vec<String> = Vec::new();
    let mut i: usize = 0;
    while i < strings.len()
        invariant
            i <= strings@.len(),
            copy@.len() == i,
            forall|j: int| 0 <= j < i ==> (#[trigger] copy@[j])@ == strings@[j]@,
        decreases strings@.len() - i,
    {
        copy.push(strings[i].clone());
        i += 1;
    }
    assert(texts(copy@) =~= texts(strings@));
    copy
}

/// The parts one after another, with `separator` between any two.
pub open spec fn join(parts: Seq<Seq<char>>, separator: Seq<char>) -> Seq<char>
    decreases parts.len(),
{
    if parts.len() == 0 {
        Seq::empty()
    } else if parts.len() == 1 {
        parts[0]
    } else {
        join(parts.drop_last(), separator) + separator + parts.last()
    }
}

pub fn join_texts(parts: &Vec<String>, separator: &str) -> (r: String)
    ensures
        r@ == join(texts(parts@), separator@),
{
    let mut r = String::new();
    let mut i: usize = 0;
    assert(texts(parts@).take(0) =~= Seq::empty());
    while i < parts.len()
        invariant
            i <= parts@.len(),
            r@ == join(texts(parts@).take(i as int), separator@),
        decreases parts@.len() - i,
    {
        let ghost next = texts(parts@).take(i + 1);
        assert(next.drop_last() =~= texts(parts@).take(i as int));
        assert(next.last() == parts@[i as int]@);
        if i > 0 {
            r.append(separator);
        }
        r.append(parts[i].as_str());
        assert(r@ =~= join(next, separator@));
        i += 1;
    }
    assert(texts(parts@).take(parts@.len() as int) =~= texts(parts@));
    r
}

/// The pieces of a text between the occurrences of `separator`.
pub open spec fn split(s: Seq<char>, separator: char) -> Seq<Seq<char>>
    decreases s.len(),
{
    match find(s, seq![separator]) {
        Some(i) => if 0 <= i < s.len() {
            seq![s.take(i)] + split(s.skip(i + 1), separator)
        } else {
            seq![s]
        },
        None => seq![s],
    }
}

pub fn split_text(s: &str, separator: char) -> (r: Vec<String>)
    ensures
        texts(r@) == split(s@, separator),
{
    let chars = chars_of(s);
    let n = chars.len();
    let mut r: Vec<String> = Vec::new();
    let mut from: usize = 0;
    let mut end: usize = 0;
    assert(s@.skip(0) =~= s@);
    assert(texts(r@) + split(s@, separator) =~= split(s@, separator));
    while end < n
        invariant
            from <= end <= n,
            n == chars@.len(),
            chars@ == s@,
            texts(r@) + split(s@.skip(from as int), separator) == split(s@, separator),
            forall|j: int| from <= j < end ==> #[trigger] chars@[j] != separator,
        decreases n - end,
    {
        if chars[end] == separator {
            let ghost rest = s@.skip(from as int);
            let ghost at = end - from;
            let ghost before = texts(r@);
            proof {
                assert(rest.subrange(at, at + 1) =~= seq![separator]);
                assert forall|j: int| 0 <= j < at implies !#[trigger] occurs_at(
                    rest,
                    seq![separator],
                    j,
                ) by {
                    assert(rest.subrange(j, j + 1)[0] == chars@[from + j]);
                }
                lemma_find_is(rest, seq![separator], at);
            }
            let piece = string_from(&chars, from, end);
            assert(piece@ =~= rest.take(at));
            r.push(piece);
            assert(texts(r@) =~= before.push(piece@));
            assert(rest.skip(at + 1) =~= s@.skip(end + 1));
            assert(texts(r@) + split(s@.skip(end + 1), separator) =~= before + split(
                rest,
                separator,
            ));
            from = end + 1;
        }
        end += 1;
    }
    let ghost rest = s@.skip(from as int);
    let ghost before = texts(r@);
    proof {
        assert forall|j: int| !occurs_at(rest, seq![separator], j) by {
            if occurs_at(rest, seq![separator], j) {
                assert(rest.subrange(j, j + 1)[0] == chars@[from + j]);
            }
        }
    }
    let piece = string_from(&chars, from, n);
    assert(piece@ =~= rest);
    r.push(piece);
    assert(texts(r@) =~= before.push(piece@));
    assert(texts(r@) =~= before + split(rest, separator));
    r
}

// ---------------------------------------------------------------------------------------------
// Decimal numbers.

/// The value of a run of decimal digits.
pub open spec fn decimal(digits: Seq<char>) -> nat
    decreases digits.len(),
{
    if digits.len() == 0 {
        0
    } else {
        decimal(digits.drop_last()) * 10 + (digits.last() as nat - '0' as nat) as nat
    }
}

pub open spec fn all_digits(s: Seq<char>) -> bool {
    forall|i: int| 0 <= i < s.len() ==> digit(#[trigger] s[i])
}

/// A decimal number no greater than `max`, written as one digit or more.
pub open spec fn number_up_to(digits: Seq<char>, max: nat) -> Option<nat> {
    if digits.len() > 0 && all_digits(digits) && decimal(digits) <= max {
        Some(decimal(digits))
    } else {
        None
    }
}

/// More digits make no smaller a number.
proof fn lemma_decimal_grows(digits: Seq<char>, i: int)
    requires
        0 <= i <= digits.len(),
    ensures
        decimal(digits.take(i)) <= decimal(digits),
    decreases digits.len() - i,
{
    if i < digits.len() {
        lemma_decimal_grows(digits, i + 1);
        assert(digits.take(i + 1).drop_last() =~= digits.take(i));
    } else {
        assert(digits.take(i) =~= digits);
    }
}

pub fn parse_up_to(chars: &Vec<char>, from: usize, to: usize, max: u64) -> (r: Option<u64>)
    requires
        from <= to <= chars@.len(),
    ensures
        match r {
            Some(n) => number_up_to(chars@.subrange(from as int, to as int), max as nat) == Some(
                n as nat,
            ),
            None => number_up_to(chars@.subrange(from as int, to as int), max as nat) is None,
        },
{
    let ghost digits = chars@.subrange(from as int, to as int);
    if from == to {
        return None;
    }
    let mut n: u64 = 0;
    let mut i: usize = from;
    assert(digits.take(0) =~= Seq::empty());
    while i < to
        invariant
            from <= i <= to <= chars@.len(),
            digits == chars@.subrange(from as int, to as int),
            n == decimal(digits.take(i - from)),
            n <= max,
            forall|j: int| 0 <= j < i - from ==> digit(#[trigger] digits[j]),
        decreases to - i,
    {
        let c = chars[i];
        assert(c == digits[i - from]);
        if !is_digit(c) {
            return None;
        }
        let d: u64 = (c as u8 - 48) as u64;
        assert(digits.take(i - from + 1).drop_last() =~= digits.take(i - from));
        assert(decimal(digits.take(i - from + 1)) == n * 10 + d);
        proof {
            lemma_decimal_grows(digits, i - from + 1);
        }
        if d > max || n > (max - d) / 10 {
            return None;
        }
        n = n * 10 + d;
        i += 1;
    }
    assert(digits.take(to - from) =~= digits);
    Some(n)
}

// ---------------------------------------------------------------------------------------------
// Lines.

/// A line without the carriage return that ends it.
pub open spec fn without_cr(s: Seq<char>) -> Seq<char> {
    if s.len() > 0 && s.last() == '\r' {
        s.drop_last()
    } else {
        s
    }
}

/// The lines of a text. A line ends with a line feed, which a carriage return may precede; the
/// last line may end without either.
pub open spec fn lines(s: Seq<char>) -> Seq<Seq<char>>
    decreases s.len(),
{
    if s.len() == 0 {
        Seq::empty()
    } else {
        match find(s, seq!['\n']) {
            Some(i) => if 0 <= i < s.len() {
                seq![without_cr(s.take(i))] + lines(s.skip(i + 1))
            } else {
                seq![s]
            },
            None => seq![s],
        }
    }
}

pub fn lines_of(s: &str) -> (r: Vec<String>)
    ensures
        texts(r@) == lines(s@),
{
    let chars = chars_of(s);
    let mut r: Vec<String> = Vec::new();
    let mut from: usize = 0;
    assert(s@.skip(0) =~= s@);
    assert(texts(r@) + lines(s@) =~= lines(s@));
    let newline: Vec<char> = vec!['\n'];
    assert(newline@ =~= seq!['\n']);
    while from < chars.len()
        invariant
            from <= chars@.len(),
            chars@ == s@,
            newline@ == seq!['\n'],
            texts(r@) + lines(s@.skip(from as int)) == lines(s@),
        decreases chars@.len() - from,
    {
        let ghost rest = s@.skip(from as int);
        let mut end: usize = from;
        while end < chars.len() && chars[end] != '\n'
            invariant
                from <= end <= chars@.len(),
                forall|j: int| from <= j < end ==> #[trigger] chars@[j] != '\n',
            decreases chars@.len() - end,
        {
            end += 1;
        }
        let ghost before = texts(r@);
        if end < chars.len() {
            let ghost at = end - from;
            proof {
                assert(rest.subrange(at, at + 1) =~= seq!['\n']);
                assert forall|j: int| 0 <= j < at implies !#[trigger] occurs_at(
                    rest,
                    seq!['\n'],
                    j,
                ) by {
                    assert(rest.subrange(j, j + 1)[0] == chars@[from + j]);
                }
                lemma_find_is(rest, seq!['\n'], at);
            }
            let stop: usize = if end > from && chars[end - 1] == '\r' {
                end - 1
            } else {
                end
            };
            let line = string_from(&chars, from, stop);
            assert(line@ =~= without_cr(rest.take(at)));
            r.push(line);
            assert(texts(r@) =~= before.push(line@));
            assert(rest.skip(at + 1) =~= s@.skip(end + 1));
            assert(texts(r@) + lines(s@.skip(end + 1)) =~= before + lines(rest));
            from = end + 1;
        } else {
            proof {
                assert forall|j: int| !occurs_at(rest, seq!['\n'], j) by {
                    if occurs_at(rest, seq!['\n'], j) {
                        assert(rest.subrange(j, j + 1)[0] == chars@[from + j]);
                    }
                }
            }
            let n = chars.len();
            let line = string_from(&chars, from, n);
            assert(line@ =~= rest);
            r.push(line);
            assert(texts(r@) =~= before.push(line@));
            assert(texts(r@) + lines(s@.skip(n as int)) =~= before + lines(rest));
            from = n;
        }
    }
    assert(lines(s@.skip(from as int)) =~= Seq::empty());
    assert(texts(r@) =~= lines(s@));
    r
}

// ---------------------------------------------------------------------------------------------
// Order.

/// One text comes before another: by the first character in which they differ, and a text before
/// those that continue it.
pub open spec fn text_before(a: Seq<char>, b: Seq<char>) -> bool
    decreases a.len(),
{
    if b.len() == 0 {
        false
    } else if a.len() == 0 {
        true
    } else if a[0] == b[0] {
        text_before(a.drop_first(), b.drop_first())
    } else {
        a[0] < b[0]
    }
}

/// Whether one text comes before another.
pub fn is_text_before(a: &str, b: &str) -> (r: bool)
    ensures
        r == text_before(a@, b@),
{
    let left = chars_of(a);
    let right = chars_of(b);
    let mut i: usize = 0;
    assert(left@.skip(0) =~= left@);
    assert(right@.skip(0) =~= right@);
    while i < left.len() && i < right.len() && left[i] == right[i]
        invariant
            i <= left@.len(),
            i <= right@.len(),
            text_before(left@, right@) == text_before(left@.skip(i as int), right@.skip(i as int)),
        decreases left@.len() - i,
    {
        assert(left@.skip(i as int).drop_first() =~= left@.skip(i + 1));
        assert(right@.skip(i as int).drop_first() =~= right@.skip(i + 1));
        i += 1;
    }
    if i == right.len() {
        false
    } else if i == left.len() {
        true
    } else {
        left[i] < right[i]
    }
}

} // verus!
