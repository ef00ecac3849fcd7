//! Taking texts apart and putting them together.
use crate::text::{
    all_digits, ascii_space, blank, decimal, digit, find, join, lemma_find_first, lemma_find_is,
    lines, lower, lowered, number_up_to, occurs_at, space, split, split_once, starts_with,
    text_before, trim, trim_end, trim_start, word_char,
};
use vstd::prelude::*;

verus! {

/// Texts are joined in order, with the separator between any two.
pub proof fn law_join(parts: Seq<Seq<char>>, last: Seq<char>, separator: Seq<char>)
    ensures
        join(Seq::empty(), separator) == Seq::<char>::empty(),
        join(seq![last], separator) == last,
        parts.len() > 0 ==> join(parts.push(last), separator) == join(parts, separator) + separator
            + last,
{
    assert(parts.push(last).drop_last() =~= parts);
}

/// Where a character is found, it stands, and not before.
proof fn lemma_found(s: Seq<char>, c: char)
    ensures
        match find(s, seq![c]) {
            Some(i) => 0 <= i < s.len() && s[i] == c && !s.take(i).contains(c),
            None => !s.contains(c),
        },
{
    let one = seq![c];
    lemma_find_first(s, one);
    match find(s, one) {
        Some(i) => {
            assert(s.subrange(i, i + 1)[0] == one[0]);
            let first = s.take(i);
            if first.contains(c) {
                let j = choose|j: int| 0 <= j < first.len() && first[j] == c;
                assert(s.subrange(j, j + 1) =~= one);
                assert(occurs_at(s, one, j));
            }
        },
        None => {
            if s.contains(c) {
                let j = choose|j: int| 0 <= j < s.len() && s[j] == c;
                assert(s.subrange(j, j + 1) =~= one);
                assert(occurs_at(s, one, j));
            }
        },
    }
}

/// What a separator splits is joined by it again.
pub proof fn law_split_is_undone(s: Seq<char>, separator: char)
    ensures
        split(s, separator).len() > 0,
        join(split(s, separator), seq![separator]) == s,
    decreases s.len(),
{
    let one = seq![separator];
    lemma_found(s, separator);
    match find(s, one) {
        Some(i) => {
            let first = s.take(i);
            let rest = s.skip(i + 1);
            law_split_is_undone(rest, separator);
            lemma_join_front(first, split(rest, separator), one);
            assert(first + one + rest =~= s);
        },
        None => {},
    }
}

/// No piece holds the separator.
pub proof fn law_pieces_hold_no_separator(s: Seq<char>, separator: char, k: int)
    requires
        0 <= k < split(s, separator).len(),
    ensures
        !split(s, separator)[k].contains(separator),
    decreases s.len(),
{
    lemma_found(s, separator);
    match find(s, seq![separator]) {
        Some(i) => {
            let rest = s.skip(i + 1);
            if k > 0 {
                law_pieces_hold_no_separator(rest, separator, k - 1);
            }
        },
        None => {},
    }
}

/// The first of joined texts stands in front, and the separator behind it.
pub proof fn lemma_join_front(first: Seq<char>, rest: Seq<Seq<char>>, separator: Seq<char>)
    requires
        rest.len() > 0,
    ensures
        join(seq![first] + rest, separator) == first + separator + join(rest, separator),
    decreases rest.len(),
{
    let all = seq![first] + rest;
    assert(all.drop_last() =~= seq![first] + rest.drop_last());
    assert(all.last() == rest.last());
    if rest.len() == 1 {
        assert(all.drop_last() =~= seq![first]);
        assert(join(all.drop_last(), separator) == first);
        assert(join(rest, separator) == rest.last());
    } else {
        lemma_join_front(first, rest.drop_last(), separator);
    }
    assert(join(all, separator) =~= first + separator + join(rest, separator));
}

/// Two texts with the separator between them split into the pieces of both.
pub proof fn law_split_in_parts(a: Seq<char>, b: Seq<char>, separator: char)
    ensures
        split(a + seq![separator] + b, separator) == split(a, separator) + split(b, separator),
    decreases a.len(),
{
    let one = seq![separator];
    let whole = a + one + b;
    lemma_find_first(a, one);
    match find(a, one) {
        Some(i) => {
            let rest = a.skip(i + 1);
            assert(a.subrange(i, i + 1)[0] == one[0]);
            assert(whole.subrange(i, i + 1) =~= one);
            assert forall|j: int| 0 <= j < i implies !#[trigger] occurs_at(whole, one, j) by {
                if occurs_at(whole, one, j) {
                    assert(whole.subrange(j, j + 1)[0] == one[0]);
                    assert(a.subrange(j, j + 1) =~= one);
                    assert(occurs_at(a, one, j));
                }
            }
            lemma_find_is(whole, one, i);
            assert(whole.take(i) =~= a.take(i));
            assert(whole.skip(i + 1) =~= rest + one + b);
            law_split_in_parts(rest, b, separator);
            assert(split(whole, separator) =~= split(a, separator) + split(b, separator));
        },
        None => {
            let i = a.len() as int;
            assert(whole.subrange(i, i + 1) =~= one);
            assert forall|j: int| 0 <= j < i implies !#[trigger] occurs_at(whole, one, j) by {
                if occurs_at(whole, one, j) {
                    assert(whole.subrange(j, j + 1)[0] == one[0]);
                    assert(a.subrange(j, j + 1) =~= one);
                    assert(occurs_at(a, one, j));
                }
            }
            lemma_find_is(whole, one, i);
            assert(whole.take(i) =~= a);
            assert(whole.skip(i + 1) =~= b);
            assert(split(a, separator) =~= seq![a]);
            assert(split(whole, separator) =~= split(a, separator) + split(b, separator));
        },
    }
}

/// What stands before and behind the first occurrence of a pattern makes up the text with it.
pub proof fn law_split_once_is_undone(s: Seq<char>, pattern: Seq<char>)
    requires
        pattern.len() > 0,
    ensures
        match split_once(s, pattern) {
            Some((before, behind)) => {
                &&& s == before + pattern + behind
                &&& forall|a: Seq<char>, b: Seq<char>| #[trigger]
                    (a + pattern + b) == s ==> a.len() >= before.len()
            },
            None => forall|a: Seq<char>, b: Seq<char>| #[trigger] (a + pattern + b) != s,
        },
{
    lemma_find_first(s, pattern);
    let n = pattern.len() as int;
    match find(s, pattern) {
        Some(i) => {
            let before = s.take(i);
            let behind = s.skip(i + n);
            assert(s.subrange(i, i + n) == pattern);
            assert(before + s.subrange(i, i + n) + behind =~= s);
            assert forall|a: Seq<char>, b: Seq<char>| #[trigger] (a + pattern + b) == s implies
                a.len() >= before.len() by {
                let k = a.len() as int;
                assert((a + pattern + b).subrange(k, k + n) =~= pattern);
                assert(occurs_at(s, pattern, k));
            }
        },
        None => {
            assert forall|a: Seq<char>, b: Seq<char>| #[trigger] (a + pattern + b) != s by {
                let whole = a + pattern + b;
                let k = a.len() as int;
                assert(whole.subrange(k, k + n) =~= pattern);
                if whole == s {
                    assert(occurs_at(s, pattern, k));
                }
            }
        },
    }
}

/// A text that a one-character pattern cuts is cut where it stands first.
pub proof fn law_split_once_at(a: Seq<char>, c: char, b: Seq<char>)
    requires
        !a.contains(c),
    ensures
        split_once(a + seq![c] + b, seq![c]) == Some((a, b)),
{
    let one = seq![c];
    let whole = a + one + b;
    let i = a.len() as int;
    assert(whole.subrange(i, i + 1) =~= one);
    assert forall|j: int| 0 <= j < i implies !#[trigger] occurs_at(whole, one, j) by {
        if occurs_at(whole, one, j) {
            assert(whole.subrange(j, j + 1)[0] == one[0]);
            assert(a[j] == c);
        }
    }
    lemma_find_is(whole, one, i);
    assert(whole.take(i) =~= a);
    assert(whole.skip(i + 1) =~= b);
}

/// A text starts with a prefix if and only if it is the prefix and something behind it.
pub proof fn law_starts_with(s: Seq<char>, prefix: Seq<char>, rest: Seq<char>)
    ensures
        starts_with(prefix + rest, prefix),
        starts_with(s, prefix) ==> s == prefix + s.skip(prefix.len() as int),
{
    assert((prefix + rest).subrange(0, prefix.len() as int) =~= prefix);
    if starts_with(s, prefix) {
        let n = prefix.len() as int;
        assert(s.subrange(0, n) == prefix);
        assert(s.subrange(0, n) + s.skip(n) =~= s);
    }
}

proof fn lemma_trim_start(s: Seq<char>)
    ensures
        exists|n: int|
            0 <= n <= s.len() && trim_start(s) == #[trigger] s.skip(n) && blank(s.take(n)),
        trim_start(s).len() > 0 ==> !space(trim_start(s)[0]),
    decreases s.len(),
{
    if s.len() > 0 && space(s[0]) {
        let rest = s.drop_first();
        lemma_trim_start(rest);
        let n = choose|n: int|
            0 <= n <= rest.len() && trim_start(rest) == #[trigger] rest.skip(n) && blank(
                rest.take(n),
            );
        assert(rest.skip(n) =~= s.skip(n + 1));
        assert forall|i: int| 0 <= i < n + 1 implies space(#[trigger] s.take(n + 1)[i]) by {
            if i > 0 {
                assert(rest.take(n)[i - 1] == s[i]);
            }
        }
        assert(blank(s.take(n + 1)));
    } else {
        assert(s.skip(0) =~= s);
        assert(blank(s.take(0)));
    }
}

proof fn lemma_trim_end(s: Seq<char>)
    ensures
        exists|n: int|
            0 <= n <= s.len() && trim_end(s) == #[trigger] s.take(n) && blank(s.skip(n)),
        trim_end(s).len() > 0 ==> !space(trim_end(s).last()),
    decreases s.len(),
{
    if s.len() > 0 && space(s.last()) {
        let rest = s.drop_last();
        lemma_trim_end(rest);
        let n = choose|n: int|
            0 <= n <= rest.len() && trim_end(rest) == #[trigger] rest.take(n) && blank(
                rest.skip(n),
            );
        assert(rest.take(n) =~= s.take(n));
        assert forall|i: int| 0 <= i < s.len() - n implies space(#[trigger] s.skip(n)[i]) by {
            if i < rest.len() - n {
                assert(rest.skip(n)[i] == s[n + i]);
            }
        }
        assert(blank(s.skip(n)));
    } else {
        let n = s.len() as int;
        assert(s.take(n) =~= s);
        assert(blank(s.skip(n)));
    }
}

/// Trimming takes white space off both ends and nothing else, and leaves none there.
pub proof fn law_trim(s: Seq<char>) -> (cut: (Seq<char>, Seq<char>))
    ensures
        s == cut.0 + trim(s) + cut.1,
        forall|i: int| 0 <= i < cut.0.len() ==> space(#[trigger] cut.0[i]),
        forall|i: int| 0 <= i < cut.1.len() ==> space(#[trigger] cut.1[i]),
        trim(s).len() > 0 ==> !space(trim(s)[0]) && !space(trim(s).last()),
{
    lemma_trim_start(s);
    let n = choose|n: int|
        0 <= n <= s.len() && trim_start(s) == #[trigger] s.skip(n) && blank(s.take(n));
    let rest = trim_start(s);
    lemma_trim_end(rest);
    let m = choose|m: int|
        0 <= m <= rest.len() && trim_end(rest) == #[trigger] rest.take(m) && blank(rest.skip(m));
    let cut = (s.take(n), rest.skip(m));
    assert(cut.0 + rest.take(m) + cut.1 =~= s);
    if m > 0 {
        assert(rest.take(m)[0] == rest[0]);
    }
    cut
}

/// White space: the ASCII kinds, and those beyond ASCII that count as such.
pub proof fn law_white_space(c: char)
    ensures
        c < '\u{80}' ==> (space(c) <==> c == ' ' || c == '\t' || c == '\n' || c == '\u{b}' || c
            == '\u{c}' || c == '\r'),
        c >= '\u{80}' ==> (space(c) <==> c == '\u{85}' || c == '\u{a0}' || c == '\u{1680}'
            || '\u{2000}' <= c <= '\u{200a}' || c == '\u{2028}' || c == '\u{2029}' || c == '\u{202f}'
            || c == '\u{205f}' || c == '\u{3000}'),
        ascii_space(c) <==> c == ' ' || c == '\t' || c == '\n' || c == '\u{c}' || c == '\r',
        ascii_space(c) ==> space(c),
{
}

/// Digits and the characters of words.
pub proof fn law_word_characters(c: char)
    ensures
        digit(c) <==> '0' <= c <= '9',
        word_char(c) <==> '0' <= c <= '9' || 'a' <= c <= 'z' || 'A' <= c <= 'Z' || c == '_',
{
}

/// A text is blank if and only if all of it is white space.
pub proof fn law_blank(s: Seq<char>)
    ensures
        blank(s) <==> trim(s).len() == 0,
{
    let cut = law_trim(s);
    if blank(s) && trim(s).len() > 0 {
        assert((cut.0 + trim(s) + cut.1)[cut.0.len() as int] == trim(s)[0]);
        assert(space(s[cut.0.len() as int]));
    }
    if trim(s).len() == 0 {
        assert forall|i: int| 0 <= i < s.len() implies space(#[trigger] s[i]) by {
            if i < cut.0.len() {
                assert(s[i] == cut.0[i]);
            } else {
                assert(s[i] == cut.1[i - cut.0.len()]);
            }
        }
    }
}

/// Lower case replaces the ASCII capitals, character by character.
pub proof fn law_lower_case(s: Seq<char>, i: int)
    requires
        0 <= i < s.len(),
    ensures
        lowered(s).len() == s.len(),
        'A' <= s[i] <= 'Z' ==> lowered(s)[i] as u32 == s[i] as u32 + 32,
        !('A' <= s[i] <= 'Z') ==> lowered(s)[i] == s[i],
{
    assert(lowered(s)[i] == lower(s[i]));
}

/// A decimal number grows digit by digit.
pub proof fn law_decimal(digits: Seq<char>, last: char)
    requires
        digit(last),
    ensures
        decimal(Seq::empty()) == 0,
        decimal(digits.push(last)) == 10 * decimal(digits) + (last as int - '0' as int),
{
    assert(digits.push(last).drop_last() =~= digits);
}

/// Only digits make a number, at least one and up to the limit.
pub proof fn law_number_up_to(digits: Seq<char>, max: nat)
    ensures
        match number_up_to(digits, max) {
            Some(n) => n == decimal(digits) && n <= max && digits.len() > 0 && forall|i: int|
                0 <= i < digits.len() ==> '0' <= #[trigger] digits[i] <= '9',
            None => digits.len() == 0 || decimal(digits) > max || exists|i: int|
                0 <= i < digits.len() && !('0' <= #[trigger] digits[i] <= '9'),
        },
{
    if number_up_to(digits, max) is None && digits.len() > 0 && decimal(digits) <= max {
        assert(!all_digits(digits));
        let i = choose|i: int| 0 <= i < digits.len() && !digit(#[trigger] digits[i]);
        assert(!('0' <= digits[i] <= '9'));
    }
}

/// A line feed ends a line, and so does a carriage return with a line feed; what follows is the
/// rest of the lines.
pub proof fn law_lines(line: Seq<char>, rest: Seq<char>)
    requires
        forall|i: int| 0 <= i < line.len() ==> #[trigger] line[i] != '\n' && line[i] != '\r',
    ensures
        lines(Seq::empty()).len() == 0,
        line.len() > 0 ==> lines(line) == seq![line],
        lines(line + seq!['\n'] + rest) == seq![line] + lines(rest),
        lines(line + seq!['\r', '\n'] + rest) == seq![line] + lines(rest),
{
    let feed = seq!['\n'];
    lemma_find_first(line, feed);
    if find(line, feed) is Some {
        let i = find(line, feed)->0;
        assert(line.subrange(i, i + 1)[0] == feed[0]);
        assert(line[i] == '\n');
    }
    let short = line + feed + rest;
    let long = line + seq!['\r', '\n'] + rest;
    let n = line.len() as int;
    assert(short.subrange(n, n + 1) =~= feed);
    assert forall|j: int| 0 <= j < n implies !#[trigger] occurs_at(short, feed, j) by {
        if occurs_at(short, feed, j) {
            assert(short.subrange(j, j + 1)[0] == feed[0]);
            assert(line[j] == '\n');
        }
    }
    lemma_find_is(short, feed, n);
    assert(short.take(n) =~= line);
    assert(short.skip(n + 1) =~= rest);
    if n > 0 {
        assert(line.last() == line[n - 1]);
    }
    assert(long.subrange(n + 1, n + 2) =~= feed);
    assert forall|j: int| 0 <= j < n + 1 implies !#[trigger] occurs_at(long, feed, j) by {
        if occurs_at(long, feed, j) {
            assert(long.subrange(j, j + 1)[0] == feed[0]);
            assert(long[j] == '\n');
            if j < n {
                assert(line[j] == '\n');
            }
        }
    }
    lemma_find_is(long, feed, n + 1);
    assert(long.take(n + 1) =~= line.push('\r'));
    assert(line.push('\r').drop_last() =~= line);
    assert(long.skip(n + 2) =~= rest);
}

/// Texts are ordered: one text comes before another, or the other before it, or they are the same.
pub proof fn law_texts_are_ordered(a: Seq<char>, b: Seq<char>)
    ensures
        text_before(a, b) ==> !text_before(b, a) && a != b,
        !text_before(a, b) && !text_before(b, a) ==> a == b,
        a.len() < b.len() && b.take(a.len() as int) == a ==> text_before(a, b),
    decreases a.len(),
{
    if a.len() > 0 && b.len() > 0 && a[0] == b[0] {
        let x = a.drop_first();
        let y = b.drop_first();
        law_texts_are_ordered(x, y);
        if a.len() < b.len() && b.take(a.len() as int) == a {
            assert(y.take(x.len() as int) =~= b.take(a.len() as int).drop_first());
        }
        if x == y {
            assert(seq![a[0]] + x =~= a);
            assert(seq![b[0]] + y =~= b);
        }
    } else if a.len() == 0 && b.len() == 0 {
        assert(a =~= b);
    } else if a.len() > 0 && b.len() > 0 {
        if a.len() < b.len() {
            assert(b.take(a.len() as int)[0] == b[0]);
        }
    }
}

} // verus!
