//! Both ways to end a line are read alike.
use crate::proxy::sse::{
    blank_line, crlf_blank_line, decoded, frame_boundary, frame_items, lemma_char_of_pattern,
};
use crate::text::{
    blank, find, lemma_find_first, lemma_find_is, lines, occurs_at, space, without_cr,
};
use vstd::prelude::*;

verus! {

/// A character with a carriage return before it where it is a line feed.
pub open spec fn crlf_char(c: char) -> Seq<char> {
    if c == '\n' {
        seq!['\r', '\n']
    } else {
        seq![c]
    }
}

/// The text with every line feed written as carriage return and line feed.
pub open spec fn with_crlf(s: Seq<char>) -> Seq<char>
    decreases s.len(),
{
    if s.len() == 0 {
        Seq::empty()
    } else {
        with_crlf(s.drop_last()) + crlf_char(s.last())
    }
}

pub open spec fn no_cr(s: Seq<char>) -> bool {
    forall|i: int| 0 <= i < s.len() ==> #[trigger] s[i] != '\r'
}

proof fn lemma_crlf_concat(a: Seq<char>, b: Seq<char>)
    ensures
        with_crlf(a + b) == with_crlf(a) + with_crlf(b),
    decreases b.len(),
{
    if b.len() == 0 {
        assert(a + b =~= a);
        assert(with_crlf(a) + with_crlf(b) =~= with_crlf(a));
    } else {
        lemma_crlf_concat(a, b.drop_last());
        assert((a + b).drop_last() =~= a + b.drop_last());
        assert((a + b).last() == b.last());
        assert(with_crlf(a + b) =~= with_crlf(a) + with_crlf(b));
    }
}

/// The written text up to and from a position.
proof fn lemma_crlf_split(s: Seq<char>, k: int)
    requires
        0 <= k <= s.len(),
    ensures
        with_crlf(s) == with_crlf(s.take(k)) + with_crlf(s.skip(k)),
{
    lemma_crlf_concat(s.take(k), s.skip(k));
    assert(s.take(k) + s.skip(k) =~= s);
}

/// What is written at the place of a character.
proof fn lemma_crlf_at(s: Seq<char>, k: int)
    requires
        0 <= k < s.len(),
    ensures
        with_crlf(s.take(k + 1)) == with_crlf(s.take(k)) + crlf_char(s[k]),
        with_crlf(s) == with_crlf(s.take(k)) + crlf_char(s[k]) + with_crlf(s.skip(k + 1)),
{
    let next = s.take(k + 1);
    assert(next.drop_last() =~= s.take(k));
    assert(next.last() == s[k]);
    lemma_crlf_split(s, k + 1);
}

/// More text is written longer.
proof fn lemma_crlf_grows(s: Seq<char>, j: int, k: int)
    requires
        0 <= j < k <= s.len(),
    ensures
        with_crlf(s.take(j)).len() < with_crlf(s.take(k)).len(),
    decreases k - j,
{
    lemma_crlf_at(s, k - 1);
    if j < k - 1 {
        lemma_crlf_grows(s, j, k - 1);
    }
}

/// A carriage return is written for a line feed only, and a line feed follows it.
proof fn lemma_cr_is_written(s: Seq<char>, j: int) -> (k: int)
    requires
        no_cr(s),
        0 <= j < with_crlf(s).len(),
        with_crlf(s)[j] == '\r',
    ensures
        0 <= k < s.len(),
        s[k] == '\n',
        with_crlf(s.take(k)).len() == j,
    decreases s.len(),
{
    let before = s.drop_last();
    let written = with_crlf(before);
    let last = s.len() - 1;
    if j < written.len() {
        assert(with_crlf(s)[j] == written[j]);
        assert forall|i: int| 0 <= i < before.len() implies #[trigger] before[i] != '\r' by {
            assert(before[i] == s[i]);
        }
        let k = lemma_cr_is_written(before, j);
        assert(before.take(k) =~= s.take(k));
        k
    } else {
        assert(with_crlf(s)[j] == crlf_char(s.last())[j - written.len()]);
        assert(s[last] != '\r');
        assert(before =~= s.take(last));
        last
    }
}

/// A line feed is written with a carriage return before it.
proof fn lemma_lf_behind_cr(s: Seq<char>, j: int)
    requires
        0 <= j < with_crlf(s).len(),
        with_crlf(s)[j] == '\n',
    ensures
        j > 0,
        with_crlf(s)[j - 1] == '\r',
    decreases s.len(),
{
    let written = with_crlf(s.drop_last());
    if j < written.len() {
        assert(with_crlf(s)[j] == written[j]);
        lemma_lf_behind_cr(s.drop_last(), j);
        assert(with_crlf(s)[j - 1] == written[j - 1]);
    } else {
        assert(with_crlf(s)[j] == crlf_char(s.last())[j - written.len()]);
        assert(with_crlf(s)[j - 1] == crlf_char(s.last())[j - 1 - written.len()]);
    }
}

proof fn lemma_no_lf_blank_line(s: Seq<char>, j: int)
    ensures
        !occurs_at(with_crlf(s), blank_line(), j),
{
    let t = with_crlf(s);
    if occurs_at(t, blank_line(), j) {
        lemma_char_of_pattern(t, blank_line(), j, 0);
        lemma_char_of_pattern(t, blank_line(), j, 1);
        lemma_lf_behind_cr(s, j + 1);
    }
}

/// A blank line is written as a blank line of the other kind.
proof fn lemma_blank_line_is_written(s: Seq<char>, k: int)
    requires
        occurs_at(s, blank_line(), k),
    ensures
        occurs_at(with_crlf(s), crlf_blank_line(), with_crlf(s.take(k)).len() as int),
        with_crlf(s.take(k + 2)).len() == with_crlf(s.take(k)).len() + 4,
        with_crlf(s).skip(with_crlf(s.take(k)).len() as int + 4) == with_crlf(s.skip(k + 2)),
        with_crlf(s).take(with_crlf(s.take(k)).len() as int) == with_crlf(s.take(k)),
{
    let t = with_crlf(s);
    let before = with_crlf(s.take(k));
    let rest = with_crlf(s.skip(k + 2));
    let at = before.len() as int;
    lemma_char_of_pattern(s, blank_line(), k, 0);
    lemma_char_of_pattern(s, blank_line(), k, 1);
    lemma_crlf_at(s, k);
    lemma_crlf_at(s, k + 1);
    lemma_crlf_split(s, k + 2);
    let middle = crlf_char('\n') + crlf_char('\n');
    assert(with_crlf(s.take(k + 2)) =~= before + middle);
    assert(t =~= before + middle + rest);
    assert(middle =~= crlf_blank_line());
    assert(t.subrange(at, at + 4) =~= crlf_blank_line());
    assert(t.skip(at + 4) =~= rest);
    assert(t.take(at) =~= before);
}

/// A blank line of the other kind is written for a blank line only.
proof fn lemma_blank_line_was_written(s: Seq<char>, j: int) -> (k: int)
    requires
        no_cr(s),
        occurs_at(with_crlf(s), crlf_blank_line(), j),
    ensures
        occurs_at(s, blank_line(), k),
        with_crlf(s.take(k)).len() == j,
{
    let t = with_crlf(s);
    lemma_char_of_pattern(t, crlf_blank_line(), j, 0);
    lemma_char_of_pattern(t, crlf_blank_line(), j, 2);
    let k = lemma_cr_is_written(s, j);
    let m = lemma_cr_is_written(s, j + 2);
    lemma_crlf_at(s, k);
    assert(with_crlf(s.take(k + 1)).len() == j + 2);
    if m < k + 1 {
        lemma_crlf_grows(s, m, k + 1);
    }
    if k + 1 < m {
        lemma_crlf_grows(s, k + 1, m);
    }
    assert(s.subrange(k, k + 2) =~= blank_line());
    k
}

/// The end of the first frame is written as the end of the first frame.
proof fn lemma_boundary_is_written(s: Seq<char>)
    requires
        no_cr(s),
    ensures
        match frame_boundary(s) {
            Some((at, len)) => len == 2 && occurs_at(s, blank_line(), at) && frame_boundary(
                with_crlf(s),
            ) == Some((with_crlf(s.take(at)).len() as int, 4int)),
            None => frame_boundary(with_crlf(s)) is None,
        },
{
    let t = with_crlf(s);
    lemma_find_first(s, blank_line());
    lemma_find_first(s, crlf_blank_line());
    lemma_find_first(t, blank_line());
    lemma_find_first(t, crlf_blank_line());
    if find(s, crlf_blank_line()) is Some {
        let i = find(s, crlf_blank_line())->0;
        lemma_char_of_pattern(s, crlf_blank_line(), i, 0);
        assert(s[i] == '\r');
    }
    if find(t, blank_line()) is Some {
        lemma_no_lf_blank_line(s, find(t, blank_line())->0);
    }
    if find(s, blank_line()) is Some {
        let at = find(s, blank_line())->0;
        let written = with_crlf(s.take(at)).len() as int;
        lemma_blank_line_is_written(s, at);
        assert forall|j: int| 0 <= j < written implies !#[trigger] occurs_at(
            t,
            crlf_blank_line(),
            j,
        ) by {
            if occurs_at(t, crlf_blank_line(), j) {
                let k = lemma_blank_line_was_written(s, j);
                if k < at {
                    assert(!occurs_at(s, blank_line(), k));
                } else if at < k {
                    lemma_crlf_grows(s, at, k);
                }
            }
        }
        lemma_find_is(t, crlf_blank_line(), written);
    } else if find(t, crlf_blank_line()) is Some {
        let k = lemma_blank_line_was_written(s, find(t, crlf_blank_line())->0);
        assert(!occurs_at(s, blank_line(), k));
    }
}

/// Text without line feeds is written as it is.
proof fn lemma_one_line_is_written(s: Seq<char>)
    requires
        forall|i: int| 0 <= i < s.len() ==> #[trigger] s[i] != '\n',
    ensures
        with_crlf(s) == s,
    decreases s.len(),
{
    if s.len() > 0 {
        let before = s.drop_last();
        assert forall|i: int| 0 <= i < before.len() implies #[trigger] before[i] != '\n' by {
            assert(before[i] == s[i]);
        }
        lemma_one_line_is_written(before);
        assert(s[s.len() - 1] != '\n');
        assert(with_crlf(s) =~= s);
    } else {
        assert(with_crlf(s) =~= s);
    }
}

/// The lines stay the same.
proof fn lemma_lines_are_written(s: Seq<char>)
    requires
        no_cr(s),
    ensures
        lines(with_crlf(s)) == lines(s),
    decreases s.len(),
{
    let newline = seq!['\n'];
    let t = with_crlf(s);
    lemma_find_first(s, newline);
    if s.len() == 0 {
        assert(t =~= s);
    } else if find(s, newline) is None {
        assert forall|i: int| 0 <= i < s.len() implies #[trigger] s[i] != '\n' by {
            if s[i] == '\n' {
                assert(s.subrange(i, i + 1) =~= newline);
                assert(occurs_at(s, newline, i));
            }
        }
        lemma_one_line_is_written(s);
    } else {
        let at = find(s, newline)->0;
        let first = s.take(at);
        let rest = s.skip(at + 1);
        lemma_char_of_pattern(s, newline, at, 0);
        assert forall|i: int| 0 <= i < first.len() implies #[trigger] first[i] != '\n' by {
            if first[i] == '\n' {
                assert(s.subrange(i, i + 1) =~= newline);
                assert(occurs_at(s, newline, i));
            }
        }
        lemma_one_line_is_written(first);
        lemma_crlf_at(s, at);
        assert(t =~= first + crlf_char('\n') + with_crlf(rest));
        assert(t.subrange(at + 1, at + 2) =~= newline);
        assert forall|j: int| 0 <= j < at + 1 implies !#[trigger] occurs_at(t, newline, j) by {
            if occurs_at(t, newline, j) {
                lemma_char_of_pattern(t, newline, j, 0);
                if j < at {
                    assert(t[j] == first[j]);
                } else {
                    assert(t[j] == '\r');
                }
            }
        }
        lemma_find_is(t, newline, at + 1);
        assert(t.take(at + 1) =~= first.push('\r'));
        assert(first.push('\r').drop_last() =~= first);
        assert(t.skip(at + 2) =~= with_crlf(rest));
        assert(without_cr(first) == first) by {
            if first.len() > 0 {
                assert(first.last() == s[at - 1]);
            }
        }
        assert forall|i: int| 0 <= i < rest.len() implies #[trigger] rest[i] != '\r' by {
            assert(rest[i] == s[at + 1 + i]);
        }
        lemma_lines_are_written(rest);
        assert(t.len() > 0);
    }
}

proof fn lemma_blank_is_written(s: Seq<char>)
    ensures
        blank(with_crlf(s)) == blank(s),
    decreases s.len(),
{
    if s.len() == 0 {
        assert(with_crlf(s) =~= s);
    } else {
        let before = s.drop_last();
        let written = with_crlf(before);
        let last = crlf_char(s.last());
        let t = with_crlf(s);
        lemma_blank_is_written(before);
        if blank(s) {
            assert forall|i: int| 0 <= i < before.len() implies space(#[trigger] before[i]) by {
                assert(before[i] == s[i]);
            }
            assert(space(s[s.len() - 1]));
            assert forall|i: int| 0 <= i < t.len() implies space(#[trigger] t[i]) by {
                if i < written.len() {
                    assert(t[i] == written[i]);
                } else {
                    assert(t[i] == last[i - written.len()]);
                }
            }
        }
        if blank(t) {
            assert forall|i: int| 0 <= i < written.len() implies space(#[trigger] written[i]) by {
                assert(t[i] == written[i]);
            }
            let end = t.len() - 1;
            assert(t[end] == last[end - written.len()]);
            assert(space(t[end]));
            assert(space(s.last()));
            assert forall|i: int| 0 <= i < s.len() implies space(#[trigger] s[i]) by {
                if i < before.len() {
                    assert(space(before[i]));
                }
            }
        }
    }
}

/// A text with every line feed written as carriage return and line feed brings the same.
pub proof fn law_line_ends_do_not_matter(s: Seq<char>)
    requires
        no_cr(s),
    ensures
        decoded(with_crlf(s)).0 == decoded(s).0,
        decoded(with_crlf(s)).1 == with_crlf(decoded(s).1),
    decreases s.len(),
{
    let t = with_crlf(s);
    lemma_boundary_is_written(s);
    match frame_boundary(s) {
        Some((at, len)) => {
            let frame = s.take(at);
            let rest = s.skip(at + 2);
            let written = with_crlf(frame);
            lemma_blank_line_is_written(s, at);
            assert(no_cr(frame)) by {
                assert forall|i: int| 0 <= i < frame.len() implies #[trigger] frame[i] != '\r' by {
                    assert(frame[i] == s[i]);
                }
            }
            assert(no_cr(rest)) by {
                assert forall|i: int| 0 <= i < rest.len() implies #[trigger] rest[i] != '\r' by {
                    assert(rest[i] == s[at + 2 + i]);
                }
            }
            lemma_lines_are_written(frame);
            lemma_blank_is_written(frame);
            assert(frame_items(written) == frame_items(frame));
            law_line_ends_do_not_matter(rest);
        },
        None => {},
    }
}

} // verus!
