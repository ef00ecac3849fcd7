//! How a stream is cut into frames, and how events are framed.
use crate::proxy::sse::{
    blank_line, crlf_blank_line, decoded, frame_boundary, frame_items, framed_event,
    items_of_lines, keep_alive, line_items, ItemSpec,
};
use crate::text::{blank, lemma_find_first, lines, occurs_at, starts_with, trim};
use vstd::prelude::*;

verus! {

/// A frame ends at the first blank line, whichever way its lines end.
pub proof fn law_first_blank_line_ends_a_frame(s: Seq<char>)
    ensures
        ({
            let feeds = seq!['\n', '\n'];
            let both = seq!['\r', '\n', '\r', '\n'];
            match frame_boundary(s) {
                Some((at, len)) => {
                    &&& len == 2 && occurs_at(s, feeds, at) || len == 4 && occurs_at(s, both, at)
                    &&& forall|k: int|
                        0 <= k < at ==> !#[trigger] occurs_at(s, feeds, k) && !occurs_at(
                            s,
                            both,
                            k,
                        )
                },
                None => forall|k: int| !#[trigger] occurs_at(s, feeds, k) && !occurs_at(
                    s,
                    both,
                    k,
                ),
            }
        }),
{
    lemma_find_first(s, blank_line());
    lemma_find_first(s, crlf_blank_line());
}

/// What was received is read frame by frame: of a text in which the first blank line stands at
/// `at`, the decoder hands out what the frame before it brings and then what the rest brings.
/// Without a blank line it hands out nothing, and keeps all of the text.
pub proof fn law_frames_are_read_in_turn(s: Seq<char>, at: int, feeds: Seq<char>, both: Seq<char>)
    requires
        feeds == seq!['\n', '\n'],
        both == seq!['\r', '\n', '\r', '\n'],
        0 <= at,
        forall|k: int|
            0 <= k < at ==> !#[trigger] occurs_at(s, feeds, k) && !occurs_at(s, both, k),
    ensures
        occurs_at(s, feeds, at) ==> decoded(s).0 == frame_items(s.take(at)) + decoded(
            s.skip(at + 2),
        ).0 && decoded(s).1 == decoded(s.skip(at + 2)).1,
        occurs_at(s, both, at) ==> decoded(s).0 == frame_items(s.take(at)) + decoded(
            s.skip(at + 4),
        ).0 && decoded(s).1 == decoded(s.skip(at + 4)).1,
        at >= s.len() ==> decoded(s).0.len() == 0 && decoded(s).1 == s,
{
    assert(blank_line() =~= feeds);
    assert(crlf_blank_line() =~= both);
    lemma_find_first(s, feeds);
    lemma_find_first(s, both);
    if occurs_at(s, feeds, at) {
        assert(s.subrange(at, at + 2)[0] == '\n');
    }
    if occurs_at(s, both, at) {
        assert(s.subrange(at, at + 4)[0] == '\r');
    }
    if let Some((found, _)) = frame_boundary(s) {
        assert(occurs_at(s, feeds, found) || occurs_at(s, both, found));
        if occurs_at(s, feeds, found) {
            assert(s.subrange(found, found + 2)[0] == '\n');
        }
        if occurs_at(s, both, found) {
            assert(s.subrange(found, found + 4)[0] == '\r');
        }
    }
}

/// A line that starts with `data: ` brings what follows, or the mark at the end of a stream where
/// that is all that follows; any other line brings nothing.
pub proof fn law_data_lines_bring_data(data: Seq<char>, line: Seq<char>)
    ensures
        trim(data) == "[DONE]"@ ==> line_items("data: "@ + data) == seq![ItemSpec::Done],
        trim(data) != "[DONE]"@ ==> line_items("data: "@ + data) == seq![ItemSpec::Data(data)],
        !starts_with(line, "data: "@) ==> line_items(line).len() == 0,
{
    reveal_strlit("data: ");
    let whole = "data: "@ + data;
    assert(whole.subrange(0, 6) =~= "data: "@);
    assert(whole.skip(6) =~= data);
}

/// A frame brings what its lines bring, in order; a blank one brings nothing.
pub proof fn law_lines_bring_in_order(all: Seq<Seq<char>>, last: Seq<char>, frame: Seq<char>)
    ensures
        items_of_lines(Seq::empty()).len() == 0,
        items_of_lines(all.push(last)) == items_of_lines(all) + line_items(last),
        blank(frame) ==> frame_items(frame).len() == 0,
        !blank(frame) ==> frame_items(frame) == items_of_lines(lines(frame)),
{
    assert(all.push(last).drop_last() =~= all);
}

/// An event is framed as two lines, its name and its data, and a blank line.
pub proof fn law_event_is_framed(name: Seq<char>, data: Seq<char>)
    ensures
        framed_event(name, data) == "event: "@ + name + seq!['\n'] + "data: "@ + data + seq![
            '\n',
            '\n',
        ],
        keep_alive() == ": keep-alive"@ + seq!['\n', '\n'],
{
    reveal_strlit("\ndata: ");
    reveal_strlit("data: ");
    reveal_strlit("\n\n");
    reveal_strlit(": keep-alive");
    reveal_strlit(": keep-alive\n\n");
    assert(framed_event(name, data) =~= "event: "@ + name + seq!['\n'] + "data: "@ + data + seq![
        '\n',
        '\n',
    ]);
    assert(keep_alive() =~= ": keep-alive"@ + seq!['\n', '\n']);
}

} // verus!
