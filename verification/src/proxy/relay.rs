//! What a client gets for the text of an upstream's stream.
use crate::models::openai::StreamChunk;
use crate::proxy::line_ends::{law_line_ends_do_not_matter, no_cr, with_crlf};
use crate::proxy::sse::{
    decoded, frame_end, frame_items, framed_text, items_of_frames, law_complete_frames_stand_alone,
    law_frame_is_read, law_framing_does_not_matter, law_line_is_a_frame, one_line,
    whole_frame, ItemSpec,
};
use crate::text::{blank, starts_with, trim};
use crate::translate::stream::{
    law_unreadable_data_is_skipped, relayed, InputSpec, Run, StateSpec,
};
use vstd::prelude::*;

verus! {

/// What is read from an item, given which data are chunks.
pub open spec fn input_of(
    item: ItemSpec,
    read: spec_fn(Seq<char>) -> Option<StreamChunk>,
) -> InputSpec {
    match item {
        ItemSpec::Done => InputSpec::Done,
        ItemSpec::Data(data) => match read(data) {
            Some(chunk) => InputSpec::Chunk(chunk),
            None => InputSpec::Unreadable,
        },
    }
}

pub open spec fn inputs_of(
    items: Seq<ItemSpec>,
    read: spec_fn(Seq<char>) -> Option<StreamChunk>,
) -> Seq<InputSpec> {
    items.map_values(|item: ItemSpec| input_of(item, read))
}

/// What a client gets for a text and for how the stream stops behind it.
pub open spec fn client_run(
    state: StateSpec,
    text: Seq<char>,
    last: InputSpec,
    read: spec_fn(Seq<char>) -> Option<StreamChunk>,
) -> Run {
    relayed(state, inputs_of(decoded(text).0, read).push(last))
}

/// A frame that brings nothing a client could get: no line of it holds a chunk or the mark at the
/// end of a stream.
pub open spec fn skipped(
    frame: Seq<char>,
    read: spec_fn(Seq<char>) -> Option<StreamChunk>,
) -> bool {
    forall|i: int|
        0 <= i < frame_items(frame).len() ==> input_of(#[trigger] frame_items(frame)[i], read)
            is Unreadable
}

/// The frames that are not skipped.
pub open spec fn kept(
    frames: Seq<Seq<char>>,
    read: spec_fn(Seq<char>) -> Option<StreamChunk>,
) -> Seq<Seq<char>>
    decreases frames.len(),
{
    if frames.len() == 0 {
        Seq::empty()
    } else {
        let rest = kept(frames.drop_first(), read);
        if skipped(frames[0], read) {
            rest
        } else {
            seq![frames[0]] + rest
        }
    }
}

/// Data that are no chunks change nothing, however many come.
proof fn lemma_unreadable_in_between(
    state: StateSpec,
    before: Seq<InputSpec>,
    between: Seq<InputSpec>,
    after: Seq<InputSpec>,
)
    requires
        forall|i: int| 0 <= i < between.len() ==> #[trigger] between[i] is Unreadable,
    ensures
        relayed(state, before + between + after) == relayed(state, before + after),
    decreases between.len(),
{
    if between.len() == 0 {
        assert(before + between + after =~= before + after);
    } else {
        let rest = between.drop_first();
        assert forall|i: int| 0 <= i < rest.len() implies #[trigger] rest[i] is Unreadable by {
            assert(rest[i] == between[i + 1]);
        }
        assert(between[0] is Unreadable);
        lemma_unreadable_in_between(state, before, rest, after);
        law_unreadable_data_is_skipped(state, before, rest + after);
        assert(before + between + after =~= before + seq![InputSpec::Unreadable] + (rest + after));
        assert(before + (rest + after) =~= before + rest + after);
    }
}

proof fn lemma_inputs_add(
    a: Seq<ItemSpec>,
    b: Seq<ItemSpec>,
    read: spec_fn(Seq<char>) -> Option<StreamChunk>,
)
    ensures
        inputs_of(a + b, read) == inputs_of(a, read) + inputs_of(b, read),
{
    assert(inputs_of(a + b, read) =~= inputs_of(a, read) + inputs_of(b, read));
}

/// A skipped frame put between complete frames changes nothing that a client gets.
pub proof fn law_skipped_frame_changes_nothing(
    state: StateSpec,
    a: Seq<char>,
    frame: Seq<char>,
    crlf: bool,
    b: Seq<char>,
    last: InputSpec,
    read: spec_fn(Seq<char>) -> Option<StreamChunk>,
)
    requires
        decoded(a).1.len() == 0,
        whole_frame(frame),
        skipped(frame, read),
    ensures
        client_run(state, a + (frame + frame_end(crlf) + b), last, read) == client_run(
            state,
            a + b,
            last,
            read,
        ),
{
    let items = frame_items(frame);
    let before = inputs_of(decoded(a).0, read);
    let between = inputs_of(items, read);
    let after = inputs_of(decoded(b).0, read);
    law_frame_is_read(frame, crlf, b);
    law_complete_frames_stand_alone(a, frame + frame_end(crlf) + b);
    law_complete_frames_stand_alone(a, b);
    lemma_inputs_add(items, decoded(b).0, read);
    lemma_inputs_add(decoded(a).0, items + decoded(b).0, read);
    lemma_inputs_add(decoded(a).0, decoded(b).0, read);
    assert forall|i: int| 0 <= i < between.len() implies #[trigger] between[i] is Unreadable by {
        assert(between[i] == input_of(items[i], read));
    }
    lemma_unreadable_in_between(state, before, between, after.push(last));
    assert((before + (between + after)).push(last) =~= before + between + after.push(last));
    assert((before + after).push(last) =~= before + after.push(last));
}

/// What frames bring, with the skipped ones left out.
proof fn lemma_kept_run(
    state: StateSpec,
    frames: Seq<Seq<char>>,
    before: Seq<InputSpec>,
    last: InputSpec,
    read: spec_fn(Seq<char>) -> Option<StreamChunk>,
)
    ensures
        relayed(state, before + inputs_of(items_of_frames(frames), read).push(last)) == relayed(
            state,
            before + inputs_of(items_of_frames(kept(frames, read)), read).push(last),
        ),
    decreases frames.len(),
{
    if frames.len() > 0 {
        let first = frame_items(frames[0]);
        let between = inputs_of(first, read);
        let rest = frames.drop_first();
        let after = inputs_of(items_of_frames(rest), read);
        let left = kept(rest, read);
        let behind = inputs_of(items_of_frames(left), read);
        lemma_inputs_add(first, items_of_frames(rest), read);
        assert(before + (between + after).push(last) =~= before + between + after.push(last));
        if skipped(frames[0], read) {
            assert forall|i: int| 0 <= i < between.len() implies #[trigger] between[i]
                is Unreadable by {
                assert(between[i] == input_of(first[i], read));
            }
            lemma_unreadable_in_between(state, before, between, after.push(last));
            lemma_kept_run(state, rest, before, last, read);
        } else {
            let all = seq![frames[0]] + left;
            assert(all[0] == frames[0]);
            assert(all.drop_first() =~= left);
            lemma_inputs_add(first, items_of_frames(left), read);
            lemma_kept_run(state, rest, before + between, last, read);
            assert(before + (between + behind).push(last) =~= before + between + behind.push(last));
        }
    }
}

/// A client gets the same from two streams whose frames differ only in frames that are skipped and
/// in the blank lines that end the frames.
pub proof fn law_only_kept_frames_matter(
    state: StateSpec,
    frames: Seq<Seq<char>>,
    crlf: Seq<bool>,
    other: Seq<Seq<char>>,
    other_crlf: Seq<bool>,
    last: InputSpec,
    read: spec_fn(Seq<char>) -> Option<StreamChunk>,
)
    requires
        crlf.len() == frames.len(),
        other_crlf.len() == other.len(),
        forall|i: int| 0 <= i < frames.len() ==> whole_frame(#[trigger] frames[i]),
        forall|i: int| 0 <= i < other.len() ==> whole_frame(#[trigger] other[i]),
        kept(frames, read) == kept(other, read),
    ensures
        client_run(state, framed_text(frames, crlf), last, read) == client_run(
            state,
            framed_text(other, other_crlf),
            last,
            read,
        ),
{
    let none = Seq::<InputSpec>::empty();
    let a = inputs_of(items_of_frames(frames), read).push(last);
    let b = inputs_of(items_of_frames(other), read).push(last);
    law_framing_does_not_matter(frames, crlf);
    law_framing_does_not_matter(other, other_crlf);
    lemma_kept_run(state, frames, none, last, read);
    lemma_kept_run(state, other, none, last, read);
    assert(none + a =~= a);
    assert(none + b =~= b);
}

/// A client gets the same from a text in which every line feed has a carriage return before it.
pub proof fn law_line_ends_change_nothing(
    state: StateSpec,
    text: Seq<char>,
    last: InputSpec,
    read: spec_fn(Seq<char>) -> Option<StreamChunk>,
)
    requires
        no_cr(text),
    ensures
        client_run(state, with_crlf(text), last, read) == client_run(state, text, last, read),
{
    law_line_ends_do_not_matter(text);
}

/// A blank frame is skipped.
pub proof fn law_blank_frame_is_skipped(
    frame: Seq<char>,
    read: spec_fn(Seq<char>) -> Option<StreamChunk>,
)
    requires
        blank(frame),
    ensures
        skipped(frame, read),
{
}

/// A comment is one frame, and is skipped.
pub proof fn law_comment_is_skipped(
    comment: Seq<char>,
    read: spec_fn(Seq<char>) -> Option<StreamChunk>,
)
    requires
        one_line(comment),
    ensures
        whole_frame(":"@ + comment),
        skipped(":"@ + comment, read),
{
    reveal_strlit(":");
    reveal_strlit("data: ");
    let frame = ":"@ + comment;
    assert forall|i: int| 0 <= i < frame.len() implies #[trigger] frame[i] != '\n' && frame[i]
        != '\r' by {
        if i >= 1 {
            assert(frame[i] == comment[i - 1]);
        }
    }
    assert(frame[0] == ':');
    law_line_is_a_frame(frame);
    assert(!starts_with(frame, "data: "@)) by {
        if starts_with(frame, "data: "@) {
            assert(frame.subrange(0, 6)[0] == 'd');
        }
    }
}

/// Data that is neither a chunk nor the mark at the end of a stream is one frame, and is skipped.
pub proof fn law_unreadable_frame_is_skipped(
    data: Seq<char>,
    read: spec_fn(Seq<char>) -> Option<StreamChunk>,
)
    requires
        one_line(data),
        trim(data) != "[DONE]"@,
        read(data) is None,
    ensures
        whole_frame("data: "@ + data),
        skipped("data: "@ + data, read),
{
    reveal_strlit("data: ");
    let frame = "data: "@ + data;
    assert forall|i: int| 0 <= i < frame.len() implies #[trigger] frame[i] != '\n' && frame[i]
        != '\r' by {
        if i >= 6 {
            assert(frame[i] == data[i - 6]);
        }
    }
    assert(frame[0] == 'd');
    law_line_is_a_frame(frame);
    assert(frame.subrange(0, 6) =~= "data: "@);
    assert(frame.skip(6) =~= data);
    assert(frame_items(frame) =~= seq![ItemSpec::Data(data)]);
}

} // verus!
