//! What a client gets for a streamed answer.
use crate::laws::sequences::lemma_made_add;
use crate::models::anthropic::{BlockStartSpec, DeltaSpec, EventSpec};
use crate::models::openai::{DeltaToolCall, OpenAIResponse, StreamChoice, StreamChunk};
use crate::models::opt_text;
use crate::translate::response::translated_response;
use crate::translate::stream::{
    fresh_state, input_run, reads_on, streamed, with_block, with_call, with_calls, with_choice,
    with_chunk, with_delta, with_end, with_filled, with_start, with_stop, with_text, with_thinking,
    BlockKind, InputSpec, OpenBlock, Run, StateSpec,
};
use vstd::prelude::*;

verus! {

/// The id and the name under which an event starts a tool use.
pub open spec fn started_use(event: EventSpec) -> Option<(Seq<char>, Seq<char>)> {
    match event {
        EventSpec::ContentBlockStart { content_block: BlockStartSpec::ToolUse { id, name }, .. } => {
            Some((id, name))
        },
        _ => None,
    }
}

/// The id and the name that a piece of a call brings; the name is empty where it brings none.
pub open spec fn brought_use(call: DeltaToolCall) -> Option<(Seq<char>, Seq<char>)> {
    match call.id {
        Some(id) => Some(
            (
                id@,
                match call.name {
                    Some(name) => name@,
                    None => Seq::empty(),
                },
            ),
        ),
        None => None,
    }
}

/// The pieces of calls in a chunk.
pub open spec fn pieces_of(chunk: StreamChunk) -> Seq<DeltaToolCall> {
    if chunk.choices@.len() == 0 {
        Seq::empty()
    } else {
        match chunk.choices@[0].delta.tool_calls {
            Some(calls) => calls@,
            None => Seq::empty(),
        }
    }
}

/// The pieces of calls in chunks, in order.
pub open spec fn all_pieces(chunks: Seq<StreamChunk>) -> Seq<DeltaToolCall>
    decreases chunks.len(),
{
    if chunks.len() == 0 {
        Seq::empty()
    } else {
        all_pieces(chunks.drop_last()) + pieces_of(chunks.last())
    }
}

spec fn uses_in(events: Seq<EventSpec>) -> Seq<(Seq<char>, Seq<char>)> {
    events.filter_map(|e: EventSpec| started_use(e))
}

spec fn uses_of(calls: Seq<DeltaToolCall>) -> Seq<(Seq<char>, Seq<char>)> {
    calls.filter_map(|c: DeltaToolCall| brought_use(c))
}

proof fn lemma_uses_push(events: Seq<EventSpec>, event: EventSpec)
    ensures
        started_use(event) is None ==> uses_in(events.push(event)) == uses_in(events),
        started_use(event) is Some ==> uses_in(events.push(event)) == uses_in(events).push(
            started_use(event)->0,
        ),
{
    assert(events.push(event).drop_last() =~= events);
    if started_use(event) is Some {
        assert(uses_in(events.push(event)) =~= uses_in(events).push(started_use(event)->0));
    }
}

proof fn lemma_uses_stop(run: Run)
    ensures
        uses_in(with_stop(run).events) == uses_in(run.events),
{
    match run.state.open {
        Some(block) => {
            lemma_uses_push(run.events, EventSpec::ContentBlockStop { index: block.index });
        },
        None => {},
    }
}

proof fn lemma_uses_delta(run: Run, delta: DeltaSpec)
    ensures
        uses_in(with_delta(run, delta).events) == uses_in(run.events),
{
    match run.state.open {
        Some(block) => {
            lemma_uses_push(
                run.events,
                EventSpec::ContentBlockDelta { index: block.index, delta },
            );
        },
        None => {},
    }
}

proof fn lemma_uses_text(run: Run, kind: BlockKind, start: BlockStartSpec, delta: DeltaSpec)
    requires
        !(start is ToolUse),
    ensures
        uses_in(with_filled(run, kind, start, delta).events) == uses_in(run.events),
{
    let begun = with_block(run, kind, start);
    lemma_uses_stop(run);
    lemma_uses_push(
        with_stop(run).events,
        EventSpec::ContentBlockStart { index: run.state.next_index, content_block: start },
    );
    lemma_uses_delta(run, delta);
    lemma_uses_delta(begun, delta);
}

proof fn lemma_uses_call(run: Run, call: DeltaToolCall)
    ensures
        uses_in(with_call(run, call).events) == uses_in(run.events) + uses_of(seq![call]),
{
    let one = seq![call];
    let f = |c: DeltaToolCall| brought_use(c);
    assert(one.drop_last() =~= Seq::empty());
    assert(one.drop_last().filter_map(f) =~= Seq::empty());
    let begun = match call.id {
        Some(id) => {
            let (own_id, name) = brought_use(call)->0;
            let start = BlockStartSpec::ToolUse { id: own_id, name };
            lemma_uses_stop(run);
            lemma_uses_push(
                with_stop(run).events,
                EventSpec::ContentBlockStart { index: run.state.next_index, content_block: start },
            );
            with_block(run, BlockKind::ToolUse, start)
        },
        None => run,
    };
    if call.arguments is Some {
        lemma_uses_delta(begun, DeltaSpec::InputJson(call.arguments->0@));
    }
    assert(uses_in(with_call(run, call).events) =~= uses_in(run.events) + uses_of(one));
}

proof fn lemma_uses_calls(run: Run, calls: Seq<DeltaToolCall>)
    ensures
        uses_in(with_calls(run, calls).events) == uses_in(run.events) + uses_of(calls),
    decreases calls.len(),
{
    if calls.len() == 0 {
        assert(uses_in(run.events) + uses_of(calls) =~= uses_in(run.events));
    } else {
        let before = calls.drop_last();
        lemma_uses_calls(run, before);
        lemma_uses_call(with_calls(run, before), calls.last());
        lemma_made_add(before, seq![calls.last()], |c: DeltaToolCall| brought_use(c));
        assert(before + seq![calls.last()] =~= calls);
        assert(uses_in(with_calls(run, calls).events) =~= uses_in(run.events) + uses_of(calls));
    }
}

proof fn lemma_uses_chunk(state: StateSpec, chunk: StreamChunk)
    requires
        !state.finalized,
    ensures
        uses_in(with_chunk(Run { events: Seq::empty(), state }, chunk).events) == uses_of(
            pieces_of(chunk),
        ),
        !with_chunk(Run { events: Seq::empty(), state }, chunk).state.finalized,
{
    let run = Run { events: Seq::empty(), state };
    let begun = with_start(run, chunk);
    if !state.started {
        lemma_uses_push(run.events, begun.events.last());
        assert(begun.events =~= run.events.push(begun.events.last()));
    }
    assert(uses_in(begun.events) =~= Seq::empty());
    let counted = match chunk.usage {
        Some(usage) => Run { state: StateSpec { usage: Some(usage), ..begun.state }, ..begun },
        None => begun,
    };
    let events = with_chunk(run, chunk).events;
    if chunk.choices@.len() > 0 {
        let delta = chunk.choices@[0].delta;
        let thinking = opt_text(delta.reasoning_content);
        let text = opt_text(delta.content);
        if thinking is Some {
            lemma_uses_text(
                counted,
                BlockKind::Thinking,
                BlockStartSpec::Thinking(Seq::empty()),
                DeltaSpec::Thinking(thinking->0),
            );
        }
        let thought = with_thinking(counted, thinking);
        if text is Some {
            lemma_uses_text(
                thought,
                BlockKind::Text,
                BlockStartSpec::Text(Seq::empty()),
                DeltaSpec::Text(text->0),
            );
        }
        let texted = with_text(thought, text);
        lemma_uses_calls(texted, pieces_of(chunk));
        lemma_calls_stay_open(texted, pieces_of(chunk));
    }
    assert(uses_in(events) =~= uses_of(pieces_of(chunk)));
}

proof fn lemma_calls_stay_open(run: Run, calls: Seq<DeltaToolCall>)
    ensures
        with_calls(run, calls).state.finalized == run.state.finalized,
    decreases calls.len(),
{
    if calls.len() > 0 {
        lemma_calls_stay_open(run, calls.drop_last());
    }
}

/// The tool uses that a client sees started are the calls that the upstream brings, in order: each
/// piece with an id starts one, under that id and the name that comes with it.
pub proof fn law_tool_uses_start_as_called(state: StateSpec, chunks: Seq<StreamChunk>)
    requires
        !state.finalized,
    ensures
        streamed(state, chunks).events.filter_map(|e: EventSpec| started_use(e)) == all_pieces(
            chunks,
        ).filter_map(|c: DeltaToolCall| brought_use(c)),
        !streamed(state, chunks).state.finalized,
    decreases chunks.len(),
{
    if chunks.len() > 0 {
        let earlier = chunks.drop_last();
        law_tool_uses_start_as_called(state, earlier);
        let before = streamed(state, earlier);
        let last = with_chunk(Run { events: Seq::empty(), state: before.state }, chunks.last());
        lemma_uses_chunk(before.state, chunks.last());
        lemma_made_add(before.events, last.events, |e: EventSpec| started_use(e));
        lemma_made_add(
            all_pieces(earlier),
            pieces_of(chunks.last()),
            |c: DeltaToolCall| brought_use(c),
        );
        assert(uses_in(before.events) == uses_of(all_pieces(earlier)));
        assert(uses_in(last.events) == uses_of(pieces_of(chunks.last())));
    }
}

/// What stops the open block, if one is open.
pub open spec fn stop_of(state: StateSpec) -> Seq<EventSpec> {
    match state.open {
        Some(block) => seq![EventSpec::ContentBlockStop { index: block.index }],
        None => Seq::empty(),
    }
}

/// A piece of a call with an id stops what is open and starts a tool use with its id and name;
/// its arguments, if it has any, are the first of that block.
pub proof fn law_call_is_started(run: Run, call: DeltaToolCall)
    requires
        call.id is Some,
    ensures
        with_call(run, call).events == run.events + stop_of(run.state) + seq![
            EventSpec::ContentBlockStart {
                index: run.state.next_index,
                content_block: BlockStartSpec::ToolUse {
                    id: call.id->0@,
                    name: match call.name {
                        Some(name) => name@,
                        None => Seq::empty(),
                    },
                },
            },
        ] + match call.arguments {
            Some(arguments) => if arguments@.len() > 0 {
                seq![
                    EventSpec::ContentBlockDelta {
                        index: run.state.next_index,
                        delta: DeltaSpec::InputJson(arguments@),
                    },
                ]
            } else {
                Seq::empty()
            },
            None => Seq::empty(),
        },
        with_call(run, call).state.open == Some(
            OpenBlock { index: run.state.next_index, kind: BlockKind::ToolUse },
        ),
{
    assert(with_call(run, call).events =~= run.events + stop_of(run.state) + seq![
        EventSpec::ContentBlockStart {
            index: run.state.next_index,
            content_block: BlockStartSpec::ToolUse {
                id: call.id->0@,
                name: match call.name {
                    Some(name) => name@,
                    None => Seq::empty(),
                },
            },
        },
    ] + match call.arguments {
        Some(arguments) => if arguments@.len() > 0 {
            seq![
                EventSpec::ContentBlockDelta {
                    index: run.state.next_index,
                    delta: DeltaSpec::InputJson(arguments@),
                },
            ]
        } else {
            Seq::empty()
        },
        None => Seq::empty(),
    });
}

/// A piece of a call without an id goes on with the tool use that is open, and is passed over
/// where none is.
pub proof fn law_call_goes_on(run: Run, call: DeltaToolCall)
    requires
        call.id is None,
    ensures
        with_call(run, call).state == run.state,
        with_call(run, call).events == match (run.state.open, call.arguments) {
            (Some(block), Some(arguments)) => if block.kind == BlockKind::ToolUse
                && arguments@.len() > 0 {
                run.events.push(
                    EventSpec::ContentBlockDelta {
                        index: block.index,
                        delta: DeltaSpec::InputJson(arguments@),
                    },
                )
            } else {
                run.events
            },
            _ => run.events,
        },
{
}

/// Pieces of calls are taken one after another.
pub proof fn law_calls_come_in_order(run: Run, calls: Seq<DeltaToolCall>, last: DeltaToolCall)
    ensures
        with_calls(run, Seq::empty()) == run,
        with_calls(run, calls.push(last)) == with_call(with_calls(run, calls), last),
{
    assert(calls.push(last).drop_last() =~= calls);
}

/// A piece of text that is not empty goes to the text block that is open, or else to a new and
/// empty one, for which what is open is stopped.
pub proof fn law_text_is_filled_in(run: Run, text: Seq<char>)
    requires
        text.len() > 0,
    ensures
        ({
            let after = with_text(run, Some(text));
            match run.state.open {
                Some(OpenBlock { index, kind: BlockKind::Text }) => {
                    &&& after.state == run.state
                    &&& after.events == run.events.push(
                        EventSpec::ContentBlockDelta { index, delta: DeltaSpec::Text(text) },
                    )
                },
                _ => {
                    let index = run.state.next_index;
                    &&& after.state.open == Some(OpenBlock { index, kind: BlockKind::Text })
                    &&& after.events == run.events + stop_of(run.state) + seq![
                        EventSpec::ContentBlockStart {
                            index,
                            content_block: BlockStartSpec::Text(Seq::empty()),
                        },
                        EventSpec::ContentBlockDelta { index, delta: DeltaSpec::Text(text) },
                    ]
                },
            }
        }),
{
    let index = run.state.next_index;
    let after = with_text(run, Some(text));
    if !(run.state.open is Some && run.state.open->0.kind == BlockKind::Text) {
        assert(after.events =~= run.events + stop_of(run.state) + seq![
            EventSpec::ContentBlockStart {
                index,
                content_block: BlockStartSpec::Text(Seq::empty()),
            },
            EventSpec::ContentBlockDelta { index, delta: DeltaSpec::Text(text) },
        ]);
    }
}

/// A piece of thinking that is not empty goes to the thinking block that is open, or else to a new
/// and empty one, for which what is open is stopped.
pub proof fn law_thinking_is_filled_in(run: Run, text: Seq<char>)
    requires
        text.len() > 0,
    ensures
        ({
            let after = with_thinking(run, Some(text));
            match run.state.open {
                Some(OpenBlock { index, kind: BlockKind::Thinking }) => {
                    &&& after.state == run.state
                    &&& after.events == run.events.push(
                        EventSpec::ContentBlockDelta { index, delta: DeltaSpec::Thinking(text) },
                    )
                },
                _ => {
                    let index = run.state.next_index;
                    &&& after.state.open == Some(OpenBlock { index, kind: BlockKind::Thinking })
                    &&& after.events == run.events + stop_of(run.state) + seq![
                        EventSpec::ContentBlockStart {
                            index,
                            content_block: BlockStartSpec::Thinking(Seq::empty()),
                        },
                        EventSpec::ContentBlockDelta { index, delta: DeltaSpec::Thinking(text) },
                    ]
                },
            }
        }),
{
    let index = run.state.next_index;
    let after = with_thinking(run, Some(text));
    if !(run.state.open is Some && run.state.open->0.kind == BlockKind::Thinking) {
        assert(after.events =~= run.events + stop_of(run.state) + seq![
            EventSpec::ContentBlockStart {
                index,
                content_block: BlockStartSpec::Thinking(Seq::empty()),
            },
            EventSpec::ContentBlockDelta { index, delta: DeltaSpec::Thinking(text) },
        ]);
    }
}

/// Empty and missing pieces bring nothing.
pub proof fn law_nothing_brings_nothing(run: Run)
    ensures
        with_text(run, None) == run,
        with_text(run, Some(Seq::empty())) == run,
        with_thinking(run, None) == run,
        with_thinking(run, Some(Seq::empty())) == run,
{
}

/// What a choice brings comes in this order: thinking, text, calls. It is what three choices
/// bring, the first with its thinking, the second with its text, the third with its calls and the
/// reason to finish.
pub proof fn law_choice_in_three(
    run: Run,
    choice: StreamChoice,
    first: StreamChoice,
    second: StreamChoice,
    third: StreamChoice,
)
    requires
        first.delta.reasoning_content == choice.delta.reasoning_content,
        first.delta.content is None && first.delta.tool_calls is None && first.finish_reason is None,
        second.delta.content == choice.delta.content,
        second.delta.reasoning_content is None && second.delta.tool_calls is None
            && second.finish_reason is None,
        third.delta.tool_calls == choice.delta.tool_calls,
        third.delta.reasoning_content is None && third.delta.content is None,
        third.finish_reason == choice.finish_reason,
    ensures
        with_choice(run, choice) == with_choice(
            with_choice(with_choice(run, first), second),
            third,
        ),
{
}

/// Each of the three is taken as such a piece.
pub proof fn law_choice_of_one_kind(run: Run, choice: StreamChoice)
    requires
        choice.finish_reason is None,
    ensures
        choice.delta.content is None && choice.delta.tool_calls is None ==> with_choice(run, choice)
            == with_thinking(run, opt_text(choice.delta.reasoning_content)),
        choice.delta.reasoning_content is None && choice.delta.tool_calls is None ==> with_choice(
            run,
            choice,
        ) == with_text(run, opt_text(choice.delta.content)),
        choice.delta.reasoning_content is None && choice.delta.content is None
            && choice.delta.tool_calls is Some ==> with_choice(run, choice) == with_calls(
            run,
            choice.delta.tool_calls->0@,
        ),
{
}

/// The first chunk starts the message: with its id and its model, or else with those that the
/// proxy has, and with the estimate of the input.
pub proof fn law_first_chunk_starts_the_message(
    fallback_model: Seq<char>,
    input_estimate: u32,
    chunk: StreamChunk,
)
    ensures
        ({
            let fresh = fresh_state(fallback_model, input_estimate);
            let run = with_chunk(Run { events: Seq::empty(), state: fresh }, chunk);
            &&& run.events.len() > 0
            &&& run.events[0] matches EventSpec::MessageStart {
                id,
                message_type,
                role,
                model,
                usage,
            }
            &&& id == (if chunk.id is Some {
                chunk.id->0@
            } else {
                "msg_proxy"@
            })
            &&& message_type == "message"@
            &&& role == "assistant"@
            &&& model == (if chunk.model is Some {
                chunk.model->0@
            } else {
                fallback_model
            })
            &&& usage.input_tokens == input_estimate
            &&& usage.output_tokens == 0
            &&& usage.cache_creation_input_tokens is None
            &&& usage.cache_read_input_tokens is None
            &&& run.state.started
        }),
{
    let fresh = fresh_state(fallback_model, input_estimate);
    let begun = with_start(Run { events: Seq::empty(), state: fresh }, chunk);
    let counted = match chunk.usage {
        Some(usage) => Run { state: StateSpec { usage: Some(usage), ..begun.state }, ..begun },
        None => begun,
    };
    if chunk.choices@.len() > 0 {
        lemma_choice_extends(counted, chunk.choices@[0]);
        let after = with_choice(counted, chunk.choices@[0]);
        assert(counted.events.len() == 1);
        assert(after.events.take(1)[0] == counted.events[0]);
        assert(after.events[0] == counted.events[0]);
    }
}

/// The events before stay the first.
spec fn extends(before: Run, after: Run) -> bool {
    &&& before.events.len() <= after.events.len()
    &&& after.events.take(before.events.len() as int) == before.events
    &&& after.state.started == before.state.started
    &&& after.state.usage == before.state.usage
    &&& after.state.finish_reason == before.state.finish_reason
    &&& after.state.finalized == before.state.finalized
    &&& after.state.fallback_model == before.state.fallback_model
    &&& after.state.input_estimate == before.state.input_estimate
}

proof fn lemma_calls_extend(run: Run, calls: Seq<DeltaToolCall>)
    ensures
        extends(run, with_calls(run, calls)),
    decreases calls.len(),
{
    let n = run.events.len() as int;
    if calls.len() == 0 {
        assert(run.events.take(n) =~= run.events);
    } else {
        lemma_calls_extend(run, calls.drop_last());
        let before = with_calls(run, calls.drop_last());
        let after = with_calls(run, calls);
        assert(after.events.take(before.events.len() as int) =~= before.events);
        assert(after.events.take(n) =~= before.events.take(n));
    }
}

proof fn lemma_choice_extends(run: Run, choice: StreamChoice)
    ensures
        ({
            let after = with_choice(run, choice);
            &&& run.events.len() <= after.events.len()
            &&& after.events.take(run.events.len() as int) == run.events
            &&& after.state.started == run.state.started
            &&& after.state.usage == run.state.usage
            &&& after.state.finalized == run.state.finalized
            &&& after.state.fallback_model == run.state.fallback_model
            &&& after.state.input_estimate == run.state.input_estimate
            &&& after.state.finish_reason == if choice.finish_reason is Some {
                opt_text(choice.finish_reason)
            } else {
                run.state.finish_reason
            }
        }),
{
    let n = run.events.len() as int;
    let thought = with_thinking(run, opt_text(choice.delta.reasoning_content));
    let texted = with_text(thought, opt_text(choice.delta.content));
    assert(thought.events.take(n) =~= run.events);
    assert(texted.events.take(thought.events.len() as int) =~= thought.events);
    assert(texted.events.take(n) =~= thought.events.take(n));
    match choice.delta.tool_calls {
        Some(calls) => {
            lemma_calls_extend(texted, calls@);
            let called = with_calls(texted, calls@);
            assert(called.events.take(n) =~= texted.events.take(n));
        },
        None => {},
    }
}

/// Of the reasons to finish and of the usages that chunks give, the last counts; the rest of what
/// the stream began with stays.
pub proof fn law_last_word_counts(state: StateSpec, chunks: Seq<StreamChunk>, last: StreamChunk)
    requires
        !state.finalized,
    ensures
        ({
            let before = streamed(state, chunks).state;
            let after = streamed(state, chunks.push(last)).state;
            &&& after.usage == (if last.usage is Some {
                last.usage
            } else {
                before.usage
            })
            &&& after.finish_reason == (if last.choices@.len() > 0 && last.choices@[0].finish_reason
                is Some {
                Some(last.choices@[0].finish_reason->0@)
            } else {
                before.finish_reason
            })
            &&& after.fallback_model == before.fallback_model
            &&& after.input_estimate == before.input_estimate
        }),
{
    assert(chunks.push(last).drop_last() =~= chunks);
    law_tool_uses_start_as_called(state, chunks);
    let middle = streamed(state, chunks).state;
    let run = Run { events: Seq::empty(), state: middle };
    let begun = with_start(run, last);
    let counted = match last.usage {
        Some(usage) => Run { state: StateSpec { usage: Some(usage), ..begun.state }, ..begun },
        None => begun,
    };
    if last.choices@.len() > 0 {
        lemma_choice_extends(counted, last.choices@[0]);
    }
}

/// What chunks bring, and what each of them brings to the rest, is joined in order.
pub proof fn law_chunks_come_in_order(state: StateSpec, chunks: Seq<StreamChunk>, last: StreamChunk)
    ensures
        streamed(state, Seq::empty()).events.len() == 0,
        ({
            let before = streamed(state, chunks);
            let one = with_chunk(Run { events: Seq::empty(), state: before.state }, last);
            streamed(state, chunks.push(last)).events == before.events + one.events
        }),
{
    assert(chunks.push(last).drop_last() =~= chunks);
}

/// Only the first choice of a chunk counts.
pub proof fn law_first_choice_counts(run: Run, chunk: StreamChunk, other: StreamChunk)
    requires
        chunk.id == other.id,
        chunk.model == other.model,
        chunk.usage == other.usage,
        chunk.choices@.len() > 0,
        other.choices@.len() > 0,
        chunk.choices@[0] == other.choices@[0],
    ensures
        with_chunk(run, chunk) == with_chunk(run, other),
{
}

/// Once the message is started, a chunk with a choice brings what the choice brings, and one
/// without brings no event.
pub proof fn law_chunk_brings_its_choice(run: Run, chunk: StreamChunk)
    requires
        run.state.started,
        !run.state.finalized,
    ensures
        chunk.choices@.len() == 0 ==> with_chunk(run, chunk).events == run.events,
        chunk.choices@.len() > 0 && chunk.usage is None ==> with_chunk(run, chunk) == with_choice(
            run,
            chunk.choices@[0],
        ),
{
}

/// A message that never started does not end, and one that has ended does not end again.
pub proof fn law_message_ends_once(run: Run)
    ensures
        !run.state.started ==> with_end(run) == run,
        run.state.finalized ==> with_end(run) == run,
        with_end(with_end(run)) == with_end(run),
{
}

/// The end stops what is open and gives the reason, in the client's words, and the usage as the
/// upstream counted it: the input that no cache served, the input that one did, and the output.
pub proof fn law_end_tells_reason_and_usage(state: StateSpec)
    requires
        state.started,
        !state.finalized,
    ensures
        ({
            let end = with_end(Run { events: Seq::empty(), state });
            let n = end.events.len() as int;
            &&& n == stop_of(state).len() + 2
            &&& end.events.take(n - 2) == stop_of(state)
            &&& end.events[n - 1] == EventSpec::MessageStop
            &&& end.state.finalized
            &&& end.events[n - 2] matches EventSpec::MessageDelta {
                stop_reason,
                stop_sequence,
                usage,
            }
            &&& stop_sequence is None
            &&& state.finish_reason is None ==> stop_reason is None
            &&& state.finish_reason == Some("stop"@) ==> stop_reason == Some("end_turn"@)
            &&& state.finish_reason == Some("length"@) ==> stop_reason == Some("max_tokens"@)
            &&& state.finish_reason == Some("tool_calls"@) ==> stop_reason == Some("tool_use"@)
            &&& state.finish_reason == Some("content_filter"@) ==> stop_reason == Some("refusal"@)
            &&& match state.usage {
                Some(counted) => {
                    let cached = match counted.prompt_tokens_details {
                        Some(details) => details.cached_tokens as int,
                        None => 0,
                    };
                    &&& usage.output_tokens == counted.completion_tokens
                    &&& usage.cache_read_input_tokens is Some
                        <==> counted.prompt_tokens_details is Some
                    &&& usage.cache_read_input_tokens is Some
                        ==> usage.cache_read_input_tokens->0 == cached
                    &&& usage.input_tokens is Some
                    &&& cached <= counted.prompt_tokens ==> usage.input_tokens->0 + cached
                        == counted.prompt_tokens
                    &&& cached > counted.prompt_tokens ==> usage.input_tokens->0 == 0
                },
                None => {
                    &&& usage.input_tokens is None
                    &&& usage.output_tokens == 0
                    &&& usage.cache_read_input_tokens is None
                },
            }
        }),
{
    reveal_strlit("stop");
    reveal_strlit("length");
    reveal_strlit("tool_calls");
    reveal_strlit("content_filter");
    let end = with_end(Run { events: Seq::empty(), state });
    let n = end.events.len() as int;
    assert("stop"@.len() == 4 && "length"@.len() == 6 && "tool_calls"@.len() == 10
        && "content_filter"@.len() == 14);
    assert(end.events.take(n - 2) =~= stop_of(state));
}

/// A stream and a whole response that finish for the same reason and with the same usage tell the
/// client the same.
pub proof fn law_streamed_and_whole_agree(
    state: StateSpec,
    resp: OpenAIResponse,
    fallback_model: Seq<char>,
)
    requires
        state.started,
        !state.finalized,
        resp.choices@.len() > 0,
        state.finish_reason == opt_text(resp.choices@[0].finish_reason),
        state.usage == Some(resp.usage),
    ensures
        ({
            let end = with_end(Run { events: Seq::empty(), state });
            let whole = translated_response(resp, fallback_model);
            &&& end.events[end.events.len() - 2] matches EventSpec::MessageDelta {
                stop_reason,
                stop_sequence,
                usage,
            }
            &&& stop_reason == whole.stop_reason
            &&& stop_sequence == whole.stop_sequence
            &&& usage.input_tokens == Some(whole.usage.input_tokens)
            &&& usage.output_tokens == whole.usage.output_tokens
            &&& usage.cache_read_input_tokens == whole.usage.cache_read_input_tokens
        }),
{
}

/// What is read decides: a chunk is translated, data that is no chunk brings nothing, the mark at
/// the end and the end itself end the message, and a stream that breaks off brings one error
/// before that. Only the last two stop the reading.
pub proof fn law_each_input_has_its_run(state: StateSpec, chunk: StreamChunk, err: Seq<char>)
    ensures
        ({
            let nothing = Run { events: Seq::empty(), state };
            &&& input_run(state, InputSpec::Chunk(chunk)) == with_chunk(nothing, chunk)
            &&& input_run(state, InputSpec::Unreadable) == nothing
            &&& input_run(state, InputSpec::Done) == with_end(nothing)
            &&& input_run(state, InputSpec::End) == with_end(nothing)
            &&& input_run(state, InputSpec::Error(err)).state == with_end(nothing).state
            &&& input_run(state, InputSpec::Error(err)).events == seq![
                EventSpec::Error { error_type: "api_error"@, message: "Stream error: "@ + err },
            ] + with_end(nothing).events
            &&& reads_on(InputSpec::Chunk(chunk))
            &&& reads_on(InputSpec::Unreadable)
            &&& reads_on(InputSpec::Done)
            &&& !reads_on(InputSpec::End)
            &&& !reads_on(InputSpec::Error(err))
        }),
{
    let nothing = Run { events: Seq::empty(), state };
    assert(input_run(state, InputSpec::Error(err)).events =~= seq![
        EventSpec::Error { error_type: "api_error"@, message: "Stream error: "@ + err },
    ] + with_end(nothing).events);
}

/// Blocks are numbered one after another.
pub proof fn law_indices_go_up(run: Run, kind: BlockKind, start: BlockStartSpec)
    requires
        run.state.next_index < usize::MAX,
    ensures
        with_block(run, kind, start).state.next_index == run.state.next_index + 1,
        with_block(run, kind, start).state.open == Some(
            OpenBlock { index: run.state.next_index, kind },
        ),
        fresh_state(Seq::empty(), 0).next_index == 0,
{
}

} // verus!
