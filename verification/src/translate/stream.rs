//! Streamed responses.
//!
//! An upstream streams deltas of one message. A client of the Messages API expects blocks: each
//! is started, filled and stopped before the next one starts, between the start and the stop of
//! the message.
use crate::models::anthropic::{
    events_view, BlockStartSpec, ContentBlockStart, Delta, DeltaSpec, DeltaUsage, ErrorData,
    EventSpec, MessageDeltaData, MessageStartData, StreamEvent,
};
use crate::models::openai::{DeltaToolCall, StreamChoice, StreamChunk};
use crate::models::{anthropic, copy_opt, openai, opt_text};
use crate::translate::elements::{map_stop_reason, prompt_split, split_prompt_tokens, stop_reason};
use vstd::prelude::*;

verus! {

/// What a block holds.
#[derive(Clone, Copy, Debug, PartialEq, Eq, Structural)]
pub enum BlockKind {
    Thinking,
    Text,
    ToolUse,
}

/// The block that has been started and not stopped.
#[derive(Clone, Copy, Debug, PartialEq, Eq, Structural)]
pub struct OpenBlock {
    pub index: usize,
    pub kind: BlockKind,
}

/// How far a message has been translated.
#[derive(Debug)]
pub struct StreamState {
    pub fallback_model: String,
    pub input_estimate: u32,
    pub started: bool,
    pub finalized: bool,
    pub open: Option<OpenBlock>,
    pub next_index: usize,
    pub finish_reason: Option<String>,
    pub usage: Option<openai::Usage>,
}

pub ghost struct StateSpec {
    pub fallback_model: Seq<char>,
    pub input_estimate: u32,
    pub started: bool,
    pub finalized: bool,
    pub open: Option<OpenBlock>,
    pub next_index: usize,
    pub finish_reason: Option<Seq<char>>,
    pub usage: Option<openai::Usage>,
}

impl StreamState {
    pub open spec fn view(&self) -> StateSpec {
        StateSpec {
            fallback_model: self.fallback_model@,
            input_estimate: self.input_estimate,
            started: self.started,
            finalized: self.finalized,
            open: self.open,
            next_index: self.next_index,
            finish_reason: opt_text(self.finish_reason),
            usage: self.usage,
        }
    }
}

/// The events so far and the state that they leave.
pub ghost struct Run {
    pub events: Seq<EventSpec>,
    pub state: StateSpec,
}

pub open spec fn run_of(state: StreamState, events: Seq<StreamEvent>) -> Run {
    Run { events: events_view(events), state: state@ }
}

/// The state before the first chunk.
pub open spec fn fresh_state(fallback_model: Seq<char>, input_estimate: u32) -> StateSpec {
    StateSpec {
        fallback_model,
        input_estimate,
        started: false,
        finalized: false,
        open: None,
        next_index: 0,
        finish_reason: None,
        usage: None,
    }
}

/// The index after an index. It stays at the highest, which no stream reaches.
pub open spec fn index_after(index: usize) -> usize {
    if index < usize::MAX {
        (index + 1) as usize
    } else {
        index
    }
}

/// With the start of the message, if it has not been sent. The input size is an estimate, as the
/// upstream tells the true one last.
pub open spec fn with_start(run: Run, chunk: StreamChunk) -> Run {
    if run.state.started {
        run
    } else {
        Run {
            events: run.events.push(
                EventSpec::MessageStart {
                    id: match chunk.id {
                        Some(id) => id@,
                        None => "msg_proxy"@,
                    },
                    message_type: "message"@,
                    role: "assistant"@,
                    model: match chunk.model {
                        Some(model) => model@,
                        None => run.state.fallback_model,
                    },
                    usage: anthropic::Usage {
                        input_tokens: run.state.input_estimate,
                        output_tokens: 0,
                        cache_creation_input_tokens: None,
                        cache_read_input_tokens: None,
                    },
                },
            ),
            state: StateSpec { started: true, ..run.state },
        }
    }
}

/// With the open block stopped.
pub open spec fn with_stop(run: Run) -> Run {
    match run.state.open {
        Some(block) => Run {
            events: run.events.push(EventSpec::ContentBlockStop { index: block.index }),
            state: StateSpec { open: None, ..run.state },
        },
        None => run,
    }
}

/// With a new block started in place of the open one.
pub open spec fn with_block(run: Run, kind: BlockKind, start: BlockStartSpec) -> Run {
    let stopped = with_stop(run);
    let index = run.state.next_index;
    Run {
        events: stopped.events.push(
            EventSpec::ContentBlockStart { index, content_block: start },
        ),
        state: StateSpec {
            open: Some(OpenBlock { index, kind }),
            next_index: index_after(index),
            ..stopped.state
        },
    }
}

pub open spec fn open_kind(state: StateSpec) -> Option<BlockKind> {
    match state.open {
        Some(block) => Some(block.kind),
        None => None,
    }
}

/// With a delta for the open block.
pub open spec fn with_delta(run: Run, delta: DeltaSpec) -> Run {
    match run.state.open {
        Some(block) => Run {
            events: run.events.push(EventSpec::ContentBlockDelta { index: block.index, delta }),
            ..run
        },
        None => run,
    }
}

/// With a delta for a block of that kind, which is started if it is not open.
pub open spec fn with_filled(
    run: Run,
    kind: BlockKind,
    start: BlockStartSpec,
    delta: DeltaSpec,
) -> Run {
    with_delta(
        if open_kind(run.state) == Some(kind) {
            run
        } else {
            with_block(run, kind, start)
        },
        delta,
    )
}

/// With a piece of thinking, if there is any.
pub open spec fn with_thinking(run: Run, thinking: Option<Seq<char>>) -> Run {
    match thinking {
        Some(text) => if text.len() == 0 {
            run
        } else {
            with_filled(
                run,
                BlockKind::Thinking,
                BlockStartSpec::Thinking(Seq::empty()),
                DeltaSpec::Thinking(text),
            )
        },
        None => run,
    }
}

/// With a piece of text, if there is any.
pub open spec fn with_text(run: Run, text: Option<Seq<char>>) -> Run {
    match text {
        Some(text) => if text.len() == 0 {
            run
        } else {
            with_filled(
                run,
                BlockKind::Text,
                BlockStartSpec::Text(Seq::empty()),
                DeltaSpec::Text(text),
            )
        },
        None => run,
    }
}

/// With a piece of a tool call. An id starts a block; arguments fill the block of a call.
pub open spec fn with_call(run: Run, call: DeltaToolCall) -> Run {
    let begun = match call.id {
        Some(id) => with_block(
            run,
            BlockKind::ToolUse,
            BlockStartSpec::ToolUse {
                id: id@,
                name: match call.name {
                    Some(name) => name@,
                    None => Seq::empty(),
                },
            },
        ),
        None => run,
    };
    match call.arguments {
        Some(arguments) => if arguments@.len() == 0 || open_kind(begun.state) != Some(
            BlockKind::ToolUse,
        ) {
            begun
        } else {
            with_delta(begun, DeltaSpec::InputJson(arguments@))
        },
        None => begun,
    }
}

pub open spec fn with_calls(run: Run, calls: Seq<DeltaToolCall>) -> Run
    decreases calls.len(),
{
    if calls.len() == 0 {
        run
    } else {
        with_call(with_calls(run, calls.drop_last()), calls.last())
    }
}

/// With what a choice brings: thinking, text, calls, and the reason to finish.
pub open spec fn with_choice(run: Run, choice: StreamChoice) -> Run {
    let texted = with_text(
        with_thinking(run, opt_text(choice.delta.reasoning_content)),
        opt_text(choice.delta.content),
    );
    let called = match choice.delta.tool_calls {
        Some(calls) => with_calls(texted, calls@),
        None => texted,
    };
    match choice.finish_reason {
        Some(reason) => Run {
            state: StateSpec { finish_reason: Some(reason@), ..called.state },
            ..called
        },
        None => called,
    }
}

/// With what a chunk brings. Its first choice counts, and the usage that came last.
pub open spec fn with_chunk(run: Run, chunk: StreamChunk) -> Run {
    if run.state.finalized {
        run
    } else {
        let begun = with_start(run, chunk);
        let counted = match chunk.usage {
            Some(usage) => Run {
                state: StateSpec { usage: Some(usage), ..begun.state },
                ..begun
            },
            None => begun,
        };
        if chunk.choices@.len() == 0 {
            counted
        } else {
            with_choice(counted, chunk.choices@[0])
        }
    }
}

/// The usage at the end of a message.
pub open spec fn final_usage(usage: Option<openai::Usage>) -> DeltaUsage {
    match usage {
        Some(usage) => DeltaUsage {
            input_tokens: Some(prompt_split(usage).0),
            output_tokens: usage.completion_tokens,
            cache_read_input_tokens: prompt_split(usage).1,
        },
        None => DeltaUsage { input_tokens: None, output_tokens: 0, cache_read_input_tokens: None },
    }
}

/// With the end of the message. Nothing comes of a message that has not been started, nor of one
/// that has ended.
pub open spec fn with_end(run: Run) -> Run {
    if run.state.finalized || !run.state.started {
        run
    } else {
        let stopped = with_stop(run);
        Run {
            events: stopped.events.push(
                EventSpec::MessageDelta {
                    stop_reason: match run.state.finish_reason {
                        Some(reason) => Some(stop_reason(reason)),
                        None => None,
                    },
                    stop_sequence: None,
                    usage: final_usage(run.state.usage),
                },
            ).push(EventSpec::MessageStop),
            state: StateSpec { finalized: true, ..stopped.state },
        }
    }
}

// ---------------------------------------------------------------------------------------------

/// The state before the first chunk.
pub fn initial_state(fallback_model: String, input_estimate: u32) -> (state: StreamState)
    ensures
        state@ == fresh_state(fallback_model@, input_estimate),
{
    StreamState {
        fallback_model,
        input_estimate,
        started: false,
        finalized: false,
        open: None,
        next_index: 0,
        finish_reason: None,
        usage: None,
    }
}

fn start_message(state: &mut StreamState, events: &mut Vec<StreamEvent>, chunk: &StreamChunk)
    ensures
        run_of(*final(state), final(events)@) == with_start(
            run_of(*old(state), old(events)@),
            *chunk,
        ),
{
    let ghost before = run_of(*state, events@);
    if !state.started {
        let id = match &chunk.id {
            Some(id) => id.clone(),
            None => "msg_proxy".to_owned(),
        };
        let model = match &chunk.model {
            Some(model) => model.clone(),
            None => state.fallback_model.clone(),
        };
        events.push(
            StreamEvent::MessageStart {
                message: MessageStartData {
                    id,
                    message_type: "message".to_owned(),
                    role: "assistant".to_owned(),
                    model,
                    usage: anthropic::Usage {
                        input_tokens: state.input_estimate,
                        output_tokens: 0,
                        cache_creation_input_tokens: None,
                        cache_read_input_tokens: None,
                    },
                },
            },
        );
        state.started = true;
        assert(events_view(events@) =~= with_start(before, *chunk).events);
    }
}

fn stop_block(state: &mut StreamState, events: &mut Vec<StreamEvent>)
    ensures
        run_of(*final(state), final(events)@) == with_stop(run_of(*old(state), old(events)@)),
{
    let ghost before = run_of(*state, events@);
    match state.open {
        Some(block) => {
            events.push(StreamEvent::ContentBlockStop { index: block.index });
            state.open = None;
            assert(events_view(events@) =~= with_stop(before).events);
        },
        None => {},
    }
}

fn start_block(
    state: &mut StreamState,
    events: &mut Vec<StreamEvent>,
    kind: BlockKind,
    content_block: ContentBlockStart,
)
    ensures
        run_of(*final(state), final(events)@) == with_block(
            run_of(*old(state), old(events)@),
            kind,
            content_block@,
        ),
{
    let ghost before = run_of(*state, events@);
    stop_block(state, events);
    let index: usize = state.next_index;
    events.push(StreamEvent::ContentBlockStart { index, content_block });
    state.open = Some(OpenBlock { index, kind });
    if index < usize::MAX {
        state.next_index = index + 1;
    }
    assert(events_view(events@) =~= with_block(before, kind, content_block@).events);
}

fn fill_block(state: &mut StreamState, events: &mut Vec<StreamEvent>, delta: Delta)
    ensures
        run_of(*final(state), final(events)@) == with_delta(
            run_of(*old(state), old(events)@),
            delta@,
        ),
{
    let ghost before = run_of(*state, events@);
    match state.open {
        Some(block) => {
            events.push(StreamEvent::ContentBlockDelta { index: block.index, delta });
            assert(events_view(events@) =~= with_delta(before, delta@).events);
        },
        None => {},
    }
}

fn is_open(state: &StreamState, kind: BlockKind) -> (r: bool)
    ensures
        r == (open_kind(state@) == Some(kind)),
{
    match state.open {
        Some(block) => block.kind == kind,
        None => false,
    }
}

fn add_thinking(state: &mut StreamState, events: &mut Vec<StreamEvent>, thinking: &Option<String>)
    ensures
        run_of(*final(state), final(events)@) == with_thinking(
            run_of(*old(state), old(events)@),
            opt_text(*thinking),
        ),
{
    match thinking {
        Some(text) => {
            if !text.as_str().is_empty() {
                if !is_open(state, BlockKind::Thinking) {
                    start_block(
                        state,
                        events,
                        BlockKind::Thinking,
                        ContentBlockStart::Thinking { thinking: String::new() },
                    );
                }
                fill_block(state, events, Delta::ThinkingDelta { thinking: text.clone() });
            }
        },
        None => {},
    }
}

fn add_text(state: &mut StreamState, events: &mut Vec<StreamEvent>, text: &Option<String>)
    ensures
        run_of(*final(state), final(events)@) == with_text(
            run_of(*old(state), old(events)@),
            opt_text(*text),
        ),
{
    match text {
        Some(text) => {
            if !text.as_str().is_empty() {
                if !is_open(state, BlockKind::Text) {
                    start_block(
                        state,
                        events,
                        BlockKind::Text,
                        ContentBlockStart::Text { text: String::new() },
                    );
                }
                fill_block(state, events, Delta::TextDelta { text: text.clone() });
            }
        },
        None => {},
    }
}

fn add_call(state: &mut StreamState, events: &mut Vec<StreamEvent>, call: &DeltaToolCall)
    ensures
        run_of(*final(state), final(events)@) == with_call(
            run_of(*old(state), old(events)@),
            *call,
        ),
{
    match &call.id {
        Some(id) => {
            let name = match &call.name {
                Some(name) => name.clone(),
                None => String::new(),
            };
            start_block(
                state,
                events,
                BlockKind::ToolUse,
                ContentBlockStart::ToolUse { id: id.clone(), name },
            );
        },
        None => {},
    }
    match &call.arguments {
        Some(arguments) => {
            if !arguments.as_str().is_empty() && is_open(state, BlockKind::ToolUse) {
                fill_block(
                    state,
                    events,
                    Delta::InputJsonDelta { partial_json: arguments.clone() },
                );
            }
        },
        None => {},
    }
}

fn add_calls(state: &mut StreamState, events: &mut Vec<StreamEvent>, calls: &Vec<DeltaToolCall>)
    ensures
        run_of(*final(state), final(events)@) == with_calls(
            run_of(*old(state), old(events)@),
            calls@,
        ),
{
    let ghost before = run_of(*state, events@);
    let mut i: usize = 0;
    assert(calls@.take(0) =~= Seq::empty());
    while i < calls.len()
        invariant
            i <= calls@.len(),
            run_of(*state, events@) == with_calls(before, calls@.take(i as int)),
        decreases calls@.len() - i,
    {
        let ghost next = calls@.take(i + 1);
        assert(next.drop_last() =~= calls@.take(i as int));
        add_call(state, events, &calls[i]);
        i += 1;
    }
    assert(calls@.take(calls@.len() as int) =~= calls@);
}

/// Translates a chunk into the events that it brings.
pub fn translate_chunk(state: &mut StreamState, chunk: &StreamChunk) -> (r: Vec<StreamEvent>)
    ensures
        run_of(*final(state), r@) == with_chunk(
            Run { events: Seq::empty(), state: old(state)@ },
            *chunk,
        ),
{
    let mut events: Vec<StreamEvent> = Vec::new();
    assert(events_view(events@) =~= Seq::empty());
    if state.finalized {
        return events;
    }
    start_message(state, &mut events, chunk);
    match chunk.usage {
        Some(usage) => {
            state.usage = Some(usage);
        },
        None => {},
    }
    if chunk.choices.len() > 0 {
        let choice = &chunk.choices[0];
        add_thinking(state, &mut events, &choice.delta.reasoning_content);
        add_text(state, &mut events, &choice.delta.content);
        match &choice.delta.tool_calls {
            Some(calls) => {
                add_calls(state, &mut events, calls);
            },
            None => {},
        }
        if choice.finish_reason.is_some() {
            state.finish_reason = copy_opt(&choice.finish_reason);
        }
    }
    events
}

/// Ends the message, if it has been started and not ended.
pub fn translate_done(state: &mut StreamState) -> (r: Vec<StreamEvent>)
    ensures
        run_of(*final(state), r@) == with_end(Run { events: Seq::empty(), state: old(state)@ }),
{
    let mut events: Vec<StreamEvent> = Vec::new();
    assert(events_view(events@) =~= Seq::empty());
    if state.finalized || !state.started {
        return events;
    }
    stop_block(state, &mut events);
    let ghost stopped = events_view(events@);
    let stop_reason = match &state.finish_reason {
        Some(reason) => map_stop_reason(Some(reason.as_str())),
        None => None,
    };
    let usage = match &state.usage {
        Some(usage) => {
            let (input_tokens, cache_read_input_tokens) = split_prompt_tokens(usage);
            DeltaUsage {
                input_tokens: Some(input_tokens),
                output_tokens: usage.completion_tokens,
                cache_read_input_tokens,
            }
        },
        None => DeltaUsage { input_tokens: None, output_tokens: 0, cache_read_input_tokens: None },
    };
    let end = StreamEvent::MessageDelta {
        delta: MessageDeltaData { stop_reason, stop_sequence: None },
        usage,
    };
    events.push(end);
    events.push(StreamEvent::MessageStop);
    assert(events_view(events@) =~= stopped.push(end@).push(EventSpec::MessageStop));
    state.finalized = true;
    events
}

/// The event for a stream that has broken off.
pub fn translate_error(message: String) -> (r: Vec<StreamEvent>)
    ensures
        events_view(r@) == seq![
            EventSpec::Error { error_type: "api_error"@, message: message@ },
        ],
{
    let mut events: Vec<StreamEvent> = Vec::new();
    events.push(
        StreamEvent::Error { error: ErrorData { error_type: "api_error".to_owned(), message } },
    );
    assert(events_view(events@) =~= seq![
        EventSpec::Error { error_type: "api_error"@, message: message@ },
    ]);
    events
}

// ---------------------------------------------------------------------------------------------
// One thing read after another.

/// What is read of the upstream's stream.
#[derive(Debug)]
pub enum StreamInput {
    /// The mark at the end of a stream.
    Done,
    /// A chunk.
    Chunk(StreamChunk),
    /// Data that is no chunk.
    Unreadable,
    /// The stream has broken off; what happened, in words.
    Error(String),
    /// There is nothing more to read.
    End,
}

pub ghost enum InputSpec {
    Done,
    Chunk(StreamChunk),
    Unreadable,
    Error(Seq<char>),
    End,
}

impl StreamInput {
    pub open spec fn view(&self) -> InputSpec {
        match self {
            StreamInput::Done => InputSpec::Done,
            StreamInput::Chunk(chunk) => InputSpec::Chunk(*chunk),
            StreamInput::Unreadable => InputSpec::Unreadable,
            StreamInput::Error(err) => InputSpec::Error(err@),
            StreamInput::End => InputSpec::End,
        }
    }
}

/// The event for a stream that has broken off.
pub open spec fn error_event(err: Seq<char>) -> EventSpec {
    EventSpec::Error { error_type: "api_error"@, message: "Stream error: "@ + err }
}

/// The events for one thing that is read, and the state after it. Data that is no chunk is passed
/// over; a stream that breaks off gives an error, and then the message ends as it always does.
pub open spec fn input_run(state: StateSpec, input: InputSpec) -> Run {
    let nothing = Run { events: Seq::empty(), state };
    match input {
        InputSpec::Done => with_end(nothing),
        InputSpec::Chunk(chunk) => with_chunk(nothing, chunk),
        InputSpec::Unreadable => nothing,
        InputSpec::Error(err) => with_end(Run { events: seq![error_event(err)], state }),
        InputSpec::End => with_end(nothing),
    }
}

/// Reading goes on after it.
pub open spec fn reads_on(input: InputSpec) -> bool {
    !(input is Error) && !(input is End)
}

/// What came before the end of a message makes no difference to it.
proof fn lemma_end_behind(before: Seq<EventSpec>, state: StateSpec)
    ensures
        ({
            let end = with_end(Run { events: Seq::empty(), state });
            with_end(Run { events: before, state }) == Run { events: before + end.events, ..end }
        }),
{
    let end = with_end(Run { events: Seq::empty(), state });
    let behind = with_end(Run { events: before, state });
    assert(behind.events =~= before + end.events);
}

/// Takes the next thing that is read. Returns the events for it and whether to read on.
pub fn stream_step(state: &mut StreamState, input: StreamInput) -> (r: (Vec<StreamEvent>, bool))
    ensures
        run_of(*final(state), r.0@) == input_run(old(state)@, input@),
        r.1 == reads_on(input@),
{
    let ghost before = state@;
    match input {
        StreamInput::Done => (translate_done(state), true),
        StreamInput::Chunk(chunk) => (translate_chunk(state, &chunk), true),
        StreamInput::Unreadable => {
            let events: Vec<StreamEvent> = Vec::new();
            assert(events_view(events@) =~= Seq::empty());
            (events, true)
        },
        StreamInput::Error(err) => {
            let mut message = "Stream error: ".to_owned();
            message.append(err.as_str());
            let mut events = translate_error(message);
            let ghost first = events_view(events@);
            let mut end = translate_done(state);
            let ghost last = events_view(end@);
            events.append(&mut end);
            proof {
                assert(events_view(events@) =~= first + last);
                lemma_end_behind(first, before);
            }
            (events, false)
        },
        StreamInput::End => (translate_done(state), false),
    }
}

/// What a client gets for all that is read, as long as reading goes on.
pub open spec fn relayed(state: StateSpec, inputs: Seq<InputSpec>) -> Run
    decreases inputs.len(),
{
    if inputs.len() == 0 {
        Run { events: Seq::empty(), state }
    } else {
        let first = input_run(state, inputs[0]);
        if reads_on(inputs[0]) {
            let rest = relayed(first.state, inputs.drop_first());
            Run { events: first.events + rest.events, state: rest.state }
        } else {
            first
        }
    }
}

// ---------------------------------------------------------------------------------------------
// What a client may rely on.

/// How far a client has come in reading a message.
pub ghost struct Phase {
    pub started: bool,
    pub open: Option<usize>,
    pub next: usize,
    pub closing: bool,
    pub ended: bool,
}

/// Before the first event.
pub open spec fn first_phase() -> Phase {
    Phase { started: false, open: None, next: 0, closing: false, ended: false }
}

/// The phase after an event, where the event is in order: the message starts once, blocks are
/// numbered from 0 and do not overlap, deltas go to the open block, and the message ends once,
/// with no block open and nothing after it.
pub open spec fn accept(phase: Phase, event: EventSpec) -> Option<Phase> {
    match event {
        EventSpec::MessageStart { .. } => if !phase.started {
            Some(Phase { started: true, ..phase })
        } else {
            None
        },
        EventSpec::ContentBlockStart { index, .. } => if phase.started && !phase.closing
            && phase.open is None && index == phase.next {
            Some(Phase { open: Some(index), next: index_after(index), ..phase })
        } else {
            None
        },
        EventSpec::ContentBlockDelta { index, .. } => if phase.open == Some(index) {
            Some(phase)
        } else {
            None
        },
        EventSpec::ContentBlockStop { index } => if phase.open == Some(index) {
            Some(Phase { open: None, ..phase })
        } else {
            None
        },
        EventSpec::MessageDelta { .. } => if phase.started && phase.open is None && !phase.closing {
            Some(Phase { closing: true, ..phase })
        } else {
            None
        },
        EventSpec::MessageStop => if phase.closing && !phase.ended {
            Some(Phase { ended: true, ..phase })
        } else {
            None
        },
        EventSpec::Ping => Some(phase),
        EventSpec::Error { .. } => Some(phase),
    }
}

/// The phase after all events, where each is in order.
pub open spec fn accept_all(phase: Phase, events: Seq<EventSpec>) -> Option<Phase>
    decreases events.len(),
{
    if events.len() == 0 {
        Some(phase)
    } else {
        match accept_all(phase, events.drop_last()) {
            Some(before) => accept(before, events.last()),
            None => None,
        }
    }
}

/// Where a client is when the translation is in this state.
pub open spec fn phase_of(state: StateSpec) -> Phase {
    Phase {
        started: state.started,
        open: match state.open {
            Some(block) => Some(block.index),
            None => None,
        },
        next: state.next_index,
        closing: state.finalized,
        ended: state.finalized,
    }
}

/// A block is open only within a message.
pub open spec fn sound(state: StateSpec) -> bool {
    &&& state.open is Some ==> state.started && !state.finalized
    &&& state.finalized ==> state.started
}

/// The events so far are in order and lead to the state.
spec fn in_order(phase: Phase, run: Run) -> bool {
    accept_all(phase, run.events) == Some(phase_of(run.state)) && sound(run.state)
}

proof fn lemma_one_more(phase: Phase, events: Seq<EventSpec>, event: EventSpec)
    ensures
        accept_all(phase, events.push(event)) == match accept_all(phase, events) {
            Some(before) => accept(before, event),
            None => None,
        },
{
    assert(events.push(event).drop_last() =~= events);
}

proof fn lemma_accept_in_parts(phase: Phase, a: Seq<EventSpec>, b: Seq<EventSpec>)
    ensures
        accept_all(phase, a + b) == match accept_all(phase, a) {
            Some(middle) => accept_all(middle, b),
            None => None,
        },
    decreases b.len(),
{
    if b.len() == 0 {
        assert(a + b =~= a);
    } else {
        lemma_accept_in_parts(phase, a, b.drop_last());
        assert((a + b).drop_last() =~= a + b.drop_last());
        assert((a + b).last() == b.last());
    }
}

proof fn lemma_stop_in_order(phase: Phase, run: Run)
    requires
        in_order(phase, run),
    ensures
        in_order(phase, with_stop(run)),
        with_stop(run).state.open is None,
{
    match run.state.open {
        Some(block) => {
            lemma_one_more(
                phase,
                run.events,
                EventSpec::ContentBlockStop { index: block.index },
            );
        },
        None => {},
    }
}

proof fn lemma_block_in_order(phase: Phase, run: Run, kind: BlockKind, start: BlockStartSpec)
    requires
        in_order(phase, run),
        run.state.started,
        !run.state.finalized,
    ensures
        in_order(phase, with_block(run, kind, start)),
        with_block(run, kind, start).state.started,
        !with_block(run, kind, start).state.finalized,
{
    lemma_stop_in_order(phase, run);
    lemma_one_more(
        phase,
        with_stop(run).events,
        EventSpec::ContentBlockStart { index: run.state.next_index, content_block: start },
    );
}

proof fn lemma_delta_in_order(phase: Phase, run: Run, delta: DeltaSpec)
    requires
        in_order(phase, run),
    ensures
        in_order(phase, with_delta(run, delta)),
        with_delta(run, delta).state == run.state,
{
    match run.state.open {
        Some(block) => {
            lemma_one_more(
                phase,
                run.events,
                EventSpec::ContentBlockDelta { index: block.index, delta },
            );
        },
        None => {},
    }
}

proof fn lemma_filled_in_order(
    phase: Phase,
    run: Run,
    kind: BlockKind,
    start: BlockStartSpec,
    delta: DeltaSpec,
)
    requires
        in_order(phase, run),
        run.state.started,
        !run.state.finalized,
    ensures
        in_order(phase, with_filled(run, kind, start, delta)),
        with_filled(run, kind, start, delta).state.started,
        !with_filled(run, kind, start, delta).state.finalized,
{
    if open_kind(run.state) == Some(kind) {
        lemma_delta_in_order(phase, run, delta);
    } else {
        lemma_block_in_order(phase, run, kind, start);
        lemma_delta_in_order(phase, with_block(run, kind, start), delta);
    }
}

proof fn lemma_call_in_order(phase: Phase, run: Run, call: DeltaToolCall)
    requires
        in_order(phase, run),
        run.state.started,
        !run.state.finalized,
    ensures
        in_order(phase, with_call(run, call)),
        with_call(run, call).state.started,
        !with_call(run, call).state.finalized,
{
    let begun = match call.id {
        Some(id) => {
            let start = BlockStartSpec::ToolUse {
                id: id@,
                name: match call.name {
                    Some(name) => name@,
                    None => Seq::empty(),
                },
            };
            lemma_block_in_order(phase, run, BlockKind::ToolUse, start);
            with_block(run, BlockKind::ToolUse, start)
        },
        None => run,
    };
    match call.arguments {
        Some(arguments) => {
            lemma_delta_in_order(phase, begun, DeltaSpec::InputJson(arguments@));
        },
        None => {},
    }
}

proof fn lemma_calls_in_order(phase: Phase, run: Run, calls: Seq<DeltaToolCall>)
    requires
        in_order(phase, run),
        run.state.started,
        !run.state.finalized,
    ensures
        in_order(phase, with_calls(run, calls)),
        with_calls(run, calls).state.started,
        !with_calls(run, calls).state.finalized,
    decreases calls.len(),
{
    if calls.len() > 0 {
        lemma_calls_in_order(phase, run, calls.drop_last());
        lemma_call_in_order(phase, with_calls(run, calls.drop_last()), calls.last());
    }
}

proof fn lemma_choice_in_order(phase: Phase, run: Run, choice: StreamChoice)
    requires
        in_order(phase, run),
        run.state.started,
        !run.state.finalized,
    ensures
        in_order(phase, with_choice(run, choice)),
        with_choice(run, choice).state.started,
        !with_choice(run, choice).state.finalized,
{
    let thinking = opt_text(choice.delta.reasoning_content);
    let text = opt_text(choice.delta.content);
    if thinking is Some {
        lemma_filled_in_order(
            phase,
            run,
            BlockKind::Thinking,
            BlockStartSpec::Thinking(Seq::empty()),
            DeltaSpec::Thinking(thinking->0),
        );
    }
    let thought = with_thinking(run, thinking);
    if text is Some {
        lemma_filled_in_order(
            phase,
            thought,
            BlockKind::Text,
            BlockStartSpec::Text(Seq::empty()),
            DeltaSpec::Text(text->0),
        );
    }
    let texted = with_text(thought, text);
    match choice.delta.tool_calls {
        Some(calls) => {
            lemma_calls_in_order(phase, texted, calls@);
        },
        None => {},
    }
}

/// What a chunk brings is in order for a client that has read everything before it.
pub proof fn law_chunk_is_in_order(state: StateSpec, chunk: StreamChunk)
    requires
        sound(state),
    ensures
        ({
            let run = with_chunk(Run { events: Seq::empty(), state }, chunk);
            &&& accept_all(phase_of(state), run.events) == Some(phase_of(run.state))
            &&& sound(run.state)
            &&& run.state.started
            &&& run.state.finalized == state.finalized
        }),
{
    let phase = phase_of(state);
    let run = Run { events: Seq::empty(), state };
    if !state.finalized {
        let begun = with_start(run, chunk);
        if !state.started {
            lemma_one_more(phase, run.events, begun.events.last());
            assert(begun.events =~= run.events.push(begun.events.last()));
        }
        assert(in_order(phase, begun));
        let counted = match chunk.usage {
            Some(usage) => Run { state: StateSpec { usage: Some(usage), ..begun.state }, ..begun },
            None => begun,
        };
        if chunk.choices@.len() > 0 {
            lemma_choice_in_order(phase, counted, chunk.choices@[0]);
        }
    }
}

/// The end of a message is in order for a client that has read everything before it.
pub proof fn law_end_is_in_order(state: StateSpec)
    requires
        sound(state),
    ensures
        ({
            let run = with_end(Run { events: Seq::empty(), state });
            &&& accept_all(phase_of(state), run.events) == Some(phase_of(run.state))
            &&& sound(run.state)
            &&& run.state.finalized == state.started
        }),
{
    let phase = phase_of(state);
    let run = Run { events: Seq::empty(), state };
    if !state.finalized && state.started {
        lemma_stop_in_order(phase, run);
        let stopped = with_stop(run);
        let end = with_end(run);
        let closing = end.events[end.events.len() - 2];
        assert(end.events =~= stopped.events.push(closing).push(EventSpec::MessageStop));
        lemma_one_more(phase, stopped.events, closing);
        lemma_one_more(phase, stopped.events.push(closing), EventSpec::MessageStop);
    }
}

/// A message that has ended brings nothing more.
pub proof fn law_nothing_follows_the_end(state: StateSpec, chunk: StreamChunk)
    requires
        state.finalized,
    ensures
        with_chunk(Run { events: Seq::empty(), state }, chunk).events.len() == 0,
        with_end(Run { events: Seq::empty(), state }).events.len() == 0,
{
}

/// What chunks bring one after another, and the state that they leave.
pub open spec fn streamed(state: StateSpec, chunks: Seq<StreamChunk>) -> Run
    decreases chunks.len(),
{
    if chunks.len() == 0 {
        Run { events: Seq::empty(), state }
    } else {
        let before = streamed(state, chunks.drop_last());
        let last = with_chunk(Run { events: Seq::empty(), state: before.state }, chunks.last());
        Run { events: before.events + last.events, state: last.state }
    }
}

proof fn lemma_streamed_in_order(state: StateSpec, chunks: Seq<StreamChunk>)
    requires
        sound(state),
    ensures
        ({
            let run = streamed(state, chunks);
            &&& accept_all(phase_of(state), run.events) == Some(phase_of(run.state))
            &&& sound(run.state)
            &&& chunks.len() > 0 ==> run.state.started
            &&& run.state.finalized == state.finalized
        }),
    decreases chunks.len(),
{
    if chunks.len() > 0 {
        lemma_streamed_in_order(state, chunks.drop_last());
        let before = streamed(state, chunks.drop_last());
        let last = with_chunk(Run { events: Seq::empty(), state: before.state }, chunks.last());
        law_chunk_is_in_order(before.state, chunks.last());
        lemma_accept_in_parts(phase_of(state), before.events, last.events);
    }
}

/// A whole stream of at least one chunk, and its end, is one message in order from its start to
/// its stop, whatever the chunks hold.
pub proof fn law_stream_is_one_message(
    fallback_model: Seq<char>,
    input_estimate: u32,
    chunks: Seq<StreamChunk>,
)
    requires
        chunks.len() > 0,
    ensures
        ({
            let run = streamed(fresh_state(fallback_model, input_estimate), chunks);
            let end = with_end(Run { events: Seq::empty(), state: run.state });
            let phase = accept_all(first_phase(), run.events + end.events);
            &&& phase is Some
            &&& phase->0.started
            &&& phase->0.open is None
            &&& phase->0.ended
        }),
{
    let fresh = fresh_state(fallback_model, input_estimate);
    let run = streamed(fresh, chunks);
    let end = with_end(Run { events: Seq::empty(), state: run.state });
    assert(phase_of(fresh) == first_phase());
    lemma_streamed_in_order(fresh, chunks);
    law_end_is_in_order(run.state);
    lemma_accept_in_parts(first_phase(), run.events, end.events);
}

/// What an event adds to the content of blocks of a kind.
pub open spec fn event_content(event: EventSpec, kind: BlockKind) -> Seq<char> {
    match event {
        EventSpec::ContentBlockDelta { delta, .. } => match (delta, kind) {
            (DeltaSpec::Text(text), BlockKind::Text) => text,
            (DeltaSpec::Thinking(text), BlockKind::Thinking) => text,
            (DeltaSpec::InputJson(text), BlockKind::ToolUse) => text,
            _ => Seq::empty(),
        },
        _ => Seq::empty(),
    }
}

/// The content of all blocks of a kind that events bring.
pub open spec fn content_of(events: Seq<EventSpec>, kind: BlockKind) -> Seq<char>
    decreases events.len(),
{
    if events.len() == 0 {
        Seq::empty()
    } else {
        content_of(events.drop_last(), kind) + event_content(events.last(), kind)
    }
}

/// The text that a chunk brings.
pub open spec fn chunk_text(chunk: StreamChunk) -> Seq<char> {
    if chunk.choices@.len() == 0 {
        Seq::empty()
    } else {
        match chunk.choices@[0].delta.content {
            Some(text) => text@,
            None => Seq::empty(),
        }
    }
}

/// The thinking that a chunk brings.
pub open spec fn chunk_thinking(chunk: StreamChunk) -> Seq<char> {
    if chunk.choices@.len() == 0 {
        Seq::empty()
    } else {
        match chunk.choices@[0].delta.reasoning_content {
            Some(text) => text@,
            None => Seq::empty(),
        }
    }
}

/// The text that chunks bring together.
pub open spec fn whole_text(chunks: Seq<StreamChunk>) -> Seq<char>
    decreases chunks.len(),
{
    if chunks.len() == 0 {
        Seq::empty()
    } else {
        whole_text(chunks.drop_last()) + chunk_text(chunks.last())
    }
}

/// The thinking that chunks bring together.
pub open spec fn whole_thinking(chunks: Seq<StreamChunk>) -> Seq<char>
    decreases chunks.len(),
{
    if chunks.len() == 0 {
        Seq::empty()
    } else {
        whole_thinking(chunks.drop_last()) + chunk_thinking(chunks.last())
    }
}

proof fn lemma_content_push(events: Seq<EventSpec>, event: EventSpec, kind: BlockKind)
    ensures
        content_of(events.push(event), kind) == content_of(events, kind) + event_content(
            event,
            kind,
        ),
{
    assert(events.push(event).drop_last() =~= events);
}

proof fn lemma_content_add(a: Seq<EventSpec>, b: Seq<EventSpec>, kind: BlockKind)
    ensures
        content_of(a + b, kind) == content_of(a, kind) + content_of(b, kind),
    decreases b.len(),
{
    if b.len() == 0 {
        assert(a + b =~= a);
        assert(content_of(a, kind) + content_of(b, kind) =~= content_of(a, kind));
    } else {
        lemma_content_add(a, b.drop_last(), kind);
        assert((a + b).drop_last() =~= a + b.drop_last());
        assert((a + b).last() == b.last());
        assert(content_of(a + b, kind) =~= content_of(a, kind) + content_of(b, kind));
    }
}

proof fn lemma_block_content(run: Run, kind: BlockKind, start: BlockStartSpec, of: BlockKind)
    ensures
        content_of(with_block(run, kind, start).events, of) == content_of(run.events, of),
{
    match run.state.open {
        Some(block) => {
            lemma_content_push(
                run.events,
                EventSpec::ContentBlockStop { index: block.index },
                of,
            );
        },
        None => {},
    }
    lemma_content_push(
        with_stop(run).events,
        EventSpec::ContentBlockStart { index: run.state.next_index, content_block: start },
        of,
    );
    assert(content_of(with_block(run, kind, start).events, of) =~= content_of(run.events, of));
}

proof fn lemma_filled_content(
    run: Run,
    kind: BlockKind,
    start: BlockStartSpec,
    delta: DeltaSpec,
    of: BlockKind,
)
    ensures
        content_of(with_filled(run, kind, start, delta).events, of) == content_of(run.events, of)
            + event_content(EventSpec::ContentBlockDelta { index: 0, delta }, of),
{
    let ready = if open_kind(run.state) == Some(kind) {
        run
    } else {
        lemma_block_content(run, kind, start, of);
        with_block(run, kind, start)
    };
    lemma_content_push(
        ready.events,
        EventSpec::ContentBlockDelta { index: ready.state.open->0.index, delta },
        of,
    );
}

proof fn lemma_calls_content(run: Run, calls: Seq<DeltaToolCall>, of: BlockKind)
    requires
        of != BlockKind::ToolUse,
    ensures
        content_of(with_calls(run, calls).events, of) == content_of(run.events, of),
    decreases calls.len(),
{
    if calls.len() > 0 {
        lemma_calls_content(run, calls.drop_last(), of);
        let before = with_calls(run, calls.drop_last());
        let call = calls.last();
        let begun = match call.id {
            Some(id) => {
                let start = BlockStartSpec::ToolUse {
                    id: id@,
                    name: match call.name {
                        Some(name) => name@,
                        None => Seq::empty(),
                    },
                };
                lemma_block_content(before, BlockKind::ToolUse, start, of);
                with_block(before, BlockKind::ToolUse, start)
            },
            None => before,
        };
        match call.arguments {
            Some(arguments) => {
                if begun.state.open is Some {
                    lemma_content_push(
                        begun.events,
                        EventSpec::ContentBlockDelta {
                            index: begun.state.open->0.index,
                            delta: DeltaSpec::InputJson(arguments@),
                        },
                        of,
                    );
                }
            },
            None => {},
        }
        assert(content_of(with_calls(run, calls).events, of) =~= content_of(run.events, of));
    }
}

proof fn lemma_choice_content(run: Run, choice: StreamChoice)
    ensures
        content_of(with_choice(run, choice).events, BlockKind::Text) == content_of(
            run.events,
            BlockKind::Text,
        ) + match choice.delta.content {
            Some(text) => text@,
            None => Seq::empty(),
        },
        content_of(with_choice(run, choice).events, BlockKind::Thinking) == content_of(
            run.events,
            BlockKind::Thinking,
        ) + match choice.delta.reasoning_content {
            Some(text) => text@,
            None => Seq::empty(),
        },
{
    let thinking = opt_text(choice.delta.reasoning_content);
    let text = opt_text(choice.delta.content);
    let thought = with_thinking(run, thinking);
    let texted = with_text(thought, text);
    let t = BlockKind::Text;
    let k = BlockKind::Thinking;
    if thinking is Some {
        let start = BlockStartSpec::Thinking(Seq::empty());
        lemma_filled_content(run, k, start, DeltaSpec::Thinking(thinking->0), t);
        lemma_filled_content(run, k, start, DeltaSpec::Thinking(thinking->0), k);
    }
    assert(content_of(thought.events, t) =~= content_of(run.events, t));
    assert(content_of(thought.events, k) =~= content_of(run.events, k)
        + match choice.delta.reasoning_content {
        Some(text) => text@,
        None => Seq::empty(),
    });
    if text is Some {
        let start = BlockStartSpec::Text(Seq::empty());
        lemma_filled_content(thought, t, start, DeltaSpec::Text(text->0), t);
        lemma_filled_content(thought, t, start, DeltaSpec::Text(text->0), k);
    }
    assert(content_of(texted.events, k) =~= content_of(thought.events, k));
    assert(content_of(texted.events, t) =~= content_of(thought.events, t)
        + match choice.delta.content {
        Some(text) => text@,
        None => Seq::empty(),
    });
    match choice.delta.tool_calls {
        Some(calls) => {
            lemma_calls_content(texted, calls@, t);
            lemma_calls_content(texted, calls@, k);
        },
        None => {},
    }
}

proof fn lemma_chunk_content(state: StateSpec, chunk: StreamChunk)
    requires
        !state.finalized,
    ensures
        ({
            let events = with_chunk(Run { events: Seq::empty(), state }, chunk).events;
            &&& content_of(events, BlockKind::Text) == chunk_text(chunk)
            &&& content_of(events, BlockKind::Thinking) == chunk_thinking(chunk)
        }),
{
    let run = Run { events: Seq::empty(), state };
    let begun = with_start(run, chunk);
    let t = BlockKind::Text;
    let k = BlockKind::Thinking;
    if !state.started {
        lemma_content_push(run.events, begun.events.last(), t);
        lemma_content_push(run.events, begun.events.last(), k);
        assert(begun.events =~= run.events.push(begun.events.last()));
    }
    assert(content_of(begun.events, t) =~= Seq::empty());
    assert(content_of(begun.events, k) =~= Seq::empty());
    let counted = match chunk.usage {
        Some(usage) => Run { state: StateSpec { usage: Some(usage), ..begun.state }, ..begun },
        None => begun,
    };
    let events = with_chunk(run, chunk).events;
    if chunk.choices@.len() > 0 {
        lemma_choice_content(counted, chunk.choices@[0]);
    }
    assert(content_of(events, t) =~= chunk_text(chunk));
    assert(content_of(events, k) =~= chunk_thinking(chunk));
}

/// A client reads exactly the text and the thinking that the upstream streams, all of it and in
/// order.
pub proof fn law_streamed_content_is_kept(state: StateSpec, chunks: Seq<StreamChunk>)
    requires
        sound(state),
        !state.finalized,
    ensures
        content_of(streamed(state, chunks).events, BlockKind::Text) == whole_text(chunks),
        content_of(streamed(state, chunks).events, BlockKind::Thinking) == whole_thinking(chunks),
    decreases chunks.len(),
{
    if chunks.len() > 0 {
        law_streamed_content_is_kept(state, chunks.drop_last());
        lemma_streamed_in_order(state, chunks.drop_last());
        let before = streamed(state, chunks.drop_last());
        let last = with_chunk(Run { events: Seq::empty(), state: before.state }, chunks.last());
        lemma_chunk_content(before.state, chunks.last());
        lemma_content_add(before.events, last.events, BlockKind::Text);
        lemma_content_add(before.events, last.events, BlockKind::Thinking);
    }
}

/// The kind of the open block after calls: that of a call, once one of them has been opened.
pub open spec fn kind_after_calls(
    open: Option<BlockKind>,
    calls: Seq<DeltaToolCall>,
) -> Option<BlockKind>
    decreases calls.len(),
{
    if calls.len() == 0 {
        open
    } else if calls.last().id is Some {
        Some(BlockKind::ToolUse)
    } else {
        kind_after_calls(open, calls.drop_last())
    }
}

/// The arguments in calls that belong to a call that has been opened.
pub open spec fn opened_arguments(open: Option<BlockKind>, calls: Seq<DeltaToolCall>) -> Seq<char>
    decreases calls.len(),
{
    if calls.len() == 0 {
        Seq::empty()
    } else {
        let before = opened_arguments(open, calls.drop_last());
        match calls.last().arguments {
            Some(arguments) => if kind_after_calls(open, calls) == Some(BlockKind::ToolUse) {
                before + arguments@
            } else {
                before
            },
            None => before,
        }
    }
}

/// The kind of the open block after the thinking and the text of a choice.
pub open spec fn kind_after_texts(
    open: Option<BlockKind>,
    choice: StreamChoice,
) -> Option<BlockKind> {
    let thinking = opt_text(choice.delta.reasoning_content);
    let text = opt_text(choice.delta.content);
    if text is Some && text->0.len() > 0 {
        Some(BlockKind::Text)
    } else if thinking is Some && thinking->0.len() > 0 {
        Some(BlockKind::Thinking)
    } else {
        open
    }
}

/// The calls of a chunk.
pub open spec fn chunk_calls(chunk: StreamChunk) -> Seq<DeltaToolCall> {
    if chunk.choices@.len() == 0 {
        Seq::empty()
    } else {
        match chunk.choices@[0].delta.tool_calls {
            Some(calls) => calls@,
            None => Seq::empty(),
        }
    }
}

/// The kind of the open block when the calls of a chunk come.
pub open spec fn kind_before_calls(
    open: Option<BlockKind>,
    chunk: StreamChunk,
) -> Option<BlockKind> {
    if chunk.choices@.len() == 0 {
        open
    } else {
        kind_after_texts(open, chunk.choices@[0])
    }
}

/// The kind of the open block after chunks.
pub open spec fn kind_after_chunks(
    open: Option<BlockKind>,
    chunks: Seq<StreamChunk>,
) -> Option<BlockKind>
    decreases chunks.len(),
{
    if chunks.len() == 0 {
        open
    } else {
        kind_after_calls(
            kind_before_calls(kind_after_chunks(open, chunks.drop_last()), chunks.last()),
            chunk_calls(chunks.last()),
        )
    }
}

/// The arguments of opened calls that chunks bring together.
pub open spec fn whole_arguments(open: Option<BlockKind>, chunks: Seq<StreamChunk>) -> Seq<char>
    decreases chunks.len(),
{
    if chunks.len() == 0 {
        Seq::empty()
    } else {
        let before = kind_after_chunks(open, chunks.drop_last());
        whole_arguments(open, chunks.drop_last()) + opened_arguments(
            kind_before_calls(before, chunks.last()),
            chunk_calls(chunks.last()),
        )
    }
}

proof fn lemma_calls_arguments(run: Run, calls: Seq<DeltaToolCall>)
    ensures
        ({
            let after = with_calls(run, calls);
            let open = open_kind(run.state);
            &&& open_kind(after.state) == kind_after_calls(open, calls)
            &&& content_of(after.events, BlockKind::ToolUse) == content_of(
                run.events,
                BlockKind::ToolUse,
            ) + opened_arguments(open, calls)
        }),
    decreases calls.len(),
{
    let kind = BlockKind::ToolUse;
    let open = open_kind(run.state);
    let start_content = content_of(run.events, kind);
    if calls.len() == 0 {
        assert(start_content + opened_arguments(open, calls) =~= start_content);
    } else {
        lemma_calls_arguments(run, calls.drop_last());
        let before = with_calls(run, calls.drop_last());
        let call = calls.last();
        let begun = match call.id {
            Some(id) => {
                let start = BlockStartSpec::ToolUse {
                    id: id@,
                    name: match call.name {
                        Some(name) => name@,
                        None => Seq::empty(),
                    },
                };
                lemma_block_content(before, kind, start, kind);
                with_block(before, kind, start)
            },
            None => before,
        };
        assert(open_kind(begun.state) == kind_after_calls(open, calls));
        assert(content_of(begun.events, kind) == content_of(before.events, kind));
        match call.arguments {
            Some(arguments) => {
                if open_kind(begun.state) == Some(kind) {
                    lemma_content_push(
                        begun.events,
                        EventSpec::ContentBlockDelta {
                            index: begun.state.open->0.index,
                            delta: DeltaSpec::InputJson(arguments@),
                        },
                        kind,
                    );
                }
            },
            None => {},
        }
        assert(content_of(with_calls(run, calls).events, kind) =~= start_content
            + opened_arguments(open, calls));
    }
}

proof fn lemma_chunk_arguments(state: StateSpec, chunk: StreamChunk)
    requires
        !state.finalized,
        sound(state),
    ensures
        ({
            let run = with_chunk(Run { events: Seq::empty(), state }, chunk);
            let open = kind_before_calls(open_kind(state), chunk);
            &&& content_of(run.events, BlockKind::ToolUse) == opened_arguments(
                open,
                chunk_calls(chunk),
            )
            &&& open_kind(run.state) == kind_after_calls(open, chunk_calls(chunk))
        }),
{
    let kind = BlockKind::ToolUse;
    let run = Run { events: Seq::empty(), state };
    let begun = with_start(run, chunk);
    if !state.started {
        lemma_content_push(run.events, begun.events.last(), kind);
        assert(begun.events =~= run.events.push(begun.events.last()));
    }
    assert(content_of(begun.events, kind) =~= Seq::empty());
    let counted = match chunk.usage {
        Some(usage) => Run { state: StateSpec { usage: Some(usage), ..begun.state }, ..begun },
        None => begun,
    };
    if chunk.choices@.len() > 0 {
        let choice = chunk.choices@[0];
        let thinking = opt_text(choice.delta.reasoning_content);
        let text = opt_text(choice.delta.content);
        let thought = with_thinking(counted, thinking);
        let texted = with_text(thought, text);
        if thinking is Some {
            lemma_filled_content(
                counted,
                BlockKind::Thinking,
                BlockStartSpec::Thinking(Seq::empty()),
                DeltaSpec::Thinking(thinking->0),
                kind,
            );
        }
        assert(content_of(thought.events, kind) =~= Seq::empty());
        if text is Some {
            lemma_filled_content(
                thought,
                BlockKind::Text,
                BlockStartSpec::Text(Seq::empty()),
                DeltaSpec::Text(text->0),
                kind,
            );
        }
        assert(content_of(texted.events, kind) =~= Seq::empty());
        assert(open_kind(texted.state) == kind_after_texts(open_kind(state), choice));
        lemma_calls_arguments(texted, chunk_calls(chunk));
        assert(with_calls(texted, chunk_calls(chunk)) == match choice.delta.tool_calls {
            Some(calls) => with_calls(texted, calls@),
            None => texted,
        });
        let open = kind_before_calls(open_kind(state), chunk);
        assert(content_of(with_chunk(run, chunk).events, kind) =~= opened_arguments(
            open,
            chunk_calls(chunk),
        ));
    }
}

/// A client reads exactly the arguments that the upstream streams for calls that it has opened,
/// all of them and in order.
pub proof fn law_streamed_arguments_are_kept(state: StateSpec, chunks: Seq<StreamChunk>)
    requires
        sound(state),
        !state.finalized,
    ensures
        content_of(streamed(state, chunks).events, BlockKind::ToolUse) == whole_arguments(
            open_kind(state),
            chunks,
        ),
        open_kind(streamed(state, chunks).state) == kind_after_chunks(open_kind(state), chunks),
    decreases chunks.len(),
{
    if chunks.len() > 0 {
        law_streamed_arguments_are_kept(state, chunks.drop_last());
        lemma_streamed_in_order(state, chunks.drop_last());
        let before = streamed(state, chunks.drop_last());
        let last = with_chunk(Run { events: Seq::empty(), state: before.state }, chunks.last());
        lemma_chunk_arguments(before.state, chunks.last());
        lemma_content_add(before.events, last.events, BlockKind::ToolUse);
    }
}

/// What a client gets for what is read in two parts.
proof fn lemma_relayed_in_parts(state: StateSpec, a: Seq<InputSpec>, b: Seq<InputSpec>)
    ensures
        ({
            let first = relayed(state, a);
            let rest = relayed(first.state, b);
            relayed(state, a + b) == if forall|i: int| 0 <= i < a.len() ==> reads_on(#[trigger] a[i]) {
                Run { events: first.events + rest.events, state: rest.state }
            } else {
                first
            }
        }),
    decreases a.len(),
{
    let all_on = forall|i: int| 0 <= i < a.len() ==> reads_on(#[trigger] a[i]);
    if a.len() == 0 {
        assert(a + b =~= b);
        let rest = relayed(state, b);
        assert(Seq::<EventSpec>::empty() + rest.events =~= rest.events);
    } else {
        let tail = a.drop_first();
        assert((a + b).drop_first() =~= tail + b);
        assert((a + b)[0] == a[0]);
        if reads_on(a[0]) {
            let one = input_run(state, a[0]);
            lemma_relayed_in_parts(one.state, tail, b);
            let tail_on = forall|i: int| 0 <= i < tail.len() ==> reads_on(#[trigger] tail[i]);
            if tail_on {
                assert forall|i: int| 0 <= i < a.len() implies reads_on(#[trigger] a[i]) by {
                    if i > 0 {
                        assert(reads_on(tail[i - 1]));
                    }
                }
            } else {
                let i = choose|i: int| 0 <= i < tail.len() && !reads_on(#[trigger] tail[i]);
                assert(!reads_on(a[i + 1]));
            }
            assert(all_on == tail_on);
            let first = relayed(state, a);
            let rest = relayed(first.state, b);
            let middle = relayed(one.state, tail);
            assert(one.events + (middle.events + rest.events) =~= (one.events + middle.events)
                + rest.events);
        }
    }
}

/// Data that is no chunk changes nothing, wherever it comes.
pub proof fn law_unreadable_data_is_skipped(
    state: StateSpec,
    before: Seq<InputSpec>,
    after: Seq<InputSpec>,
)
    ensures
        relayed(state, before + seq![InputSpec::Unreadable] + after) == relayed(
            state,
            before + after,
        ),
{
    let one = seq![InputSpec::Unreadable];
    let middle = relayed(state, before).state;
    lemma_relayed_in_parts(state, before, one + after);
    lemma_relayed_in_parts(state, before, after);
    assert(before + one + after =~= before + (one + after));
    assert((one + after).drop_first() =~= after);
    let rest = relayed(middle, after);
    assert(Seq::<EventSpec>::empty() + rest.events =~= rest.events);
    assert(relayed(middle, one + after) == rest);
}

/// Once the stream has broken off or ended, nothing more is read.
pub proof fn law_nothing_is_read_after_the_last(
    state: StateSpec,
    before: Seq<InputSpec>,
    last: InputSpec,
    after: Seq<InputSpec>,
)
    requires
        !reads_on(last),
    ensures
        relayed(state, before.push(last) + after) == relayed(state, before.push(last)),
{
    let read = before.push(last);
    lemma_relayed_in_parts(state, read, after);
    assert(!reads_on(read[before.len() as int]));
}

/// A stream that breaks off gives one error, and then the message ends.
pub proof fn law_error_is_told_once(state: StateSpec, err: Seq<char>)
    ensures
        ({
            let run = input_run(state, InputSpec::Error(err));
            let end = input_run(state, InputSpec::End);
            &&& run.events == seq![error_event(err)] + end.events
            &&& run.state == end.state
            &&& forall|i: int| 0 <= i < end.events.len() ==> !(#[trigger] end.events[i] is Error)
        }),
{
    lemma_end_behind(seq![error_event(err)], state);
}

/// Whatever is read, what a client gets is in order.
pub proof fn law_relay_is_in_order(state: StateSpec, inputs: Seq<InputSpec>)
    requires
        sound(state),
    ensures
        accept_all(phase_of(state), relayed(state, inputs).events) == Some(
            phase_of(relayed(state, inputs).state),
        ),
        sound(relayed(state, inputs).state),
    decreases inputs.len(),
{
    if inputs.len() > 0 {
        let first = input_run(state, inputs[0]);
        match inputs[0] {
            InputSpec::Chunk(chunk) => {
                law_chunk_is_in_order(state, chunk);
            },
            InputSpec::Error(err) => {
                law_end_is_in_order(state);
                lemma_end_behind(seq![error_event(err)], state);
                let end = with_end(Run { events: Seq::empty(), state });
                let error = seq![error_event(err)];
                lemma_one_more(phase_of(state), Seq::empty(), error_event(err));
                assert(error =~= Seq::<EventSpec>::empty().push(error_event(err)));
                lemma_accept_in_parts(phase_of(state), error, end.events);
            },
            _ => {
                law_end_is_in_order(state);
            },
        }
        if reads_on(inputs[0]) {
            let tail = inputs.drop_first();
            law_relay_is_in_order(first.state, tail);
            lemma_accept_in_parts(
                phase_of(state),
                first.events,
                relayed(first.state, tail).events,
            );
        }
    }
}

} // verus!
