//! What the models show of the values they stand for: every field, each in its own place.
use crate::config::{tiers_view, EffortMap, EffortTier, ModelTiers};
use crate::error::{ErrorSpec, ProxyError};
use crate::json::{number_u64, JsonSpec};
use crate::models::anthropic::{
    response_contents, AnthropicResponse, ContentBlockStart, Delta, EventSpec, ModelsListResponse,
    ResponseContent, ResponseContentSpec, StreamEvent,
};
use crate::models::openai::{
    calls_view, messages_view, parts_view, tools_view, ContentPart, ContentSpec, Message,
    MessageContent, OpenAIRequest, PartSpec, Tool, ToolCall,
};
use crate::models::opt_text;
use crate::proxy::retry::{Outcome, OutcomeSpec};
use crate::proxy::sse::{items_view, ItemSpec, SseItem};
use crate::text::texts;
use crate::translate::pipeline::TranslationPolicy;
use crate::translate::stream::{run_of, InputSpec, StreamInput, StreamState};
use vstd::prelude::*;

verus! {

/// A member of an object is found under its key, a string is its text, a boolean its value; of
/// values of another kind there is none of these.
pub proof fn law_json_is_looked_up(json: JsonSpec, key: Seq<char>)
    ensures
        json matches JsonSpec::Object(members) ==> {
            &&& members.contains_key(key) ==> json.get(key) == Some(members[key])
            &&& !members.contains_key(key) ==> json.get(key) is None
        },
        !(json is Object) ==> json.get(key) is None && json.str_at(key) is None,
        json matches JsonSpec::String(text) ==> json.as_str() == Some(text),
        !(json is String) ==> json.as_str() is None,
        json matches JsonSpec::Bool(b) ==> json.as_bool() == Some(b),
        !(json is Bool) ==> json.as_bool() is None,
        json matches JsonSpec::Number(n) ==> json.as_u64() == number_u64(n),
        !(json is Number) ==> json.as_u64() is None,
        json.get(key) matches Some(JsonSpec::String(text)) ==> json.str_at(key) == Some(text),
        json.get(key) is Some && !(json.get(key)->0 is String) ==> json.str_at(key) is None,
{
}

/// A list is shown item by item, in order, and an optional value as what it holds.
pub proof fn law_lists_are_shown(
    strings: Seq<String>,
    messages: Seq<Message>,
    parts: Seq<ContentPart>,
    calls: Seq<ToolCall>,
    tools: Seq<Tool>,
    i: int,
)
    ensures
        texts(strings).len() == strings.len(),
        messages_view(messages).len() == messages.len(),
        parts_view(parts).len() == parts.len(),
        calls_view(calls).len() == calls.len(),
        tools_view(tools).len() == tools.len(),
        0 <= i < strings.len() ==> texts(strings)[i] == strings[i]@ && opt_text(Some(strings[i]))
            == Some(strings[i]@),
        0 <= i < messages.len() ==> messages_view(messages)[i] == messages[i]@,
        0 <= i < parts.len() ==> parts_view(parts)[i] == parts[i]@,
        0 <= i < calls.len() ==> calls_view(calls)[i] == calls[i]@,
        0 <= i < tools.len() ==> tools_view(tools)[i] == tools[i]@,
        opt_text(None) is None,
{
}

/// So are the blocks of an answer, the events of a stream, what a decoder hands out, and tiers.
pub proof fn law_streams_are_shown(
    state: StreamState,
    events: Seq<StreamEvent>,
    items: Seq<SseItem>,
    blocks: Seq<ResponseContent>,
    tiers: Seq<EffortTier>,
    i: int,
)
    ensures
        run_of(state, events).state == state@,
        run_of(state, events).events.len() == events.len(),
        items_view(items).len() == items.len(),
        response_contents(blocks).len() == blocks.len(),
        tiers_view(tiers).len() == tiers.len(),
        0 <= i < events.len() ==> run_of(state, events).events[i] == events[i]@,
        0 <= i < items.len() ==> items_view(items)[i] == items[i]@,
        0 <= i < blocks.len() ==> response_contents(blocks)[i] == blocks[i]@,
        0 <= i < tiers.len() ==> tiers_view(tiers)[i] == tiers[i]@,
{
}

pub proof fn law_call_is_shown(call: ToolCall)
    ensures
        call@.id == call.id@,
        call@.call_type == call.call_type@,
        call@.name == call.function.name@,
        call@.arguments == call.function.arguments@,
{
}

pub proof fn law_content_is_shown(content: MessageContent, part: ContentPart)
    ensures
        part matches ContentPart::Text { text } ==> part@ == PartSpec::Text(text@),
        part matches ContentPart::ImageUrl { image_url } ==> part@ == PartSpec::ImageUrl(
            image_url.url@,
        ),
        content matches MessageContent::Text(text) ==> content@ == ContentSpec::Text(text@),
        content matches MessageContent::Parts(parts) ==> content@ is Parts
            && content@->Parts_0.len() == parts@.len() && forall|i: int|
            0 <= i < parts@.len() ==> #[trigger] content@->Parts_0[i] == parts@[i]@,
{
}

pub proof fn law_message_is_shown(message: Message)
    ensures
        message@.role == message.role@,
        message@.content is Some <==> message.content is Some,
        message.content is Some ==> message@.content->0 == message.content->0@,
        message@.reasoning_content == opt_text(message.reasoning_content),
        message@.tool_call_id == opt_text(message.tool_call_id),
        message@.tool_calls is Some <==> message.tool_calls is Some,
        message.tool_calls is Some ==> message@.tool_calls->0.len() == message.tool_calls->0@.len()
            && forall|i: int|
            0 <= i < message.tool_calls->0@.len() ==> #[trigger] message@.tool_calls->0[i]
                == message.tool_calls->0@[i]@,
{
}

pub proof fn law_tool_is_shown(tool: Tool)
    ensures
        tool@.tool_type == tool.tool_type@,
        tool@.name == tool.function.name@,
        tool@.description == opt_text(tool.function.description),
        tool@.parameters == tool.function.parameters@,
{
}

pub proof fn law_request_is_shown(req: OpenAIRequest)
    ensures
        req@.model == req.model@,
        req@.messages.len() == req.messages@.len(),
        forall|i: int|
            0 <= i < req.messages@.len() ==> #[trigger] req@.messages[i] == req.messages@[i]@,
        req@.max_tokens == req.max_tokens,
        req@.temperature == req.temperature,
        req@.top_p == req.top_p,
        req@.stop is Some <==> req.stop is Some,
        req.stop is Some ==> req@.stop->0.len() == req.stop->0@.len() && forall|i: int|
            0 <= i < req.stop->0@.len() ==> #[trigger] req@.stop->0[i] == req.stop->0@[i]@,
        req@.stream == req.stream,
        req@.stream_options == req.stream_options,
        req@.tools is Some <==> req.tools is Some,
        req.tools is Some ==> req@.tools->0.len() == req.tools->0@.len() && forall|i: int|
            0 <= i < req.tools->0@.len() ==> #[trigger] req@.tools->0[i] == req.tools->0@[i]@,
        req@.tool_choice is Some <==> req.tool_choice is Some,
        req.tool_choice is Some ==> req@.tool_choice->0 == req.tool_choice->0@,
        req@.parallel_tool_calls == req.parallel_tool_calls,
        req@.user == opt_text(req.user),
        req@.reasoning_effort == opt_text(req.reasoning_effort),
        req@.response_format is Some <==> req.response_format is Some,
        req.response_format is Some ==> req@.response_format->0 == req.response_format->0@,
{
}

pub proof fn law_answer_is_shown(answer: AnthropicResponse, block: ResponseContent)
    ensures
        answer@.id == answer.id@,
        answer@.response_type == answer.response_type@,
        answer@.role == answer.role@,
        answer@.model == answer.model@,
        answer@.stop_reason == opt_text(answer.stop_reason),
        answer@.stop_sequence == opt_text(answer.stop_sequence),
        answer@.usage == answer.usage,
        answer@.content.len() == answer.content@.len(),
        forall|i: int|
            0 <= i < answer.content@.len() ==> #[trigger] answer@.content[i]
                == answer.content@[i]@,
        block matches ResponseContent::Text { content_type, text } ==> block@
            == (ResponseContentSpec::Text { content_type: content_type@, text: text@ }),
        block matches ResponseContent::Thinking { content_type, thinking } ==> block@
            == (ResponseContentSpec::Thinking {
            content_type: content_type@,
            thinking: thinking@,
        }),
        block matches ResponseContent::ToolUse { content_type, id, name, input } ==> block@
            == (ResponseContentSpec::ToolUse {
            content_type: content_type@,
            id: id@,
            name: name@,
            input: input@,
        }),
{
}

pub proof fn law_model_list_is_shown(list: ModelsListResponse)
    ensures
        list@.first_id == opt_text(list.first_id),
        list@.last_id == opt_text(list.last_id),
        list@.has_more == list.has_more,
        list@.data.len() == list.data@.len(),
        forall|i: int|
            0 <= i < list.data@.len() ==> {
                &&& (#[trigger] list@.data[i]).id == list.data@[i].id@
                &&& list@.data[i].display_name == list.data@[i].display_name@
                &&& list@.data[i].created_at == list.data@[i].created_at@
                &&& list@.data[i].model_type == list.data@[i].model_type@
            },
{
}

pub proof fn law_event_is_shown(event: StreamEvent)
    ensures
        event matches StreamEvent::MessageStart { message } ==> {
            &&& event@ is MessageStart
            &&& event@->MessageStart_id == message.id@
            &&& event@->MessageStart_message_type == message.message_type@
            &&& event@->MessageStart_role == message.role@
            &&& event@->MessageStart_model == message.model@
            &&& event@->MessageStart_usage == message.usage
        },
        event matches StreamEvent::ContentBlockStart { index, content_block } ==> {
            &&& event@ is ContentBlockStart
            &&& event@->ContentBlockStart_index == index
            &&& match content_block {
                ContentBlockStart::Text { text } => event@->ContentBlockStart_content_block is Text
                    && event@->ContentBlockStart_content_block->Text_0 == text@,
                ContentBlockStart::Thinking { thinking } => {
                    &&& event@->ContentBlockStart_content_block is Thinking
                    &&& event@->ContentBlockStart_content_block->Thinking_0 == thinking@
                },
                ContentBlockStart::ToolUse { id, name } => {
                    &&& event@->ContentBlockStart_content_block is ToolUse
                    &&& event@->ContentBlockStart_content_block->ToolUse_id == id@
                    &&& event@->ContentBlockStart_content_block->ToolUse_name == name@
                },
            }
        },
        event matches StreamEvent::ContentBlockDelta { index, delta } ==> {
            &&& event@ is ContentBlockDelta
            &&& event@->ContentBlockDelta_index == index
            &&& match delta {
                Delta::TextDelta { text } => event@->ContentBlockDelta_delta is Text
                    && event@->ContentBlockDelta_delta->Text_0 == text@,
                Delta::ThinkingDelta { thinking } => event@->ContentBlockDelta_delta is Thinking
                    && event@->ContentBlockDelta_delta->Thinking_0 == thinking@,
                Delta::InputJsonDelta { partial_json } => {
                    &&& event@->ContentBlockDelta_delta is InputJson
                    &&& event@->ContentBlockDelta_delta->InputJson_0 == partial_json@
                },
            }
        },
        event matches StreamEvent::ContentBlockStop { index } ==> event@
            == (EventSpec::ContentBlockStop { index }),
        event matches StreamEvent::MessageDelta { delta, usage } ==> {
            &&& event@ is MessageDelta
            &&& event@->MessageDelta_stop_reason == opt_text(delta.stop_reason)
            &&& event@->MessageDelta_stop_sequence == opt_text(delta.stop_sequence)
            &&& event@->MessageDelta_usage == usage
        },
        event is MessageStop <==> event@ is MessageStop,
        event is Ping <==> event@ is Ping,
        event matches StreamEvent::Error { error } ==> event@ == (EventSpec::Error {
            error_type: error.error_type@,
            message: error.message@,
        }),
{
}

pub proof fn law_state_is_shown(state: StreamState, input: StreamInput, item: SseItem)
    ensures
        state@.fallback_model == state.fallback_model@,
        state@.input_estimate == state.input_estimate,
        state@.started == state.started,
        state@.finalized == state.finalized,
        state@.open == state.open,
        state@.next_index == state.next_index,
        state@.finish_reason == opt_text(state.finish_reason),
        state@.usage == state.usage,
        input is Done <==> input@ is Done,
        input is Unreadable <==> input@ is Unreadable,
        input is End <==> input@ is End,
        input matches StreamInput::Chunk(chunk) ==> input@ == InputSpec::Chunk(chunk),
        input matches StreamInput::Error(err) ==> input@ == InputSpec::Error(err@),
        item is Done <==> item@ is Done,
        item matches SseItem::Data(data) ==> item@ == ItemSpec::Data(data@),
{
}

pub proof fn law_error_is_shown(err: ProxyError, outcome: Outcome)
    ensures
        err matches ProxyError::Transform(message) ==> err@ == ErrorSpec::Transform(message@),
        err matches ProxyError::Upstream(message) ==> err@ == ErrorSpec::Upstream(message@),
        err matches ProxyError::Http(message) ==> err@ == ErrorSpec::Http(message@),
        err matches ProxyError::UpstreamStatus { status, message } ==> err@
            == ErrorSpec::UpstreamStatus(status, message@),
        err is Serialization <==> err@ is Serialization,
        outcome is Answered <==> outcome@ is Answered,
        outcome matches Outcome::Retriable(err) ==> outcome@ == OutcomeSpec::Retriable(err@),
        outcome matches Outcome::Fatal(err) ==> outcome@ == OutcomeSpec::Fatal(err@),
        outcome matches Outcome::Status { status, message } ==> outcome@ == OutcomeSpec::Status(
            status,
            message@,
        ),
{
}

pub proof fn law_settings_are_shown(
    policy: TranslationPolicy,
    map: EffortMap,
    tier: EffortTier,
    own: ModelTiers,
)
    ensures
        policy@.reasoning_model == opt_text(policy.reasoning_model),
        policy@.completion_model == opt_text(policy.completion_model),
        policy@.model_map == policy.model_map@,
        policy@.effort_map == policy.effort_map@,
        policy@.ignore_terms.len() == policy.ignore_terms@.len(),
        forall|i: int|
            0 <= i < policy.ignore_terms@.len() ==> #[trigger] policy@.ignore_terms[i]
                == policy.ignore_terms@[i]@,
        tier@.effort == tier.effort@,
        tier@.max_budget == tier.max_budget,
        own@.0 == own.model@,
        own@.1.len() == own.tiers@.len(),
        forall|i: int| 0 <= i < own.tiers@.len() ==> #[trigger] own@.1[i] == own.tiers@[i]@,
        map@.global.len() == map.global@.len(),
        forall|i: int| 0 <= i < map.global@.len() ==> #[trigger] map@.global[i] == map.global@[i]@,
        map@.overrides.len() == map.overrides@.len(),
        forall|i: int|
            0 <= i < map.overrides@.len() ==> #[trigger] map@.overrides[i] == map.overrides@[i]@,
{
}

} // verus!
