//! What becomes of a whole answer and of a list of models.
use crate::json::{parsed_json, JsonSpec};
use crate::models::anthropic::{event_name, ResponseContentSpec, StreamEvent};
use crate::models::openai::{ModelInfo, OpenAIResponse, Usage};
use crate::models::opt_text;
use crate::translate::elements::{prompt_split, stop_reason};
use crate::translate::response::{translated_models, translated_response};
use vstd::prelude::*;

verus! {

/// The reason to stop, in the client's words, whatever the message holds. A reason that has no
/// words of its own ends the turn.
pub proof fn law_stop_reason_is_told(resp: OpenAIResponse, fallback_model: Seq<char>)
    requires
        resp.choices@.len() > 0,
    ensures
        ({
            let finish = opt_text(resp.choices@[0].finish_reason);
            let told = translated_response(resp, fallback_model).stop_reason;
            &&& finish is None ==> told is None
            &&& finish == Some("stop"@) ==> told == Some("end_turn"@)
            &&& finish == Some("length"@) ==> told == Some("max_tokens"@)
            &&& finish == Some("tool_calls"@) ==> told == Some("tool_use"@)
            &&& finish == Some("content_filter"@) ==> told == Some("refusal"@)
            &&& finish is Some && finish != Some("length"@) && finish != Some("tool_calls"@)
                && finish != Some("content_filter"@) ==> told == Some("end_turn"@)
        }),
{
    law_stop_reasons();
}

/// The names of the reasons to stop.
pub proof fn law_stop_reasons()
    ensures
        stop_reason("stop"@) == "end_turn"@,
        stop_reason("length"@) == "max_tokens"@,
        stop_reason("tool_calls"@) == "tool_use"@,
        stop_reason("content_filter"@) == "refusal"@,
        forall|other: Seq<char>|
            other != "length"@ && other != "tool_calls"@ && other != "content_filter"@
                ==> #[trigger] stop_reason(other) == "end_turn"@,
{
    reveal_strlit("stop");
    reveal_strlit("length");
    reveal_strlit("tool_calls");
    reveal_strlit("content_filter");
    assert("stop"@.len() == 4 && "length"@.len() == 6 && "tool_calls"@.len() == 10
        && "content_filter"@.len() == 14);
}

/// An answer keeps the upstream's id and model, where it has them, and says that it is a message
/// of the assistant.
pub proof fn law_answer_keeps_its_identity(resp: OpenAIResponse, fallback_model: Seq<char>)
    requires
        resp.choices@.len() > 0,
    ensures
        ({
            let answer = translated_response(resp, fallback_model);
            &&& resp.id is Some ==> answer.id == resp.id->0@
            &&& resp.id is None ==> answer.id == "msg_proxy"@
            &&& resp.model is Some ==> answer.model == resp.model->0@
            &&& resp.model is None ==> answer.model == fallback_model
            &&& answer.response_type == "message"@
            &&& answer.role == "assistant"@
            &&& answer.stop_sequence is None
        }),
{
}

/// The prompt is told in two parts, what a cache served and what none did, and the output as it
/// was counted.
pub proof fn law_usage_is_told(resp: OpenAIResponse, fallback_model: Seq<char>)
    requires
        resp.choices@.len() > 0,
    ensures
        ({
            let usage = translated_response(resp, fallback_model).usage;
            &&& usage.output_tokens == resp.usage.completion_tokens
            &&& usage.cache_creation_input_tokens is None
            &&& match resp.usage.prompt_tokens_details {
                Some(details) => {
                    &&& usage.cache_read_input_tokens == Some(details.cached_tokens)
                    &&& details.cached_tokens <= resp.usage.prompt_tokens ==> usage.input_tokens
                        + details.cached_tokens == resp.usage.prompt_tokens
                    &&& details.cached_tokens > resp.usage.prompt_tokens ==> usage.input_tokens == 0
                },
                None => {
                    &&& usage.cache_read_input_tokens is None
                    &&& usage.input_tokens == resp.usage.prompt_tokens
                },
            }
        }),
{
}

/// The parts of a prompt: the cached part is what the upstream says, and the other what is left.
pub proof fn law_prompt_is_split(usage: Usage)
    ensures
        usage.prompt_tokens_details is None ==> prompt_split(usage).0
            == usage.prompt_tokens && prompt_split(usage).1 is None,
        usage.prompt_tokens_details is Some ==> {
            let cached = usage.prompt_tokens_details->0.cached_tokens;
            &&& prompt_split(usage).1 == Some(cached)
            &&& cached <= usage.prompt_tokens ==> prompt_split(usage).0 + cached
                == usage.prompt_tokens
            &&& cached > usage.prompt_tokens ==> prompt_split(usage).0 == 0
        },
{
}

/// An answer holds its thinking, then its text, where they are not empty, and then its calls, each
/// with its id, its name and its arguments read as JSON.
pub proof fn law_answer_holds_everything(resp: OpenAIResponse, fallback_model: Seq<char>)
    requires
        resp.choices@.len() > 0,
    ensures
        ({
            let message = resp.choices@[0].message;
            let content = translated_response(resp, fallback_model).content;
            let thinks = message.reasoning_content is Some && message.reasoning_content->0@.len()
                > 0;
            let speaks = message.content is Some && message.content->0@.len() > 0;
            let calls = if message.tool_calls is Some {
                message.tool_calls->0@
            } else {
                Seq::empty()
            };
            let before = (if thinks {
                1int
            } else {
                0
            }) + (if speaks {
                1int
            } else {
                0
            });
            &&& content.len() == before + calls.len()
            &&& thinks ==> content[0] == (ResponseContentSpec::Thinking {
                content_type: "thinking"@,
                thinking: message.reasoning_content->0@,
            })
            &&& speaks ==> content[before - 1] == (ResponseContentSpec::Text {
                content_type: "text"@,
                text: message.content->0@,
            })
            &&& forall|i: int|
                0 <= i < calls.len() ==> {
                    let block = #[trigger] content[before + i];
                    &&& block is ToolUse
                    &&& block->ToolUse_content_type == "tool_use"@
                    &&& block->ToolUse_id == calls[i].id@
                    &&& block->ToolUse_name == calls[i].function.name@
                    &&& parsed_json(calls[i].function.arguments@) is Some ==> Some(
                        block->ToolUse_input,
                    ) == parsed_json(calls[i].function.arguments@)
                    &&& parsed_json(calls[i].function.arguments@) is None ==> block->ToolUse_input
                        == JsonSpec::Object(Map::empty())
                }
        }),
{
}

/// A list of models keeps its models and their order. A model is shown under its id, and the first
/// and the last id are those of the list.
pub proof fn law_models_are_listed(data: Seq<ModelInfo>)
    ensures
        ({
            let list = translated_models(data);
            &&& list.data.len() == data.len()
            &&& forall|i: int|
                0 <= i < data.len() ==> {
                    &&& (#[trigger] list.data[i]).id == data[i].id@
                    &&& list.data[i].display_name == data[i].id@
                    &&& list.data[i].model_type == "model"@
                    &&& list.data[i].created_at == "1970-01-01T00:00:00Z"@
                }
            &&& !list.has_more
            &&& data.len() == 0 ==> list.first_id is None && list.last_id is None
            &&& data.len() > 0 ==> list.first_id == Some(data[0].id@) && list.last_id == Some(
                data[data.len() - 1].id@,
            )
        }),
{
}

/// Each event is sent under its own name.
pub proof fn law_events_have_names(event: StreamEvent)
    ensures
        event is MessageStart ==> event_name(event) == "message_start"@,
        event is ContentBlockStart ==> event_name(event) == "content_block_start"@,
        event is ContentBlockDelta ==> event_name(event) == "content_block_delta"@,
        event is ContentBlockStop ==> event_name(event) == "content_block_stop"@,
        event is MessageDelta ==> event_name(event) == "message_delta"@,
        event is MessageStop ==> event_name(event) == "message_stop"@,
        event is Ping ==> event_name(event) == "ping"@,
        event is Error ==> event_name(event) == "error"@,
{
}

} // verus!
