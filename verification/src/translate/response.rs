//! Responses and lists of models.
use crate::error::{ProxyError, ProxyResult};
use crate::json::{json_text, parsed_json, plain_json, Json, JsonMap, JsonSpec, MAX_DEPTH};
use crate::models::anthropic;
use crate::models::anthropic::{
    response_contents, AnthropicResponseSpec, ContentBlock, Message, MessageContent, ModelInfoSpec,
    ModelsListSpec, ResponseContentSpec,
};
use crate::models::openai;
use crate::models::openai::{calls_view, ToolCall};
use crate::models::opt_text;
use crate::translate::elements::{map_stop_reason, prompt_split, split_prompt_tokens, stop_reason};
use crate::translate::messages::{
    block_calls, block_thoughts, content_parts, tool_messages, translated_message,
};
use vstd::prelude::*;

verus! {

/// The input of a call: its arguments as JSON, or an empty object where they are not JSON.
pub open spec fn call_input(arguments: Seq<char>) -> JsonSpec {
    match parsed_json(arguments) {
        Some(input) => input,
        None => JsonSpec::Object(Map::empty()),
    }
}

/// The block that a call becomes, given its input.
pub open spec fn tool_use(call: ToolCall, input: JsonSpec) -> ResponseContentSpec {
    ResponseContentSpec::ToolUse {
        content_type: "tool_use"@,
        id: call.id@,
        name: call.function.name@,
        input,
    }
}

/// A thinking block, unless the text is missing or empty.
pub open spec fn thinking_block(text: Option<Seq<char>>) -> Seq<ResponseContentSpec> {
    match text {
        Some(thinking) => if thinking.len() == 0 {
            Seq::empty()
        } else {
            seq![ResponseContentSpec::Thinking { content_type: "thinking"@, thinking }]
        },
        None => Seq::empty(),
    }
}

/// A text block, unless the text is missing or empty.
pub open spec fn text_block(text: Option<Seq<char>>) -> Seq<ResponseContentSpec> {
    match text {
        Some(text) => if text.len() == 0 {
            Seq::empty()
        } else {
            seq![ResponseContentSpec::Text { content_type: "text"@, text }]
        },
        None => Seq::empty(),
    }
}

/// The blocks that calls become, in order.
pub open spec fn call_blocks(calls: Option<Vec<ToolCall>>) -> Seq<ResponseContentSpec> {
    match calls {
        Some(calls) => Seq::new(
            calls@.len(),
            |i: int| tool_use(calls@[i], call_input(calls@[i].function.arguments@)),
        ),
        None => Seq::empty(),
    }
}

/// A call whose arguments are the text of a plain value has that value as its input.
pub open spec fn inputs_read_back(calls: Option<Vec<ToolCall>>) -> bool {
    match calls {
        Some(calls) => forall|i: int, input: JsonSpec|
            #![trigger calls@[i], json_text(input)]
            0 <= i < calls@.len() && calls@[i].function.arguments@ == json_text(input)
                && plain_json(input, MAX_DEPTH as nat) ==> call_input(
                calls@[i].function.arguments@,
            ) == input,
        None => true,
    }
}

/// The blocks in which a client gets its own tool uses back, in order.
pub open spec fn tool_uses(blocks: Seq<ContentBlock>) -> Seq<ResponseContentSpec>
    decreases blocks.len(),
{
    if blocks.len() == 0 {
        Seq::empty()
    } else {
        let before = tool_uses(blocks.drop_last());
        match blocks.last() {
            ContentBlock::ToolUse { id, name, input } => before.push(
                ResponseContentSpec::ToolUse {
                    content_type: "tool_use"@,
                    id: id@,
                    name: name@,
                    input: input@,
                },
            ),
            _ => before,
        }
    }
}

/// The inputs of all tool uses are plain.
pub open spec fn plain_inputs(blocks: Seq<ContentBlock>) -> bool {
    forall|i: int|
        0 <= i < blocks.len() ==> ((#[trigger] blocks[i]) matches ContentBlock::ToolUse {
            input,
            ..
        } ==> plain_json(input@, MAX_DEPTH as nat))
}

/// Calls that were written for tool uses become those tool uses again.
pub open spec fn calls_come_back(calls: Option<Vec<ToolCall>>) -> bool {
    match calls {
        Some(made) => forall|blocks: Seq<ContentBlock>|
            #![trigger block_calls(blocks)]
            calls_view(made@) == block_calls(blocks) && plain_inputs(blocks) ==> call_blocks(calls)
                == tool_uses(blocks),
        None => true,
    }
}

/// What a response with a choice becomes: thinking first, then the text, then the calls.
pub open spec fn translated_response(
    resp: openai::OpenAIResponse,
    fallback_model: Seq<char>,
) -> AnthropicResponseSpec {
    let choice = resp.choices@[0];
    AnthropicResponseSpec {
        id: match resp.id {
            Some(id) => id@,
            None => "msg_proxy"@,
        },
        response_type: "message"@,
        role: "assistant"@,
        content: thinking_block(opt_text(choice.message.reasoning_content)) + text_block(
            opt_text(choice.message.content),
        ) + call_blocks(choice.message.tool_calls),
        model: match resp.model {
            Some(model) => model@,
            None => fallback_model,
        },
        stop_reason: match choice.finish_reason {
            Some(reason) => Some(stop_reason(reason@)),
            None => None,
        },
        stop_sequence: None,
        usage: anthropic::Usage {
            input_tokens: prompt_split(resp.usage).0,
            output_tokens: resp.usage.completion_tokens,
            cache_creation_input_tokens: None,
            cache_read_input_tokens: prompt_split(resp.usage).1,
        },
    }
}

/// The block of a call whose arguments have been parsed.
pub fn tool_use_block(call: &ToolCall, parsed: Option<Json>) -> (r: anthropic::ResponseContent)
    ensures
        r@ == tool_use(
            *call,
            match parsed {
                Some(input) => input@,
                None => JsonSpec::Object(Map::empty()),
            },
        ),
{
    let input = match parsed {
        Some(input) => input,
        None => Json::Object(JsonMap::new()),
    };
    anthropic::ResponseContent::ToolUse {
        content_type: "tool_use".to_owned(),
        id: call.id.clone(),
        name: call.function.name.clone(),
        input,
    }
}

fn content_of_message(message: &openai::ChoiceMessage) -> (r: Vec<anthropic::ResponseContent>)
    ensures
        response_contents(r@) == thinking_block(opt_text(message.reasoning_content)) + text_block(
            opt_text(message.content),
        ) + call_blocks(message.tool_calls),
        inputs_read_back(message.tool_calls),
{
    let mut content: Vec<anthropic::ResponseContent> = Vec::new();
    match &message.reasoning_content {
        Some(reasoning) => {
            if !reasoning.as_str().is_empty() {
                content.push(
                    anthropic::ResponseContent::Thinking {
                        content_type: "thinking".to_owned(),
                        thinking: reasoning.clone(),
                    },
                );
            }
        },
        None => {},
    }
    assert(response_contents(content@) =~= thinking_block(opt_text(message.reasoning_content)));
    match &message.content {
        Some(text) => {
            if !text.as_str().is_empty() {
                content.push(
                    anthropic::ResponseContent::Text {
                        content_type: "text".to_owned(),
                        text: text.clone(),
                    },
                );
            }
        },
        None => {},
    }
    let ghost first = response_contents(content@);
    assert(first =~= thinking_block(opt_text(message.reasoning_content)) + text_block(
        opt_text(message.content),
    ));
    match &message.tool_calls {
        Some(calls) => {
            let ghost blocks = call_blocks(message.tool_calls);
            let mut i: usize = 0;
            assert(first + blocks.take(0) =~= first);
            while i < calls.len()
                invariant
                    i <= calls@.len(),
                    message.tool_calls == Some(*calls),
                    blocks == call_blocks(message.tool_calls),
                    response_contents(content@) == first + blocks.take(i as int),
                    forall|j: int, input: JsonSpec|
                        #![trigger calls@[j], json_text(input)]
                        0 <= j < i && calls@[j].function.arguments@ == json_text(input)
                            && plain_json(input, MAX_DEPTH as nat) ==> call_input(
                            calls@[j].function.arguments@,
                        ) == input,
                decreases calls@.len() - i,
            {
                let ghost before = content@;
                let parsed = Json::parse(calls[i].function.arguments.as_str());
                let block = tool_use_block(&calls[i], parsed);
                assert(block@ == blocks[i as int]);
                content.push(block);
                assert(response_contents(content@) =~= response_contents(before).push(block@));
                assert(first + blocks.take(i + 1) =~= (first + blocks.take(i as int)).push(block@));
                i += 1;
            }
            assert(blocks.take(blocks.len() as int) =~= blocks);
        },
        None => {},
    }
    assert(response_contents(content@) =~= first + call_blocks(message.tool_calls));
    content
}

/// Translates a response, of which the first choice counts. Fails if and only if it has none. A
/// call that carries the arguments written for a plain input gives that input back, and calls that
/// were written for tool uses give those back.
pub fn translate_response(resp: openai::OpenAIResponse, fallback_model: &str) -> (r: ProxyResult<
    anthropic::AnthropicResponse,
>)
    ensures
        match r {
            Ok(answer) => resp.choices@.len() > 0 && answer@ == translated_response(
                resp,
                fallback_model@,
            ) && inputs_read_back(resp.choices@[0].message.tool_calls) && calls_come_back(
                resp.choices@[0].message.tool_calls,
            ),
            Err(ProxyError::Transform(message)) => resp.choices@.len() == 0 && message@
                == "No choices in response"@,
            Err(_) => false,
        },
{
    if resp.choices.len() == 0 {
        return Err(ProxyError::Transform("No choices in response".to_owned()));
    }
    let choice = &resp.choices[0];
    let content = content_of_message(&choice.message);
    proof {
        lemma_calls_come_back(choice.message.tool_calls);
    }
    let finish_reason = match &choice.finish_reason {
        Some(reason) => Some(reason.as_str()),
        None => None,
    };
    let stop_reason = map_stop_reason(finish_reason);
    let (input_tokens, cache_read_input_tokens) = split_prompt_tokens(&resp.usage);
    let id = match &resp.id {
        Some(id) => id.clone(),
        None => "msg_proxy".to_owned(),
    };
    let model = match &resp.model {
        Some(model) => model.clone(),
        None => fallback_model.to_owned(),
    };
    Ok(
        anthropic::AnthropicResponse {
            id,
            response_type: "message".to_owned(),
            role: "assistant".to_owned(),
            content,
            model,
            stop_reason,
            stop_sequence: None,
            usage: anthropic::Usage {
                input_tokens,
                output_tokens: resp.usage.completion_tokens,
                cache_creation_input_tokens: None,
                cache_read_input_tokens,
            },
        },
    )
}

/// Call by call, what was written for a tool use becomes it again.
proof fn lemma_made_calls_come_back(blocks: Seq<ContentBlock>, calls: Seq<ToolCall>)
    requires
        calls_view(calls) == block_calls(blocks),
        plain_inputs(blocks),
        forall|i: int, input: JsonSpec|
            #![trigger calls[i], json_text(input)]
            0 <= i < calls.len() && calls[i].function.arguments@ == json_text(input) && plain_json(
                input,
                MAX_DEPTH as nat,
            ) ==> call_input(calls[i].function.arguments@) == input,
    ensures
        Seq::new(
            calls.len(),
            |i: int| tool_use(calls[i], call_input(calls[i].function.arguments@)),
        ) == tool_uses(blocks),
    decreases blocks.len(),
{
    let made = Seq::new(
        calls.len(),
        |i: int| tool_use(calls[i], call_input(calls[i].function.arguments@)),
    );
    if blocks.len() == 0 {
        assert(calls_view(calls).len() == 0);
        assert(made =~= tool_uses(blocks));
    } else {
        let before = blocks.drop_last();
        assert forall|i: int| 0 <= i < before.len() implies ((#[trigger] before[i]) matches
            ContentBlock::ToolUse { input, .. } ==> plain_json(input@, MAX_DEPTH as nat)) by {
            assert(before[i] == blocks[i]);
        }
        match blocks.last() {
            ContentBlock::ToolUse { id, name, input } => {
                let n = calls.len() - 1;
                let first = calls.drop_last();
                assert(calls_view(calls).len() == block_calls(before).len() + 1);
                assert(calls_view(first) =~= calls_view(calls).drop_last());
                assert(block_calls(blocks).drop_last() =~= block_calls(before));
                assert forall|i: int, source: JsonSpec|
                    #![trigger first[i], json_text(source)]
                    0 <= i < first.len() && first[i].function.arguments@ == json_text(source)
                        && plain_json(source, MAX_DEPTH as nat) implies call_input(
                    first[i].function.arguments@,
                ) == source by {
                    assert(first[i] == calls[i]);
                }
                lemma_made_calls_come_back(before, first);
                assert(calls_view(calls)[n] == calls[n]@);
                assert(block_calls(blocks).last() == calls[n]@);
                assert(blocks[blocks.len() - 1] == blocks.last());
                assert(calls[n].function.arguments@ == json_text(input@));
                assert(made =~= tool_uses(before).push(tool_use(calls[n], input@)));
            },
            _ => {
                lemma_made_calls_come_back(before, calls);
            },
        }
    }
}

proof fn lemma_calls_come_back(calls: Option<Vec<ToolCall>>)
    requires
        inputs_read_back(calls),
    ensures
        calls_come_back(calls),
{
    if calls is Some {
        let made = calls->0;
        assert forall|blocks: Seq<ContentBlock>|
            #![trigger block_calls(blocks)]
            calls_view(made@) == block_calls(blocks) && plain_inputs(blocks) implies call_blocks(
            calls,
        ) == tool_uses(blocks) by {
            lemma_made_calls_come_back(blocks, made@);
            assert(call_blocks(calls) =~= tool_uses(blocks));
        }
    }
}

/// A turn of tool uses that goes out as a message, and whose calls an answer brings, comes back
/// as those tool uses and nothing else: the same ids, names and inputs, in the same order. That
/// calls come back is what `translate_response` ensures of every answer.
pub proof fn law_tool_uses_come_back(
    msg: Message,
    resp: openai::OpenAIResponse,
    fallback_model: Seq<char>,
)
    requires
        msg.content matches MessageContent::Blocks(blocks) && blocks@.len() > 0 && plain_inputs(
            blocks@,
        ) && forall|i: int| 0 <= i < blocks@.len() ==> (#[trigger] blocks@[i]) is ToolUse,
        resp.choices@.len() > 0,
        resp.choices@[0].message.reasoning_content is None,
        resp.choices@[0].message.content is None,
        resp.choices@[0].message.tool_calls matches Some(calls) && Some(calls_view(calls@))
            == translated_message(msg)[0].tool_calls,
        calls_come_back(resp.choices@[0].message.tool_calls),
    ensures
        translated_message(msg).len() == 1,
        msg.content matches MessageContent::Blocks(blocks) && translated_response(
            resp,
            fallback_model,
        ).content == Seq::new(
            blocks@.len(),
            |i: int|
                ResponseContentSpec::ToolUse {
                    content_type: "tool_use"@,
                    id: blocks@[i]->ToolUse_id@,
                    name: blocks@[i]->ToolUse_name@,
                    input: blocks@[i]->ToolUse_input@,
                },
        ),
{
    let blocks = msg.content->Blocks_0@;
    lemma_only_tool_uses(blocks);
    let message = resp.choices@[0].message;
    assert(calls_view(message.tool_calls->0@) == block_calls(blocks));
    assert(translated_response(resp, fallback_model).content =~= tool_uses(blocks));
}

/// A turn of tool uses has nothing else in it.
proof fn lemma_only_tool_uses(blocks: Seq<ContentBlock>)
    requires
        forall|i: int| 0 <= i < blocks.len() ==> (#[trigger] blocks[i]) is ToolUse,
    ensures
        content_parts(blocks).len() == 0,
        block_thoughts(blocks).len() == 0,
        tool_messages(blocks).len() == 0,
        block_calls(blocks).len() == blocks.len(),
        tool_uses(blocks) == Seq::new(
            blocks.len(),
            |i: int|
                ResponseContentSpec::ToolUse {
                    content_type: "tool_use"@,
                    id: blocks[i]->ToolUse_id@,
                    name: blocks[i]->ToolUse_name@,
                    input: blocks[i]->ToolUse_input@,
                },
        ),
    decreases blocks.len(),
{
    if blocks.len() > 0 {
        let before = blocks.drop_last();
        assert forall|i: int| 0 <= i < before.len() implies (#[trigger] before[i]) is ToolUse by {
            assert(before[i] == blocks[i]);
        }
        assert(blocks[blocks.len() - 1] is ToolUse);
        lemma_only_tool_uses(before);
    }
    assert(tool_uses(blocks) =~= Seq::new(
        blocks.len(),
        |i: int|
            ResponseContentSpec::ToolUse {
                content_type: "tool_use"@,
                id: blocks[i]->ToolUse_id@,
                name: blocks[i]->ToolUse_name@,
                input: blocks[i]->ToolUse_input@,
            },
    ));
}

// ---------------------------------------------------------------------------------------------
// Models.

/// What a model becomes. The time of its making is not known.
pub open spec fn translated_model(model: openai::ModelInfo) -> ModelInfoSpec {
    ModelInfoSpec {
        created_at: "1970-01-01T00:00:00Z"@,
        display_name: model.id@,
        id: model.id@,
        model_type: "model"@,
    }
}

/// What a list of models becomes: one page with all of them.
pub open spec fn translated_models(data: Seq<openai::ModelInfo>) -> ModelsListSpec {
    ModelsListSpec {
        data: data.map_values(|m: openai::ModelInfo| translated_model(m)),
        first_id: if data.len() == 0 {
            None
        } else {
            Some(data.first().id@)
        },
        has_more: false,
        last_id: if data.len() == 0 {
            None
        } else {
            Some(data.last().id@)
        },
    }
}

pub fn translate_models_list(resp: openai::ModelsListResponse) -> (r: anthropic::ModelsListResponse)
    ensures
        r@ == translated_models(resp.data@),
{
    let mut data: Vec<anthropic::ModelInfo> = Vec::new();
    let mut i: usize = 0;
    let n = resp.data.len();
    while i < n
        invariant
            i <= n,
            n == resp.data@.len(),
            data@.len() == i,
            forall|j: int| 0 <= j < i ==> (#[trigger] data@[j])@ == translated_model(resp.data@[j]),
        decreases n - i,
    {
        let id = &resp.data[i].id;
        data.push(
            anthropic::ModelInfo {
                created_at: "1970-01-01T00:00:00Z".to_owned(),
                display_name: id.clone(),
                id: id.clone(),
                model_type: "model".to_owned(),
            },
        );
        i += 1;
    }
    let (first_id, last_id) = if n == 0 {
        (None, None)
    } else {
        (Some(resp.data[0].id.clone()), Some(resp.data[n - 1].id.clone()))
    };
    let r = anthropic::ModelsListResponse { data, first_id, has_more: false, last_id };
    assert(r@.data =~= translated_models(resp.data@).data);
    r
}

} // verus!
