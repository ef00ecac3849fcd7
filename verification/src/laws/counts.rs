//! What is counted of a request.
use crate::json::json_text;
use crate::models::anthropic;
use crate::models::anthropic::{ContentBlock, CountTokensRequest, MessageContent, ToolResultContent};
use crate::models::openai::{ContentPart, Message, OpenAIRequest, Tool, ToolCall};
use crate::models::openai;
use crate::translate::messages::block_texts;
use crate::translate::pipeline::system_texts;
use crate::translate::prompt::{
    can_estimate_prompt, message_texts, overhead_sum, prompt_messages, prompt_texts, prompt_tools,
    texts_of_calls, texts_of_parts,
};
use crate::translate::tokens::{
    can_estimate_input, collected_block, collected_blocks, collected_content, collected_messages,
    collected_texts, counted_block, counted_blocks, counted_content, counted_messages,
    counted_texts, counted_tools, scaled, scales, token_count, tokens_in,
};
use vstd::prelude::*;

verus! {

/// The estimate: ten tokens for each message on top of what was counted, and 15 % on top of that,
/// rounded down, but at least 1; of a number beyond 32 bits the lower ones.
pub proof fn law_estimate(tokens: nat, messages: nat)
    ensures
        ({
            let base = tokens + 10 * messages;
            let whole = base * 115 / 100;
            &&& whole < 0x1_0000_0000 && base > 0 ==> scaled(tokens, messages) == whole
            &&& base == 0 ==> scaled(tokens, messages) == 1
            &&& whole > 0 ==> scaled(tokens, messages) == whole % 0x1_0000_0000
            &&& scales(tokens, messages) <==> base * 23 <= usize::MAX
        }),
{
    let base = tokens + 10 * messages;
    assert(messages * 10 == 10 * messages);
    assert(base * 115 / 100 == base * 23 / 20) by (nonlinear_arith)
        requires
            base >= 0,
    ;
}

/// An estimate can be given exactly where every text can be counted and the sum can be scaled.
pub proof fn law_when_it_is_estimated(req: CountTokensRequest, outgoing: OpenAIRequest)
    ensures
        can_estimate_input(req) <==> tokens_in(counted_texts(req)) is Some && (tokens_in(
            counted_texts(req),
        )->0 + 10 * req.messages@.len()) * 23 <= usize::MAX,
        can_estimate_prompt(outgoing) <==> tokens_in(prompt_texts(outgoing, true)) is Some && (
        tokens_in(prompt_texts(outgoing, true))->0 + 10 * outgoing.messages@.len()) * 23
            <= usize::MAX,
{
    if tokens_in(counted_texts(req)) is Some {
        law_estimate(tokens_in(counted_texts(req))->0, req.messages@.len());
    }
    if tokens_in(prompt_texts(outgoing, true)) is Some {
        law_estimate(tokens_in(prompt_texts(outgoing, true))->0, outgoing.messages@.len());
    }
}

/// Tokens add up, text by text; one text that cannot be counted leaves the sum open.
pub proof fn law_tokens_add_up(parts: Seq<Seq<char>>, last: Seq<char>)
    ensures
        tokens_in(Seq::empty()) == Some(0nat),
        tokens_in(parts) is Some && token_count(last) is Some ==> tokens_in(parts.push(last))
            == Some(tokens_in(parts)->0 + token_count(last)->0),
        tokens_in(parts) is None || token_count(last) is None ==> tokens_in(parts.push(last))
            is None,
{
    assert(parts.push(last).drop_last() =~= parts);
}

/// What the chat template adds to an upstream's count is ten tokens for each message.
pub proof fn law_overhead(count: u32, messages: nat)
    requires
        messages < 0x1_0000_0000,
    ensures
        count + 10 * messages <= u32::MAX ==> overhead_sum(count, messages) is Some && overhead_sum(
            count,
            messages,
        )->0 == count + 10 * messages,
        count + 10 * messages > u32::MAX ==> overhead_sum(count, messages) is None,
{
}

/// Of a block its texts are counted, and of a tool use its name and its input; images and redacted
/// thinking are not.
pub proof fn law_block_is_counted(block: ContentBlock)
    ensures
        ({
            let counted = counted_block(block);
            let collected = collected_block(block);
            match block {
                ContentBlock::Text { text, .. } => counted == seq![text@] && collected == seq![
                    text@,
                ],
                ContentBlock::Thinking { thinking } => counted == seq![thinking@] && collected
                    == seq![thinking@],
                ContentBlock::ToolUse { name, input, .. } => counted == seq![
                    name@,
                    json_text(input@),
                ] && collected == seq![name@, json_text(input@)],
                ContentBlock::ToolResult { content, .. } => match content {
                    ToolResultContent::Text(text) => counted == seq![text@] && collected == seq![
                        text@,
                    ],
                    ToolResultContent::Blocks(nested) => counted == counted_blocks(nested@),
                },
                ContentBlock::Image { .. } => counted.len() == 0 && collected.len() == 0,
                ContentBlock::RedactedThinking { .. } => counted.len() == 0 && collected.len() == 0,
            }
        }),
{
}

/// The text of a tool result with nested blocks is the texts of those that are text, in order.
pub proof fn law_nested_text_is_collected(tool_use_id: String, nested: Vec<ContentBlock>)
    ensures
        collected_block(
            ContentBlock::ToolResult {
                tool_use_id,
                content: ToolResultContent::Blocks(nested),
                is_error: None,
            },
        ) == nested@.filter_map(
            |b: ContentBlock|
                match b {
                    ContentBlock::Text { text, .. } => Some(text@),
                    _ => None,
                },
        ),
{
    lemma_nested(nested@);
}

proof fn lemma_nested(blocks: Seq<ContentBlock>)
    ensures
        block_texts(blocks) == blocks.filter_map(
            |b: ContentBlock|
                match b {
                    ContentBlock::Text { text, .. } => Some(text@),
                    _ => None,
                },
        ),
    decreases blocks.len(),
{
    let f = |b: ContentBlock|
        match b {
            ContentBlock::Text { text, .. } => Some(text@),
            _ => None,
        };
    if blocks.len() > 0 {
        lemma_nested(blocks.drop_last());
    }
    assert(block_texts(blocks) =~= blocks.filter_map(f));
}

/// Blocks are counted one after another.
pub proof fn law_blocks_are_counted(blocks: Seq<ContentBlock>, last: ContentBlock)
    ensures
        counted_blocks(Seq::empty()).len() == 0,
        counted_blocks(blocks.push(last)) == counted_blocks(blocks) + counted_block(last),
        collected_blocks(Seq::empty()).len() == 0,
        collected_blocks(blocks.push(last)) == collected_blocks(blocks) + collected_block(last),
{
    assert(blocks.push(last).drop_last() =~= blocks);
}

/// Content is counted as its text or as its blocks.
pub proof fn law_content_is_counted(content: MessageContent)
    ensures
        content matches MessageContent::Text(text) ==> counted_content(content) == seq![text@]
            && collected_content(content) == seq![text@],
        content matches MessageContent::Blocks(blocks) ==> counted_content(content)
            == counted_blocks(blocks@) && collected_content(content) == collected_blocks(blocks@),
{
}

/// Messages are counted one after another, each by its role and its content.
pub proof fn law_messages_are_counted(messages: Seq<anthropic::Message>, last: anthropic::Message)
    ensures
        counted_messages(Seq::empty()).len() == 0,
        counted_messages(messages.push(last)) == counted_messages(messages) + seq![last.role@]
            + counted_content(last.content),
        collected_messages(Seq::empty()).len() == 0,
        collected_messages(messages.push(last)) == collected_messages(messages) + seq![last.role@]
            + collected_content(last.content),
{
    assert(messages.push(last).drop_last() =~= messages);
}

/// Tools are counted one after another, each by its name, its description, where it has one, and
/// its schema.
pub proof fn law_tools_are_counted(tools: Seq<anthropic::Tool>, last: anthropic::Tool)
    ensures
        counted_tools(Seq::empty()).len() == 0,
        counted_tools(tools.push(last)) == counted_tools(tools) + match last.description {
            Some(text) => seq![last.name@, text@, json_text(last.input_schema@)],
            None => seq![last.name@, json_text(last.input_schema@)],
        },
{
    assert(tools.push(last).drop_last() =~= tools);
}

/// A request is counted by its system prompt, its messages and its tools.
pub proof fn law_request_is_counted(req: CountTokensRequest)
    ensures
        ({
            let system = match req.system {
                Some(system) => system_texts(system),
                None => Seq::empty(),
            };
            let tools = match req.tools {
                Some(tools) => counted_tools(tools@),
                None => Seq::empty(),
            };
            &&& counted_texts(req) == system + counted_messages(req.messages@) + tools
            &&& collected_texts(req) == system + collected_messages(req.messages@) + tools
        }),
{
}

/// An outgoing message is counted by its texts, its reasoning and its calls.
pub proof fn law_outgoing_message_is_counted(message: Message)
    ensures
        ({
            let own = match message.content {
                Some(openai::MessageContent::Text(text)) => seq![text@],
                Some(openai::MessageContent::Parts(parts)) => texts_of_parts(parts@),
                None => Seq::empty(),
            };
            let reasoning = match message.reasoning_content {
                Some(text) => seq![text@],
                None => Seq::empty(),
            };
            let calls = match message.tool_calls {
                Some(calls) => texts_of_calls(calls@),
                None => Seq::empty(),
            };
            message_texts(message) == own + reasoning + calls
        }),
{
}

/// Parts are counted by their texts, and calls by their names and arguments, in order.
pub proof fn law_parts_and_calls_are_counted(
    parts: Seq<ContentPart>,
    part: ContentPart,
    calls: Seq<ToolCall>,
    call: ToolCall,
)
    ensures
        texts_of_parts(Seq::empty()).len() == 0,
        part matches ContentPart::Text { text } ==> texts_of_parts(parts.push(part))
            == texts_of_parts(parts).push(text@),
        part is ImageUrl ==> texts_of_parts(parts.push(part)) == texts_of_parts(parts),
        texts_of_calls(Seq::empty()).len() == 0,
        texts_of_calls(calls.push(call)) == texts_of_calls(calls) + seq![
            call.function.name@,
            call.function.arguments@,
        ],
{
    assert(parts.push(part).drop_last() =~= parts);
    assert(calls.push(call).drop_last() =~= calls);
    assert(texts_of_calls(calls.push(call)) =~= texts_of_calls(calls) + seq![
        call.function.name@,
        call.function.arguments@,
    ]);
}

/// An outgoing request is counted by its messages, where roles count each with its role, and then
/// by its tools.
pub proof fn law_outgoing_request_is_counted(
    req: OpenAIRequest,
    messages: Seq<Message>,
    last: Message,
    tools: Seq<Tool>,
    tool: Tool,
)
    ensures
        prompt_messages(Seq::empty(), true).len() == 0,
        prompt_messages(Seq::empty(), false).len() == 0,
        prompt_messages(messages.push(last), true) == prompt_messages(messages, true) + seq![
            last.role@,
        ] + message_texts(last),
        prompt_messages(messages.push(last), false) == prompt_messages(messages, false)
            + message_texts(last),
        prompt_tools(Seq::empty()).len() == 0,
        prompt_tools(tools.push(tool)) == prompt_tools(tools) + match tool.function.description {
            Some(text) => seq![tool.function.name@, text@, json_text(tool.function.parameters@)],
            None => seq![tool.function.name@, json_text(tool.function.parameters@)],
        },
        forall|roles: bool| #[trigger]
            prompt_texts(req, roles) == prompt_messages(req.messages@, roles) + match req.tools {
                Some(tools) => prompt_tools(tools@),
                None => Seq::empty(),
            },
{
    assert(messages.push(last).drop_last() =~= messages);
    assert(tools.push(tool).drop_last() =~= tools);
    assert(prompt_messages(messages.push(last), false) =~= prompt_messages(messages, false)
        + message_texts(last));
}

} // verus!
