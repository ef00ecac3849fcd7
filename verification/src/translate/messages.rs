//! Messages of a conversation.
use crate::error::{ProxyError, ProxyResult};
use crate::json::json_text;
use crate::models::anthropic::{ContentBlock, ImageSource, Message, MessageContent, ToolResultContent};
use crate::models::openai;
use crate::models::openai::{
    calls_view, messages_view, parts_view, ContentSpec, MessageSpec, PartSpec, ToolCallSpec,
};
use crate::text::{join, join_texts, texts};
use vstd::prelude::*;

verus! {

/// The data URL of an inline image.
pub open spec fn data_url(source: ImageSource) -> Seq<char> {
    "data:"@ + source.media_type@ + ";base64,"@ + source.data@
}

/// The texts of the text blocks, in order.
pub open spec fn block_texts(blocks: Seq<ContentBlock>) -> Seq<Seq<char>>
    decreases blocks.len(),
{
    if blocks.len() == 0 {
        Seq::empty()
    } else {
        let before = block_texts(blocks.drop_last());
        match blocks.last() {
            ContentBlock::Text { text, .. } => before.push(text@),
            _ => before,
        }
    }
}

/// A tool's result as text: of nested blocks only the text counts, a line break between any two.
pub open spec fn result_text(content: ToolResultContent) -> Seq<char> {
    match content {
        ToolResultContent::Text(text) => text@,
        ToolResultContent::Blocks(blocks) => join(block_texts(blocks@), "\n"@),
    }
}

/// The parts that text and image blocks become, in order.
pub open spec fn content_parts(blocks: Seq<ContentBlock>) -> Seq<PartSpec>
    decreases blocks.len(),
{
    if blocks.len() == 0 {
        Seq::empty()
    } else {
        let before = content_parts(blocks.drop_last());
        match blocks.last() {
            ContentBlock::Text { text, .. } => before.push(PartSpec::Text(text@)),
            ContentBlock::Image { source } => before.push(PartSpec::ImageUrl(data_url(source))),
            _ => before,
        }
    }
}

/// The calls that tool-use blocks become, in order. The input is written out as JSON.
pub open spec fn block_calls(blocks: Seq<ContentBlock>) -> Seq<ToolCallSpec>
    decreases blocks.len(),
{
    if blocks.len() == 0 {
        Seq::empty()
    } else {
        let before = block_calls(blocks.drop_last());
        match blocks.last() {
            ContentBlock::ToolUse { id, name, input } => before.push(
                ToolCallSpec {
                    id: id@,
                    call_type: "function"@,
                    name: name@,
                    arguments: json_text(input@),
                },
            ),
            _ => before,
        }
    }
}

/// The thinking that is not empty, in order. Redacted thinking is not among it.
pub open spec fn block_thoughts(blocks: Seq<ContentBlock>) -> Seq<Seq<char>>
    decreases blocks.len(),
{
    if blocks.len() == 0 {
        Seq::empty()
    } else {
        let before = block_thoughts(blocks.drop_last());
        match blocks.last() {
            ContentBlock::Thinking { thinking } => if thinking@.len() > 0 {
                before.push(thinking@)
            } else {
                before
            },
            _ => before,
        }
    }
}

/// A message that answers a tool call.
pub open spec fn tool_message(tool_use_id: Seq<char>, text: Seq<char>) -> MessageSpec {
    MessageSpec {
        role: "tool"@,
        content: Some(ContentSpec::Text(text)),
        reasoning_content: None,
        tool_calls: None,
        tool_call_id: Some(tool_use_id),
    }
}

/// The messages that tool results become, in order.
pub open spec fn tool_messages(blocks: Seq<ContentBlock>) -> Seq<MessageSpec>
    decreases blocks.len(),
{
    if blocks.len() == 0 {
        Seq::empty()
    } else {
        let before = tool_messages(blocks.drop_last());
        match blocks.last() {
            ContentBlock::ToolResult { tool_use_id, content, .. } => before.push(
                tool_message(tool_use_id@, result_text(content)),
            ),
            _ => before,
        }
    }
}

/// The texts of a list of parts that are all text.
pub open spec fn part_texts(parts: Seq<PartSpec>) -> Seq<Seq<char>> {
    parts.map_values(|p: PartSpec| p->Text_0)
}

pub open spec fn all_text(parts: Seq<PartSpec>) -> bool {
    forall|i: int| 0 <= i < parts.len() ==> (#[trigger] parts[i]) is Text
}

/// Content made of parts: nothing for none, one text where all are text.
pub open spec fn parts_content(parts: Seq<PartSpec>) -> Option<ContentSpec> {
    if parts.len() == 0 {
        None
    } else if all_text(parts) {
        Some(ContentSpec::Text(join(part_texts(parts), ""@)))
    } else {
        Some(ContentSpec::Parts(parts))
    }
}

/// What a message with content blocks becomes: first the answers to tool calls, then one message
/// with everything else, if there is anything else.
pub open spec fn block_messages(role: Seq<char>, blocks: Seq<ContentBlock>) -> Seq<MessageSpec> {
    let parts = content_parts(blocks);
    let calls = block_calls(blocks);
    let thoughts = block_thoughts(blocks);
    if parts.len() == 0 && calls.len() == 0 && thoughts.len() == 0 {
        tool_messages(blocks)
    } else {
        tool_messages(blocks).push(
            MessageSpec {
                role,
                content: parts_content(parts),
                reasoning_content: if thoughts.len() == 0 {
                    None
                } else {
                    Some(join(thoughts, ""@))
                },
                tool_calls: if calls.len() == 0 {
                    None
                } else {
                    Some(calls)
                },
                tool_call_id: None,
            },
        )
    }
}

/// A message with a role and one text.
pub open spec fn text_message(role: Seq<char>, text: Seq<char>) -> MessageSpec {
    MessageSpec {
        role,
        content: Some(ContentSpec::Text(text)),
        reasoning_content: None,
        tool_calls: None,
        tool_call_id: None,
    }
}

/// What a message becomes.
pub open spec fn translated_message(msg: Message) -> Seq<MessageSpec> {
    match msg.content {
        MessageContent::Text(text) => seq![text_message(msg.role@, text@)],
        MessageContent::Blocks(blocks) => block_messages(msg.role@, blocks@),
    }
}

pub(crate) fn text_of_blocks(blocks: &Vec<ContentBlock>) -> (r: Vec<String>)
    ensures
        texts(r@) == block_texts(blocks@),
{
    let mut found: Vec<String> = Vec::new();
    let mut i: usize = 0;
    assert(texts(found@) =~= block_texts(blocks@.take(0)));
    while i < blocks.len()
        invariant
            i <= blocks@.len(),
            texts(found@) == block_texts(blocks@.take(i as int)),
        decreases blocks@.len() - i,
    {
        let ghost next = blocks@.take(i + 1);
        assert(next.drop_last() =~= blocks@.take(i as int));
        match &blocks[i] {
            ContentBlock::Text { text, .. } => {
                found.push(text.clone());
            },
            _ => {},
        }
        assert(texts(found@) =~= block_texts(next));
        i += 1;
    }
    assert(blocks@.take(blocks@.len() as int) =~= blocks@);
    found
}

fn text_of_result(content: &ToolResultContent) -> (r: String)
    ensures
        r@ == result_text(*content),
{
    match content {
        ToolResultContent::Text(text) => text.clone(),
        ToolResultContent::Blocks(blocks) => join_texts(&text_of_blocks(blocks), "\n"),
    }
}

fn url_of_image(source: &ImageSource) -> (r: String)
    ensures
        r@ == data_url(*source),
{
    let mut url = "data:".to_owned();
    url.append(source.media_type.as_str());
    url.append(";base64,");
    url.append(source.data.as_str());
    url
}

/// The content that parts make.
fn content_of_parts(parts: Vec<openai::ContentPart>) -> (r: Option<openai::MessageContent>)
    ensures
        match r {
            Some(content) => parts_content(parts_view(parts@)) == Some(content@),
            None => parts_content(parts_view(parts@)) is None,
        },
{
    let ghost view = parts_view(parts@);
    if parts.len() == 0 {
        return None;
    }
    let mut found: Vec<String> = Vec::new();
    let mut i: usize = 0;
    while i < parts.len()
        invariant
            i <= parts@.len(),
            view == parts_view(parts@),
            found@.len() == i,
            parts@.len() > 0,
            forall|j: int|
                0 <= j < i ==> (#[trigger] view[j]) is Text && found@[j]@ == view[j]->Text_0,
        decreases parts@.len() - i,
    {
        match &parts[i] {
            openai::ContentPart::Text { text } => {
                found.push(text.clone());
            },
            openai::ContentPart::ImageUrl { .. } => {
                assert(view[i as int] is ImageUrl);
                return Some(openai::MessageContent::Parts(parts));
            },
        }
        i += 1;
    }
    assert(texts(found@) =~= part_texts(view));
    Some(openai::MessageContent::Text(join_texts(&found, "")))
}

/// Translates a message. It never fails: a tool's input always has a JSON text.
pub fn translate_message(msg: Message) -> (r: ProxyResult<Vec<openai::Message>>)
    ensures
        r is Ok,
        messages_view(r->Ok_0@) == translated_message(msg),
{
    let mut result: Vec<openai::Message> = Vec::new();
    match msg.content {
        MessageContent::Text(text) => {
            result.push(
                openai::Message {
                    role: msg.role,
                    content: Some(openai::MessageContent::Text(text)),
                    reasoning_content: None,
                    tool_calls: None,
                    tool_call_id: None,
                },
            );
            assert(messages_view(result@) =~= translated_message(msg));
            Ok(result)
        },
        MessageContent::Blocks(blocks) => {
            let mut parts: Vec<openai::ContentPart> = Vec::new();
            let mut thoughts: Vec<String> = Vec::new();
            let mut calls: Vec<openai::ToolCall> = Vec::new();
            let mut i: usize = 0;
            proof {
                let none = blocks@.take(0);
                assert(messages_view(result@) =~= tool_messages(none));
                assert(parts_view(parts@) =~= content_parts(none));
                assert(texts(thoughts@) =~= block_thoughts(none));
                assert(calls_view(calls@) =~= block_calls(none));
            }
            while i < blocks.len()
                invariant
                    i <= blocks@.len(),
                    messages_view(result@) == tool_messages(blocks@.take(i as int)),
                    parts_view(parts@) == content_parts(blocks@.take(i as int)),
                    texts(thoughts@) == block_thoughts(blocks@.take(i as int)),
                    calls_view(calls@) == block_calls(blocks@.take(i as int)),
                decreases blocks@.len() - i,
            {
                let ghost next = blocks@.take(i + 1);
                assert(next.drop_last() =~= blocks@.take(i as int));
                assert(next.last() == blocks@[i as int]);
                match &blocks[i] {
                    ContentBlock::Text { text, .. } => {
                        parts.push(openai::ContentPart::Text { text: text.clone() });
                    },
                    ContentBlock::Image { source } => {
                        parts.push(
                            openai::ContentPart::ImageUrl {
                                image_url: openai::ImageUrl { url: url_of_image(source) },
                            },
                        );
                    },
                    ContentBlock::ToolUse { id, name, input } => {
                        let arguments = match input.to_text() {
                            Ok(text) => text,
                            Err(err) => {
                                return Err(ProxyError::Serialization(err));
                            },
                        };
                        calls.push(
                            openai::ToolCall {
                                id: id.clone(),
                                call_type: "function".to_owned(),
                                function: openai::FunctionCall { name: name.clone(), arguments },
                            },
                        );
                    },
                    ContentBlock::ToolResult { tool_use_id, content, .. } => {
                        result.push(
                            openai::Message {
                                role: "tool".to_owned(),
                                content: Some(
                                    openai::MessageContent::Text(text_of_result(content)),
                                ),
                                reasoning_content: None,
                                tool_calls: None,
                                tool_call_id: Some(tool_use_id.clone()),
                            },
                        );
                    },
                    ContentBlock::Thinking { thinking } => {
                        if !thinking.as_str().is_empty() {
                            thoughts.push(thinking.clone());
                        }
                    },
                    ContentBlock::RedactedThinking { .. } => {},
                }
                assert(messages_view(result@) =~= tool_messages(next));
                assert(parts_view(parts@) =~= content_parts(next));
                assert(texts(thoughts@) =~= block_thoughts(next));
                assert(calls_view(calls@) =~= block_calls(next));
                i += 1;
            }
            assert(blocks@.take(blocks@.len() as int) =~= blocks@);
            if parts.len() > 0 || calls.len() > 0 || thoughts.len() > 0 {
                let reasoning_content = if thoughts.len() > 0 {
                    Some(join_texts(&thoughts, ""))
                } else {
                    None
                };
                let tool_calls = if calls.len() > 0 {
                    Some(calls)
                } else {
                    None
                };
                result.push(
                    openai::Message {
                        role: msg.role,
                        content: content_of_parts(parts),
                        reasoning_content,
                        tool_calls,
                        tool_call_id: None,
                    },
                );
            }
            assert(messages_view(result@) =~= translated_message(msg));
            Ok(result)
        },
    }
}

} // verus!
