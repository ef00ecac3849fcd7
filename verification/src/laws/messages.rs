//! What becomes of a message.
use crate::json::json_text;
use crate::laws::sequences::{lemma_count, lemma_flat_push, lemma_none, lemma_rank};
use crate::models::anthropic::{ContentBlock, Message, MessageContent, ToolResultContent};
use crate::models::openai::{ContentSpec, MessageSpec, PartSpec, ToolCallSpec};
use crate::text::join;
use crate::translate::messages::{
    all_text, block_calls, block_texts, block_thoughts, content_parts, part_texts, tool_messages,
    translated_message,
};
use vstd::prelude::*;

verus! {

/// A message that is one text goes out as that text, under its role, and nothing else.
pub proof fn law_text_goes_out(msg: Message, text: String)
    requires
        msg.content == MessageContent::Text(text),
    ensures
        translated_message(msg).len() == 1,
        translated_message(msg)[0].role == msg.role@,
        translated_message(msg)[0].content == Some(ContentSpec::Text(text@)),
        translated_message(msg)[0].reasoning_content is None,
        translated_message(msg)[0].tool_calls is None,
        translated_message(msg)[0].tool_call_id is None,
{
}

/// The text of a text block.
pub open spec fn own_text(block: ContentBlock) -> Option<Seq<char>> {
    match block {
        ContentBlock::Text { text, .. } => Some(text@),
        _ => None,
    }
}

/// The thinking of a thinking block.
pub open spec fn own_thinking(block: ContentBlock) -> Option<Seq<char>> {
    match block {
        ContentBlock::Thinking { thinking } => Some(thinking@),
        _ => None,
    }
}

/// A block that a message carries besides the answers to tool calls.
pub open spec fn carried(block: ContentBlock) -> bool {
    match block {
        ContentBlock::Text { .. } => true,
        ContentBlock::Image { .. } => true,
        ContentBlock::ToolUse { .. } => true,
        ContentBlock::Thinking { thinking } => thinking@.len() > 0,
        ContentBlock::ToolResult { .. } => false,
        ContentBlock::RedactedThinking { .. } => false,
    }
}

spec fn answer_of(block: ContentBlock) -> Option<MessageSpec> {
    match block {
        ContentBlock::ToolResult { tool_use_id, content, .. } => Some(
            MessageSpec {
                role: "tool"@,
                content: Some(
                    ContentSpec::Text(
                        match content {
                            ToolResultContent::Text(text) => text@,
                            ToolResultContent::Blocks(blocks) => join(
                                blocks@.filter_map(|b: ContentBlock| own_text(b)),
                                "\n"@,
                            ),
                        },
                    ),
                ),
                reasoning_content: None,
                tool_calls: None,
                tool_call_id: Some(tool_use_id@),
            },
        ),
        _ => None,
    }
}

spec fn call_of(block: ContentBlock) -> Option<ToolCallSpec> {
    match block {
        ContentBlock::ToolUse { id, name, input } => Some(
            ToolCallSpec {
                id: id@,
                call_type: "function"@,
                name: name@,
                arguments: json_text(input@),
            },
        ),
        _ => None,
    }
}

spec fn part_of(block: ContentBlock) -> Option<PartSpec> {
    match block {
        ContentBlock::Text { text, .. } => Some(PartSpec::Text(text@)),
        ContentBlock::Image { source } => Some(
            PartSpec::ImageUrl("data:"@ + source.media_type@ + ";base64,"@ + source.data@),
        ),
        _ => None,
    }
}

proof fn lemma_texts(blocks: Seq<ContentBlock>)
    ensures
        block_texts(blocks) == blocks.filter_map(|b: ContentBlock| own_text(b)),
    decreases blocks.len(),
{
    if blocks.len() > 0 {
        lemma_texts(blocks.drop_last());
    }
    assert(block_texts(blocks) =~= blocks.filter_map(|b: ContentBlock| own_text(b)));
}

proof fn lemma_answers(blocks: Seq<ContentBlock>)
    ensures
        tool_messages(blocks) == blocks.filter_map(|b: ContentBlock| answer_of(b)),
    decreases blocks.len(),
{
    if blocks.len() > 0 {
        lemma_answers(blocks.drop_last());
        match blocks.last() {
            ContentBlock::ToolResult { content, .. } => match content {
                ToolResultContent::Blocks(nested) => {
                    lemma_texts(nested@);
                },
                _ => {},
            },
            _ => {},
        }
    }
    assert(tool_messages(blocks) =~= blocks.filter_map(|b: ContentBlock| answer_of(b)));
}

proof fn lemma_calls(blocks: Seq<ContentBlock>)
    ensures
        block_calls(blocks) == blocks.filter_map(|b: ContentBlock| call_of(b)),
    decreases blocks.len(),
{
    if blocks.len() > 0 {
        lemma_calls(blocks.drop_last());
    }
    assert(block_calls(blocks) =~= blocks.filter_map(|b: ContentBlock| call_of(b)));
}

proof fn lemma_parts(blocks: Seq<ContentBlock>)
    ensures
        content_parts(blocks) == blocks.filter_map(|b: ContentBlock| part_of(b)),
    decreases blocks.len(),
{
    if blocks.len() > 0 {
        lemma_parts(blocks.drop_last());
    }
    assert(content_parts(blocks) =~= blocks.filter_map(|b: ContentBlock| part_of(b)));
}

/// What is joined with nothing in between is what stands one behind the other.
proof fn lemma_joined_flat(parts: Seq<Seq<char>>)
    ensures
        join(parts, ""@) == parts.flatten(),
    decreases parts.len(),
{
    reveal_strlit("");
    if parts.len() == 1 {
        parts.lemma_flatten_one_element();
    } else if parts.len() > 1 {
        lemma_joined_flat(parts.drop_last());
        lemma_flat_push(parts.drop_last(), parts.last());
        assert(parts.drop_last().push(parts.last()) =~= parts);
        assert(join(parts, ""@) =~= parts.flatten());
    }
}

/// Empty thinking adds nothing.
proof fn lemma_thoughts(blocks: Seq<ContentBlock>)
    ensures
        block_thoughts(blocks).flatten() == blocks.filter_map(
            |b: ContentBlock| own_thinking(b),
        ).flatten(),
        block_thoughts(blocks).len() > 0 <==> exists|i: int|
            0 <= i < blocks.len() && (#[trigger] own_thinking(blocks[i])) is Some && own_thinking(
                blocks[i],
            )->0.len() > 0,
    decreases blocks.len(),
{
    let f = |b: ContentBlock| own_thinking(b);
    if blocks.len() > 0 {
        let before = blocks.drop_last();
        lemma_thoughts(before);
        match blocks.last() {
            ContentBlock::Thinking { thinking } => {
                let all = before.filter_map(f) + seq![thinking@];
                assert(all =~= before.filter_map(f).push(thinking@));
                lemma_flat_push(before.filter_map(f), thinking@);
                if thinking@.len() > 0 {
                    lemma_flat_push(block_thoughts(before), thinking@);
                    assert(own_thinking(blocks[blocks.len() - 1]) is Some);
                } else {
                    assert(before.filter_map(f).flatten() + thinking@
                        =~= before.filter_map(f).flatten());
                }
            },
            _ => {},
        }
        if exists|i: int|
            0 <= i < before.len() && (#[trigger] own_thinking(before[i])) is Some && own_thinking(
                before[i],
            )->0.len() > 0 {
            let i = choose|i: int|
                0 <= i < before.len() && (#[trigger] own_thinking(before[i])) is Some
                    && own_thinking(before[i])->0.len() > 0;
            assert(own_thinking(blocks[i]) is Some);
        }
        if exists|i: int|
            0 <= i < blocks.len() && (#[trigger] own_thinking(blocks[i])) is Some && own_thinking(
                blocks[i],
            )->0.len() > 0 {
            let i = choose|i: int|
                0 <= i < blocks.len() && (#[trigger] own_thinking(blocks[i])) is Some
                    && own_thinking(blocks[i])->0.len() > 0;
            if i < before.len() {
                assert(own_thinking(before[i]) is Some);
            }
        }
    }
}

/// Whether anything is carried shows in the parts, the calls and the thinking.
proof fn lemma_carried(blocks: Seq<ContentBlock>)
    ensures
        (content_parts(blocks).len() > 0 || block_calls(blocks).len() > 0 || block_thoughts(
            blocks,
        ).len() > 0) <==> exists|i: int| 0 <= i < blocks.len() && carried(#[trigger] blocks[i]),
{
    lemma_parts(blocks);
    lemma_calls(blocks);
    lemma_thoughts(blocks);
    lemma_none(blocks, |b: ContentBlock| part_of(b));
    lemma_none(blocks, |b: ContentBlock| call_of(b));
    if exists|i: int| 0 <= i < blocks.len() && carried(#[trigger] blocks[i]) {
        let i = choose|i: int| 0 <= i < blocks.len() && carried(#[trigger] blocks[i]);
        let block = blocks[i];
        assert(own_thinking(blocks[i]) is Some || part_of(block) is Some || call_of(block) is Some);
    }
    if block_thoughts(blocks).len() > 0 {
        let i = choose|i: int|
            0 <= i < blocks.len() && (#[trigger] own_thinking(blocks[i])) is Some && own_thinking(
                blocks[i],
            )->0.len() > 0;
        assert(carried(blocks[i]));
    }
}

/// Each tool result becomes a message of its own, and they come first, in order: the role "tool",
/// the id of the call, and the result's text as it is. Of nested blocks the texts count, each on
/// lines of its own.
pub proof fn law_tool_result_is_answered(msg: Message, i: int)
    requires
        msg.content matches MessageContent::Blocks(blocks) && 0 <= i < blocks@.len()
            && blocks@[i] is ToolResult,
    ensures
        ({
            let blocks = msg.content->Blocks_0@;
            let at = blocks.take(i).filter(|b: ContentBlock| b is ToolResult).len() as int;
            let out = translated_message(msg);
            &&& at < out.len()
            &&& out[at].role == "tool"@
            &&& out[at].tool_call_id == Some(blocks[i]->ToolResult_tool_use_id@)
            &&& out[at].reasoning_content is None
            &&& out[at].tool_calls is None
            &&& match blocks[i]->ToolResult_content {
                ToolResultContent::Text(text) => out[at].content == Some(
                    ContentSpec::Text(text@),
                ),
                ToolResultContent::Blocks(nested) => {
                    let found = nested@.filter_map(|b: ContentBlock| own_text(b));
                    &&& out[at].content == Some(ContentSpec::Text(join(found, "\n"@)))
                    &&& found.len() == 0 ==> out[at].content->0->Text_0.len() == 0
                    &&& found.len() == 1 ==> out[at].content == Some(ContentSpec::Text(found[0]))
                },
            }
        }),
{
    let blocks = msg.content->Blocks_0@;
    let f = |b: ContentBlock| answer_of(b);
    lemma_answers(blocks);
    lemma_rank(blocks, f, i);
    lemma_count(blocks.take(i), f, |b: ContentBlock| b is ToolResult);
    let at = blocks.take(i).filter_map(f).len() as int;
    assert(translated_message(msg)[at] == tool_messages(blocks)[at]);
}

/// A result of one text block is answered like that text alone.
pub proof fn law_one_text_block_is_its_text(msg: Message, other: Message, i: int)
    requires
        msg.content is Blocks,
        other.content is Blocks,
        0 <= i < msg.content->Blocks_0@.len(),
        0 <= i < other.content->Blocks_0@.len(),
        msg.content->Blocks_0@[i] is ToolResult,
        other.content->Blocks_0@[i] is ToolResult,
        msg.content->Blocks_0@[i]->ToolResult_content is Blocks,
        msg.content->Blocks_0@[i]->ToolResult_content->Blocks_0@.len() == 1,
        msg.content->Blocks_0@[i]->ToolResult_content->Blocks_0@[0] is Text,
        other.content->Blocks_0@[i]->ToolResult_content is Text,
        msg.content->Blocks_0@.take(i) == other.content->Blocks_0@.take(i),
        msg.content->Blocks_0@[i]->ToolResult_tool_use_id
            == other.content->Blocks_0@[i]->ToolResult_tool_use_id,
        msg.content->Blocks_0@[i]->ToolResult_content->Blocks_0@[0]->Text_text@
            == other.content->Blocks_0@[i]->ToolResult_content->Text_0@,
    ensures
        ({
            let before = msg.content->Blocks_0@.take(i);
            let at = before.filter(|b: ContentBlock| b is ToolResult).len() as int;
            translated_message(msg)[at] == translated_message(other)[at]
        }),
{
    law_tool_result_is_answered(msg, i);
    law_tool_result_is_answered(other, i);
    let nested = msg.content->Blocks_0@[i]->ToolResult_content->Blocks_0@;
    let f = |b: ContentBlock| own_text(b);
    assert(nested.drop_last() =~= Seq::empty());
    assert(nested.drop_last().filter_map(f) =~= Seq::empty());
    assert(nested.filter_map(f) =~= seq![nested[0]->Text_text@]);
}

/// There are as many messages as tool results, and one more, under the message's own role, where
/// it carries anything else.
pub proof fn law_one_message_carries_the_rest(msg: Message)
    requires
        msg.content is Blocks,
    ensures
        ({
            let blocks = msg.content->Blocks_0@;
            let answers = blocks.filter(|b: ContentBlock| b is ToolResult).len();
            let out = translated_message(msg);
            if exists|i: int| 0 <= i < blocks.len() && carried(#[trigger] blocks[i]) {
                &&& out.len() == answers + 1
                &&& out.last().role == msg.role@
                &&& out.last().tool_call_id is None
            } else {
                out.len() == answers
            }
        }),
{
    let blocks = msg.content->Blocks_0@;
    lemma_carried(blocks);
    lemma_answers(blocks);
    lemma_count(
        blocks,
        |b: ContentBlock| answer_of(b),
        |b: ContentBlock| b is ToolResult,
    );
}

/// Each tool use becomes a call of the last message, in order: its id, its name, and its input as
/// JSON text.
pub proof fn law_tool_use_is_called(msg: Message, i: int)
    requires
        msg.content matches MessageContent::Blocks(blocks) && 0 <= i < blocks@.len()
            && blocks@[i] is ToolUse,
    ensures
        ({
            let blocks = msg.content->Blocks_0@;
            let is_use = |b: ContentBlock| b is ToolUse;
            let at = blocks.take(i).filter(is_use).len() as int;
            let out = translated_message(msg);
            &&& out.len() > 0
            &&& out.last().tool_calls is Some
            &&& out.last().tool_calls->0.len() == blocks.filter(is_use).len()
            &&& at < out.last().tool_calls->0.len()
            &&& out.last().tool_calls->0[at].id == blocks[i]->ToolUse_id@
            &&& out.last().tool_calls->0[at].call_type == "function"@
            &&& out.last().tool_calls->0[at].name == blocks[i]->ToolUse_name@
            &&& out.last().tool_calls->0[at].arguments == json_text(blocks[i]->ToolUse_input@)
        }),
{
    let blocks = msg.content->Blocks_0@;
    let f = |b: ContentBlock| call_of(b);
    lemma_calls(blocks);
    lemma_rank(blocks, f, i);
    lemma_count(blocks.take(i), f, |b: ContentBlock| b is ToolUse);
    lemma_count(blocks, f, |b: ContentBlock| b is ToolUse);
}

/// Without tool uses nothing is called.
pub proof fn law_nothing_else_is_called(msg: Message, k: int)
    requires
        msg.content is Blocks,
        forall|i: int|
            0 <= i < msg.content->Blocks_0@.len() ==> !((#[trigger] msg.content->Blocks_0@[i])
                is ToolUse),
        0 <= k < translated_message(msg).len(),
    ensures
        translated_message(msg)[k].tool_calls is None,
{
    let blocks = msg.content->Blocks_0@;
    let f = |b: ContentBlock| call_of(b);
    lemma_calls(blocks);
    lemma_none(blocks, f);
    lemma_answers(blocks);
    let g = |b: ContentBlock| answer_of(b);
    if k < tool_messages(blocks).len() {
        lemma_made_by(blocks, g, k);
    }
}

/// What is made of a sequence is made of one of its items.
proof fn lemma_made_by(s: Seq<ContentBlock>, f: spec_fn(ContentBlock) -> Option<MessageSpec>, k: int)
    requires
        0 <= k < s.filter_map(f).len(),
    ensures
        exists|i: int| 0 <= i < s.len() && f(#[trigger] s[i]) == Some(s.filter_map(f)[k]),
    decreases s.len(),
{
    let before = s.drop_last();
    if k < before.filter_map(f).len() {
        lemma_made_by(before, f, k);
        let i = choose|i: int|
            0 <= i < before.len() && f(#[trigger] before[i]) == Some(before.filter_map(f)[k]);
        assert(f(s[i]) == Some(s.filter_map(f)[k]));
    } else {
        assert(f(s[s.len() - 1]) == Some(s.filter_map(f)[k]));
    }
}

/// Thinking goes out as reasoning, all of it and in order; without any there is none.
pub proof fn law_thinking_is_kept(msg: Message)
    requires
        msg.content is Blocks,
        exists|i: int|
            0 <= i < msg.content->Blocks_0@.len() && carried(#[trigger] msg.content->Blocks_0@[i]),
    ensures
        ({
            let blocks = msg.content->Blocks_0@;
            let thinking = blocks.filter_map(|b: ContentBlock| own_thinking(b)).flatten();
            let out = translated_message(msg);
            &&& out.len() > 0
            &&& out.last().reasoning_content == if thinking.len() > 0 {
                Some(thinking)
            } else {
                None
            }
        }),
{
    let blocks = msg.content->Blocks_0@;
    lemma_carried(blocks);
    lemma_thoughts(blocks);
    lemma_joined_flat(block_thoughts(blocks));
    lemma_flat_length(blocks);
}

/// Thinking that counts is not empty.
proof fn lemma_flat_length(blocks: Seq<ContentBlock>)
    ensures
        block_thoughts(blocks).len() > 0 <==> block_thoughts(blocks).flatten().len() > 0,
    decreases blocks.len(),
{
    if blocks.len() > 0 {
        let before = block_thoughts(blocks.drop_last());
        lemma_flat_length(blocks.drop_last());
        match blocks.last() {
            ContentBlock::Thinking { thinking } => {
                lemma_flat_push(before, thinking@);
            },
            _ => {},
        }
    }
}

/// Texts alone go out as one text, all of them and in order.
pub proof fn law_texts_are_one_text(msg: Message)
    requires
        msg.content is Blocks,
        exists|i: int|
            0 <= i < msg.content->Blocks_0@.len() && (#[trigger] msg.content->Blocks_0@[i]) is Text,
        forall|i: int|
            0 <= i < msg.content->Blocks_0@.len() ==> !((#[trigger] msg.content->Blocks_0@[i])
                is Image),
    ensures
        translated_message(msg).len() > 0,
        translated_message(msg).last().content == Some(
            ContentSpec::Text(
                msg.content->Blocks_0@.filter_map(|b: ContentBlock| own_text(b)).flatten(),
            ),
        ),
{
    let blocks = msg.content->Blocks_0@;
    lemma_parts(blocks);
    lemma_none(blocks, |b: ContentBlock| part_of(b));
    let i = choose|i: int| 0 <= i < blocks.len() && (#[trigger] blocks[i]) is Text;
    assert(part_of(blocks[i]) is Some);
    lemma_text_parts(blocks);
    lemma_joined_flat(part_texts(content_parts(blocks)));
}

proof fn lemma_text_parts(blocks: Seq<ContentBlock>)
    requires
        forall|i: int| 0 <= i < blocks.len() ==> !((#[trigger] blocks[i]) is Image),
    ensures
        all_text(content_parts(blocks)),
        part_texts(content_parts(blocks)) == blocks.filter_map(|b: ContentBlock| own_text(b)),
    decreases blocks.len(),
{
    let f = |b: ContentBlock| own_text(b);
    if blocks.len() > 0 {
        let before = blocks.drop_last();
        assert forall|i: int| 0 <= i < before.len() implies !((#[trigger] before[i]) is Image) by {
            assert(before[i] == blocks[i]);
        }
        lemma_text_parts(before);
        assert(!(blocks[blocks.len() - 1] is Image));
        let parts = content_parts(blocks);
        assert forall|i: int| 0 <= i < parts.len() implies (#[trigger] parts[i]) is Text by {
            if i < content_parts(before).len() {
                assert(parts[i] == content_parts(before)[i]);
            }
        }
    }
    assert(part_texts(content_parts(blocks)) =~= blocks.filter_map(f));
}

/// With an image, texts and images go out as parts, in order: a text as it is, an image as a data
/// URL of its type and data.
pub proof fn law_images_make_parts(msg: Message, i: int, k: int)
    requires
        msg.content matches MessageContent::Blocks(blocks) && 0 <= i < blocks@.len()
            && blocks@[i] is Image && 0 <= k < blocks@.len() && (blocks@[k] is Text || blocks@[k]
            is Image),
    ensures
        ({
            let blocks = msg.content->Blocks_0@;
            let shown = |b: ContentBlock| b is Text || b is Image;
            let at = blocks.take(k).filter(shown).len() as int;
            let out = translated_message(msg);
            &&& out.len() > 0
            &&& out.last().content matches Some(ContentSpec::Parts(parts))
            &&& parts.len() == blocks.filter(shown).len()
            &&& at < parts.len()
            &&& match blocks[k] {
                ContentBlock::Text { text, .. } => parts[at] == PartSpec::Text(text@),
                ContentBlock::Image { source } => parts[at] == PartSpec::ImageUrl(
                    "data:"@ + source.media_type@ + ";base64,"@ + source.data@,
                ),
                _ => true,
            }
        }),
{
    let blocks = msg.content->Blocks_0@;
    let f = |b: ContentBlock| part_of(b);
    let shown = |b: ContentBlock| b is Text || b is Image;
    lemma_parts(blocks);
    lemma_rank(blocks, f, i);
    lemma_rank(blocks, f, k);
    lemma_count(blocks.take(k), f, shown);
    lemma_count(blocks, f, shown);
    let parts = content_parts(blocks);
    let at = blocks.take(i).filter_map(f).len() as int;
    assert(parts[at] is ImageUrl);
    assert(!all_text(parts));
}

/// Without texts and images a message has no content.
pub proof fn law_no_content_without_parts(msg: Message)
    requires
        msg.content is Blocks,
        exists|i: int|
            0 <= i < msg.content->Blocks_0@.len() && carried(#[trigger] msg.content->Blocks_0@[i]),
        forall|i: int|
            0 <= i < msg.content->Blocks_0@.len() ==> !((#[trigger] msg.content->Blocks_0@[i])
                is Text || msg.content->Blocks_0@[i] is Image),
    ensures
        translated_message(msg).len() > 0,
        translated_message(msg).last().content is None,
{
    let blocks = msg.content->Blocks_0@;
    lemma_carried(blocks);
    lemma_parts(blocks);
    lemma_none(blocks, |b: ContentBlock| part_of(b));
}

} // verus!
