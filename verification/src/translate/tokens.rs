//! Counting tokens.
use crate::json::{json_string, json_text};
use crate::models::anthropic;
use crate::models::anthropic::{ContentBlock, CountTokensRequest, MessageContent, ToolResultContent};
use crate::models::opt_text;
use crate::text::{join, join_texts, texts};
use crate::translate::messages::{block_texts, text_of_blocks};
use crate::translate::pipeline::{system_texts, texts_of_system};
use vstd::prelude::*;

verus! {

/// Tokens that a chat template adds to each message, at the high end of what was measured.
pub const PER_MESSAGE_OVERHEAD_TOKENS: u32 = 10;

// ---------------------------------------------------------------------------------------------
// The tokenizer.

/// How many cl100k tokens `tiktoken_rs::CoreBPE::encode` makes of a text, no special token being
/// allowed; `None` where it reports an error.
pub uninterp spec fn token_count(text: Seq<char>) -> Option<nat>;

/// `tiktoken_rs::CoreBPE::encode` of the embedded cl100k tokenizer, with no special token
/// allowed: the number of tokens. It encodes the text as `encode_ordinary` does, and where
/// splitting the text exceeds the limits of the regex engine it reports that. Nothing is said of
/// which tokens there are.
#[verifier::external_body]
fn cl100k_tokens(text: &str) -> (n: Option<usize>)
    ensures
        n is Some <==> token_count(text@) is Some,
        n is Some ==> token_count(text@) == Some(n->0 as nat),
{
    match tiktoken_rs::cl100k_base_singleton().encode(text, &std::collections::HashSet::new()) {
        Ok((tokens, _)) => Some(tokens.len()),
        Err(_) => None,
    }
}

/// How many tokens the texts have together, where each can be counted.
pub open spec fn tokens_in(parts: Seq<Seq<char>>) -> Option<nat>
    decreases parts.len(),
{
    if parts.len() == 0 {
        Some(0)
    } else {
        match (tokens_in(parts.drop_last()), token_count(parts.last())) {
            (Some(before), Some(n)) => Some(before + n),
            _ => None,
        }
    }
}

/// One text that cannot be counted leaves the sum open.
proof fn lemma_uncounted(parts: Seq<Seq<char>>, i: int)
    requires
        0 <= i < parts.len(),
        token_count(parts[i]) is None,
    ensures
        tokens_in(parts) is None,
    decreases parts.len(),
{
    if i < parts.len() - 1 {
        lemma_uncounted(parts.drop_last(), i);
    }
}

/// A part of the texts has no more tokens than all of them.
proof fn lemma_partial_sum(parts: Seq<Seq<char>>, i: int)
    requires
        0 <= i <= parts.len(),
        tokens_in(parts) is Some,
    ensures
        tokens_in(parts.take(i)) is Some,
        tokens_in(parts.take(i))->0 <= tokens_in(parts)->0,
    decreases parts.len() - i,
{
    if i < parts.len() {
        lemma_partial_sum(parts, i + 1);
        assert(parts.take(i + 1).drop_last() =~= parts.take(i));
    } else {
        assert(parts.take(i) =~= parts);
    }
}

/// Counts the tokens of the texts. `None` if and only if one of them cannot be counted or the
/// sum does not fit.
pub fn count_tokens(parts: &Vec<String>) -> (r: Option<usize>)
    ensures
        match r {
            Some(n) => tokens_in(texts(parts@)) == Some(n as nat),
            None => tokens_in(texts(parts@)) is None || tokens_in(texts(parts@))->0 > usize::MAX,
        },
{
    let ghost all = texts(parts@);
    let mut sum: usize = 0;
    let mut i: usize = 0;
    assert(all.take(0) =~= Seq::empty());
    while i < parts.len()
        invariant
            i <= parts@.len(),
            all == texts(parts@),
            tokens_in(all.take(i as int)) == Some(sum as nat),
        decreases parts@.len() - i,
    {
        let ghost next = all.take(i + 1);
        assert(next.drop_last() =~= all.take(i as int));
        assert(next.last() == all[i as int]);
        match cl100k_tokens(parts[i].as_str()) {
            Some(n) => {
                if n > usize::MAX - sum {
                    proof {
                        if tokens_in(all) is Some {
                            lemma_partial_sum(all, i + 1);
                        }
                    }
                    return None;
                }
                sum += n;
            },
            None => {
                proof {
                    lemma_uncounted(all, i as int);
                }
                return None;
            },
        }
        i += 1;
    }
    assert(all.take(all.len() as int) =~= all);
    Some(sum)
}

/// The estimate for a number of tokens and of messages: what the messages add, then 15 % on top,
/// at least 1, and of that the lower 32 bits.
pub open spec fn scaled(tokens: nat, messages: nat) -> u32 {
    let total = (tokens + messages * PER_MESSAGE_OVERHEAD_TOKENS as nat) * 23 / 20;
    if total == 0 {
        1
    } else {
        (total % 0x1_0000_0000) as u32
    }
}

/// The estimate can be made in machine arithmetic.
pub open spec fn scales(tokens: nat, messages: nat) -> bool {
    (tokens + messages * PER_MESSAGE_OVERHEAD_TOKENS as nat) * 23 <= usize::MAX
}

/// Makes the estimate from the number of tokens.
pub fn scale_tokens(tokens: usize, messages: usize) -> (r: u32)
    requires
        scales(tokens as nat, messages as nat),
    ensures
        r == scaled(tokens as nat, messages as nat),
{
    let overhead: usize = PER_MESSAGE_OVERHEAD_TOKENS as usize;
    let total: usize = (tokens + messages * overhead) * 23 / 20;
    if total == 0 {
        1
    } else {
        (total as u64 % 0x1_0000_0000) as u32
    }
}

/// Whether the estimate can be made.
pub(crate) fn can_scale(tokens: usize, messages: usize) -> (r: bool)
    ensures
        r == scales(tokens as nat, messages as nat),
{
    let overhead: usize = PER_MESSAGE_OVERHEAD_TOKENS as usize;
    let limit: usize = usize::MAX / 23;
    messages <= limit / overhead && tokens <= limit - messages * overhead
}

/// The estimate is never below what was counted and what the messages add, and never 0, unless
/// it is too large to be given in full.
pub proof fn law_estimate_covers_the_count(tokens: nat, messages: nat)
    requires
        (tokens + messages * PER_MESSAGE_OVERHEAD_TOKENS as nat) * 23 / 20 < 0x1_0000_0000,
    ensures
        scaled(tokens, messages) >= tokens + messages * PER_MESSAGE_OVERHEAD_TOKENS,
        scaled(tokens, messages) >= 1,
{
}

/// More tokens or more messages make no smaller an estimate, unless it is too large to be given
/// in full.
pub proof fn law_estimate_grows(tokens: nat, messages: nat, more_tokens: nat, more_messages: nat)
    requires
        tokens <= more_tokens,
        messages <= more_messages,
        (more_tokens + more_messages * PER_MESSAGE_OVERHEAD_TOKENS as nat) * 23 / 20 < 0x1_0000_0000,
    ensures
        scaled(tokens, messages) <= scaled(more_tokens, more_messages),
{
}

// ---------------------------------------------------------------------------------------------
// What is counted of a request to the proxy.

/// What is counted of a content block. An image's payload is not text and does not count, nor
/// does redacted thinking.
pub open spec fn counted_block(block: ContentBlock) -> Seq<Seq<char>>
    decreases block,
{
    match block {
        ContentBlock::Text { text, .. } => seq![text@],
        ContentBlock::Thinking { thinking } => seq![thinking@],
        ContentBlock::ToolUse { name, input, .. } => seq![name@, json_text(input@)],
        ContentBlock::ToolResult { content, .. } => match content {
            ToolResultContent::Text(text) => seq![text@],
            ToolResultContent::Blocks(blocks) => counted_blocks(blocks@),
        },
        ContentBlock::RedactedThinking { .. } => Seq::empty(),
        ContentBlock::Image { .. } => Seq::empty(),
    }
}

pub open spec fn counted_blocks(blocks: Seq<ContentBlock>) -> Seq<Seq<char>>
    decreases blocks,
{
    if blocks.len() == 0 {
        Seq::empty()
    } else {
        counted_blocks(blocks.drop_last()) + counted_block(blocks.last())
    }
}

pub open spec fn counted_content(content: MessageContent) -> Seq<Seq<char>> {
    match content {
        MessageContent::Text(text) => seq![text@],
        MessageContent::Blocks(blocks) => counted_blocks(blocks@),
    }
}

/// What is counted of the messages: each role and content.
pub open spec fn counted_messages(messages: Seq<anthropic::Message>) -> Seq<Seq<char>>
    decreases messages.len(),
{
    if messages.len() == 0 {
        Seq::empty()
    } else {
        counted_messages(messages.drop_last()) + seq![messages.last().role@] + counted_content(
            messages.last().content,
        )
    }
}

/// What is counted of a tool: its name, its description and its schema's text.
pub open spec fn tool_parts(
    name: Seq<char>,
    description: Option<Seq<char>>,
    schema: Seq<char>,
) -> Seq<Seq<char>> {
    match description {
        Some(text) => seq![name, text, schema],
        None => seq![name, schema],
    }
}

pub open spec fn counted_tools(tools: Seq<anthropic::Tool>) -> Seq<Seq<char>>
    decreases tools.len(),
{
    if tools.len() == 0 {
        Seq::empty()
    } else {
        let tool = tools.last();
        counted_tools(tools.drop_last()) + tool_parts(
            tool.name@,
            opt_text(tool.description),
            json_text(tool.input_schema@),
        )
    }
}

pub open spec fn system_part(system: Option<anthropic::SystemPrompt>) -> Seq<Seq<char>> {
    match system {
        Some(system) => system_texts(system),
        None => Seq::empty(),
    }
}

pub open spec fn tools_part(tools: Option<Vec<anthropic::Tool>>) -> Seq<Seq<char>> {
    match tools {
        Some(tools) => counted_tools(tools@),
        None => Seq::empty(),
    }
}

/// Everything that is counted of a request.
pub open spec fn counted_texts(req: CountTokensRequest) -> Seq<Seq<char>> {
    system_part(req.system) + counted_messages(req.messages@) + tools_part(req.tools)
}

fn push_counted(block: &ContentBlock, parts: &mut Vec<String>)
    ensures
        texts(final(parts)@) == texts(old(parts)@) + counted_block(*block),
    decreases block,
{
    let ghost before = texts(parts@);
    match block {
        ContentBlock::Text { text, .. } => {
            parts.push(text.clone());
        },
        ContentBlock::Thinking { thinking } => {
            parts.push(thinking.clone());
        },
        ContentBlock::ToolUse { name, input, .. } => {
            parts.push(name.clone());
            parts.push(json_string(input));
        },
        ContentBlock::ToolResult { content, .. } => match content {
            ToolResultContent::Text(text) => {
                parts.push(text.clone());
            },
            ToolResultContent::Blocks(blocks) => {
                let mut i: usize = 0;
                assert(blocks@.take(0) =~= Seq::empty());
                assert(before + counted_blocks(blocks@.take(0)) =~= before);
                while i < blocks.len()
                    invariant
                        i <= blocks@.len(),
                        texts(parts@) == before + counted_blocks(blocks@.take(i as int)),
                        decreases_to!(block => blocks),
                    decreases blocks@.len() - i,
                {
                    let ghost next = blocks@.take(i + 1);
                    assert(next.drop_last() =~= blocks@.take(i as int));
                    push_counted(&blocks[i], parts);
                    assert(texts(parts@) =~= before + counted_blocks(next));
                    i += 1;
                }
                assert(blocks@.take(blocks@.len() as int) =~= blocks@);
            },
        },
        ContentBlock::RedactedThinking { .. } => {},
        ContentBlock::Image { .. } => {},
    }
    assert(texts(parts@) =~= before + counted_block(*block));
}

fn push_counted_content(content: &MessageContent, parts: &mut Vec<String>)
    ensures
        texts(final(parts)@) == texts(old(parts)@) + counted_content(*content),
{
    let ghost before = texts(parts@);
    match content {
        MessageContent::Text(text) => {
            parts.push(text.clone());
        },
        MessageContent::Blocks(blocks) => {
            let mut i: usize = 0;
            assert(blocks@.take(0) =~= Seq::empty());
            assert(before + counted_blocks(blocks@.take(0)) =~= before);
            while i < blocks.len()
                invariant
                    i <= blocks@.len(),
                    texts(parts@) == before + counted_blocks(blocks@.take(i as int)),
                decreases blocks@.len() - i,
            {
                let ghost next = blocks@.take(i + 1);
                assert(next.drop_last() =~= blocks@.take(i as int));
                push_counted(&blocks[i], parts);
                assert(texts(parts@) =~= before + counted_blocks(next));
                i += 1;
            }
            assert(blocks@.take(blocks@.len() as int) =~= blocks@);
        },
    }
    assert(texts(parts@) =~= before + counted_content(*content));
}

fn push_system(system: &Option<anthropic::SystemPrompt>, parts: &mut Vec<String>)
    ensures
        texts(final(parts)@) == texts(old(parts)@) + system_part(*system),
{
    let ghost before = texts(parts@);
    match system {
        Some(system) => {
            let mut prompts = texts_of_system(system);
            parts.append(&mut prompts);
        },
        None => {},
    }
    assert(texts(parts@) =~= before + system_part(*system));
}

pub(crate) fn push_tool(name: &str, description: &Option<String>, schema: String, parts: &mut Vec<String>)
    ensures
        texts(final(parts)@) == texts(old(parts)@) + tool_parts(
            name@,
            opt_text(*description),
            schema@,
        ),
{
    let ghost before = texts(parts@);
    parts.push(name.to_owned());
    match description {
        Some(text) => {
            parts.push(text.clone());
        },
        None => {},
    }
    parts.push(schema);
    assert(texts(parts@) =~= before + tool_parts(name@, opt_text(*description), schema@));
}

fn push_tools(tools: &Option<Vec<anthropic::Tool>>, parts: &mut Vec<String>)
    ensures
        texts(final(parts)@) == texts(old(parts)@) + tools_part(*tools),
{
    let ghost before = texts(parts@);
    match tools {
        Some(tools) => {
            let mut i: usize = 0;
            assert(tools@.take(0) =~= Seq::empty());
            assert(before + counted_tools(tools@.take(0)) =~= before);
            while i < tools.len()
                invariant
                    i <= tools@.len(),
                    texts(parts@) == before + counted_tools(tools@.take(i as int)),
                decreases tools@.len() - i,
            {
                let ghost next = tools@.take(i + 1);
                assert(next.drop_last() =~= tools@.take(i as int));
                let tool = &tools[i];
                push_tool(
                    tool.name.as_str(),
                    &tool.description,
                    json_string(&tool.input_schema),
                    parts,
                );
                assert(texts(parts@) =~= before + counted_tools(next));
                i += 1;
            }
            assert(tools@.take(tools@.len() as int) =~= tools@);
        },
        None => {},
    }
    assert(texts(parts@) =~= before + tools_part(*tools));
}

fn texts_to_count(req: &CountTokensRequest) -> (r: Vec<String>)
    ensures
        texts(r@) == counted_texts(*req),
{
    let mut parts: Vec<String> = Vec::new();
    push_system(&req.system, &mut parts);
    let ghost first = texts(parts@);
    assert(first =~= system_part(req.system));
    let messages = &req.messages;
    let mut i: usize = 0;
    assert(messages@.take(0) =~= Seq::empty());
    assert(first + counted_messages(messages@.take(0)) =~= first);
    while i < messages.len()
        invariant
            i <= messages@.len(),
            texts(parts@) == first + counted_messages(messages@.take(i as int)),
        decreases messages@.len() - i,
    {
        let ghost next = messages@.take(i + 1);
        let ghost before = texts(parts@);
        assert(next.drop_last() =~= messages@.take(i as int));
        parts.push(messages[i].role.clone());
        assert(texts(parts@) =~= before.push(messages@[i as int].role@));
        push_counted_content(&messages[i].content, &mut parts);
        assert(texts(parts@) =~= first + counted_messages(next));
        i += 1;
    }
    assert(messages@.take(messages@.len() as int) =~= messages@);
    push_tools(&req.tools, &mut parts);
    assert(texts(parts@) =~= counted_texts(*req));
    parts
}

/// The tokens of a request can be counted, and the estimate made of them.
pub open spec fn can_estimate_input(req: CountTokensRequest) -> bool {
    tokens_in(counted_texts(req)) is Some && scales(
        tokens_in(counted_texts(req))->0,
        req.messages@.len(),
    )
}

/// Estimates the input tokens of a request from the tokens of all its texts.
pub fn estimate_input_tokens(req: &CountTokensRequest) -> (r: u32)
    requires
        can_estimate_input(*req),
    ensures
        r == scaled(tokens_in(counted_texts(*req))->0, req.messages@.len()),
{
    let parts = texts_to_count(req);
    match count_tokens(&parts) {
        Some(tokens) => scale_tokens(tokens, req.messages.len()),
        None => {
            assert(false);
            1
        },
    }
}

/// Estimates the input tokens of a request where that can be done, and says where it cannot.
pub fn try_estimate_input_tokens(req: &CountTokensRequest) -> (r: Option<u32>)
    ensures
        match r {
            Some(n) => can_estimate_input(*req) && n == scaled(
                tokens_in(counted_texts(*req))->0,
                req.messages@.len(),
            ),
            None => !can_estimate_input(*req),
        },
{
    let parts = texts_to_count(req);
    match count_tokens(&parts) {
        Some(tokens) => if can_scale(tokens, req.messages.len()) {
            Some(estimate_input_tokens(req))
        } else {
            None
        },
        None => None,
    }
}

// ---------------------------------------------------------------------------------------------
// The text of a request to the proxy, for an upstream that counts.

/// What a content block adds to the text. Of nested blocks only the text counts.
pub open spec fn collected_block(block: ContentBlock) -> Seq<Seq<char>> {
    match block {
        ContentBlock::Text { text, .. } => seq![text@],
        ContentBlock::Thinking { thinking } => seq![thinking@],
        ContentBlock::ToolUse { name, input, .. } => seq![name@, json_text(input@)],
        ContentBlock::ToolResult { content, .. } => match content {
            ToolResultContent::Text(text) => seq![text@],
            ToolResultContent::Blocks(blocks) => block_texts(blocks@),
        },
        ContentBlock::RedactedThinking { .. } => Seq::empty(),
        ContentBlock::Image { .. } => Seq::empty(),
    }
}

pub open spec fn collected_blocks(blocks: Seq<ContentBlock>) -> Seq<Seq<char>>
    decreases blocks.len(),
{
    if blocks.len() == 0 {
        Seq::empty()
    } else {
        collected_blocks(blocks.drop_last()) + collected_block(blocks.last())
    }
}

pub open spec fn collected_content(content: MessageContent) -> Seq<Seq<char>> {
    match content {
        MessageContent::Text(text) => seq![text@],
        MessageContent::Blocks(blocks) => collected_blocks(blocks@),
    }
}

pub open spec fn collected_messages(messages: Seq<anthropic::Message>) -> Seq<Seq<char>>
    decreases messages.len(),
{
    if messages.len() == 0 {
        Seq::empty()
    } else {
        collected_messages(messages.drop_last()) + seq![messages.last().role@] + collected_content(
            messages.last().content,
        )
    }
}

/// Everything that the text of a request holds, in order.
pub open spec fn collected_texts(req: CountTokensRequest) -> Seq<Seq<char>> {
    system_part(req.system) + collected_messages(req.messages@) + tools_part(req.tools)
}

fn collect_block_text(block: &ContentBlock, parts: &mut Vec<String>)
    ensures
        texts(final(parts)@) == texts(old(parts)@) + collected_block(*block),
{
    let ghost before = texts(parts@);
    match block {
        ContentBlock::Text { text, .. } => {
            parts.push(text.clone());
        },
        ContentBlock::Thinking { thinking } => {
            parts.push(thinking.clone());
        },
        ContentBlock::ToolUse { name, input, .. } => {
            parts.push(name.clone());
            parts.push(json_string(input));
        },
        ContentBlock::ToolResult { content, .. } => match content {
            ToolResultContent::Text(text) => {
                parts.push(text.clone());
            },
            ToolResultContent::Blocks(blocks) => {
                let mut nested = text_of_blocks(blocks);
                parts.append(&mut nested);
            },
        },
        ContentBlock::RedactedThinking { .. } => {},
        ContentBlock::Image { .. } => {},
    }
    assert(texts(parts@) =~= before + collected_block(*block));
}

/// Adds the text of a message's content to the parts.
pub fn collect_content_text(content: &MessageContent, parts: &mut Vec<String>)
    ensures
        texts(final(parts)@) == texts(old(parts)@) + collected_content(*content),
{
    let ghost before = texts(parts@);
    match content {
        MessageContent::Text(text) => {
            parts.push(text.clone());
        },
        MessageContent::Blocks(blocks) => {
            let mut i: usize = 0;
            assert(blocks@.take(0) =~= Seq::empty());
            assert(before + collected_blocks(blocks@.take(0)) =~= before);
            while i < blocks.len()
                invariant
                    i <= blocks@.len(),
                    texts(parts@) == before + collected_blocks(blocks@.take(i as int)),
                decreases blocks@.len() - i,
            {
                let ghost next = blocks@.take(i + 1);
                assert(next.drop_last() =~= blocks@.take(i as int));
                collect_block_text(&blocks[i], parts);
                assert(texts(parts@) =~= before + collected_blocks(next));
                i += 1;
            }
            assert(blocks@.take(blocks@.len() as int) =~= blocks@);
        },
    }
    assert(texts(parts@) =~= before + collected_content(*content));
}

/// The text of a request, a line break between any two parts, and the number of its messages.
pub fn collect_tokenize_text(req: &CountTokensRequest) -> (r: (String, usize))
    ensures
        r.0@ == join(collected_texts(*req), "\n"@),
        r.1 == req.messages@.len(),
{
    let mut parts: Vec<String> = Vec::new();
    push_system(&req.system, &mut parts);
    let ghost first = texts(parts@);
    assert(first =~= system_part(req.system));
    let messages = &req.messages;
    let mut i: usize = 0;
    assert(messages@.take(0) =~= Seq::empty());
    assert(first + collected_messages(messages@.take(0)) =~= first);
    while i < messages.len()
        invariant
            i <= messages@.len(),
            texts(parts@) == first + collected_messages(messages@.take(i as int)),
        decreases messages@.len() - i,
    {
        let ghost next = messages@.take(i + 1);
        let ghost before = texts(parts@);
        assert(next.drop_last() =~= messages@.take(i as int));
        parts.push(messages[i].role.clone());
        assert(texts(parts@) =~= before.push(messages@[i as int].role@));
        collect_content_text(&messages[i].content, &mut parts);
        assert(texts(parts@) =~= first + collected_messages(next));
        i += 1;
    }
    assert(messages@.take(messages@.len() as int) =~= messages@);
    push_tools(&req.tools, &mut parts);
    assert(texts(parts@) =~= collected_texts(*req));
    (join_texts(&parts, "\n"), messages.len())
}

/// Nothing of an image is counted or collected, however large it is.
pub proof fn law_images_do_not_count(source: anthropic::ImageSource)
    ensures
        counted_block(ContentBlock::Image { source }).len() == 0,
        collected_block(ContentBlock::Image { source }).len() == 0,
{
}

} // verus!
