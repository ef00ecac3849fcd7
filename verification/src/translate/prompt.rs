//! The text of an outgoing request, and how many tokens it has.
use crate::json::{json_string, json_text};
use crate::models::openai::{
    ContentPart, Message, MessageContent, OpenAIRequest, Tool, ToolCall,
};
use crate::models::opt_text;
use crate::text::{join, join_texts, texts};
use crate::translate::tokens::{
    can_scale, count_tokens, push_tool, scale_tokens, scaled, scales, tokens_in, tool_parts,
    PER_MESSAGE_OVERHEAD_TOKENS,
};
use vstd::prelude::*;

verus! {

/// The texts of the text parts, in order. Images are left out.
pub open spec fn texts_of_parts(parts: Seq<ContentPart>) -> Seq<Seq<char>>
    decreases parts.len(),
{
    if parts.len() == 0 {
        Seq::empty()
    } else {
        let before = texts_of_parts(parts.drop_last());
        match parts.last() {
            ContentPart::Text { text } => before.push(text@),
            ContentPart::ImageUrl { .. } => before,
        }
    }
}

/// The names and arguments of calls, in order.
pub open spec fn texts_of_calls(calls: Seq<ToolCall>) -> Seq<Seq<char>>
    decreases calls.len(),
{
    if calls.len() == 0 {
        Seq::empty()
    } else {
        texts_of_calls(calls.drop_last()).push(calls.last().function.name@).push(
            calls.last().function.arguments@,
        )
    }
}

/// What a message adds to the prompt: its text, its reasoning and its calls.
pub open spec fn message_texts(message: Message) -> Seq<Seq<char>> {
    let content = match message.content {
        Some(MessageContent::Text(text)) => seq![text@],
        Some(MessageContent::Parts(parts)) => texts_of_parts(parts@),
        None => Seq::empty(),
    };
    let reasoning = match message.reasoning_content {
        Some(text) => seq![text@],
        None => Seq::empty(),
    };
    let calls = match message.tool_calls {
        Some(calls) => texts_of_calls(calls@),
        None => Seq::empty(),
    };
    content + reasoning + calls
}

/// What the messages add, in order; each role too, where roles count.
pub open spec fn prompt_messages(messages: Seq<Message>, roles: bool) -> Seq<Seq<char>>
    decreases messages.len(),
{
    if messages.len() == 0 {
        Seq::empty()
    } else {
        let before = prompt_messages(messages.drop_last(), roles);
        let role = if roles {
            seq![messages.last().role@]
        } else {
            Seq::empty()
        };
        before + role + message_texts(messages.last())
    }
}

pub open spec fn prompt_tools(tools: Seq<Tool>) -> Seq<Seq<char>>
    decreases tools.len(),
{
    if tools.len() == 0 {
        Seq::empty()
    } else {
        let function = tools.last().function;
        prompt_tools(tools.drop_last()) + tool_parts(
            function.name@,
            opt_text(function.description),
            json_text(function.parameters@),
        )
    }
}

/// Everything that a request puts into the prompt.
pub open spec fn prompt_texts(req: OpenAIRequest, roles: bool) -> Seq<Seq<char>> {
    prompt_messages(req.messages@, roles) + match req.tools {
        Some(tools) => prompt_tools(tools@),
        None => Seq::empty(),
    }
}

fn push_content(content: &Option<MessageContent>, found: &mut Vec<String>)
    ensures
        texts(final(found)@) == texts(old(found)@) + match *content {
            Some(MessageContent::Text(text)) => seq![text@],
            Some(MessageContent::Parts(parts)) => texts_of_parts(parts@),
            None => Seq::empty(),
        },
{
    let ghost before = texts(found@);
    match content {
        Some(MessageContent::Text(text)) => {
            found.push(text.clone());
            assert(texts(found@) =~= before + seq![text@]);
        },
        Some(MessageContent::Parts(parts)) => {
            let mut i: usize = 0;
            assert(before + texts_of_parts(parts@.take(0)) =~= before);
            while i < parts.len()
                invariant
                    i <= parts@.len(),
                    texts(found@) == before + texts_of_parts(parts@.take(i as int)),
                decreases parts@.len() - i,
            {
                let ghost next = parts@.take(i + 1);
                let ghost so_far = texts(found@);
                assert(next.drop_last() =~= parts@.take(i as int));
                assert(next.last() == parts@[i as int]);
                match &parts[i] {
                    ContentPart::Text { text } => {
                        found.push(text.clone());
                        assert(texts(found@) =~= so_far.push(text@));
                    },
                    ContentPart::ImageUrl { .. } => {},
                }
                assert(texts(found@) =~= before + texts_of_parts(next));
                i += 1;
            }
            assert(parts@.take(parts@.len() as int) =~= parts@);
        },
        None => {
            assert(texts(found@) =~= before + Seq::<Seq<char>>::empty());
        },
    }
}

fn push_calls(calls: &Option<Vec<ToolCall>>, found: &mut Vec<String>)
    ensures
        texts(final(found)@) == texts(old(found)@) + match *calls {
            Some(calls) => texts_of_calls(calls@),
            None => Seq::empty(),
        },
{
    let ghost before = texts(found@);
    match calls {
        Some(calls) => {
            let mut i: usize = 0;
            assert(before + texts_of_calls(calls@.take(0)) =~= before);
            while i < calls.len()
                invariant
                    i <= calls@.len(),
                    texts(found@) == before + texts_of_calls(calls@.take(i as int)),
                decreases calls@.len() - i,
            {
                let ghost next = calls@.take(i + 1);
                let ghost so_far = texts(found@);
                let ghost call = calls@[i as int].function;
                assert(next.drop_last() =~= calls@.take(i as int));
                assert(next.last() == calls@[i as int]);
                found.push(calls[i].function.name.clone());
                found.push(calls[i].function.arguments.clone());
                assert(texts(found@) =~= so_far.push(call.name@).push(call.arguments@));
                assert(texts(found@) =~= before + texts_of_calls(next));
                i += 1;
            }
            assert(calls@.take(calls@.len() as int) =~= calls@);
        },
        None => {
            assert(texts(found@) =~= before + Seq::<Seq<char>>::empty());
        },
    }
}

fn push_message(message: &Message, found: &mut Vec<String>)
    ensures
        texts(final(found)@) == texts(old(found)@) + message_texts(*message),
{
    let ghost before = texts(found@);
    push_content(&message.content, found);
    let ghost with_content = texts(found@);
    match &message.reasoning_content {
        Some(text) => {
            found.push(text.clone());
            assert(texts(found@) =~= with_content + seq![text@]);
        },
        None => {},
    }
    push_calls(&message.tool_calls, found);
    assert(texts(found@) =~= before + message_texts(*message));
}

fn texts_of_prompt(req: &OpenAIRequest, roles: bool) -> (r: Vec<String>)
    ensures
        texts(r@) == prompt_texts(*req, roles),
{
    let mut found: Vec<String> = Vec::new();
    let messages = &req.messages;
    let mut i: usize = 0;
    assert(texts(found@) =~= prompt_messages(messages@.take(0), roles));
    while i < messages.len()
        invariant
            i <= messages@.len(),
            texts(found@) == prompt_messages(messages@.take(i as int), roles),
        decreases messages@.len() - i,
    {
        let ghost next = messages@.take(i + 1);
        let ghost before = texts(found@);
        assert(next.drop_last() =~= messages@.take(i as int));
        if roles {
            found.push(messages[i].role.clone());
            assert(texts(found@) =~= before + seq![messages@[i as int].role@]);
        }
        push_message(&messages[i], &mut found);
        assert(texts(found@) =~= prompt_messages(next, roles));
        i += 1;
    }
    assert(messages@.take(messages@.len() as int) =~= messages@);
    match &req.tools {
        Some(tools) => {
            let ghost first = texts(found@);
            let mut k: usize = 0;
            assert(first + prompt_tools(tools@.take(0)) =~= first);
            while k < tools.len()
                invariant
                    k <= tools@.len(),
                    texts(found@) == first + prompt_tools(tools@.take(k as int)),
                decreases tools@.len() - k,
            {
                let ghost next = tools@.take(k + 1);
                assert(next.drop_last() =~= tools@.take(k as int));
                let function = &tools[k].function;
                push_tool(
                    function.name.as_str(),
                    &function.description,
                    json_string(&function.parameters),
                    &mut found,
                );
                assert(texts(found@) =~= first + prompt_tools(next));
                k += 1;
            }
            assert(tools@.take(tools@.len() as int) =~= tools@);
        },
        None => {},
    }
    assert(texts(found@) =~= prompt_texts(*req, roles));
    found
}

/// The text of a request, a line break between any two parts, and the number of its messages.
pub fn openai_tokenize_text(req: &OpenAIRequest) -> (r: (String, usize))
    ensures
        r.0@ == join(prompt_texts(*req, false), "\n"@),
        r.1 == req.messages@.len(),
{
    (join_texts(&texts_of_prompt(req, false), "\n"), req.messages.len())
}

/// The tokens of a request can be counted, and the estimate made of them.
pub open spec fn can_estimate_prompt(req: OpenAIRequest) -> bool {
    tokens_in(prompt_texts(req, true)) is Some && scales(
        tokens_in(prompt_texts(req, true))->0,
        req.messages@.len(),
    )
}

/// Estimates the input tokens of an outgoing request from the tokens of all its texts.
pub fn estimate_openai_input_tokens(req: &OpenAIRequest) -> (r: u32)
    requires
        can_estimate_prompt(*req),
    ensures
        r == scaled(tokens_in(prompt_texts(*req, true))->0, req.messages@.len()),
{
    let parts = texts_of_prompt(req, true);
    match count_tokens(&parts) {
        Some(tokens) => scale_tokens(tokens, req.messages.len()),
        None => {
            assert(false);
            1
        },
    }
}

/// Estimates the input tokens of an outgoing request where that can be done, and says where it
/// cannot.
pub fn try_estimate_openai_input_tokens(req: &OpenAIRequest) -> (r: Option<u32>)
    ensures
        match r {
            Some(n) => can_estimate_prompt(*req) && n == scaled(
                tokens_in(prompt_texts(*req, true))->0,
                req.messages@.len(),
            ),
            None => !can_estimate_prompt(*req),
        },
{
    let parts = texts_of_prompt(req, true);
    match count_tokens(&parts) {
        Some(tokens) => if can_scale(tokens, req.messages.len()) {
            Some(estimate_openai_input_tokens(req))
        } else {
            None
        },
        None => None,
    }
}

/// An upstream's count of a prompt, with what the chat template adds to each message; of the
/// number of messages the lower 32 bits count. `None` where the sum does not fit.
pub open spec fn overhead_sum(count: u32, messages: nat) -> Option<u32> {
    let sum = count + (messages % 0x1_0000_0000) * PER_MESSAGE_OVERHEAD_TOKENS;
    if sum <= u32::MAX {
        Some(sum as u32)
    } else {
        None
    }
}

pub fn with_overhead(count: u32, messages: usize) -> (r: Option<u32>)
    ensures
        r == overhead_sum(count, messages as nat),
{
    let lower: u64 = messages as u64 % 0x1_0000_0000;
    let overhead: u64 = PER_MESSAGE_OVERHEAD_TOKENS as u64;
    assert(overhead == 10);
    let sum: u64 = count as u64 + lower * overhead;
    if sum <= u32::MAX as u64 {
        Some(sum as u32)
    } else {
        None
    }
}

} // verus!
