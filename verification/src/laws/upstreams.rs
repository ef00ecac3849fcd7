//! What strict upstreams are sent, and which tools they never see.
use crate::config::Config;
use crate::models::anthropic::Tool;
use crate::models::openai::{ContentSpec, MessageSpec, PartSpec};
use crate::proxy::compat::{
    canonical_text, canonicalized, flattened, image_placeholder, index_number, other_messages,
    prompt_parts, rejected_index, system_first, system_message, with_system_first,
};
use crate::proxy::routing::{web_route_of, web_tool, without_web_tools};
use crate::text::{
    blank, decimal, digit, first_at, join, lemma_find_is, occurs_at, split_once, starts_with,
};
use vstd::prelude::*;

verus! {

/// The text of a system message that has one that is not blank.
pub open spec fn system_text(message: MessageSpec) -> Option<Seq<char>> {
    match message.content {
        Some(ContentSpec::Text(text)) => if message.role == "system"@ && !blank(text) {
            Some(text)
        } else {
            None
        },
        _ => None,
    }
}

proof fn lemma_parts(messages: Seq<MessageSpec>)
    ensures
        prompt_parts(messages) == messages.filter_map(|m: MessageSpec| system_text(m)),
    decreases messages.len(),
{
    if messages.len() > 0 {
        lemma_parts(messages.drop_last());
    }
    assert(prompt_parts(messages) =~= messages.filter_map(|m: MessageSpec| system_text(m)));
}

proof fn lemma_others(messages: Seq<MessageSpec>)
    ensures
        other_messages(messages) == messages.filter(|m: MessageSpec| m.role != "system"@),
    decreases messages.len(),
{
    reveal(Seq::filter);
    if messages.len() > 0 {
        lemma_others(messages.drop_last());
    }
    assert(other_messages(messages) =~= messages.filter(|m: MessageSpec| m.role != "system"@));
}

/// Messages whose system message leads are sent as they are. Of any others the system messages
/// become one that leads, with their texts in order and a blank line between any two, and the rest
/// follows in order; where none of the texts is more than blank, only the rest is sent.
pub proof fn law_system_messages_become_one(messages: Seq<MessageSpec>)
    ensures
        ({
            let orderly = forall|i: int|
                0 < i < messages.len() ==> (#[trigger] messages[i]).role != "system"@;
            let out = with_system_first(messages);
            let found = messages.filter_map(|m: MessageSpec| system_text(m));
            let rest = messages.filter(|m: MessageSpec| m.role != "system"@);
            &&& orderly ==> out == messages
            &&& !orderly && found.len() == 0 ==> out == rest
            &&& !orderly && found.len() > 0 ==> {
                &&& out.len() == rest.len() + 1
                &&& out[0].role == "system"@
                &&& out[0].content == Some(ContentSpec::Text(join(found, "\n\n"@)))
                &&& out[0].reasoning_content is None
                &&& out[0].tool_calls is None
                &&& out[0].tool_call_id is None
                &&& out.skip(1) == rest
            }
        }),
{
    lemma_parts(messages);
    lemma_others(messages);
    let orderly = forall|i: int|
        0 < i < messages.len() ==> (#[trigger] messages[i]).role != "system"@;
    assert(orderly == system_first(messages)) by {
        if orderly {
            assert(system_first(messages));
        }
        if system_first(messages) {
            assert forall|i: int| 0 < i < messages.len() implies (#[trigger] messages[i]).role
                != "system"@ by {
                assert(!system_message(messages[i]));
            }
        }
    }
    let out = with_system_first(messages);
    let found = messages.filter_map(|m: MessageSpec| system_text(m));
    if !orderly && found.len() > 0 {
        assert(out.skip(1) =~= other_messages(messages));
    }
}

/// An error names a message by its number: the first `messages[`, a number up to the first `]`,
/// and `.content` right behind it.
pub proof fn law_rejected_message_is_named(
    before: Seq<char>,
    number: Seq<char>,
    behind: Seq<char>,
)
    requires
        number.len() > 0,
        forall|i: int| 0 <= i < number.len() ==> digit(#[trigger] number[i]),
        decimal(number) <= usize::MAX,
        first_at(
            before + "messages["@ + number + "]"@ + behind,
            "messages["@,
            before.len() as int,
        ),
    ensures
        ({
            let error = before + "messages["@ + number + "]"@ + behind;
            &&& starts_with(behind, ".content"@) ==> rejected_index(error) == Some(decimal(number))
            &&& !starts_with(behind, ".content"@) ==> rejected_index(error) is None
        }),
{
    reveal_strlit("messages[");
    reveal_strlit("]");
    let error = before + "messages["@ + number + "]"@ + behind;
    let n = before.len() as int;
    lemma_find_is(error, "messages["@, n);
    let rest = number + "]"@ + behind;
    assert(error.skip(n + 9) =~= rest);
    let m = number.len() as int;
    let close = "]"@;
    assert(rest.subrange(m, m + 1) =~= close);
    assert forall|j: int| 0 <= j < m implies !#[trigger] occurs_at(rest, close, j) by {
        if occurs_at(rest, close, j) {
            assert(rest.subrange(j, j + 1)[0] == close[0]);
            assert(digit(number[j]));
        }
    }
    lemma_find_is(rest, close, m);
    assert(rest.take(m) =~= number);
    assert(rest.skip(m + 1) =~= behind);
    assert(digit(number[0]));
}

/// A number may have a plus sign before it, and is read as digits otherwise.
pub proof fn law_index_is_a_number(digits: Seq<char>, other: Seq<char>)
    ensures
        digits.len() > 0 && (forall|i: int| 0 <= i < digits.len() ==> digit(#[trigger] digits[i]))
            && decimal(digits) <= usize::MAX ==> index_number(digits) == Some(decimal(digits))
            && index_number(seq!['+'] + digits) == Some(decimal(digits)),
        index_number(Seq::empty()) is None,
        index_number(other) is Some ==> forall|i: int|
            0 < i < other.len() ==> digit(#[trigger] other[i]),
{
    let signed = seq!['+'] + digits;
    assert(signed.skip(1) =~= digits);
    if digits.len() > 0 && (forall|i: int| 0 <= i < digits.len() ==> digit(#[trigger] digits[i])) {
        assert(digit(digits[0]));
    }
    if index_number(other) is Some {
        assert forall|i: int| 0 < i < other.len() implies digit(#[trigger] other[i]) by {
            if other[0] == '+' {
                assert(digit(other.skip(1)[i - 1]));
            }
        }
    }
}

/// Without `messages[` no message is named.
pub proof fn law_no_message_is_named(error: Seq<char>)
    requires
        forall|k: int| !#[trigger] occurs_at(error, "messages["@, k),
    ensures
        rejected_index(error) is None,
{
    assert(split_once(error, "messages["@) is None);
}

/// Content of parts becomes one text, a line for each part in order: a text as it is, an image by
/// a note that it was left out.
pub proof fn law_parts_become_lines(parts: Seq<PartSpec>, last: PartSpec)
    ensures
        ({
            let line = match last {
                PartSpec::Text(text) => text,
                PartSpec::ImageUrl(_) => {
                    "[Image omitted: upstream rejected multipart message content]"@
                },
            };
            &&& flattened(seq![last]) == line
            &&& parts.len() > 0 ==> flattened(parts.push(last)) == flattened(parts) + "\n"@ + line
            &&& flattened(Seq::empty()).len() == 0
        }),
{
    let f = |part: PartSpec|
        match part {
            PartSpec::Text(text) => text,
            PartSpec::ImageUrl(_) => image_placeholder(),
        };
    assert(parts.push(last).map_values(f) =~= parts.map_values(f).push(f(last)));
    assert(parts.push(last).map_values(f).drop_last() =~= parts.map_values(f));
    assert(seq![last].map_values(f) =~= seq![f(last)]);
}

/// The message that an error names gets its content as plain text: its parts as lines, and an
/// empty text where it has none. Text stays.
pub proof fn law_named_content_becomes_text(messages: Seq<MessageSpec>, error: Seq<char>, i: int)
    requires
        rejected_index(error) == Some(i as nat),
        0 <= i < messages.len(),
    ensures
        ({
            let out = canonicalized(messages, error);
            &&& out.len() == messages.len()
            &&& match messages[i].content {
                Some(ContentSpec::Parts(parts)) => {
                    &&& canonical_text(messages, error) is Some
                    &&& out[i].content == Some(ContentSpec::Text(flattened(parts)))
                },
                Some(ContentSpec::Text(_)) => {
                    &&& canonical_text(messages, error) is None
                    &&& out == messages
                },
                None => {
                    &&& canonical_text(messages, error) is Some
                    &&& out[i].content == Some(ContentSpec::Text(Seq::empty()))
                },
            }
        }),
{
}

/// Web tools are those whose type names a web search or a web fetch of some version.
pub proof fn law_web_tools(tool: Tool)
    ensures
        web_tool(tool) <==> tool.tool_type is Some && (starts_with(
            tool.tool_type->0@,
            "web_search_"@,
        ) || starts_with(tool.tool_type->0@, "web_fetch_"@)),
{
}

/// Leaving the web tools out keeps all other tools, in order.
pub proof fn law_other_tools_stay(tools: Seq<Tool>)
    ensures
        without_web_tools(tools) == tools.filter(|t: Tool| !web_tool(t)),
    decreases tools.len(),
{
    reveal(Seq::filter);
    if tools.len() > 0 {
        law_other_tools_stay(tools.drop_last());
    }
    assert(without_web_tools(tools) =~= tools.filter(|t: Tool| !web_tool(t)));
}

/// A request with web tools goes to the agent, where one is configured, and else without them; a
/// request without any goes its plain way.
pub proof fn law_web_tools_decide_the_route(tools: Option<Vec<Tool>>, config: Config)
    ensures
        ({
            let any = tools is Some && exists|i: int|
                0 <= i < tools->0@.len() && web_tool(#[trigger] tools->0@[i]);
            let route = web_route_of(tools, config);
            &&& route is Plain <==> !any
            &&& route is Agent <==> any && config.websearch_model is Some
            &&& route is Strip <==> any && config.websearch_model is None
        }),
{
}

} // verus!
