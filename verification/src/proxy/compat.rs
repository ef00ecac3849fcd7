//! Messages in forms that strict upstreams accept.
use crate::models::openai::{
    messages_view, parts_view, ContentPart, ContentSpec, Message, MessageContent, MessageSpec,
    PartSpec,
};
use crate::text::{
    blank, chars_of, is_blank, join, join_texts, number_up_to, parse_up_to, same_text, split_once,
    split_once_text, starts_with, starts_with_text, texts,
};
use crate::translate::messages::text_message;
use vstd::prelude::*;

verus! {

// ---------------------------------------------------------------------------------------------
// One system message, at the beginning.

pub open spec fn system_message(message: MessageSpec) -> bool {
    message.role == "system"@
}

/// No system message stands anywhere but at the beginning.
pub open spec fn system_first(messages: Seq<MessageSpec>) -> bool {
    forall|i: int| 0 < i < messages.len() ==> !system_message(#[trigger] messages[i])
}

/// The texts of the system messages that are not blank, in order.
pub open spec fn prompt_parts(messages: Seq<MessageSpec>) -> Seq<Seq<char>>
    decreases messages.len(),
{
    if messages.len() == 0 {
        Seq::empty()
    } else {
        let before = prompt_parts(messages.drop_last());
        match messages.last().content {
            Some(ContentSpec::Text(text)) => if system_message(messages.last()) && !blank(text) {
                before.push(text)
            } else {
                before
            },
            _ => before,
        }
    }
}

/// The messages that are no system messages, in order.
pub open spec fn other_messages(messages: Seq<MessageSpec>) -> Seq<MessageSpec>
    decreases messages.len(),
{
    if messages.len() == 0 {
        Seq::empty()
    } else {
        let before = other_messages(messages.drop_last());
        if system_message(messages.last()) {
            before
        } else {
            before.push(messages.last())
        }
    }
}

/// The messages with their system messages made one, which leads. Messages that are in order
/// stay as they are.
pub open spec fn with_system_first(messages: Seq<MessageSpec>) -> Seq<MessageSpec> {
    if system_first(messages) {
        messages
    } else if prompt_parts(messages).len() == 0 {
        other_messages(messages)
    } else {
        seq![text_message("system"@, join(prompt_parts(messages), "\n\n"@))] + other_messages(
            messages,
        )
    }
}

fn is_system_first(messages: &Vec<Message>) -> (r: bool)
    ensures
        r == system_first(messages_view(messages@)),
{
    let ghost view = messages_view(messages@);
    let mut i: usize = 1;
    while i < messages.len()
        invariant
            1 <= i,
            i <= messages@.len() || i == 1,
            view == messages_view(messages@),
            forall|j: int| 0 < j < i && j < view.len() ==> !system_message(#[trigger] view[j]),
        decreases messages@.len() - i,
    {
        if same_text(messages[i].role.as_str(), "system") {
            assert(system_message(view[i as int]));
            return false;
        }
        i += 1;
    }
    true
}

/// Collapses all system messages into a single leading one.
pub fn normalize_system_first(messages: &mut Vec<Message>)
    ensures
        messages_view(final(messages)@) == with_system_first(messages_view(old(messages)@)),
{
    if is_system_first(messages) {
        return;
    }
    let ghost view = messages_view(messages@);
    let ghost all = messages@;
    let mut owned: Vec<Message> = Vec::new();
    std::mem::swap(messages, &mut owned);
    let mut parts: Vec<String> = Vec::new();
    let mut rest: Vec<Message> = Vec::new();
    assert(view.take(0) =~= Seq::empty());
    assert(texts(parts@) =~= Seq::empty());
    assert(messages_view(rest@) =~= Seq::empty());
    for m in it: owned
        invariant
            it.seq() == all,
            view == messages_view(all),
            texts(parts@) == prompt_parts(view.take(it.index() as int)),
            messages_view(rest@) == other_messages(view.take(it.index() as int)),
    {
        let ghost next = view.take(it.index() + 1);
        assert(next.drop_last() =~= view.take(it.index() as int));
        assert(next.last() == m@);
        if same_text(m.role.as_str(), "system") {
            match &m.content {
                Some(MessageContent::Text(text)) => {
                    if !is_blank(text.as_str()) {
                        parts.push(text.clone());
                    }
                },
                _ => {},
            }
        } else {
            rest.push(m);
        }
        assert(texts(parts@) =~= prompt_parts(next));
        assert(messages_view(rest@) =~= other_messages(next));
    }
    assert(view.take(view.len() as int) =~= view);
    let mut out: Vec<Message> = Vec::new();
    if parts.len() > 0 {
        out.push(
            Message {
                role: "system".to_owned(),
                content: Some(MessageContent::Text(join_texts(&parts, "\n\n"))),
                reasoning_content: None,
                tool_calls: None,
                tool_call_id: None,
            },
        );
    }
    out.append(&mut rest);
    *messages = out;
    assert(messages_view(messages@) =~= with_system_first(view));
}

// ---------------------------------------------------------------------------------------------
// Content that an upstream has rejected.

/// A machine-sized number as Rust reads it: digits, which a plus sign may precede.
pub open spec fn index_number(s: Seq<char>) -> Option<nat> {
    number_up_to(
        if s.len() > 0 && s[0] == '+' {
            s.skip(1)
        } else {
            s
        },
        usize::MAX as nat,
    )
}

/// The message whose content an error names. The first `messages[N]` in the error counts, and
/// `.content` has to follow it directly.
pub open spec fn rejected_index(error: Seq<char>) -> Option<nat> {
    match split_once(error, "messages["@) {
        Some((_, rest)) => match split_once(rest, "]"@) {
            Some((index, suffix)) => if starts_with(suffix, ".content"@) {
                index_number(index)
            } else {
                None
            },
            None => None,
        },
        None => None,
    }
}

pub fn parse_rejected_message_index(error: &str) -> (r: Option<usize>)
    ensures
        match r {
            Some(n) => rejected_index(error@) == Some(n as nat),
            None => rejected_index(error@) is None,
        },
{
    match split_once_text(error, "messages[") {
        Some((_, rest)) => match split_once_text(rest.as_str(), "]") {
            Some((index, suffix)) => {
                if !starts_with_text(suffix.as_str(), ".content") {
                    return None;
                }
                let chars = chars_of(index.as_str());
                let n = chars.len();
                let from: usize = if n > 0 && chars[0] == '+' {
                    1
                } else {
                    0
                };
                assert(chars@.subrange(from as int, n as int) =~= if from == 1 {
                    index@.skip(1)
                } else {
                    index@
                });
                match parse_up_to(&chars, from, n, usize::MAX as u64) {
                    Some(number) => Some(number as usize),
                    None => None,
                }
            },
            None => None,
        },
        None => None,
    }
}

/// What stands in the text for an image.
pub open spec fn image_placeholder() -> Seq<char> {
    "[Image omitted: upstream rejected multipart message content]"@
}

/// The parts as one text, a line break between any two.
pub open spec fn flattened(parts: Seq<PartSpec>) -> Seq<char> {
    join(
        parts.map_values(
            |part: PartSpec|
                match part {
                    PartSpec::Text(text) => text,
                    PartSpec::ImageUrl(_) => image_placeholder(),
                },
        ),
        "\n"@,
    )
}

/// Content as plain text, where it is not that already.
pub open spec fn plain_text(content: Option<ContentSpec>) -> Option<Seq<char>> {
    match content {
        Some(ContentSpec::Parts(parts)) => Some(flattened(parts)),
        Some(ContentSpec::Text(_)) => None,
        None => Some(Seq::empty()),
    }
}

/// The text that the content named by an error becomes; `None` where the error names no message
/// or the content is text already.
pub open spec fn canonical_text(messages: Seq<MessageSpec>, error: Seq<char>) -> Option<Seq<char>> {
    match rejected_index(error) {
        Some(index) => if index < messages.len() {
            plain_text(messages[index as int].content)
        } else {
            None
        },
        None => None,
    }
}

/// The messages with the named content made text.
pub open spec fn canonicalized(messages: Seq<MessageSpec>, error: Seq<char>) -> Seq<MessageSpec> {
    match canonical_text(messages, error) {
        Some(text) => {
            let index = rejected_index(error)->0 as int;
            messages.update(
                index,
                MessageSpec { content: Some(ContentSpec::Text(text)), ..messages[index] },
            )
        },
        None => messages,
    }
}

fn flatten_parts(parts: &Vec<ContentPart>) -> (r: String)
    ensures
        r@ == flattened(parts_view(parts@)),
{
    let ghost view = parts_view(parts@).map_values(
        |part: PartSpec|
            match part {
                PartSpec::Text(text) => text,
                PartSpec::ImageUrl(_) => image_placeholder(),
            },
    );
    let mut found: Vec<String> = Vec::new();
    let mut i: usize = 0;
    while i < parts.len()
        invariant
            i <= parts@.len(),
            found@.len() == i,
            view.len() == parts@.len(),
            forall|j: int|
                0 <= j < parts@.len() ==> #[trigger] view[j] == match parts@[j]@ {
                    PartSpec::Text(text) => text,
                    PartSpec::ImageUrl(_) => image_placeholder(),
                },
            forall|j: int| 0 <= j < i ==> (#[trigger] found@[j])@ == view[j],
        decreases parts@.len() - i,
    {
        let text = match &parts[i] {
            ContentPart::Text { text } => text.clone(),
            ContentPart::ImageUrl { .. } => {
                "[Image omitted: upstream rejected multipart message content]".to_owned()
            },
        };
        found.push(text);
        i += 1;
    }
    assert(texts(found@) =~= view);
    join_texts(&found, "\n")
}

/// Makes the content that an error names plain text. Returns whether there was anything to do.
pub fn canonicalize_rejected_message_content(messages: &mut Vec<Message>, error: &str) -> (r: bool)
    ensures
        r == (canonical_text(messages_view(old(messages)@), error@) is Some),
        messages_view(final(messages)@) == canonicalized(messages_view(old(messages)@), error@),
{
    let ghost view = messages_view(messages@);
    let index = match parse_rejected_message_index(error) {
        Some(index) => index,
        None => {
            return false;
        },
    };
    if index >= messages.len() {
        return false;
    }
    assert(view[index as int] == messages@[index as int]@);
    let text = match &messages[index].content {
        Some(MessageContent::Parts(parts)) => flatten_parts(parts),
        Some(MessageContent::Text(_)) => {
            return false;
        },
        None => String::new(),
    };
    messages[index].content = Some(MessageContent::Text(text));
    assert(messages_view(messages@) =~= canonicalized(view, error@));
    true
}

// ---------------------------------------------------------------------------------------------
// Laws.

proof fn lemma_others_are_no_system(messages: Seq<MessageSpec>)
    ensures
        forall|i: int|
            0 <= i < other_messages(messages).len() ==> !system_message(
                #[trigger] other_messages(messages)[i],
            ),
    decreases messages.len(),
{
    if messages.len() > 0 {
        let before = other_messages(messages.drop_last());
        let all = other_messages(messages);
        lemma_others_are_no_system(messages.drop_last());
        assert forall|i: int| 0 <= i < all.len() implies !system_message(#[trigger] all[i]) by {
            if i < before.len() {
                assert(all[i] == before[i]);
            }
        }
    }
}

/// Behind a system message, messages that are none stay as they are.
proof fn lemma_others_behind(first: Seq<MessageSpec>, rest: Seq<MessageSpec>)
    requires
        first.len() == 0 || first.len() == 1 && system_message(first[0]),
        forall|i: int| 0 <= i < rest.len() ==> !system_message(#[trigger] rest[i]),
    ensures
        other_messages(first + rest) == rest,
        prompt_parts(first + rest) == prompt_parts(first),
    decreases rest.len(),
{
    if rest.len() == 0 {
        assert(first + rest =~= first);
        if first.len() == 1 {
            assert(first.drop_last() =~= Seq::empty());
            assert(other_messages(first.drop_last()) =~= Seq::empty());
        }
        assert(other_messages(first) =~= rest);
    } else {
        let whole = first + rest;
        assert(whole.drop_last() =~= first + rest.drop_last());
        assert(whole.last() == rest.last());
        assert(!system_message(rest[rest.len() - 1]));
        lemma_others_behind(first, rest.drop_last());
        assert(other_messages(whole) =~= rest);
    }
}

proof fn lemma_parts_not_blank(messages: Seq<MessageSpec>)
    ensures
        forall|i: int|
            0 <= i < prompt_parts(messages).len() ==> !blank(#[trigger] prompt_parts(messages)[i]),
    decreases messages.len(),
{
    if messages.len() > 0 {
        let before = prompt_parts(messages.drop_last());
        let all = prompt_parts(messages);
        lemma_parts_not_blank(messages.drop_last());
        assert forall|i: int| 0 <= i < all.len() implies !blank(#[trigger] all[i]) by {
            if i < before.len() {
                assert(all[i] == before[i]);
            }
        }
    }
}

/// Text with something in it is not blank, whatever stands before it.
proof fn lemma_not_blank_behind(before: Seq<char>, text: Seq<char>)
    requires
        !blank(text),
    ensures
        !blank(before + text),
{
    let i = choose|i: int| 0 <= i < text.len() && !crate::text::space(#[trigger] text[i]);
    assert((before + text)[before.len() + i] == text[i]);
}

proof fn lemma_joined_not_blank(parts: Seq<Seq<char>>, separator: Seq<char>)
    requires
        parts.len() > 0,
        forall|i: int| 0 <= i < parts.len() ==> !blank(#[trigger] parts[i]),
    ensures
        !blank(join(parts, separator)),
{
    assert(!blank(parts[parts.len() - 1]));
    if parts.len() > 1 {
        lemma_not_blank_behind(join(parts.drop_last(), separator) + separator, parts.last());
    }
}

/// What is sent has at most one system message, and it leads.
pub proof fn law_system_message_leads(messages: Seq<MessageSpec>)
    ensures
        system_first(with_system_first(messages)),
{
    lemma_others_are_no_system(messages);
    let result = with_system_first(messages);
    let others = other_messages(messages);
    if !system_first(messages) {
        let skipped = result.len() - others.len();
        assert forall|i: int| 0 < i < result.len() implies !system_message(#[trigger] result[i]) by {
            assert(result[i] == others[i - skipped]);
        }
    }
}

/// Collapsing again changes nothing.
pub proof fn law_system_first_is_idempotent(messages: Seq<MessageSpec>)
    ensures
        with_system_first(with_system_first(messages)) == with_system_first(messages),
{
    law_system_message_leads(messages);
}

/// Collapsing keeps every other message, in order, and the text of the system prompts.
pub proof fn law_system_first_keeps_messages(messages: Seq<MessageSpec>)
    ensures
        other_messages(with_system_first(messages)) == other_messages(messages),
        join(prompt_parts(with_system_first(messages)), "\n\n"@) == join(
            prompt_parts(messages),
            "\n\n"@,
        ),
{
    if !system_first(messages) {
        lemma_others_are_no_system(messages);
        let others = other_messages(messages);
        let parts = prompt_parts(messages);
        if parts.len() == 0 {
            let none = Seq::<MessageSpec>::empty();
            lemma_others_behind(none, others);
            assert(none + others =~= others);
            assert(prompt_parts(none) =~= parts);
        } else {
            let text = join(parts, "\n\n"@);
            let first = seq![text_message("system"@, text)];
            lemma_others_behind(first, others);
            lemma_parts_not_blank(messages);
            lemma_joined_not_blank(parts, "\n\n"@);
            assert(first.drop_last() =~= Seq::empty());
            assert(prompt_parts(first.drop_last()) =~= Seq::empty());
            assert(first.last() == text_message("system"@, text));
            assert(prompt_parts(first) =~= seq![text]);
        }
    }
}

/// Making rejected content plain touches no message but the one that the error names, and of
/// that one only the content.
pub proof fn law_only_the_named_message_changes(
    messages: Seq<MessageSpec>,
    error: Seq<char>,
    i: int,
)
    requires
        0 <= i < messages.len(),
    ensures
        canonicalized(messages, error).len() == messages.len(),
        rejected_index(error) != Some(i as nat) ==> canonicalized(messages, error)[i]
            == messages[i],
        canonicalized(messages, error)[i] == (MessageSpec {
            content: canonicalized(messages, error)[i].content,
            ..messages[i]
        }),
{
}

/// The same error finds nothing to do a second time.
pub proof fn law_canonicalized_once(messages: Seq<MessageSpec>, error: Seq<char>)
    ensures
        canonical_text(canonicalized(messages, error), error) is None,
        canonicalized(canonicalized(messages, error), error) == canonicalized(messages, error),
{
}

} // verus!
