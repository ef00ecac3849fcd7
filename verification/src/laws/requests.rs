//! What goes out for a request.
use crate::config::{resolved_effort, Config};
use crate::json::JsonSpec;
use crate::laws::sequences::lemma_flat_push;
use crate::models::anthropic::{AnthropicRequest, CountTokensRequest, Message, SystemPrompt, Tool};
use crate::models::openai::ContentSpec;
use crate::models::opt_text;
use crate::proxy::requests::{api_key, chat_request, configured_policy, counted_upstream};
use crate::text::{blank, join, lowered, texts, trim};
use crate::translate::messages::translated_message;
use crate::translate::pipeline::{
    kept_texts, sanitized, system_messages, system_texts, translated_messages, translated_request,
    translated_tools, PolicySpec,
};
use crate::translate::tools::{batch_tool, parallel_calls, translated_choice, translated_tool};
use vstd::prelude::*;

verus! {

/// What the client says about the answer goes out as it says it: the output limit, how it is
/// sampled, where it stops, and whether it is streamed. Usage is asked for in a stream.
pub proof fn law_wishes_go_out(req: AnthropicRequest, policy: PolicySpec)
    ensures
        ({
            let out = translated_request(req, policy);
            &&& out.max_tokens == Some(req.max_tokens)
            &&& out.temperature == req.temperature
            &&& out.top_p == req.top_p
            &&& out.stream == req.stream
            &&& req.stop_sequences is None ==> out.stop is None
            &&& req.stop_sequences is Some ==> out.stop is Some && out.stop->0.len()
                == req.stop_sequences->0@.len() && forall|i: int|
                0 <= i < req.stop_sequences->0@.len() ==> #[trigger] out.stop->0[i]
                    == req.stop_sequences->0@[i]@
            &&& req.stream == Some(true) ==> out.stream_options is Some
                && out.stream_options->0.include_usage
            &&& req.stream != Some(true) ==> out.stream_options is None
        }),
{
}

/// The user that the metadata name goes out, and no other.
pub proof fn law_user_goes_out(req: AnthropicRequest, policy: PolicySpec)
    ensures
        ({
            let named = match req.metadata {
                Some(metadata) => metadata@.get("user_id"@),
                None => None,
            };
            &&& named matches Some(JsonSpec::String(id)) ==> translated_request(req, policy).user
                == Some(id)
            &&& !(named matches Some(JsonSpec::String(_))) ==> translated_request(req, policy).user
                is None
        }),
{
}

/// The request asks for extended thinking: its `thinking` is of the type "enabled".
pub open spec fn asks_to_think(extra: JsonSpec) -> bool {
    extra.get("thinking"@) is Some && extra.get("thinking"@)->0.get("type"@) == Some(
        JsonSpec::String("enabled"@),
    )
}

/// The model: for a request that asks to think the configured reasoning model, for any other the
/// completion model, or else the client's own; and whatever it is, what it is mapped to.
pub proof fn law_model_is_routed_and_mapped(req: AnthropicRequest, policy: PolicySpec)
    ensures
        ({
            let out = translated_request(req, policy).model;
            let map = policy.model_map;
            let mapped = |name: Seq<char>|
                if map.contains_key(name) {
                    map[name]
                } else {
                    name
                };
            &&& asks_to_think(req.extra@) && policy.reasoning_model is Some ==> out == mapped(
                policy.reasoning_model->0,
            )
            &&& asks_to_think(req.extra@) && policy.reasoning_model is None ==> out == mapped(
                req.model@,
            )
            &&& !asks_to_think(req.extra@) && policy.completion_model is Some ==> out == mapped(
                policy.completion_model->0,
            )
            &&& !asks_to_think(req.extra@) && policy.completion_model is None ==> out == mapped(
                req.model@,
            )
        }),
{
}

/// An effort that the client gives goes out trimmed and in lower case: that of its output
/// configuration, or else the one at the top.
pub proof fn law_given_effort_goes_out(req: AnthropicRequest, policy: PolicySpec)
    ensures
        ({
            let extra = req.extra@;
            let own = match extra.get("output_config"@) {
                Some(config) => config.get("effort"@),
                None => None,
            };
            let out = translated_request(req, policy).reasoning_effort;
            &&& own matches Some(JsonSpec::String(text)) ==> out == Some(lowered(trim(text)))
            &&& own is None ==> (extra.get("effort"@) matches Some(JsonSpec::String(text)) ==> out
                == Some(lowered(trim(text))))
        }),
{
}

/// Without a text for one, a request that asks to think gets the effort that the map has for the
/// client's model and the budget, of which no more than 16384 counts, and which is 0 where no
/// number is given; any other request gets none.
pub proof fn law_budget_gives_the_effort(req: AnthropicRequest, policy: PolicySpec, budget: u64)
    requires
        ({
            let own = match req.extra@.get("output_config"@) {
                Some(config) => config.get("effort"@),
                None => None,
            };
            let top = req.extra@.get("effort"@);
            ||| own is Some && !(own->0 is String)
            ||| own is None && top is None
            ||| own is None && !(top->0 is String)
        }),
    ensures
        ({
            let extra = req.extra@;
            let out = translated_request(req, policy).reasoning_effort;
            let given = extra.get("thinking"@)->0.get("budget_tokens"@);
            &&& !asks_to_think(extra) ==> out is None
            &&& asks_to_think(extra) && given is Some && given->0.as_u64() == Some(budget) ==> out
                == resolved_effort(
                policy.effort_map,
                req.model@,
                if budget <= 16384 {
                    budget as u32
                } else {
                    16384
                },
            )
            &&& asks_to_think(extra) && (given is None || given->0.as_u64() is None) ==> out == resolved_effort(
                policy.effort_map,
                req.model@,
                0,
            )
        }),
{
}

/// A schema for the output goes out under the name "response" and strict, with its description,
/// where it has one. A format of any other type, and one without an object for its schema, does
/// not go out.
pub proof fn law_output_schema_goes_out(req: AnthropicRequest, policy: PolicySpec)
    ensures
        ({
            let format = match req.extra@.get("output_config"@) {
                Some(config) => config.get("format"@),
                None => None,
            };
            let out = translated_request(req, policy).response_format;
            let fits = format is Some && format->0.get("type"@) == Some(
                JsonSpec::String("json_schema"@),
            ) && format->0.get("schema"@) is Some && format->0.get("schema"@)->0 is Object;
            &&& out is Some <==> fits
            &&& fits ==> {
                let named = out->0.get("json_schema"@);
                let described = format->0.get("description"@);
                &&& out->0.get("type"@) == Some(JsonSpec::String("json_schema"@))
                &&& named is Some
                &&& named->0.get("name"@) == Some(JsonSpec::String("response"@))
                &&& named->0.get("strict"@) == Some(JsonSpec::Bool(true))
                &&& named->0.get("schema"@) == format->0.get("schema"@)
                &&& described matches Some(JsonSpec::String(_)) ==> named->0.get("description"@)
                    == described
                &&& !(described matches Some(JsonSpec::String(_))) ==> named->0.get(
                    "description"@,
                ) is None
            }
        }),
{
    reveal_strlit("type");
    reveal_strlit("json_schema");
    reveal_strlit("name");
    reveal_strlit("strict");
    reveal_strlit("schema");
    reveal_strlit("description");
    assert("type"@.len() == 4 && "json_schema"@.len() == 11 && "name"@.len() == 4
        && "strict"@.len() == 6 && "schema"@.len() == 6 && "description"@.len() == 11);
    assert("strict"@[1] == 't' && "schema"@[1] == 'c');
    assert("name"@[0] == 'n' && "type"@[0] == 't');
}

/// The messages go out one after another, behind the system message, each as it goes out alone.
pub proof fn law_messages_go_out_in_order(req: AnthropicRequest, policy: PolicySpec)
    ensures
        translated_request(req, policy).messages == system_messages(
            req.system,
            policy.ignore_terms,
        ) + req.messages@.map_values(|m: Message| translated_message(m)).flatten(),
{
    lemma_messages_flat(req.messages@);
}

proof fn lemma_messages_flat(messages: Seq<Message>)
    ensures
        translated_messages(messages) == messages.map_values(
            |m: Message| translated_message(m),
        ).flatten(),
    decreases messages.len(),
{
    let f = |m: Message| translated_message(m);
    if messages.len() == 0 {
        assert(messages.map_values(f) =~= Seq::empty());
        assert(translated_messages(messages) =~= messages.map_values(f).flatten());
    } else {
        let before = messages.drop_last();
        lemma_messages_flat(before);
        lemma_flat_push(before.map_values(f), f(messages.last()));
        assert(messages.map_values(f) =~= before.map_values(f).push(f(messages.last())));
    }
}

/// The texts of a system prompt: the one, or each of its blocks.
pub open spec fn prompts_of(system: SystemPrompt) -> Seq<Seq<char>> {
    match system {
        SystemPrompt::Single(text) => seq![text@],
        SystemPrompt::Multiple(blocks) => Seq::new(blocks@.len(), |i: int| blocks@[i].text@),
    }
}

/// The system prompt goes out as one system message, its texts without the terms, a blank line
/// between any two, and without those of which nothing is left; none goes out where nothing is
/// left at all.
pub proof fn law_system_prompt_goes_out(system: SystemPrompt, terms: Seq<Seq<char>>)
    ensures
        ({
            let left = prompts_of(system).map_values(|t: Seq<char>| sanitized(t, terms)).filter(
                |t: Seq<char>| !blank(t),
            );
            let out = system_messages(Some(system), terms);
            if left.len() == 0 {
                out.len() == 0
            } else {
                &&& out.len() == 1
                &&& out[0].role == "system"@
                &&& out[0].content == Some(ContentSpec::Text(join(left, "\n\n"@)))
                &&& out[0].reasoning_content is None
                &&& out[0].tool_calls is None
                &&& out[0].tool_call_id is None
            }
        }),
        system_messages(None, terms).len() == 0,
{
    let prompts = prompts_of(system);
    assert(system_texts(system) =~= prompts);
    lemma_left(prompts, terms);
    let left = kept_texts(prompts, terms);
    if left.len() > 0 {
        lemma_kept_not_blank(prompts, terms);
        lemma_joined_is_something(left);
    }
}

proof fn lemma_left(prompts: Seq<Seq<char>>, terms: Seq<Seq<char>>)
    ensures
        kept_texts(prompts, terms) == prompts.map_values(
            |t: Seq<char>| sanitized(t, terms),
        ).filter(|t: Seq<char>| !blank(t)),
    decreases prompts.len(),
{
    reveal(Seq::filter);
    let f = |t: Seq<char>| sanitized(t, terms);
    let p = |t: Seq<char>| !blank(t);
    let all = prompts.map_values(f);
    if prompts.len() > 0 {
        let before = prompts.drop_last();
        lemma_left(before, terms);
        assert(all.drop_last() =~= before.map_values(f));
        assert(all.last() == sanitized(prompts.last(), terms));
    }
    assert(kept_texts(prompts, terms) =~= all.filter(p));
}

proof fn lemma_kept_not_blank(prompts: Seq<Seq<char>>, terms: Seq<Seq<char>>)
    ensures
        forall|i: int|
            0 <= i < kept_texts(prompts, terms).len() ==> (#[trigger] kept_texts(prompts, terms)[i])
                .len() > 0,
    decreases prompts.len(),
{
    if prompts.len() > 0 {
        let before = kept_texts(prompts.drop_last(), terms);
        let all = kept_texts(prompts, terms);
        lemma_kept_not_blank(prompts.drop_last(), terms);
        assert forall|i: int| 0 <= i < all.len() implies (#[trigger] all[i]).len() > 0 by {
            if i < before.len() {
                assert(all[i] == before[i]);
            } else {
                assert(!blank(all[i]));
            }
        }
    }
}

proof fn lemma_joined_is_something(parts: Seq<Seq<char>>)
    requires
        parts.len() > 0,
        forall|i: int| 0 <= i < parts.len() ==> (#[trigger] parts[i]).len() > 0,
    ensures
        join(parts, "\n\n"@).len() > 0,
{
    assert(parts[parts.len() - 1].len() > 0);
}

/// The tools that are no batch tools go out, in order, each as a function; none go out where none
/// are left.
pub proof fn law_tools_go_out(req: AnthropicRequest, policy: PolicySpec)
    ensures
        ({
            let left = match req.tools {
                Some(tools) => tools@.filter(|t: Tool| !batch_tool(t)).map_values(
                    |t: Tool| translated_tool(t),
                ),
                None => Seq::empty(),
            };
            translated_request(req, policy).tools == if left.len() > 0 {
                Some(left)
            } else {
                None
            }
        }),
{
    if req.tools is Some {
        lemma_tools(req.tools->0@);
    }
}

proof fn lemma_tools(tools: Seq<Tool>)
    ensures
        translated_tools(tools) == tools.filter(|t: Tool| !batch_tool(t)).map_values(
            |t: Tool| translated_tool(t),
        ),
    decreases tools.len(),
{
    reveal(Seq::filter);
    let p = |t: Tool| !batch_tool(t);
    let f = |t: Tool| translated_tool(t);
    if tools.len() > 0 {
        lemma_tools(tools.drop_last());
    }
    assert(translated_tools(tools) =~= tools.filter(p).map_values(f));
}

/// The choice among tools goes out where tools do.
pub proof fn law_choice_goes_out_with_tools(req: AnthropicRequest, policy: PolicySpec)
    ensures
        ({
            let out = translated_request(req, policy);
            &&& out.tools is Some && req.tool_choice is Some ==> out.tool_choice
                == translated_choice(req.tool_choice->0@) && out.parallel_tool_calls
                == parallel_calls(req.tool_choice->0@)
            &&& out.tools is None || req.tool_choice is None ==> out.tool_choice is None
                && out.parallel_tool_calls is None
        }),
{
}

/// What an upstream counts is what it would be sent: the messages, the tools and the model of a
/// chat request with the same ones, where that does not ask to think. Nothing is counted where the
/// upstream cannot count or there is no model.
pub proof fn law_counted_like_a_chat(
    req: CountTokensRequest,
    chat: AnthropicRequest,
    config: Config,
)
    requires
        chat.model == req.model,
        chat.messages == req.messages,
        chat.system == req.system,
        chat.tools == req.tools,
        !asks_to_think(chat.extra@),
    ensures
        ({
            let counted = counted_upstream(req, config);
            let sent = translated_request(chat, configured_policy(config));
            &&& counted is Some <==> config.upstream_tokenize && sent.model.len() > 0
            &&& counted is Some ==> {
                &&& counted->0.model == sent.model
                &&& counted->0.messages == sent.messages
                &&& counted->0.tools == sent.tools
            }
        }),
{
    assert(chat_request(req).extra@ is Null);
}

/// A request goes out by what is configured.
pub proof fn law_policy_is_what_is_configured(config: Config)
    ensures
        ({
            let policy = configured_policy(config);
            &&& policy.reasoning_model == opt_text(config.reasoning_model)
            &&& policy.completion_model == opt_text(config.completion_model)
            &&& policy.model_map == config.model_map@
            &&& policy.effort_map == config.effort_map@
            &&& policy.ignore_terms.len() == config.system_prompt_ignore_terms@.len()
            &&& forall|i: int|
                0 <= i < policy.ignore_terms.len() ==> #[trigger] policy.ignore_terms[i]
                    == config.system_prompt_ignore_terms@[i]@
        }),
{
}

/// Where keys are handed on, a client's key is used, unless it is missing or empty, and never the
/// configured one; where they are not, the configured one is used and never the client's.
pub proof fn law_key_of_the_one_or_the_other(config: Config, key: Option<Seq<char>>)
    ensures
        config.passthrough_api_key && key is Some && key->0.len() > 0 ==> api_key(config, key)
            == key,
        config.passthrough_api_key && (key is None || key->0.len() == 0) ==> api_key(config, key)
            is None,
        !config.passthrough_api_key ==> api_key(config, key) == opt_text(config.api_key),
{
}

} // verus!
