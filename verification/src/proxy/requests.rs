//! What goes out for a request, and what is logged of it.
use crate::config::Config;
use crate::json::{
    comes_first, json_string, json_text, number_is_f64, plain_json, raw_key, unsigned_number, Json,
    JsonSpec, MAX_DEPTH,
};
use crate::models::anthropic::{AnthropicRequest, CountTokensRequest};
use crate::models::openai::{OpenAIRequest, OpenAIRequestSpec};
use crate::models::{copy_opt, opt_text};
use crate::text::{copy_texts, text_before, texts};
use crate::translate::pipeline::{
    translate_request, translated_request, PolicySpec, TranslationPolicy,
};
use vstd::prelude::*;

verus! {

// ---------------------------------------------------------------------------------------------
// The configuration at work.

/// The key for the upstream: the client's own, unless it is empty, where keys are handed on, and
/// the configured one where they are not.
pub open spec fn api_key(config: Config, client_key: Option<Seq<char>>) -> Option<Seq<char>> {
    if config.passthrough_api_key {
        match client_key {
            Some(key) => if key.len() == 0 {
                None
            } else {
                Some(key)
            },
            None => None,
        }
    } else {
        opt_text(config.api_key)
    }
}

/// Resolves the key for the upstream. `client_key` is the client's `x-api-key` header, where it
/// has one that is text.
pub fn resolve_api_key(config: &Config, client_key: Option<&str>) -> (r: Option<String>)
    ensures
        opt_text(r) == api_key(
            *config,
            match client_key {
                Some(key) => Some(key@),
                None => None,
            },
        ),
{
    if config.passthrough_api_key {
        match client_key {
            Some(key) => if key.is_empty() {
                None
            } else {
                Some(key.to_owned())
            },
            None => None,
        }
    } else {
        copy_opt(&config.api_key)
    }
}

/// What the configuration says on translating.
pub open spec fn configured_policy(config: Config) -> PolicySpec {
    PolicySpec {
        reasoning_model: opt_text(config.reasoning_model),
        completion_model: opt_text(config.completion_model),
        model_map: config.model_map@,
        effort_map: config.effort_map@,
        ignore_terms: texts(config.system_prompt_ignore_terms@),
    }
}

pub fn translation_policy(config: &Config) -> (policy: TranslationPolicy)
    ensures
        policy@ == configured_policy(*config),
{
    TranslationPolicy {
        reasoning_model: copy_opt(&config.reasoning_model),
        completion_model: copy_opt(&config.completion_model),
        model_map: config.model_map.clone(),
        effort_map: config.effort_map.clone(),
        ignore_terms: copy_texts(&config.system_prompt_ignore_terms),
    }
}

// ---------------------------------------------------------------------------------------------
// Counting tokens upstream.

/// A count request as the chat request that it counts for.
pub open spec fn chat_request(req: CountTokensRequest) -> AnthropicRequest {
    AnthropicRequest {
        model: req.model,
        messages: req.messages,
        max_tokens: 1,
        system: req.system,
        temperature: None,
        top_p: None,
        top_k: None,
        stop_sequences: None,
        stream: None,
        tools: req.tools,
        metadata: None,
        tool_choice: None,
        extra: Json::Null,
    }
}

/// The request that the upstream counts. There is none where the upstream cannot count, and none
/// for a request without a model.
pub open spec fn counted_upstream(req: CountTokensRequest, config: Config) -> Option<
    OpenAIRequestSpec,
> {
    let translated = translated_request(chat_request(req), configured_policy(config));
    if config.upstream_tokenize && translated.model.len() > 0 {
        Some(translated)
    } else {
        None
    }
}

/// Translates a count request like the chat request that it counts for, so that what is counted
/// is what a model is fed.
pub fn upstream_count_request(req: CountTokensRequest, config: &Config) -> (r: Option<OpenAIRequest>)
    ensures
        match r {
            Some(request) => counted_upstream(req, *config) == Some(request@),
            None => counted_upstream(req, *config) is None,
        },
{
    if !config.upstream_tokenize {
        return None;
    }
    let ghost chat = chat_request(req);
    let request = AnthropicRequest {
        model: req.model,
        messages: req.messages,
        max_tokens: 1,
        system: req.system,
        temperature: None,
        top_p: None,
        top_k: None,
        stop_sequences: None,
        stream: None,
        tools: req.tools,
        metadata: None,
        tool_choice: None,
        extra: Json::Null,
    };
    match translate_request(request, &translation_policy(config)) {
        Ok(translated) => if translated.model.as_str().is_empty() {
            None
        } else {
            Some(translated)
        },
        Err(_) => None,
    }
}

// ---------------------------------------------------------------------------------------------
// Logging.

/// How many items a value has, where it is an array.
pub open spec fn item_count(value: Option<JsonSpec>) -> nat {
    match value {
        Some(JsonSpec::Array(items)) => items.len(),
        _ => 0,
    }
}

/// How many blocks a system prompt has. A string is one.
pub open spec fn system_blocks(system: Option<JsonSpec>) -> nat {
    match system {
        Some(JsonSpec::Array(items)) => items.len(),
        Some(JsonSpec::String(_)) => 1,
        _ => 0,
    }
}

/// What a tool is called in the log: its type, or else its name, or else a question mark.
pub open spec fn tool_label(tool: JsonSpec) -> Seq<char> {
    let field = match tool.get("type"@) {
        Some(value) => Some(value),
        None => tool.get("name"@),
    };
    match field {
        Some(value) => match value.as_str() {
            Some(label) => label,
            None => "?"@,
        },
        None => "?"@,
    }
}

pub open spec fn tool_labels(tools: Option<JsonSpec>) -> Seq<JsonSpec> {
    match tools {
        Some(JsonSpec::Array(items)) => items.map_values(
            |tool: JsonSpec| JsonSpec::String(tool_label(tool)),
        ),
        _ => Seq::empty(),
    }
}

/// A count as JSON.
pub open spec fn count_json(n: nat) -> JsonSpec {
    JsonSpec::Number(unsigned_number(n as u64))
}

/// A request without its bulk: how many messages, tools and system blocks it has, what the tools
/// are called, and every other field.
pub open spec fn fields_summary(request: JsonSpec) -> JsonSpec {
    match request {
        JsonSpec::Object(members) => JsonSpec::Object(
            members.remove("messages"@).remove("tools"@).remove("system"@).insert(
                "messages_count"@,
                count_json(item_count(request.get("messages"@))),
            ).insert("tools_count"@, count_json(item_count(request.get("tools"@)))).insert(
                "tools"@,
                JsonSpec::Array(tool_labels(request.get("tools"@))),
            ).insert("system_blocks"@, count_json(system_blocks(request.get("system"@)))),
        ),
        other => other,
    }
}

fn count_items(value: Option<&Json>) -> (n: usize)
    ensures
        n == item_count(
            match value {
                Some(value) => Some(value@),
                None => None,
            },
        ),
{
    match value {
        Some(value) => match value {
            Json::Array(items) => items.len(),
            _ => 0,
        },
        None => 0,
    }
}

fn count_system_blocks(value: Option<&Json>) -> (n: usize)
    ensures
        n == system_blocks(
            match value {
                Some(value) => Some(value@),
                None => None,
            },
        ),
{
    match value {
        Some(value) => match value {
            Json::Array(items) => items.len(),
            Json::String(_) => 1,
            _ => 0,
        },
        None => 0,
    }
}

fn label_of_tool(tool: &Json) -> (r: String)
    ensures
        r@ == tool_label(tool@),
{
    let field = match tool.get("type") {
        Some(value) => Some(value),
        None => tool.get("name"),
    };
    match field {
        Some(value) => match value.as_str() {
            Some(label) => label.to_owned(),
            None => "?".to_owned(),
        },
        None => "?".to_owned(),
    }
}

fn labels_of_tools(value: Option<&Json>) -> (r: Json)
    ensures
        r@ == JsonSpec::Array(
            tool_labels(
                match value {
                    Some(value) => Some(value@),
                    None => None,
                },
            ),
        ),
{
    let ghost expected = tool_labels(
        match value {
            Some(value) => Some(value@),
            None => None,
        },
    );
    let mut labels: Vec<Json> = Vec::new();
    match value {
        Some(value) => match value {
            Json::Array(items) => {
                let mut i: usize = 0;
                while i < items.len()
                    invariant
                        i <= items@.len(),
                        labels@.len() == i,
                        forall|j: int|
                            0 <= j < i ==> (#[trigger] labels@[j])@ == JsonSpec::String(
                                tool_label(items@[j]@),
                            ),
                    decreases items@.len() - i,
                {
                    labels.push(Json::String(label_of_tool(&items[i])));
                    i += 1;
                }
            },
            _ => {},
        },
        None => {},
    }
    let r = Json::Array(labels);
    assert(r@->Array_0 =~= expected);
    r
}

/// Replaces the bulky fields of a request by counts. A plain value stays one, so that its text
/// reads back.
pub fn summarize_fields(request: Json) -> (r: Json)
    ensures
        r@ == fields_summary(request@),
        plain_json(request@, MAX_DEPTH as nat) ==> plain_json(r@, MAX_DEPTH as nat),
{
    let ghost source = request@;
    match request {
        Json::Object(members) => {
            let messages = count_items(members.get("messages"));
            let tools = count_items(members.get("tools"));
            let labels = labels_of_tools(members.get("tools"));
            let system = count_system_blocks(members.get("system"));
            let r = Json::Object(
                members.remove("messages").remove("tools").remove("system").insert(
                    "messages_count".to_owned(),
                    Json::from_u64(messages as u64),
                ).insert("tools_count".to_owned(), Json::from_u64(tools as u64)).insert(
                    "tools".to_owned(),
                    labels,
                ).insert("system_blocks".to_owned(), Json::from_u64(system as u64)),
            );
            proof {
                if plain_json(source, MAX_DEPTH as nat) {
                    lemma_plain_summary(source);
                }
            }
            r
        },
        other => other,
    }
}

/// The counts are integers, and the labels are text.
proof fn lemma_plain_summary(request: JsonSpec)
    requires
        request is Object,
        plain_json(request, MAX_DEPTH as nat),
        !number_is_f64(unsigned_number(item_count(request.get("messages"@)) as u64)),
        !number_is_f64(unsigned_number(item_count(request.get("tools"@)) as u64)),
        !number_is_f64(unsigned_number(system_blocks(request.get("system"@)) as u64)),
    ensures
        plain_json(fields_summary(request), MAX_DEPTH as nat),
{
    reveal_strlit("messages");
    reveal_strlit("system");
    reveal_strlit("messages_count");
    reveal_strlit("tools_count");
    reveal_strlit("tools");
    reveal_strlit("system_blocks");
    reveal_strlit("$serde_json::private::RawValue");
    let inner = (MAX_DEPTH - 1) as nat;
    let members = request->Object_0;
    let summary = fields_summary(request)->Object_0;
    let labels = tool_labels(request.get("tools"@));
    assert forall|i: int| 0 <= i < labels.len() implies plain_json(
        #[trigger] labels[i],
        (inner - 1) as nat,
    ) by {
        assert(labels[i] is String);
    }
    assert(plain_json(JsonSpec::Array(labels), inner));
    assert forall|key: Seq<char>| summary.contains_key(key) implies plain_json(
        #[trigger] summary[key],
        inner,
    ) by {
        if key != "messages_count"@ && key != "tools_count"@ && key != "tools"@ && key
            != "system_blocks"@ {
            assert(summary[key] == members[key]);
            assert(members.contains_key(key));
        }
    }
    if comes_first(summary, raw_key()) {
        assert(raw_key()[0] == '$');
        assert(raw_key().len() == 30);
        assert(members.contains_key(raw_key()));
        assert forall|other: Seq<char>| #[trigger] members.contains_key(other) implies !text_before(
            other,
            raw_key(),
        ) by {
            if !summary.contains_key(other) {
                assert(other[0] == 'm' || other[0] == 's');
            }
        }
        assert(comes_first(members, raw_key()));
    }
}

/// The log line for a request, given as JSON. It is the text of a plain value wherever the
/// request is one.
pub fn request_fields_summary(request: Json) -> (line: String)
    ensures
        line@ == json_text(fields_summary(request@)),
        plain_json(request@, MAX_DEPTH as nat) ==> plain_json(
            fields_summary(request@),
            MAX_DEPTH as nat,
        ),
{
    json_string(&summarize_fields(request))
}

} // verus!
