//! Whole requests and responses.
use crate::config::{
    highest_tier, resolved_effort, tiers_for, EffortMap, EffortMapSpec, StringMap, MAX_BUDGET,
};
use crate::error::ProxyResult;
use crate::json::{Json, JsonMap, JsonSpec};
use crate::models::anthropic;
use crate::models::openai;
use crate::models::openai::{
    messages_view, opt_json, opt_texts, tools_view, MessageSpec, OpenAIRequestSpec, ToolSpec,
};
use crate::models::opt_text;
use crate::text::{blank, is_blank, join, join_texts, lower_text, lowered, same_text, texts, trim, trim_text};
use crate::translate::elements::{remove_term, without_term};
use crate::proxy::compat::{system_first, system_message, with_system_first};
use crate::translate::messages::{
    text_message, tool_messages, translate_message, translated_message,
};
use crate::translate::tools::{
    batch_tool, is_batch_tool, parallel_calls, translate_tool, translate_tool_choice,
    translated_choice, translated_tool,
};
use vstd::prelude::*;

verus! {

/// How requests are translated.
#[derive(Debug)]
pub struct TranslationPolicy {
    pub reasoning_model: Option<String>,
    pub completion_model: Option<String>,
    pub model_map: StringMap,
    pub effort_map: EffortMap,
    pub ignore_terms: Vec<String>,
}

/// What a policy says.
pub ghost struct PolicySpec {
    pub reasoning_model: Option<Seq<char>>,
    pub completion_model: Option<Seq<char>>,
    pub model_map: Map<Seq<char>, Seq<char>>,
    pub effort_map: EffortMapSpec,
    pub ignore_terms: Seq<Seq<char>>,
}

impl TranslationPolicy {
    pub open spec fn view(&self) -> PolicySpec {
        PolicySpec {
            reasoning_model: opt_text(self.reasoning_model),
            completion_model: opt_text(self.completion_model),
            model_map: self.model_map@,
            effort_map: self.effort_map@,
            ignore_terms: texts(self.ignore_terms@),
        }
    }
}

// ---------------------------------------------------------------------------------------------
// The model.

/// The request asks for extended thinking.
pub open spec fn thinking_enabled(extra: JsonSpec) -> bool {
    match extra.get("thinking"@) {
        Some(thinking) => thinking.str_at("type"@) == Some("enabled"@),
        None => false,
    }
}

/// The model before the map is applied: the configured one for the kind of request, or else the
/// client's.
pub open spec fn routed_model(
    model: Seq<char>,
    extra: JsonSpec,
    policy: PolicySpec,
) -> Seq<char> {
    let configured = if thinking_enabled(extra) {
        policy.reasoning_model
    } else {
        policy.completion_model
    };
    match configured {
        Some(name) => name,
        None => model,
    }
}

/// The model that is asked for upstream.
pub open spec fn selected_model(
    model: Seq<char>,
    extra: JsonSpec,
    policy: PolicySpec,
) -> Seq<char> {
    let routed = routed_model(model, extra, policy);
    if policy.model_map.contains_key(routed) {
        policy.model_map[routed]
    } else {
        routed
    }
}

fn is_thinking(extra: &Json) -> (r: bool)
    ensures
        r == thinking_enabled(extra@),
{
    match extra.get("thinking") {
        Some(thinking) => match thinking.str_at("type") {
            Some(kind) => same_text(kind, "enabled"),
            None => false,
        },
        None => false,
    }
}

/// Selects the upstream model for a request.
pub fn select_model(req: &anthropic::AnthropicRequest, policy: &TranslationPolicy) -> (r: String)
    ensures
        r@ == selected_model(req.model@, req.extra@, policy@),
{
    let configured = if is_thinking(&req.extra) {
        &policy.reasoning_model
    } else {
        &policy.completion_model
    };
    let model = match configured {
        Some(name) => name.clone(),
        None => req.model.clone(),
    };
    match policy.model_map.get(model.as_str()) {
        Some(mapped) => mapped.clone(),
        None => model,
    }
}

// ---------------------------------------------------------------------------------------------
// Reasoning effort.

/// Where the effort itself is given: in the output configuration, or else at the top.
pub open spec fn effort_field(extra: JsonSpec) -> Option<JsonSpec> {
    let configured = match extra.get("output_config"@) {
        Some(config) => config.get("effort"@),
        None => None,
    };
    match configured {
        Some(effort) => Some(effort),
        None => extra.get("effort"@),
    }
}

/// The effort that is given, trimmed and in lower case.
pub open spec fn direct_effort(extra: JsonSpec) -> Option<Seq<char>> {
    match effort_field(extra) {
        Some(effort) => match effort.as_str() {
            Some(text) => Some(lowered(trim(text))),
            None => None,
        },
        None => None,
    }
}

/// The thinking budget as the request gives it; 0 where it gives none.
pub open spec fn given_budget(extra: JsonSpec) -> u64 {
    match extra.get("thinking"@) {
        Some(thinking) => match thinking.get("budget_tokens"@) {
            Some(budget) => match budget.as_u64() {
                Some(n) => n,
                None => 0,
            },
            None => 0,
        },
        None => 0,
    }
}

/// The thinking budget that counts: no more than the limit.
pub open spec fn thinking_budget(extra: JsonSpec) -> u32 {
    if given_budget(extra) > MAX_BUDGET {
        MAX_BUDGET
    } else {
        given_budget(extra) as u32
    }
}

/// The effort asked for upstream: the one given, or else the one that the configured tiers give
/// for the thinking budget.
pub open spec fn requested_effort(
    model: Seq<char>,
    extra: JsonSpec,
    effort_map: EffortMapSpec,
) -> Option<Seq<char>> {
    match direct_effort(extra) {
        Some(effort) => Some(effort),
        None => if thinking_enabled(extra) {
            resolved_effort(effort_map, model, thinking_budget(extra))
        } else {
            None
        },
    }
}

/// Derives the effort for a request.
pub fn resolve_effort(req: &anthropic::AnthropicRequest, effort_map: &EffortMap) -> (r: Option<
    String,
>)
    ensures
        opt_text(r) == requested_effort(req.model@, req.extra@, effort_map@),
{
    let configured = match req.extra.get("output_config") {
        Some(config) => config.get("effort"),
        None => None,
    };
    let field = match configured {
        Some(effort) => Some(effort),
        None => req.extra.get("effort"),
    };
    match field {
        Some(effort) => match effort.as_str() {
            Some(text) => {
                return Some(lower_text(trim_text(text).as_str()));
            },
            None => {},
        },
        None => {},
    }
    if !is_thinking(&req.extra) {
        return None;
    }
    let budget: u64 = match req.extra.get("thinking") {
        Some(thinking) => match thinking.get("budget_tokens") {
            Some(budget) => match budget.as_u64() {
                Some(n) => n,
                None => 0,
            },
            None => 0,
        },
        None => 0,
    };
    let clamped: u32 = if budget > MAX_BUDGET as u64 {
        MAX_BUDGET
    } else {
        budget as u32
    };
    effort_map.resolve(req.model.as_str(), clamped)
}

// ---------------------------------------------------------------------------------------------
// Structured output.

/// The named schema object of a `response_format`.
pub open spec fn named_schema(schema: JsonSpec, description: Option<Seq<char>>) -> JsonSpec {
    let members = map![
        "name"@ => JsonSpec::String("response"@),
        "strict"@ => JsonSpec::Bool(true),
        "schema"@ => schema,
    ];
    match description {
        Some(text) => JsonSpec::Object(members.insert("description"@, JsonSpec::String(text))),
        None => JsonSpec::Object(members),
    }
}

/// What an output format becomes. Only a JSON schema that is an object has a counterpart.
pub open spec fn translated_format(format: JsonSpec) -> Option<JsonSpec> {
    if format.str_at("type"@) == Some("json_schema"@) {
        match format.get("schema"@) {
            Some(schema) => if schema is Object {
                Some(
                    JsonSpec::Object(
                        map![
                            "type"@ => JsonSpec::String("json_schema"@),
                            "json_schema"@ => named_schema(schema, format.str_at("description"@)),
                        ],
                    ),
                )
            } else {
                None
            },
            None => None,
        }
    } else {
        None
    }
}

/// The `response_format` of a request.
pub open spec fn response_format(extra: JsonSpec) -> Option<JsonSpec> {
    match extra.get("output_config"@) {
        Some(config) => match config.get("format"@) {
            Some(format) => translated_format(format),
            None => None,
        },
        None => None,
    }
}

fn format_of_schema(schema: &Json, description: Option<&str>) -> (r: Json)
    ensures
        r@ == JsonSpec::Object(
            map![
                "type"@ => JsonSpec::String("json_schema"@),
                "json_schema"@ => named_schema(
                    schema@,
                    match description {
                        Some(text) => Some(text@),
                        None => None,
                    },
                ),
            ],
        ),
{
    let ghost text = match description {
        Some(text) => Some(text@),
        None => None,
    };
    let named = JsonMap::new().insert("name".to_owned(), Json::from_text("response")).insert(
        "strict".to_owned(),
        Json::Bool(true),
    ).insert("schema".to_owned(), schema.clone());
    let named = match description {
        Some(text) => named.insert("description".to_owned(), Json::from_text(text)),
        None => named,
    };
    assert(named@ =~= named_schema(schema@, text)->Object_0);
    let format = JsonMap::new().insert("type".to_owned(), Json::from_text("json_schema")).insert(
        "json_schema".to_owned(),
        Json::Object(named),
    );
    assert(format@ =~= map![
        "type"@ => JsonSpec::String("json_schema"@),
        "json_schema"@ => named_schema(schema@, text),
    ]);
    Json::Object(format)
}

/// Translates the output format of a request.
pub fn resolve_response_format(req: &anthropic::AnthropicRequest) -> (r: Option<Json>)
    ensures
        opt_json(r) == response_format(req.extra@),
{
    let format = match req.extra.get("output_config") {
        Some(config) => match config.get("format") {
            Some(format) => format,
            None => {
                return None;
            },
        },
        None => {
            return None;
        },
    };
    match format.str_at("type") {
        Some(kind) => if same_text(kind, "json_schema") {
            match format.get("schema") {
                Some(schema) => match schema {
                    Json::Object(_) => Some(
                        format_of_schema(schema, format.str_at("description")),
                    ),
                    _ => None,
                },
                None => None,
            }
        } else {
            None
        },
        None => None,
    }
}

// ---------------------------------------------------------------------------------------------
// The system prompt.

/// A text without any of the terms, which are removed one after another.
pub open spec fn sanitized(text: Seq<char>, terms: Seq<Seq<char>>) -> Seq<char>
    decreases terms.len(),
{
    if terms.len() == 0 {
        text
    } else {
        without_term(sanitized(text, terms.drop_last()), terms.last())
    }
}

/// Removes the terms from a prompt.
pub fn sanitize_prompt(text: String, terms: &Vec<String>) -> (r: String)
    ensures
        r@ == sanitized(text@, texts(terms@)),
{
    let ghost all = texts(terms@);
    let ghost whole = text@;
    let mut r = text;
    let mut i: usize = 0;
    assert(all.take(0) =~= Seq::empty());
    while i < terms.len()
        invariant
            i <= terms@.len(),
            all == texts(terms@),
            r@ == sanitized(whole, all.take(i as int)),
        decreases terms@.len() - i,
    {
        let ghost next = all.take(i + 1);
        assert(next.drop_last() =~= all.take(i as int));
        r = remove_term(r.as_str(), terms[i].as_str());
        i += 1;
    }
    assert(all.take(all.len() as int) =~= all);
    r
}

/// The texts of a system prompt.
pub open spec fn system_texts(system: anthropic::SystemPrompt) -> Seq<Seq<char>> {
    match system {
        anthropic::SystemPrompt::Single(text) => seq![text@],
        anthropic::SystemPrompt::Multiple(messages) => messages@.map_values(
            |m: anthropic::SystemMessage| m.text@,
        ),
    }
}

/// The sanitized texts that are not blank, in order.
pub open spec fn kept_texts(prompts: Seq<Seq<char>>, terms: Seq<Seq<char>>) -> Seq<Seq<char>>
    decreases prompts.len(),
{
    if prompts.len() == 0 {
        Seq::empty()
    } else {
        let before = kept_texts(prompts.drop_last(), terms);
        let text = sanitized(prompts.last(), terms);
        if blank(text) {
            before
        } else {
            before.push(text)
        }
    }
}

/// The system message of a request: at most one, with the kept texts separated by blank lines.
pub open spec fn system_messages(
    system: Option<anthropic::SystemPrompt>,
    terms: Seq<Seq<char>>,
) -> Seq<MessageSpec> {
    match system {
        Some(system) => {
            let text = join(kept_texts(system_texts(system), terms), "\n\n"@);
            if text.len() == 0 {
                Seq::empty()
            } else {
                seq![text_message("system"@, text)]
            }
        },
        None => Seq::empty(),
    }
}

pub(crate) fn texts_of_system(system: &anthropic::SystemPrompt) -> (r: Vec<String>)
    ensures
        texts(r@) == system_texts(*system),
{
    let mut prompts: Vec<String> = Vec::new();
    match system {
        anthropic::SystemPrompt::Single(text) => {
            prompts.push(text.clone());
        },
        anthropic::SystemPrompt::Multiple(messages) => {
            let mut i: usize = 0;
            while i < messages.len()
                invariant
                    i <= messages@.len(),
                    prompts@.len() == i,
                    forall|j: int| 0 <= j < i ==> (#[trigger] prompts@[j])@ == messages@[j].text@,
                decreases messages@.len() - i,
            {
                prompts.push(messages[i].text.clone());
                i += 1;
            }
        },
    }
    assert(texts(prompts@) =~= system_texts(*system));
    prompts
}

fn messages_of_system(system: &Option<anthropic::SystemPrompt>, terms: &Vec<String>) -> (r: Vec<
    openai::Message,
>)
    ensures
        messages_view(r@) == system_messages(*system, texts(terms@)),
{
    let mut result: Vec<openai::Message> = Vec::new();
    match system {
        Some(system) => {
            let prompts = texts_of_system(system);
            let ghost all = texts(prompts@);
            let ghost removed = texts(terms@);
            let mut kept: Vec<String> = Vec::new();
            let mut i: usize = 0;
            assert(texts(kept@) =~= kept_texts(all.take(0), removed));
            while i < prompts.len()
                invariant
                    i <= prompts@.len(),
                    all == texts(prompts@),
                    removed == texts(terms@),
                    texts(kept@) == kept_texts(all.take(i as int), removed),
                decreases prompts@.len() - i,
            {
                let ghost next = all.take(i + 1);
                assert(next.drop_last() =~= all.take(i as int));
                let text = sanitize_prompt(prompts[i].clone(), terms);
                if !is_blank(text.as_str()) {
                    kept.push(text);
                }
                assert(texts(kept@) =~= kept_texts(next, removed));
                i += 1;
            }
            assert(all.take(all.len() as int) =~= all);
            let joined = join_texts(&kept, "\n\n");
            if !joined.as_str().is_empty() {
                result.push(
                    openai::Message {
                        role: "system".to_owned(),
                        content: Some(openai::MessageContent::Text(joined)),
                        reasoning_content: None,
                        tool_calls: None,
                        tool_call_id: None,
                    },
                );
            }
        },
        None => {},
    }
    assert(messages_view(result@) =~= system_messages(*system, texts(terms@)));
    result
}

// ---------------------------------------------------------------------------------------------
// Requests.

/// What the messages become, one after another.
pub open spec fn translated_messages(messages: Seq<anthropic::Message>) -> Seq<MessageSpec>
    decreases messages.len(),
{
    if messages.len() == 0 {
        Seq::empty()
    } else {
        translated_messages(messages.drop_last()) + translated_message(messages.last())
    }
}

/// What the tools become; batch tools are left out.
pub open spec fn translated_tools(tools: Seq<anthropic::Tool>) -> Seq<ToolSpec>
    decreases tools.len(),
{
    if tools.len() == 0 {
        Seq::empty()
    } else {
        let before = translated_tools(tools.drop_last());
        if batch_tool(tools.last()) {
            before
        } else {
            before.push(translated_tool(tools.last()))
        }
    }
}

/// The tools of a request, if any are left.
pub open spec fn request_tools(tools: Option<Vec<anthropic::Tool>>) -> Option<Seq<ToolSpec>> {
    match tools {
        Some(tools) => if translated_tools(tools@).len() == 0 {
            None
        } else {
            Some(translated_tools(tools@))
        },
        None => None,
    }
}

/// The user that the metadata name.
pub open spec fn user_id(metadata: Option<Json>) -> Option<Seq<char>> {
    match metadata {
        Some(metadata) => metadata@.str_at("user_id"@),
        None => None,
    }
}

/// What a request becomes.
pub open spec fn translated_request(
    req: anthropic::AnthropicRequest,
    policy: PolicySpec,
) -> OpenAIRequestSpec {
    let tools = request_tools(req.tools);
    OpenAIRequestSpec {
        model: selected_model(req.model@, req.extra@, policy),
        messages: system_messages(req.system, policy.ignore_terms) + translated_messages(req.messages@),
        max_tokens: Some(req.max_tokens),
        temperature: req.temperature,
        top_p: req.top_p,
        stop: opt_texts(req.stop_sequences),
        stream: req.stream,
        stream_options: if req.stream == Some(true) {
            Some(openai::StreamOptions { include_usage: true })
        } else {
            None
        },
        tools,
        tool_choice: match req.tool_choice {
            Some(choice) => if tools is Some {
                translated_choice(choice@)
            } else {
                None
            },
            None => None,
        },
        parallel_tool_calls: match req.tool_choice {
            Some(choice) => if tools is Some {
                parallel_calls(choice@)
            } else {
                None
            },
            None => None,
        },
        user: user_id(req.metadata),
        reasoning_effort: requested_effort(req.model@, req.extra@, policy.effort_map),
        response_format: response_format(req.extra@),
    }
}

fn extract_user_id(metadata: &Option<Json>) -> (r: Option<String>)
    ensures
        opt_text(r) == user_id(*metadata),
{
    match metadata {
        Some(metadata) => match metadata.str_at("user_id") {
            Some(id) => Some(id.to_owned()),
            None => None,
        },
        None => None,
    }
}

fn tools_of_request(tools: Option<Vec<anthropic::Tool>>) -> (r: Option<Vec<openai::Tool>>)
    ensures
        match r {
            Some(left) => request_tools(tools) == Some(tools_view(left@)),
            None => request_tools(tools) is None,
        },
{
    match tools {
        Some(tools) => {
            let ghost all = tools@;
            let mut left: Vec<openai::Tool> = Vec::new();
            assert(tools_view(left@) =~= translated_tools(all.take(0)));
            for tool in it: tools
                invariant
                    it.seq() == all,
                    tools_view(left@) == translated_tools(all.take(it.index() as int)),
            {
                let ghost next = all.take(it.index() + 1);
                assert(next.drop_last() =~= all.take(it.index() as int));
                assert(next.last() == tool);
                if !is_batch_tool(&tool) {
                    left.push(translate_tool(tool));
                }
                assert(tools_view(left@) =~= translated_tools(next));
            }
            assert(all.take(all.len() as int) =~= all);
            if left.len() == 0 {
                None
            } else {
                Some(left)
            }
        },
        None => None,
    }
}

/// Translates a request. It never fails.
pub fn translate_request(req: anthropic::AnthropicRequest, policy: &TranslationPolicy) -> (r:
    ProxyResult<openai::OpenAIRequest>)
    ensures
        r is Ok,
        r->Ok_0@ == translated_request(req, policy@),
{
    let model = select_model(&req, policy);
    let reasoning_effort = resolve_effort(&req, &policy.effort_map);
    let response_format = resolve_response_format(&req);
    let mut messages = messages_of_system(&req.system, &policy.ignore_terms);
    let ghost first = messages_view(messages@);
    let ghost all = req.messages@;
    assert(all.take(0) =~= Seq::empty());
    assert(first + translated_messages(all.take(0)) =~= first);
    for msg in it: req.messages
        invariant
            it.seq() == all,
            messages_view(messages@) == first + translated_messages(all.take(it.index() as int)),
    {
        let ghost next = all.take(it.index() + 1);
        let ghost before = messages@;
        assert(next.drop_last() =~= all.take(it.index() as int));
        assert(next.last() == msg);
        match translate_message(msg) {
            Ok(translated) => {
                let mut translated = translated;
                let ghost added = translated@;
                messages.append(&mut translated);
                assert(messages_view(messages@) =~= messages_view(before) + messages_view(added));
                assert(messages_view(messages@) =~= first + translated_messages(next));
            },
            Err(err) => {
                return Err(err);
            },
        }
    }
    assert(all.take(all.len() as int) =~= all);
    let tools = tools_of_request(req.tools);
    let (tool_choice, parallel_tool_calls) = match (&tools, &req.tool_choice) {
        (Some(_), Some(choice)) => translate_tool_choice(choice),
        _ => (None, None),
    };
    let user = extract_user_id(&req.metadata);
    let stream_options = match req.stream {
        Some(stream) => if stream {
            Some(openai::StreamOptions { include_usage: true })
        } else {
            None
        },
        None => None,
    };
    Ok(
        openai::OpenAIRequest {
            model,
            messages,
            max_tokens: Some(req.max_tokens),
            temperature: req.temperature,
            top_p: req.top_p,
            stop: req.stop_sequences,
            stream: req.stream,
            stream_options,
            tools,
            tool_choice,
            parallel_tool_calls,
            user,
            reasoning_effort,
            response_format,
        },
    )
}

// ---------------------------------------------------------------------------------------------
// Laws.

/// A thinking budget above the limit, however large, asks for what the limit asks for; where no
/// tier reaches the limit, that is the highest tier.
pub proof fn law_large_budget_is_clamped(model: Seq<char>, extra: JsonSpec, map: EffortMapSpec)
    requires
        thinking_enabled(extra),
        direct_effort(extra) is None,
        given_budget(extra) >= MAX_BUDGET,
    ensures
        requested_effort(model, extra, map) == resolved_effort(map, model, MAX_BUDGET),
        (forall|i: int|
            0 <= i < tiers_for(map, model).len() ==> (#[trigger] tiers_for(map, model)[i]).max_budget
                < MAX_BUDGET) ==> requested_effort(model, extra, map) == highest_tier(
            tiers_for(map, model),
        ),
{
}

/// Without tools no choice among them goes out.
pub proof fn law_no_choice_without_tools(req: anthropic::AnthropicRequest, policy: PolicySpec)
    requires
        translated_request(req, policy).tools is None,
    ensures
        translated_request(req, policy).tool_choice is None,
        translated_request(req, policy).parallel_tool_calls is None,
{
}

/// Where all tools are batch tools, none goes out.
pub proof fn law_batch_tools_stay(tools: Seq<anthropic::Tool>)
    requires
        forall|i: int| 0 <= i < tools.len() ==> batch_tool(#[trigger] tools[i]),
    ensures
        translated_tools(tools).len() == 0,
    decreases tools.len(),
{
    if tools.len() > 0 {
        assert(batch_tool(tools[tools.len() - 1]));
        law_batch_tools_stay(tools.drop_last());
    }
}

/// The output limit that goes out is the client's, and usage is asked for if and only if
/// the answer is streamed.
pub proof fn law_limits_and_usage(req: anthropic::AnthropicRequest, policy: PolicySpec)
    ensures
        translated_request(req, policy).max_tokens == Some(req.max_tokens),
        translated_request(req, policy).stream_options is Some <==> req.stream == Some(true),
{
}

proof fn lemma_tool_role(blocks: Seq<anthropic::ContentBlock>)
    ensures
        forall|i: int|
            0 <= i < tool_messages(blocks).len() ==> (#[trigger] tool_messages(blocks)[i]).role
                == "tool"@,
    decreases blocks.len(),
{
    if blocks.len() > 0 {
        lemma_tool_role(blocks.drop_last());
        let before = tool_messages(blocks.drop_last());
        let all = tool_messages(blocks);
        assert forall|i: int| 0 <= i < all.len() implies (#[trigger] all[i]).role == "tool"@ by {
            if i < before.len() {
                assert(all[i] == before[i]);
            }
        }
    }
}

proof fn lemma_no_system_message(messages: Seq<anthropic::Message>)
    requires
        forall|i: int| 0 <= i < messages.len() ==> (#[trigger] messages[i]).role@ != "system"@,
    ensures
        forall|i: int|
            0 <= i < translated_messages(messages).len() ==> !system_message(
                #[trigger] translated_messages(messages)[i],
            ),
    decreases messages.len(),
{
    reveal_strlit("system");
    reveal_strlit("tool");
    if messages.len() > 0 {
        lemma_no_system_message(messages.drop_last());
        let before = translated_messages(messages.drop_last());
        let last = messages.last();
        let added = translated_message(last);
        assert(messages[messages.len() - 1].role@ != "system"@);
        assert forall|i: int| 0 <= i < added.len() implies !system_message(#[trigger] added[i]) by {
            match last.content {
                anthropic::MessageContent::Blocks(blocks) => {
                    lemma_tool_role(blocks@);
                    if i < tool_messages(blocks@).len() {
                        assert(added[i] == tool_messages(blocks@)[i]);
                        assert("tool"@.len() != "system"@.len());
                    }
                },
                _ => {},
            }
        }
        let all = translated_messages(messages);
        assert forall|i: int| 0 <= i < all.len() implies !system_message(#[trigger] all[i]) by {
            if i < before.len() {
                assert(all[i] == before[i]);
            } else {
                assert(all[i] == added[i - before.len()]);
            }
        }
    }
}

/// A conversation without system messages of its own goes out with at most one, which leads, so
/// that nothing is left to collapse.
pub proof fn law_one_leading_system_message(req: anthropic::AnthropicRequest, policy: PolicySpec)
    requires
        forall|i: int|
            0 <= i < req.messages@.len() ==> (#[trigger] req.messages@[i]).role@ != "system"@,
    ensures
        system_first(translated_request(req, policy).messages),
        with_system_first(translated_request(req, policy).messages) == translated_request(
            req,
            policy,
        ).messages,
{
    lemma_no_system_message(req.messages@);
    let first = system_messages(req.system, policy.ignore_terms);
    let rest = translated_messages(req.messages@);
    let all = translated_request(req, policy).messages;
    assert forall|i: int| 0 < i < all.len() implies !system_message(#[trigger] all[i]) by {
        assert(first.len() <= 1);
        assert(all[i] == rest[i - first.len()]);
    }
}

} // verus!
