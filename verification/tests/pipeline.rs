use anthropic_proxy::config::{Config, EffortMap, StringMap};
use anthropic_proxy::error::ProxyError;
use anthropic_proxy::json::Json;
use anthropic_proxy::models::anthropic;
use anthropic_proxy::models::openai;
use anthropic_proxy::proxy::requests::translation_policy;
use anthropic_proxy::translate::messages::translate_message;
use anthropic_proxy::translate::pipeline::{translate_request, TranslationPolicy};
use anthropic_proxy::translate::prompt::{
    estimate_openai_input_tokens, openai_tokenize_text, try_estimate_openai_input_tokens,
    with_overhead,
};
use anthropic_proxy::translate::response::{translate_models_list, translate_response};
use anthropic_proxy::translate::tokens::{
    collect_tokenize_text, estimate_input_tokens, scale_tokens, try_estimate_input_tokens,
};
use serde_json::Value;

fn value(text: &str) -> Value {
    serde_json::from_str(text).unwrap()
}

fn json(text: &str) -> Json {
    Json::from_value(value(text))
}

fn opt_string(value: &Value) -> Option<String> {
    value.as_str().map(str::to_string)
}

fn items(value: &Value) -> Vec<Value> {
    value.as_array().cloned().unwrap_or_default()
}

fn parse_block(block: &Value) -> anthropic::ContentBlock {
    let text = |key: &str| opt_string(&block[key]).unwrap();
    match block["type"].as_str().unwrap() {
        "text" => anthropic::ContentBlock::Text {
            text: text("text"),
            cache_control: None,
        },
        "image" => anthropic::ContentBlock::Image {
            source: anthropic::ImageSource {
                source_type: opt_string(&block["source"]["type"]).unwrap(),
                media_type: opt_string(&block["source"]["media_type"]).unwrap(),
                data: opt_string(&block["source"]["data"]).unwrap(),
            },
        },
        "tool_result" => anthropic::ContentBlock::ToolResult {
            tool_use_id: text("tool_use_id"),
            content: match block["content"].as_str() {
                Some(text) => anthropic::ToolResultContent::Text(text.to_string()),
                None => anthropic::ToolResultContent::Blocks(
                    items(&block["content"]).iter().map(parse_block).collect(),
                ),
            },
            is_error: None,
        },
        other => panic!("unexpected block type {}", other),
    }
}

fn parse_messages(value: &Value) -> Vec<anthropic::Message> {
    items(value)
        .iter()
        .map(|m| anthropic::Message {
            role: opt_string(&m["role"]).unwrap(),
            content: match m["content"].as_str() {
                Some(text) => anthropic::MessageContent::Text(text.to_string()),
                None => anthropic::MessageContent::Blocks(
                    items(&m["content"]).iter().map(parse_block).collect(),
                ),
            },
        })
        .collect()
}

fn parse_count_request(value: Value) -> anthropic::CountTokensRequest {
    anthropic::CountTokensRequest {
        model: opt_string(&value["model"]).unwrap_or_default(),
        messages: parse_messages(&value["messages"]),
        system: opt_string(&value["system"]).map(anthropic::SystemPrompt::Single),
        tools: value["tools"].as_array().map(|tools| {
            tools
                .iter()
                .map(|t| anthropic::Tool {
                    name: opt_string(&t["name"]).unwrap(),
                    description: opt_string(&t["description"]),
                    input_schema: Json::from_value(t["input_schema"].clone()),
                    tool_type: opt_string(&t["type"]),
                })
                .collect()
        }),
    }
}

fn default_policy() -> TranslationPolicy {
    translation_policy(&Config::default())
}

fn request_with_extra(extra: Json) -> anthropic::AnthropicRequest {
    anthropic::AnthropicRequest {
        model: "gpt-5.6-terra".to_string(),
        messages: vec![anthropic::Message {
            role: "user".to_string(),
            content: anthropic::MessageContent::Text("hi".to_string()),
        }],
        max_tokens: 100,
        system: None,
        temperature: None,
        top_p: None,
        top_k: None,
        stop_sequences: None,
        stream: None,
        tools: None,
        metadata: None,
        tool_choice: None,
        extra,
    }
}

#[test]
fn applies_model_map_after_selection() {
    let req = anthropic::AnthropicRequest {
        model: "opus-4-6".to_string(),
        messages: vec![anthropic::Message {
            role: "user".to_string(),
            content: anthropic::MessageContent::Text("pong".to_string()),
        }],
        max_tokens: 64,
        system: None,
        temperature: None,
        top_p: None,
        top_k: None,
        stop_sequences: None,
        stream: Some(false),
        tools: None,
        metadata: None,
        tool_choice: None,
        extra: json(r#"{}"#),
    };

    let policy = TranslationPolicy {
        model_map: StringMap::new()
            .insert("opus-4-6".to_string(), "openai/gpt-4.1".to_string()),
        ..default_policy()
    };

    let openai = translate_request(req, &policy).unwrap();
    assert_eq!(openai.model, "openai/gpt-4.1");
}

#[test]
fn sanitizes_configured_system_prompt_terms() {
    let req = anthropic::AnthropicRequest {
        model: "gpt-4o".to_string(),
        messages: vec![anthropic::Message {
            role: "user".to_string(),
            content: anthropic::MessageContent::Text("pong".to_string()),
        }],
        max_tokens: 64,
        system: Some(anthropic::SystemPrompt::Single(
            "Examples of risky actions: rm -rf.".to_string(),
        )),
        temperature: None,
        top_p: None,
        top_k: None,
        stop_sequences: None,
        stream: Some(true),
        tools: None,
        metadata: None,
        tool_choice: None,
        extra: json(r#"{}"#),
    };

    let policy = TranslationPolicy {
        ignore_terms: vec!["rm -rf".to_string()],
        ..default_policy()
    };

    let openai = translate_request(req, &policy).unwrap();

    match &openai.messages[0].content {
        Some(openai::MessageContent::Text(text)) => {
            assert_eq!(text, "Examples of risky actions: .");
        }
        _ => panic!("expected sanitized system prompt"),
    }
}

#[test]
fn streaming_request_includes_usage_stream_options() {
    let req = anthropic::AnthropicRequest {
        model: "gpt-4o".to_string(),
        messages: vec![anthropic::Message {
            role: "user".to_string(),
            content: anthropic::MessageContent::Text("hi".to_string()),
        }],
        max_tokens: 100,
        system: None,
        temperature: None,
        top_p: None,
        top_k: None,
        stop_sequences: None,
        stream: Some(true),
        tools: None,
        metadata: None,
        tool_choice: None,
        extra: json(r#"{}"#),
    };

    let openai = translate_request(req, &default_policy()).unwrap();

    assert_eq!(
        openai.stream_options.map(|options| options.include_usage),
        Some(true)
    );
}

#[test]
fn non_streaming_request_omits_usage_stream_options() {
    let req = anthropic::AnthropicRequest {
        model: "gpt-4o".to_string(),
        messages: vec![anthropic::Message {
            role: "user".to_string(),
            content: anthropic::MessageContent::Text("hi".to_string()),
        }],
        max_tokens: 100,
        system: None,
        temperature: None,
        top_p: None,
        top_k: None,
        stop_sequences: None,
        stream: Some(false),
        tools: None,
        metadata: None,
        tool_choice: None,
        extra: json(r#"{}"#),
    };

    let openai = translate_request(req, &default_policy()).unwrap();

    assert!(openai.stream_options.is_none());
}

#[test]
fn converts_tool_definitions() {
    let req = anthropic::AnthropicRequest {
        model: "gpt-4o".to_string(),
        messages: vec![anthropic::Message {
            role: "user".to_string(),
            content: anthropic::MessageContent::Text("use tool".to_string()),
        }],
        max_tokens: 100,
        system: None,
        temperature: None,
        top_p: None,
        top_k: None,
        stop_sequences: None,
        stream: None,
        tools: Some(vec![anthropic::Tool {
            name: "read_file".to_string(),
            description: Some("Read a file".to_string()),
            input_schema: json(r#"{
                "type": "object",
                "properties": { "path": { "type": "string" } },
                "required": ["path"]
            }"#),
            tool_type: None,
        }]),
        metadata: None,
        tool_choice: None,
        extra: json(r#"{}"#),
    };

    let openai = translate_request(req, &default_policy()).unwrap();

    let tools = openai.tools.unwrap();
    assert_eq!(tools.len(), 1);
    assert_eq!(tools[0].tool_type, "function");
    assert_eq!(tools[0].function.name, "read_file");
}

#[test]
fn filters_batch_tools() {
    let req = anthropic::AnthropicRequest {
        model: "gpt-4o".to_string(),
        messages: vec![anthropic::Message {
            role: "user".to_string(),
            content: anthropic::MessageContent::Text("hi".to_string()),
        }],
        max_tokens: 100,
        system: None,
        temperature: None,
        top_p: None,
        top_k: None,
        stop_sequences: None,
        stream: None,
        tools: Some(vec![anthropic::Tool {
            name: "batch_tool".to_string(),
            description: None,
            input_schema: json(r#"{}"#),
            tool_type: Some("BatchTool".to_string()),
        }]),
        metadata: None,
        tool_choice: None,
        extra: json(r#"{}"#),
    };

    let openai = translate_request(req, &default_policy()).unwrap();
    assert!(openai.tools.is_none());
}

#[test]
fn converts_image_content() {
    let req = anthropic::AnthropicRequest {
        model: "gpt-4o".to_string(),
        messages: vec![anthropic::Message {
            role: "user".to_string(),
            content: anthropic::MessageContent::Blocks(vec![
                anthropic::ContentBlock::Text {
                    text: "What is this?".to_string(),
                    cache_control: None,
                },
                anthropic::ContentBlock::Image {
                    source: anthropic::ImageSource {
                        source_type: "base64".to_string(),
                        media_type: "image/png".to_string(),
                        data: "iVBOR...".to_string(),
                    },
                },
            ]),
        }],
        max_tokens: 100,
        system: None,
        temperature: None,
        top_p: None,
        top_k: None,
        stop_sequences: None,
        stream: None,
        tools: None,
        metadata: None,
        tool_choice: None,
        extra: json(r#"{}"#),
    };

    let openai = translate_request(req, &default_policy()).unwrap();

    match &openai.messages[0].content {
        Some(openai::MessageContent::Parts(parts)) => {
            assert_eq!(parts.len(), 2);
            match &parts[1] {
                openai::ContentPart::ImageUrl { image_url } => {
                    assert!(image_url.url.starts_with("data:image/png;base64,"));
                }
                _ => panic!("expected image_url part"),
            }
        }
        _ => panic!("expected multi-part content"),
    }
}

#[test]
fn converts_tool_use_and_tool_result() {
    let req = anthropic::AnthropicRequest {
        model: "gpt-4o".to_string(),
        messages: vec![
            anthropic::Message {
                role: "assistant".to_string(),
                content: anthropic::MessageContent::Blocks(vec![
                    anthropic::ContentBlock::ToolUse {
                        id: "tool_1".to_string(),
                        name: "read_file".to_string(),
                        input: json(r#"{"path": "/tmp"}"#),
                    },
                ]),
            },
            anthropic::Message {
                role: "user".to_string(),
                content: anthropic::MessageContent::Blocks(vec![
                    anthropic::ContentBlock::ToolResult {
                        tool_use_id: "tool_1".to_string(),
                        content: anthropic::ToolResultContent::Text(
                            "file contents".to_string(),
                        ),
                        is_error: None,
                    },
                ]),
            },
        ],
        max_tokens: 100,
        system: None,
        temperature: None,
        top_p: None,
        top_k: None,
        stop_sequences: None,
        stream: None,
        tools: None,
        metadata: None,
        tool_choice: None,
        extra: json(r#"{}"#),
    };

    let openai = translate_request(req, &default_policy()).unwrap();

    let tool_calls = openai.messages[0].tool_calls.as_ref().unwrap();
    assert_eq!(tool_calls[0].id, "tool_1");
    assert_eq!(tool_calls[0].function.name, "read_file");

    assert_eq!(openai.messages[1].role, "tool");
    assert_eq!(openai.messages[1].tool_call_id, Some("tool_1".to_string()));
}

#[test]
fn deserializes_tool_result_with_nested_content_blocks() {
    let body = value(r#"{
        "model": "gpt-4o",
        "max_tokens": 100,
        "messages": [{
            "role": "user",
            "content": [{
                "type": "tool_result",
                "tool_use_id": "tool_42",
                "content": [
                    {"type": "text", "text": "first chunk"},
                    {"type": "text", "text": "second chunk"}
                ]
            }]
        }]
    }"#);

    let req = anthropic::AnthropicRequest {
        model: opt_string(&body["model"]).unwrap(),
        messages: parse_messages(&body["messages"]),
        max_tokens: body["max_tokens"].as_u64().unwrap() as u32,
        ..base_request()
    };
    let openai = translate_request(req, &default_policy()).unwrap();

    let tool_msg = openai
        .messages
        .iter()
        .find(|m| m.role == "tool")
        .expect("expected a tool message");
    assert_eq!(tool_msg.tool_call_id, Some("tool_42".to_string()));
    match &tool_msg.content {
        Some(openai::MessageContent::Text(text)) => {
            assert_eq!(text, "first chunk\nsecond chunk");
        }
        other => panic!("expected flattened text content, got {:?}", other),
    }
}

#[test]
fn converts_multiple_system_prompts() {
    let req = anthropic::AnthropicRequest {
        model: "gpt-4o".to_string(),
        messages: vec![anthropic::Message {
            role: "user".to_string(),
            content: anthropic::MessageContent::Text("hi".to_string()),
        }],
        max_tokens: 100,
        system: Some(anthropic::SystemPrompt::Multiple(vec![
            anthropic::SystemMessage {
                message_type: "text".to_string(),
                text: "You are helpful.".to_string(),
                cache_control: None,
            },
            anthropic::SystemMessage {
                message_type: "text".to_string(),
                text: "Be concise.".to_string(),
                cache_control: None,
            },
        ])),
        temperature: None,
        top_p: None,
        top_k: None,
        stop_sequences: None,
        stream: None,
        tools: None,
        metadata: None,
        tool_choice: None,
        extra: json(r#"{}"#),
    };

    let openai = translate_request(req, &default_policy()).unwrap();

    // Multi-block system prompts are merged into ONE leading system message (strict chat
    // templates reject a system message after index 0); both blocks' text is preserved.
    let system_msgs: Vec<_> = openai
        .messages
        .iter()
        .filter(|m| m.role == "system")
        .collect();
    assert_eq!(system_msgs.len(), 1);
    match &system_msgs[0].content {
        Some(openai::MessageContent::Text(text)) => {
            assert!(text.contains("You are helpful."));
            assert!(text.contains("Be concise."));
        }
        _ => panic!("expected a single text system message"),
    }
}

#[test]
fn uses_reasoning_model_when_thinking_enabled() {
    let req = anthropic::AnthropicRequest {
        model: "opus-4-6".to_string(),
        messages: vec![anthropic::Message {
            role: "user".to_string(),
            content: anthropic::MessageContent::Text("think hard".to_string()),
        }],
        max_tokens: 100,
        system: None,
        temperature: None,
        top_p: None,
        top_k: None,
        stop_sequences: None,
        stream: None,
        tools: None,
        metadata: None,
        tool_choice: None,
        extra: json(r#"{"thinking": {"type": "enabled", "budget_tokens": 1000}}"#),
    };

    let policy = TranslationPolicy {
        reasoning_model: Some("gpt-4o-reasoning".to_string()),
        completion_model: Some("gpt-4o-mini".to_string()),
        ..default_policy()
    };

    let openai = translate_request(req, &policy).unwrap();
    assert_eq!(openai.model, "gpt-4o-reasoning");
}

#[test]
fn thinking_budget_sets_reasoning_effort() {
    let make = |budget: u64| anthropic::AnthropicRequest {
        model: "opus-4-7".to_string(),
        messages: vec![anthropic::Message {
            role: "user".to_string(),
            content: anthropic::MessageContent::Text("hi".to_string()),
        }],
        max_tokens: 100,
        system: None,
        temperature: None,
        top_p: None,
        top_k: None,
        stop_sequences: None,
        stream: None,
        tools: None,
        metadata: None,
        tool_choice: None,
        extra: json(&format!(
            r#"{{"thinking": {{"type": "enabled", "budget_tokens": {budget}}}}}"#
        )),
    };
    let policy = TranslationPolicy {
        effort_map: EffortMap::parse("low:2048,medium:8192,high:16384"),
        ..default_policy()
    };

    assert_eq!(
        translate_request(make(5000), &policy)
            .unwrap()
            .reasoning_effort,
        Some("medium".to_string())
    );
    // ultrathink (31999) clamps to 16384 → top tier.
    assert_eq!(
        translate_request(make(31999), &policy)
            .unwrap()
            .reasoning_effort,
        Some("high".to_string())
    );
}

#[test]
fn budget_of_any_size_is_clamped() {
    let policy = TranslationPolicy {
        effort_map: EffortMap::parse("low:2048,medium:8192,high:16384"),
        ..default_policy()
    };
    for budget in [16385u64, 4294967296, 4294967297, 18446744073709551615] {
        let req = anthropic::AnthropicRequest {
            model: "opus-4-7".to_string(),
            messages: vec![anthropic::Message {
                role: "user".to_string(),
                content: anthropic::MessageContent::Text("hi".to_string()),
            }],
            max_tokens: 100,
            system: None,
            temperature: None,
            top_p: None,
            top_k: None,
            stop_sequences: None,
            stream: None,
            tools: None,
            metadata: None,
            tool_choice: None,
            extra: json(&format!(
                r#"{{"thinking": {{"type": "enabled", "budget_tokens": {budget}}}}}"#
            )),
        };
        assert_eq!(
            translate_request(req, &policy).unwrap().reasoning_effort,
            Some("high".to_string())
        );
    }
}

#[test]
fn no_effort_without_thinking_or_map() {
    let req = anthropic::AnthropicRequest {
        model: "opus-4-7".to_string(),
        messages: vec![anthropic::Message {
            role: "user".to_string(),
            content: anthropic::MessageContent::Text("hi".to_string()),
        }],
        max_tokens: 100,
        system: None,
        temperature: None,
        top_p: None,
        top_k: None,
        stop_sequences: None,
        stream: None,
        tools: None,
        metadata: None,
        tool_choice: None,
        extra: json(r#"{"thinking": {"type": "enabled", "budget_tokens": 5000}}"#),
    };
    // Default policy has an empty effort map → no reasoning_effort emitted.
    assert_eq!(
        translate_request(req, &default_policy())
            .unwrap()
            .reasoning_effort,
        None
    );
}

#[test]
fn direct_effort_field_passes_through_normalized() {
    let req = anthropic::AnthropicRequest {
        model: "opus-4-8".to_string(),
        messages: vec![anthropic::Message {
            role: "user".to_string(),
            content: anthropic::MessageContent::Text("hi".to_string()),
        }],
        max_tokens: 100,
        system: None,
        temperature: None,
        top_p: None,
        top_k: None,
        stop_sequences: None,
        stream: None,
        tools: None,
        metadata: None,
        tool_choice: None,
        extra: json(r#"{
            "output_config": {"effort": "XHigh"},
            "thinking": {"type": "adaptive"}
        }"#),
    };
    // output_config.effort (what current models send) is forwarded, normalized,
    // even with no effort map configured and adaptive thinking instead of a budget.
    assert_eq!(
        translate_request(req, &default_policy())
            .unwrap()
            .reasoning_effort,
        Some("xhigh".to_string())
    );
}

#[test]
fn json_schema_output_format_and_effort_are_forwarded() {
    let req = request_with_extra(json(r#"{
        "output_config": {
            "effort": "high",
            "format": {
                "type": "json_schema",
                "description": "A short session title",
                "schema": {
                    "type": "object",
                    "properties": {"title": {"type": "string"}},
                    "required": ["title"],
                    "additionalProperties": false
                }
            }
        }
    }"#));

    let openai = translate_request(req, &default_policy()).unwrap();
    assert_eq!(openai.reasoning_effort.as_deref(), Some("high"));
    assert_eq!(
        openai.response_format.map(|f| f.to_value()),
        Some(value(r#"{
            "type": "json_schema",
            "json_schema": {
                "name": "response",
                "description": "A short session title",
                "strict": true,
                "schema": {
                    "type": "object",
                    "properties": {"title": {"type": "string"}},
                    "required": ["title"],
                    "additionalProperties": false
                }
            }
        }"#))
    );
}

#[test]
fn invalid_or_unknown_output_formats_are_omitted() {
    for format in [
        value(r#"{"type": "json_schema"}"#),
        value(r#"{"type": "json_schema", "schema": "not-an-object"}"#),
        value(r#"{"type": "future_format", "schema": {}}"#),
    ] {
        let req = request_with_extra(json(&format!(
            r#"{{"output_config": {{"format": {format}}}}}"#
        )));
        assert!(translate_request(req, &default_policy())
            .unwrap()
            .response_format
            .is_none());
    }
}

#[test]
fn bare_top_level_effort_is_tolerated() {
    let req = anthropic::AnthropicRequest {
        model: "opus-4-8".to_string(),
        messages: vec![anthropic::Message {
            role: "user".to_string(),
            content: anthropic::MessageContent::Text("hi".to_string()),
        }],
        max_tokens: 100,
        system: None,
        temperature: None,
        top_p: None,
        top_k: None,
        stop_sequences: None,
        stream: None,
        tools: None,
        metadata: None,
        tool_choice: None,
        extra: json(r#"{"effort": "low"}"#),
    };
    assert_eq!(
        translate_request(req, &default_policy())
            .unwrap()
            .reasoning_effort,
        Some("low".to_string())
    );
}

#[test]
fn uses_completion_model_without_thinking() {
    let req = anthropic::AnthropicRequest {
        model: "opus-4-6".to_string(),
        messages: vec![anthropic::Message {
            role: "user".to_string(),
            content: anthropic::MessageContent::Text("quick".to_string()),
        }],
        max_tokens: 100,
        system: None,
        temperature: None,
        top_p: None,
        top_k: None,
        stop_sequences: None,
        stream: None,
        tools: None,
        metadata: None,
        tool_choice: None,
        extra: json(r#"{}"#),
    };

    let policy = TranslationPolicy {
        reasoning_model: Some("gpt-4o-reasoning".to_string()),
        completion_model: Some("gpt-4o-mini".to_string()),
        ..default_policy()
    };

    let openai = translate_request(req, &policy).unwrap();
    assert_eq!(openai.model, "gpt-4o-mini");
}

#[test]
fn response_with_all_fields_present() {
    let response = openai::OpenAIResponse {
        id: Some("chatcmpl-abc123".to_string()),
        object: Some("chat.completion".to_string()),
        created: Some(1700000000),
        model: Some("gpt-4o".to_string()),
        choices: vec![openai::Choice {
            index: 0,
            message: openai::ChoiceMessage {
                role: "assistant".to_string(),
                reasoning_content: None,
                content: Some("hello".to_string()),
                tool_calls: None,
            },
            finish_reason: Some("stop".to_string()),
        }],
        usage: openai::Usage {
            prompt_tokens: 5,
            completion_tokens: 1,
            total_tokens: 6,
            ..Default::default()
        },
        system_fingerprint: None,
    };

    let anthropic = translate_response(response, "fallback-model").unwrap();
    assert_eq!(anthropic.id, "chatcmpl-abc123");
    assert_eq!(anthropic.model, "gpt-4o");
}

#[test]
fn response_allows_missing_metadata() {
    let response = openai::OpenAIResponse {
        id: None,
        object: None,
        created: None,
        model: None,
        choices: vec![openai::Choice {
            index: 0,
            message: openai::ChoiceMessage {
                role: "assistant".to_string(),
                reasoning_content: None,
                content: Some("pong".to_string()),
                tool_calls: None,
            },
            finish_reason: Some("stop".to_string()),
        }],
        usage: openai::Usage {
            prompt_tokens: 10,
            completion_tokens: 2,
            total_tokens: 12,
            ..Default::default()
        },
        system_fingerprint: None,
    };

    let anthropic = translate_response(response, "openai/gpt-4o-mini").unwrap();
    assert_eq!(anthropic.id, "msg_proxy");
    assert_eq!(anthropic.model, "openai/gpt-4o-mini");
}

#[test]
fn response_converts_tool_calls() {
    let response = openai::OpenAIResponse {
        id: Some("chatcmpl-1".to_string()),
        object: None,
        created: None,
        model: Some("gpt-4o".to_string()),
        choices: vec![openai::Choice {
            index: 0,
            message: openai::ChoiceMessage {
                role: "assistant".to_string(),
                reasoning_content: None,
                content: None,
                tool_calls: Some(vec![openai::ToolCall {
                    id: "call_abc".to_string(),
                    call_type: "function".to_string(),
                    function: openai::FunctionCall {
                        name: "read_file".to_string(),
                        arguments: "{\"path\":\"/tmp\"}".to_string(),
                    },
                }]),
            },
            finish_reason: Some("tool_calls".to_string()),
        }],
        usage: openai::Usage {
            prompt_tokens: 10,
            completion_tokens: 5,
            total_tokens: 15,
            ..Default::default()
        },
        system_fingerprint: None,
    };

    let anthropic = translate_response(response, "fallback").unwrap();
    assert_eq!(anthropic.stop_reason, Some("tool_use".to_string()));
    assert!(!anthropic.content.is_empty());
}

#[test]
fn models_list_translation() {
    let response = openai::ModelsListResponse {
        object: Some("list".to_string()),
        data: vec![
            openai::ModelInfo {
                id: "gpt-4o-mini".to_string(),
                object: Some("model".to_string()),
                created: None,
                owned_by: Some("azure".to_string()),
            },
            openai::ModelInfo {
                id: "gpt-5-chat".to_string(),
                object: Some("model".to_string()),
                created: None,
                owned_by: Some("azure".to_string()),
            },
        ],
    };

    let result = translate_models_list(response);
    assert_eq!(result.first_id.as_deref(), Some("gpt-4o-mini"));
    assert_eq!(result.last_id.as_deref(), Some("gpt-5-chat"));
    assert!(!result.has_more);
}

#[test]
fn empty_models_list() {
    let response = openai::ModelsListResponse {
        object: Some("list".to_string()),
        data: vec![],
    };
    let result = translate_models_list(response);
    assert!(result.data.is_empty());
    assert!(result.first_id.is_none());
}

fn base_request() -> anthropic::AnthropicRequest {
    anthropic::AnthropicRequest {
        model: "gpt-4o".to_string(),
        messages: vec![anthropic::Message {
            role: "user".to_string(),
            content: anthropic::MessageContent::Text("hi".to_string()),
        }],
        max_tokens: 64,
        system: None,
        temperature: None,
        top_p: None,
        top_k: None,
        stop_sequences: None,
        stream: None,
        tools: None,
        metadata: None,
        tool_choice: None,
        extra: json(r#"{}"#),
    }
}

fn weather_tool() -> anthropic::Tool {
    anthropic::Tool {
        name: "get_weather".to_string(),
        description: None,
        input_schema: json(r#"{"type": "object"}"#),
        tool_type: None,
    }
}

#[test]
fn translates_tool_choice_when_tools_present() {
    let req = anthropic::AnthropicRequest {
        tools: Some(vec![weather_tool()]),
        tool_choice: Some(json(r#"{"type": "tool", "name": "get_weather"}"#)),
        ..base_request()
    };

    let openai = translate_request(req, &default_policy()).unwrap();
    assert_eq!(
        openai.tool_choice.map(|c| c.to_value()),
        Some(value(r#"{"type": "function", "function": {"name": "get_weather"}}"#))
    );
}

#[test]
fn drops_tool_choice_when_no_tools() {
    let req = anthropic::AnthropicRequest {
        tools: None,
        tool_choice: Some(json(r#"{"type": "auto"}"#)),
        ..base_request()
    };

    let openai = translate_request(req, &default_policy()).unwrap();
    assert!(openai.tool_choice.is_none());
    assert_eq!(openai.parallel_tool_calls, None);
}

#[test]
fn forwards_disable_parallel_tool_use() {
    let req = anthropic::AnthropicRequest {
        tools: Some(vec![weather_tool()]),
        tool_choice: Some(json(r#"{"type": "auto", "disable_parallel_tool_use": true}"#)),
        ..base_request()
    };

    let openai = translate_request(req, &default_policy()).unwrap();
    assert_eq!(
        openai.tool_choice.map(|c| c.to_value()),
        Some(value(r#""auto""#))
    );
    assert_eq!(openai.parallel_tool_calls, Some(false));
}

#[test]
fn maps_metadata_user_id_to_user() {
    let req = anthropic::AnthropicRequest {
        metadata: Some(json(r#"{"user_id": "user-123"}"#)),
        ..base_request()
    };

    let openai = translate_request(req, &default_policy()).unwrap();
    assert_eq!(openai.user.as_deref(), Some("user-123"));
}

#[test]
fn metadata_without_user_id_leaves_user_unset() {
    let req = anthropic::AnthropicRequest {
        metadata: Some(json(r#"{"other": "value"}"#)),
        ..base_request()
    };

    let openai = translate_request(req, &default_policy()).unwrap();
    assert_eq!(openai.user, None);
}

#[test]
fn response_content_filter_maps_to_refusal() {
    let response = openai::OpenAIResponse {
        id: Some("chatcmpl-1".to_string()),
        object: None,
        created: None,
        model: Some("gpt-4o".to_string()),
        choices: vec![openai::Choice {
            index: 0,
            message: openai::ChoiceMessage {
                role: "assistant".to_string(),
                reasoning_content: None,
                content: Some("I can't help with that.".to_string()),
                tool_calls: None,
            },
            finish_reason: Some("content_filter".to_string()),
        }],
        usage: openai::Usage {
            prompt_tokens: 10,
            completion_tokens: 5,
            total_tokens: 15,
            ..Default::default()
        },
        system_fingerprint: None,
    };

    let anthropic = translate_response(response, "fallback").unwrap();
    assert_eq!(anthropic.stop_reason, Some("refusal".to_string()));
}

// --- Upstream response robustness (regression guards against 502s) ---

fn number(value: &Value) -> u32 {
    value.as_u64().unwrap_or_default() as u32
}

fn parse_response(value: Value) -> openai::OpenAIResponse {
    let usage = &value["usage"];
    openai::OpenAIResponse {
        id: opt_string(&value["id"]),
        object: opt_string(&value["object"]),
        created: value["created"].as_u64(),
        model: opt_string(&value["model"]),
        choices: items(&value["choices"])
            .iter()
            .map(|c| openai::Choice {
                index: number(&c["index"]),
                message: openai::ChoiceMessage {
                    role: opt_string(&c["message"]["role"]).unwrap_or_default(),
                    reasoning_content: opt_string(&c["message"]["reasoning_content"])
                        .or_else(|| opt_string(&c["message"]["reasoning"])),
                    content: opt_string(&c["message"]["content"]),
                    tool_calls: None,
                },
                finish_reason: opt_string(&c["finish_reason"]),
            })
            .collect(),
        usage: openai::Usage {
            prompt_tokens: number(&usage["prompt_tokens"]),
            completion_tokens: number(&usage["completion_tokens"]),
            total_tokens: number(&usage["total_tokens"]),
            prompt_tokens_details: usage["prompt_tokens_details"]["cached_tokens"]
                .as_u64()
                .map(|n| openai::PromptTokensDetails {
                    cached_tokens: n as u32,
                }),
        },
        system_fingerprint: None,
    }
}

#[test]
fn response_parses_without_usage_field() {
    let resp = parse_response(value(r#"{
        "id": "chatcmpl-1",
        "choices": [{"index": 0, "message": {"role": "assistant", "content": "hi"}}]
    }"#));
    let anthropic = translate_response(resp, "fallback").unwrap();
    assert_eq!(anthropic.usage.input_tokens, 0);
    assert_eq!(anthropic.usage.output_tokens, 0);
}

#[test]
fn response_parses_with_null_usage() {
    let resp = parse_response(value(r#"{
        "id": "chatcmpl-1",
        "choices": [{"index": 0, "message": {"role": "assistant", "content": "hi"}}],
        "usage": null
    }"#));
    let anthropic = translate_response(resp, "fallback").unwrap();
    assert_eq!(anthropic.usage.input_tokens, 0);
}

#[test]
fn response_parses_with_partial_usage() {
    // Missing total_tokens must not abort parsing.
    let resp = parse_response(value(r#"{
        "id": "chatcmpl-1",
        "choices": [{"index": 0, "message": {"role": "assistant", "content": "hi"}}],
        "usage": {"prompt_tokens": 11}
    }"#));
    let anthropic = translate_response(resp, "fallback").unwrap();
    assert_eq!(anthropic.usage.input_tokens, 11);
    assert_eq!(anthropic.usage.output_tokens, 0);
}

#[test]
fn response_parses_with_missing_role() {
    let resp = parse_response(value(r#"{
        "id": "chatcmpl-1",
        "choices": [{"index": 0, "message": {"content": "hi"}}]
    }"#));
    let anthropic = translate_response(resp, "fallback").unwrap();
    assert_eq!(anthropic.content.len(), 1);
}

#[test]
fn response_ignores_unknown_fields() {
    let resp = parse_response(value(r#"{
        "id": "chatcmpl-1",
        "service_tier": "default",
        "choices": [{
            "index": 0,
            "logprobs": null,
            "message": {"role": "assistant", "content": "hi", "annotations": []}
        }],
        "usage": {"prompt_tokens": 10, "completion_tokens": 2, "total_tokens": 12,
                  "prompt_tokens_details": {"cached_tokens": 4}}
    }"#));
    let anthropic = translate_response(resp, "fallback").unwrap();
    // Cached tokens are split out: input = prompt(10) - cached(4), cache_read = 4.
    assert_eq!(anthropic.usage.input_tokens, 6);
    assert_eq!(anthropic.usage.output_tokens, 2);
    assert_eq!(anthropic.usage.cache_read_input_tokens, Some(4));
}

#[test]
fn response_without_cache_details_omits_cache_fields() {
    let resp = parse_response(value(r#"{
        "id": "chatcmpl-1",
        "choices": [{"index": 0, "message": {"role": "assistant", "content": "hi"}}],
        "usage": {"prompt_tokens": 7, "completion_tokens": 2, "total_tokens": 9}
    }"#));
    let anthropic = translate_response(resp, "fallback").unwrap();
    assert_eq!(anthropic.usage.input_tokens, 7);
    assert_eq!(anthropic.usage.cache_read_input_tokens, None);
    assert_eq!(anthropic.usage.cache_creation_input_tokens, None);
}

#[test]
fn response_reasoning_content_becomes_thinking_block() {
    let resp = parse_response(value(r#"{
        "id": "chatcmpl-1",
        "choices": [{
            "index": 0,
            "message": {"role": "assistant", "reasoning_content": "step 1", "content": "answer"},
            "finish_reason": "stop"
        }]
    }"#));
    let anthropic = translate_response(resp, "fallback").unwrap();
    assert_eq!(anthropic.content.len(), 2);
    assert!(matches!(
        &anthropic.content[0],
        anthropic::ResponseContent::Thinking { thinking, .. } if thinking == "step 1"
    ));
    assert!(matches!(
        &anthropic.content[1],
        anthropic::ResponseContent::Text { text, .. } if text == "answer"
    ));
}

#[test]
fn estimate_tokens_scales_with_text_and_is_nonzero() {
    let small = parse_count_request(value(r#"{
        "messages": [{"role": "user", "content": "hi"}]
    }"#));
    let large = parse_count_request(value(&format!(
        r#"{{"messages": [{{"role": "user", "content": "{}"}}]}}"#,
        "x".repeat(4000)
    )));
    assert!(estimate_input_tokens(&small) >= 1);
    assert!(estimate_input_tokens(&large) > estimate_input_tokens(&small));
}

#[test]
fn estimate_matches_real_tokenizer_for_code() {
    // A real BPE tokenizer counts code accurately, where a quarter of the characters
    // would be too few.
    let code = "fn main() { let xs: Vec<i32> = (0..100).filter(|n| n % 2 == 0).collect(); \
                println!(\"{:?}\", xs); }";
    let req = parse_count_request(value(&format!(
        r#"{{"messages": [{{"role": "user", "content": {}}}]}}"#,
        Value::from(code)
    )));
    let est = estimate_input_tokens(&req) as usize;
    assert!(
        est > code.len() / 4,
        "estimate {est} should exceed a quarter of the characters"
    );
    assert!(est >= 30);
}

#[test]
fn estimate_counts_cjk() {
    let cjk = parse_count_request(value(r#"{
        "messages": [{"role": "user", "content": "你好世界你好世界你好世界"}]
    }"#));
    // CJK tokenizes to multiple tokens per character — must be a meaningful count.
    assert!(estimate_input_tokens(&cjk) >= 12);
}

#[test]
fn estimate_tokens_counts_system_and_tools_but_not_images() {
    let with_image = parse_count_request(value(&r#"{
        "system": "be terse",
        "tools": [{"name": "t", "description": "d", "input_schema": {"type": "object"}}],
        "messages": [{
            "role": "user",
            "content": [
                {"type": "image", "source": {"type": "base64", "media_type": "image/png", "data": "BLOB"}},
                {"type": "text", "text": "tiny"}
            ]
        }]
    }"#.replace("BLOB", &"A".repeat(100000))));
    // A 100k-char base64 blob must NOT dominate the estimate.
    assert!(estimate_input_tokens(&with_image) < 200);
}

#[test]
fn response_reasoning_alias_is_accepted() {
    let resp = parse_response(value(r#"{
        "id": "chatcmpl-1",
        "choices": [{
            "index": 0,
            "message": {"role": "assistant", "reasoning": "thinking via alias", "content": ""},
            "finish_reason": "length"
        }]
    }"#));
    let anthropic = translate_response(resp, "fallback").unwrap();
    assert_eq!(anthropic.content.len(), 1);
    assert!(matches!(
        &anthropic.content[0],
        anthropic::ResponseContent::Thinking { thinking, .. } if thinking == "thinking via alias"
    ));
}

// --- Exact contents ---

#[test]
fn response_without_choices_is_an_error() {
    let resp = parse_response(value(r#"{"id": "chatcmpl-1", "choices": []}"#));
    match translate_response(resp, "fallback") {
        Err(ProxyError::Transform(message)) => assert_eq!(message, "No choices in response"),
        other => panic!("expected a transform error, got {:?}", other),
    }
}

fn response_with_call(arguments: &str) -> openai::OpenAIResponse {
    let mut resp = parse_response(value(r#"{"choices": [{"message": {"content": ""}}]}"#));
    resp.choices[0].message.tool_calls = Some(vec![openai::ToolCall {
        id: "call_1".to_string(),
        call_type: "function".to_string(),
        function: openai::FunctionCall {
            name: "f".to_string(),
            arguments: arguments.to_string(),
        },
    }]);
    resp
}

fn tool_input(resp: openai::OpenAIResponse) -> Value {
    let answer = translate_response(resp, "fallback").unwrap();
    assert_eq!(answer.content.len(), 1);
    match &answer.content[0] {
        anthropic::ResponseContent::ToolUse { id, name, input, .. } => {
            assert_eq!(id, "call_1");
            assert_eq!(name, "f");
            input.to_value()
        }
        other => panic!("expected a tool use, got {:?}", other),
    }
}

#[test]
fn call_arguments_become_input() {
    assert_eq!(
        tool_input(response_with_call(r#"{"path": "/tmp", "n": [1, -2]}"#)),
        value(r#"{"path": "/tmp", "n": [1, -2]}"#)
    );
    // What is no JSON becomes an empty object.
    assert_eq!(tool_input(response_with_call("{not json")), value("{}"));
    assert_eq!(tool_input(response_with_call("")), value("{}"));
}

#[test]
fn tool_input_survives_the_way_there_and_back() {
    let source = r#"{"text": "line\n\"quoted\" \u00e9", "deep": [[{"n": -7, "z": null}]], "ok": true}"#;
    let input = json(source);
    assert!(input.is_plain());
    assert!(!json("[1, 0.5]").is_plain());
    let req = anthropic::AnthropicRequest {
        messages: vec![anthropic::Message {
            role: "assistant".to_string(),
            content: anthropic::MessageContent::Blocks(vec![anthropic::ContentBlock::ToolUse {
                id: "call_1".to_string(),
                name: "f".to_string(),
                input,
            }]),
        }],
        ..base_request()
    };
    let out = translate_request(req, &default_policy()).unwrap();
    let calls = out.messages[0].tool_calls.as_ref().unwrap();
    assert_eq!(calls[0].call_type, "function");
    assert_eq!(
        tool_input(response_with_call(&calls[0].function.arguments)),
        value(source)
    );
}

#[test]
fn parsers_own_key_reads_back_behind_another() {
    let own = "$serde_json::private::RawValue";
    let object = |keys: Vec<&str>| {
        let mut members = serde_json::Map::new();
        for key in keys {
            members.insert(key.to_string(), value("\"1\""));
        }
        Value::Object(members)
    };
    for keys in [vec!["", own], vec!["!", own, "z"], vec!["$serde_json", own]] {
        let source = object(keys);
        let input = Json::from_value(source.clone());
        assert!(input.is_plain());
        let text = source.to_string();
        assert_eq!(tool_input(response_with_call(&text)), source);
    }
    assert!(!Json::from_value(object(vec![own])).is_plain());
    assert!(!Json::from_value(object(vec![own, "a"])).is_plain());
    assert!(!Json::from_value(Value::from(vec![object(vec![own, "a"])])).is_plain());
    assert!(Json::from_value(object(vec!["a", "b"])).is_plain());
}

#[test]
fn turn_of_tool_uses_comes_back() {
    let inputs = [r#"{"a": 1}"#, "[]", r#"{"b": [true, null, "x"]}"#];
    let blocks: Vec<anthropic::ContentBlock> = inputs
        .iter()
        .enumerate()
        .map(|(n, input)| anthropic::ContentBlock::ToolUse {
            id: format!("call_{n}"),
            name: format!("f{n}"),
            input: json(input),
        })
        .collect();
    let sent = translate_message(anthropic::Message {
        role: "assistant".to_string(),
        content: anthropic::MessageContent::Blocks(blocks),
    })
    .unwrap();
    assert_eq!(sent.len(), 1);
    let mut resp = response_with_call("{}");
    resp.choices[0].message.tool_calls = sent[0].tool_calls.clone();
    let answer = translate_response(resp, "fallback").unwrap();
    assert_eq!(answer.content.len(), inputs.len());
    for (n, content) in answer.content.iter().enumerate() {
        match content {
            anthropic::ResponseContent::ToolUse { content_type, id, name, input } => {
                assert_eq!(content_type, "tool_use");
                assert_eq!(id, &format!("call_{n}"));
                assert_eq!(name, &format!("f{n}"));
                assert_eq!(input.to_value(), value(inputs[n]));
            }
            other => panic!("expected a tool use, got {:?}", other),
        }
    }
}

#[test]
fn request_carries_plain_fields_over() {
    let req = anthropic::AnthropicRequest {
        max_tokens: 7,
        stop_sequences: Some(vec!["END".to_string()]),
        stream: Some(true),
        system: Some(anthropic::SystemPrompt::Single("  \n".to_string())),
        ..base_request()
    };
    let out = translate_request(req, &default_policy()).unwrap();
    assert_eq!(out.max_tokens, Some(7));
    assert_eq!(out.stop, Some(vec!["END".to_string()]));
    assert_eq!(out.stream, Some(true));
    // A blank system prompt is no message.
    assert_eq!(out.messages.len(), 1);
    assert_eq!(out.messages[0].role, "user");
}

#[test]
fn system_blocks_are_separated_by_blank_lines() {
    let block = |text: &str| anthropic::SystemMessage {
        message_type: "text".to_string(),
        text: text.to_string(),
        cache_control: None,
    };
    let req = anthropic::AnthropicRequest {
        system: Some(anthropic::SystemPrompt::Multiple(vec![
            block("one rm -rf"),
            block("rm -rf"),
            block("two"),
        ])),
        ..base_request()
    };
    let policy = TranslationPolicy {
        ignore_terms: vec!["rm -rf".to_string()],
        ..default_policy()
    };
    let out = translate_request(req, &policy).unwrap();
    match &out.messages[0].content {
        Some(openai::MessageContent::Text(text)) => assert_eq!(text, "one \n\ntwo"),
        other => panic!("expected text, got {:?}", other),
    }
}

#[test]
fn effort_map_reads_global_tiers_and_overrides() {
    let map = EffortMap::parse(
        "low:2048, medium:8192,high:16384;haiku-3-5=low:512,high:16384;;bad=x:y",
    );
    assert_eq!(map.resolve("any", 0).as_deref(), Some("low"));
    assert_eq!(map.resolve("any", 2048).as_deref(), Some("low"));
    assert_eq!(map.resolve("any", 2049).as_deref(), Some("medium"));
    assert_eq!(map.resolve("any", 4000000).as_deref(), Some("high"));
    assert_eq!(map.resolve("haiku-3-5", 512).as_deref(), Some("low"));
    assert_eq!(map.resolve("haiku-3-5", 513).as_deref(), Some("high"));
    assert_eq!(map.resolve("bad", 1), None);
    // Above all tiers the highest counts, wherever it stands.
    let unsorted = EffortMap::parse("high:900,low:100");
    assert_eq!(unsorted.resolve("any", 50).as_deref(), Some("high"));
    assert_eq!(unsorted.resolve("any", 1000).as_deref(), Some("high"));
}

#[test]
fn models_keep_their_ids() {
    let model = |id: &str| openai::ModelInfo {
        id: id.to_string(),
        object: None,
        created: Some(5),
        owned_by: None,
    };
    let list = translate_models_list(openai::ModelsListResponse {
        object: None,
        data: vec![model("a"), model("b")],
    });
    assert_eq!(list.data.len(), 2);
    assert_eq!(list.data[1].id, "b");
    assert_eq!(list.data[1].display_name, "b");
    assert_eq!(list.data[1].model_type, "model");
    assert_eq!(list.data[1].created_at, "1970-01-01T00:00:00Z");
}

#[test]
fn estimates_are_exact_multiples_of_the_count() {
    // 11 tokens and what 2 messages add, and 15 percent on top: 31 * 23 / 20.
    assert_eq!(scale_tokens(11, 2), 35);
    assert_eq!(scale_tokens(0, 0), 1);
    // "user" and "hi" are a token each: 12 * 23 / 20.
    let req = parse_count_request(value(r#"{"messages": [{"role": "user", "content": "hi"}]}"#));
    assert_eq!(estimate_input_tokens(&req), 13);
    assert_eq!(try_estimate_input_tokens(&req), Some(13));
    let out = translate_request(base_request(), &default_policy()).unwrap();
    assert_eq!(estimate_openai_input_tokens(&out), 13);
    assert_eq!(try_estimate_openai_input_tokens(&out), Some(13));
}

#[test]
fn special_tokens_count_as_ordinary_text() {
    let req = parse_count_request(value(
        r#"{"messages": [{"role": "user", "content": "<|endoftext|>"}]}"#,
    ));
    // As a special token the text would count once: 12 * 23 / 20.
    assert!(estimate_input_tokens(&req) > 13);
}

#[test]
fn overhead_is_added_per_message() {
    assert_eq!(with_overhead(100, 3), Some(130));
    assert_eq!(with_overhead(u32::MAX, 0), Some(u32::MAX));
    assert_eq!(with_overhead(u32::MAX, 1), None);
}

#[test]
fn tokenize_text_joins_all_text() {
    let req = parse_count_request(value(
        r#"{
            "system": "sys",
            "tools": [{"name": "t", "description": "d", "input_schema": {"type": "object"}}],
            "messages": [
                {"role": "user", "content": "hi"},
                {"role": "user", "content": [
                    {"type": "image", "source": {"type": "base64", "media_type": "m", "data": "x"}},
                    {"type": "tool_result", "tool_use_id": "1", "content": [
                        {"type": "text", "text": "a"}, {"type": "text", "text": "b"}
                    ]}
                ]}
            ]
        }"#,
    ));
    assert_eq!(
        collect_tokenize_text(&req),
        (
            "sys\nuser\nhi\nuser\na\nb\nt\nd\n{\"type\":\"object\"}".to_string(),
            2
        )
    );
    let out = translate_request(
        anthropic::AnthropicRequest {
            tools: Some(vec![weather_tool()]),
            ..base_request()
        },
        &default_policy(),
    )
    .unwrap();
    assert_eq!(
        openai_tokenize_text(&out),
        (
            "hi\nget_weather\n{\"required\":[],\"type\":\"object\"}".to_string(),
            1
        )
    );
}
