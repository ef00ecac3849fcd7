use anthropic_proxy::json::Json;
use anthropic_proxy::models::anthropic;
use anthropic_proxy::models::openai;
use anthropic_proxy::translate::elements::{
    fit_output_to_window, map_stop_reason, parse_context_overflow, remove_term,
    split_prompt_tokens,
};
use anthropic_proxy::translate::messages::translate_message;
use anthropic_proxy::translate::schema::normalize_schema;
use anthropic_proxy::translate::tools::{is_batch_tool, translate_tool, translate_tool_choice};

fn value(text: &str) -> serde_json::Value {
    serde_json::from_str(text).unwrap()
}

fn json(text: &str) -> Json {
    Json::from_value(value(text))
}

fn cleaned(text: &str) -> serde_json::Value {
    normalize_schema(json(text)).to_value()
}

fn choice(text: &str) -> (Option<serde_json::Value>, Option<bool>) {
    let (choice, parallel) = translate_tool_choice(&json(text));
    (choice.map(|c| c.to_value()), parallel)
}

#[test]
fn thinking_block_becomes_reasoning_content() {
    let msg = anthropic::Message {
        role: "assistant".to_string(),
        content: anthropic::MessageContent::Blocks(vec![
            anthropic::ContentBlock::Thinking {
                thinking: "I should preserve this".to_string(),
            },
            anthropic::ContentBlock::Text {
                text: "Answer".to_string(),
                cache_control: None,
            },
        ]),
    };

    let translated = translate_message(msg).unwrap();

    assert_eq!(translated.len(), 1);
    assert_eq!(
        translated[0].reasoning_content.as_deref(),
        Some("I should preserve this")
    );
    assert!(matches!(
        translated[0].content,
        Some(openai::MessageContent::Text(_))
    ));
}

#[test]
fn thinking_only_block_still_becomes_assistant_message() {
    let msg = anthropic::Message {
        role: "assistant".to_string(),
        content: anthropic::MessageContent::Blocks(vec![anthropic::ContentBlock::Thinking {
            thinking: "hidden chain".to_string(),
        }]),
    };

    let translated = translate_message(msg).unwrap();

    assert_eq!(translated.len(), 1);
    assert!(translated[0].content.is_none());
    assert_eq!(
        translated[0].reasoning_content.as_deref(),
        Some("hidden chain")
    );
}

#[test]
fn multiple_text_blocks_collapse_to_a_plain_string() {
    let msg = anthropic::Message {
        role: "user".to_string(),
        content: anthropic::MessageContent::Blocks(vec![
            anthropic::ContentBlock::Text {
                text: "first".to_string(),
                cache_control: None,
            },
            anthropic::ContentBlock::Text {
                text: " second".to_string(),
                cache_control: None,
            },
        ]),
    };

    let translated = translate_message(msg).unwrap();

    assert!(matches!(
        &translated[0].content,
        Some(openai::MessageContent::Text(text)) if text == "first second"
    ));
}

#[test]
fn redacted_thinking_is_left_out() {
    let msg = anthropic::Message {
        role: "assistant".to_string(),
        content: anthropic::MessageContent::Blocks(vec![
            anthropic::ContentBlock::RedactedThinking {
                data: "opaque".to_string(),
            },
            anthropic::ContentBlock::Thinking {
                thinking: String::new(),
            },
        ]),
    };
    assert_eq!(translate_message(msg).unwrap().len(), 0);
}

#[test]
fn tool_results_come_before_the_rest_of_a_message() {
    let msg = anthropic::Message {
        role: "user".to_string(),
        content: anthropic::MessageContent::Blocks(vec![
            anthropic::ContentBlock::Text {
                text: "and now?".to_string(),
                cache_control: None,
            },
            anthropic::ContentBlock::ToolResult {
                tool_use_id: "t1".to_string(),
                content: anthropic::ToolResultContent::Text("42".to_string()),
                is_error: None,
            },
        ]),
    };
    let translated = translate_message(msg).unwrap();
    assert_eq!(translated.len(), 2);
    assert_eq!(translated[0].role, "tool");
    assert_eq!(translated[0].tool_call_id.as_deref(), Some("t1"));
    assert_eq!(translated[1].role, "user");
}

#[test]
fn normalize_schema_adds_empty_required_to_object_schemas() {
    let cleaned = cleaned(
        r#"{
            "type": "object",
            "properties": {
                "prompt": { "type": "string", "format": "uri" }
            }
        }"#,
    );

    assert_eq!(cleaned["required"], value("[]"));
    assert!(cleaned["properties"]["prompt"].get("format").is_none());
}

#[test]
fn normalize_schema_normalizes_non_array_required() {
    let cleaned = cleaned(r#"{ "type": "object", "required": null }"#);
    assert_eq!(cleaned["required"], value("[]"));
}

#[test]
fn normalize_schema_recursively_processes_all_of() {
    let cleaned = cleaned(
        r#"{
            "allOf": [
                { "type": "object", "properties": { "a": { "type": "string", "format": "uri" } } },
                { "type": "object", "properties": { "b": { "type": "integer" } } }
            ]
        }"#,
    );

    assert!(cleaned["allOf"][0]["properties"]["a"]
        .get("format")
        .is_none());
    assert_eq!(cleaned["allOf"][0]["required"], value("[]"));
    assert_eq!(cleaned["allOf"][1]["required"], value("[]"));
}

#[test]
fn normalize_schema_is_strict_at_every_level() {
    let inner = r#"{"type": "object", "title": null, "format": "uri", "required": "a"}"#;
    let cleaned = cleaned(&format!(
        r#"{{"type": "object",
            "properties": {{"p": {{"items": {inner}}}}},
            "not": {{"anyOf": [{inner}, {{"else": {inner}}}]}}}}"#
    ));
    let strict = value(r#"{"type": "object", "required": []}"#);
    assert_eq!(cleaned["properties"]["p"]["items"], strict);
    assert_eq!(cleaned["not"]["anyOf"][0], strict);
    assert_eq!(cleaned["not"]["anyOf"][1]["else"], strict);
    assert_eq!(cleaned["required"], value("[]"));
}

#[test]
fn normalize_schema_removes_null_values() {
    let cleaned = cleaned(
        r#"{
            "type": "object",
            "description": null,
            "properties": { "a": { "type": "string" } }
        }"#,
    );
    assert!(cleaned.get("description").is_none());
}

#[test]
fn normalize_schema_is_idempotent_and_leaves_the_rest_alone() {
    let source = r#"{
        "type": "object",
        "required": "a",
        "properties": { "a": { "enum": [1, null, "uri"], "format": "date" }, "b": null },
        "items": [ { "type": "object" } ],
        "if": { "format": "uri" },
        "const": { "format": "uri", "none": null }
    }"#;
    let expected = value(
        r#"{
        "type": "object",
        "required": [],
        "properties": { "a": { "enum": [1, null, "uri"], "format": "date" }, "b": null },
        "items": [ { "type": "object", "required": [] } ],
        "if": {},
        "const": { "format": "uri", "none": null }
    }"#,
    );
    let once = normalize_schema(json(source));
    assert_eq!(once.to_value(), expected);
    assert_eq!(normalize_schema(once).to_value(), expected);
}

#[test]
fn remove_term_case_insensitive_with_flexible_whitespace() {
    let result = remove_term("Avoid destructive operations such as RM\t-rF.", "rm -rf");
    assert_eq!(result, "Avoid destructive operations such as .");
}

#[test]
fn remove_term_respects_word_boundaries() {
    let result = remove_term("farm -rf should not match rm -rf", "rm -rf");
    assert_eq!(result, "farm -rf should not match ");
}

#[test]
fn remove_term_edge_cases() {
    assert_eq!(remove_term("rm -rf", ""), "rm -rf");
    assert_eq!(remove_term("rm -rf", " \t "), "rm -rf");
    assert_eq!(remove_term("", "rm"), "");
    assert_eq!(remove_term("rm -rf", "RM  -RF"), "");
    assert_eq!(remove_term("rm-rf", "rm -rf"), "rm-rf");
    assert_eq!(remove_term("größe rm größe", "rm"), "größe  größe");
    assert_eq!(remove_term("rm_ rm", "rm"), "rm_ ");
}

#[test]
fn map_stop_reason_translates_all_known_reasons() {
    assert_eq!(map_stop_reason(Some("stop")), Some("end_turn".to_string()));
    assert_eq!(
        map_stop_reason(Some("tool_calls")),
        Some("tool_use".to_string())
    );
    assert_eq!(
        map_stop_reason(Some("length")),
        Some("max_tokens".to_string())
    );
    assert_eq!(
        map_stop_reason(Some("content_filter")),
        Some("refusal".to_string())
    );
    assert_eq!(
        map_stop_reason(Some("unknown")),
        Some("end_turn".to_string())
    );
    assert_eq!(map_stop_reason(None), None);
}

#[test]
fn translate_tool_choice_maps_simple_variants() {
    assert_eq!(
        choice(r#"{"type": "auto"}"#),
        (Some(value(r#""auto""#)), None)
    );
    assert_eq!(
        choice(r#"{"type": "any"}"#),
        (Some(value(r#""required""#)), None)
    );
    assert_eq!(
        choice(r#"{"type": "none"}"#),
        (Some(value(r#""none""#)), None)
    );
}

#[test]
fn translate_tool_choice_maps_specific_tool() {
    let (choice, parallel) = choice(r#"{"type": "tool", "name": "search"}"#);
    assert_eq!(
        choice,
        Some(value(
            r#"{"type": "function", "function": {"name": "search"}}"#
        ))
    );
    assert_eq!(parallel, None);
}

#[test]
fn translate_tool_choice_inverts_disable_parallel() {
    let (choice, parallel) = choice(r#"{"type": "any", "disable_parallel_tool_use": true}"#);
    assert_eq!(choice, Some(value(r#""required""#)));
    assert_eq!(parallel, Some(false));
}

#[test]
fn translate_tool_choice_ignores_unknown_shapes() {
    assert_eq!(choice(r#""auto""#), (None, None));
    assert_eq!(choice(r#"{"type": "tool"}"#), (None, None));
}

#[test]
fn clamp_reduces_max_tokens_to_fit_context() {
    // margin = max(105120/50, 1024) = 2102; available = 105120 - 95011 - 2102 = 8007
    let clamped = fit_output_to_window(105120, 95011, Some(16384)).unwrap();
    assert_eq!(clamped, 8007);
    assert!(95011 + clamped <= 105120);
}

#[test]
fn clamp_parses_context_and_input_from_error() {
    let msg = "This model's maximum context length is 105120 tokens. However, you \
               requested 16384 output tokens and your prompt contains at least 88737 \
               input tokens, for a total of at least 105121 tokens.";
    assert_eq!(parse_context_overflow(msg), Some((105120, 88737)));
}

#[test]
fn clamp_none_when_prompt_alone_exceeds_window() {
    assert_eq!(fit_output_to_window(1000, 1200, Some(500)), None);
}

#[test]
fn clamp_converges_via_error_lower_bound() {
    let under_count = fit_output_to_window(105120, 87272, Some(32000)).unwrap();
    assert_eq!(under_count, 15746);
    assert!(
        89375 + under_count > 105120,
        "under-count clamp still overflows"
    );

    let on_lower_bound = fit_output_to_window(105120, 89375, Some(15746)).unwrap();
    assert!(on_lower_bound < 15746, "retry must shrink max_tokens");
    assert!(
        89375 + on_lower_bound <= 105120,
        "lower-bound clamp must fit"
    );
}

#[test]
fn clamp_none_for_unrelated_errors() {
    assert_eq!(parse_context_overflow("invalid api key"), None);
}

#[test]
fn clamp_none_when_available_not_smaller_than_current() {
    // available = 105120 - 1000 - 2102 = 102018, which is not < current (8000).
    assert_eq!(fit_output_to_window(105120, 1000, Some(8000)), None);
}

#[test]
fn clamp_parses_input_via_trailing_fallback() {
    // No "contains at least" phrasing: the number before " input tokens".
    let msg = "maximum context length is 200000 tokens, but you have 100000 input tokens";
    let (context, input) = parse_context_overflow(msg).unwrap();
    assert_eq!((context, input), (200000, 100000));
    // margin = max(200000/50, 1024) = 4000; available = 200000 - 100000 - 4000 = 96000
    assert_eq!(
        fit_output_to_window(context, input, Some(150000)),
        Some(96000)
    );
}

#[test]
fn clamp_at_the_edges() {
    // What is left has to be 256 at least, and less than what was asked for.
    assert_eq!(fit_output_to_window(2280, 1000, None), Some(256));
    assert_eq!(fit_output_to_window(2279, 1000, None), None);
    assert_eq!(fit_output_to_window(2280, 1000, Some(257)), Some(256));
    assert_eq!(fit_output_to_window(2280, 1000, Some(256)), None);
    assert_eq!(
        parse_context_overflow("context length is 4294967296, contains at least 1"),
        None
    );
    assert_eq!(
        parse_context_overflow("context length is 10, contains at least x, 7 input tokens"),
        Some((10, 7))
    );
}

#[test]
fn prompt_tokens_are_split_by_cache() {
    let mut usage = openai::Usage::default();
    usage.prompt_tokens = 10;
    assert_eq!(split_prompt_tokens(&usage), (10, None));
    usage.prompt_tokens_details = Some(openai::PromptTokensDetails { cached_tokens: 4 });
    assert_eq!(split_prompt_tokens(&usage), (6, Some(4)));
    usage.prompt_tokens_details = Some(openai::PromptTokensDetails { cached_tokens: 40 });
    assert_eq!(split_prompt_tokens(&usage), (0, Some(40)));
}

fn tool(tool_type: Option<&str>) -> anthropic::Tool {
    anthropic::Tool {
        name: "x".to_string(),
        description: None,
        input_schema: json("{}"),
        tool_type: tool_type.map(str::to_string),
    }
}

#[test]
fn batch_tool_detected() {
    assert!(is_batch_tool(&tool(Some("BatchTool"))));
}

#[test]
fn regular_tool_not_batch() {
    assert!(!is_batch_tool(&tool(None)));
}

#[test]
fn tool_becomes_a_function_with_a_normal_schema() {
    let translated = translate_tool(anthropic::Tool {
        name: "x".to_string(),
        description: Some("d".to_string()),
        input_schema: json(r#"{"type": "object", "title": null}"#),
        tool_type: None,
    });
    assert_eq!(translated.tool_type, "function");
    assert_eq!(translated.function.name, "x");
    assert_eq!(translated.function.description.as_deref(), Some("d"));
    assert_eq!(
        translated.function.parameters.to_value(),
        value(r#"{"type": "object", "required": []}"#)
    );
}
