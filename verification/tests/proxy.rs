use anthropic_proxy::config::{parse_model_map, parse_terms, Config};
use anthropic_proxy::endpoints::{
    chat_completions_url, models_url, tokenize_url, valid_base_url,
};
use anthropic_proxy::error::ProxyError;
use anthropic_proxy::json::Json;
use anthropic_proxy::models::anthropic;
use anthropic_proxy::models::openai;
use anthropic_proxy::proxy::compat::{
    canonicalize_rejected_message_content, normalize_system_first, parse_rejected_message_index,
};
use anthropic_proxy::proxy::requests::{
    request_fields_summary, resolve_api_key, upstream_count_request,
};
use anthropic_proxy::proxy::retry::{
    transport_outcome, Outcome, Retry, Step, TransportFailure,
};
use anthropic_proxy::proxy::routing::{
    after_list_failure, strip_web_tools, web_route, ListFailure, ListStep, WebRoute,
};
use anthropic_proxy::proxy::upstream::{
    clamp_for_overflow, is_retriable_status, message_of_body, upstream_message,
};
use serde_json::Value;

fn value(text: &str) -> Value {
    serde_json::from_str(text).unwrap()
}

fn message(role: &str, content: Option<openai::MessageContent>) -> openai::Message {
    openai::Message {
        role: role.to_string(),
        content,
        ..Default::default()
    }
}

fn text(text: &str) -> Option<openai::MessageContent> {
    Some(openai::MessageContent::Text(text.to_string()))
}

fn text_of(message: &openai::Message) -> &str {
    match &message.content {
        Some(openai::MessageContent::Text(text)) => text,
        other => panic!("expected text, got {:?}", other),
    }
}

#[test]
fn request_fields_summary_strips_content_keeps_unknown_fields() {
    let req = value(
        r#"{
            "model": "opus-4-8",
            "max_tokens": 4096,
            "system": "you are helpful",
            "messages": [
                {"role": "user", "content": "hello"},
                {"role": "assistant", "content": "hi"}
            ],
            "tools": [
                {"name": "Bash", "input_schema": {}},
                {"type": "web_search_20250305", "name": "web_search"}
            ],
            "output_config": {"effort": "xhigh"}
        }"#,
    );

    let summary = value(&request_fields_summary(Json::from_value(req)));
    // Bulky content replaced by counts.
    assert!(summary.get("messages").is_none());
    assert!(summary.get("system").is_none());
    assert_eq!(summary["messages_count"], value("2"));
    assert_eq!(summary["tools_count"], value("2"));
    assert_eq!(summary["system_blocks"], value("1"));
    // Tool identifiers are kept: the type of server tools, the name of custom ones.
    assert_eq!(
        summary["tools"],
        value(r#"["Bash", "web_search_20250305"]"#)
    );
    // Control and unknown fields survive.
    assert_eq!(summary["model"], value(r#""opus-4-8""#));
    assert_eq!(summary["output_config"]["effort"], value(r#""xhigh""#));
}

#[test]
fn request_fields_summary_edge_cases() {
    let line = |text: &str| value(&request_fields_summary(Json::from_value(value(text))));
    assert_eq!(
        line("{}"),
        value(r#"{"messages_count":0,"tools_count":0,"tools":[],"system_blocks":0}"#)
    );
    assert_eq!(line("null"), value("null"));
    let blocks = line(r#"{"system": [{}, {}], "tools": [{"type": 1, "name": "n"}, {}], "messages": 3}"#);
    assert_eq!(blocks["system_blocks"], value("2"));
    assert_eq!(blocks["tools"], value(r#"["?", "?"]"#));
    assert_eq!(blocks["messages_count"], value("0"));
}

#[test]
fn upstream_message_extracts_openai_error_shape() {
    assert_eq!(
        upstream_message(r#"{"error":{"message":"bad model","type":"invalid_request_error"}}"#),
        "bad model"
    );
    assert_eq!(
        upstream_message(r#"{"message":"flat message"}"#),
        "flat message"
    );
    // Non-JSON or unrecognized shapes fall back to the raw text.
    assert_eq!(upstream_message("plain text error"), "plain text error");
}

#[test]
fn upstream_message_edge_cases() {
    // A message that is no text hides the one beside the error.
    let body = r#"{"error":{"message":1},"message":"outer"}"#;
    assert_eq!(upstream_message(body), body);
    assert_eq!(
        upstream_message(r#"{"error":"x","message":"outer"}"#),
        "outer"
    );
    let long = "é".repeat(501);
    assert_eq!(upstream_message(&long), "é".repeat(500));
    assert_eq!(message_of_body("raw", &None), "raw");
}

#[test]
fn canonicalizes_only_the_message_named_by_a_content_422() {
    let mut messages = vec![
        message("user", text("keep me")),
        message(
            "user",
            Some(openai::MessageContent::Parts(vec![
                openai::ContentPart::Text {
                    text: "before".to_string(),
                },
                openai::ContentPart::ImageUrl {
                    image_url: openai::ImageUrl {
                        url: "data:image/png;base64,abc".to_string(),
                    },
                },
                openai::ContentPart::Text {
                    text: "after".to_string(),
                },
            ])),
        ),
    ];

    assert!(canonicalize_rejected_message_content(
        &mut messages,
        "messages[1].content: data did not match any variant"
    ));
    assert!(matches!(
        &messages[0].content,
        Some(openai::MessageContent::Text(text)) if text == "keep me"
    ));
    assert!(matches!(
        &messages[1].content,
        Some(openai::MessageContent::Text(text))
            if text == "before\n[Image omitted: upstream rejected multipart message content]\nafter"
    ));
    // There is nothing left to do.
    assert!(!canonicalize_rejected_message_content(
        &mut messages,
        "messages[1].content: data did not match any variant"
    ));
}

#[test]
fn content_compatibility_retry_ignores_unrelated_422s() {
    let mut messages = vec![message("user", text("unchanged"))];

    assert!(!canonicalize_rejected_message_content(
        &mut messages,
        "tools[0].function.parameters is invalid"
    ));
    assert!(!canonicalize_rejected_message_content(
        &mut messages,
        "messages[99].content is invalid"
    ));
    assert_eq!(text_of(&messages[0]), "unchanged");
}

#[test]
fn missing_content_becomes_empty_text() {
    let mut messages = vec![message("assistant", None)];
    assert!(canonicalize_rejected_message_content(
        &mut messages,
        "messages[0].content"
    ));
    assert_eq!(text_of(&messages[0]), "");
}

#[test]
fn rejected_index_is_read_like_a_number() {
    assert_eq!(parse_rejected_message_index("x messages[12].content y"), Some(12));
    assert_eq!(parse_rejected_message_index("messages[+3].content"), Some(3));
    assert_eq!(parse_rejected_message_index("messages[].content"), None);
    assert_eq!(parse_rejected_message_index("messages[+].content"), None);
    assert_eq!(parse_rejected_message_index("messages[-1].content"), None);
    assert_eq!(parse_rejected_message_index("messages[1].role"), None);
    assert_eq!(
        parse_rejected_message_index("messages[1].role messages[2].content"),
        None
    );
    assert_eq!(
        parse_rejected_message_index("messages[99999999999999999999].content"),
        None
    );
}

#[test]
fn system_messages_become_one_that_leads() {
    let mut messages = vec![
        message("user", text("hi")),
        message("system", text("one")),
        message("system", text("  ")),
        message("assistant", text("yes")),
        message("system", text("two")),
    ];
    normalize_system_first(&mut messages);
    let roles: Vec<&str> = messages.iter().map(|m| m.role.as_str()).collect();
    assert_eq!(roles, vec!["system", "user", "assistant"]);
    assert_eq!(text_of(&messages[0]), "one\n\ntwo");
    normalize_system_first(&mut messages);
    assert_eq!(messages.len(), 3);
    assert_eq!(text_of(&messages[0]), "one\n\ntwo");
}

#[test]
fn blank_system_messages_are_dropped_and_orderly_ones_kept() {
    let mut blank = vec![message("user", text("hi")), message("system", text(" "))];
    normalize_system_first(&mut blank);
    assert_eq!(blank.len(), 1);
    assert_eq!(blank[0].role, "user");
    // One system message at the beginning stays, blank or not.
    let mut orderly = vec![message("system", text(" ")), message("user", text("hi"))];
    normalize_system_first(&mut orderly);
    assert_eq!(orderly.len(), 2);
    assert_eq!(text_of(&orderly[0]), " ");
}

#[test]
fn resolve_api_key_passthrough_extracts_x_api_key() {
    let config = Config {
        passthrough_api_key: true,
        api_key: None,
        ..Default::default()
    };
    let key = resolve_api_key(&config, Some("sk-my-test-key"));
    assert_eq!(key, Some("sk-my-test-key".to_string()));
}

#[test]
fn resolve_api_key_passthrough_ignores_empty_header() {
    let config = Config {
        passthrough_api_key: true,
        api_key: None,
        ..Default::default()
    };
    assert_eq!(resolve_api_key(&config, None), None);
    assert_eq!(resolve_api_key(&config, Some("")), None);
}

#[test]
fn resolve_api_key_passthrough_returns_none_when_missing() {
    let config = Config {
        passthrough_api_key: true,
        api_key: None,
        ..Default::default()
    };
    assert_eq!(resolve_api_key(&config, None), None);
}

#[test]
fn resolve_api_key_static_key_when_passthrough_disabled() {
    let config = Config {
        passthrough_api_key: false,
        api_key: Some("sk-upstream".to_string()),
        ..Default::default()
    };
    // Even if x-api-key is present, static key wins when passthrough is off
    let key = resolve_api_key(&config, Some("sk-ignored"));
    assert_eq!(key, Some("sk-upstream".to_string()));
}

#[test]
fn resolve_api_key_both_missing_returns_none() {
    let config = Config {
        passthrough_api_key: false,
        api_key: None,
        ..Default::default()
    };
    assert_eq!(resolve_api_key(&config, None), None);
}

#[test]
fn retriable_statuses() {
    for status in [429u16, 500, 503, 599] {
        assert!(is_retriable_status(status));
    }
    for status in [200u16, 400, 404, 422, 428, 430, 499, 600] {
        assert!(!is_retriable_status(status));
    }
}

const OVERFLOW: &str = "maximum context length is 105120 tokens. However, you requested 15746 \
                        output tokens and your prompt contains at least 89375 input tokens";

#[test]
fn clamp_takes_the_larger_input() {
    assert_eq!(clamp_for_overflow(OVERFLOW, None, Some(15746)), Some(13643));
    assert_eq!(
        clamp_for_overflow(OVERFLOW, Some(87272), Some(15746)),
        Some(13643)
    );
    assert_eq!(
        clamp_for_overflow(OVERFLOW, Some(95011), Some(15746)),
        Some(8007)
    );
    assert_eq!(clamp_for_overflow("invalid", Some(1), Some(15746)), None);
}

fn request() -> openai::OpenAIRequest {
    openai::OpenAIRequest {
        model: "m".to_string(),
        messages: vec![
            message("user", text("hi")),
            message("assistant", None),
        ],
        max_tokens: Some(15746),
        temperature: None,
        top_p: None,
        stop: None,
        stream: None,
        stream_options: None,
        tools: None,
        tool_choice: None,
        parallel_tool_calls: None,
        user: None,
        reasoning_effort: None,
        response_format: None,
    }
}

fn status(status: u16, message: &str) -> Outcome {
    Outcome::Status {
        status,
        message: message.to_string(),
    }
}

fn sent(step: Step) -> Retry {
    match step {
        Step::Send(retry) => retry,
        other => panic!("expected a send, got {:?}", other),
    }
}

fn failed(step: Step) -> ProxyError {
    match step {
        Step::Fail(err) => err,
        other => panic!("expected a failure, got {:?}", other),
    }
}

#[test]
fn every_url_gets_its_attempts() {
    let mut step = Retry::start(request(), 2);
    let mut seen = Vec::new();
    for n in 0..6 {
        let retry = sent(step);
        seen.push((retry.url(), retry.attempt()));
        step = retry.step(status(503, &format!("down {}", n)), None);
    }
    assert_eq!(seen, vec![(0, 1), (0, 2), (0, 3), (1, 1), (1, 2), (1, 3)]);
    match failed(step) {
        ProxyError::UpstreamStatus { status, message } => {
            assert_eq!(status, 503);
            assert_eq!(message, "down 5");
        }
        other => panic!("expected the last status, got {:?}", other),
    }
}

#[test]
fn without_urls_there_is_nothing_to_try() {
    match failed(Retry::start(request(), 0)) {
        ProxyError::Upstream(message) => assert_eq!(message, "All upstreams failed"),
        other => panic!("expected an upstream error, got {:?}", other),
    }
}

#[test]
fn client_errors_keep_their_status() {
    let retry = sent(Retry::start(request(), 2));
    match failed(retry.step(status(404, "no model"), None)) {
        ProxyError::UpstreamStatus { status, message } => {
            assert_eq!(status, 404);
            assert_eq!(message, "no model");
        }
        other => panic!("expected the status, got {:?}", other),
    }
}

#[test]
fn transport_failures() {
    let retry = sent(Retry::start(request(), 1));
    let retry = sent(retry.step(Outcome::Retriable(ProxyError::Http("reset".to_string())), None));
    assert_eq!(retry.attempt(), 2);
    assert!(matches!(
        failed(retry.step(Outcome::Fatal(ProxyError::Http("bad url".to_string())), None)),
        ProxyError::Http(message) if message == "bad url"
    ));
}

#[test]
fn overflow_is_clamped_three_times_at_most() {
    let retry = sent(Retry::start(request(), 2));
    let outcome = status(400, OVERFLOW);
    assert!(retry.needs_input_size(&outcome));
    assert!(!retry.needs_input_size(&status(400, "bad")));
    assert!(!retry.needs_input_size(&status(413, OVERFLOW)));
    let mut retry = sent(retry.step(outcome, None));
    assert_eq!(retry.request().max_tokens, Some(13643));
    for input in [90000u32, 91000] {
        retry = sent(retry.step(status(400, OVERFLOW), Some(input)));
        assert_eq!(retry.request().max_tokens, Some(105120 - 2102 - input));
    }
    assert!(!retry.needs_input_size(&status(400, OVERFLOW)));
    assert!(matches!(
        failed(retry.step(status(400, OVERFLOW), Some(92000))),
        ProxyError::UpstreamStatus { status: 400, .. }
    ));
}

#[test]
fn rejected_content_is_made_plain_once() {
    let retry = sent(Retry::start(request(), 1));
    let retry = sent(retry.step(status(422, "messages[1].content: bad"), None));
    assert_eq!(text_of(&retry.request().messages[1]), "");
    assert_eq!(text_of(&retry.request().messages[0]), "hi");
    assert!(matches!(
        failed(retry.step(status(422, "messages[1].content: bad"), None)),
        ProxyError::UpstreamStatus { status: 422, .. }
    ));
}

#[test]
fn answer_ends_the_retries() {
    let retry = sent(Retry::start(request(), 1));
    match retry.step(Outcome::Answered, None) {
        Step::Accept(request) => assert_eq!(request.model, "m"),
        other => panic!("expected acceptance, got {:?}", other),
    }
}

#[test]
fn last_attempt_spent_on_a_clamp_keeps_its_status() {
    let retry = sent(Retry::start(request(), 1));
    let retry = sent(retry.step(status(400, OVERFLOW), None));
    let retry = sent(retry.step(status(400, OVERFLOW), Some(90000)));
    let err = failed(retry.step(status(400, OVERFLOW), Some(91000)));
    assert_eq!(err.status_code(), 400);
    match err {
        ProxyError::UpstreamStatus { status, message } => {
            assert_eq!(status, 400);
            assert_eq!(message, OVERFLOW);
        }
        other => panic!("expected the status, got {:?}", other),
    }
}

#[test]
fn last_attempt_spent_on_rejected_content_keeps_its_status() {
    let rejected = "messages[1].content: bad";
    let retry = sent(Retry::start(request(), 1));
    let retry = sent(retry.step(status(503, "busy"), None));
    let retry = sent(retry.step(status(503, "busy"), None));
    match failed(retry.step(status(422, rejected), None)) {
        ProxyError::UpstreamStatus { status, message } => {
            assert_eq!(status, 422);
            assert_eq!(message, rejected);
        }
        other => panic!("expected the status, got {:?}", other),
    }
}

fn count_request(model: &str) -> anthropic::CountTokensRequest {
    anthropic::CountTokensRequest {
        model: model.to_string(),
        messages: vec![anthropic::Message {
            role: "user".to_string(),
            content: anthropic::MessageContent::Text("hi".to_string()),
        }],
        system: None,
        tools: None,
    }
}

#[test]
fn count_request_is_translated_like_a_chat() {
    let config = Config {
        upstream_tokenize: true,
        ..Default::default()
    };
    let counted = upstream_count_request(count_request("m"), &config).unwrap();
    assert_eq!(counted.model, "m");
    assert_eq!(counted.max_tokens, Some(1));
    assert_eq!(text_of(&counted.messages[0]), "hi");
    assert!(upstream_count_request(count_request(""), &config).is_none());
    assert!(upstream_count_request(count_request("m"), &Config::default()).is_none());
}

fn tool(tool_type: Option<&str>) -> anthropic::Tool {
    anthropic::Tool {
        name: "t".to_string(),
        description: None,
        input_schema: Json::Null,
        tool_type: tool_type.map(str::to_string),
    }
}

fn chat_request(tools: Option<Vec<anthropic::Tool>>) -> anthropic::AnthropicRequest {
    anthropic::AnthropicRequest {
        model: "m".to_string(),
        messages: vec![],
        max_tokens: 1,
        system: None,
        temperature: None,
        top_p: None,
        top_k: None,
        stop_sequences: None,
        stream: None,
        tools,
        metadata: None,
        tool_choice: None,
        extra: Json::Null,
    }
}

#[test]
fn web_tools_are_routed_or_stripped() {
    let with_agent = Config {
        websearch_model: Some("auto".to_string()),
        ..Default::default()
    };
    let without_agent = Config::default();
    let tools = || Some(vec![tool(None), tool(Some("web_search_20250305"))]);
    assert_eq!(web_route(&chat_request(tools()), &with_agent), WebRoute::Agent);
    assert_eq!(web_route(&chat_request(tools()), &without_agent), WebRoute::Strip);
    assert_eq!(
        web_route(&chat_request(Some(vec![tool(Some("web_fetch_1"))])), &without_agent),
        WebRoute::Strip
    );
    assert_eq!(
        web_route(&chat_request(Some(vec![tool(Some("custom"))])), &with_agent),
        WebRoute::Plain
    );
    assert_eq!(web_route(&chat_request(None), &with_agent), WebRoute::Plain);
    let left = strip_web_tools(tools()).unwrap();
    assert_eq!(left.len(), 1);
    assert!(left[0].tool_type.is_none());
    assert!(strip_web_tools(None).is_none());
}

#[test]
fn model_list_moves_on_or_fails() {
    let answered = |status: u16| ListFailure::Status {
        status,
        status_text: "503 Service Unavailable".to_string(),
        body: "busy".to_string(),
    };
    assert!(matches!(after_list_failure(&answered(503), 1), ListStep::Next));
    for (status, more) in [(503, 0), (401, 1), (404, 0)] {
        match after_list_failure(&answered(status), more) {
            ListStep::Fail(err) => {
                assert_eq!(err.status_code(), status);
                match err {
                    ProxyError::UpstreamStatus { status: kept, message } => {
                        assert_eq!(kept, status);
                        assert_eq!(message, "Upstream returned 503 Service Unavailable: busy");
                    }
                    other => panic!("expected the status, got {:?}", other),
                }
            }
            ListStep::Next => panic!("expected a failure"),
        }
    }
    match after_list_failure(&ListFailure::Unreachable("refused".to_string()), 0) {
        ListStep::Fail(ProxyError::Upstream(message)) => {
            assert_eq!(message, "HTTP error: refused")
        }
        other => panic!("expected a failure, got {:?}", other),
    }
    assert!(matches!(
        after_list_failure(&ListFailure::Unreachable("refused".to_string()), 2),
        ListStep::Next
    ));
}

#[test]
fn errors_have_a_status_and_a_kind() {
    let kind = |err: ProxyError| (err.status_code(), err.error_kind());
    let upstream = |status: u16| ProxyError::UpstreamStatus {
        status,
        message: String::new(),
    };
    assert_eq!(kind(upstream(429)), (429, "rate_limit_error"));
    assert_eq!(kind(upstream(401)), (401, "authentication_error"));
    assert_eq!(kind(upstream(403)), (403, "permission_error"));
    assert_eq!(kind(upstream(404)), (404, "not_found_error"));
    assert_eq!(kind(upstream(413)), (413, "request_too_large"));
    assert_eq!(kind(upstream(422)), (422, "invalid_request_error"));
    assert_eq!(kind(upstream(503)), (503, "api_error"));
    assert_eq!(kind(ProxyError::Http(String::new())), (502, "api_error"));
    assert_eq!(kind(ProxyError::Upstream(String::new())), (502, "api_error"));
    assert_eq!(kind(ProxyError::Transform(String::new())), (500, "api_error"));
}

#[test]
fn endpoints_of_any_base_url() {
    let urls = |base: &str| {
        (
            chat_completions_url(base),
            models_url(base),
            tokenize_url(base),
        )
    };
    let of = |api: &str, service: &str| {
        (
            format!("{}/chat/completions", api),
            format!("{}/models", api),
            format!("{}/tokenize", service),
        )
    };
    assert_eq!(
        urls("https://api.openai.com"),
        of("https://api.openai.com/v1", "https://api.openai.com")
    );
    assert_eq!(
        urls("https://gateway.company.internal/v2/"),
        of(
            "https://gateway.company.internal/v2",
            "https://gateway.company.internal"
        )
    );
    assert_eq!(
        urls("https://gateway.company.internal/v2/chat/completions"),
        of(
            "https://gateway.company.internal/v2",
            "https://gateway.company.internal"
        )
    );
    assert_eq!(
        urls("https://openrouter.ai/api"),
        of("https://openrouter.ai/api/v1", "https://openrouter.ai/api")
    );
    assert_eq!(
        urls("http://h/x/chat/completions"),
        of("http://h/x", "http://h/x")
    );
    assert_eq!(urls("http://h/v"), of("http://h/v/v1", "http://h/v"));
    // A host is no version and no part of an endpoint.
    assert_eq!(urls("http://v2"), of("http://v2/v1", "http://v2"));
    assert_eq!(urls("http://chat"), of("http://chat/v1", "http://chat"));
    assert_eq!(
        chat_completions_url("http://h/v2/chat/completions"),
        "http://h/v2/chat/completions"
    );
}

#[test]
fn base_urls_that_are_rejected() {
    for url in [
        "https://api.openai.com",
        "https://openrouter.ai/api",
        "http://localhost:11434/",
        "https://gateway.company.internal/v2",
        "https://gateway.company.internal/v2/chat/completions/",
        "http://chat",
        "http://chat/",
        "http://completions",
        "http://h/mychat",
        "http://h/chat/api",
    ] {
        assert!(valid_base_url(url), "{}", url);
    }
    for url in [
        "https://gateway.company.internal/v2/chat",
        "https://gateway.company.internal/chat/",
        "https://api.openai.com/v1/completions",
        "http://chat/completions",
        "https://api.openai.com/v1?key=1",
        "https://api.openai.com/v1#top",
        "https://api.openai.com?",
    ] {
        assert!(!valid_base_url(url), "{}", url);
    }
}

#[test]
fn transport_failures_are_told_apart() {
    let failure = |at: usize| TransportFailure {
        connect: at == 0,
        timeout: at == 1,
        request: at == 2,
        body: at == 3,
        decode: at == 4,
        message: "reset".to_string(),
    };
    for at in 0..5 {
        assert!(matches!(
            transport_outcome(failure(at)),
            Outcome::Retriable(ProxyError::Http(message)) if message == "reset"
        ));
    }
    assert!(matches!(
        transport_outcome(failure(5)),
        Outcome::Fatal(ProxyError::Http(message)) if message == "reset"
    ));
}

#[test]
fn configured_lists_are_read() {
    let map = parse_model_map(" a = x ;b=y;;no;=z;a=w");
    assert_eq!(map.get("a").map(String::as_str), Some("w"));
    assert_eq!(map.get("b").map(String::as_str), Some("y"));
    assert_eq!(map.get("no"), None);
    assert_eq!(map.get(""), None);
    assert_eq!(
        parse_terms("rm -rf; git reset --hard\n;x\n"),
        vec!["rm -rf", "git reset --hard", "x"]
    );
}
