use anthropic_proxy::models::anthropic::{ContentBlockStart, Delta, StreamEvent};
use anthropic_proxy::models::openai;
use anthropic_proxy::proxy::sse::{
    find_frame_boundary, heartbeat_period, keep_alive_comment, serialize_event, SseDecoder, SseItem,
};
use anthropic_proxy::translate::stream::{
    initial_state, stream_step, translate_chunk, StreamInput,
};
use serde_json::Value;

fn value(text: &str) -> Value {
    serde_json::from_str(text).unwrap()
}

fn object(members: Vec<(&str, Value)>) -> Value {
    let mut map = serde_json::Map::new();
    for (key, member) in members {
        map.insert(key.to_string(), member);
    }
    Value::Object(map)
}

fn opt_text(value: &Value) -> Option<String> {
    value.as_str().map(str::to_string)
}

fn opt_value(text: &Option<String>) -> Value {
    match text {
        Some(text) => Value::from(text.as_str()),
        None => Value::Null,
    }
}

fn number(value: &Value) -> u32 {
    value.as_u64().unwrap_or_default() as u32
}

fn parse_chunk(data: &str) -> Option<openai::StreamChunk> {
    let value: Value = serde_json::from_str(data).ok()?;
    let choices = value["choices"].as_array()?;
    Some(openai::StreamChunk {
        id: opt_text(&value["id"]),
        model: opt_text(&value["model"]),
        choices: choices
            .iter()
            .map(|c| openai::StreamChoice {
                index: number(&c["index"]),
                delta: openai::StreamDelta {
                    reasoning_content: opt_text(&c["delta"]["reasoning_content"])
                        .or_else(|| opt_text(&c["delta"]["reasoning"])),
                    content: opt_text(&c["delta"]["content"]),
                    tool_calls: c["delta"]["tool_calls"].as_array().map(|calls| {
                        calls
                            .iter()
                            .map(|call| openai::DeltaToolCall {
                                index: number(&call["index"]),
                                id: opt_text(&call["id"]),
                                name: opt_text(&call["function"]["name"]),
                                arguments: opt_text(&call["function"]["arguments"]),
                            })
                            .collect()
                    }),
                },
                finish_reason: opt_text(&c["finish_reason"]),
            })
            .collect(),
        usage: value.get("usage").filter(|u| !u.is_null()).map(|usage| openai::Usage {
            prompt_tokens: number(&usage["prompt_tokens"]),
            completion_tokens: number(&usage["completion_tokens"]),
            total_tokens: number(&usage["total_tokens"]),
            prompt_tokens_details: None,
        }),
    })
}

fn event_value(event: &StreamEvent) -> Value {
    let kind = ("type", Value::from(event.event_type()));
    match event {
        StreamEvent::MessageStart { message } => object(vec![
            kind,
            (
                "message",
                object(vec![
                    ("id", Value::from(message.id.as_str())),
                    ("model", Value::from(message.model.as_str())),
                    ("role", Value::from(message.role.as_str())),
                    ("input_tokens", Value::from(message.usage.input_tokens)),
                ]),
            ),
        ]),
        StreamEvent::ContentBlockStart { index, content_block } => {
            let block = match content_block {
                ContentBlockStart::Text { .. } => object(vec![("type", Value::from("text"))]),
                ContentBlockStart::ToolUse { id, name } => object(vec![
                    ("type", Value::from("tool_use")),
                    ("id", Value::from(id.as_str())),
                    ("name", Value::from(name.as_str())),
                ]),
                ContentBlockStart::Thinking { .. } => {
                    object(vec![("type", Value::from("thinking"))])
                }
            };
            object(vec![kind, ("index", Value::from(*index)), ("content_block", block)])
        }
        StreamEvent::ContentBlockDelta { index, delta } => {
            let delta = match delta {
                Delta::TextDelta { text } => object(vec![
                    ("type", Value::from("text_delta")),
                    ("text", Value::from(text.as_str())),
                ]),
                Delta::InputJsonDelta { partial_json } => object(vec![
                    ("type", Value::from("input_json_delta")),
                    ("partial_json", Value::from(partial_json.as_str())),
                ]),
                Delta::ThinkingDelta { thinking } => object(vec![
                    ("type", Value::from("thinking_delta")),
                    ("thinking", Value::from(thinking.as_str())),
                ]),
            };
            object(vec![kind, ("index", Value::from(*index)), ("delta", delta)])
        }
        StreamEvent::ContentBlockStop { index } => {
            object(vec![kind, ("index", Value::from(*index))])
        }
        StreamEvent::MessageDelta { delta, usage } => object(vec![
            kind,
            (
                "delta",
                object(vec![("stop_reason", opt_value(&delta.stop_reason))]),
            ),
            (
                "usage",
                object(vec![
                    ("input_tokens", usage.input_tokens.map_or(Value::Null, Value::from)),
                    ("output_tokens", Value::from(usage.output_tokens)),
                ]),
            ),
        ]),
        StreamEvent::MessageStop | StreamEvent::Ping => object(vec![kind]),
        StreamEvent::Error { error } => object(vec![
            kind,
            (
                "error",
                object(vec![
                    ("type", Value::from(error.error_type.as_str())),
                    ("message", Value::from(error.message.as_str())),
                ]),
            ),
        ]),
    }
}

/// Streams pieces through decoder and translation, ends the stream, and reads back what a client
/// would get.
fn collect_items(pieces: Vec<Result<String, String>>, model: &str) -> Vec<Value> {
    let mut decoder = SseDecoder::new();
    let mut state = initial_state(model.to_string(), 0);
    let mut inputs = Vec::new();
    for piece in pieces {
        match piece {
            Ok(text) => inputs.extend(decoder.push(&text).into_iter().map(|item| match item {
                SseItem::Done => StreamInput::Done,
                SseItem::Data(data) => match parse_chunk(&data) {
                    Some(chunk) => StreamInput::Chunk(chunk),
                    None => StreamInput::Unreadable,
                },
            })),
            Err(err) => inputs.push(StreamInput::Error(err)),
        }
    }
    inputs.push(StreamInput::End);
    let mut out = String::new();
    for input in inputs {
        let (events, read_on) = stream_step(&mut state, input);
        for event in &events {
            out.push_str(&serialize_event(event, &event_value(event).to_string()));
        }
        if !read_on {
            break;
        }
    }
    let mut reader = SseDecoder::new();
    let mut events = Vec::new();
    for item in reader.push(&out) {
        match item {
            SseItem::Data(data) => events.push(value(&data)),
            SseItem::Done => panic!("the proxy sends no such mark"),
        }
    }
    events
}

fn collect_events(chunks: Vec<String>, model: &str) -> Vec<Value> {
    collect_items(chunks.into_iter().map(Ok).collect(), model)
}

fn frame(chunk: &Value) -> String {
    format!("data: {}\n\n", chunk)
}

fn chunk_with(id: &str, model: &str, delta: Value, finish_reason: Option<&str>) -> String {
    let mut choice = vec![("index", Value::from(0)), ("delta", delta)];
    if let Some(reason) = finish_reason {
        choice.push(("finish_reason", Value::from(reason)));
    }
    frame(&object(vec![
        ("id", Value::from(id)),
        ("model", Value::from(model)),
        ("choices", Value::from(vec![object(choice)])),
    ]))
}

fn openai_chunk(
    id: &str,
    model: &str,
    content: Option<&str>,
    finish_reason: Option<&str>,
) -> String {
    let delta = match content {
        Some(content) => object(vec![("content", Value::from(content))]),
        None => object(vec![]),
    };
    chunk_with(id, model, delta, finish_reason)
}

fn openai_chunk_with_reasoning(id: &str, model: &str, reasoning: &str) -> String {
    let delta = object(vec![("reasoning", Value::from(reasoning))]);
    chunk_with(id, model, delta, None)
}

fn openai_chunk_with_reasoning_content(id: &str, model: &str, reasoning: &str) -> String {
    let delta = object(vec![("reasoning_content", Value::from(reasoning))]);
    chunk_with(id, model, delta, None)
}

fn openai_chunk_with_tool_call(
    id: &str,
    model: &str,
    tool_id: Option<&str>,
    name: Option<&str>,
    args: Option<&str>,
    finish_reason: Option<&str>,
) -> String {
    let mut call = vec![("index", Value::from(0))];
    if let Some(tool_id) = tool_id {
        call.push(("id", Value::from(tool_id)));
        call.push(("type", Value::from("function")));
    }
    let mut function = Vec::new();
    if let Some(name) = name {
        function.push(("name", Value::from(name)));
    }
    if let Some(args) = args {
        function.push(("arguments", Value::from(args)));
    }
    if !function.is_empty() {
        call.push(("function", object(function)));
    }
    let delta = object(vec![("tool_calls", Value::from(vec![object(call)]))]);
    chunk_with(id, model, delta, finish_reason)
}

fn openai_done() -> String {
    "data: [DONE]\n\n".to_string()
}

fn text_deltas(events: &[Value]) -> Vec<&Value> {
    events
        .iter()
        .filter(|e| e["type"] == "content_block_delta" && e["delta"]["type"] == "text_delta")
        .collect()
}

fn text_of(events: &[Value]) -> String {
    text_deltas(events)
        .iter()
        .map(|e| e["delta"]["text"].as_str().unwrap_or_default())
        .collect()
}

#[test]
fn text_stream_produces_message_start_content_block_and_stop() {
    let chunks = vec![
        openai_chunk("chatcmpl-1", "gpt-4o", Some("Hello"), None),
        openai_chunk("chatcmpl-1", "gpt-4o", Some(" world"), None),
        openai_chunk("chatcmpl-1", "gpt-4o", None, Some("stop")),
        openai_done(),
    ];

    let events = collect_events(chunks, "fallback");

    assert_eq!(events[0]["type"], "message_start");
    assert_eq!(events[0]["message"]["id"], "chatcmpl-1");
    assert_eq!(events[0]["message"]["model"], "gpt-4o");
    assert_eq!(events[0]["message"]["role"], "assistant");

    assert_eq!(events[1]["type"], "content_block_start");
    assert_eq!(events[1]["content_block"]["type"], "text");

    assert_eq!(events[2]["type"], "content_block_delta");
    assert_eq!(events[2]["delta"]["type"], "text_delta");
    assert_eq!(events[2]["delta"]["text"], "Hello");

    assert_eq!(events[3]["type"], "content_block_delta");
    assert_eq!(events[3]["delta"]["text"], " world");

    assert_eq!(events[4]["type"], "content_block_stop");

    assert_eq!(events[5]["type"], "message_delta");
    assert_eq!(events[5]["delta"]["stop_reason"], "end_turn");

    assert_eq!(events[6]["type"], "message_stop");
    assert_eq!(events.len(), 7);
}

#[test]
fn thinking_then_text_produces_two_content_blocks() {
    let chunks = vec![
        openai_chunk_with_reasoning("chatcmpl-2", "gpt-4o", "Let me think..."),
        openai_chunk_with_reasoning("chatcmpl-2", "gpt-4o", " more thinking"),
        openai_chunk("chatcmpl-2", "gpt-4o", Some("The answer is 42"), None),
        openai_chunk("chatcmpl-2", "gpt-4o", None, Some("stop")),
        openai_done(),
    ];

    let events = collect_events(chunks, "fallback");

    assert_eq!(events[0]["type"], "message_start");
    assert_eq!(events[1]["type"], "content_block_start");
    assert_eq!(events[1]["content_block"]["type"], "thinking");
    assert_eq!(events[1]["index"], 0);
    assert_eq!(events[4]["type"], "content_block_stop");
    assert_eq!(events[4]["index"], 0);
    assert_eq!(events[5]["type"], "content_block_start");
    assert_eq!(events[5]["content_block"]["type"], "text");
    assert_eq!(events[5]["index"], 1);
}

#[test]
fn reasoning_content_stream_produces_thinking_block() {
    let chunks = vec![
        openai_chunk_with_reasoning_content("chatcmpl-2", "gpt-4o", "Let me think..."),
        openai_chunk("chatcmpl-2", "gpt-4o", Some("The answer is 42"), None),
        openai_chunk("chatcmpl-2", "gpt-4o", None, Some("stop")),
        openai_done(),
    ];

    let events = collect_events(chunks, "fallback");

    assert_eq!(events[1]["type"], "content_block_start");
    assert_eq!(events[1]["content_block"]["type"], "thinking");
    assert_eq!(events[2]["delta"]["type"], "thinking_delta");
    assert_eq!(events[2]["delta"]["thinking"], "Let me think...");
}

#[test]
fn tool_call_stream_produces_tool_use_block() {
    let piece = |id: Option<&str>, name: Option<&str>, args: Option<&str>| {
        openai_chunk_with_tool_call("chatcmpl-3", "gpt-4o", id, name, args, None)
    };
    let chunks = vec![
        piece(Some("call_abc"), Some("read_file"), None),
        piece(None, None, Some("{\"path\":")),
        piece(None, None, Some("\"/tmp\"}")),
        openai_chunk("chatcmpl-3", "gpt-4o", None, Some("tool_calls")),
        openai_done(),
    ];

    let events = collect_events(chunks, "fallback");
    assert_eq!(events[1]["content_block"]["type"], "tool_use");
    assert_eq!(events[1]["content_block"]["id"], "call_abc");
    assert_eq!(events[5]["delta"]["stop_reason"], "tool_use");
    assert_eq!(events[2]["delta"]["partial_json"], "{\"path\":");
    assert_eq!(events[3]["delta"]["partial_json"], "\"/tmp\"}");
}

#[test]
fn done_without_finish_reason_still_produces_message_stop() {
    let chunks = vec![
        openai_chunk("chatcmpl-4", "gpt-4o", Some("hi"), None),
        openai_done(),
    ];
    let events = collect_events(chunks, "fallback");
    assert_eq!(events.last().unwrap()["type"], "message_stop");
}

#[test]
fn fallback_model_used_when_upstream_omits_model() {
    let chunk = value(r#"{"choices": [{ "index": 0, "delta": { "content": "hey" } }]}"#);
    let chunks = vec![
        frame(&chunk),
        openai_chunk("id", "gpt-4o", None, Some("stop")),
        openai_done(),
    ];
    let events = collect_events(chunks, "my-fallback-model");
    assert_eq!(events[0]["message"]["model"], "my-fallback-model");
}

#[test]
fn empty_content_chunks_are_not_emitted() {
    let chunks = vec![
        openai_chunk("chatcmpl-5", "gpt-4o", Some(""), None),
        openai_chunk("chatcmpl-5", "gpt-4o", Some("hello"), None),
        openai_chunk("chatcmpl-5", "gpt-4o", None, Some("stop")),
        openai_done(),
    ];
    let events = collect_events(chunks, "fallback");
    let text_deltas = text_deltas(&events);
    assert_eq!(text_deltas.len(), 1);
    assert_eq!(text_deltas[0]["delta"]["text"], "hello");
}

#[test]
fn stream_error_produces_error_event_and_stops() {
    let events = collect_items(
        vec![
            Ok(openai_chunk("chatcmpl-6", "gpt-4o", Some("start"), None)),
            Err("test error".to_string()),
            Ok(openai_chunk("chatcmpl-6", "gpt-4o", Some("never"), None)),
        ],
        "fallback",
    );
    let error_events: Vec<_> = events.iter().filter(|e| e["type"] == "error").collect();
    assert_eq!(error_events.len(), 1);
    assert_eq!(
        error_events[0]["error"]["message"],
        "Stream error: test error"
    );
    assert_eq!(text_of(&events), "start");
}

#[test]
fn chunked_delivery_handles_split_sse_frames() {
    let full_chunk = openai_chunk("chatcmpl-7", "gpt-4o", Some("split"), None);
    let mid = full_chunk.len() / 2;
    let part1 = full_chunk[..mid].to_string();
    let part2 = format!(
        "{}{}{}",
        &full_chunk[mid..],
        openai_chunk("chatcmpl-7", "gpt-4o", None, Some("stop")),
        openai_done()
    );
    let events = collect_events(vec![part1, part2], "fallback");
    let text_deltas = text_deltas(&events);
    assert_eq!(text_deltas.len(), 1);
    assert_eq!(text_deltas[0]["delta"]["text"], "split");
}

#[test]
fn crlf_framed_stream_is_parsed() {
    let frame = |body: &str| {
        let chunk = object(vec![
            ("id", Value::from("chatcmpl-crlf")),
            ("model", Value::from("gpt-4o")),
            (
                "choices",
                Value::from(vec![object(vec![
                    ("index", Value::from(0)),
                    ("delta", object(vec![("content", Value::from(body))])),
                ])]),
            ),
        ]);
        format!("data: {}\r\n\r\n", chunk)
    };
    let chunks = vec![frame("CR"), frame("LF"), "data: [DONE]\r\n\r\n".to_string()];
    let events = collect_events(chunks, "fallback");
    assert_eq!(text_of(&events), "CRLF");
    assert_eq!(events.last().unwrap()["type"], "message_stop");
}

#[test]
fn heartbeat_comments_and_blank_lines_are_ignored() {
    let chunks = vec![
        ": keep-alive\n\n".to_string(),
        "\n\n".to_string(),
        openai_chunk("chatcmpl-hb", "gpt-4o", Some("hello"), None),
        ": ping\n\n".to_string(),
        openai_chunk("chatcmpl-hb", "gpt-4o", None, Some("stop")),
        openai_done(),
    ];
    let events = collect_events(chunks, "fallback");
    let text_deltas = text_deltas(&events);
    assert_eq!(text_deltas.len(), 1);
    assert_eq!(text_deltas[0]["delta"]["text"], "hello");
}

#[test]
fn malformed_json_chunk_is_skipped_without_aborting() {
    let chunks = vec![
        openai_chunk("chatcmpl-m", "gpt-4o", Some("good"), None),
        "data: {not valid json}\n\n".to_string(),
        openai_chunk("chatcmpl-m", "gpt-4o", Some(" still going"), None),
        openai_chunk("chatcmpl-m", "gpt-4o", None, Some("stop")),
        openai_done(),
    ];
    let events = collect_events(chunks, "fallback");
    assert_eq!(text_of(&events), "good still going");
    assert_eq!(events.last().unwrap()["type"], "message_stop");
}

#[test]
fn stream_chunk_with_partial_usage_does_not_abort() {
    // A finish chunk that carries usage with only some fields.
    let finish = value(
        r#"{
            "id": "chatcmpl-u", "model": "gpt-4o",
            "choices": [{ "index": 0, "delta": {}, "finish_reason": "stop" }],
            "usage": { "prompt_tokens": 9 }
        }"#,
    );
    let chunks = vec![
        openai_chunk("chatcmpl-u", "gpt-4o", Some("hi"), None),
        frame(&finish),
        openai_done(),
    ];
    let events = collect_events(chunks, "fallback");
    let delta = events
        .iter()
        .find(|e| e["type"] == "message_delta")
        .expect("message_delta present");
    assert_eq!(delta["usage"]["input_tokens"], 9);
    assert_eq!(delta["usage"]["output_tokens"], 0);
}

#[test]
fn text_then_tool_call_produces_two_blocks() {
    let piece = |id: Option<&str>, name: Option<&str>, args: Option<&str>| {
        openai_chunk_with_tool_call("chatcmpl-8", "gpt-4o", id, name, args, None)
    };
    let chunks = vec![
        openai_chunk("chatcmpl-8", "gpt-4o", Some("I'll read that file."), None),
        piece(Some("call_xyz"), Some("read_file"), None),
        piece(None, None, Some("{\"path\":\"/etc\"}")),
        openai_chunk("chatcmpl-8", "gpt-4o", None, Some("tool_calls")),
        openai_done(),
    ];
    let events = collect_events(chunks, "fallback");
    let block_starts: Vec<_> = events
        .iter()
        .filter(|e| e["type"] == "content_block_start")
        .collect();
    assert_eq!(block_starts.len(), 2);
    assert_eq!(block_starts[0]["content_block"]["type"], "text");
    assert_eq!(block_starts[1]["content_block"]["type"], "tool_use");
}

#[test]
fn pieces_of_any_size_bring_the_same_events() {
    let whole = vec![
        openai_chunk_with_reasoning("c", "m", "hm\u{e9}"),
        ": ping\r\n\r\n".to_string(),
        openai_chunk("c", "m", Some("line\nbreak"), None),
        openai_chunk("c", "m", None, Some("length")),
        openai_done(),
    ]
    .concat();
    let expected = collect_events(vec![whole.clone()], "f");
    assert_eq!(
        expected[expected.len() - 2]["delta"]["stop_reason"],
        "max_tokens"
    );
    let single: Vec<String> = whole.chars().map(|c| c.to_string()).collect();
    assert_eq!(collect_events(single, "f"), expected);
}

#[test]
fn nothing_follows_the_end() {
    let events = collect_events(
        vec![
            openai_chunk("c", "m", Some("a"), None),
            openai_done(),
            openai_chunk("c", "m", Some("b"), None),
            openai_done(),
        ],
        "f",
    );
    assert_eq!(text_of(&events), "a");
    let stops = events.iter().filter(|e| e["type"] == "message_stop").count();
    assert_eq!(stops, 1);
    assert!(collect_events(vec![openai_done()], "f").is_empty());
}

#[test]
fn usage_may_come_after_the_last_choice() {
    let usage = value(
        r#"{"choices": [], "usage": {"prompt_tokens": 5, "completion_tokens": 3, "total_tokens": 8}}"#,
    );
    let events = collect_events(
        vec![
            openai_chunk("c", "m", Some("a"), None),
            openai_chunk("c", "m", None, Some("stop")),
            frame(&usage),
            openai_done(),
        ],
        "f",
    );
    let delta = &events[events.len() - 2];
    assert_eq!(delta["usage"]["input_tokens"], 5);
    assert_eq!(delta["usage"]["output_tokens"], 3);
    assert_eq!(delta["delta"]["stop_reason"], "end_turn");
}

#[test]
fn input_estimate_is_announced() {
    let mut state = initial_state("f".to_string(), 77);
    let chunk = parse_chunk(r#"{"choices": []}"#).unwrap();
    let events = translate_chunk(&mut state, &chunk);
    assert_eq!(events.len(), 1);
    assert_eq!(event_value(&events[0])["message"]["input_tokens"], 77);
    assert_eq!(event_value(&events[0])["message"]["id"], "msg_proxy");
}

#[test]
fn frame_boundaries() {
    let at = |s: &str| find_frame_boundary(&s.chars().collect());
    assert_eq!(at("abc"), None);
    assert_eq!(at("a\n\nb\r\n\r\n"), Some((1, 2)));
    assert_eq!(at("a\r\n\r\nb\n\n"), Some((1, 4)));
    assert_eq!(at("\u{e9}\n\n"), Some((1, 2)));
    assert_eq!(at("a\r\n\r"), None);
    assert_eq!(at("a\r\n\n"), Some((2, 2)));
}

#[test]
fn data_lines_of_a_frame() {
    let mut decoder = SseDecoder::new();
    let items = decoder.push("event: x\ndata: 1\ndata:2\r\ndata: 3\r\nid: 4\ndata:  [DONE] \n\nrest");
    let shown: Vec<String> = items
        .iter()
        .map(|item| match item {
            SseItem::Done => "done".to_string(),
            SseItem::Data(data) => format!("<{}>", data),
        })
        .collect();
    assert_eq!(shown, vec!["<1>", "<3>", "done"]);
    assert_eq!(decoder.push("\n\n").len(), 0);
}

#[test]
fn framed_events_are_read_back() {
    let framed = serialize_event(&StreamEvent::Ping, "{}");
    assert_eq!(framed, "event: ping\ndata: {}\n\n");
    let mut decoder = SseDecoder::new();
    let items = decoder.push(&format!("{}{}", keep_alive_comment(), framed));
    assert!(matches!(&items[..], [SseItem::Data(data)] if data == "{}"));
}

#[test]
fn heartbeat_of_zero_is_never() {
    assert_eq!(heartbeat_period(15), 15);
    assert_eq!(heartbeat_period(0), 31536000);
    assert_eq!(keep_alive_comment(), ": keep-alive\n\n");
}

#[test]
fn error_is_told_once_and_the_message_ends() {
    let mut state = initial_state("f".to_string(), 0);
    let chunk = parse_chunk(r#"{"choices": [{"index": 0, "delta": {"content": "a"}}]}"#).unwrap();
    let (first, read_on) = stream_step(&mut state, StreamInput::Chunk(chunk));
    assert!(read_on);
    assert_eq!(first.len(), 3);
    let (none, read_on) = stream_step(&mut state, StreamInput::Unreadable);
    assert!(read_on);
    assert!(none.is_empty());
    let (last, read_on) = stream_step(&mut state, StreamInput::Error("reset".to_string()));
    assert!(!read_on);
    let kinds: Vec<Value> = last.iter().map(|event| event_value(event)["type"].clone()).collect();
    assert_eq!(
        kinds,
        vec!["error", "content_block_stop", "message_delta", "message_stop"]
    );
    assert_eq!(event_value(&last[0])["error"]["type"], "api_error");
    assert_eq!(event_value(&last[0])["error"]["message"], "Stream error: reset");
    let (after, read_on) = stream_step(&mut state, StreamInput::End);
    assert!(!read_on);
    assert!(after.is_empty());
}

#[test]
fn end_closes_a_message_that_no_mark_has_closed() {
    let mut state = initial_state("f".to_string(), 0);
    let chunk = parse_chunk(r#"{"choices": [{"index": 0, "delta": {"content": "a"}}]}"#).unwrap();
    stream_step(&mut state, StreamInput::Chunk(chunk));
    let (last, read_on) = stream_step(&mut state, StreamInput::End);
    assert!(!read_on);
    assert_eq!(last.len(), 3);
    assert_eq!(event_value(&last[2])["type"], "message_stop");

    let mut state = initial_state("f".to_string(), 0);
    let chunk = parse_chunk(r#"{"choices": [{"index": 0, "delta": {"content": "a"}}]}"#).unwrap();
    stream_step(&mut state, StreamInput::Chunk(chunk));
    let (done, read_on) = stream_step(&mut state, StreamInput::Done);
    assert!(read_on);
    assert_eq!(done.len(), 3);
    let (none, _) = stream_step(&mut state, StreamInput::End);
    assert!(none.is_empty());
}

#[test]
fn framing_and_skipped_frames_change_nothing() {
    let chunks = vec![
        openai_chunk("c", "m", Some("one "), None),
        openai_chunk("c", "m", Some("two"), None),
        openai_chunk("c", "m", None, Some("stop")),
        openai_done(),
    ];
    let expected = collect_events(chunks.clone(), "f");
    assert_eq!(text_of(&expected), "one two");
    let crlf: Vec<String> = chunks.iter().map(|chunk| chunk.replace('\n', "\r\n")).collect();
    assert_eq!(collect_events(crlf.clone(), "f"), expected);
    let mixed = vec![
        "\r\n\r\n".to_string(),
        crlf[0].clone(),
        ": ping\n\n".to_string(),
        chunks[1].clone(),
        "\n\n".to_string(),
        "data: {\"no\": 1\r\n\r\n".to_string(),
        crlf[2].clone(),
        "event: x\nid: 4\n\n".to_string(),
        chunks[3].clone(),
    ];
    assert_eq!(collect_events(mixed, "f"), expected);
}

#[test]
fn lines_of_a_frame_may_end_either_way() {
    let text = "event: x\ndata: 1\n\ndata: 2\nid: 3\ndata: 4\n\n \n\nrest";
    let data = |text: &str| -> Vec<String> {
        let mut decoder = SseDecoder::new();
        let items = decoder.push(text);
        items.iter().map(|item| format!("{:?}", item)).collect()
    };
    assert_eq!(data(text).len(), 3);
    assert_eq!(data(&text.replace('\n', "\r\n")), data(text));
}

#[test]
fn streamed_arguments_are_kept() {
    let piece = |id: Option<&str>, name: Option<&str>, args: Option<&str>| {
        openai_chunk_with_tool_call("c", "m", id, name, args, None)
    };
    let events = collect_events(
        vec![
            piece(Some("call"), Some("read"), Some("{\"a\"")),
            piece(None, None, Some(":")),
            piece(None, None, Some("1}")),
            openai_chunk("c", "m", None, Some("tool_calls")),
            openai_done(),
        ],
        "f",
    );
    let arguments: String = events
        .iter()
        .filter(|event| event["delta"]["type"] == "input_json_delta")
        .map(|event| event["delta"]["partial_json"].as_str().unwrap().to_string())
        .collect();
    assert_eq!(arguments, "{\"a\":1}");
}

#[test]
fn bytes_are_read_as_text() {
    let shown = |pieces: Vec<&[u8]>| -> Vec<String> {
        let mut decoder = SseDecoder::new();
        let mut all = Vec::new();
        for piece in pieces {
            for item in decoder.push_bytes(piece) {
                match item {
                    SseItem::Data(data) => all.push(data),
                    SseItem::Done => all.push("done".to_string()),
                }
            }
        }
        all
    };
    let text = "data: h\u{e9}llo \u{1f600}\n\ndata: [DONE]\n\n";
    let whole = text.as_bytes();
    assert_eq!(shown(vec![whole]), vec!["h\u{e9}llo \u{1f600}", "done"]);
    // Cut between characters.
    assert_eq!(shown(vec![&whole[..9], &whole[9..]]), shown(vec![whole]));
    assert_eq!(shown(vec![b"data: a\xffb\n\n"]), vec!["a\u{fffd}b"]);
}
