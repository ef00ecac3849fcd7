# anthropic_proxy

A proxy that lets clients of the Anthropic Messages API talk to any OpenAI-compatible
Chat Completions upstream. The library holds the translation and the decisions of the proxy,
written in Rust and verified with Verus; the program around it does the I/O.

## Layout

- `src/models`: the data types of the two APIs, with the models that contracts speak of.
- `src/json.rs`, `src/entries.rs`, `src/text.rs`: JSON values, keyed lists, text.
- `src/config.rs`, `src/endpoints.rs`, `src/error.rs`: configuration, URLs, errors.
- `src/translate`: requests, messages, tools, schemas, responses, streams, token counts.
- `src/proxy`: retries and context-overflow recovery, compatibility fallbacks, server-sent
  events and how they are relayed, routing, what is logged.
- `tests`: tests of the compiled library.
- `app`: the program: HTTP server, upstream client, configuration from the environment,
  counters and traces.

## What is trusted

JSON text is read and printed by `serde_json`, and tokens are counted by `tiktoken-rs`. The
functions that call them, in `src/json.rs` and `src/translate/tokens.rs`, say what is taken from
them without proof; `src/text.rs` does the same for `String::push`, and `src/proxy/sse.rs` for
`String::from_utf8_lossy`. Everything else in `src` is proved.
