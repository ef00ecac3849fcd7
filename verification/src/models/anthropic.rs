//! The Anthropic Messages API.
use crate::json::{Json, JsonSpec};
use crate::models::{opt_text, Float32};
use vstd::prelude::*;

verus! {

/// A messages request.
#[derive(Debug)]
pub struct AnthropicRequest {
    pub model: String,
    pub messages: Vec<Message>,
    pub max_tokens: u32,
    pub system: Option<SystemPrompt>,
    pub temperature: Option<Float32>,
    pub top_p: Option<Float32>,
    pub top_k: Option<u32>,
    pub stop_sequences: Option<Vec<String>>,
    pub stream: Option<bool>,
    pub tools: Option<Vec<Tool>>,
    pub metadata: Option<Json>,
    pub tool_choice: Option<Json>,
    /// Every field of the request that is not named above.
    pub extra: Json,
}

/// Request body for `POST /v1/messages/count_tokens`. Mirrors a messages request
/// but without `max_tokens` (which the count-tokens endpoint does not require).
#[derive(Debug)]
pub struct CountTokensRequest {
    pub model: String,
    pub messages: Vec<Message>,
    pub system: Option<SystemPrompt>,
    pub tools: Option<Vec<Tool>>,
}

/// A system prompt: one string, or several blocks.
#[derive(Debug)]
pub enum SystemPrompt {
    Single(String),
    Multiple(Vec<SystemMessage>),
}

#[derive(Debug)]
pub struct SystemMessage {
    pub message_type: String,
    pub text: String,
    pub cache_control: Option<Json>,
}

/// A message of the conversation.
#[derive(Debug)]
pub struct Message {
    pub role: String,
    pub content: MessageContent,
}

/// Message content: a string, or content blocks.
#[derive(Debug)]
pub enum MessageContent {
    Text(String),
    Blocks(Vec<ContentBlock>),
}

/// A content block.
#[derive(Debug)]
pub enum ContentBlock {
    Text { text: String, cache_control: Option<Json> },
    Image { source: ImageSource },
    ToolUse { id: String, name: String, input: Json },
    ToolResult { tool_use_id: String, content: ToolResultContent, is_error: Option<bool> },
    Thinking { thinking: String },
    /// Opaque encrypted thinking from an earlier turn. A client sends it back on resumed
    /// sessions; it cannot become reasoning text for another upstream.
    RedactedThinking { data: String },
}

/// Content of a tool result: a plain string, or nested content blocks.
#[derive(Debug)]
pub enum ToolResultContent {
    Text(String),
    Blocks(Vec<ContentBlock>),
}

#[derive(Clone, Debug)]
pub struct ImageSource {
    pub source_type: String,
    pub media_type: String,
    pub data: String,
}

/// A tool definition. A server-side tool carries a type and a name and no schema, which is then
/// null.
#[derive(Clone, Debug)]
pub struct Tool {
    pub name: String,
    pub description: Option<String>,
    pub input_schema: Json,
    pub tool_type: Option<String>,
}

/// A messages response.
#[derive(Clone, Debug)]
pub struct AnthropicResponse {
    pub id: String,
    pub response_type: String,
    pub role: String,
    pub content: Vec<ResponseContent>,
    pub model: String,
    pub stop_reason: Option<String>,
    pub stop_sequence: Option<String>,
    pub usage: Usage,
}

#[derive(Clone, Debug)]
pub enum ResponseContent {
    Text { content_type: String, text: String },
    ToolUse { content_type: String, id: String, name: String, input: Json },
    Thinking { content_type: String, thinking: String },
}

#[derive(Clone, Copy, Debug, PartialEq, Eq, Structural)]
pub struct Usage {
    pub input_tokens: u32,
    pub output_tokens: u32,
    pub cache_creation_input_tokens: Option<u32>,
    pub cache_read_input_tokens: Option<u32>,
}

impl Default for Usage {
    /// No tokens, and nothing known of a cache.
    fn default() -> (usage: Self)
        ensures
            usage == (Usage {
                input_tokens: 0,
                output_tokens: 0,
                cache_creation_input_tokens: None,
                cache_read_input_tokens: None,
            }),
    {
        Usage {
            input_tokens: 0,
            output_tokens: 0,
            cache_creation_input_tokens: None,
            cache_read_input_tokens: None,
        }
    }
}

#[derive(Clone, Debug)]
pub struct ModelsListResponse {
    pub data: Vec<ModelInfo>,
    pub first_id: Option<String>,
    pub has_more: bool,
    pub last_id: Option<String>,
}

#[derive(Clone, Debug)]
pub struct ModelInfo {
    pub created_at: String,
    pub display_name: String,
    pub id: String,
    pub model_type: String,
}

/// A streaming event.
#[derive(Clone, Debug)]
pub enum StreamEvent {
    MessageStart { message: MessageStartData },
    ContentBlockStart { index: usize, content_block: ContentBlockStart },
    ContentBlockDelta { index: usize, delta: Delta },
    ContentBlockStop { index: usize },
    MessageDelta { delta: MessageDeltaData, usage: DeltaUsage },
    MessageStop,
    Ping,
    Error { error: ErrorData },
}

#[derive(Clone, Debug)]
pub struct MessageStartData {
    pub id: String,
    pub message_type: String,
    pub role: String,
    pub model: String,
    pub usage: Usage,
}

#[derive(Clone, Debug)]
pub enum ContentBlockStart {
    Text { text: String },
    ToolUse { id: String, name: String },
    Thinking { thinking: String },
}

#[derive(Clone, Debug)]
pub enum Delta {
    TextDelta { text: String },
    InputJsonDelta { partial_json: String },
    ThinkingDelta { thinking: String },
}

#[derive(Clone, Debug)]
pub struct MessageDeltaData {
    pub stop_reason: Option<String>,
    pub stop_sequence: Option<String>,
}

#[derive(Clone, Copy, Debug, PartialEq, Eq, Structural)]
pub struct DeltaUsage {
    pub input_tokens: Option<u32>,
    pub output_tokens: u32,
    pub cache_read_input_tokens: Option<u32>,
}

impl Default for DeltaUsage {
    fn default() -> (usage: Self)
        ensures
            usage == (DeltaUsage {
                input_tokens: None,
                output_tokens: 0,
                cache_read_input_tokens: None,
            }),
    {
        DeltaUsage { input_tokens: None, output_tokens: 0, cache_read_input_tokens: None }
    }
}

#[derive(Clone, Debug)]
pub struct ErrorData {
    pub error_type: String,
    pub message: String,
}

/// The name under which an event is sent.
pub open spec fn event_name(event: StreamEvent) -> Seq<char> {
    match event {
        StreamEvent::MessageStart { .. } => "message_start"@,
        StreamEvent::ContentBlockStart { .. } => "content_block_start"@,
        StreamEvent::ContentBlockDelta { .. } => "content_block_delta"@,
        StreamEvent::ContentBlockStop { .. } => "content_block_stop"@,
        StreamEvent::MessageDelta { .. } => "message_delta"@,
        StreamEvent::MessageStop => "message_stop"@,
        StreamEvent::Ping => "ping"@,
        StreamEvent::Error { .. } => "error"@,
    }
}

impl StreamEvent {
    pub fn event_type(&self) -> (name: &'static str)
        ensures
            name@ == event_name(*self),
    {
        match self {
            StreamEvent::MessageStart { .. } => "message_start",
            StreamEvent::ContentBlockStart { .. } => "content_block_start",
            StreamEvent::ContentBlockDelta { .. } => "content_block_delta",
            StreamEvent::ContentBlockStop { .. } => "content_block_stop",
            StreamEvent::MessageDelta { .. } => "message_delta",
            StreamEvent::MessageStop => "message_stop",
            StreamEvent::Ping => "ping",
            StreamEvent::Error { .. } => "error",
        }
    }
}

// ---------------------------------------------------------------------------------------------
// Models of the types that the translation produces.

pub ghost enum ResponseContentSpec {
    Text { content_type: Seq<char>, text: Seq<char> },
    ToolUse { content_type: Seq<char>, id: Seq<char>, name: Seq<char>, input: JsonSpec },
    Thinking { content_type: Seq<char>, thinking: Seq<char> },
}

impl ResponseContent {
    pub open spec fn view(&self) -> ResponseContentSpec {
        match self {
            ResponseContent::Text { content_type, text } => ResponseContentSpec::Text {
                content_type: content_type@,
                text: text@,
            },
            ResponseContent::ToolUse { content_type, id, name, input } => {
                ResponseContentSpec::ToolUse {
                    content_type: content_type@,
                    id: id@,
                    name: name@,
                    input: input@,
                }
            },
            ResponseContent::Thinking { content_type, thinking } => ResponseContentSpec::Thinking {
                content_type: content_type@,
                thinking: thinking@,
            },
        }
    }
}

/// The models of a list of content blocks.
pub open spec fn response_contents(content: Seq<ResponseContent>) -> Seq<ResponseContentSpec> {
    content.map_values(|c: ResponseContent| c@)
}

pub ghost struct AnthropicResponseSpec {
    pub id: Seq<char>,
    pub response_type: Seq<char>,
    pub role: Seq<char>,
    pub content: Seq<ResponseContentSpec>,
    pub model: Seq<char>,
    pub stop_reason: Option<Seq<char>>,
    pub stop_sequence: Option<Seq<char>>,
    pub usage: Usage,
}

impl AnthropicResponse {
    pub open spec fn view(&self) -> AnthropicResponseSpec {
        AnthropicResponseSpec {
            id: self.id@,
            response_type: self.response_type@,
            role: self.role@,
            content: response_contents(self.content@),
            model: self.model@,
            stop_reason: opt_text(self.stop_reason),
            stop_sequence: opt_text(self.stop_sequence),
            usage: self.usage,
        }
    }
}

pub ghost enum BlockStartSpec {
    Text(Seq<char>),
    ToolUse { id: Seq<char>, name: Seq<char> },
    Thinking(Seq<char>),
}

pub ghost enum DeltaSpec {
    Text(Seq<char>),
    InputJson(Seq<char>),
    Thinking(Seq<char>),
}

pub ghost enum EventSpec {
    MessageStart {
        id: Seq<char>,
        message_type: Seq<char>,
        role: Seq<char>,
        model: Seq<char>,
        usage: Usage,
    },
    ContentBlockStart { index: usize, content_block: BlockStartSpec },
    ContentBlockDelta { index: usize, delta: DeltaSpec },
    ContentBlockStop { index: usize },
    MessageDelta {
        stop_reason: Option<Seq<char>>,
        stop_sequence: Option<Seq<char>>,
        usage: DeltaUsage,
    },
    MessageStop,
    Ping,
    Error { error_type: Seq<char>, message: Seq<char> },
}

impl ContentBlockStart {
    pub open spec fn view(&self) -> BlockStartSpec {
        match self {
            ContentBlockStart::Text { text } => BlockStartSpec::Text(text@),
            ContentBlockStart::ToolUse { id, name } => BlockStartSpec::ToolUse {
                id: id@,
                name: name@,
            },
            ContentBlockStart::Thinking { thinking } => BlockStartSpec::Thinking(thinking@),
        }
    }
}

impl Delta {
    pub open spec fn view(&self) -> DeltaSpec {
        match self {
            Delta::TextDelta { text } => DeltaSpec::Text(text@),
            Delta::InputJsonDelta { partial_json } => DeltaSpec::InputJson(partial_json@),
            Delta::ThinkingDelta { thinking } => DeltaSpec::Thinking(thinking@),
        }
    }
}

impl StreamEvent {
    pub open spec fn view(&self) -> EventSpec {
        match self {
            StreamEvent::MessageStart { message } => EventSpec::MessageStart {
                id: message.id@,
                message_type: message.message_type@,
                role: message.role@,
                model: message.model@,
                usage: message.usage,
            },
            StreamEvent::ContentBlockStart { index, content_block } => {
                EventSpec::ContentBlockStart { index: *index, content_block: content_block@ }
            },
            StreamEvent::ContentBlockDelta { index, delta } => EventSpec::ContentBlockDelta {
                index: *index,
                delta: delta@,
            },
            StreamEvent::ContentBlockStop { index } => EventSpec::ContentBlockStop {
                index: *index,
            },
            StreamEvent::MessageDelta { delta, usage } => EventSpec::MessageDelta {
                stop_reason: opt_text(delta.stop_reason),
                stop_sequence: opt_text(delta.stop_sequence),
                usage: *usage,
            },
            StreamEvent::MessageStop => EventSpec::MessageStop,
            StreamEvent::Ping => EventSpec::Ping,
            StreamEvent::Error { error } => EventSpec::Error {
                error_type: error.error_type@,
                message: error.message@,
            },
        }
    }
}

pub open spec fn events_view(events: Seq<StreamEvent>) -> Seq<EventSpec> {
    events.map_values(|e: StreamEvent| e@)
}

pub ghost struct ModelInfoSpec {
    pub created_at: Seq<char>,
    pub display_name: Seq<char>,
    pub id: Seq<char>,
    pub model_type: Seq<char>,
}

impl ModelInfo {
    pub open spec fn view(&self) -> ModelInfoSpec {
        ModelInfoSpec {
            created_at: self.created_at@,
            display_name: self.display_name@,
            id: self.id@,
            model_type: self.model_type@,
        }
    }
}

pub ghost struct ModelsListSpec {
    pub data: Seq<ModelInfoSpec>,
    pub first_id: Option<Seq<char>>,
    pub has_more: bool,
    pub last_id: Option<Seq<char>>,
}

impl ModelsListResponse {
    pub open spec fn view(&self) -> ModelsListSpec {
        ModelsListSpec {
            data: self.data@.map_values(|m: ModelInfo| m@),
            first_id: opt_text(self.first_id),
            has_more: self.has_more,
            last_id: opt_text(self.last_id),
        }
    }
}

} // verus!
