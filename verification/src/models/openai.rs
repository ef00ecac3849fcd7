//! The OpenAI Chat Completions API.
use crate::json::{Json, JsonSpec};
use crate::models::{opt_text, Float32};
use crate::text::texts;
use vstd::prelude::*;

verus! {

/// A chat completion request.
#[derive(Clone, Debug)]
pub struct OpenAIRequest {
    pub model: String,
    pub messages: Vec<Message>,
    pub max_tokens: Option<u32>,
    pub temperature: Option<Float32>,
    pub top_p: Option<Float32>,
    pub stop: Option<Vec<String>>,
    pub stream: Option<bool>,
    pub stream_options: Option<StreamOptions>,
    pub tools: Option<Vec<Tool>>,
    pub tool_choice: Option<Json>,
    pub parallel_tool_calls: Option<bool>,
    pub user: Option<String>,
    pub reasoning_effort: Option<String>,
    pub response_format: Option<Json>,
}

#[derive(Clone, Copy, Debug, PartialEq, Eq, Structural)]
pub struct StreamOptions {
    pub include_usage: bool,
}

/// A message of the conversation.
#[derive(Clone, Debug)]
pub struct Message {
    pub role: String,
    pub content: Option<MessageContent>,
    pub reasoning_content: Option<String>,
    pub tool_calls: Option<Vec<ToolCall>>,
    pub tool_call_id: Option<String>,
}

/// Message content: a string, or parts.
#[derive(Clone, Debug)]
pub enum MessageContent {
    Text(String),
    Parts(Vec<ContentPart>),
}

#[derive(Clone, Debug)]
pub enum ContentPart {
    Text { text: String },
    ImageUrl { image_url: ImageUrl },
}

#[derive(Clone, Debug)]
pub struct ImageUrl {
    pub url: String,
}

#[derive(Clone, Debug)]
pub struct ToolCall {
    pub id: String,
    pub call_type: String,
    pub function: FunctionCall,
}

#[derive(Clone, Debug)]
pub struct FunctionCall {
    pub name: String,
    pub arguments: String,
}

#[derive(Clone, Debug)]
pub struct Tool {
    pub tool_type: String,
    pub function: Function,
}

#[derive(Clone, Debug)]
pub struct Function {
    pub name: String,
    pub description: Option<String>,
    pub parameters: Json,
}

/// A chat completion.
#[derive(Clone, Debug)]
pub struct OpenAIResponse {
    pub id: Option<String>,
    pub object: Option<String>,
    pub created: Option<u64>,
    pub model: Option<String>,
    pub choices: Vec<Choice>,
    pub usage: Usage,
    pub system_fingerprint: Option<String>,
}

#[derive(Clone, Debug)]
pub struct Choice {
    pub index: u32,
    pub message: ChoiceMessage,
    pub finish_reason: Option<String>,
}

#[derive(Clone, Debug)]
pub struct ChoiceMessage {
    pub role: String,
    pub reasoning_content: Option<String>,
    pub content: Option<String>,
    pub tool_calls: Option<Vec<ToolCall>>,
}

#[derive(Clone, Copy, Debug, PartialEq, Eq, Structural)]
pub struct Usage {
    pub prompt_tokens: u32,
    pub completion_tokens: u32,
    pub total_tokens: u32,
    pub prompt_tokens_details: Option<PromptTokensDetails>,
}

#[derive(Clone, Copy, Debug, PartialEq, Eq, Structural)]
pub struct PromptTokensDetails {
    pub cached_tokens: u32,
}

impl Default for Usage {
    /// No tokens, and no details.
    fn default() -> (usage: Self)
        ensures
            usage == (Usage {
                prompt_tokens: 0,
                completion_tokens: 0,
                total_tokens: 0,
                prompt_tokens_details: None,
            }),
    {
        Usage {
            prompt_tokens: 0,
            completion_tokens: 0,
            total_tokens: 0,
            prompt_tokens_details: None,
        }
    }
}

/// A piece of a streamed chat completion.
#[derive(Clone, Debug)]
pub struct StreamChunk {
    pub id: Option<String>,
    pub model: Option<String>,
    pub choices: Vec<StreamChoice>,
    pub usage: Option<Usage>,
}

#[derive(Clone, Debug)]
pub struct StreamChoice {
    pub index: u32,
    pub delta: StreamDelta,
    pub finish_reason: Option<String>,
}

#[derive(Clone, Debug)]
pub struct StreamDelta {
    pub reasoning_content: Option<String>,
    pub content: Option<String>,
    pub tool_calls: Option<Vec<DeltaToolCall>>,
}

/// A piece of a tool call. Its first piece brings the call's id and name.
#[derive(Clone, Debug)]
pub struct DeltaToolCall {
    pub index: u32,
    pub id: Option<String>,
    pub name: Option<String>,
    pub arguments: Option<String>,
}

#[derive(Clone, Debug)]
pub struct ModelsListResponse {
    pub object: Option<String>,
    pub data: Vec<ModelInfo>,
}

#[derive(Clone, Debug)]
pub struct ModelInfo {
    pub id: String,
    pub object: Option<String>,
    pub created: Option<u64>,
    pub owned_by: Option<String>,
}

impl Default for Message {
    /// An empty role and nothing else.
    fn default() -> (message: Self)
        ensures
            message@ == (MessageSpec {
                role: Seq::empty(),
                content: None,
                reasoning_content: None,
                tool_calls: None,
                tool_call_id: None,
            }),
    {
        Message {
            role: String::new(),
            content: None,
            reasoning_content: None,
            tool_calls: None,
            tool_call_id: None,
        }
    }
}

// ---------------------------------------------------------------------------------------------
// Models.

pub ghost enum PartSpec {
    Text(Seq<char>),
    ImageUrl(Seq<char>),
}

pub ghost enum ContentSpec {
    Text(Seq<char>),
    Parts(Seq<PartSpec>),
}

pub ghost struct ToolCallSpec {
    pub id: Seq<char>,
    pub call_type: Seq<char>,
    pub name: Seq<char>,
    pub arguments: Seq<char>,
}

pub ghost struct MessageSpec {
    pub role: Seq<char>,
    pub content: Option<ContentSpec>,
    pub reasoning_content: Option<Seq<char>>,
    pub tool_calls: Option<Seq<ToolCallSpec>>,
    pub tool_call_id: Option<Seq<char>>,
}

pub ghost struct ToolSpec {
    pub tool_type: Seq<char>,
    pub name: Seq<char>,
    pub description: Option<Seq<char>>,
    pub parameters: JsonSpec,
}

pub ghost struct OpenAIRequestSpec {
    pub model: Seq<char>,
    pub messages: Seq<MessageSpec>,
    pub max_tokens: Option<u32>,
    pub temperature: Option<Float32>,
    pub top_p: Option<Float32>,
    pub stop: Option<Seq<Seq<char>>>,
    pub stream: Option<bool>,
    pub stream_options: Option<StreamOptions>,
    pub tools: Option<Seq<ToolSpec>>,
    pub tool_choice: Option<JsonSpec>,
    pub parallel_tool_calls: Option<bool>,
    pub user: Option<Seq<char>>,
    pub reasoning_effort: Option<Seq<char>>,
    pub response_format: Option<JsonSpec>,
}

impl ContentPart {
    pub open spec fn view(&self) -> PartSpec {
        match self {
            ContentPart::Text { text } => PartSpec::Text(text@),
            ContentPart::ImageUrl { image_url } => PartSpec::ImageUrl(image_url.url@),
        }
    }
}

pub open spec fn parts_view(parts: Seq<ContentPart>) -> Seq<PartSpec> {
    parts.map_values(|p: ContentPart| p@)
}

impl MessageContent {
    pub open spec fn view(&self) -> ContentSpec {
        match self {
            MessageContent::Text(text) => ContentSpec::Text(text@),
            MessageContent::Parts(parts) => ContentSpec::Parts(parts_view(parts@)),
        }
    }
}

impl ToolCall {
    pub open spec fn view(&self) -> ToolCallSpec {
        ToolCallSpec {
            id: self.id@,
            call_type: self.call_type@,
            name: self.function.name@,
            arguments: self.function.arguments@,
        }
    }
}

pub open spec fn calls_view(calls: Seq<ToolCall>) -> Seq<ToolCallSpec> {
    calls.map_values(|c: ToolCall| c@)
}

impl Message {
    pub open spec fn view(&self) -> MessageSpec {
        MessageSpec {
            role: self.role@,
            content: match self.content {
                Some(content) => Some(content@),
                None => None,
            },
            reasoning_content: opt_text(self.reasoning_content),
            tool_calls: match self.tool_calls {
                Some(calls) => Some(calls_view(calls@)),
                None => None,
            },
            tool_call_id: opt_text(self.tool_call_id),
        }
    }
}

pub open spec fn messages_view(messages: Seq<Message>) -> Seq<MessageSpec> {
    messages.map_values(|m: Message| m@)
}

impl Tool {
    pub open spec fn view(&self) -> ToolSpec {
        ToolSpec {
            tool_type: self.tool_type@,
            name: self.function.name@,
            description: opt_text(self.function.description),
            parameters: self.function.parameters@,
        }
    }
}

pub open spec fn tools_view(tools: Seq<Tool>) -> Seq<ToolSpec> {
    tools.map_values(|t: Tool| t@)
}

pub open spec fn opt_json(json: Option<Json>) -> Option<JsonSpec> {
    match json {
        Some(json) => Some(json@),
        None => None,
    }
}

pub open spec fn opt_texts(strings: Option<Vec<String>>) -> Option<Seq<Seq<char>>> {
    match strings {
        Some(strings) => Some(texts(strings@)),
        None => None,
    }
}

impl OpenAIRequest {
    pub open spec fn view(&self) -> OpenAIRequestSpec {
        OpenAIRequestSpec {
            model: self.model@,
            messages: messages_view(self.messages@),
            max_tokens: self.max_tokens,
            temperature: self.temperature,
            top_p: self.top_p,
            stop: opt_texts(self.stop),
            stream: self.stream,
            stream_options: self.stream_options,
            tools: match self.tools {
                Some(tools) => Some(tools_view(tools@)),
                None => None,
            },
            tool_choice: opt_json(self.tool_choice),
            parallel_tool_calls: self.parallel_tool_calls,
            user: opt_text(self.user),
            reasoning_effort: opt_text(self.reasoning_effort),
            response_format: opt_json(self.response_format),
        }
    }
}

} // verus!
