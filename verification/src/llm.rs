//! What is exchanged with the providers of models: the requests that are sent and the
//! events of which an answer is made.

use crate::json::{
    bool_at, is_left_out, is_object_at, json_contents, left_out, object_at, optional_text_at,
    parsed_json, read_bool, read_json, read_optional_text, read_text, text_at, JsonContents,
};
use crate::nodes::{messages_view, opt_text, ChatMessage, ChatMessageView, MessageRole};
use crate::text::same_text;
use vstd::prelude::*;

verus! {

/// How much a model may think before it answers.
#[derive(Clone, Debug, PartialEq, Eq)]
pub struct ThinkingConfig {
    pub thinking_type: String,
    pub budget_tokens: u32,
}

/// The body of a chat request.
#[derive(Clone, Debug, PartialEq, Eq)]
pub struct LLMRequest {
    pub model: String,
    pub messages: Vec<ChatMessage>,
    pub stream: bool,
    pub max_tokens: Option<u32>,
    pub think: Option<bool>,
    pub thinking: Option<ThinkingConfig>,
}

/// Mathematical model of an [`LLMRequest`]. The thinking configuration is given by its
/// kind and its budget.
pub struct LLMRequestView {
    pub model: Seq<char>,
    pub messages: Seq<ChatMessageView>,
    pub stream: bool,
    pub max_tokens: Option<u32>,
    pub think: Option<bool>,
    pub thinking: Option<(Seq<char>, u32)>,
}

impl View for LLMRequest {
    type V = LLMRequestView;

    open spec fn view(&self) -> LLMRequestView {
        LLMRequestView {
            model: self.model@,
            messages: messages_view(self.messages@),
            stream: self.stream,
            max_tokens: self.max_tokens,
            think: self.think,
            thinking: match self.thinking {
                Some(config) => Some((config.thinking_type@, config.budget_tokens)),
                None => None,
            },
        }
    }
}

/// One event of a streamed answer, as the remote provider sends it.
#[derive(Clone, Debug, PartialEq, Eq)]
pub struct LLMResponse {
    pub event_type: String,
    pub delta: Option<ContentDelta>,
}

/// The increment that an event carries.
#[derive(Clone, Debug, PartialEq, Eq)]
pub struct ContentDelta {
    pub delta_type: String,
    pub text: Option<String>,
    pub thinking: Option<String>,
}

/// One line of a streamed answer, as the local provider sends it.
#[derive(Clone, Debug, PartialEq, Eq)]
pub struct OllamaResponse {
    pub message: ChatMessage,
    pub done: bool,
}

/// Mathematical model of a [`ContentDelta`].
pub struct ContentDeltaView {
    pub delta_type: Seq<char>,
    pub text: Option<Seq<char>>,
    pub thinking: Option<Seq<char>>,
}

/// Mathematical model of an [`LLMResponse`].
pub struct LLMResponseView {
    pub event_type: Seq<char>,
    pub delta: Option<ContentDeltaView>,
}

/// Mathematical model of an [`OllamaResponse`].
pub struct OllamaResponseView {
    pub message: ChatMessageView,
    pub done: bool,
}

impl View for ContentDelta {
    type V = ContentDeltaView;

    open spec fn view(&self) -> ContentDeltaView {
        ContentDeltaView {
            delta_type: self.delta_type@,
            text: opt_text(self.text),
            thinking: opt_text(self.thinking),
        }
    }
}

impl View for LLMResponse {
    type V = LLMResponseView;

    open spec fn view(&self) -> LLMResponseView {
        LLMResponseView {
            event_type: self.event_type@,
            delta: match self.delta {
                Some(delta) => Some(delta@),
                None => None,
            },
        }
    }
}

impl View for OllamaResponse {
    type V = OllamaResponseView;

    open spec fn view(&self) -> OllamaResponseView {
        OllamaResponseView { message: self.message@, done: self.done }
    }
}

/// The text held by an optional string, or `fallback` if there is none.
pub open spec fn text_or(o: Option<String>, fallback: Seq<char>) -> Seq<char> {
    match o {
        Some(s) => s@,
        None => fallback,
    }
}

/// The request sent to the remote provider: streamed, with room for 32000 tokens, and
/// with a thinking budget of 2000 tokens exactly if thinking is switched on.
pub open spec fn anthropic_request_view(
    model: Option<String>,
    default_model: Seq<char>,
    messages: Seq<ChatMessageView>,
    thinking: Option<bool>,
) -> LLMRequestView {
    LLMRequestView {
        model: text_or(model, default_model),
        messages,
        stream: true,
        max_tokens: Some(32000u32),
        think: None,
        thinking: if thinking == Some(true) {
            Some(("enabled"@, 2000u32))
        } else {
            None
        },
    }
}

/// The request sent to the local provider: streamed, with the thinking switch passed
/// on as it is.
pub open spec fn ollama_request_view(
    model: Option<String>,
    default_model: Seq<char>,
    messages: Seq<ChatMessageView>,
    think: Option<bool>,
) -> LLMRequestView {
    LLMRequestView {
        model: text_or(model, default_model),
        messages,
        stream: true,
        max_tokens: None,
        think,
        thinking: None,
    }
}

/// The chunk that an event of the remote provider carries, if it carries one: a
/// `content_block_delta` whose increment is a non-empty `text_delta` or a non-empty
/// `thinking_delta`.
pub open spec fn anthropic_chunk_view(event: LLMResponseView) -> Option<ChatMessageView> {
    if event.event_type != "content_block_delta"@ {
        None
    } else {
        match event.delta {
            None => None,
            Some(delta) => if delta.delta_type == "text_delta"@ {
                match delta.text {
                    Some(text) if text.len() > 0 => Some(
                        ChatMessageView {
                            role: MessageRole::Assistant,
                            content: text,
                            thinking: None,
                        },
                    ),
                    _ => None,
                }
            } else if delta.delta_type == "thinking_delta"@ {
                match delta.thinking {
                    Some(thinking) if thinking.len() > 0 => Some(
                        ChatMessageView {
                            role: MessageRole::Assistant,
                            content: Seq::empty(),
                            thinking: Some(thinking),
                        },
                    ),
                    _ => None,
                }
            } else {
                None
            },
        }
    }
}

/// The increment of an event of the remote provider: the object under `delta`, with a
/// text as its `type` and, where they are given, texts as its `text` and its
/// `thinking`. `None` if the object is not of this form.
pub open spec fn anthropic_delta(c: JsonContents) -> Option<ContentDeltaView> {
    match (
        text_at(c, "/delta/type"@),
        optional_text_at(c, "/delta/text"@),
        optional_text_at(c, "/delta/thinking"@),
    ) {
        (Some(delta_type), Ok(text), Ok(thinking)) => Some(
            ContentDeltaView { delta_type, text, thinking },
        ),
        _ => None,
    }
}

/// The event of the remote provider that a JSON document holds: an object with a text
/// as its `type` and, where one is given, an increment as its `delta`. `None` if the
/// document is not of this form.
pub open spec fn anthropic_event(c: JsonContents) -> Option<LLMResponseView> {
    if !object_at(c, ""@) {
        None
    } else {
        match text_at(c, "/type"@) {
            None => None,
            Some(event_type) => if left_out(c, "/delta"@) {
                Some(LLMResponseView { event_type, delta: None })
            } else if object_at(c, "/delta"@) {
                match anthropic_delta(c) {
                    Some(delta) => Some(LLMResponseView { event_type, delta: Some(delta) }),
                    None => None,
                }
            } else {
                None
            },
        }
    }
}

/// The role that a text names.
pub open spec fn role_named(text: Seq<char>) -> Option<MessageRole> {
    if text == "user"@ {
        Some(MessageRole::User)
    } else if text == "assistant"@ {
        Some(MessageRole::Assistant)
    } else {
        None
    }
}

/// The line of the local provider that a JSON document holds: an object with a message
/// under `message` and a truth value under `done`, where the message is an object
/// with a role under `role`, a text under `content` and, where it is given, a text
/// under `thinking`. `None` if the document is not of this form.
pub open spec fn ollama_line(c: JsonContents) -> Option<OllamaResponseView> {
    if !object_at(c, ""@) || !object_at(c, "/message"@) {
        None
    } else {
        match (
            text_at(c, "/message/role"@),
            text_at(c, "/message/content"@),
            optional_text_at(c, "/message/thinking"@),
            bool_at(c, "/done"@),
        ) {
            (Some(role), Some(content), Ok(thinking), Some(done)) => match role_named(role) {
                Some(role) => Some(
                    OllamaResponseView {
                        message: ChatMessageView { role, content, thinking },
                        done,
                    },
                ),
                None => None,
            },
            _ => None,
        }
    }
}

/// Whether a line of the local provider carries a chunk: its message has content or
/// thinking.
pub open spec fn ollama_carries_chunk(message: ChatMessageView) -> bool {
    message.content.len() > 0 || message.thinking is Some
}

/// Builds the request for the remote provider. Where no model is named, the request
/// asks for `default_model`.
pub fn anthropic_request(
    model: Option<String>,
    default_model: &str,
    messages: Vec<ChatMessage>,
    thinking: Option<bool>,
) -> (request: LLMRequest)
    ensures
        request@ == anthropic_request_view(
            model,
            default_model@,
            messages_view(messages@),
            thinking,
        ),
{
    let model = match model {
        Some(name) => name,
        None => default_model.to_owned(),
    };
    let config = match thinking {
        Some(true) => Some(
            ThinkingConfig { thinking_type: "enabled".to_owned(), budget_tokens: 2000 },
        ),
        _ => None,
    };
    LLMRequest {
        model,
        messages,
        stream: true,
        max_tokens: Some(32000),
        think: None,
        thinking: config,
    }
}

/// Builds the request for the local provider. Where no model is named, the request
/// asks for `default_model`.
pub fn ollama_request(
    model: Option<String>,
    default_model: &str,
    messages: Vec<ChatMessage>,
    think: Option<bool>,
) -> (request: LLMRequest)
    ensures
        request@ == ollama_request_view(model, default_model@, messages_view(messages@), think),
{
    let model = match model {
        Some(name) => name,
        None => default_model.to_owned(),
    };
    LLMRequest { model, messages, stream: true, max_tokens: None, think, thinking: None }
}

/// The chunk that an event of the remote provider carries, if it carries one. Events
/// of other kinds, and increments that are empty, carry none.
pub fn anthropic_chunk(event: LLMResponse) -> (chunk: Option<ChatMessage>)
    ensures
        match chunk {
            Some(message) => anthropic_chunk_view(event@) == Some(message@),
            None => anthropic_chunk_view(event@) is None,
        },
{
    if !same_text(event.event_type.as_str(), "content_block_delta") {
        return None;
    }
    let delta = match event.delta {
        Some(delta) => delta,
        None => { return None; },
    };
    if same_text(delta.delta_type.as_str(), "text_delta") {
        match delta.text {
            Some(text) => if text.as_str().is_empty() {
                None
            } else {
                Some(ChatMessage { role: MessageRole::Assistant, content: text, thinking: None })
            },
            None => None,
        }
    } else if same_text(delta.delta_type.as_str(), "thinking_delta") {
        match delta.thinking {
            Some(thinking) => if thinking.as_str().is_empty() {
                None
            } else {
                Some(
                    ChatMessage {
                        role: MessageRole::Assistant,
                        content: String::new(),
                        thinking: Some(thinking),
                    },
                )
            },
            None => None,
        }
    } else {
        None
    }
}

/// The chunk that a line of the local provider carries, if it carries one, and whether
/// the line is the last of the answer.
pub fn ollama_chunk(response: OllamaResponse) -> (r: (Option<ChatMessage>, bool))
    ensures
        r.1 == response.done,
        match r.0 {
            Some(message) => ollama_carries_chunk(response.message@) && message == response.message,
            None => !ollama_carries_chunk(response.message@),
        },
{
    let done = response.done;
    let message = response.message;
    let carries = !message.content.as_str().is_empty() || message.thinking.is_some();
    if carries {
        (Some(message), done)
    } else {
        (None, done)
    }
}

/// The event of the remote provider that the document `doc` holds.
pub fn anthropic_event_in(doc: &serde_json::Value) -> (r: Option<LLMResponse>)
    ensures
        match r {
            Some(event) => anthropic_event(json_contents(*doc)) == Some(event@),
            None => anthropic_event(json_contents(*doc)) is None,
        },
{
    if !is_object_at(doc, "") {
        return None;
    }
    let event_type = match read_text(doc, "/type") {
        Some(text) => text,
        None => { return None; },
    };
    if is_left_out(doc, "/delta") {
        return Some(LLMResponse { event_type, delta: None });
    }
    if !is_object_at(doc, "/delta") {
        return None;
    }
    let delta_type = match read_text(doc, "/delta/type") {
        Some(text) => text,
        None => { return None; },
    };
    let text = match read_optional_text(doc, "/delta/text") {
        Ok(text) => text,
        Err(_) => { return None; },
    };
    let thinking = match read_optional_text(doc, "/delta/thinking") {
        Ok(text) => text,
        Err(_) => { return None; },
    };
    Some(LLMResponse { event_type, delta: Some(ContentDelta { delta_type, text, thinking }) })
}

/// The line of the local provider that the document `doc` holds.
pub fn ollama_line_in(doc: &serde_json::Value) -> (r: Option<OllamaResponse>)
    ensures
        match r {
            Some(line) => ollama_line(json_contents(*doc)) == Some(line@),
            None => ollama_line(json_contents(*doc)) is None,
        },
{
    if !is_object_at(doc, "") || !is_object_at(doc, "/message") {
        return None;
    }
    let role_text = match read_text(doc, "/message/role") {
        Some(text) => text,
        None => { return None; },
    };
    let content = match read_text(doc, "/message/content") {
        Some(text) => text,
        None => { return None; },
    };
    let thinking = match read_optional_text(doc, "/message/thinking") {
        Ok(text) => text,
        Err(_) => { return None; },
    };
    let done = match read_bool(doc, "/done") {
        Some(done) => done,
        None => { return None; },
    };
    let role = if same_text(role_text.as_str(), "user") {
        MessageRole::User
    } else if same_text(role_text.as_str(), "assistant") {
        MessageRole::Assistant
    } else {
        return None;
    };
    Some(OllamaResponse { message: ChatMessage { role, content, thinking }, done })
}

/// The event that the remote provider sent as `payload`; `None` if the payload is not
/// a JSON document or the document is no event.
pub open spec fn decoded_anthropic_event(payload: Seq<char>) -> Option<LLMResponseView> {
    match parsed_json(payload) {
        Some(c) => anthropic_event(c),
        None => None,
    }
}

/// The line that the local provider sent as `line`; `None` if the line is not a JSON
/// document or the document is no line of an answer.
pub open spec fn decoded_ollama_line(line: Seq<char>) -> Option<OllamaResponseView> {
    match parsed_json(line) {
        Some(c) => ollama_line(c),
        None => None,
    }
}

/// Reads an event of the remote provider from `payload`. A payload that cannot be read
/// gives `None`.
pub fn decode_anthropic_event(payload: &str) -> (r: Option<LLMResponse>)
    ensures
        match r {
            Some(event) => decoded_anthropic_event(payload@) == Some(event@),
            None => decoded_anthropic_event(payload@) is None,
        },
{
    match read_json(payload) {
        Some(doc) => anthropic_event_in(&doc),
        None => None,
    }
}

/// Reads a line of the local provider from `line`. A line that cannot be read gives
/// `None`.
pub fn decode_ollama_line(line: &str) -> (r: Option<OllamaResponse>)
    ensures
        match r {
            Some(response) => decoded_ollama_line(line@) == Some(response@),
            None => decoded_ollama_line(line@) is None,
        },
{
    match read_json(line) {
        Some(doc) => ollama_line_in(&doc),
        None => None,
    }
}

} // verus!
