//! Wire-format models of the OpenAI-compatible and Gemini APIs, and of the
//! error bodies that Google AI Studio returns. Parsing and printing them is
//! left to the caller; the library reads and builds their fields.

use vstd::prelude::*;

verus! {

/// An OpenAI-style chat completion request.
#[derive(Debug)]
pub struct OpenAiChatCompletionRequest {
    pub model: String,
    pub messages: Vec<OpenAiChatMessage>,
    pub stream: bool,
}

/// One message of a chat.
#[derive(Debug)]
pub struct OpenAiChatMessage {
    pub role: String,
    pub content: String,
}

/// An OpenAI-style embeddings request.
#[derive(Debug)]
pub struct OpenAiEmbeddingsRequest {
    pub input: Vec<String>,
    pub model: String,
}

/// Token counts of an OpenAI-style response.
#[derive(Debug, Clone, Copy, PartialEq, Eq)]
pub struct OpenAiUsage {
    pub prompt_tokens: u32,
    pub completion_tokens: u32,
    pub total_tokens: u32,
}

/// The body of an OpenAI-style error response.
#[derive(Debug)]
pub struct OpenAiErrorResponse {
    pub error: OpenAiError,
}

/// An OpenAI-style error.
#[derive(Debug)]
pub struct OpenAiError {
    pub message: String,
    pub error_type: String,
    pub param: Option<String>,
    pub code: Option<String>,
}

/// A native Gemini chat request.
#[derive(Debug)]
pub struct GeminiChatRequest {
    pub contents: Vec<GeminiContent>,
}

/// A native Gemini chat response.
#[derive(Debug)]
pub struct GeminiChatResponse {
    pub candidates: Vec<GeminiCandidate>,
}

/// A native Gemini batch embeddings request.
#[derive(Debug)]
pub struct GeminiEmbeddingsRequest {
    pub requests: Vec<GeminiEmbeddingContent>,
}

/// Content of a Gemini message: its parts and, in chats, the speaker.
#[derive(Debug)]
pub struct GeminiContent {
    pub parts: Vec<GeminiPart>,
    pub role: Option<String>,
}

/// One embedding request of a batch.
#[derive(Debug)]
pub struct GeminiEmbeddingContent {
    pub model: String,
    pub content: GeminiContent,
}

/// One text part of a Gemini message.
#[derive(Debug)]
pub struct GeminiPart {
    pub text: String,
}

/// One candidate answer of a Gemini chat response.
#[derive(Debug)]
pub struct GeminiCandidate {
    pub content: GeminiContent,
    pub finish_reason: String,
    pub index: u32,
}

/// The error body that Google AI Studio returns.
#[derive(Debug)]
pub struct GoogleErrorResponse {
    pub error: GoogleErrorBody,
}

/// The inner error object of a Google error body.
#[derive(Debug)]
pub struct GoogleErrorBody {
    pub code: u16,
    pub message: String,
    pub status: String,
    pub details: Vec<GoogleErrorDetail>,
}

/// One typed detail of a Google error (`@type` is kept in `type_url`).
#[derive(Debug)]
pub struct GoogleErrorDetail {
    pub type_url: String,
    pub violations: Vec<GoogleQuotaViolation>,
    pub retry_delay: Option<String>,
    pub reason: Option<String>,
}

/// One quota violation of a `QuotaFailure` detail.
#[derive(Debug)]
pub struct GoogleQuotaViolation {
    pub subject: String,
    pub description: String,
    pub quota_id: Option<String>,
}

impl GoogleErrorResponse {
    /// The body that stands for one that could not be read: no message and
    /// no details.
    pub fn empty() -> (r: GoogleErrorResponse)
        ensures
            r.error.code == 0,
            r.error.message@.len() == 0,
            r.error.status@.len() == 0,
            r.error.details@.len() == 0,
    {
        GoogleErrorResponse {
            error: GoogleErrorBody { code: 0, message: String::new(), status: String::new(), details: Vec::new() },
        }
    }
}

} // verus!
