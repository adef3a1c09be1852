//! What an LLM answers, and how many tokens it took.

use vstd::prelude::*;
use vstd::string::StringSliceAdditionalSpecFns;
use vstd::utf8::encode_utf8;
use crate::text::{blank, is_blank};

verus! {

/// The tokens one call used.
#[derive(Debug, Clone, Copy, PartialEq, Eq, Structural)]
pub struct TokenUsage {
    /// Tokens of the prompt.
    pub prompt_tokens: u32,
    /// Tokens of the completion.
    pub completion_tokens: u32,
    /// Tokens in all.
    pub total_tokens: u32,
}

impl TokenUsage {
    /// The usage of a call with these prompt and completion tokens; the total is their sum.
    pub fn new(prompt_tokens: u32, completion_tokens: u32) -> (u: Self)
        requires
            prompt_tokens + completion_tokens <= u32::MAX,
        ensures
            u.prompt_tokens == prompt_tokens,
            u.completion_tokens == completion_tokens,
            u.total_tokens == prompt_tokens + completion_tokens,
    {
        TokenUsage { prompt_tokens, completion_tokens, total_tokens: prompt_tokens + completion_tokens }
    }

    /// Adds another call's usage, count by count.
    pub fn add(&mut self, other: &TokenUsage)
        requires
            old(self).prompt_tokens + other.prompt_tokens <= u32::MAX,
            old(self).completion_tokens + other.completion_tokens <= u32::MAX,
            old(self).total_tokens + other.total_tokens <= u32::MAX,
        ensures
            final(self).prompt_tokens == old(self).prompt_tokens + other.prompt_tokens,
            final(self).completion_tokens == old(self).completion_tokens + other.completion_tokens,
            final(self).total_tokens == old(self).total_tokens + other.total_tokens,
    {
        self.prompt_tokens = self.prompt_tokens + other.prompt_tokens;
        self.completion_tokens = self.completion_tokens + other.completion_tokens;
        self.total_tokens = self.total_tokens + other.total_tokens;
    }
}

impl Default for TokenUsage {
    fn default() -> (u: Self)
        ensures
            u == (TokenUsage { prompt_tokens: 0, completion_tokens: 0, total_tokens: 0 }),
    {
        TokenUsage { prompt_tokens: 0, completion_tokens: 0, total_tokens: 0 }
    }
}

/// An LLM's answer.
pub struct LLMResponse {
    /// The answer's text.
    pub content: String,
    /// The tokens used.
    pub usage: TokenUsage,
    /// The model that answered.
    pub model: String,
    /// Why the answer ended.
    pub finish_reason: Option<String>,
    /// Anything else the service returned.
    pub metadata: Option<serde_json::Value>,
}

impl LLMResponse {
    /// An answer without a finish reason or metadata.
    pub fn new(content: String, usage: TokenUsage, model: &str) -> (r: Self)
        ensures
            r.content == content,
            r.usage == usage,
            r.model@ == model@,
            r.finish_reason is None,
            r.metadata is None,
    {
        LLMResponse { content, usage, model: model.to_owned(), finish_reason: None, metadata: None }
    }

    /// Sets the finish reason.
    pub fn with_finish_reason(self, reason: &str) -> (r: Self)
        ensures
            r.content == self.content,
            r.usage == self.usage,
            r.model == self.model,
            r.finish_reason matches Some(f) && f@ == reason@,
            r.metadata == self.metadata,
    {
        LLMResponse { finish_reason: Some(reason.to_owned()), ..self }
    }

    /// Sets the metadata.
    pub fn with_metadata(self, metadata: serde_json::Value) -> (r: Self)
        ensures
            r.content == self.content,
            r.usage == self.usage,
            r.model == self.model,
            r.finish_reason == self.finish_reason,
            r.metadata == Some(metadata),
    {
        LLMResponse { metadata: Some(metadata), ..self }
    }

    /// Whether the answer holds nothing but white space.
    pub fn is_empty(&self) -> (b: bool)
        ensures
            b == blank(self.content@),
    {
        is_blank(self.content.as_str())
    }

    /// The answer's length in bytes.
    pub fn len(&self) -> (n: usize)
        ensures
            n == encode_utf8(self.content@).len(),
    {
        self.content.as_str().as_bytes().len()
    }
}

} // verus!
