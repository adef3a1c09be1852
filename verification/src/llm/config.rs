//! LLM service providers.

use vstd::prelude::*;

verus! {

/// An LLM service provider.
#[derive(Debug, Clone, Copy, PartialEq, Eq, Hash, Structural)]
pub enum LLMProvider {
    /// OpenAI.
    OpenAI,
    /// Anthropic.
    Anthropic,
    /// Azure OpenAI.
    Azure,
    /// A local Ollama server.
    Ollama,
    /// Any service speaking the OpenAI chat API.
    Custom,
}

impl Default for LLMProvider {
    fn default() -> (p: Self)
        ensures
            p == LLMProvider::OpenAI,
    {
        LLMProvider::OpenAI
    }
}

/// The name of each provider, as shown to users.
pub open spec fn provider_name(p: LLMProvider) -> Seq<char> {
    match p {
        LLMProvider::OpenAI => "openai"@,
        LLMProvider::Anthropic => "anthropic"@,
        LLMProvider::Azure => "azure"@,
        LLMProvider::Ollama => "ollama"@,
        LLMProvider::Custom => "custom"@,
    }
}

impl LLMProvider {
    /// The provider's name, such as `openai`.
    pub fn as_str(&self) -> (s: &'static str)
        ensures
            s@ == provider_name(*self),
    {
        match self {
            LLMProvider::OpenAI => "openai",
            LLMProvider::Anthropic => "anthropic",
            LLMProvider::Azure => "azure",
            LLMProvider::Ollama => "ollama",
            LLMProvider::Custom => "custom",
        }
    }
}

} // verus!
