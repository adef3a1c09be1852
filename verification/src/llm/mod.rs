//! LLM responses, token usage, providers and a scripted client for tests and demos.

pub mod client;
pub mod config;
pub mod registry;
pub mod response;
pub mod token_tracker;

pub use client::{MockLLMClient, StreamChunk};
pub use config::LLMProvider;
pub use registry::ClientRegistry;
pub use response::{LLMResponse, TokenUsage};
pub use token_tracker::TokenTotals;
