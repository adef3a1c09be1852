//! Execution context data.

pub mod scope;
pub mod store;

pub use scope::ContextScope;
pub use store::{ContextLog, ContextSnapshot, ContextStore};
