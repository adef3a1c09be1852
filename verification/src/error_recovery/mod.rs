//! Error handling and recovery: deciding about errors, when to retry, and compensations.

pub mod compensation;
pub mod handler;
pub mod retry;

pub use compensation::{CompensationResult, NoOpCompensation};
pub use handler::{ErrorAction, ErrorCategory, ErrorHandleResult, ErrorHandler};
