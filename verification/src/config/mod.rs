//! Framework configuration.

pub mod framework_config;

pub use framework_config::{DAGConfig, ExecutionConfig, LoggingConfig, StrategyConfig};
