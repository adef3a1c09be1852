//! CortexFlow: an orchestration framework that breaks a goal into an ordered,
//! controllable and checkable set of sub-tasks arranged in a DAG.

pub mod foreign;
pub mod assoc;
pub mod config;
pub mod context;
pub mod dag;
pub mod demo;
pub mod error;
pub mod error_recovery;
pub mod execution;
pub mod llm;
pub mod observability;
pub mod strategy;
pub mod task;
pub mod text;
