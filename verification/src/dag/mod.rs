//! Directed acyclic graphs of tasks.

pub mod builder;
pub mod dag_impl;
pub mod edge;
pub mod executor;
pub mod graph;
pub mod node;
pub mod props;
pub mod render;
pub mod result;
pub mod scheduler;

pub use builder::DAGBuilder;
pub use dag_impl::DAG;
pub use edge::DAGEdge;
pub use executor::ExecutionProgress;
pub use node::DAGNode;
pub use result::NodeExecutionResult;
pub use scheduler::{Scheduler, SchedulerStep};
