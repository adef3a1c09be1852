# cortex_flow

A task orchestration library for AI agent workflows: tasks form a DAG, which is validated,
ordered, layered and run with bounded parallelism; around it sit execution state and reports,
error handling and retry decisions, execution context data with snapshots, LLM client
registries and token accounting, tracing, and the demo pipelines.

The library in `src/` is written in Verus and verified: every function carries a contract
over mathematical models of the data (sequences, maps, sets), and the laws that span several
functions are stated and proved as proof functions (for example that a topological order
excludes cycles, that nodes of one layer are independent, that a scheduled run starts every
node exactly once and only after its predecessors, and that restoring a snapshot gives back
the data it was taken from).

Layout:

- `src/dag/` graphs, cycle detection, ordering, layering, rendering and the scheduler
- `src/execution/`, `src/strategy/` plans, execution state, reports and strategies
- `src/error.rs`, `src/error_recovery/` errors, handling decisions and retry decisions
- `src/context/` scoped context data and the shared context store
- `src/llm/`, `src/observability/`, `src/task/`, `src/config/` the remaining components
- `src/foreign.rs` the few trusted declarations of outside crates (JSON, clock, UUIDs)
- `tests/` tests of the library
- `app/` the asynchronous runtime (executor loop, orchestrator, clients) and the demo
  program (command line and web UI)
