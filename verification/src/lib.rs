//! Discovery engine over a causal mechanism graph: builds the graph from an
//! extraction result, enumerates mechanism paths, generates candidate
//! hypotheses with generic operators, and holds the platform's discrete
//! domain rules (rerun actions, expert benchmark, readiness, roadmap grouping,
//! CSV escaping, sidecar request shaping).

pub mod contracts;
pub mod strings;
pub mod pg;
pub mod sorting;
pub mod graph;
pub mod operators;
pub mod discover;
pub mod doe;
pub mod scoring;
pub mod status;
pub mod platform;
