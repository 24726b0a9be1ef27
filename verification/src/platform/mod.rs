//! The platform's discrete domain rules over the engine: diagnostics and
//! readiness, rerun actions, validation of the extraction, the run store and
//! its error mapping, what a hypothesis's source nodes say, the expert
//! benchmark, lever availability, run preparation, CSV export, the roadmap's
//! grouping, the adapters' paths and sidecar requests, the snapshot's
//! canonical lines, and the query parameters.

pub mod diagnostics;
pub mod rerun;
pub mod validation;
pub mod runs;
pub mod lookup;
pub mod benchmark;
pub mod annotate;
pub mod run;
pub mod export;
pub mod roadmap;
pub mod adapters;
pub mod snapshot;
pub mod queries;
