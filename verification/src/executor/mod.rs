//! Execution: conflict gates, transitions, atomicity and the pipeline.
pub mod error;
pub mod transition;
pub mod conflict;
pub mod atomicity;
pub mod names;
pub mod laws;
pub mod lifecycle;
pub mod statuses;
pub mod authority;
pub mod pipeline;
pub mod execution;
pub mod complete;
pub mod accepted;
pub mod batch;
pub mod all_or_nothing;
pub mod fitting;
pub mod ingress;
pub mod served;
pub mod callers;
