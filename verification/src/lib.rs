//! Reconciliation of two file trees: a managed directory and a resolved
//! target location. The library classifies every file as new, identical or
//! divergent between the two trees, aggregates those classifications into
//! per-group and per-plan summaries, and decides which actions an apply pass
//! must perform. All filesystem access happens outside the library: callers
//! hand in observed file contents and get decisions back.

pub mod cli;
pub mod config;
pub mod executor;
pub mod error;
pub mod ignore;
pub mod plan;
pub mod store;
pub mod sort;
pub mod status;
pub mod text;
