//! Synchronisation of git time metrics: configuration, clone-URL handling,
//! the grammar of the time notes that gtm writes into git, and the decisions
//! that drive a sync with the metrics backend.

pub mod text;
pub mod clone_url;
pub mod config;
pub mod git;
pub mod gtm;
pub mod model;
pub mod dto;
pub mod repo;
pub mod server;
pub mod sync;
