//! The sync service's configuration and the repositories it tracks.

pub mod config;
pub mod repository;
