//! Adding repositories to the configuration and describing them.

pub mod repo_manager;
