//! Syncing tracked repositories with the backend.

pub mod sync;
