//! The persisted shape of the configuration.

pub mod model;
