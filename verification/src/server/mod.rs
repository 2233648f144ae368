//! The HTTP-facing operations of the service and the bodies it exchanges.

pub mod resource;
pub mod service;
pub mod sync;
