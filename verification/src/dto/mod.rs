//! The request and response bodies of the service's API.

pub mod request;
pub mod response;
