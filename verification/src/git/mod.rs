//! The time notes that gtm records in git, and the commits they belong to.

pub mod git;
pub mod gtm;
pub mod note;
