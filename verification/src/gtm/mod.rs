//! Fetching tracked repositories together with gtm's notes.

pub mod git;
