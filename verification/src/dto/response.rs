//! The bodies of the service's responses.

use vstd::prelude::*;

use crate::git::gtm::Commit;

verus! {

/// The answer to a request to track a repository.
pub struct AddRepoDto {
    pub success: bool,
    pub provider: Option<String>,
    pub user: Option<String>,
    pub repo: Option<String>,
    pub message: Option<String>,
}

/// A repository with its commits, as sent to the backend.
pub struct RepoDto {
    pub provider: String,
    pub user: String,
    pub repo: String,
    pub sync_url: String,
    pub access_token: Option<String>,
    pub commits: Vec<Commit>,
}

/// A repository, or none where it is not tracked.
pub struct RepoWrapperDto {
    pub repository: Option<RepoDto>,
}

} // verus!
