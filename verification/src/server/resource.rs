//! The parts of the push webhooks of GitHub and GitLab that the service
//! reads.

use vstd::prelude::*;

verus! {

/// The repository of a GitHub push event.
pub struct GithubRepository {
    pub ssh_url: String,
}

/// A GitHub push event.
pub struct GithubPushWebhook {
    pub repository: GithubRepository,
}

/// The repository of a GitLab push event.
pub struct GitlabRepository {
    pub git_ssh_url: String,
}

/// A GitLab push event.
pub struct GitlabPushWebhook {
    pub repository: GitlabRepository,
}

} // verus!
