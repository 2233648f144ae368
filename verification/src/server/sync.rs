//! The body that a full sync posts for each tracked repository.

use vstd::prelude::*;

use crate::clone_url::{clone_url_parts, has_clone_url, UrlPattern};
use crate::config::config::{sync_url, Config};
use crate::config::repository::{clone_opt, generate_credentials_from_clone_url};
use crate::dto::response::{RepoDto, RepoWrapperDto};
use crate::git::gtm::Commit;

verus! {

/// The body posted to the backend for the repository cloned from
/// `repo_url`: its provider, user and name, this service's address, the
/// access token and the commits.
pub fn sync_body(cfg: &Config, repo_url: &String, commits: Vec<Commit>) -> (r: RepoWrapperDto)
    requires
        has_clone_url(UrlPattern::Nested, repo_url@),
    ensures
        r.repository matches Some(d) && {
            let (provider, user, repo) = clone_url_parts(UrlPattern::Nested, repo_url@)->0;
            &&& d.provider@ == provider
            &&& d.user@ == user
            &&& d.repo@ == repo
            &&& d.sync_url@ == sync_url(cfg.address, cfg.port)
            &&& d.access_token == cfg.access_token
            &&& d.commits == commits
        },
{
    let (provider, user, repo) = generate_credentials_from_clone_url(repo_url.as_str());
    RepoWrapperDto {
        repository: Some(
            RepoDto {
                provider,
                user,
                repo,
                sync_url: cfg.get_sync_url(),
                access_token: clone_opt(&cfg.access_token),
                commits,
            },
        ),
    }
}

/// Syncing a single repository is not offered here: the answer is always
/// `false`.
pub fn sync_single() -> (r: bool)
    ensures
        !r,
{
    false
}

} // verus!
