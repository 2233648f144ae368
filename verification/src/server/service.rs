//! Repository operations over the stored configuration, reading clone URLs
//! in the flat spelling (`OWNER` and `NAME` are `[a-zA-Z0-9-]+`).

use vstd::prelude::*;

use crate::clone_url::{clone_url_parts, find_clone_url_parts, has_clone_url, UrlPattern};
use crate::config::config::{join_repo_path, repo_path};
use crate::config::repository::{opt_view, RepositoryView};
use crate::dto::request::AddRepositoryDto;
use crate::dto::response::{AddRepoDto, RepoDto};
use crate::git::gtm::Commit;
use crate::model::model::{Config, Repository};

verus! {

/// The provider, user and repository name that a clone URL in the flat
/// spelling names (`git@github.com:user/repo.git`).
pub fn get_credentials_from_clone_url(url: &String) -> (r: (String, String, String))
    requires
        has_clone_url(UrlPattern::Flat, url@),
    ensures
        clone_url_parts(UrlPattern::Flat, url@) == Some((r.0@, r.1@, r.2@)),
{
    match find_clone_url_parts(&UrlPattern::Flat, url.as_str()) {
        Some(parts) => parts,
        None => {
            assert(false);
            (String::new(), String::new(), String::new())
        },
    }
}

/// Whether `url` holds a clone URL in the flat spelling.
pub fn is_flat_clone_url(url: &String) -> (b: bool)
    ensures
        b == has_clone_url(UrlPattern::Flat, url@),
{
    find_clone_url_parts(&UrlPattern::Flat, url.as_str()).is_some()
}

/// Where the repository of a clone URL is cloned under `base_path`.
pub fn generate_path_from_git_url(url: &String, base_path: &String) -> (r: String)
    requires
        has_clone_url(UrlPattern::Flat, url@),
    ensures
        ({
            let (provider, user, repo) = clone_url_parts(UrlPattern::Flat, url@)->0;
            r@ == repo_path(base_path@, provider, user, repo)
        }),
{
    let (provider, user, repo) = get_credentials_from_clone_url(url);
    join_repo_path(base_path, &provider, &user, &repo)
}

/// Where the repository `provider/user/repo` is cloned under `base_path`.
pub fn generate_path_from_provider_user_repo(
    provider: &String,
    user: &String,
    repo: &String,
    base_path: &String,
) -> (r: String)
    ensures
        r@ == repo_path(base_path@, provider@, user@, repo@),
{
    join_repo_path(base_path, provider, user, repo)
}

/// Some stored repository is cloned to `path`.
pub open spec fn stores_path(repos: Seq<Repository>, path: Seq<char>) -> bool {
    exists|j: int| 0 <= j < repos.len() && (#[trigger] repos[j]).path@ == path
}

/// A repository stored at any position with the path `path` makes the path
/// stored; none with it, at any position, makes it not stored.
pub proof fn lemma_stores_path_at_any_position(repos: Seq<Repository>, path: Seq<char>, j: int)
    ensures
        0 <= j < repos.len() && repos[j].path@ == path ==> stores_path(repos, path),
        (forall|k: int| 0 <= k < repos.len() ==> (#[trigger] repos[k]).path@ != path) ==> !stores_path(
            repos,
            path,
        ),
{
}

/// Some stored repository has the clone URL `url`.
pub open spec fn stores_url(repos: Seq<Repository>, url: Seq<char>) -> bool {
    exists|j: int| 0 <= j < repos.len() && (#[trigger] repos[j]).url@ == url
}

/// Describes the stored repository `provider/user/repo` with `commits`: the
/// commits are kept only where some stored repository is cloned to its
/// path; the names are those asked for, and the address and token are
/// left empty.
pub fn get_repo(cfg: &Config, provider: &String, user: &String, repo: &String, commits: Vec<Commit>) -> (r: RepoDto)
    ensures
        r.provider == *provider,
        r.user == *user,
        r.repo == *repo,
        r.sync_url@ == Seq::<char>::empty(),
        r.access_token is None,
        if stores_path(cfg.repositories@, repo_path(cfg.repositories_base_path@, provider@, user@, repo@)) {
            r.commits == commits
        } else {
            r.commits@.len() == 0
        },
        forall|j: int|
            0 <= j < cfg.repositories@.len() && (#[trigger] cfg.repositories@[j]).path@ == repo_path(
                cfg.repositories_base_path@,
                provider@,
                user@,
                repo@,
            ) ==> r.commits == commits,
        (forall|j: int|
            0 <= j < cfg.repositories@.len() ==> (#[trigger] cfg.repositories@[j]).path@ != repo_path(
                cfg.repositories_base_path@,
                provider@,
                user@,
                repo@,
            )) ==> r.commits@.len() == 0,
{
    let path = generate_path_from_provider_user_repo(provider, user, repo, &cfg.repositories_base_path);
    let mut found = false;
    let mut j: usize = 0;
    while j < cfg.repositories.len()
        invariant
            j <= cfg.repositories.len(),
            path@ == repo_path(cfg.repositories_base_path@, provider@, user@, repo@),
            found == exists|k: int| 0 <= k < j && (#[trigger] cfg.repositories@[k]).path@ == path@,
        decreases cfg.repositories.len() - j,
    {
        if cfg.repositories[j].path == path {
            found = true;
        }
        j = j + 1;
    }
    RepoDto {
        provider: provider.clone(),
        user: user.clone(),
        repo: repo.clone(),
        sync_url: String::new(),
        access_token: None,
        commits: if found { commits } else { Vec::new() },
    }
}

/// Completes a request to store a repository once its clone was attempted:
/// where the clone succeeded the answer names the repository's provider,
/// user and name, and the repository is stored unless some entry already
/// has its URL; where it failed the answer carries the error and `cfg` is
/// unchanged.
pub fn add_repo(cfg: &mut Config, repo_dto: AddRepositoryDto, cloned: Result<(), String>) -> (r: AddRepoDto)
    requires
        has_clone_url(UrlPattern::Flat, repo_dto.url@),
    ensures
        final(cfg).target_host == old(cfg).target_host,
        final(cfg).target_port == old(cfg).target_port,
        final(cfg).port == old(cfg).port,
        final(cfg).repositories_base_path == old(cfg).repositories_base_path,
        r.success && !stores_url(old(cfg).repositories@, repo_dto.url@) ==> {
            let e = final(cfg).repositories@.last();
            &&& final(cfg).repositories@.len() == old(cfg).repositories@.len() + 1
            &&& e.url == repo_dto.url
            &&& e.ssh_private_key == repo_dto.ssh_private_key
            &&& e.ssh_public_key == repo_dto.ssh_public_key
            &&& e.ssh_user == repo_dto.ssh_user
            &&& e.ssh_passphrase == repo_dto.ssh_passphrase
        },
        match cloned {
            Ok(()) => {
                let (provider, user, repo) = clone_url_parts(UrlPattern::Flat, repo_dto.url@)->0;
                &&& r.success
                &&& r.provider matches Some(p) && p@ == provider
                &&& r.user matches Some(u) && u@ == user
                &&& r.repo matches Some(n) && n@ == repo
                &&& r.message is None
                &&& if stores_url(old(cfg).repositories@, repo_dto.url@) {
                    final(cfg).repositories@ == old(cfg).repositories@
                } else {
                    &&& final(cfg).repositories@ == old(cfg).repositories@.push(
                        final(cfg).repositories@.last(),
                    )
                    &&& final(cfg).repositories@.last()@ == (RepositoryView {
                        url: repo_dto.url@,
                        path: repo_path(old(cfg).repositories_base_path@, provider, user, repo),
                        ssh_private_key: opt_view(repo_dto.ssh_private_key),
                        ssh_public_key: opt_view(repo_dto.ssh_public_key),
                        ssh_user: opt_view(repo_dto.ssh_user),
                        ssh_passphrase: opt_view(repo_dto.ssh_passphrase),
                    })
                }
            },
            Err(e) => {
                &&& !r.success
                &&& r.provider is None
                &&& r.user is None
                &&& r.repo is None
                &&& r.message == Some(e)
                &&& final(cfg).repositories@ == old(cfg).repositories@
            },
        },
{
    let repo = {
        let base: &String = &cfg.repositories_base_path;
        let path_of = |url: &String| -> (p: String)
            requires
                has_clone_url(UrlPattern::Flat, url@),
            ensures
                ({
                    let (provider, user, repo) = clone_url_parts(UrlPattern::Flat, url@)->0;
                    p@ == repo_path(base@, provider, user, repo)
                }),
            { generate_path_from_git_url(url, base) };
        repo_dto.to_repository(&path_of)
    };
    match cloned {
        Ok(()) => {
            let (provider, user, repository) = get_credentials_from_clone_url(&repo.url);
            let mut present = false;
            let mut j: usize = 0;
            while j < cfg.repositories.len()
                invariant
                    j <= cfg.repositories.len(),
                    present == exists|k: int|
                        0 <= k < j && (#[trigger] cfg.repositories@[k]).url@ == repo_dto.url@,
                decreases cfg.repositories.len() - j,
            {
                if cfg.repositories[j].url == repo_dto.url {
                    present = true;
                }
                j = j + 1;
            }
            if !present {
                cfg.repositories.push(repo);
            }
            AddRepoDto {
                success: true,
                provider: Some(provider),
                user: Some(user),
                repo: Some(repository),
                message: None,
            }
        },
        Err(e) => AddRepoDto { success: false, provider: None, user: None, repo: None, message: Some(e) },
    }
}

} // verus!
