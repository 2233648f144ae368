//! Adding repositories to the configuration and describing them, with the
//! request and response bodies of those operations.

use vstd::prelude::*;

use crate::clone_url::{clone_url_parts, has_clone_url, UrlPattern};
use crate::config::config::{first_with_path, lemma_first_with_path_exists, none_with_path, repo_path, sync_url, Config};
use crate::config::repository::{clone_opt, generate_credentials_from_clone_url, Repository, RepositoryView, opt_view};
use crate::git::gtm::Commit;

verus! {

/// A request to track the repository at `url`, with its SSH credentials.
pub struct AddRepositoryDto {
    pub url: String,
    pub ssh_private_key: Option<String>,
    pub ssh_public_key: Option<String>,
    pub ssh_user: Option<String>,
    pub ssh_passphrase: Option<String>,
}

/// The answer to a request to track a repository.
pub struct AddRepoDto {
    pub success: bool,
    pub provider: Option<String>,
    pub user: Option<String>,
    pub repo: Option<String>,
    pub message: Option<String>,
}

/// A repository with its commits, as sent to the backend.
pub struct RepoDto {
    pub provider: String,
    pub user: String,
    pub repo: String,
    pub sync_url: String,
    pub access_token: Option<String>,
    pub commits: Vec<Commit>,
}

/// A repository, or none where it is not tracked.
pub struct RepoWrapperDto {
    pub repository: Option<RepoDto>,
}

impl AddRepositoryDto {
    /// The repository entry for this request, cloned to the path that `f`
    /// gives for its URL.
    pub fn to_repository<F: Fn(&String) -> String>(&self, f: &F) -> (r: Repository)
        requires
            f.requires((&self.url,)),
        ensures
            f.ensures((&self.url,), r.path),
            r.url == self.url,
            r.ssh_private_key == self.ssh_private_key,
            r.ssh_public_key == self.ssh_public_key,
            r.ssh_user == self.ssh_user,
            r.ssh_passphrase == self.ssh_passphrase,
    {
        let url = self.url.clone();
        Repository {
            url: self.url.clone(),
            path: f(&url),
            ssh_private_key: clone_opt(&self.ssh_private_key),
            ssh_public_key: clone_opt(&self.ssh_public_key),
            ssh_user: clone_opt(&self.ssh_user),
            ssh_passphrase: clone_opt(&self.ssh_passphrase),
        }
    }
}

/// Some tracked repository has the clone URL `url`.
pub open spec fn tracks_url(repos: Seq<Repository>, url: Seq<char>) -> bool {
    exists|j: int| 0 <= j < repos.len() && (#[trigger] repos[j]).url@ == url
}

/// The two configurations agree on everything but the repositories.
pub open spec fn same_settings(a: Config, b: Config) -> bool {
    &&& a.target_host == b.target_host
    &&& a.target_port == b.target_port
    &&& a.port == b.port
    &&& a.address == b.address
    &&& a.access_token == b.access_token
    &&& a.ssh_public_key == b.ssh_public_key
    &&& a.ssh_private_key == b.ssh_private_key
    &&& a.ssh_user == b.ssh_user
    &&& a.ssh_passphrase == b.ssh_passphrase
    &&& a.repositories_base_path == b.repositories_base_path
}

/// The entry that a request to track `dto`'s repository adds under `base`.
pub open spec fn requested_repository(dto: AddRepositoryDto, base: Seq<char>) -> RepositoryView {
    let (provider, user, repo) = clone_url_parts(UrlPattern::Nested, dto.url@)->0;
    RepositoryView {
        url: dto.url@,
        path: repo_path(base, provider, user, repo),
        ssh_private_key: opt_view(dto.ssh_private_key),
        ssh_public_key: opt_view(dto.ssh_public_key),
        ssh_user: opt_view(dto.ssh_user),
        ssh_passphrase: opt_view(dto.ssh_passphrase),
    }
}

/// The entries after a successful request to track `dto`'s repository
/// under `base`: unchanged where some entry already has its URL, else the
/// requested entry appended.
pub open spec fn stored_after_add(
    before: Seq<Repository>,
    after: Seq<Repository>,
    dto: AddRepositoryDto,
    base: Seq<char>,
) -> bool {
    if tracks_url(before, dto.url@) {
        after == before
    } else {
        &&& after == before.push(after.last())
        &&& after.last()@ == requested_repository(dto, base)
    }
}

/// Tracking a repository twice is tracking it once: after a successful
/// request its URL is tracked, so the same request again leaves the
/// entries as they are.
pub proof fn lemma_add_is_idempotent(
    before: Seq<Repository>,
    after: Seq<Repository>,
    dto: AddRepositoryDto,
    base: Seq<char>,
)
    requires
        stored_after_add(before, after, dto, base),
    ensures
        tracks_url(after, dto.url@),
        stored_after_add(after, after, dto, base),
{
    if !tracks_url(before, dto.url@) {
        let last = after.len() - 1;
        assert(after[last].url@ == dto.url@);
    }
}

/// The entry that a successful request adds carries the request's own URL
/// and SSH settings, field by field.
pub proof fn lemma_added_entry_carries_request(
    before: Seq<Repository>,
    after: Seq<Repository>,
    dto: AddRepositoryDto,
    base: Seq<char>,
)
    requires
        stored_after_add(before, after, dto, base),
        !tracks_url(before, dto.url@),
    ensures
        after.len() == before.len() + 1,
        after.last().url@ == dto.url@,
        opt_view(after.last().ssh_private_key) == opt_view(dto.ssh_private_key),
        opt_view(after.last().ssh_public_key) == opt_view(dto.ssh_public_key),
        opt_view(after.last().ssh_user) == opt_view(dto.ssh_user),
        opt_view(after.last().ssh_passphrase) == opt_view(dto.ssh_passphrase),
{
}

/// Read after write: once a request to track a repository succeeded and
/// added an entry, looking the repository up by the provider, user and
/// name its URL gives finds an entry, and its URL is tracked.
pub proof fn lemma_added_repository_is_found(
    before: Seq<Repository>,
    after: Seq<Repository>,
    base: Seq<char>,
    dto: AddRepositoryDto,
)
    requires
        after == before.push(after.last()),
        after.last()@ == requested_repository(dto, base),
    ensures
        tracks_url(after, dto.url@),
        ({
            let (provider, user, repo) = clone_url_parts(UrlPattern::Nested, dto.url@)->0;
            exists|i: int| first_with_path(after, repo_path(base, provider, user, repo), i)
        }),
{
    let (provider, user, repo) = clone_url_parts(UrlPattern::Nested, dto.url@)->0;
    let path = repo_path(base, provider, user, repo);
    let last = after.len() - 1;
    assert(after[last].url@ == dto.url@);
    assert(after[last].path@ == path);
    lemma_first_with_path_exists(after, path, last);
}

/// No two entries share a clone URL.
pub open spec fn distinct_urls(repos: Seq<Repository>) -> bool {
    forall|i: int, j: int|
        0 <= i < repos.len() && 0 <= j < repos.len() && i != j ==> (#[trigger] repos[i]).url@ != (
        #[trigger] repos[j]).url@
}

/// A URL is stored at most once: a request to track a repository leaves the
/// entries as they were, or adds one whose URL no entry had, so entries
/// with distinct URLs keep distinct URLs.
pub proof fn lemma_add_keeps_urls_distinct(before: Seq<Repository>, after: Seq<Repository>, url: Seq<char>)
    requires
        distinct_urls(before),
        after == before || (!tracks_url(before, url) && after == before.push(after.last())
            && after.last().url@ == url),
    ensures
        distinct_urls(after),
{
    if after != before {
        assert forall|i: int, j: int|
            0 <= i < after.len() && 0 <= j < after.len() && i != j implies (#[trigger] after[i]).url@
            != (#[trigger] after[j]).url@ by {
            if i == before.len() {
                assert(after[j] == before[j]);
            } else if j == before.len() {
                assert(after[i] == before[i]);
            } else {
                assert(after[i] == before[i]);
                assert(after[j] == before[j]);
            }
        }
    }
}

/// Whether some repository has the clone URL `url`.
fn has_url(repos: &Vec<Repository>, url: &String) -> (b: bool)
    ensures
        b == tracks_url(repos@, url@),
{
    let mut j: usize = 0;
    while j < repos.len()
        invariant
            j <= repos.len(),
            forall|k: int| 0 <= k < j ==> (#[trigger] repos@[k]).url@ != url@,
        decreases repos.len() - j,
    {
        if repos[j].url == *url {
            return true;
        }
        j = j + 1;
    }
    false
}

/// Completes a request to track a repository once its clone was attempted:
/// where the clone succeeded the answer names the repository's provider,
/// user and name, and the repository is added to `cfg` unless some entry
/// already has its URL; where it failed the answer carries the error and
/// `cfg` is unchanged.
pub fn add_repo(cfg: &mut Config, repo_dto: AddRepositoryDto, cloned: Result<(), String>) -> (r: AddRepoDto)
    requires
        has_clone_url(UrlPattern::Nested, repo_dto.url@),
    ensures
        same_settings(*final(cfg), *old(cfg)),
        distinct_urls(old(cfg).repositories@) ==> distinct_urls(final(cfg).repositories@),
        r.success && !tracks_url(old(cfg).repositories@, repo_dto.url@) ==> {
            let e = final(cfg).repositories@.last();
            &&& e.url == repo_dto.url
            &&& e.ssh_private_key == repo_dto.ssh_private_key
            &&& e.ssh_public_key == repo_dto.ssh_public_key
            &&& e.ssh_user == repo_dto.ssh_user
            &&& e.ssh_passphrase == repo_dto.ssh_passphrase
        },
        tracks_url(final(cfg).repositories@, repo_dto.url@) <==> (r.success || tracks_url(
            old(cfg).repositories@,
            repo_dto.url@,
        )),
        match cloned {
            Ok(()) => {
                let (provider, user, repo) = clone_url_parts(UrlPattern::Nested, repo_dto.url@)->0;
                &&& r.success
                &&& r.provider matches Some(p) && p@ == provider
                &&& r.user matches Some(u) && u@ == user
                &&& r.repo matches Some(n) && n@ == repo
                &&& r.message is None
                &&& stored_after_add(
                    old(cfg).repositories@,
                    final(cfg).repositories@,
                    repo_dto,
                    old(cfg).repositories_base_path@,
                )
            },
            Err(e) => {
                &&& !r.success
                &&& r.provider is None
                &&& r.user is None
                &&& r.repo is None
                &&& r.message == Some(e)
                &&& final(cfg).repositories@ == old(cfg).repositories@
            },
        },
{
    let repo = {
        let c: &Config = &*cfg;
        let path_of = |url: &String| -> (p: String)
            requires
                has_clone_url(UrlPattern::Nested, url@),
            ensures
                ({
                    let (provider, user, repo) = clone_url_parts(UrlPattern::Nested, url@)->0;
                    p@ == repo_path(c.repositories_base_path@, provider, user, repo)
                }),
            { c.generate_path_from_git_url(url) };
        repo_dto.to_repository(&path_of)
    };
    let r = match cloned {
        Ok(()) => {
            let (provider, user, repository) = generate_credentials_from_clone_url(repo.url.as_str());
            if !has_url(&cfg.repositories, &repo_dto.url) {
                cfg.repositories.push(repo);
            }
            AddRepoDto {
                success: true,
                provider: Some(provider),
                user: Some(user),
                repo: Some(repository),
                message: None,
            }
        },
        Err(e) => AddRepoDto { success: false, provider: None, user: None, repo: None, message: Some(e) },
    };
    proof {
        if r.success {
            lemma_add_is_idempotent(
                old(cfg).repositories@,
                cfg.repositories@,
                repo_dto,
                old(cfg).repositories_base_path@,
            );
        }
        if distinct_urls(old(cfg).repositories@) {
            lemma_add_keeps_urls_distinct(old(cfg).repositories@, cfg.repositories@, repo_dto.url@);
        }
    }
    r
}

/// Describes the tracked repository `provider/user/repo` with `commits`:
/// `None` where no tracked repository is cloned to its path; otherwise the
/// names, this service's address, the access token and the commits.
pub fn get_repo(cfg: &Config, provider: &String, user: &String, repo: &String, commits: Vec<Commit>) -> (r: RepoWrapperDto)
    ensures
        forall|j: int|
            0 <= j < cfg.repositories@.len() && (#[trigger] cfg.repositories@[j]).path@ == repo_path(
                cfg.repositories_base_path@,
                provider@,
                user@,
                repo@,
            ) ==> r.repository is Some,
        match r.repository {
            None => none_with_path(
                cfg.repositories@,
                repo_path(cfg.repositories_base_path@, provider@, user@, repo@),
            ),
            Some(d) => {
                &&& exists|i: int|
                    first_with_path(
                        cfg.repositories@,
                        repo_path(cfg.repositories_base_path@, provider@, user@, repo@),
                        i,
                    )
                &&& d.provider == *provider
                &&& d.user == *user
                &&& d.repo == *repo
                &&& d.sync_url@ == sync_url(cfg.address, cfg.port)
                &&& d.access_token == cfg.access_token
                &&& d.commits == commits
            },
        },
{
    match cfg.find_repository(provider, user, repo) {
        None => RepoWrapperDto { repository: None },
        Some(_) => {
            let dto = RepoDto {
                provider: provider.clone(),
                user: user.clone(),
                repo: repo.clone(),
                sync_url: cfg.get_sync_url(),
                access_token: clone_opt(&cfg.access_token),
                commits,
            };
            RepoWrapperDto { repository: Some(dto) }
        },
    }
}

} // verus!
