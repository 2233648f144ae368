//! The decisions of a sync with the backend: which commits to send and how,
//! where to send them, and how the outcomes are reported.

use vstd::prelude::*;

use crate::clone_url::{clone_url_parts, has_clone_url, UrlPattern};
use crate::config::config::{host_port, sync_url, Config};
use crate::config::repository::{clone_opt, opt_view, generate_credentials_from_clone_url, Repository};
use crate::git::gtm::Commit;
use crate::repo::repo_manager::{RepoDto, RepoWrapperDto};
use crate::text::{append_str, chars_of, string_of};

verus! {

/// The outcome of syncing every held repository.
pub struct SyncAllResult {
    pub error: Option<String>,
    pub synced_count: i32,
}

/// The outcome of syncing one repository.
pub struct SyncSingleResult {
    pub error: Option<String>,
    pub ok: bool,
}

/// What the backend last received of a repository.
pub struct LastSyncResponse {
    pub timestamp: i64,
    pub tracked_commit_hashes: Vec<String>,
}

/// How the commits are sent: all of them as a new upload, or only those the
/// backend lacks as an update.
pub enum SyncMethod {
    Post,
    Put,
}

/// A request to send to the backend.
pub struct SyncRequest {
    pub method: SyncMethod,
    pub url: String,
    pub api_key: String,
    pub body: RepoWrapperDto,
}

/// `hash` is among the hashes the backend holds.
pub open spec fn is_held(held: Seq<String>, hash: Seq<char>) -> bool {
    exists|i: int| 0 <= i < held.len() && (#[trigger] held[i])@ == hash
}

/// Every hash the backend holds is the hash of one of `commits`.
pub open spec fn all_held_present(held: Seq<String>, commits: Seq<Commit>) -> bool {
    forall|i: int| 0 <= i < held.len() ==> #[trigger] has_hash(commits, held[i]@)
}

/// Some commit has the hash `hash`.
pub open spec fn has_hash(commits: Seq<Commit>, hash: Seq<char>) -> bool {
    exists|j: int| 0 <= j < commits.len() && (#[trigger] commits[j]).hash@ == hash
}

/// The backend has synced before and still holds only commits that the
/// repository has: only the missing commits need sending.
pub open spec fn is_incremental(last: LastSyncResponse, commits: Seq<Commit>) -> bool {
    last.timestamp > 0 && all_held_present(last.tracked_commit_hashes@, commits)
}

/// The commits the backend does not hold, in order.
pub open spec fn not_held(commits: Seq<Commit>, held: Seq<String>) -> Seq<Commit> {
    commits.filter(|c: Commit| !is_held(held, c.hash@))
}

/// Where the backend receives repositories.
pub open spec fn repo_sync_url(target_host: Seq<char>) -> Seq<char> {
    target_host + "/api/repositories"@
}

/// Where the backend reports what it holds of a repository.
pub open spec fn synced_hashes_path(target_host: Seq<char>, repo_url: Seq<char>) -> Seq<char> {
    let (provider, user, repo) = clone_url_parts(UrlPattern::Nested, repo_url)->0;
    target_host + "/api/commits/"@ + provider + "/"@ + user + "/"@ + repo + "/hash"@
}

/// The API key sent with requests: the access token, or empty.
pub open spec fn api_key_of(token: Option<String>) -> Seq<char> {
    match token {
        Some(t) => t@,
        None => Seq::empty(),
    }
}

/// Where the backend receives repositories.
pub fn generate_repo_sync_url(target_host: &String) -> (r: String)
    ensures
        r@ == repo_sync_url(target_host@),
{
    let mut v = chars_of(target_host.as_str());
    append_str(&mut v, "/api/repositories");
    string_of(&v)
}

/// Where the backend reports what it holds of the repository cloned from
/// `repo_url`.
pub fn synced_hashes_url(target_host: &str, repo_url: &String) -> (r: String)
    requires
        has_clone_url(UrlPattern::Nested, repo_url@),
    ensures
        r@ == synced_hashes_path(target_host@, repo_url@),
{
    let (provider, user, repo) = generate_credentials_from_clone_url(repo_url.as_str());
    let mut v = chars_of(target_host);
    append_str(&mut v, "/api/commits/");
    append_str(&mut v, provider.as_str());
    append_str(&mut v, "/");
    append_str(&mut v, user.as_str());
    append_str(&mut v, "/");
    append_str(&mut v, repo.as_str());
    append_str(&mut v, "/hash");
    string_of(&v)
}

/// An incremental sync sends exactly what the backend lacks: every commit
/// it sends has a hash the backend does not hold, and every commit whose
/// hash the backend does not hold is sent.
pub proof fn lemma_update_sends_exactly_missing(commits: Seq<Commit>, held: Seq<String>)
    ensures
        forall|i: int|
            0 <= i < not_held(commits, held).len() ==> !is_held(
                held,
                (#[trigger] not_held(commits, held)[i]).hash@,
            ),
        forall|j: int|
            0 <= j < commits.len() && !is_held(held, (#[trigger] commits[j]).hash@) ==> not_held(
                commits,
                held,
            ).contains(commits[j]),
{
    let keep = |c: Commit| !is_held(held, c.hash@);
    assert forall|i: int| 0 <= i < not_held(commits, held).len() implies !is_held(
        held,
        (#[trigger] not_held(commits, held)[i]).hash@,
    ) by {
        commits.lemma_filter_pred(keep, i);
    }
    assert forall|j: int|
        0 <= j < commits.len() && !is_held(held, (#[trigger] commits[j]).hash@) implies not_held(
        commits,
        held,
    ).contains(commits[j]) by {
        commits.lemma_filter_contains(keep, j);
    }
}

/// No commit of `commits` has the hash `hash`.
pub open spec fn lacks_hash(commits: Seq<Commit>, hash: Seq<char>) -> bool {
    forall|j: int| 0 <= j < commits.len() ==> (#[trigger] commits[j]).hash@ != hash
}

/// Where the backend has synced before and every hash it holds, wherever it
/// stands in its list, is the hash of some commit of the repository, the
/// sync is an update.
pub proof fn lemma_every_held_hash_present_gives_update(last: LastSyncResponse, commits: Seq<Commit>)
    requires
        last.timestamp > 0,
        forall|i: int|
            #![trigger last.tracked_commit_hashes@[i]]
            0 <= i < last.tracked_commit_hashes@.len() ==> exists|j: int|
                #![trigger commits[j]]
                0 <= j < commits.len() && commits[j].hash@ == last.tracked_commit_hashes@[i]@,
    ensures
        is_incremental(last, commits),
{
    let held = last.tracked_commit_hashes@;
    assert forall|i: int| 0 <= i < held.len() implies #[trigger] has_hash(commits, held[i]@) by {
        let h = last.tracked_commit_hashes@[i];
        let j = choose|j: int| 0 <= j < commits.len() && commits[j].hash@ == h@;
        assert(commits[j].hash@ == held[i]@);
    }
}

/// A single held hash that no commit has, wherever it stands, rules out an
/// update: everything is sent anew.
pub proof fn lemma_missing_held_hash_forces_full_upload(last: LastSyncResponse, commits: Seq<Commit>, i: int)
    requires
        0 <= i < last.tracked_commit_hashes@.len(),
        lacks_hash(commits, last.tracked_commit_hashes@[i]@),
    ensures
        !is_incremental(last, commits),
{
    assert(!has_hash(commits, last.tracked_commit_hashes@[i]@));
}

/// No hash of `held`, at any position, is `hash`.
pub open spec fn absent_from(held: Seq<String>, hash: Seq<char>) -> bool {
    forall|k: int| 0 <= k < held.len() ==> (#[trigger] held[k])@ != hash
}

/// An update sends the commits whose hash appears nowhere in the backend's
/// list, in their order: each sent commit is one of the repository's, none
/// has a hash the backend lists at any position, and every commit whose hash
/// the backend does not list is sent.
pub proof fn lemma_update_sends_unlisted_commits(commits: Seq<Commit>, held: Seq<String>)
    ensures
        forall|i: int|
            0 <= i < not_held(commits, held).len() ==> #[trigger] absent_from(
                held,
                not_held(commits, held)[i].hash@,
            ) && commits.contains(not_held(commits, held)[i]),
        forall|j: int|
            0 <= j < commits.len() && #[trigger] absent_from(held, commits[j].hash@) ==> not_held(
                commits,
                held,
            ).contains(commits[j]),
        not_held(commits, held).len() <= commits.len(),
{
    let keep = |c: Commit| !is_held(held, c.hash@);
    let out = not_held(commits, held);
    assert forall|i: int| 0 <= i < out.len() implies #[trigger] absent_from(held, out[i].hash@)
        && commits.contains(out[i]) by {
        commits.lemma_filter_pred(keep, i);
        commits.lemma_filter_contains_rev(keep, out[i]);
        assert forall|k: int| 0 <= k < held.len() implies (#[trigger] held[k])@ != out[i].hash@ by {
            if held[k]@ == out[i].hash@ {
                assert(is_held(held, out[i].hash@));
            }
        }
    }
    assert forall|j: int| 0 <= j < commits.len() && #[trigger] absent_from(held, commits[j].hash@)
        implies out.contains(commits[j]) by {
        assert(!is_held(held, commits[j].hash@)) by {
            if is_held(held, commits[j].hash@) {
                let k = choose|k: int| 0 <= k < held.len() && (#[trigger] held[k])@ == commits[j].hash@;
            }
        }
        commits.lemma_filter_contains(keep, j);
    }
    commits.lemma_filter_len(keep);
}

/// Whether `hash` is among `held`.
fn held_hash(held: &Vec<String>, hash: &String) -> (b: bool)
    ensures
        b == is_held(held@, hash@),
{
    let mut i: usize = 0;
    while i < held.len()
        invariant
            i <= held.len(),
            forall|k: int| 0 <= k < i ==> (#[trigger] held@[k])@ != hash@,
        decreases held.len() - i,
    {
        if held[i] == *hash {
            return true;
        }
        i = i + 1;
    }
    false
}

/// Whether every held hash is the hash of one of `commits`.
fn held_all_present(held: &Vec<String>, commits: &Vec<Commit>) -> (b: bool)
    ensures
        b == all_held_present(held@, commits@),
{
    let mut i: usize = 0;
    while i < held.len()
        invariant
            i <= held.len(),
            forall|k: int| 0 <= k < i ==> #[trigger] has_hash(commits@, held@[k]@),
        decreases held.len() - i,
    {
        let mut j: usize = 0;
        let mut found = false;
        while j < commits.len() && !found
            invariant
                j <= commits.len(),
                i < held.len(),
                found ==> 0 < j && commits@[j - 1].hash@ == held@[i as int]@,
                !found ==> forall|m: int| 0 <= m < j ==> (#[trigger] commits@[m]).hash@ != held@[i as int]@,
            decreases commits.len() - j,
        {
            if commits[j].hash == held[i] {
                found = true;
            }
            j = j + 1;
        }
        if !found {
            assert(!has_hash(commits@, held@[i as int]@));
            assert(!all_held_present(held@, commits@));
            return false;
        }
        assert(commits@[j - 1].hash@ == held@[i as int]@);
        assert(has_hash(commits@, held@[i as int]@));
        i = i + 1;
    }
    true
}

/// The commits of `commits` whose hash is not in `held`, in order.
fn commits_not_held(commits: Vec<Commit>, held: &Vec<String>) -> (r: Vec<Commit>)
    ensures
        r@ == not_held(commits@, held@),
{
    let ghost orig = commits@;
    let ghost keep = |c: Commit| !is_held(held@, c.hash@);
    let n = commits.len();
    let mut rest = commits;
    let mut out: Vec<Commit> = Vec::new();
    let mut k: usize = 0;
    assert(orig.take(0).filter(keep) =~= Seq::<Commit>::empty()) by {
        reveal(Seq::filter);
    }
    while k < n
        invariant
            n == orig.len(),
            k <= n,
            keep == (|c: Commit| !is_held(held@, c.hash@)),
            rest@ == orig.skip(k as int),
            out@ == orig.take(k as int).filter(keep),
        decreases n - k,
    {
        let ghost old_rest = rest@;
        let c = rest.remove(0);
        assert(rest@ =~= orig.skip(k + 1));
        assert(c == orig[k as int]);
        proof {
            orig.take(k as int).lemma_filter_push(c, keep);
            assert(orig.take(k + 1) =~= orig.take(k as int).push(c));
        }
        if !held_hash(held, &c.hash) {
            out.push(c);
        }
        k = k + 1;
    }
    assert(orig.take(n as int) =~= orig);
    out
}

/// The request that syncs the repository cloned from `repo.url` with
/// `commits`, given what the backend last received: where the backend has
/// synced before and holds only commits the repository still has, only the
/// commits it lacks are sent, as an update; otherwise all are sent anew.
/// The request goes to the backend's repository endpoint, with the access
/// token (or nothing) as its key, and names the repository, this service's
/// address and the token.
pub fn plan_sync(cfg: &Config, repo: &Repository, commits: Vec<Commit>, last_sync: &LastSyncResponse) -> (r: SyncRequest)
    requires
        has_clone_url(UrlPattern::Nested, repo.url@),
    ensures
        r.url@ == repo_sync_url(host_port(cfg.target_host@, cfg.target_port)),
        r.api_key@ == api_key_of(cfg.access_token),
        forall|i: int|
            0 <= i < last_sync.tracked_commit_hashes@.len() && #[trigger] lacks_hash(
                commits@,
                last_sync.tracked_commit_hashes@[i]@,
            ) ==> (r.method is Post && r.body.repository is Some && r.body.repository->0.commits@
                == commits@),
        r.body.repository matches Some(d) && {
            let (provider, user, name) = clone_url_parts(UrlPattern::Nested, repo.url@)->0;
            &&& d.provider@ == provider
            &&& d.user@ == user
            &&& d.repo@ == name
            &&& d.sync_url@ == sync_url(cfg.address, cfg.port)
            &&& d.access_token == cfg.access_token
            &&& if is_incremental(*last_sync, commits@) {
                &&& r.method is Put
                &&& d.commits@ == not_held(commits@, last_sync.tracked_commit_hashes@)
            } else {
                &&& r.method is Post
                &&& d.commits == commits
            }
        },
{
    let (provider, user, name) = generate_credentials_from_clone_url(repo.url.as_str());
    let incremental = last_sync.timestamp > 0 && held_all_present(&last_sync.tracked_commit_hashes, &commits);
    let (method, sent) = if incremental {
        (SyncMethod::Put, commits_not_held(commits, &last_sync.tracked_commit_hashes))
    } else {
        (SyncMethod::Post, commits)
    };
    let body = RepoWrapperDto {
        repository: Some(
            RepoDto {
                provider,
                user,
                repo: name,
                sync_url: cfg.get_sync_url(),
                access_token: clone_opt(&cfg.access_token),
                commits: sent,
            },
        ),
    };
    let api_key = match &cfg.access_token {
        Some(t) => t.clone(),
        None => String::new(),
    };
    let r = SyncRequest { method, url: generate_repo_sync_url(&cfg.get_target_url()), api_key, body };
    proof {
        assert forall|i: int|
            0 <= i < last_sync.tracked_commit_hashes@.len() && #[trigger] lacks_hash(
                commits@,
                last_sync.tracked_commit_hashes@[i]@,
            ) implies (r.method is Post && r.body.repository is Some && r.body.repository->0.commits@
            == commits@) by {
            lemma_missing_held_hash_forces_full_upload(*last_sync, commits@, i);
        }
    }
    r
}

/// A response status in the success range 200 to 299.
pub open spec fn is_success(status: u16) -> bool {
    200 <= status <= 299
}

/// How many of the outcomes are responses with a success status.
pub open spec fn synced_count(outcomes: Seq<Result<u16, String>>) -> int
    decreases outcomes.len(),
{
    if outcomes.len() == 0 {
        0
    } else {
        synced_count(outcomes.drop_last()) + match outcomes.last() {
            Ok(s) => if is_success(s) { 1int } else { 0int },
            Err(_) => 0int,
        }
    }
}

/// The last of the outcomes that is an error, if any.
pub open spec fn last_error(outcomes: Seq<Result<u16, String>>) -> Option<String>
    decreases outcomes.len(),
{
    if outcomes.len() == 0 {
        None
    } else {
        match outcomes.last() {
            Err(e) => Some(e),
            Ok(_) => last_error(outcomes.drop_last()),
        }
    }
}

/// A full sync counts no more repositories as synced than it tried.
pub proof fn lemma_synced_count_bounds(outcomes: Seq<Result<u16, String>>)
    ensures
        0 <= synced_count(outcomes) <= outcomes.len(),
    decreases outcomes.len(),
{
    if outcomes.len() > 0 {
        lemma_synced_count_bounds(outcomes.drop_last());
    }
}

/// Summarises the outcomes of syncing every repository (a response status,
/// or the error of a request that got none): how many were answered with
/// success, and the last error.
pub fn summarize_sync_all(outcomes: &Vec<Result<u16, String>>) -> (r: SyncAllResult)
    requires
        outcomes.len() <= i32::MAX,
    ensures
        r.synced_count == synced_count(outcomes@),
        r.error == last_error(outcomes@),
{
    let mut result = SyncAllResult { error: None, synced_count: 0 };
    let mut k: usize = 0;
    while k < outcomes.len()
        invariant
            k <= outcomes.len() <= i32::MAX,
            result.synced_count == synced_count(outcomes@.take(k as int)),
            result.error == last_error(outcomes@.take(k as int)),
        decreases outcomes.len() - k,
    {
        assert(outcomes@.take(k + 1).drop_last() =~= outcomes@.take(k as int));
        proof {
            lemma_synced_count_bounds(outcomes@.take(k as int));
        }
        match &outcomes[k] {
            Ok(status) => {
                if 200 <= *status && *status <= 299 {
                    result.synced_count = result.synced_count + 1;
                }
            },
            Err(e) => {
                result.error = Some(e.clone());
            },
        }
        k = k + 1;
    }
    assert(outcomes@.take(outcomes.len() as int) =~= outcomes@);
    result
}

/// The answer to a request to sync one repository: where no held
/// repository matched (`None`), that none was found; where the request
/// failed or was not answered with success, that syncing failed; otherwise
/// success.
pub fn sync_repo_result(outcome: Option<Result<u16, String>>) -> (r: SyncSingleResult)
    ensures
        match outcome {
            None => !r.ok && opt_view(r.error) == Some("No matching repository found!"@),
            Some(Ok(s)) => if is_success(s) {
                r.ok && r.error is None
            } else {
                !r.ok && opt_view(r.error) == Some("Error syncing repo!"@)
            },
            Some(Err(_)) => !r.ok && opt_view(r.error) == Some("Error syncing repo!"@),
        },
{
    match outcome {
        None => SyncSingleResult { error: Some("No matching repository found!".to_string()), ok: false },
        Some(Ok(s)) => {
            if 200 <= s && s <= 299 {
                SyncSingleResult { error: None, ok: true }
            } else {
                SyncSingleResult { error: Some("Error syncing repo!".to_string()), ok: false }
            }
        },
        Some(Err(_)) => SyncSingleResult { error: Some("Error syncing repo!".to_string()), ok: false },
    }
}

} // verus!
