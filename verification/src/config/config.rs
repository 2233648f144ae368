//! The service's configuration and the URLs and paths derived from it.

use vstd::prelude::*;

use crate::clone_url::{clone_url_parts, has_clone_url, UrlPattern};
use crate::config::repository::{generate_credentials_from_clone_url, Repository};
use crate::text::{chars_of, extend_chars, format_u64, nat_decimal, string_of, trim_end_char, trim_end_chars};

verus! {

broadcast use vstd::string::group_string_axioms;

/// The service's configuration.
pub struct Config {
    pub target_host: String,
    pub target_port: Option<u16>,
    pub port: Option<u16>,
    pub address: Option<String>,
    pub access_token: Option<String>,
    pub ssh_public_key: Option<String>,
    pub ssh_private_key: Option<String>,
    pub ssh_user: Option<String>,
    pub ssh_passphrase: Option<String>,
    pub repositories_base_path: String,
    pub repositories: Vec<Repository>,
}

/// The port used where none is configured.
pub open spec fn default_port() -> nat {
    8000
}

/// `host:port`, with the default port where none is given.
pub open spec fn host_port(host: Seq<char>, port: Option<u16>) -> Seq<char> {
    let p: nat = match port {
        Some(p) => p as nat,
        None => default_port(),
    };
    host + seq![':'] + nat_decimal(p)
}

/// Where the clone of `provider/user/repo` lives under `base`: the base
/// without trailing slashes, then the three names, joined by `/`.
pub open spec fn repo_path(base: Seq<char>, provider: Seq<char>, user: Seq<char>, repo: Seq<char>) -> Seq<char> {
    trim_end_char(base, '/') + seq!['/'] + provider + seq!['/'] + user + seq!['/'] + repo
}

/// This service's own address: `address:port`, `localhost` and port 8000
/// by default.
pub open spec fn sync_url(address: Option<String>, port: Option<u16>) -> Seq<char> {
    host_port(
        match address {
            Some(a) => a@,
            None => "localhost"@,
        },
        port,
    )
}

/// `repos[i]` is the first repository whose path is `path`.
pub open spec fn first_with_path(repos: Seq<Repository>, path: Seq<char>, i: int) -> bool {
    &&& 0 <= i < repos.len()
    &&& repos[i].path@ == path
    &&& forall|j: int| 0 <= j < i ==> (#[trigger] repos[j]).path@ != path
}

/// No repository has the path `path`.
pub open spec fn none_with_path(repos: Seq<Repository>, path: Seq<char>) -> bool {
    forall|j: int| 0 <= j < repos.len() ==> (#[trigger] repos[j]).path@ != path
}

/// Trailing slashes of the base path do not move the clones: a base with
/// any number of trailing slashes gives the same paths as the base without
/// them.
pub proof fn lemma_trailing_slashes_ignored(base: Seq<char>, extra: nat, provider: Seq<char>, user: Seq<char>, repo: Seq<char>)
    ensures
        repo_path(base + Seq::new(extra, |k: int| '/'), provider, user, repo) == repo_path(
            base,
            provider,
            user,
            repo,
        ),
    decreases extra,
{
    let padded = base + Seq::new(extra, |k: int| '/');
    if extra > 0 {
        let shorter = base + Seq::new((extra - 1) as nat, |k: int| '/');
        assert(padded.drop_last() =~= shorter);
        lemma_trailing_slashes_ignored(base, (extra - 1) as nat, provider, user, repo);
    } else {
        assert(padded =~= base);
    }
}

/// Trimming trailing `c` keeps a prefix of `s`, removes only `c`s, and
/// leaves no `c` at the end.
pub proof fn lemma_trim_end_char(s: Seq<char>, c: char)
    ensures
        trim_end_char(s, c).len() <= s.len(),
        s.take(trim_end_char(s, c).len() as int) == trim_end_char(s, c),
        forall|k: int| trim_end_char(s, c).len() <= k < s.len() ==> s[k] == c,
        trim_end_char(s, c).len() == 0 || trim_end_char(s, c).last() != c,
    decreases s.len(),
{
    if s.len() > 0 && s.last() == c {
        let d = s.drop_last();
        lemma_trim_end_char(d, c);
        let t = trim_end_char(d, c);
        assert(s.take(t.len() as int) =~= d.take(t.len() as int));
        assert forall|k: int| t.len() <= k < s.len() implies s[k] == c by {
            if k < d.len() {
                assert(s[k] == d[k]);
            }
        }
    } else {
        assert(s.take(s.len() as int) =~= s);
    }
}

/// The layout of a clone path: the base without its trailing slashes (a
/// prefix of the base followed only by slashes in it, and not itself ending
/// in one), then `/`, the provider, `/`, the user, `/` and the repository
/// name, each exactly as given.
pub proof fn lemma_repo_path_layout(base: Seq<char>, provider: Seq<char>, user: Seq<char>, repo: Seq<char>)
    ensures
        ({
            let t = trim_end_char(base, '/');
            let r = repo_path(base, provider, user, repo);
            let p0: int = t.len() as int + 1;
            let u0: int = p0 + provider.len() + 1;
            let n0: int = u0 + user.len() + 1;
            &&& t.len() <= base.len()
            &&& base.take(t.len() as int) == t
            &&& (forall|k: int| t.len() <= k < base.len() ==> base[k] == '/')
            &&& (t.len() == 0 || t.last() != '/')
            &&& r.len() == n0 + repo.len()
            &&& r.take(t.len() as int) == t
            &&& r[t.len() as int] == '/'
            &&& r.subrange(p0, p0 + provider.len()) == provider
            &&& r[u0 - 1] == '/'
            &&& r.subrange(u0, u0 + user.len()) == user
            &&& r[n0 - 1] == '/'
            &&& r.subrange(n0, n0 + repo.len()) == repo
        }),
{
    lemma_trim_end_char(base, '/');
    let t = trim_end_char(base, '/');
    let r = repo_path(base, provider, user, repo);
    let p0: int = t.len() as int + 1;
    let u0: int = p0 + provider.len() + 1;
    let n0: int = u0 + user.len() + 1;
    assert(r.take(t.len() as int) =~= t);
    assert(r.subrange(p0, p0 + provider.len()) =~= provider);
    assert(r.subrange(u0, u0 + user.len()) =~= user);
    assert(r.subrange(n0, n0 + repo.len()) =~= repo);
}

/// Where some repository has the path `path`, a first one has it.
pub proof fn lemma_first_with_path_exists(repos: Seq<Repository>, path: Seq<char>, k: int)
    requires
        0 <= k < repos.len(),
        repos[k].path@ == path,
    ensures
        exists|i: int| first_with_path(repos, path, i),
    decreases k,
{
    if exists|j: int| 0 <= j < k && (#[trigger] repos[j]).path@ == path {
        let j = choose|j: int| 0 <= j < k && (#[trigger] repos[j]).path@ == path;
        lemma_first_with_path_exists(repos, path, j);
    } else {
        assert(first_with_path(repos, path, k));
    }
}

/// `host:port` as a string.
pub(crate) fn join_host_port(host: &String, port: Option<u16>) -> (r: String)
    ensures
        r@ == host_port(host@, port),
{
    let mut v = chars_of(host.as_str());
    v.push(':');
    let p: u16 = match port {
        Some(p) => p,
        None => 8000,
    };
    let digits = format_u64(p as u64);
    extend_chars(&mut v, &digits);
    string_of(&v)
}

/// The path of `provider/user/repo` under `base`.
pub(crate) fn join_repo_path(base: &String, provider: &String, user: &String, repo: &String) -> (r: String)
    ensures
        r@ == repo_path(base@, provider@, user@, repo@),
{
    let mut v = trim_end_chars(&chars_of(base.as_str()), '/');
    v.push('/');
    extend_chars(&mut v, &chars_of(provider.as_str()));
    v.push('/');
    extend_chars(&mut v, &chars_of(user.as_str()));
    v.push('/');
    extend_chars(&mut v, &chars_of(repo.as_str()));
    string_of(&v)
}

impl Config {
    /// The backend's address: `target_host:target_port`, port 8000 by default.
    pub fn get_target_url(&self) -> (r: String)
        ensures
            r@ == host_port(self.target_host@, self.target_port),
    {
        join_host_port(&self.target_host, self.target_port)
    }

    /// This service's own address: `address:port`, `localhost` and port 8000
    /// by default.
    pub fn get_sync_url(&self) -> (r: String)
        ensures
            r@ == sync_url(self.address, self.port),
    {
        let host = match &self.address {
            Some(a) => a.clone(),
            None => "localhost".to_string(),
        };
        join_host_port(&host, self.port)
    }

    /// Where the repository of a clone URL is cloned.
    pub fn generate_path_from_git_url(&self, url: &String) -> (r: String)
        requires
            has_clone_url(UrlPattern::Nested, url@),
        ensures
            ({
                let (provider, user, repo) = clone_url_parts(UrlPattern::Nested, url@)->0;
                r@ == repo_path(self.repositories_base_path@, provider, user, repo)
            }),
    {
        let (provider, user, repo) = generate_credentials_from_clone_url(url.as_str());
        join_repo_path(&self.repositories_base_path, &provider, &user, &repo)
    }

    /// Where the repository `provider/user/repo` is cloned.
    pub fn generate_path_from_provider_user_repo(&self, provider: &String, user: &String, repo: &String) -> (r: String)
        ensures
            r@ == repo_path(self.repositories_base_path@, provider@, user@, repo@),
    {
        join_repo_path(&self.repositories_base_path, provider, user, repo)
    }

    /// The first tracked repository that is cloned to the path of
    /// `provider/user/repo`.
    pub fn find_repository(&self, provider: &String, user: &String, repo: &String) -> (r: Option<usize>)
        ensures
            match r {
                Some(i) => first_with_path(
                    self.repositories@,
                    repo_path(self.repositories_base_path@, provider@, user@, repo@),
                    i as int,
                ),
                None => none_with_path(
                    self.repositories@,
                    repo_path(self.repositories_base_path@, provider@, user@, repo@),
                ),
            },
    {
        let path = self.generate_path_from_provider_user_repo(provider, user, repo);
        let mut i: usize = 0;
        while i < self.repositories.len()
            invariant
                i <= self.repositories.len(),
                path@ == repo_path(self.repositories_base_path@, provider@, user@, repo@),
                forall|j: int| 0 <= j < i ==> (#[trigger] self.repositories@[j]).path@ != path@,
            decreases self.repositories.len() - i,
        {
            if self.repositories[i].path == path {
                return Some(i);
            }
            i = i + 1;
        }
        None
    }
}

} // verus!
