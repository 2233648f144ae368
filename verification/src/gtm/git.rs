//! The decisions around fetching a tracked repository: the credentials to
//! offer, falling back to the service's defaults, and the refspecs that
//! bring every remote branch and gtm's notes.

use vstd::prelude::*;

use crate::config::config::Config;
use crate::config::repository::{clone_opt, Repository};
use crate::git::git::{or_default, string_or, SshCredentials, GTM_NOTES_REF};
use crate::text::{append_str, chars_of, string_of};

verus! {

/// The prefix of the remote-tracking branches of `origin`.
pub const ORIGIN_PREFIX: &'static str = "refs/remotes/origin/";

/// The remote-tracking ref that points at `origin`'s default branch.
pub const ORIGIN_HEAD: &'static str = "refs/remotes/origin/HEAD";

/// The first of the two that is present.
pub open spec fn either(a: Option<String>, b: Option<String>) -> Option<String> {
    match a {
        Some(x) => Some(x),
        None => b,
    }
}

/// The credentials for a tracked repository: each of its own settings,
/// else the service's, else the default (user `git`, empty key paths, no
/// passphrase).
pub fn ssh_credentials(repo_config: &Repository, cfg: &Config) -> (r: SshCredentials)
    ensures
        r.username@ == or_default(either(repo_config.ssh_user, cfg.ssh_user), "git"@),
        r.public_key@ == or_default(either(repo_config.ssh_public_key, cfg.ssh_public_key), ""@),
        r.private_key@ == or_default(either(repo_config.ssh_private_key, cfg.ssh_private_key), ""@),
        r.passphrase == either(repo_config.ssh_passphrase, cfg.ssh_passphrase),
{
    let user = if repo_config.ssh_user.is_some() { clone_opt(&repo_config.ssh_user) } else { clone_opt(&cfg.ssh_user) };
    let public = if repo_config.ssh_public_key.is_some() {
        clone_opt(&repo_config.ssh_public_key)
    } else {
        clone_opt(&cfg.ssh_public_key)
    };
    let private = if repo_config.ssh_private_key.is_some() {
        clone_opt(&repo_config.ssh_private_key)
    } else {
        clone_opt(&cfg.ssh_private_key)
    };
    let passphrase = if repo_config.ssh_passphrase.is_some() {
        clone_opt(&repo_config.ssh_passphrase)
    } else {
        clone_opt(&cfg.ssh_passphrase)
    };
    SshCredentials {
        username: string_or(&user, "git"),
        public_key: string_or(&public, ""),
        private_key: string_or(&private, ""),
        passphrase,
    }
}

/// `s` begins with `p`.
pub open spec fn starts_with(s: Seq<char>, p: Seq<char>) -> bool {
    p.len() <= s.len() && s.take(p.len() as int) == p
}

/// Views of a sequence of strings.
pub open spec fn string_views(v: Seq<String>) -> Seq<Seq<char>> {
    v.map_values(|s: String| s@)
}

/// The refspecs that fetch the remote branches `names` (each under
/// `refs/remotes/origin/`): `refs/heads/` and the branch name, for every
/// branch but `HEAD`, in order.
pub open spec fn branch_refspecs(names: Seq<Seq<char>>) -> Seq<Seq<char>>
    decreases names.len(),
{
    if names.len() == 0 {
        Seq::empty()
    } else {
        let prev = branch_refspecs(names.drop_last());
        let branch = names.last().skip(ORIGIN_PREFIX@.len() as int);
        if branch == "HEAD"@ {
            prev
        } else {
            prev.push("refs/heads/"@ + branch)
        }
    }
}

/// Whether `name` is the remote-tracking ref of `origin`'s default branch.
pub fn is_origin_head(name: &String) -> (b: bool)
    ensures
        b == (name@ == ORIGIN_HEAD@),
{
    *name == ORIGIN_HEAD.to_string()
}

/// The refspecs that fetch every remote branch of `origin` and then gtm's
/// notes.
pub fn fetch_refspecs(branch_names: &Vec<String>) -> (r: Vec<String>)
    requires
        forall|i: int| 0 <= i < branch_names.len() ==> starts_with(#[trigger] branch_names@[i]@, ORIGIN_PREFIX@),
    ensures
        string_views(r@) == branch_refspecs(string_views(branch_names@)).push(GTM_NOTES_REF@),
{
    let ghost names = string_views(branch_names@);
    let prefix_len = chars_of(ORIGIN_PREFIX).len();
    let head = "HEAD".to_string();
    let mut r: Vec<String> = Vec::new();
    let mut i: usize = 0;
    while i < branch_names.len()
        invariant
            i <= branch_names.len(),
            names == string_views(branch_names@),
            prefix_len == ORIGIN_PREFIX@.len(),
            head@ == "HEAD"@,
            forall|k: int| 0 <= k < branch_names.len() ==> starts_with(#[trigger] branch_names@[k]@, ORIGIN_PREFIX@),
            string_views(r@) == branch_refspecs(names.take(i as int)),
        decreases branch_names.len() - i,
    {
        let name = chars_of(branch_names[i].as_str());
        assert(starts_with(branch_names@[i as int]@, ORIGIN_PREFIX@));
        let branch = string_of(&crate::text::slice_chars(&name, prefix_len, name.len()));
        assert(branch@ =~= names[i as int].skip(ORIGIN_PREFIX@.len() as int));
        assert(names.take(i + 1).drop_last() =~= names.take(i as int));
        if branch != head {
            let mut v = chars_of("refs/heads/");
            append_str(&mut v, branch.as_str());
            let ghost before = r@;
            r.push(string_of(&v));
            assert(string_views(r@) =~= string_views(before).push(string_views(r@).last()));
        }
        i = i + 1;
    }
    assert(names.take(branch_names.len() as int) =~= names);
    let ghost before = r@;
    r.push(GTM_NOTES_REF.to_string());
    assert(string_views(r@) =~= string_views(before).push(GTM_NOTES_REF@));
    r
}

} // verus!
