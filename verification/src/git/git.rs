//! The decisions around fetching gtm's notes: which credentials to offer
//! and whether the notes refspec is already configured.

use vstd::prelude::*;

use crate::config::repository::clone_opt;
use crate::model::model::Repository;

verus! {

/// The ref under which gtm keeps its notes.
pub const GTM_NOTES_REF: &'static str = "refs/notes/gtm-data";

/// The fetch refspec that brings gtm's notes.
pub const GTM_NOTES_REF_SPEC: &'static str = "+refs/notes/gtm-data:refs/notes/gtm-data";

/// The remote that is fetched.
pub const DEFAULT_ORIGIN: &'static str = "origin";

/// The SSH credentials offered to a remote.
pub struct SshCredentials {
    pub username: String,
    pub public_key: String,
    pub private_key: String,
    pub passphrase: Option<String>,
}

/// The characters of `o`, or `default` where it is `None`.
pub open spec fn or_default(o: Option<String>, default: Seq<char>) -> Seq<char> {
    match o {
        Some(s) => s@,
        None => default,
    }
}

/// A copy of `o`, or `default` where it is `None`.
pub fn string_or(o: &Option<String>, default: &str) -> (r: String)
    ensures
        r@ == or_default(*o, default@),
{
    match o {
        Some(s) => s.clone(),
        None => default.to_string(),
    }
}

/// The credentials for a repository entry: its user (`git` by default), its
/// public and private key paths (empty by default) and its passphrase.
pub fn ssh_credentials(repo_config: &Repository) -> (r: SshCredentials)
    ensures
        r.username@ == or_default(repo_config.ssh_user, "git"@),
        r.public_key@ == or_default(repo_config.ssh_public_key, ""@),
        r.private_key@ == or_default(repo_config.ssh_private_key, ""@),
        r.passphrase == repo_config.ssh_passphrase,
{
    SshCredentials {
        username: string_or(&repo_config.ssh_user, "git"),
        public_key: string_or(&repo_config.ssh_public_key, ""),
        private_key: string_or(&repo_config.ssh_private_key, ""),
        passphrase: clone_opt(&repo_config.ssh_passphrase),
    }
}

/// Some refspec of `refs` is `spec`.
pub open spec fn has_refspec(refs: Seq<String>, spec: Seq<char>) -> bool {
    exists|i: int| 0 <= i < refs.len() && (#[trigger] refs[i])@ == spec
}

/// Whether the remote's fetch refspecs already bring gtm's notes.
pub fn notes_refspec_present(refs: &Vec<String>) -> (b: bool)
    ensures
        b == has_refspec(refs@, GTM_NOTES_REF_SPEC@),
{
    let wanted = GTM_NOTES_REF_SPEC.to_string();
    let mut i: usize = 0;
    while i < refs.len()
        invariant
            i <= refs.len(),
            wanted@ == GTM_NOTES_REF_SPEC@,
            forall|k: int| 0 <= k < i ==> (#[trigger] refs@[k])@ != wanted@,
        decreases refs.len() - i,
    {
        if refs[i] == wanted {
            return true;
        }
        i = i + 1;
    }
    false
}

} // verus!
