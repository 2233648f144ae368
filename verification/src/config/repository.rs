//! A tracked repository and the reading of its clone URL.

use vstd::prelude::*;

use crate::clone_url::{clone_url_parts, find_clone_url_parts, has_clone_url, UrlPattern};

verus! {

/// A repository that the service clones and syncs.
pub struct Repository {
    pub url: String,
    pub path: String,
    pub ssh_private_key: Option<String>,
    pub ssh_public_key: Option<String>,
    pub ssh_user: Option<String>,
    pub ssh_passphrase: Option<String>,
}

/// The characters of an optional string.
pub open spec fn opt_view(o: Option<String>) -> Option<Seq<char>> {
    match o {
        Some(s) => Some(s@),
        None => None,
    }
}

/// A repository as plain values.
pub struct RepositoryView {
    pub url: Seq<char>,
    pub path: Seq<char>,
    pub ssh_private_key: Option<Seq<char>>,
    pub ssh_public_key: Option<Seq<char>>,
    pub ssh_user: Option<Seq<char>>,
    pub ssh_passphrase: Option<Seq<char>>,
}

impl View for Repository {
    type V = RepositoryView;

    open spec fn view(&self) -> RepositoryView {
        RepositoryView {
            url: self.url@,
            path: self.path@,
            ssh_private_key: opt_view(self.ssh_private_key),
            ssh_public_key: opt_view(self.ssh_public_key),
            ssh_user: opt_view(self.ssh_user),
            ssh_passphrase: opt_view(self.ssh_passphrase),
        }
    }
}

/// A copy of an optional string.
pub fn clone_opt(o: &Option<String>) -> (r: Option<String>)
    ensures
        r == *o,
{
    match o {
        Some(s) => Some(s.clone()),
        None => None,
    }
}

/// Whether `url` holds a clone URL in the nested-owner spelling.
pub fn is_clone_url(url: &str) -> (b: bool)
    ensures
        b == has_clone_url(UrlPattern::Nested, url@),
{
    find_clone_url_parts(&UrlPattern::Nested, url).is_some()
}

/// The provider, user and repository name that a clone URL such as
/// `git@github.com:user/repo.git` names. Owners may hold nested groups
/// (`https://gitlab.com/group/sub/repo.git` gives user `group/sub`).
pub fn generate_credentials_from_clone_url(url: &str) -> (r: (String, String, String))
    requires
        has_clone_url(UrlPattern::Nested, url@),
    ensures
        clone_url_parts(UrlPattern::Nested, url@) == Some((r.0@, r.1@, r.2@)),
{
    match find_clone_url_parts(&UrlPattern::Nested, url) {
        Some(parts) => parts,
        None => {
            assert(false);
            (String::new(), String::new(), String::new())
        },
    }
}

} // verus!
