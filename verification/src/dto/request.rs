//! The body of a request to track a repository.

use vstd::prelude::*;

use crate::config::repository::clone_opt;
use crate::model::model::Repository;

verus! {

/// A request to track the repository at `url`, with its SSH credentials.
pub struct AddRepositoryDto {
    pub url: String,
    pub ssh_private_key: Option<String>,
    pub ssh_public_key: Option<String>,
    pub ssh_user: Option<String>,
    pub ssh_passphrase: Option<String>,
}

impl AddRepositoryDto {
    /// The repository entry for this request, cloned to the path that `f`
    /// gives for its URL.
    pub fn to_repository<F: Fn(&String) -> String>(&self, f: &F) -> (r: Repository)
        requires
            f.requires((&self.url,)),
        ensures
            f.ensures((&self.url,), r.path),
            r.url == self.url,
            r.ssh_private_key == self.ssh_private_key,
            r.ssh_public_key == self.ssh_public_key,
            r.ssh_user == self.ssh_user,
            r.ssh_passphrase == self.ssh_passphrase,
    {
        let url = self.url.clone();
        Repository {
            url: self.url.clone(),
            path: f(&url),
            ssh_private_key: clone_opt(&self.ssh_private_key),
            ssh_public_key: clone_opt(&self.ssh_public_key),
            ssh_user: clone_opt(&self.ssh_user),
            ssh_passphrase: clone_opt(&self.ssh_passphrase),
        }
    }
}

} // verus!
