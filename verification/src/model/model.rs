//! The configuration as it is stored on disk.

use vstd::prelude::*;

use crate::config::repository::{opt_view, RepositoryView};

verus! {

/// The stored configuration.
pub struct Config {
    pub target_host: String,
    pub target_port: Option<u16>,
    pub port: Option<u16>,
    pub repositories_base_path: String,
    pub repositories: Vec<Repository>,
}

/// A stored repository entry.
pub struct Repository {
    pub url: String,
    pub path: String,
    pub ssh_private_key: Option<String>,
    pub ssh_public_key: Option<String>,
    pub ssh_user: Option<String>,
    pub ssh_passphrase: Option<String>,
}

impl View for Repository {
    type V = RepositoryView;

    open spec fn view(&self) -> RepositoryView {
        RepositoryView {
            url: self.url@,
            path: self.path@,
            ssh_private_key: opt_view(self.ssh_private_key),
            ssh_public_key: opt_view(self.ssh_public_key),
            ssh_user: opt_view(self.ssh_user),
            ssh_passphrase: opt_view(self.ssh_passphrase),
        }
    }
}

} // verus!
