use gtm_sync::config::config::Config;
use gtm_sync::config::repository::Repository;
use gtm_sync::repo::repo_manager::{add_repo, get_repo, AddRepositoryDto};
use gtm_sync::git::gtm::Commit;

fn config(base: &str) -> Config {
    Config {
        target_host: "http://backend".to_string(),
        target_port: Some(9000),
        port: Some(8090),
        address: Some("sync.local".to_string()),
        access_token: Some("token-123".to_string()),
        ssh_public_key: None,
        ssh_private_key: None,
        ssh_user: None,
        ssh_passphrase: None,
        repositories_base_path: base.to_string(),
        repositories: vec![],
    }
}

fn request(url: &str) -> AddRepositoryDto {
    AddRepositoryDto {
        url: url.to_string(),
        ssh_private_key: Some("/keys/id".to_string()),
        ssh_public_key: None,
        ssh_user: Some("deploy".to_string()),
        ssh_passphrase: None,
    }
}

fn commit(hash: &str) -> Commit {
    Commit {
        hash: hash.to_string(),
        author_email: "a <a@b.c>".to_string(),
        message: "m".to_string(),
        time: 1,
        files: vec![],
    }
}

#[test]
fn to_repository_uses_the_path_function() {
    let dto = request("git@github.com:u/r.git");
    let repo: Repository = dto.to_repository(&|url: &String| format!("{}!", url));
    assert_eq!(repo.url, "git@github.com:u/r.git");
    assert_eq!(repo.path, "git@github.com:u/r.git!");
    assert_eq!(repo.ssh_private_key.as_deref(), Some("/keys/id"));
    assert_eq!(repo.ssh_user.as_deref(), Some("deploy"));
    assert!(repo.ssh_public_key.is_none());
    assert!(repo.ssh_passphrase.is_none());
}

#[test]
fn model_to_repository_uses_the_path_function() {
    let dto = gtm_sync::dto::request::AddRepositoryDto {
        url: "x".to_string(),
        ssh_private_key: None,
        ssh_public_key: Some("/k.pub".to_string()),
        ssh_user: None,
        ssh_passphrase: Some("pw".to_string()),
    };
    let repo = dto.to_repository(&|url: &String| url.to_uppercase());
    assert_eq!(repo.path, "X");
    assert_eq!(repo.ssh_public_key.as_deref(), Some("/k.pub"));
    assert_eq!(repo.ssh_passphrase.as_deref(), Some("pw"));
}

#[test]
fn add_repo_adds_and_answers_names() {
    let mut cfg = config("/repos/");
    let r = add_repo(&mut cfg, request("git@github.com:user/project.git"), Ok(()));
    assert!(r.success);
    assert_eq!(r.provider.as_deref(), Some("github.com"));
    assert_eq!(r.user.as_deref(), Some("user"));
    assert_eq!(r.repo.as_deref(), Some("project"));
    assert!(r.message.is_none());
    assert_eq!(cfg.repositories.len(), 1);
    assert_eq!(cfg.repositories[0].path, "/repos/github.com/user/project");
    assert_eq!(cfg.repositories[0].ssh_user.as_deref(), Some("deploy"));
}

#[test]
fn add_repo_twice_stores_once() {
    let mut cfg = config("/repos");
    add_repo(&mut cfg, request("git@github.com:user/project.git"), Ok(()));
    let r = add_repo(&mut cfg, request("git@github.com:user/project.git"), Ok(()));
    assert!(r.success);
    assert_eq!(cfg.repositories.len(), 1);
}

#[test]
fn add_repo_failure_reports_error_and_keeps_config() {
    let mut cfg = config("/repos");
    let r = add_repo(&mut cfg, request("git@github.com:user/project.git"), Err("auth failed".to_string()));
    assert!(!r.success);
    assert!(r.provider.is_none() && r.user.is_none() && r.repo.is_none());
    assert_eq!(r.message.as_deref(), Some("auth failed"));
    assert!(cfg.repositories.is_empty());
}

#[test]
fn added_repository_is_found_again() {
    let mut cfg = config("/repos");
    add_repo(&mut cfg, request("https://gitlab.com/team/sub/tool.git"), Ok(()));
    let s = |x: &str| x.to_string();
    let found = get_repo(&cfg, &s("gitlab.com"), &s("team/sub"), &s("tool"), vec![commit("c1")]);
    let dto = found.repository.expect("repository is found");
    assert_eq!(dto.provider, "gitlab.com");
    assert_eq!(dto.user, "team/sub");
    assert_eq!(dto.repo, "tool");
    assert_eq!(dto.sync_url, "sync.local:8090");
    assert_eq!(dto.access_token.as_deref(), Some("token-123"));
    assert_eq!(dto.commits.len(), 1);
    assert_eq!(dto.commits[0].hash, "c1");
}

#[test]
fn get_repo_of_unknown_repository_is_none() {
    let cfg = config("/repos");
    let s = |x: &str| x.to_string();
    assert!(get_repo(&cfg, &s("a"), &s("b"), &s("c"), vec![]).repository.is_none());
}
