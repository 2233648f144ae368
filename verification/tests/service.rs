use gtm_sync::dto::request::AddRepositoryDto;
use gtm_sync::git::gtm::Commit;
use gtm_sync::model::model::{Config, Repository};
use gtm_sync::server::service::{
    add_repo, generate_path_from_git_url, generate_path_from_provider_user_repo, get_repo,
};

fn config() -> Config {
    Config {
        target_host: "h".to_string(),
        target_port: None,
        port: None,
        repositories_base_path: "/base/".to_string(),
        repositories: vec![Repository {
            url: "git@github.com:a/b.git".to_string(),
            path: "/base/github.com/a/b".to_string(),
            ssh_private_key: None,
            ssh_public_key: None,
            ssh_user: None,
            ssh_passphrase: None,
        }],
    }
}

fn commit() -> Commit {
    Commit { hash: "h".to_string(), author_email: String::new(), message: String::new(), time: 0, files: vec![] }
}

#[test]
fn service_paths() {
    let s = |x: &str| x.to_string();
    assert_eq!(generate_path_from_git_url(&s("git@gitlab.com:x/y.git"), &s("/srv//")), "/srv/gitlab.com/x/y");
    assert_eq!(generate_path_from_provider_user_repo(&s("p"), &s("u"), &s("r"), &s("")), "/p/u/r");
}

#[test]
fn service_get_repo_keeps_commits_of_stored_repository() {
    let cfg = config();
    let s = |x: &str| x.to_string();
    let found = get_repo(&cfg, &s("github.com"), &s("a"), &s("b"), vec![commit()]);
    assert_eq!(found.commits.len(), 1);
    assert_eq!(found.provider, "github.com");
    let missing = get_repo(&cfg, &s("github.com"), &s("a"), &s("c"), vec![commit()]);
    assert!(missing.commits.is_empty());
    assert_eq!(missing.repo, "c");
}

#[test]
fn service_add_repo() {
    let mut cfg = config();
    let dto = |url: &str| AddRepositoryDto {
        url: url.to_string(),
        ssh_private_key: None,
        ssh_public_key: None,
        ssh_user: None,
        ssh_passphrase: None,
    };
    let r = add_repo(&mut cfg, dto("git@github.com:a/b.git"), Ok(()));
    assert!(r.success);
    assert_eq!(cfg.repositories.len(), 1);
    let r = add_repo(&mut cfg, dto("git@github.com:c/d.git"), Ok(()));
    assert_eq!(r.repo.as_deref(), Some("d"));
    assert_eq!(cfg.repositories.len(), 2);
    assert_eq!(cfg.repositories[1].path, "/base/github.com/c/d");
    let r = add_repo(&mut cfg, dto("git@github.com:e/f.git"), Err("no".to_string()));
    assert!(!r.success);
    assert_eq!(r.message.as_deref(), Some("no"));
    assert_eq!(cfg.repositories.len(), 2);
}
