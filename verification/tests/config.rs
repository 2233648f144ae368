use gtm_sync::config::config::Config;
use gtm_sync::config::repository::Repository;

fn repository(url: &str, path: &str) -> Repository {
    Repository {
        url: url.to_string(),
        path: path.to_string(),
        ssh_private_key: None,
        ssh_public_key: None,
        ssh_user: None,
        ssh_passphrase: None,
    }
}

pub fn config(base: &str) -> Config {
    Config {
        target_host: "http://backend".to_string(),
        target_port: None,
        port: None,
        address: None,
        access_token: None,
        ssh_public_key: None,
        ssh_private_key: None,
        ssh_user: None,
        ssh_passphrase: None,
        repositories_base_path: base.to_string(),
        repositories: vec![],
    }
}

#[test]
fn target_url_uses_default_port() {
    let cfg = config("/repos");
    assert_eq!(cfg.get_target_url(), "http://backend:8000");
}

#[test]
fn target_url_uses_configured_port() {
    let mut cfg = config("/repos");
    cfg.target_port = Some(65535);
    assert_eq!(cfg.get_target_url(), "http://backend:65535");
    cfg.target_port = Some(0);
    assert_eq!(cfg.get_target_url(), "http://backend:0");
}

#[test]
fn sync_url_defaults_to_localhost() {
    let mut cfg = config("/repos");
    assert_eq!(cfg.get_sync_url(), "localhost:8000");
    cfg.address = Some("sync.example.org".to_string());
    cfg.port = Some(8090);
    assert_eq!(cfg.get_sync_url(), "sync.example.org:8090");
}

#[test]
fn path_from_git_url() {
    let cfg = config("/var/repos");
    let p = cfg.generate_path_from_git_url(&"git@github.com:user/repo.git".to_string());
    assert_eq!(p, "/var/repos/github.com/user/repo");
}

#[test]
fn trailing_slashes_of_base_are_dropped() {
    for base in ["/var/repos", "/var/repos/", "/var/repos///"] {
        let cfg = config(base);
        let p = cfg.generate_path_from_provider_user_repo(
            &"github.com".to_string(),
            &"user".to_string(),
            &"repo".to_string(),
        );
        assert_eq!(p, "/var/repos/github.com/user/repo");
    }
}

#[test]
fn root_base_gives_absolute_path() {
    let cfg = config("/");
    let p = cfg.generate_path_from_git_url(&"https://gitlab.com/a/b/c.git".to_string());
    assert_eq!(p, "/gitlab.com/a/b/c");
}

#[test]
fn path_of_url_is_path_of_its_names() {
    let cfg = config("./repos/");
    let url = "git@gitlab.com:group/sub/project.git".to_string();
    let (p, u, r) = gtm_sync::config::repository::generate_credentials_from_clone_url(&url);
    assert_eq!(
        cfg.generate_path_from_git_url(&url),
        cfg.generate_path_from_provider_user_repo(&p, &u, &r)
    );
}

#[test]
fn find_repository_returns_first_match() {
    let mut cfg = config("/r");
    cfg.repositories.push(repository("a", "/r/x/y/z"));
    cfg.repositories.push(repository("b", "/r/h/u/n"));
    cfg.repositories.push(repository("c", "/r/h/u/n"));
    let s = |x: &str| x.to_string();
    assert_eq!(cfg.find_repository(&s("h"), &s("u"), &s("n")), Some(1));
    assert_eq!(cfg.find_repository(&s("x"), &s("y"), &s("z")), Some(0));
    assert_eq!(cfg.find_repository(&s("x"), &s("y"), &s("w")), None);
}
