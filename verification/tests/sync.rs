use gtm_sync::config::config::Config;
use gtm_sync::config::repository::Repository;
use gtm_sync::git::gtm::Commit;
use gtm_sync::server::sync::sync_body;
use gtm_sync::sync::sync::{
    generate_repo_sync_url, plan_sync, summarize_sync_all, sync_repo_result, synced_hashes_url, LastSyncResponse,
    SyncMethod,
};

fn config(token: Option<&str>) -> Config {
    Config {
        target_host: "http://backend".to_string(),
        target_port: Some(8010),
        port: None,
        address: Some("me".to_string()),
        access_token: token.map(|t| t.to_string()),
        ssh_public_key: None,
        ssh_private_key: None,
        ssh_user: None,
        ssh_passphrase: None,
        repositories_base_path: "/r".to_string(),
        repositories: vec![],
    }
}

fn repository() -> Repository {
    Repository {
        url: "git@github.com:team/app.git".to_string(),
        path: "/r/github.com/team/app".to_string(),
        ssh_private_key: None,
        ssh_public_key: None,
        ssh_user: None,
        ssh_passphrase: None,
    }
}

fn commits(hashes: &[&str]) -> Vec<Commit> {
    hashes
        .iter()
        .map(|h| Commit { hash: h.to_string(), author_email: String::new(), message: String::new(), time: 0, files: vec![] })
        .collect()
}

fn last(timestamp: i64, held: &[&str]) -> LastSyncResponse {
    LastSyncResponse { timestamp, tracked_commit_hashes: held.iter().map(|h| h.to_string()).collect() }
}

fn hashes(cs: &[Commit]) -> Vec<String> {
    cs.iter().map(|c| c.hash.clone()).collect()
}

#[test]
fn urls_of_the_backend() {
    assert_eq!(generate_repo_sync_url(&"http://b:1".to_string()), "http://b:1/api/repositories");
    assert_eq!(
        synced_hashes_url("http://b:1", &"https://gitlab.com/g/s/p.git".to_string()),
        "http://b:1/api/commits/gitlab.com/g/s/p/hash"
    );
}

#[test]
fn first_sync_posts_everything() {
    let req = plan_sync(&config(Some("k")), &repository(), commits(&["a", "b"]), &last(-1, &[]));
    assert!(matches!(req.method, SyncMethod::Post));
    assert_eq!(req.url, "http://backend:8010/api/repositories");
    assert_eq!(req.api_key, "k");
    let d = req.body.repository.unwrap();
    assert_eq!((d.provider.as_str(), d.user.as_str(), d.repo.as_str()), ("github.com", "team", "app"));
    assert_eq!(d.sync_url, "me:8000");
    assert_eq!(hashes(&d.commits), vec!["a", "b"]);
}

#[test]
fn update_sends_only_missing_commits() {
    let req = plan_sync(&config(None), &repository(), commits(&["a", "b", "c", "d"]), &last(5, &["b", "d"]));
    assert!(matches!(req.method, SyncMethod::Put));
    assert_eq!(req.api_key, "");
    assert_eq!(hashes(&req.body.repository.unwrap().commits), vec!["a", "c"]);
}

#[test]
fn unknown_held_commit_forces_full_upload() {
    let req = plan_sync(&config(None), &repository(), commits(&["a", "b"]), &last(5, &["b", "z"]));
    assert!(matches!(req.method, SyncMethod::Post));
    assert_eq!(hashes(&req.body.repository.unwrap().commits), vec!["a", "b"]);
}

#[test]
fn zero_timestamp_forces_full_upload() {
    let req = plan_sync(&config(None), &repository(), commits(&["a"]), &last(0, &["a"]));
    assert!(matches!(req.method, SyncMethod::Post));
}

#[test]
fn update_with_nothing_new_sends_nothing() {
    let req = plan_sync(&config(None), &repository(), commits(&["a", "b"]), &last(3, &["b", "a"]));
    assert!(matches!(req.method, SyncMethod::Put));
    assert!(req.body.repository.unwrap().commits.is_empty());
}

#[test]
fn full_sync_summary() {
    let outcomes = vec![Ok(200u16), Err("timeout".to_string()), Ok(500), Ok(204), Err("refused".to_string()), Ok(299), Ok(300)];
    let r = summarize_sync_all(&outcomes);
    assert_eq!(r.synced_count, 3);
    assert_eq!(r.error.as_deref(), Some("refused"));
    let r = summarize_sync_all(&vec![]);
    assert_eq!(r.synced_count, 0);
    assert!(r.error.is_none());
}

#[test]
fn single_sync_answers() {
    let r = sync_repo_result(None);
    assert!(!r.ok);
    assert_eq!(r.error.as_deref(), Some("No matching repository found!"));
    let r = sync_repo_result(Some(Ok(201)));
    assert!(r.ok && r.error.is_none());
    let r = sync_repo_result(Some(Ok(404)));
    assert!(!r.ok);
    assert_eq!(r.error.as_deref(), Some("Error syncing repo!"));
    let r = sync_repo_result(Some(Err("down".to_string())));
    assert_eq!(r.error.as_deref(), Some("Error syncing repo!"));
}

#[test]
fn full_sync_body() {
    let body = sync_body(&config(Some("t")), &"https://gitlab.com/x/y.git".to_string(), commits(&["q"]));
    let d = body.repository.unwrap();
    assert_eq!((d.provider.as_str(), d.user.as_str(), d.repo.as_str()), ("gitlab.com", "x", "y"));
    assert_eq!(d.access_token.as_deref(), Some("t"));
    assert_eq!(d.sync_url, "me:8000");
    assert_eq!(hashes(&d.commits), vec!["q"]);
    assert!(!gtm_sync::server::sync::sync_single());
}
