use gtm_sync::clone_url::{find_clone_url_parts, UrlPattern};
use gtm_sync::config::repository::{generate_credentials_from_clone_url, is_clone_url};
use gtm_sync::server::service::{get_credentials_from_clone_url, is_flat_clone_url};

fn parts(p: UrlPattern, url: &str) -> Option<(String, String, String)> {
    find_clone_url_parts(&p, url)
}

fn owned(a: &str, b: &str, c: &str) -> (String, String, String) {
    (a.to_string(), b.to_string(), c.to_string())
}

#[test]
fn ssh_url_gives_provider_user_repo() {
    let r = generate_credentials_from_clone_url("git@github.com:DEVELOPEST/gtm-sync.git");
    assert_eq!(r, owned("github.com", "DEVELOPEST", "gtm-sync"));
}

#[test]
fn https_url_gives_provider_user_repo() {
    let r = generate_credentials_from_clone_url("https://gitlab.cs.ttu.ee/user/repo.git");
    assert_eq!(r, owned("gitlab.cs.ttu.ee", "user", "repo"));
}

#[test]
fn nested_owner_is_kept_whole() {
    let r = generate_credentials_from_clone_url("https://gitlab.com/group/sub.group/my_repo.git");
    assert_eq!(r, owned("gitlab.com", "group/sub.group", "my_repo"));
}

#[test]
fn greedy_owner_takes_the_last_slash() {
    let r = parts(UrlPattern::Nested, "git@h.com:a/b.git/c.git");
    assert_eq!(r, Some(owned("h.com", "a/b.git", "c")));
}

#[test]
fn greedy_name_takes_the_last_dot_git() {
    let r = parts(UrlPattern::Nested, "git@h.com:a/b.git.git");
    assert_eq!(r, Some(owned("h.com", "a", "b.git")));
}

#[test]
fn url_inside_text_is_found() {
    let r = parts(UrlPattern::Nested, "clone it: git@github.com:a/b.git please");
    assert_eq!(r, Some(owned("github.com", "a", "b")));
}

#[test]
fn earliest_match_wins() {
    let r = parts(UrlPattern::Flat, "git@x.org:p/q.git git@y.org:r/s.git");
    assert_eq!(r, Some(owned("x.org", "p", "q")));
}

#[test]
fn a_failed_start_does_not_hide_a_later_match() {
    let r = parts(UrlPattern::Flat, "git@bad host git@ok.org:u/r.git");
    assert_eq!(r, Some(owned("ok.org", "u", "r")));
}

#[test]
fn text_without_url_has_none() {
    assert!(!is_clone_url("not a url"));
    assert!(!is_clone_url("git@github.com:user.git"));
    assert!(!is_clone_url("http://github.com/user/repo.git"));
    assert!(parts(UrlPattern::Nested, "").is_none());
}

#[test]
fn flat_spelling_rejects_dots_in_names() {
    assert!(!is_flat_clone_url(&"git@github.com:org/repo.name.git".to_string()));
    assert!(is_clone_url("git@github.com:org/repo.name.git"));
    assert_eq!(
        generate_credentials_from_clone_url("git@github.com:org/repo.name.git"),
        owned("github.com", "org", "repo.name")
    );
}

#[test]
fn flat_spelling_reads_plain_urls() {
    let r = get_credentials_from_clone_url(&"git@github.com:my-org/my-repo.git".to_string());
    assert_eq!(r, owned("github.com", "my-org", "my-repo"));
}

#[test]
fn round_trip_of_written_urls() {
    for (host, owner, name) in [("a.b", "c", "d"), ("gitlab.example.org", "team/sub", "x_y.z"), ("h", "o-1", "n-2")] {
        let ssh = format!("git@{}:{}/{}.git", host, owner, name);
        let https = format!("https://{}/{}/{}.git", host, owner, name);
        assert_eq!(generate_credentials_from_clone_url(&ssh), owned(host, owner, name));
        assert_eq!(generate_credentials_from_clone_url(&https), owned(host, owner, name));
    }
}
