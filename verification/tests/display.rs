use std::collections::HashMap;

use gtm_sync::git::gtm::{Commit, File};

fn file(path: &str, total: i64, added: i32, deleted: i32, status: &str) -> File {
    File {
        path: path.to_string(),
        time_total: total,
        timeline: HashMap::new(),
        status: status.to_string(),
        added_lines: added,
        deleted_lines: deleted,
    }
}

fn expected(f: &File) -> String {
    format!(
        "{:>2}h{:>3}m{:>3}s : {:<45} +{:<4} - {:<4} {}",
        f.time_total / 3600,
        (f.time_total % 3600) / 60,
        f.time_total % 60,
        f.path,
        f.added_lines,
        f.deleted_lines,
        f.status,
    )
}

#[test]
fn file_line_matches_format() {
    let f = file("src/main.rs", 3725, 12, 3, "m");
    assert_eq!(f.to_display_string(), " 1h  2m  5s : src/main.rs                                   +12   - 3    m");
    assert_eq!(f.to_display_string(), expected(&f));
}

#[test]
fn file_line_edge_values() {
    for f in [
        file("", 0, 0, 0, ""),
        file("a", -3725, -1, 123456, "r"),
        file("ü/long/path/that/is/longer/than/forty/five/characters.rs", 360000, 99999, -77, "d"),
        file("x", i64::MAX, i32::MAX, i32::MIN, "s"),
        file("y", i64::MIN, 0, 0, ""),
        file("z", 59, 1, 1, "q"),
    ] {
        assert_eq!(f.to_display_string(), expected(&f));
    }
}

#[test]
fn commit_text_lists_files() {
    let c = Commit {
        hash: "0123abc".to_string(),
        author_email: "Ann <ann@example.org>".to_string(),
        message: "Fix it\n".to_string(),
        time: -17,
        files: vec![file("a.rs", 61, 1, 2, "m"), file("b.rs", 7200, 0, 0, "d")],
    };
    let mut want = String::new();
    want.push_str("Commit: 0123abc\nAuthor: Ann <ann@example.org>\nTime -17\nFix it\n\n");
    for f in &c.files {
        want.push_str(&expected(f));
        want.push('\n');
    }
    assert_eq!(c.to_display_string(), want);
}

#[test]
fn commit_without_files() {
    let c = Commit { hash: String::new(), author_email: String::new(), message: String::new(), time: 0, files: vec![] };
    assert_eq!(c.to_display_string(), "Commit: \nAuthor: \nTime 0\n\n");
}
