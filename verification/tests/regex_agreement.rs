use std::collections::HashMap;

use gtm_sync::clone_url::{find_clone_url_parts, UrlPattern};
use gtm_sync::git::gtm::{note_message_fits, parse_note_message};
use regex::Regex;

const NESTED: &str = r#"(git@|https://)([a-zA-Z0-9.]+)[:/]([a-zA-Z0-9-_/.]+)/([a-zA-Z0-9-._]+)\.git"#;
const FLAT: &str = r#"(git@|https://)([a-zA-Z0-9.]+)[:/]([a-zA-Z0-9-]+)/([a-zA-Z0-9-]+)\.git"#;

/// A small deterministic generator of test texts.
struct Gen(u64);

impl Gen {
    fn next(&mut self) -> u64 {
        self.0 ^= self.0 << 13;
        self.0 ^= self.0 >> 7;
        self.0 ^= self.0 << 17;
        self.0
    }

    fn text(&mut self, pieces: &[&str], max: u64) -> String {
        let n = self.next() % max;
        let mut s = String::new();
        for _ in 0..n {
            s.push_str(pieces[(self.next() % pieces.len() as u64) as usize]);
        }
        s
    }
}

fn by_regex(re: &Regex, s: &str) -> Option<(String, String, String)> {
    re.captures(s).map(|c| (c[2].to_string(), c[3].to_string(), c[4].to_string()))
}

#[test]
fn clone_url_reading_agrees_with_regex_crate() {
    let nested = Regex::new(NESTED).unwrap();
    let flat = Regex::new(FLAT).unwrap();
    let noise = ["git@", "https://", "a", ".", ":", "/", "-", "_", ".git", " ", "é"];
    let word = ["a", "B", "7", ".", "-", "_", "/", ".git", "x", ":"];
    let mut g = Gen(0x9e3779b97f4a7c15);
    let mut matched = 0;
    for _ in 0..4000 {
        let scheme = if g.next() % 2 == 0 { "git@" } else { "https://" };
        let sep = if g.next() % 2 == 0 { ":" } else { "/" };
        let s = format!(
            "{}{}{}{}{}/{}.git{}",
            g.text(&noise, 4),
            scheme,
            g.text(&word, 4),
            sep,
            g.text(&word, 6),
            g.text(&word, 5),
            g.text(&noise, 4)
        );
        let a = find_clone_url_parts(&UrlPattern::Nested, &s);
        assert_eq!(a, by_regex(&nested, &s), "nested: {:?}", s);
        let b = find_clone_url_parts(&UrlPattern::Flat, &s);
        assert_eq!(b, by_regex(&flat, &s), "flat: {:?}", s);
        if a.is_some() {
            matched += 1;
        }
    }
    assert!(matched > 50);
}

#[derive(Debug, PartialEq)]
struct Record {
    path: String,
    time_total: i64,
    timeline: HashMap<i64, i32>,
    status: String,
}

/// The note reading written directly with the `regex` crate and std.
fn reference_notes(message: &str) -> Vec<Record> {
    let header = Regex::new("\\[ver:\\d+,total:\\d+]").unwrap();
    let vals = Regex::new("\\d+").unwrap();
    let mut version = String::new();
    let mut files: Vec<Record> = Vec::new();
    for line in message.split('\n') {
        if line.trim() == "" {
            version = String::new();
        } else if header.is_match(line) {
            version = vals.find_iter(line).next().unwrap().as_str().to_string();
        }
        let mut file = Record { path: String::new(), time_total: 0, timeline: HashMap::new(), status: String::new() };
        if version != "1" {
            continue;
        }
        let groups: Vec<&str> = line.split(',').collect();
        if groups.len() < 3 {
            continue;
        }
        for i in 0..groups.len() {
            let fields: Vec<&str> = groups[i].split(':').collect();
            if i == 0 && fields.len() == 2 {
                file.path = fields[0].replace("->", ":");
                file.time_total = fields[1].parse().unwrap_or(0);
            } else if i == groups.len() - 1 && fields.len() == 1 {
                file.status = fields[0].to_string();
            } else if fields.len() == 2 {
                let k: i64 = fields[0].parse().unwrap_or(0);
                let v: i32 = fields[1].parse().unwrap_or(0);
                file.timeline.insert(k, v);
            }
        }
        let mut found = false;
        for f in files.iter_mut() {
            if f.path == file.path {
                f.time_total += file.time_total;
                for (k, v) in &file.timeline {
                    f.timeline.insert(*k, *v);
                }
                found = true;
            }
        }
        if !found {
            files.push(file);
        }
    }
    files
}

#[test]
fn note_reading_agrees_with_regex_crate() {
    let pieces = [
        "[ver:1,total:5]", "[ver:2,total:1]", "[ver:", "1", "2", "٣", ",", ":", "a", "b->c", "->", "-", "+", "\n",
        "\n\n", " ", "\t", "m", "r", "12", "x", "99999999999",
    ];
    let mut g = Gen(0x2545f4914f6cdd1d);
    let mut nonempty = 0;
    for _ in 0..200 {
        let s = g.text(&pieces, 24);
        assert!(note_message_fits(&s));
        let ours: Vec<Record> = parse_note_message(&s)
            .unwrap()
            .into_iter()
            .map(|f| Record { path: f.path, time_total: f.time_total, timeline: f.timeline, status: f.status })
            .collect();
        let want = reference_notes(&s);
        assert_eq!(ours, want, "{:?}", s);
        if !want.is_empty() {
            nonempty += 1;
        }
    }
    assert!(nonempty > 10);
}
