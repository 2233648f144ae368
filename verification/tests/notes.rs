use std::collections::HashMap;

use gtm_sync::git::gtm::{
    note_files_of, note_message_fits, parse_commit, parse_note_message, parse_note_message_checked, File,
};
use gtm_sync::git::note::is_white_space;

fn timeline(entries: &[(i64, i32)]) -> HashMap<i64, i32> {
    entries.iter().cloned().collect()
}

fn parse(message: &str) -> Vec<File> {
    assert!(note_message_fits(message));
    parse_note_message(message).expect("a note always parses")
}

#[test]
fn version_one_block_gives_records() {
    let note = "[ver:1,total:213]\nREADME.md:150,1585945200:60,1585945260:90,m\nsrc->main.rs:63,1585945200:63,r\n";
    let files = parse(note);
    assert_eq!(files.len(), 2);
    assert_eq!(files[0].path, "README.md");
    assert_eq!(files[0].time_total, 150);
    assert_eq!(files[0].timeline, timeline(&[(1585945200, 60), (1585945260, 90)]));
    assert_eq!(files[0].status, "m");
    assert_eq!(files[0].added_lines, 0);
    assert_eq!(files[0].deleted_lines, 0);
    assert_eq!(files[1].path, "src:main.rs");
    assert_eq!(files[1].time_total, 63);
    assert_eq!(files[1].status, "r");
}

#[test]
fn lines_before_any_header_are_ignored() {
    let files = parse("a.rs:10,1:10,m\n[ver:1,total:5]\nb.rs:5,2:5,m");
    assert_eq!(files.len(), 1);
    assert_eq!(files[0].path, "b.rs");
}

#[test]
fn headerless_note_is_empty() {
    assert!(parse("a.rs:10,1:10,m\nb.rs:5,2:5,m\n").is_empty());
    assert!(parse("").is_empty());
}

#[test]
fn blank_line_ends_the_block() {
    let files = parse("[ver:1,total:5]\na.rs:5,1:5,m\n \t\nb.rs:7,1:7,m\n");
    assert_eq!(files.len(), 1);
    assert_eq!(files[0].path, "a.rs");
}

#[test]
fn unicode_white_space_counts_as_blank() {
    let files = parse("[ver:1,total:5]\n\u{3000}\u{a0}\nb.rs:7,1:7,m\n");
    assert!(files.is_empty());
}

#[test]
fn other_versions_are_ignored() {
    let files = parse("[ver:2,total:5]\na.rs:5,1:5,m\n[ver:1,total:3]\nb.rs:3,1:3,d\n");
    assert_eq!(files.len(), 1);
    assert_eq!(files[0].path, "b.rs");
    assert_eq!(files[0].status, "d");
}

#[test]
fn header_may_stand_inside_a_line() {
    let files = parse("notes [ver:1,total:4] follow\nc.rs:4,9:4,m\n");
    assert_eq!(files.len(), 1);
    assert_eq!(files[0].time_total, 4);
}

#[test]
fn version_is_the_first_number_of_the_header_line() {
    let files = parse("v7 [ver:1,total:4]\nc.rs:4,9:4,m\n");
    assert!(files.is_empty());
}

#[test]
fn non_ascii_digits_in_header() {
    // U+0661 is ARABIC-INDIC DIGIT ONE, U+0665 ARABIC-INDIC DIGIT FIVE: both are \d.
    let files = parse("[ver:1,total:\u{665}]\nc.rs:4,9:4,m\n");
    assert_eq!(files.len(), 1);
    let files = parse("[ver:\u{661},total:5]\nc.rs:4,9:4,m\n");
    assert!(files.is_empty());
}

#[test]
fn same_path_is_folded_into_one_record() {
    let files = parse("[ver:1,total:9]\na.rs:5,1:2,2:3,m\n\n[ver:1,total:4]\na.rs:4,2:4,3:1,m\n");
    assert_eq!(files.len(), 1);
    assert_eq!(files[0].time_total, 9);
    assert_eq!(files[0].timeline, timeline(&[(1, 2), (2, 4), (3, 1)]));
    assert_eq!(files[0].status, "m");
}

#[test]
fn lines_with_fewer_than_three_groups_are_skipped() {
    let files = parse("[ver:1,total:9]\na.rs:5,m\nb.rs:1,2:1,m\n");
    assert_eq!(files.len(), 1);
    assert_eq!(files[0].path, "b.rs");
}

#[test]
fn unparsable_numbers_count_as_zero() {
    let files = parse("[ver:1,total:9]\na.rs:x5,abc:7,3:99999999999,m\n");
    assert_eq!(files[0].time_total, 0);
    assert_eq!(files[0].timeline, timeline(&[(0, 7), (3, 0)]));
}

#[test]
fn signed_numbers_parse() {
    let files = parse("[ver:1,total:9]\na.rs:-5,+3:-7,m\n");
    assert_eq!(files[0].time_total, -5);
    assert_eq!(files[0].timeline, timeline(&[(3, -7)]));
}

#[test]
fn last_group_with_colon_is_a_timeline_entry() {
    let files = parse("[ver:1,total:9]\na.rs:5,1:2,3:4\n");
    assert_eq!(files[0].status, "");
    assert_eq!(files[0].timeline, timeline(&[(1, 2), (3, 4)]));
}

#[test]
fn first_group_without_colon_leaves_path_empty() {
    let files = parse("[ver:1,total:9]\nabc,1:2,m\n");
    assert_eq!(files[0].path, "");
    assert_eq!(files[0].time_total, 0);
    assert_eq!(files[0].status, "m");
}

#[test]
fn later_timeline_entries_override_earlier_ones() {
    let files = parse("[ver:1,total:9]\na.rs:5,1:2,1:3,m\n");
    assert_eq!(files[0].timeline, timeline(&[(1, 3)]));
}

#[test]
fn carriage_returns_stay_in_the_line() {
    let files = parse("[ver:1,total:9]\r\na.rs:5,1:2,m\r\n");
    assert_eq!(files.len(), 1);
    assert_eq!(files[0].status, "m\r");
}

#[test]
fn overflowing_totals_are_refused() {
    let note = "[ver:1,total:1]\na:9223372036854775807,1:1,m\na:1,1:1,m\n";
    assert!(!note_message_fits(note));
    let ok = "[ver:1,total:1]\na:9223372036854775807,1:1,m\na:-1,1:1,m\n";
    assert!(note_message_fits(ok));
    assert_eq!(parse(ok)[0].time_total, 9223372036854775806);
}

#[test]
fn commit_collects_note_batches_in_order() {
    let first = note_files_of("[ver:1,total:3]\na.rs:3,1:3,m\n");
    let second = note_files_of("[ver:1,total:4]\nb.rs:4,1:4,m\na.rs:1,2:1,m\n");
    let c = parse_commit("abc".to_string(), "Ann <ann@x.y>".to_string(), "msg".to_string(), 42, vec![first, second]);
    assert_eq!(c.hash, "abc");
    assert_eq!(c.author_email, "Ann <ann@x.y>");
    assert_eq!(c.message, "msg");
    assert_eq!(c.time, 42);
    let paths: Vec<&str> = c.files.iter().map(|f| f.path.as_str()).collect();
    assert_eq!(paths, vec!["a.rs", "b.rs", "a.rs"]);
}

#[test]
fn app_event_records_are_not_diffed() {
    let mut files = parse("[ver:1,total:3]\nsession.app:3,1:3,m\nx.rs:3,1:3,m\n");
    assert!(!files[0].is_diff_target());
    assert!(files[1].is_diff_target());
    files[1].set_line_stats(12, 3);
    assert_eq!(files[1].added_lines, 12);
    assert_eq!(files[1].deleted_lines, 3);
    files[1].set_line_stats(4294967297, 2147483648);
    assert_eq!(files[1].added_lines, 1);
    assert_eq!(files[1].deleted_lines, -2147483648);
    assert_eq!(files[1].time_total, 3);
}

#[test]
fn records_follow_first_occurrence_with_summed_totals() {
    let note = "[ver:1,total:20]\nb.rs:2,1:2,m\na.rs:3,1:3,m\nb.rs:4,2:4,m\n\n[ver:1,total:5]\na.rs:5,3:5,m\nc.rs:6,4:6,d\n";
    let files = parse(note);
    let paths: Vec<&str> = files.iter().map(|f| f.path.as_str()).collect();
    assert_eq!(paths, vec!["b.rs", "a.rs", "c.rs"]);
    let totals: Vec<i64> = files.iter().map(|f| f.time_total).collect();
    assert_eq!(totals, vec![6, 8, 6]);
    assert!(files.iter().all(|f| f.added_lines == 0 && f.deleted_lines == 0));
}

#[test]
fn checked_reading_refuses_overflow_and_reads_the_rest() {
    let bad = "[ver:1,total:1]\na:9223372036854775807,1:1,m\na:1,1:1,m\n";
    assert!(parse_note_message_checked(bad).is_none());
    let good = parse_note_message_checked("[ver:1,total:3]\na.rs:3,1:3,m\n").expect("fits");
    assert_eq!(good.len(), 1);
    assert_eq!(good[0].path, "a.rs");
    assert_eq!(good[0].time_total, 3);
}

#[test]
fn white_space_agrees_with_std_on_every_char() {
    for u in 0u32..0x11_0000 {
        if let Some(c) = char::from_u32(u) {
            assert_eq!(is_white_space(c), c.is_whitespace(), "U+{:04X}", u);
        }
    }
}
