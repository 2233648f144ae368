//! Commits with the time that gtm recorded for their files, and the parsing
//! of gtm's notes into per-file records.

use std::collections::HashMap;
use vstd::prelude::*;

use crate::git::note::{blank_line, first_digit_run, first_digits, has_header, is_blank, line_has_header};
use crate::text::{
    append_str, chars_of, ends_with, ends_with_chars, extend_chars, format_i64, int_decimal, pad_left, pad_right, padded_left, padded_right, parse_i32, parse_i32_text, parse_i64, parse_i64_text, replace_arrow, replace_arrows,
    split_chars, split_on, string_of, views,
};

verus! {

broadcast use vstd::std_specs::hash::group_hash_axioms;

/// The time gtm recorded for one file of a commit.
pub struct File {
    pub path: String,
    pub time_total: i64,
    pub timeline: HashMap<i64, i32>,
    pub status: String,
    pub added_lines: i32,
    pub deleted_lines: i32,
}

/// A file record as plain values; the total is an unbounded integer so
/// that sums can be stated before they are known to fit.
pub struct FileView {
    pub path: Seq<char>,
    pub time_total: int,
    pub timeline: Map<i64, i32>,
    pub status: Seq<char>,
    pub added_lines: int,
    pub deleted_lines: int,
}

impl View for File {
    type V = FileView;

    open spec fn view(&self) -> FileView {
        FileView {
            path: self.path@,
            time_total: self.time_total as int,
            timeline: self.timeline@,
            status: self.status@,
            added_lines: self.added_lines as int,
            deleted_lines: self.deleted_lines as int,
        }
    }
}

/// A commit and the files gtm recorded time for in it.
pub struct Commit {
    pub hash: String,
    pub author_email: String,
    pub message: String,
    pub time: i64,
    pub files: Vec<File>,
}

/// Views of a sequence of files.
pub open spec fn file_views(fs: Seq<File>) -> Seq<FileView> {
    fs.map_values(|f: File| f@)
}

/// The map that inserting `es` in order into an empty map gives.
pub open spec fn entries_map(es: Seq<(i64, i32)>) -> Map<i64, i32>
    decreases es.len(),
{
    if es.len() == 0 {
        Map::empty()
    } else {
        entries_map(es.drop_last()).insert(es.last().0, es.last().1)
    }
}

pub open spec fn i64_or_zero(o: Option<i64>) -> i64 {
    match o {
        Some(v) => v,
        None => 0,
    }
}

pub open spec fn i32_or_zero(o: Option<i32>) -> i32 {
    match o {
        Some(v) => v,
        None => 0,
    }
}

/// A record with nothing set.
pub open spec fn empty_file() -> FileView {
    FileView {
        path: Seq::empty(),
        time_total: 0,
        timeline: Map::empty(),
        status: Seq::empty(),
        added_lines: 0,
        deleted_lines: 0,
    }
}

/// What the `i`-th of `n` comma-separated groups of a version-1 line adds to
/// its record: the first group `path:total` gives the path (with `->` read
/// as `:`) and the total, a last group without `:` gives the status, and
/// every other `epoch:seconds` group adds a timeline entry. Numbers that do
/// not parse count as 0.
pub open spec fn apply_group(f: FileView, i: int, n: int, group: Seq<char>) -> FileView {
    let fields = split_on(group, ':');
    if i == 0 && fields.len() == 2 {
        FileView {
            path: replace_arrow(fields[0]),
            time_total: i64_or_zero(parse_i64_text(fields[1])) as int,
            ..f
        }
    } else if i == n - 1 && fields.len() == 1 {
        FileView { status: fields[0], ..f }
    } else if fields.len() == 2 {
        FileView {
            timeline: f.timeline.insert(
                i64_or_zero(parse_i64_text(fields[0])),
                i32_or_zero(parse_i32_text(fields[1])),
            ),
            ..f
        }
    } else {
        f
    }
}

/// The record after the first `k` groups.
pub open spec fn fold_groups(groups: Seq<Seq<char>>, k: int) -> FileView
    decreases k,
{
    if k <= 0 {
        empty_file()
    } else {
        apply_group(fold_groups(groups, k - 1), k - 1, groups.len() as int, groups[k - 1])
    }
}

/// The record that a version-1 line describes; lines with fewer than three
/// comma-separated groups describe none.
pub open spec fn line_file(line: Seq<char>) -> Option<FileView> {
    let groups = split_on(line, ',');
    if groups.len() < 3 {
        None
    } else {
        Some(fold_groups(groups, groups.len() as int))
    }
}


/// A map holding the entries `es`, later entries overriding earlier ones.
fn map_of_entries(es: &Vec<(i64, i32)>) -> (m: HashMap<i64, i32>)
    ensures
        m@ == entries_map(es@),
{
    let mut m: HashMap<i64, i32> = HashMap::new();
    let mut k: usize = 0;
    while k < es.len()
        invariant
            k <= es.len(),
            m@ == entries_map(es@.take(k as int)),
        decreases es.len() - k,
    {
        let (key, val) = es[k];
        m.insert(key, val);
        assert(es@.take(k + 1).drop_last() =~= es@.take(k as int));
        k = k + 1;
    }
    assert(es@.take(es.len() as int) =~= es@);
    m
}

/// The record a version-1 line describes, with its timeline entries in the
/// order they appear; `None` for lines with fewer than three groups.
fn parse_line(line: &Vec<char>) -> (r: Option<(File, Vec<(i64, i32)>)>)
    ensures
        match r {
            Some((f, es)) => line_file(line@) == Some(f@) && f@.timeline == entries_map(es@),
            None => line_file(line@) is None,
        },
{
    let groups = split_chars(line, ',');
    let n = groups.len();
    if n < 3 {
        return None;
    }
    let ghost gv = views(groups@);
    let mut path: Vec<char> = Vec::new();
    let mut total: i64 = 0;
    let mut status: Vec<char> = Vec::new();
    let mut entries: Vec<(i64, i32)> = Vec::new();
    let mut i: usize = 0;
    while i < n
        invariant
            n == groups.len(),
            gv == views(groups@),
            gv == split_on(line@, ','),
            i <= n,
            fold_groups(gv, i as int) == (FileView {
                path: path@,
                time_total: total as int,
                timeline: entries_map(entries@),
                status: status@,
                added_lines: 0,
                deleted_lines: 0,
            }),
        decreases n - i,
    {
        let fields = split_chars(&groups[i], ':');
        assert(gv[i as int] == groups@[i as int]@);
        let ghost fv = views(fields@);
        if i == 0 && fields.len() == 2 {
            path = replace_arrows(&fields[0]);
            total = match parse_i64(&fields[1]) {
                Some(v) => v,
                None => 0,
            };
        } else if i == n - 1 && fields.len() == 1 {
            status = fields[0].clone();
        } else if fields.len() == 2 {
            let key = match parse_i64(&fields[0]) {
                Some(v) => v,
                None => 0,
            };
            let val = match parse_i32(&fields[1]) {
                Some(v) => v,
                None => 0,
            };
            let ghost old_entries = entries@;
            entries.push((key, val));
            assert(entries@.drop_last() =~= old_entries);
        }
        i = i + 1;
    }
    let f = File {
        path: string_of(&path),
        time_total: total,
        timeline: map_of_entries(&entries),
        status: string_of(&status),
        added_lines: 0,
        deleted_lines: 0,
    };
    Some((f, entries))
}


/// `g` with the time of `f` added: the totals sum and `f`'s timeline
/// entries override `g`'s.
pub open spec fn combine(g: FileView, f: FileView) -> FileView {
    FileView {
        time_total: g.time_total + f.time_total,
        timeline: g.timeline.union_prefer_right(f.timeline),
        ..g
    }
}

/// Folds the record `f` into `files`: every record with the same path
/// absorbs it, and where none has that path it is appended.
pub open spec fn merge_file(files: Seq<FileView>, f: FileView) -> Seq<FileView> {
    if exists|j: int| 0 <= j < files.len() && (#[trigger] files[j]).path == f.path {
        files.map_values(|g: FileView| if g.path == f.path { combine(g, f) } else { g })
    } else {
        files.push(f)
    }
}

/// Every total fits in a signed 64-bit integer.
pub open spec fn totals_fit(files: Seq<FileView>) -> bool {
    forall|j: int| 0 <= j < files.len() ==> i64::MIN <= (#[trigger] files[j]).time_total <= i64::MAX
}

/// Inserts the entries `es` into `m` in order.
fn insert_entries(m: &mut HashMap<i64, i32>, es: &Vec<(i64, i32)>)
    ensures
        final(m)@ == old(m)@.union_prefer_right(entries_map(es@)),
{
    let mut k: usize = 0;
    assert(old(m)@.union_prefer_right(entries_map(es@.take(0))) =~= old(m)@);
    while k < es.len()
        invariant
            k <= es.len(),
            m@ == old(m)@.union_prefer_right(entries_map(es@.take(k as int))),
        decreases es.len() - k,
    {
        let (key, val) = es[k];
        m.insert(key, val);
        assert(es@.take(k + 1).drop_last() =~= es@.take(k as int));
        assert(m@ =~= old(m)@.union_prefer_right(entries_map(es@.take(k + 1))));
        k = k + 1;
    }
    assert(es@.take(es.len() as int) =~= es@);
}

/// Folds `file` into `files` as `merge_file` states; `None` where a sum of
/// totals leaves the signed 64-bit range.
fn merge_into(files: Vec<File>, file: File, entries: &Vec<(i64, i32)>) -> (r: Option<Vec<File>>)
    requires
        file@.timeline == entries_map(entries@),
    ensures
        match r {
            Some(out) => file_views(out@) == merge_file(file_views(files@), file@),
            None => !totals_fit(merge_file(file_views(files@), file@)),
        },
{
    let ghost orig = file_views(files@);
    let ghost f = file@;
    let ghost upd = |g: FileView| if g.path == f.path { combine(g, f) } else { g };
    let n = files.len();
    let mut rest = files;
    let mut out: Vec<File> = Vec::new();
    let mut found = false;
    let mut k: usize = 0;
    while k < n
        invariant
            orig == file_views(files@),
            n == orig.len(),
            k <= n,
            f == file@,
            f.timeline == entries_map(entries@),
            upd == (|g: FileView| if g.path == f.path { combine(g, f) } else { g }),
            file_views(rest@) == orig.skip(k as int),
            file_views(out@) == orig.take(k as int).map_values(upd),
            found == exists|j: int| 0 <= j < k && (#[trigger] orig[j]).path == f.path,
        decreases n - k,
    {
        assert(file_views(rest@).len() == rest@.len());
        assert(file_views(rest@)[0] == orig[k as int]);
        let ghost old_rest = rest@;
        let mut g = rest.remove(0);
        assert(rest@ =~= old_rest.subrange(1, old_rest.len() as int));
        assert(file_views(rest@) =~= orig.skip(k + 1)) by {
            assert forall|j: int| 0 <= j < rest@.len() implies file_views(rest@)[j] == orig.skip(
                k + 1,
            )[j] by {
                assert(file_views(old_rest)[j + 1] == orig.skip(k as int)[j + 1]);
            }
        }
        if g.path == file.path {
            found = true;
            let sum = g.time_total.checked_add(file.time_total);
            match sum {
                Some(t) => {
                    g.time_total = t;
                },
                None => {
                    proof {
                        assert(g@ == orig[k as int]);
                        assert(orig[k as int].path == f.path);
                        let merged = merge_file(orig, f);
                        assert(merged == orig.map_values(upd));
                        assert(merged[k as int] == combine(orig[k as int], f));
                        assert(!(i64::MIN <= merged[k as int].time_total <= i64::MAX));
                        assert(!totals_fit(merged));
                        assert(orig == file_views(files@));
                        assert(f == file@);
                    }
                    return None;
                },
            }
            insert_entries(&mut g.timeline, entries);
            assert(g@ == upd(orig[k as int]));
        } else {
            assert(g@ == upd(orig[k as int]));
        }
        let ghost old_out = out@;
        out.push(g);
        assert(file_views(out@) =~= orig.take(k + 1).map_values(upd)) by {
            assert(orig.take(k + 1) =~= orig.take(k as int).push(orig[k as int]));
            assert(file_views(out@) =~= file_views(old_out).push(g@));
        }
        k = k + 1;
    }
    assert(orig.take(n as int) =~= orig);
    if found {
        Some(out)
    } else {
        let ghost before = out@;
        out.push(file);
        assert(orig.map_values(upd) =~= orig) by {
            assert forall|j: int| 0 <= j < orig.len() implies orig.map_values(upd)[j] == orig[j] by {
                assert(orig[j].path != f.path);
            }
        }
        assert(file_views(out@) =~= file_views(before).push(f));
        Some(out)
    }
}


/// Where a note parse stands after some lines: the version of the block
/// being read and the records so far.
pub struct NoteState {
    pub version: Seq<char>,
    pub files: Seq<FileView>,
}

/// The block version after `line`: a blank line ends the block, a line with
/// a header opens one with the header's first number, any other line keeps
/// the version.
pub open spec fn next_version(version: Seq<char>, line: Seq<char>) -> Seq<char> {
    if is_blank(line) {
        Seq::empty()
    } else if has_header(line) {
        first_digit_run(line)
    } else {
        version
    }
}

/// Reading one more line: inside a version-1 block a line that describes a
/// record is folded into the records.
pub open spec fn note_step(st: NoteState, line: Seq<char>) -> NoteState {
    let v = next_version(st.version, line);
    if v == seq!['1'] {
        match line_file(line) {
            Some(f) => NoteState { version: v, files: merge_file(st.files, f) },
            None => NoteState { version: v, files: st.files },
        }
    } else {
        NoteState { version: v, files: st.files }
    }
}

/// The state after reading `lines`.
pub open spec fn note_state(lines: Seq<Seq<char>>) -> NoteState
    decreases lines.len(),
{
    if lines.len() == 0 {
        NoteState { version: Seq::empty(), files: Seq::empty() }
    } else {
        note_step(note_state(lines.drop_last()), lines.last())
    }
}

/// The records that a note message describes.
pub open spec fn note_files(message: Seq<char>) -> Seq<FileView> {
    note_state(split_on(message, '\n')).files
}

/// Every running total while reading the note fits in a signed 64-bit
/// integer.
pub open spec fn note_fits(message: Seq<char>) -> bool {
    let lines = split_on(message, '\n');
    forall|k: int| 0 <= k <= lines.len() ==> #[trigger] totals_fit(note_state(lines.take(k)).files)
}

/// No two records share a path.
pub open spec fn distinct_paths(files: Seq<FileView>) -> bool {
    forall|i: int, j: int|
        0 <= i < files.len() && 0 <= j < files.len() && i != j ==> (#[trigger] files[i]).path != (
        #[trigger] files[j]).path
}

proof fn lemma_merge_keeps_paths_distinct(files: Seq<FileView>, f: FileView)
    requires
        distinct_paths(files),
    ensures
        distinct_paths(merge_file(files, f)),
{
    let m = merge_file(files, f);
    if exists|j: int| 0 <= j < files.len() && (#[trigger] files[j]).path == f.path {
        assert forall|i: int| 0 <= i < files.len() implies (#[trigger] m[i]).path == files[i].path by {}
    } else {
        assert forall|i: int, j: int|
            0 <= i < m.len() && 0 <= j < m.len() && i != j implies (#[trigger] m[i]).path != (
            #[trigger] m[j]).path by {
            if i == files.len() {
                assert(files[j].path != f.path);
            } else if j == files.len() {
                assert(files[i].path != f.path);
            }
        }
    }
}

proof fn lemma_note_state_distinct(lines: Seq<Seq<char>>)
    ensures
        distinct_paths(note_state(lines).files),
    decreases lines.len(),
{
    if lines.len() > 0 {
        lemma_note_state_distinct(lines.drop_last());
        let st = note_state(lines.drop_last());
        match line_file(lines.last()) {
            Some(f) => lemma_merge_keeps_paths_distinct(st.files, f),
            None => {},
        }
    }
}

/// A note yields at most one record per path: the records of a path's
/// lines are folded into one.
pub proof fn lemma_note_paths_distinct(message: Seq<char>)
    ensures
        distinct_paths(note_files(message)),
{
    lemma_note_state_distinct(split_on(message, '\n'));
}

proof fn lemma_headerless_state(lines: Seq<Seq<char>>)
    requires
        forall|k: int| 0 <= k < lines.len() ==> !has_header(#[trigger] lines[k]),
    ensures
        note_state(lines).version == Seq::<char>::empty(),
        note_state(lines).files == Seq::<FileView>::empty(),
    decreases lines.len(),
{
    if lines.len() > 0 {
        let d = lines.drop_last();
        assert forall|k: int| 0 <= k < d.len() implies !has_header(#[trigger] d[k]) by {
            assert(d[k] == lines[k]);
        }
        lemma_headerless_state(d);
        assert(!has_header(lines[lines.len() - 1]));
        assert(Seq::<char>::empty() != seq!['1']) by {
            assert(seq!['1'].len() == 1);
        }
    }
}

/// A note without any `[ver:N,total:T]` header describes no records:
/// lines count only inside a block that a header opens.
pub proof fn lemma_headerless_note_is_empty(message: Seq<char>)
    requires
        forall|k: int|
            0 <= k < split_on(message, '\n').len() ==> !has_header(#[trigger] split_on(message, '\n')[k]),
    ensures
        note_files(message) == Seq::<FileView>::empty(),
{
    lemma_headerless_state(split_on(message, '\n'));
}

/// The block version in force at line `k`: that of the last blank or header
/// line at or before it, empty where that line is blank or there is none,
/// and the header's first number where it is a header.
pub open spec fn block_version(lines: Seq<Seq<char>>, k: int) -> Seq<char>
    decreases k + 1,
{
    if k < 0 {
        Seq::empty()
    } else if is_blank(lines[k]) {
        Seq::empty()
    } else if has_header(lines[k]) {
        first_digit_run(lines[k])
    } else {
        block_version(lines, k - 1)
    }
}

/// The records of the accepted lines among the first `n` lines, in order:
/// a line is accepted where the block version in force is `1` and it
/// describes a record (three or more comma-separated groups).
pub open spec fn accepted_records(lines: Seq<Seq<char>>, n: int) -> Seq<FileView>
    decreases n,
{
    if n <= 0 {
        Seq::empty()
    } else {
        let prev = accepted_records(lines, n - 1);
        if block_version(lines, n - 1) == seq!['1'] && line_file(lines[n - 1]) is Some {
            prev.push(line_file(lines[n - 1])->0)
        } else {
            prev
        }
    }
}

/// The distinct paths of `recs`, in order of first occurrence.
pub open spec fn first_paths(recs: Seq<FileView>) -> Seq<Seq<char>>
    decreases recs.len(),
{
    if recs.len() == 0 {
        Seq::empty()
    } else {
        let prev = first_paths(recs.drop_last());
        if prev.contains(recs.last().path) {
            prev
        } else {
            prev.push(recs.last().path)
        }
    }
}

/// The sum of the totals of the records of `recs` with path `path`.
pub open spec fn path_total(recs: Seq<FileView>, path: Seq<char>) -> int
    decreases recs.len(),
{
    if recs.len() == 0 {
        0
    } else {
        path_total(recs.drop_last(), path) + if recs.last().path == path {
            recs.last().time_total
        } else {
            0
        }
    }
}

/// The records in order, each folded into the earlier ones as a note does.
pub open spec fn merge_all(recs: Seq<FileView>) -> Seq<FileView>
    decreases recs.len(),
{
    if recs.len() == 0 {
        Seq::empty()
    } else {
        merge_file(merge_all(recs.drop_last()), recs.last())
    }
}

proof fn lemma_fold_groups_no_lines(groups: Seq<Seq<char>>, k: int)
    ensures
        fold_groups(groups, k).added_lines == 0,
        fold_groups(groups, k).deleted_lines == 0,
    decreases k,
{
    if k > 0 {
        lemma_fold_groups_no_lines(groups, k - 1);
    }
}

/// The first record of `recs` with path `path`, if any.
pub open spec fn first_record(recs: Seq<FileView>, path: Seq<char>) -> Option<FileView>
    decreases recs.len(),
{
    if recs.len() == 0 {
        None
    } else {
        match first_record(recs.drop_last(), path) {
            Some(r) => Some(r),
            None => if recs.last().path == path {
                Some(recs.last())
            } else {
                None
            },
        }
    }
}

/// The timeline entries of the records of `recs` with path `path`, later
/// entries overriding earlier ones.
pub open spec fn path_timeline(recs: Seq<FileView>, path: Seq<char>) -> Map<i64, i32>
    decreases recs.len(),
{
    if recs.len() == 0 {
        Map::empty()
    } else {
        let prev = path_timeline(recs.drop_last(), path);
        if recs.last().path == path {
            prev.union_prefer_right(recs.last().timeline)
        } else {
            prev
        }
    }
}

proof fn lemma_absent_path_total(recs: Seq<FileView>, path: Seq<char>)
    requires
        !first_paths(recs).contains(path),
    ensures
        path_total(recs, path) == 0,
        first_record(recs, path) is None,
        path_timeline(recs, path) == Map::<i64, i32>::empty(),
    decreases recs.len(),
{
    if recs.len() > 0 {
        let prev = first_paths(recs.drop_last());
        if !prev.contains(recs.last().path) {
            assert(first_paths(recs) == prev.push(recs.last().path));
            assert(first_paths(recs)[prev.len() as int] == recs.last().path);
        }
        assert(!prev.contains(path)) by {
            if prev.contains(path) {
                let j = choose|j: int| 0 <= j < prev.len() && prev[j] == path;
                if !prev.contains(recs.last().path) {
                    assert(first_paths(recs)[j] == path);
                }
            }
        }
        lemma_absent_path_total(recs.drop_last(), path);
        if recs.last().path == path {
            if prev.contains(recs.last().path) {
            } else {
                assert(first_paths(recs)[prev.len() as int] == path);
            }
        }
    }
}

/// The facts that describe one folded record of `recs`.
pub open spec fn folded_record_of(recs: Seq<FileView>, g: FileView) -> bool {
    &&& g.time_total == path_total(recs, g.path)
    &&& g.timeline == path_timeline(recs, g.path)
    &&& first_record(recs, g.path) matches Some(fr) && g.status == fr.status
    &&& g.added_lines == 0
    &&& g.deleted_lines == 0
}

/// What folding records in order gives: one record per path, in order of
/// first occurrence, each with the sum of that path's totals, the union of
/// its timelines and the status of its first record.
proof fn lemma_merge_all(recs: Seq<FileView>)
    requires
        forall|i: int| 0 <= i < recs.len() ==> (#[trigger] recs[i]).added_lines == 0 && recs[i].deleted_lines == 0,
    ensures
        merge_all(recs).len() == first_paths(recs).len(),
        forall|i: int|
            0 <= i < merge_all(recs).len() ==> {
                &&& (#[trigger] merge_all(recs)[i]).path == first_paths(recs)[i]
                &&& folded_record_of(recs, merge_all(recs)[i])
            },
    decreases recs.len(),
{
    if recs.len() > 0 {
        let d = recs.drop_last();
        let f = recs.last();
        assert forall|i: int| 0 <= i < d.len() implies (#[trigger] d[i]).added_lines == 0 && d[i].deleted_lines == 0 by {
            assert(d[i] == recs[i]);
        }
        lemma_merge_all(d);
        let m = merge_all(d);
        let fp = first_paths(d);
        let r = merge_all(recs);
        assert(recs.last().added_lines == 0 && recs.last().deleted_lines == 0) by {
            assert(recs[recs.len() - 1] == f);
        }
        if exists|j: int| 0 <= j < m.len() && (#[trigger] m[j]).path == f.path {
            let j = choose|j: int| 0 <= j < m.len() && (#[trigger] m[j]).path == f.path;
            assert(fp[j] == f.path);
            assert(fp.contains(f.path));
            assert(first_paths(recs) == fp);
            let upd = |g: FileView| if g.path == f.path { combine(g, f) } else { g };
            assert(r == m.map_values(upd));
            assert forall|i: int| 0 <= i < r.len() implies (#[trigger] r[i]).path == first_paths(recs)[i]
                && folded_record_of(recs, r[i]) by {
                assert(folded_record_of(d, m[i]));
                assert(r[i] == upd(m[i]));
                if m[i].path == f.path {
                    assert(r[i].timeline =~= path_timeline(recs, r[i].path));
                }
            }
        } else {
            assert(!fp.contains(f.path)) by {
                if fp.contains(f.path) {
                    let j = choose|j: int| 0 <= j < fp.len() && fp[j] == f.path;
                    assert(m[j].path == fp[j]);
                }
            }
            lemma_absent_path_total(d, f.path);
            assert(r == m.push(f));
            assert forall|i: int| 0 <= i < r.len() implies (#[trigger] r[i]).path == first_paths(recs)[i]
                && folded_record_of(recs, r[i]) by {
                if i < m.len() {
                    assert(r[i] == m[i]);
                    assert(folded_record_of(d, m[i]));
                    assert(m[i].path != f.path);
                } else {
                    assert(r[i] == f);
                    assert(path_timeline(recs, f.path) =~= f.timeline);
                }
            }
        }
    }
}

proof fn lemma_note_state_records(lines: Seq<Seq<char>>, n: int)
    requires
        0 <= n <= lines.len(),
    ensures
        note_state(lines.take(n)).version == block_version(lines, n - 1),
        note_state(lines.take(n)).files == merge_all(accepted_records(lines, n)),
    decreases n,
{
    if n == 0 {
        assert(lines.take(0) =~= Seq::<Seq<char>>::empty());
    } else {
        lemma_note_state_records(lines, n - 1);
        assert(lines.take(n).drop_last() =~= lines.take(n - 1));
        assert(lines.take(n).last() == lines[n - 1]);
        let acc = accepted_records(lines, n - 1);
        if block_version(lines, n - 1) == seq!['1'] && line_file(lines[n - 1]) is Some {
            assert(accepted_records(lines, n) == acc.push(line_file(lines[n - 1])->0));
            assert(acc.push(line_file(lines[n - 1])->0).drop_last() =~= acc);
        }
    }
}

/// The records of a note, path by path: one record for each distinct path
/// of the accepted lines, in order of first occurrence. Each keeps what the
/// first accepted line of its path gave (path and status), its total is the
/// sum of the totals of that path's lines, its timeline holds the entries of
/// those lines (later ones overriding earlier ones), and its line counts
/// are 0.
pub proof fn lemma_note_records_per_path(message: Seq<char>)
    ensures
        ({
            let lines = split_on(message, '\n');
            let recs = accepted_records(lines, lines.len() as int);
            let fs = note_files(message);
            &&& fs.len() == first_paths(recs).len()
            &&& forall|i: int|
                0 <= i < fs.len() ==> {
                    &&& (#[trigger] fs[i]).path == first_paths(recs)[i]
                    &&& fs[i].time_total == path_total(recs, fs[i].path)
                    &&& fs[i].timeline == path_timeline(recs, fs[i].path)
                    &&& first_record(recs, fs[i].path) matches Some(fr) && fs[i].status == fr.status
                    &&& fs[i].added_lines == 0
                    &&& fs[i].deleted_lines == 0
                }
        }),
{
    let lines = split_on(message, '\n');
    let n = lines.len() as int;
    lemma_note_state_records(lines, n);
    assert(lines.take(n) =~= lines);
    lemma_accepted_have_no_lines(lines, n);
    lemma_merge_all(accepted_records(lines, n));
}

proof fn lemma_accepted_have_no_lines(lines: Seq<Seq<char>>, n: int)
    ensures
        forall|i: int|
            0 <= i < accepted_records(lines, n).len() ==> (#[trigger] accepted_records(lines, n)[i]).added_lines
                == 0 && accepted_records(lines, n)[i].deleted_lines == 0,
    decreases n,
{
    if n > 0 {
        lemma_accepted_have_no_lines(lines, n - 1);
        let prev = accepted_records(lines, n - 1);
        if block_version(lines, n - 1) == seq!['1'] && line_file(lines[n - 1]) is Some {
            let groups = split_on(lines[n - 1], ',');
            lemma_fold_groups_no_lines(groups, groups.len() as int);
            assert forall|i: int| 0 <= i < accepted_records(lines, n).len() implies (
            #[trigger] accepted_records(lines, n)[i]).added_lines == 0
                && accepted_records(lines, n)[i].deleted_lines == 0 by {
                if i < prev.len() {
                    assert(accepted_records(lines, n)[i] == prev[i]);
                }
            }
        }
    }
}

/// Reads a note message; `None` where a running total leaves the signed
/// 64-bit range.
fn read_note(message: &str) -> (r: Option<Vec<File>>)
    ensures
        match r {
            Some(files) => note_fits(message@) && file_views(files@) == note_files(message@),
            None => !note_fits(message@),
        },
{
    let lines = split_chars(&chars_of(message), '\n');
    let ghost lv = views(lines@);
    let mut version: Vec<char> = Vec::new();
    let mut files: Vec<File> = Vec::new();
    let mut k: usize = 0;
    assert(lv.take(0) =~= Seq::<Seq<char>>::empty());
    assert(file_views(files@) =~= Seq::<FileView>::empty());
    while k < lines.len()
        invariant
            lv == views(lines@),
            lv == split_on(message@, '\n'),
            k <= lines.len(),
            note_state(lv.take(k as int)) == (NoteState { version: version@, files: file_views(files@) }),
            forall|k2: int| 0 <= k2 <= k ==> #[trigger] totals_fit(note_state(lv.take(k2)).files),
        decreases lines.len() - k,
    {
        let line = &lines[k];
        assert(lv[k as int] == line@);
        assert(lv.take(k + 1).drop_last() =~= lv.take(k as int));
        if blank_line(line) {
            version = Vec::new();
        } else if line_has_header(line) {
            version = first_digits(line);
        }
        assert(version@ == next_version(note_state(lv.take(k as int)).version, line@));
        if version.len() == 1 && version[0] == '1' {
            assert(version@ =~= seq!['1']);
            match parse_line(line) {
                Some((file, entries)) => {
                    match merge_into(files, file, &entries) {
                        Some(merged) => {
                            files = merged;
                        },
                        None => {
                            assert(!totals_fit(note_state(lv.take(k + 1)).files));
                            return None;
                        },
                    }
                },
                None => {},
            }
        } else {
            assert(version@ != seq!['1']);
        }
        assert(note_state(lv.take(k + 1)) == (NoteState { version: version@, files: file_views(files@) }));
        assert(totals_fit(file_views(files@))) by {
            assert forall|j: int| 0 <= j < file_views(files@).len() implies i64::MIN <= (
            #[trigger] file_views(files@)[j]).time_total <= i64::MAX by {
                assert(file_views(files@)[j] == files@[j]@);
            }
        }
        k = k + 1;
    }
    assert(lv.take(lines.len() as int) =~= lv);
    Some(files)
}


/// The files that a gtm note message records. Every note parses: the
/// result is always `Some`.
pub fn parse_note_message(message: &str) -> (r: Option<Vec<File>>)
    requires
        note_fits(message@),
    ensures
        r matches Some(files) && file_views(files@) == note_files(message@),
{
    read_note(message)
}

/// Whether reading `message` keeps every running total within the signed
/// 64-bit range, which `parse_note_message` requires.
pub fn note_message_fits(message: &str) -> (b: bool)
    ensures
        b == note_fits(message@),
{
    read_note(message).is_some()
}

/// The files of one note, as a commit collects them: the parsed records,
/// or none where the note yields none.
pub fn note_files_of(message: &str) -> (r: Vec<File>)
    requires
        note_fits(message@),
    ensures
        file_views(r@) == note_files(message@),
{
    match parse_note_message(message) {
        Some(files) => files,
        None => Vec::new(),
    }
}

/// Reads a note message where it can be read: the records of
/// `parse_note_message` where every running total fits in a signed 64-bit
/// integer, `None` otherwise.
pub fn parse_note_message_checked(message: &str) -> (r: Option<Vec<File>>)
    ensures
        r is None <==> !note_fits(message@),
        r matches Some(fs) ==> file_views(fs@) == note_files(message@),
{
    if note_message_fits(message) {
        parse_note_message(message)
    } else {
        None
    }
}

/// The concatenation of the file batches.
pub open spec fn concat_batches(batches: Seq<Seq<FileView>>) -> Seq<FileView>
    decreases batches.len(),
{
    if batches.len() == 0 {
        Seq::empty()
    } else {
        concat_batches(batches.drop_last()) + batches.last()
    }
}

/// Views of a sequence of file batches.
pub open spec fn batch_views(bs: Seq<Vec<File>>) -> Seq<Seq<FileView>> {
    bs.map_values(|b: Vec<File>| file_views(b@))
}

/// A commit with the file records of its notes, one batch per note, in
/// order.
pub fn parse_commit(hash: String, author_email: String, message: String, time: i64, batches: Vec<Vec<File>>) -> (c: Commit)
    ensures
        c.hash == hash,
        c.author_email == author_email,
        c.message == message,
        c.time == time,
        file_views(c.files@) == concat_batches(batch_views(batches@)),
{
    let ghost bv = batch_views(batches@);
    let n = batches.len();
    let mut rest = batches;
    let mut files: Vec<File> = Vec::new();
    let mut k: usize = 0;
    assert(bv.take(0) =~= Seq::<Seq<FileView>>::empty());
    assert(batch_views(rest@) =~= bv.skip(0));
    while k < n
        invariant
            n == bv.len(),
            k <= n,
            batch_views(rest@) == bv.skip(k as int),
            file_views(files@) == concat_batches(bv.take(k as int)),
        decreases n - k,
    {
        assert(batch_views(rest@).len() == rest@.len());
        assert(batch_views(rest@)[0] == bv[k as int]);
        let ghost before = files@;
        let ghost old_rest = rest@;
        let mut batch = rest.remove(0);
        assert(rest@ =~= old_rest.subrange(1, old_rest.len() as int));
        assert(batch_views(rest@) =~= bv.skip(k + 1)) by {
            assert forall|j: int| 0 <= j < rest@.len() implies batch_views(rest@)[j] == bv.skip(
                k + 1,
            )[j] by {
                assert(batch_views(old_rest)[j + 1] == bv.skip(k as int)[j + 1]);
            }
        }
        let ghost b = batch@;
        assert(file_views(b) == bv[k as int]);
        files.append(&mut batch);
        assert(bv.take(k + 1).drop_last() =~= bv.take(k as int));
        assert(file_views(files@) =~= file_views(before) + file_views(b));
        k = k + 1;
    }
    assert(bv.take(n as int) =~= bv);
    Commit { hash, author_email, message, time, files }
}


/// Integer division rounding toward zero, as Rust's `/` on integers.
pub open spec fn trunc_div(a: int, b: int) -> int {
    if a >= 0 { a / b } else { -((-a) / b) }
}

/// The remainder of `trunc_div`, with the sign of `a`, as Rust's `%`.
pub open spec fn trunc_rem(a: int, b: int) -> int {
    a - b * trunc_div(a, b)
}

/// How a file record is displayed:
/// `{:>2}h{:>3}m{:>3}s : {:<45} +{:<4} - {:<4} {}` with the hours, minutes
/// and seconds of the total, the path, the added and deleted lines and the
/// status.
pub open spec fn file_line(f: FileView) -> Seq<char> {
    let t = f.time_total;
    pad_left(int_decimal(trunc_div(t, 3600)), 2) + "h"@ + pad_left(
        int_decimal(trunc_div(trunc_rem(t, 3600), 60)),
        3,
    ) + "m"@ + pad_left(int_decimal(trunc_rem(t, 60)), 3) + "s : "@ + pad_right(f.path, 45) + " +"@
        + pad_right(int_decimal(f.added_lines), 4) + " - "@ + pad_right(int_decimal(f.deleted_lines), 4)
        + " "@ + f.status
}

/// The signed value with magnitude `m` and the sign of `neg`.
fn signed(neg: bool, m: u64) -> (r: i64)
    requires
        m <= i64::MAX,
    ensures
        r == (if neg { -(m as int) } else { m as int }),
{
    if neg { -(m as i64) } else { m as i64 }
}

proof fn lemma_time_parts(t: int, u: int)
    requires
        u == if t < 0 { -t } else { t },
    ensures
        trunc_div(t, 3600) == (if t < 0 { -(u / 3600) } else { u / 3600 }),
        trunc_div(trunc_rem(t, 3600), 60) == (if t < 0 { -((u % 3600) / 60) } else { (u % 3600) / 60 }),
        trunc_rem(t, 60) == (if t < 0 { -(u % 60) } else { u % 60 }),
{
    assert(u == 3600 * (u / 3600) + u % 3600) by (nonlinear_arith)
        requires u >= 0;
    assert(u == 60 * (u / 60) + u % 60) by (nonlinear_arith)
        requires u >= 0;
    assert(0 <= u % 3600 < 3600) by (nonlinear_arith)
        requires u >= 0;
    if t < 0 {
        let r = u % 3600;
        assert(trunc_rem(t, 3600) == -r);
        if r == 0 {
            assert(trunc_div(-r, 60) == 0);
            assert(r / 60 == 0);
        } else {
            assert(trunc_div(-r, 60) == -(r / 60));
        }
    }
}

impl File {
    /// Whether the line counts of this record are measured: records of app
    /// events (paths ending in `.app`) are not.
    pub fn is_diff_target(&self) -> (b: bool)
        ensures
            b == !ends_with(self.path@, ".app"@),
    {
        !ends_with_chars(&chars_of(self.path.as_str()), &chars_of(".app"))
    }

    /// Records the lines a diff inserted and deleted in this file, each
    /// narrowed to 32 bits as `as i32` narrows it.
    pub fn set_line_stats(&mut self, insertions: usize, deletions: usize)
        ensures
            final(self).added_lines == insertions as i32,
            final(self).deleted_lines == deletions as i32,
            final(self).path == old(self).path,
            final(self).time_total == old(self).time_total,
            final(self).timeline == old(self).timeline,
            final(self).status == old(self).status,
    {
        self.added_lines = insertions as i32;
        self.deleted_lines = deletions as i32;
    }

    /// How the record is displayed (see `file_line`).
    pub fn to_display_string(&self) -> (r: String)
        ensures
            r@ == file_line(self@),
    {
        let t = self.time_total;
        let neg = t < 0;
        let u: u64 = if neg { (-(t as i128)) as u64 } else { t as u64 };
        proof {
            lemma_time_parts(t as int, u as int);
        }
        let hours = signed(neg, u / 3600);
        let minutes = signed(neg, (u % 3600) / 60);
        let seconds = signed(neg, u % 60);
        let mut v = padded_left(&format_i64(hours), 2);
        append_str(&mut v, "h");
        extend_chars(&mut v, &padded_left(&format_i64(minutes), 3));
        append_str(&mut v, "m");
        extend_chars(&mut v, &padded_left(&format_i64(seconds), 3));
        append_str(&mut v, "s : ");
        extend_chars(&mut v, &padded_right(&chars_of(self.path.as_str()), 45));
        append_str(&mut v, " +");
        extend_chars(&mut v, &padded_right(&format_i64(self.added_lines as i64), 4));
        append_str(&mut v, " - ");
        extend_chars(&mut v, &padded_right(&format_i64(self.deleted_lines as i64), 4));
        append_str(&mut v, " ");
        extend_chars(&mut v, &chars_of(self.status.as_str()));
        string_of(&v)
    }
}


/// Each record's display line followed by a newline.
pub open spec fn files_text(fs: Seq<FileView>) -> Seq<char>
    decreases fs.len(),
{
    if fs.len() == 0 {
        Seq::empty()
    } else {
        files_text(fs.drop_last()) + file_line(fs.last()) + "\n"@
    }
}

/// How a commit is displayed: its hash, author, time and message on lines
/// of their own, then a line per file record.
pub open spec fn commit_text(
    hash: Seq<char>,
    author_email: Seq<char>,
    message: Seq<char>,
    time: int,
    files: Seq<FileView>,
) -> Seq<char> {
    "Commit: "@ + hash + "\n"@ + "Author: "@ + author_email + "\n"@ + "Time "@ + int_decimal(time)
        + "\n"@ + message + "\n"@ + files_text(files)
}

impl Commit {
    /// How the commit is displayed (see `commit_text`).
    pub fn to_display_string(&self) -> (r: String)
        ensures
            r@ == commit_text(
                self.hash@,
                self.author_email@,
                self.message@,
                self.time as int,
                file_views(self.files@),
            ),
    {
        let mut v: Vec<char> = Vec::new();
        append_str(&mut v, "Commit: ");
        append_str(&mut v, self.hash.as_str());
        append_str(&mut v, "\n");
        append_str(&mut v, "Author: ");
        append_str(&mut v, self.author_email.as_str());
        append_str(&mut v, "\n");
        append_str(&mut v, "Time ");
        extend_chars(&mut v, &format_i64(self.time));
        append_str(&mut v, "\n");
        append_str(&mut v, self.message.as_str());
        append_str(&mut v, "\n");
        let ghost head = v@;
        assert(head + files_text(Seq::<FileView>::empty()) =~= head);
        let ghost fv = file_views(self.files@);
        let mut k: usize = 0;
        while k < self.files.len()
            invariant
                k <= self.files.len(),
                fv == file_views(self.files@),
                v@ == head + files_text(fv.take(k as int)),
            decreases self.files.len() - k,
        {
            let line = self.files[k].to_display_string();
            append_str(&mut v, line.as_str());
            append_str(&mut v, "\n");
            assert(fv.take(k + 1).drop_last() =~= fv.take(k as int));
            assert(fv[k as int] == self.files@[k as int]@);
            assert(v@ =~= head + files_text(fv.take(k + 1)));
            k = k + 1;
        }
        assert(fv.take(self.files.len() as int) =~= fv);
        assert(head + files_text(fv) == commit_text(
            self.hash@,
            self.author_email@,
            self.message@,
            self.time as int,
            fv,
        ));
        string_of(&v)
    }
}

} // verus!
