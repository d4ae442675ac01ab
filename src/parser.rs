//! Unified-diff parser: raw diff text in, ordered changeset out.
//!
//! The parse is specified line by line over `lines_of(text)`: `files_from`
//! walks file sections, `header_from` the metadata before the first hunk,
//! `body_hunks` the hunks of one file and `hunk_lines_from` one hunk body.

use vstd::prelude::*;

use crate::model::{
    file_views, hunk_views, line_views, DiffFile, DiffHunk, DiffLine, FileStatus, FileView, HunkView,
    LineOrigin, LineView, TuicrError, opt_view,
};
use crate::text::{
    chars_of, equals_str, find_char, find_char_from, has_prefix, lines_of, matches_at, occurs_at,
    parse_u32, parse_u32_spec, slice_chars, split_lines, split_whitespace, starts_with, strip_all,
    strip_all_prefixes, string_from_chars, views, words,
};

verus! {

/// Metadata gathered while reading a file header.
pub struct HeaderState {
    pub old_path: Option<Seq<char>>,
    pub new_path: Option<Seq<char>>,
    pub status: FileStatus,
}

pub open spec fn initial_header() -> HeaderState {
    HeaderState { old_path: None, new_path: None, status: FileStatus::Modified }
}

/// The path named on a `---`/`+++` line; `/dev/null` leaves the previous value.
pub open spec fn path_from(line: Seq<char>, marker: Seq<char>, side: Seq<char>, prev: Option<
    Seq<char>,
>) -> Option<Seq<char>> {
    let p = strip_all(strip_all(line, marker), side);
    if p == "/dev/null"@ {
        prev
    } else {
        Some(p)
    }
}

/// The `Binary files ... differ` line that stands for a binary file's hunks.
pub open spec fn is_binary_marker(l: Seq<char>) -> bool {
    starts_with(l, "Binary files"@)
}

/// A line that ends a file header without being consumed by it.
pub open spec fn stops_header(l: Seq<char>) -> bool {
    starts_with(l, "@@"@) || starts_with(l, "diff "@) || is_binary_marker(l)
}

/// Reads header lines from `p`; returns the index after the header and what it held.
pub open spec fn header_from(ls: Seq<Seq<char>>, p: int, st: HeaderState) -> (int, HeaderState)
    decreases ls.len() - p,
{
    if p < 0 || p >= ls.len() {
        (p, st)
    } else {
        let l = ls[p];
        if starts_with(l, "---"@) {
            header_from(
                ls,
                p + 1,
                HeaderState {
                    old_path: path_from(l, "--- "@, "a/"@, st.old_path),
                    new_path: st.new_path,
                    status: st.status,
                },
            )
        } else if starts_with(l, "+++"@) {
            (
                p + 1,
                HeaderState {
                    old_path: st.old_path,
                    new_path: path_from(l, "+++ "@, "b/"@, st.new_path),
                    status: st.status,
                },
            )
        } else if starts_with(l, "new file"@) {
            header_from(
                ls,
                p + 1,
                HeaderState { old_path: st.old_path, new_path: st.new_path, status: FileStatus::Added },
            )
        } else if starts_with(l, "deleted file"@) {
            header_from(
                ls,
                p + 1,
                HeaderState {
                    old_path: st.old_path,
                    new_path: st.new_path,
                    status: FileStatus::Deleted,
                },
            )
        } else if starts_with(l, "rename from"@) {
            header_from(
                ls,
                p + 1,
                HeaderState {
                    old_path: st.old_path,
                    new_path: st.new_path,
                    status: FileStatus::Renamed,
                },
            )
        } else if starts_with(l, "copy from"@) {
            header_from(
                ls,
                p + 1,
                HeaderState {
                    old_path: st.old_path,
                    new_path: st.new_path,
                    status: FileStatus::Copied,
                },
            )
        } else if stops_header(l) {
            (p, st)
        } else {
            header_from(ls, p + 1, st)
        }
    }
}

/// Status from path presence, used when the header carried no marker.
pub open spec fn status_from_paths(old_path: Option<Seq<char>>, new_path: Option<Seq<char>>) -> FileStatus {
    if old_path is None && new_path is Some {
        FileStatus::Added
    } else if old_path is Some && new_path is None {
        FileStatus::Deleted
    } else {
        FileStatus::Modified
    }
}

pub open spec fn final_status(st: HeaderState) -> FileStatus {
    if st.status == FileStatus::Modified {
        status_from_paths(st.old_path, st.new_path)
    } else {
        st.status
    }
}

/// `start,count` or `start`; an unreadable number reads as 1, a missing count is 1.
pub open spec fn range_spec(s: Seq<char>) -> (u32, u32) {
    let c = find_char(s, ',', 0);
    if c < s.len() {
        (
            or_one(parse_u32_spec(s.subrange(0, c))),
            or_one(parse_u32_spec(s.subrange(c + 1, s.len() as int))),
        )
    } else {
        (or_one(parse_u32_spec(s)), 1)
    }
}

pub open spec fn or_one(o: Option<u32>) -> u32 {
    match o {
        Some(v) => v,
        None => 1,
    }
}

/// `@@ -oldStart[,oldCount] +newStart[,newCount] @@ ...`, read by whitespace-separated words.
pub open spec fn hunk_header_spec(line: Seq<char>) -> Option<(u32, u32, u32, u32)> {
    let parts = words(line);
    if parts.len() < 3 || parts[0] != "@@"@ {
        None
    } else {
        let (os, oc) = range_spec(strip_all(parts[1], "-"@));
        let (ns, nc) = range_spec(strip_all(parts[2], "+"@));
        Some((os, oc, ns, nc))
    }
}

/// A line that ends a hunk body.
pub open spec fn ends_hunk(l: Seq<char>) -> bool {
    starts_with(l, "@@"@) || starts_with(l, "diff "@)
}

/// What a hunk body line contributes, if anything: its origin and content.
pub open spec fn body_line(l: Seq<char>) -> Option<(LineOrigin, Seq<char>)> {
    if l.len() == 0 {
        Some((LineOrigin::Context, Seq::empty()))
    } else if l[0] == '+' {
        Some((LineOrigin::Addition, l.drop_first()))
    } else if l[0] == '-' {
        Some((LineOrigin::Deletion, l.drop_first()))
    } else if l[0] == ' ' {
        Some((LineOrigin::Context, l.drop_first()))
    } else {
        None
    }
}

pub open spec fn on_old_side(o: LineOrigin) -> bool {
    o != LineOrigin::Addition
}

pub open spec fn on_new_side(o: LineOrigin) -> bool {
    o != LineOrigin::Deletion
}

/// The numbered lines of a hunk body from `q`, the next old/new numbers being
/// `o` and `n`. A line whose number would not fit in `u32` is skipped.
pub open spec fn hunk_lines_from(ls: Seq<Seq<char>>, q: int, o: int, n: int) -> Seq<LineView>
    decreases ls.len() - q,
{
    if q < 0 || q >= ls.len() || ends_hunk(ls[q]) {
        seq![]
    } else {
        match body_line(ls[q]) {
            None => hunk_lines_from(ls, q + 1, o, n),
            Some((origin, content)) => {
                if (on_old_side(origin) && o > u32::MAX) || (on_new_side(origin) && n
                    > u32::MAX) {
                    hunk_lines_from(ls, q + 1, o, n)
                } else {
                    seq![
                        LineView {
                            origin,
                            content,
                            old_lineno: if on_old_side(origin) {
                                Some(o as u32)
                            } else {
                                None
                            },
                            new_lineno: if on_new_side(origin) {
                                Some(n as u32)
                            } else {
                                None
                            },
                        },
                    ] + hunk_lines_from(
                        ls,
                        q + 1,
                        if on_old_side(origin) {
                            o + 1
                        } else {
                            o
                        },
                        if on_new_side(origin) {
                            n + 1
                        } else {
                            n
                        },
                    )
                }
            },
        }
    }
}

/// Index of the first line at or after `q` that ends a hunk body, or the line count.
pub open spec fn hunk_end(ls: Seq<Seq<char>>, q: int) -> int
    decreases ls.len() - q,
{
    if q < 0 || q >= ls.len() || ends_hunk(ls[q]) {
        q
    } else {
        hunk_end(ls, q + 1)
    }
}

/// Index of the first line at or after `q` that starts a new file section, or the line count.
pub open spec fn file_end(ls: Seq<Seq<char>>, q: int) -> int
    decreases ls.len() - q,
{
    if q < 0 || q >= ls.len() || starts_with(ls[q], "diff "@) {
        q
    } else {
        file_end(ls, q + 1)
    }
}

/// The hunk whose header is line `p`.
pub open spec fn hunk_at(ls: Seq<Seq<char>>, p: int, h: (u32, u32, u32, u32)) -> HunkView {
    HunkView {
        header: ls[p],
        lines: hunk_lines_from(ls, p + 1, h.0 as int, h.2 as int),
        old_start: h.0,
        old_count: h.1,
        new_start: h.2,
        new_count: h.3,
    }
}

/// The hunks of one file section, reading from line `p`.
pub open spec fn body_hunks(ls: Seq<Seq<char>>, p: int) -> Seq<HunkView>
    decreases ls.len() - p,
{
    if p < 0 || p >= ls.len() || starts_with(ls[p], "diff "@) {
        seq![]
    } else if starts_with(ls[p], "@@"@) {
        match hunk_header_spec(ls[p]) {
            None => body_hunks(ls, p + 1),
            Some(h) => {
                let e = hunk_end(ls, p + 1);
                if p < e <= ls.len() {
                    seq![hunk_at(ls, p, h)] + body_hunks(ls, e)
                } else {
                    seq![]
                }
            },
        }
    } else {
        body_hunks(ls, p + 1)
    }
}

/// Index of the first occurrence of `p` in `s` at or after `i`, or the length of `s`.
pub open spec fn find_from(s: Seq<char>, p: Seq<char>, i: int) -> int
    decreases s.len() + 1 - i,
{
    if i < 0 || i + p.len() > s.len() {
        s.len() as int
    } else if occurs_at(s, p, i) {
        i
    } else {
        find_from(s, p, i + 1)
    }
}

/// The old and new paths named by a `diff --git a/<old> b/<new>` line; when
/// the line does not have that shape, its whole text after `diff --git ` for both.
pub open spec fn section_paths(l: Seq<char>) -> (Seq<char>, Seq<char>) {
    let rest = l.subrange("diff --git "@.len() as int, l.len() as int);
    let k = find_from(rest, " b/"@, 2);
    if starts_with(rest, "a/"@) && k < rest.len() {
        (rest.subrange(2, k), rest.subrange(k + 3, rest.len() as int))
    } else {
        (rest, rest)
    }
}

/// The paths of a file section: those of its `---`/`+++` lines, or, when it
/// has neither, those of its `diff --git` line.
pub open spec fn file_paths(l: Seq<char>, st: HeaderState) -> (Option<Seq<char>>, Option<Seq<char>>) {
    if st.old_path is None && st.new_path is None {
        (Some(section_paths(l).0), Some(section_paths(l).1))
    } else {
        (st.old_path, st.new_path)
    }
}

/// The files described from line `i` on.
pub open spec fn files_from(ls: Seq<Seq<char>>, i: int) -> Seq<FileView>
    decreases ls.len() - i,
{
    if i < 0 || i >= ls.len() {
        seq![]
    } else if starts_with(ls[i], "diff --git "@) {
        let (j, st) = header_from(ls, i + 1, initial_header());
        if !(i < j <= ls.len()) {
            seq![]
        } else if j < ls.len() && is_binary_marker(ls[j]) {
            seq![
                FileView {
                    old_path: file_paths(ls[i], st).0,
                    new_path: file_paths(ls[i], st).1,
                    status: final_status(st),
                    hunks: seq![],
                    is_binary: true,
                },
            ] + files_from(ls, j + 1)
        } else {
            let k = file_end(ls, j);
            if j <= k <= ls.len() {
                seq![
                    FileView {
                        old_path: file_paths(ls[i], st).0,
                        new_path: file_paths(ls[i], st).1,
                        status: final_status(st),
                        hunks: body_hunks(ls, j),
                        is_binary: false,
                    },
                ] + files_from(ls, k)
            } else {
                seq![]
            }
        }
    } else {
        files_from(ls, i + 1)
    }
}

/// The changeset that `text` describes.
pub open spec fn parse_files(text: Seq<char>) -> Seq<FileView> {
    files_from(lines_of(text), 0)
}

pub proof fn lemma_header_bounds(ls: Seq<Seq<char>>, p: int, st: HeaderState)
    requires
        0 <= p <= ls.len(),
    ensures
        p <= header_from(ls, p, st).0 <= ls.len(),
    decreases ls.len() - p,
{
    if p < ls.len() {
        let l = ls[p];
        if starts_with(l, "---"@) {
            lemma_header_bounds(
                ls,
                p + 1,
                HeaderState {
                    old_path: path_from(l, "--- "@, "a/"@, st.old_path),
                    new_path: st.new_path,
                    status: st.status,
                },
            );
        } else if starts_with(l, "+++"@) {
        } else if starts_with(l, "new file"@) {
            lemma_header_bounds(
                ls,
                p + 1,
                HeaderState { old_path: st.old_path, new_path: st.new_path, status: FileStatus::Added },
            );
        } else if starts_with(l, "deleted file"@) {
            lemma_header_bounds(
                ls,
                p + 1,
                HeaderState {
                    old_path: st.old_path,
                    new_path: st.new_path,
                    status: FileStatus::Deleted,
                },
            );
        } else if starts_with(l, "rename from"@) {
            lemma_header_bounds(
                ls,
                p + 1,
                HeaderState {
                    old_path: st.old_path,
                    new_path: st.new_path,
                    status: FileStatus::Renamed,
                },
            );
        } else if starts_with(l, "copy from"@) {
            lemma_header_bounds(
                ls,
                p + 1,
                HeaderState {
                    old_path: st.old_path,
                    new_path: st.new_path,
                    status: FileStatus::Copied,
                },
            );
        } else if stops_header(l) {
        } else {
            lemma_header_bounds(ls, p + 1, st);
        }
    }
}

pub proof fn lemma_hunk_end_bounds(ls: Seq<Seq<char>>, q: int)
    requires
        0 <= q <= ls.len(),
    ensures
        q <= hunk_end(ls, q) <= ls.len(),
    decreases ls.len() - q,
{
    if q < ls.len() && !ends_hunk(ls[q]) {
        lemma_hunk_end_bounds(ls, q + 1);
    }
}

/// Lines inside a hunk body never start a file section.
pub proof fn lemma_file_end_skip(ls: Seq<Seq<char>>, q: int)
    requires
        0 <= q <= ls.len(),
    ensures
        file_end(ls, q) == file_end(ls, hunk_end(ls, q)),
    decreases ls.len() - q,
{
    if q < ls.len() && !ends_hunk(ls[q]) {
        lemma_file_end_skip(ls, q + 1);
    }
}

pub proof fn lemma_hunk_header_not_diff(l: Seq<char>)
    requires
        starts_with(l, "@@"@),
    ensures
        !starts_with(l, "diff "@),
{
    reveal_strlit("@@");
    reveal_strlit("diff ");
    assert(l.subrange(0, 2)[0] == '@');
    if starts_with(l, "diff "@) {
        assert(l.subrange(0, 5)[0] == 'd');
    }
}

pub proof fn lemma_line_views_push(v: Seq<DiffLine>, x: DiffLine)
    ensures
        line_views(v.push(x)) == line_views(v).push(x@),
{
    assert(line_views(v.push(x)) =~= line_views(v).push(x@));
}

pub proof fn lemma_hunk_views_push(v: Seq<DiffHunk>, x: DiffHunk)
    ensures
        hunk_views(v.push(x)) == hunk_views(v).push(x@),
{
    assert(hunk_views(v.push(x)) =~= hunk_views(v).push(x@));
}

pub proof fn lemma_file_views_push(v: Seq<DiffFile>, x: DiffFile)
    ensures
        file_views(v.push(x)) == file_views(v).push(x@),
{
    assert(file_views(v.push(x)) =~= file_views(v).push(x@));
}

fn or_one_exec(o: Option<u32>) -> (r: u32)
    ensures
        r == or_one(o),
{
    match o {
        Some(v) => v,
        None => 1,
    }
}

/// Reads `start[,count]`: see `range_spec`.
pub fn parse_range(s: &Vec<char>) -> (r: (u32, u32))
    ensures
        r == range_spec(s@),
{
    let c = find_char_from(s, ',', 0);
    if c < s.len() {
        let start = slice_chars(s, 0, c);
        let count = slice_chars(s, c + 1, s.len());
        (or_one_exec(parse_u32(&start)), or_one_exec(parse_u32(&count)))
    } else {
        (or_one_exec(parse_u32(s)), 1)
    }
}

/// Reads a hunk header given as characters: see `hunk_header_spec`.
pub fn parse_hunk_header_chars(line: &Vec<char>) -> (r: Option<(u32, u32, u32, u32)>)
    ensures
        r == hunk_header_spec(line@),
{
    let parts = split_whitespace(line);
    assert(views(parts@).len() == parts@.len());
    if parts.len() < 3 {
        return None;
    }
    assert(views(parts@)[0] == parts@[0]@);
    assert(views(parts@)[1] == parts@[1]@);
    assert(views(parts@)[2] == parts@[2]@);
    if !equals_str(&parts[0], "@@") {
        return None;
    }
    let old_part = strip_all_prefixes(&parts[1], "-");
    let new_part = strip_all_prefixes(&parts[2], "+");
    let (old_start, old_count) = parse_range(&old_part);
    let (new_start, new_count) = parse_range(&new_part);
    Some((old_start, old_count, new_start, new_count))
}

/// Reads a hunk header line `@@ -o[,oc] +n[,nc] @@`, returning
/// `(old_start, old_count, new_start, new_count)`; a missing count is 1.
pub fn parse_hunk_header(line: &str) -> (r: Option<(u32, u32, u32, u32)>)
    ensures
        r == hunk_header_spec(line@),
{
    let chars = chars_of(line);
    parse_hunk_header_chars(&chars)
}

fn path_of(line: &Vec<char>, marker: &str, side: &str, prev: Option<String>) -> (r: Option<String>)
    ensures
        opt_view(r) == path_from(line@, marker@, side@, opt_view(prev)),
{
    let a = strip_all_prefixes(line, marker);
    let p = strip_all_prefixes(&a, side);
    if equals_str(&p, "/dev/null") {
        prev
    } else {
        Some(string_from_chars(&p))
    }
}

fn status_of(status: FileStatus, old_path: &Option<String>, new_path: &Option<String>) -> (r: FileStatus)
    ensures
        r == final_status(
            HeaderState { old_path: opt_view(*old_path), new_path: opt_view(*new_path), status },
        ),
{
    if status == FileStatus::Modified {
        if old_path.is_none() && new_path.is_some() {
            FileStatus::Added
        } else if old_path.is_some() && new_path.is_none() {
            FileStatus::Deleted
        } else {
            FileStatus::Modified
        }
    } else {
        status
    }
}

/// Reads the metadata lines of a file section starting at line `start`.
/// Returns the index after the header, the old and new paths and the status.
pub fn parse_file_header(lines: &Vec<Vec<char>>, start: usize) -> (r: (
    usize,
    Option<String>,
    Option<String>,
    FileStatus,
))
    requires
        start <= lines.len(),
    ensures
        ({
            let (j, st) = header_from(views(lines@), start as int, initial_header());
            &&& r.0 == j
            &&& opt_view(r.1) == st.old_path
            &&& opt_view(r.2) == st.new_path
            &&& r.3 == final_status(st)
        }),
{
    let ghost ls = views(lines@);
    let mut old_path: Option<String> = None;
    let mut new_path: Option<String> = None;
    let mut status = FileStatus::Modified;
    let mut p: usize = start;
    while p < lines.len()
        invariant
            start <= p <= lines.len(),
            ls == views(lines@),
            header_from(ls, start as int, initial_header()) == header_from(
                ls,
                p as int,
                HeaderState { old_path: opt_view(old_path), new_path: opt_view(new_path), status },
            ),
        decreases lines.len() - p,
    {
        let line = &lines[p];
        assert(ls[p as int] == line@);
        if has_prefix(line, "---") {
            old_path = path_of(line, "--- ", "a/", old_path);
        } else if has_prefix(line, "+++") {
            new_path = path_of(line, "+++ ", "b/", new_path);
            let st = status_of(status, &old_path, &new_path);
            return (p + 1, old_path, new_path, st);
        } else if has_prefix(line, "new file") {
            status = FileStatus::Added;
        } else if has_prefix(line, "deleted file") {
            status = FileStatus::Deleted;
        } else if has_prefix(line, "rename from") {
            status = FileStatus::Renamed;
        } else if has_prefix(line, "copy from") {
            status = FileStatus::Copied;
        } else if has_prefix(line, "@@") || has_prefix(line, "diff ") || has_prefix(
            line,
            "Binary files",
        ) {
            let st = status_of(status, &old_path, &new_path);
            return (p, old_path, new_path, st);
        }
        p += 1;
    }
    let st = status_of(status, &old_path, &new_path);
    (p, old_path, new_path, st)
}

} // verus!

verus! {

fn ends_hunk_line(line: &Vec<char>) -> (r: bool)
    ensures
        r == ends_hunk(line@),
{
    has_prefix(line, "@@") || has_prefix(line, "diff ")
}

/// Classifies one hunk body line: see `body_line`.
fn classify_line(line: &Vec<char>) -> (r: Option<(LineOrigin, Vec<char>)>)
    ensures
        match r {
            None => body_line(line@) is None,
            Some((origin, content)) => body_line(line@) == Some((origin, content@)),
        },
{
    if line.len() == 0 {
        return Some((LineOrigin::Context, Vec::new()));
    }
    let first = line[0];
    let rest = slice_chars(line, 1, line.len());
    assert(rest@ =~= line@.drop_first());
    if first == '+' {
        Some((LineOrigin::Addition, rest))
    } else if first == '-' {
        Some((LineOrigin::Deletion, rest))
    } else if first == ' ' {
        Some((LineOrigin::Context, rest))
    } else {
        None
    }
}

/// Reads the hunk whose header is line `p`. Returns the index of the line
/// after the hunk and the hunk, or `None` (having read only the header line)
/// when the header is unreadable.
pub fn parse_hunk(lines: &Vec<Vec<char>>, p: usize) -> (r: (usize, Option<DiffHunk>))
    requires
        p < lines.len(),
    ensures
        match hunk_header_spec(views(lines@)[p as int]) {
            None => r.0 == p + 1 && r.1 is None,
            Some(h) => r.0 == hunk_end(views(lines@), p + 1) && r.1 is Some && r.1->0@ == hunk_at(
                views(lines@),
                p as int,
                h,
            ),
        },
{
    let ghost ls = views(lines@);
    let header_line = &lines[p];
    assert(ls[p as int] == header_line@);
    let parsed = parse_hunk_header_chars(header_line);
    let (old_start, old_count, new_start, new_count) = match parsed {
        None => {
            return (p + 1, None);
        },
        Some(h) => h,
    };
    let mut out: Vec<DiffLine> = Vec::new();
    let mut o: u64 = old_start as u64;
    let mut n: u64 = new_start as u64;
    let mut q: usize = p + 1;
    assert(line_views(out@) + hunk_lines_from(ls, q as int, o as int, n as int) =~= hunk_lines_from(
        ls,
        q as int,
        o as int,
        n as int,
    ));
    while q < lines.len() && !ends_hunk_line(&lines[q])
        invariant
            p < q <= lines.len(),
            ls == views(lines@),
            o <= 0x1_0000_0000,
            n <= 0x1_0000_0000,
            hunk_lines_from(ls, p + 1, old_start as int, new_start as int) == line_views(out@)
                + hunk_lines_from(ls, q as int, o as int, n as int),
            hunk_end(ls, p + 1) == hunk_end(ls, q as int),
        decreases lines.len() - q,
    {
        let line = &lines[q];
        assert(ls[q as int] == line@);
        let ghost before = line_views(out@);
        match classify_line(line) {
            None => {},
            Some((origin, content)) => {
                let on_old = origin != LineOrigin::Addition;
                let on_new = origin != LineOrigin::Deletion;
                if (on_old && o > 0xffff_ffff) || (on_new && n > 0xffff_ffff) {
                } else {
                    let dl = DiffLine {
                        origin,
                        content: string_from_chars(&content),
                        old_lineno: if on_old {
                            Some(o as u32)
                        } else {
                            None
                        },
                        new_lineno: if on_new {
                            Some(n as u32)
                        } else {
                            None
                        },
                    };
                    proof {
                        lemma_line_views_push(out@, dl);
                    }
                    out.push(dl);
                    if on_old {
                        o = o + 1;
                    }
                    if on_new {
                        n = n + 1;
                    }
                    let ghost tail = hunk_lines_from(ls, q + 1, o as int, n as int);
                    assert(before + (seq![dl@] + tail) =~= before.push(dl@) + tail);
                }
            },
        }
        q += 1;
    }
    assert(line_views(out@) + Seq::<LineView>::empty() =~= line_views(out@));
    let hunk = DiffHunk {
        header: string_from_chars(header_line),
        lines: out,
        old_start,
        old_count,
        new_start,
        new_count,
    };
    (q, Some(hunk))
}

/// Reads the hunks of one file section from line `start` up to the next
/// `diff ` line. Returns the hunks and the index of that line (or the line count).
fn parse_file_body(lines: &Vec<Vec<char>>, start: usize) -> (r: (Vec<DiffHunk>, usize))
    requires
        start <= lines.len(),
    ensures
        hunk_views(r.0@) == body_hunks(views(lines@), start as int),
        r.1 == file_end(views(lines@), start as int),
        start <= r.1 <= lines.len(),
{
    let ghost ls = views(lines@);
    let mut hunks: Vec<DiffHunk> = Vec::new();
    let mut p: usize = start;
    assert(hunk_views(hunks@) + body_hunks(ls, p as int) =~= body_hunks(ls, p as int));
    while p < lines.len() && !has_prefix(&lines[p], "diff ")
        invariant
            start <= p <= lines.len(),
            ls == views(lines@),
            body_hunks(ls, start as int) == hunk_views(hunks@) + body_hunks(ls, p as int),
            file_end(ls, start as int) == file_end(ls, p as int),
        decreases lines.len() - p,
    {
        assert(ls[p as int] == lines@[p as int]@);
        if has_prefix(&lines[p], "@@") {
            proof {
                lemma_hunk_header_not_diff(ls[p as int]);
                lemma_hunk_end_bounds(ls, p + 1);
                lemma_file_end_skip(ls, p + 1);
            }
            let ghost before = hunk_views(hunks@);
            let (next, parsed) = parse_hunk(lines, p);
            match parsed {
                Some(h) => {
                    proof {
                        lemma_hunk_views_push(hunks@, h);
                    }
                    hunks.push(h);
                    let ghost tail = body_hunks(ls, next as int);
                    assert(before + (seq![h@] + tail) =~= before.push(h@) + tail);
                },
                None => {},
            }
            p = next;
        } else {
            p += 1;
        }
    }
    assert(hunk_views(hunks@) + Seq::<HunkView>::empty() =~= hunk_views(hunks@));
    (hunks, p)
}

/// First occurrence of `p` in `s` at or after `i`: see `find_from`.
fn find_seq_from(s: &Vec<char>, p: &Vec<char>, i: usize) -> (r: usize)
    requires
        p@.len() > 0,
    ensures
        r as int == find_from(s@, p@, i as int),
{
    let mut k = i;
    while k < s.len() && p.len() <= s.len() - k
        invariant
            i <= k,
            find_from(s@, p@, i as int) == find_from(s@, p@, k as int),
        decreases s.len() - k,
    {
        if matches_at(s, p, k) {
            return k;
        }
        k += 1;
    }
    s.len()
}

/// Reads the paths of a `diff --git` line: see `section_paths`.
fn parse_section_paths(line: &Vec<char>) -> (r: (String, String))
    requires
        starts_with(line@, "diff --git "@),
    ensures
        r.0@ == section_paths(line@).0,
        r.1@ == section_paths(line@).1,
{
    let head = chars_of("diff --git ");
    let rest = slice_chars(line, head.len(), line.len());
    let marker = chars_of(" b/");
    proof {
        reveal_strlit(" b/");
    }
    let k = find_seq_from(&rest, &marker, 2);
    if has_prefix(&rest, "a/") && k < rest.len() {
        proof {
            lemma_find_from_bounds(rest@, marker@, 2);
            reveal_strlit(" b/");
        }
        let old_path = slice_chars(&rest, 2, k);
        let new_path = slice_chars(&rest, k + 3, rest.len());
        (string_from_chars(&old_path), string_from_chars(&new_path))
    } else {
        (string_from_chars(&rest), string_from_chars(&rest))
    }
}

proof fn lemma_find_from_bounds(s: Seq<char>, p: Seq<char>, i: int)
    requires
        0 <= i,
    ensures
        find_from(s, p, i) == s.len() || (i <= find_from(s, p, i) && occurs_at(
            s,
            p,
            find_from(s, p, i),
        )),
    decreases s.len() + 1 - i,
{
    if i + p.len() <= s.len() && !occurs_at(s, p, i) {
        lemma_find_from_bounds(s, p, i + 1);
    }
}

/// Every file of a parse names at least one path.
pub proof fn lemma_files_have_paths(ls: Seq<Seq<char>>, i: int)
    ensures
        forall|k: int|
            0 <= k < files_from(ls, i).len() ==> (#[trigger] files_from(ls, i)[k]).old_path is Some
                || files_from(ls, i)[k].new_path is Some,
    decreases ls.len() - i,
{
    if 0 <= i < ls.len() {
        if starts_with(ls[i], "diff --git "@) {
            let (j, st) = header_from(ls, i + 1, initial_header());
            if i < j <= ls.len() {
                let v = files_from(ls, i);
                if j < ls.len() && is_binary_marker(ls[j]) {
                    lemma_files_have_paths(ls, j + 1);
                    assert forall|k: int| 0 <= k < v.len() implies (#[trigger] v[k]).old_path is Some
                        || v[k].new_path is Some by {
                        if k > 0 {
                            assert(v[k] == files_from(ls, j + 1)[k - 1]);
                        }
                    }
                } else {
                    let e = file_end(ls, j);
                    if j <= e <= ls.len() {
                        lemma_files_have_paths(ls, e);
                        assert forall|k: int| 0 <= k < v.len() implies (#[trigger] v[k]).old_path is Some
                            || v[k].new_path is Some by {
                            if k > 0 {
                                assert(v[k] == files_from(ls, e)[k - 1]);
                            }
                        }
                    }
                }
            }
        } else {
            lemma_files_have_paths(ls, i + 1);
            assert(files_from(ls, i) == files_from(ls, i + 1));
        }
    }
}

/// Parses unified-diff text into an ordered changeset.
///
/// Fails with `NoChanges` exactly when the text holds no `diff --git` file section.
pub fn parse_unified_diff(diff_text: &str) -> (r: Result<Vec<DiffFile>, TuicrError>)
    ensures
        parse_files(diff_text@).len() == 0 ==> r matches Err(TuicrError::NoChanges),
        parse_files(diff_text@).len() > 0 ==> (r matches Ok(files) && file_views(files@)
            == parse_files(diff_text@)),
        r matches Ok(files) ==> forall|k: int|
            0 <= k < files@.len() ==> (#[trigger] files@[k]).old_path is Some
                || files@[k].new_path is Some,
{
    let chars = chars_of(diff_text);
    let lines = split_lines(&chars);
    let ghost ls = views(lines@);
    let mut files: Vec<DiffFile> = Vec::new();
    let mut i: usize = 0;
    assert(file_views(files@) + files_from(ls, 0) =~= files_from(ls, 0));
    while i < lines.len()
        invariant
            i <= lines.len(),
            ls == views(lines@),
            files_from(ls, 0) == file_views(files@) + files_from(ls, i as int),
        decreases lines.len() - i,
    {
        assert(ls[i as int] == lines@[i as int]@);
        if has_prefix(&lines[i], "diff --git ") {
            let (j, old_path, new_path, status) = parse_file_header(&lines, i + 1);
            proof {
                lemma_header_bounds(ls, i + 1, initial_header());
            }
            let (old_path, new_path) = if old_path.is_none() && new_path.is_none() {
                let (a, b) = parse_section_paths(&lines[i]);
                (Some(a), Some(b))
            } else {
                (old_path, new_path)
            };
            let ghost before = file_views(files@);
            if j < lines.len() && has_prefix(&lines[j], "Binary files") {
                assert(ls[j as int] == lines@[j as int]@);
                let f = DiffFile { old_path, new_path, status, hunks: Vec::new(), is_binary: true };
                assert(hunk_views(f.hunks@) =~= Seq::<HunkView>::empty());
                proof {
                    lemma_file_views_push(files@, f);
                }
                files.push(f);
                let ghost tail = files_from(ls, j + 1);
                assert(before + (seq![f@] + tail) =~= before.push(f@) + tail);
                i = j + 1;
            } else {
                proof {
                    if j < lines.len() {
                        assert(ls[j as int] == lines@[j as int]@);
                    }
                }
                let (hunks, k) = parse_file_body(&lines, j);
                let f = DiffFile { old_path, new_path, status, hunks, is_binary: false };
                proof {
                    lemma_file_views_push(files@, f);
                }
                files.push(f);
                let ghost tail = files_from(ls, k as int);
                assert(before + (seq![f@] + tail) =~= before.push(f@) + tail);
                i = k;
            }
        } else {
            i += 1;
        }
    }
    assert(file_views(files@) + Seq::<FileView>::empty() =~= file_views(files@));
    proof {
        lemma_files_have_paths(ls, 0);
        assert forall|k: int| 0 <= k < files@.len() implies (#[trigger] files@[k]).old_path is Some
            || files@[k].new_path is Some by {
            assert(file_views(files@)[k] == files@[k]@);
        }
    }
    if files.len() == 0 {
        Err(TuicrError::NoChanges)
    } else {
        Ok(files)
    }
}

} // verus!

verus! {

/// Whether the header read from line `p` holds a `new file`, `deleted file`,
/// `rename from` or `copy from` marker.
pub open spec fn header_has_marker(ls: Seq<Seq<char>>, p: int) -> bool
    decreases ls.len() - p,
{
    if p < 0 || p >= ls.len() {
        false
    } else {
        let l = ls[p];
        if starts_with(l, "---"@) {
            header_has_marker(ls, p + 1)
        } else if starts_with(l, "+++"@) {
            false
        } else if starts_with(l, "new file"@) || starts_with(l, "deleted file"@) || starts_with(
            l,
            "rename from"@,
        ) || starts_with(l, "copy from"@) {
            true
        } else if stops_header(l) {
            false
        } else {
            header_has_marker(ls, p + 1)
        }
    }
}

proof fn lemma_unmarked_keeps_status(ls: Seq<Seq<char>>, p: int, st: HeaderState)
    requires
        !header_has_marker(ls, p),
    ensures
        header_from(ls, p, st).1.status == st.status,
    decreases ls.len() - p,
{
    if 0 <= p < ls.len() {
        let l = ls[p];
        if starts_with(l, "---"@) {
            lemma_unmarked_keeps_status(
                ls,
                p + 1,
                HeaderState {
                    old_path: path_from(l, "--- "@, "a/"@, st.old_path),
                    new_path: st.new_path,
                    status: st.status,
                },
            );
        } else if starts_with(l, "+++"@) {
        } else if stops_header(l) {
        } else {
            lemma_unmarked_keeps_status(ls, p + 1, st);
        }
    }
}

/// A file header without a status marker takes its status from the paths it
/// names: Added exactly when only the new path is present, Deleted exactly
/// when only the old path is present, Modified otherwise.
pub proof fn lemma_status_from_paths(ls: Seq<Seq<char>>, p: int)
    requires
        !header_has_marker(ls, p),
    ensures
        ({
            let (j, st) = header_from(ls, p, initial_header());
            let s = final_status(st);
            &&& s == FileStatus::Added <==> (st.old_path is None && st.new_path is Some)
            &&& s == FileStatus::Deleted <==> (st.old_path is Some && st.new_path is None)
            &&& s == FileStatus::Modified <==> !((st.old_path is None && st.new_path is Some) || (
            st.old_path is Some && st.new_path is None))
        }),
{
    lemma_unmarked_keeps_status(ls, p, initial_header());
}

proof fn lemma_no_sections_from(ls: Seq<Seq<char>>, i: int)
    requires
        0 <= i,
        forall|k: int| 0 <= k < ls.len() ==> !starts_with(#[trigger] ls[k], "diff --git "@),
    ensures
        files_from(ls, i).len() == 0,
    decreases ls.len() - i,
{
    if i < ls.len() {
        lemma_no_sections_from(ls, i + 1);
    }
}

/// Text without a `diff --git` file section, the empty text in particular,
/// describes no files; `parse_unified_diff` then fails with `NoChanges`.
pub proof fn lemma_no_sections_no_files(text: Seq<char>)
    requires
        forall|k: int|
            0 <= k < lines_of(text).len() ==> !starts_with(#[trigger] lines_of(text)[k], "diff --git "@),
    ensures
        parse_files(text).len() == 0,
{
    lemma_no_sections_from(lines_of(text), 0);
}

/// Number of lines with an old-side number.
pub open spec fn count_old(v: Seq<LineView>) -> nat
    decreases v.len(),
{
    if v.len() == 0 {
        0
    } else {
        (if v[0].old_lineno is Some {
            1nat
        } else {
            0nat
        }) + count_old(v.drop_first())
    }
}

/// Number of lines with a new-side number.
pub open spec fn count_new(v: Seq<LineView>) -> nat
    decreases v.len(),
{
    if v.len() == 0 {
        0
    } else {
        (if v[0].new_lineno is Some {
            1nat
        } else {
            0nat
        }) + count_new(v.drop_first())
    }
}

/// Number of body lines from `q` to the end of the hunk that occupy the old side.
pub open spec fn old_side_count(ls: Seq<Seq<char>>, q: int) -> nat
    decreases ls.len() - q,
{
    if q < 0 || q >= ls.len() || ends_hunk(ls[q]) {
        0
    } else {
        match body_line(ls[q]) {
            Some((origin, _)) => if on_old_side(origin) {
                1 + old_side_count(ls, q + 1)
            } else {
                old_side_count(ls, q + 1)
            },
            None => old_side_count(ls, q + 1),
        }
    }
}

/// Number of body lines from `q` to the end of the hunk that occupy the new side.
pub open spec fn new_side_count(ls: Seq<Seq<char>>, q: int) -> nat
    decreases ls.len() - q,
{
    if q < 0 || q >= ls.len() || ends_hunk(ls[q]) {
        0
    } else {
        match body_line(ls[q]) {
            Some((origin, _)) => if on_new_side(origin) {
                1 + new_side_count(ls, q + 1)
            } else {
                new_side_count(ls, q + 1)
            },
            None => new_side_count(ls, q + 1),
        }
    }
}

/// The hunk headed at line `p` holds as many old-side and new-side lines as
/// its header declares, and its ranges fit in `u32`.
pub open spec fn valid_hunk(ls: Seq<Seq<char>>, p: int, h: (u32, u32, u32, u32)) -> bool {
    &&& old_side_count(ls, p + 1) == h.1
    &&& new_side_count(ls, p + 1) == h.3
    &&& h.0 + h.1 <= u32::MAX + 1
    &&& h.2 + h.3 <= u32::MAX + 1
}

/// Every readable hunk header of the text heads a valid hunk.
pub open spec fn valid_diff(ls: Seq<Seq<char>>) -> bool {
    forall|p: int|
        0 <= p < ls.len() && starts_with(ls[p], "@@"@) && (#[trigger] hunk_header_spec(ls[p])) is Some
            ==> valid_hunk(ls, p, hunk_header_spec(ls[p])->0)
}

/// Old-side numbers run `o, o+1, ...` and new-side numbers `n, n+1, ...`
/// over the lines that occupy each side.
pub open spec fn numbered_from(v: Seq<LineView>, o: int, n: int) -> bool
    decreases v.len(),
{
    if v.len() == 0 {
        true
    } else {
        &&& (v[0].old_lineno matches Some(x) ==> x == o)
        &&& (v[0].new_lineno matches Some(x) ==> x == n)
        &&& numbered_from(
            v.drop_first(),
            if v[0].old_lineno is Some {
                o + 1
            } else {
                o
            },
            if v[0].new_lineno is Some {
                n + 1
            } else {
                n
            },
        )
    }
}

/// The hunk's recorded numbers start at its declared starts, run
/// consecutively, and add up to its declared counts.
pub open spec fn counts_match(h: HunkView) -> bool {
    &&& numbered_from(h.lines, h.old_start as int, h.new_start as int)
    &&& count_old(h.lines) == h.old_count
    &&& count_new(h.lines) == h.new_count
}

proof fn lemma_hunk_lines_counts(ls: Seq<Seq<char>>, q: int, o: int, n: int)
    requires
        0 <= q,
        0 <= o,
        0 <= n,
        o + old_side_count(ls, q) <= u32::MAX + 1,
        n + new_side_count(ls, q) <= u32::MAX + 1,
    ensures
        count_old(hunk_lines_from(ls, q, o, n)) == old_side_count(ls, q),
        count_new(hunk_lines_from(ls, q, o, n)) == new_side_count(ls, q),
        numbered_from(hunk_lines_from(ls, q, o, n), o, n),
    decreases ls.len() - q,
{
    if q < ls.len() && !ends_hunk(ls[q]) {
        match body_line(ls[q]) {
            None => {
                lemma_hunk_lines_counts(ls, q + 1, o, n);
            },
            Some((origin, content)) => {
                let o2 = if on_old_side(origin) {
                    o + 1
                } else {
                    o
                };
                let n2 = if on_new_side(origin) {
                    n + 1
                } else {
                    n
                };
                lemma_hunk_lines_counts(ls, q + 1, o2, n2);
                let v = hunk_lines_from(ls, q, o, n);
                assert(v.drop_first() =~= hunk_lines_from(ls, q + 1, o2, n2));
            },
        }
    }
}

proof fn lemma_body_hunks_counts(ls: Seq<Seq<char>>, p: int)
    requires
        0 <= p,
        valid_diff(ls),
    ensures
        forall|k: int|
            0 <= k < body_hunks(ls, p).len() ==> counts_match(#[trigger] body_hunks(ls, p)[k]),
    decreases ls.len() - p,
{
    if 0 <= p < ls.len() && !starts_with(ls[p], "diff "@) {
        if starts_with(ls[p], "@@"@) {
            match hunk_header_spec(ls[p]) {
                None => {
                    lemma_body_hunks_counts(ls, p + 1);
                    assert(body_hunks(ls, p) == body_hunks(ls, p + 1));
                },
                Some(h) => {
                    let e = hunk_end(ls, p + 1);
                    if p < e <= ls.len() {
                        lemma_body_hunks_counts(ls, e);
                        assert(valid_hunk(ls, p, h));
                        lemma_hunk_lines_counts(ls, p + 1, h.0 as int, h.2 as int);
                        let v = body_hunks(ls, p);
                        assert(v == seq![hunk_at(ls, p, h)] + body_hunks(ls, e));
                        assert(counts_match(hunk_at(ls, p, h)));
                        assert forall|k: int| 0 <= k < v.len() implies counts_match(
                            #[trigger] v[k],
                        ) by {
                            if k > 0 {
                                assert(v[k] == body_hunks(ls, e)[k - 1]);
                            }
                        }
                    }
                },
            }
        } else {
            lemma_body_hunks_counts(ls, p + 1);
            assert(body_hunks(ls, p) == body_hunks(ls, p + 1));
        }
    }
}

proof fn lemma_files_counts(ls: Seq<Seq<char>>, i: int)
    requires
        0 <= i,
        valid_diff(ls),
    ensures
        forall|f: int, k: int|
            0 <= f < files_from(ls, i).len() && 0 <= k < files_from(ls, i)[f].hunks.len()
                ==> counts_match(#[trigger] files_from(ls, i)[f].hunks[k]),
    decreases ls.len() - i,
{
    if 0 <= i < ls.len() {
        if starts_with(ls[i], "diff --git "@) {
            let (j, st) = header_from(ls, i + 1, initial_header());
            if i < j <= ls.len() {
                let v = files_from(ls, i);
                if j < ls.len() && is_binary_marker(ls[j]) {
                    lemma_files_counts(ls, j + 1);
                    assert forall|f: int, k: int|
                        0 <= f < v.len() && 0 <= k < v[f].hunks.len() implies counts_match(
                        #[trigger] v[f].hunks[k],
                    ) by {
                        assert(f > 0);
                        assert(v[f] == files_from(ls, j + 1)[f - 1]);
                    }
                } else {
                    let k = file_end(ls, j);
                    if j <= k <= ls.len() {
                        lemma_files_counts(ls, k);
                        lemma_body_hunks_counts(ls, j);
                        assert forall|f: int, m: int|
                            0 <= f < v.len() && 0 <= m < v[f].hunks.len() implies counts_match(
                            #[trigger] v[f].hunks[m],
                        ) by {
                            if f > 0 {
                                assert(v[f] == files_from(ls, k)[f - 1]);
                            }
                        }
                    }
                }
            }
        } else {
            lemma_files_counts(ls, i + 1);
            assert(files_from(ls, i) == files_from(ls, i + 1));
        }
    }
}

/// In valid diff text (every hunk body holds the old-side and new-side line
/// counts its header declares), the line numbers the parser records in each
/// hunk run consecutively from the declared starts and add up to the
/// declared counts on both sides.
pub proof fn lemma_recorded_counts_match(text: Seq<char>)
    requires
        valid_diff(lines_of(text)),
    ensures
        forall|f: int, k: int|
            0 <= f < parse_files(text).len() && 0 <= k < parse_files(text)[f].hunks.len()
                ==> counts_match(#[trigger] parse_files(text)[f].hunks[k]),
{
    lemma_files_counts(lines_of(text), 0);
}

} // verus!
