//! What the core decides about version-control backends: which one is
//! used, the repository description built from a backend's output, and the
//! context lines taken from a file's content. Running the backends' commands
//! is left to the caller.

use vstd::prelude::*;

use crate::model::{line_views, opt_view, DiffFile, DiffLine, FileStatus, LineOrigin, LineView, TuicrError};
use crate::text::{chars_of, lines_of, slice_chars, split_lines, string_from_chars, trim, trim_chars, trim_end_by, trim_end_chars, views};

verus! {

#[derive(Clone, Copy, Debug, PartialEq, Eq, Structural)]
pub enum VcsType {
    Git,
    Mercurial,
    Jujutsu,
}

/// Description of a discovered repository.
#[derive(Clone, Debug)]
pub struct VcsInfo {
    pub root_path: String,
    pub head_commit: String,
    pub branch_name: Option<String>,
    pub vcs_type: VcsType,
}

/// Picks the backend: Jujutsu first (its repositories are Git-backed), then
/// Git, then Mercurial. Each argument is the outcome of that backend's
/// discovery; with none found the working directory is not a repository.
pub fn detect_vcs(jj: Option<VcsInfo>, git: Option<VcsInfo>, hg: Option<VcsInfo>) -> (r: Result<
    VcsInfo,
    TuicrError,
>)
    ensures
        jj is Some ==> r == Ok::<VcsInfo, TuicrError>(jj->0),
        jj is None && git is Some ==> r == Ok::<VcsInfo, TuicrError>(git->0),
        jj is None && git is None && hg is Some ==> r == Ok::<VcsInfo, TuicrError>(hg->0),
        jj is None && git is None && hg is None ==> r matches Err(TuicrError::NotARepository),
{
    match jj {
        Some(info) => Ok(info),
        None => match git {
            Some(info) => Ok(info),
            None => match hg {
                Some(info) => Ok(info),
                None => Err(TuicrError::NotARepository),
            },
        },
    }
}

/// The text of a command's output with surrounding whitespace removed.
pub open spec fn output_text(s: Seq<char>) -> Seq<char> {
    trim(s)
}

/// A Mercurial working-copy id without the `+` marks of uncommitted changes.
pub open spec fn hg_commit_text(s: Seq<char>) -> Seq<char> {
    trim_end_by(trim(s), false, '+')
}

/// Mercurial backend: the repository it was discovered in.
pub struct HgBackend {
    info: VcsInfo,
}

impl HgBackend {
    /// Builds the backend from the output of `hg root`, and of `hg id -i` and
    /// `hg branch` when those succeeded.
    pub fn from_outputs(root: &str, id: Option<&str>, branch: Option<&str>) -> (r: Self)
        ensures
            r.info_spec().root_path@ == output_text(root@),
            r.info_spec().head_commit@ == match id {
                Some(s) => hg_commit_text(s@),
                None => "unknown"@,
            },
            opt_view(r.info_spec().branch_name) == match branch {
                Some(s) => Some(output_text(s@)),
                None => None::<Seq<char>>,
            },
            r.info_spec().vcs_type == VcsType::Mercurial,
    {
        let root_path = string_from_chars(&trim_chars(&chars_of(root)));
        let head_commit = match id {
            Some(s) => string_from_chars(&trim_end_chars(&trim_chars(&chars_of(s)), false, '+')),
            None => String::from_str("unknown"),
        };
        let branch_name = match branch {
            Some(s) => Some(string_from_chars(&trim_chars(&chars_of(s)))),
            None => None,
        };
        HgBackend { info: VcsInfo { root_path, head_commit, branch_name, vcs_type: VcsType::Mercurial } }
    }

    pub closed spec fn info_spec(&self) -> VcsInfo {
        self.info
    }

    pub fn info(&self) -> (r: &VcsInfo)
        ensures
            *r == self.info_spec(),
    {
        &self.info
    }
}

/// Jujutsu backend: the repository it was discovered in.
pub struct JjBackend {
    info: VcsInfo,
}

impl JjBackend {
    /// Builds the backend from the output of `jj root`, and of the change-id
    /// and bookmark queries when those succeeded. An empty bookmark list means
    /// no branch.
    pub fn from_outputs(root: &str, change_id: Option<&str>, bookmarks: Option<&str>) -> (r: Self)
        ensures
            r.info_spec().root_path@ == output_text(root@),
            r.info_spec().head_commit@ == match change_id {
                Some(s) => output_text(s@),
                None => "unknown"@,
            },
            opt_view(r.info_spec().branch_name) == match bookmarks {
                Some(s) => if output_text(s@).len() > 0 {
                    Some(output_text(s@))
                } else {
                    None::<Seq<char>>
                },
                None => None::<Seq<char>>,
            },
            r.info_spec().vcs_type == VcsType::Jujutsu,
    {
        let root_path = string_from_chars(&trim_chars(&chars_of(root)));
        let head_commit = match change_id {
            Some(s) => string_from_chars(&trim_chars(&chars_of(s))),
            None => String::from_str("unknown"),
        };
        let branch_name = match bookmarks {
            Some(s) => {
                let t = trim_chars(&chars_of(s));
                if t.len() > 0 {
                    Some(string_from_chars(&t))
                } else {
                    None
                }
            },
            None => None,
        };
        JjBackend { info: VcsInfo { root_path, head_commit, branch_name, vcs_type: VcsType::Jujutsu } }
    }

    pub closed spec fn info_spec(&self) -> VcsInfo {
        self.info
    }

    pub fn info(&self) -> (r: &VcsInfo)
        ensures
            *r == self.info_spec(),
    {
        &self.info
    }
}

/// Line numbers `start..=end` of a file that exist in it.
pub open spec fn context_count(n_lines: int, start: int, end: int) -> int {
    if start == 0 || start > end || start > n_lines {
        0
    } else if end < n_lines {
        end - start + 1
    } else {
        n_lines - start + 1
    }
}

/// The lines `start..=end` (1-based) of `content` as context lines numbered
/// alike on both sides; lines past the end are left out.
pub open spec fn context_lines_spec(content: Seq<char>, start: u32, end: u32) -> Seq<LineView> {
    let ls = lines_of(content);
    Seq::new(
        context_count(ls.len() as int, start as int, end as int) as nat,
        |j: int|
            LineView {
                origin: LineOrigin::Context,
                content: ls[start - 1 + j],
                old_lineno: Some((start + j) as u32),
                new_lineno: Some((start + j) as u32),
            },
    )
}

/// Takes the requested run of context lines out of a file's content.
pub fn context_lines(content: &str, start_line: u32, end_line: u32) -> (r: Vec<DiffLine>)
    ensures
        line_views(r@) == context_lines_spec(content@, start_line, end_line),
{
    let mut out: Vec<DiffLine> = Vec::new();
    if start_line > end_line || start_line == 0 {
        assert(line_views(out@) =~= context_lines_spec(content@, start_line, end_line));
        return out;
    }
    let chars = chars_of(content);
    let lines = split_lines(&chars);
    let ghost ls = views(lines@);
    let n = lines.len();
    let first = start_line as usize;
    if first > n {
        assert(line_views(out@) =~= context_lines_spec(content@, start_line, end_line));
        return out;
    }
    let stop: usize = if (end_line as usize) < n {
        end_line as usize
    } else {
        n
    };
    let count = stop - first + 1;
    let mut k: usize = 0;
    while k < count
        invariant
            1 <= first <= stop <= n,
            first == start_line,
            stop <= end_line,
            count == stop - first + 1,
            n == lines.len(),
            k <= count,
            ls == lines_of(content@),
            ls == views(lines@),
            out@.len() == k,
            forall|j: int|
                0 <= j < out@.len() ==> #[trigger] out@[j]@ == (LineView {
                    origin: LineOrigin::Context,
                    content: ls[start_line - 1 + j],
                    old_lineno: Some((start_line + j) as u32),
                    new_lineno: Some((start_line + j) as u32),
                }),
        decreases count - k,
    {
        let idx = first - 1 + k;
        let line_num = (first + k) as u32;
        assert(ls[idx as int] == lines@[idx as int]@);
        out.push(
            DiffLine {
                origin: LineOrigin::Context,
                content: string_from_chars(&lines[idx]),
                old_lineno: Some(line_num),
                new_lineno: Some(line_num),
            },
        );
        k += 1;
    }
    assert(line_views(out@) =~= context_lines_spec(content@, start_line, end_line));
    out
}

} // verus!

verus! {

/// Kind of change a Git delta records.
#[derive(Clone, Copy, Debug, PartialEq, Eq, Structural)]
pub enum DeltaKind {
    Added,
    Untracked,
    Deleted,
    Modified,
    Renamed,
    Copied,
    Other,
}

/// File status of a Git delta; kinds without a status of their own read as Modified.
pub fn status_for_delta(kind: DeltaKind) -> (r: FileStatus)
    ensures
        r == match kind {
            DeltaKind::Added | DeltaKind::Untracked => FileStatus::Added,
            DeltaKind::Deleted => FileStatus::Deleted,
            DeltaKind::Renamed => FileStatus::Renamed,
            DeltaKind::Copied => FileStatus::Copied,
            DeltaKind::Modified | DeltaKind::Other => FileStatus::Modified,
        },
{
    match kind {
        DeltaKind::Added | DeltaKind::Untracked => FileStatus::Added,
        DeltaKind::Deleted => FileStatus::Deleted,
        DeltaKind::Renamed => FileStatus::Renamed,
        DeltaKind::Copied => FileStatus::Copied,
        DeltaKind::Modified | DeltaKind::Other => FileStatus::Modified,
    }
}

/// A changeset read from a backend; an empty one means there is nothing to review.
pub fn changeset_or_no_changes(files: Vec<DiffFile>) -> (r: Result<Vec<DiffFile>, TuicrError>)
    ensures
        files@.len() == 0 ==> r matches Err(TuicrError::NoChanges),
        files@.len() > 0 ==> r == Ok::<Vec<DiffFile>, TuicrError>(files),
{
    if files.len() == 0 {
        Err(TuicrError::NoChanges)
    } else {
        Ok(files)
    }
}

} // verus!

verus! {

/// A commit offered for review. `time` is in seconds since the Unix epoch.
#[derive(Clone, Debug)]
pub struct CommitInfo {
    pub id: String,
    pub short_id: String,
    pub summary: String,
    pub author: String,
    pub time: i64,
}

pub open spec fn short_id_of(id: Seq<char>) -> Seq<char> {
    if id.len() <= 7 {
        id
    } else {
        id.take(7)
    }
}

impl CommitInfo {
    /// Builds the entry from a commit's id, summary and author name. The short
    /// id is the first seven characters of the id; a missing summary reads
    /// `(no message)` and a missing author `Unknown`.
    pub fn from_parts(id: String, summary: Option<String>, author: Option<String>, time: i64) -> (r: Self)
        ensures
            r.id@ == id@,
            r.short_id@ == short_id_of(id@),
            r.summary@ == match summary {
                Some(s) => s@,
                None => "(no message)"@,
            },
            r.author@ == match author {
                Some(a) => a@,
                None => "Unknown"@,
            },
            r.time == time,
    {
        let chars = chars_of(id.as_str());
        let keep: usize = if chars.len() <= 7 {
            chars.len()
        } else {
            7
        };
        let short = slice_chars(&chars, 0, keep);
        assert(chars@.len() <= 7 ==> short@ =~= chars@);
        let summary = match summary {
            Some(s) => s,
            None => String::from_str("(no message)"),
        };
        let author = match author {
            Some(a) => a,
            None => String::from_str("Unknown"),
        };
        CommitInfo { id, short_id: string_from_chars(&short), summary, author, time }
    }
}

} // verus!
