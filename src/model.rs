//! The structured model of a parsed changeset.

use vstd::prelude::*;

verus! {

/// Which side(s) of the change a diff line belongs to.
#[derive(Clone, Copy, Debug, PartialEq, Eq, Structural)]
pub enum LineOrigin {
    Addition,
    Deletion,
    Context,
}

#[derive(Clone, Copy, Debug, PartialEq, Eq, Structural)]
pub enum FileStatus {
    Added,
    Deleted,
    Modified,
    Renamed,
    Copied,
}

impl FileStatus {
    /// One-letter code shown next to a file name.
    pub fn as_char(&self) -> (c: char)
        ensures
            c == match *self {
                FileStatus::Added => 'A',
                FileStatus::Deleted => 'D',
                FileStatus::Modified => 'M',
                FileStatus::Renamed => 'R',
                FileStatus::Copied => 'C',
            },
    {
        match self {
            FileStatus::Added => 'A',
            FileStatus::Deleted => 'D',
            FileStatus::Modified => 'M',
            FileStatus::Renamed => 'R',
            FileStatus::Copied => 'C',
        }
    }
}

/// One physical line of a hunk.
#[derive(Clone, Debug)]
pub struct DiffLine {
    pub origin: LineOrigin,
    pub content: String,
    pub old_lineno: Option<u32>,
    pub new_lineno: Option<u32>,
}

/// A contiguous change region.
#[derive(Clone, Debug)]
pub struct DiffHunk {
    pub header: String,
    pub lines: Vec<DiffLine>,
    pub old_start: u32,
    pub old_count: u32,
    pub new_start: u32,
    pub new_count: u32,
}

/// One file's change.
#[derive(Clone, Debug)]
pub struct DiffFile {
    pub old_path: Option<String>,
    pub new_path: Option<String>,
    pub status: FileStatus,
    pub hunks: Vec<DiffHunk>,
    pub is_binary: bool,
}

/// Errors reported by the core.
#[derive(Clone, Debug)]
pub enum TuicrError {
    /// No version-control repository could be discovered.
    NotARepository,
    /// There is nothing to review.
    NoChanges,
    /// An external version-control command failed.
    VcsCommand(String),
}

pub struct LineView {
    pub origin: LineOrigin,
    pub content: Seq<char>,
    pub old_lineno: Option<u32>,
    pub new_lineno: Option<u32>,
}

pub struct HunkView {
    pub header: Seq<char>,
    pub lines: Seq<LineView>,
    pub old_start: u32,
    pub old_count: u32,
    pub new_start: u32,
    pub new_count: u32,
}

pub struct FileView {
    pub old_path: Option<Seq<char>>,
    pub new_path: Option<Seq<char>>,
    pub status: FileStatus,
    pub hunks: Seq<HunkView>,
    pub is_binary: bool,
}

pub open spec fn opt_view(o: Option<String>) -> Option<Seq<char>> {
    match o {
        Some(s) => Some(s@),
        None => None,
    }
}

impl View for DiffLine {
    type V = LineView;

    open spec fn view(&self) -> LineView {
        LineView {
            origin: self.origin,
            content: self.content@,
            old_lineno: self.old_lineno,
            new_lineno: self.new_lineno,
        }
    }
}

pub open spec fn line_views(v: Seq<DiffLine>) -> Seq<LineView> {
    v.map_values(|l: DiffLine| l@)
}

impl View for DiffHunk {
    type V = HunkView;

    open spec fn view(&self) -> HunkView {
        HunkView {
            header: self.header@,
            lines: line_views(self.lines@),
            old_start: self.old_start,
            old_count: self.old_count,
            new_start: self.new_start,
            new_count: self.new_count,
        }
    }
}

pub open spec fn hunk_views(v: Seq<DiffHunk>) -> Seq<HunkView> {
    v.map_values(|h: DiffHunk| h@)
}

impl View for DiffFile {
    type V = FileView;

    open spec fn view(&self) -> FileView {
        FileView {
            old_path: opt_view(self.old_path),
            new_path: opt_view(self.new_path),
            status: self.status,
            hunks: hunk_views(self.hunks@),
            is_binary: self.is_binary,
        }
    }
}

pub open spec fn file_views(v: Seq<DiffFile>) -> Seq<FileView> {
    v.map_values(|f: DiffFile| f@)
}

/// The path a file is shown and tracked under: the new path, else the old
/// one, else the empty path.
pub open spec fn display_path_of(f: FileView) -> Seq<char> {
    match f.new_path {
        Some(p) => p,
        None => match f.old_path {
            Some(p) => p,
            None => Seq::empty(),
        },
    }
}

impl DiffFile {
    pub fn display_path(&self) -> (r: String)
        ensures
            r@ == display_path_of(self@),
    {
        match &self.new_path {
            Some(p) => p.clone(),
            None => match &self.old_path {
                Some(p) => p.clone(),
                None => String::new(),
            },
        }
    }
}

} // verus!
