//! Application state: the changeset, the review session, and the coupled
//! navigation state (scroll offset, current file, file-list selection).

use vstd::prelude::*;

use crate::model::{display_path_of, file_views, DiffFile};
use crate::navigation::{clamp, file_heights, heights, lemma_prefix_monotone, prefix, rows_before};
use crate::rows::{two_column_file_heights, two_column_heights};
use crate::review::{
    count_reviewed, find_review, lemma_find_bounds, review_of, same_identity, Comment, CommentType,
    FileReview, ReviewSession,
};
use crate::text::{chars_of, equals_str, string_from_chars, trim, trim_chars};
use crate::vcs::VcsInfo;

verus! {

#[derive(Clone, Copy, Debug, PartialEq, Eq, Structural)]
pub enum InputMode {
    Normal,
    Comment,
    Command,
    Help,
}

#[derive(Clone, Copy, Debug, PartialEq, Eq, Structural)]
pub enum FocusedPanel {
    FileList,
    Diff,
}

#[derive(Clone, Copy, Debug, PartialEq, Eq, Structural)]
pub enum DiffViewMode {
    Unified,
    SideBySide,
}

#[derive(Debug)]
pub struct FileListState {
    pub selected: usize,
    pub offset: usize,
}

#[derive(Debug)]
pub struct DiffState {
    pub scroll_offset: usize,
    pub cursor_line: usize,
    pub current_file_idx: usize,
}

pub struct App {
    pub vcs_info: VcsInfo,
    pub session: ReviewSession,
    pub diff_files: Vec<DiffFile>,
    pub input_mode: InputMode,
    pub focused_panel: FocusedPanel,
    pub diff_view_mode: DiffViewMode,
    pub file_list_state: FileListState,
    pub diff_state: DiffState,
    pub command_buffer: String,
    pub comment_buffer: String,
    pub should_quit: bool,
    pub dirty: bool,
    pub message: Option<String>,
}

/// Row `off` belongs to file `c`: it lies in that file's rows, or past the
/// last row with `c` the last file.
pub open spec fn owns_row(h: Seq<usize>, c: int, off: int) -> bool {
    let n = h.len() as int;
    ||| prefix(h, c) <= off < prefix(h, c + 1)
    ||| (off >= prefix(h, n) && c == n - 1)
}

/// With every file at least one row high, a row belongs to exactly one file.
pub proof fn lemma_row_owner_unique(h: Seq<usize>, c1: int, c2: int, off: int)
    requires
        forall|i: int| 0 <= i < h.len() ==> h[i] >= 1,
        0 <= c1 < h.len(),
        0 <= c2 < h.len(),
        owns_row(h, c1, off),
        owns_row(h, c2, off),
    ensures
        c1 == c2,
{
    if c1 < c2 {
        lemma_prefix_monotone(h, c1 + 1, c2);
        lemma_prefix_monotone(h, c2, h.len() as int);
        lemma_prefix_monotone(h, c1 + 1, h.len() as int);
    } else if c2 < c1 {
        lemma_prefix_monotone(h, c2 + 1, c1);
        lemma_prefix_monotone(h, c1, h.len() as int);
        lemma_prefix_monotone(h, c2 + 1, h.len() as int);
    }
}

/// The current file's review mark flipped (and the state marked dirty) when
/// it is tracked; the reviews unchanged otherwise.
pub open spec fn toggled_current(a: App, b: App) -> bool {
    let c = a.diff_state.current_file_idx as int;
    let found = c < a.diff_files@.len() && find_review(
        a.session.files@,
        display_path_of(a.diff_files@[c]@),
    ) is Some;
    let i = find_review(a.session.files@, display_path_of(a.diff_files@[c]@))->0;
    &&& same_identity(b.session, a.session)
    &&& !found ==> b.session.files@ == a.session.files@
    &&& found ==> b.dirty && b.session.files@ == a.session.files@.update(
        i,
        FileReview { reviewed: !a.session.files@[i].reviewed, ..a.session.files@[i] },
    )
}

/// An unreviewed, comment-free review of one of `files`.
pub open spec fn fresh_review_of_some_file(r: FileReview, files: Seq<DiffFile>) -> bool {
    &&& !r.reviewed
    &&& r.file_comments@.len() == 0
    &&& r.line_comments@.len() == 0
    &&& exists|j: int| 0 <= j < files.len() && r.path@ == display_path_of(#[trigger] files[j]@)
}

pub open spec fn tracks_all(files: Seq<DiffFile>, reviews: Seq<FileReview>) -> bool {
    forall|k: int|
        0 <= k < files.len() ==> (#[trigger] find_review(reviews, display_path_of(files[k]@))) is Some
}

impl App {
    /// Row counts of the files under the current review state.
    pub open spec fn row_heights(&self) -> Seq<usize> {
        if self.diff_view_mode == DiffViewMode::Unified {
            heights(file_views(self.diff_files@), self.session.files@)
        } else {
            two_column_heights(file_views(self.diff_files@), self.session.files@)
        }
    }

    /// The file `next_file` moves to.
    pub open spec fn next_file_index(&self) -> int {
        if self.diff_state.current_file_idx + 1 < self.diff_files@.len() {
            self.diff_state.current_file_idx + 1
        } else {
            self.diff_files@.len() - 1
        }
    }

    /// The file `prev_file` moves to.
    pub open spec fn prev_file_index(&self) -> int {
        if self.diff_state.current_file_idx == 0 {
            0
        } else if self.diff_state.current_file_idx - 1 < self.diff_files@.len() {
            self.diff_state.current_file_idx - 1
        } else {
            self.diff_files@.len() - 1
        }
    }

    /// Row counts of the files in the current layout.
    fn current_heights(&self) -> (r: Vec<usize>)
        ensures
            r@ == self.row_heights(),
            forall|i: int| 0 <= i < r@.len() ==> r@[i] >= 1,
    {
        if self.diff_view_mode == DiffViewMode::Unified {
            file_heights(&self.diff_files, &self.session)
        } else {
            two_column_file_heights(&self.diff_files, &self.session)
        }
    }

    /// The file list's selection is the current file, and the scroll offset
    /// lies in the rows of the current file (when the row total fits in `usize`).
    pub open spec fn nav_ok(&self) -> bool {
        let n = self.diff_files@.len() as int;
        let c = self.diff_state.current_file_idx as int;
        let h = self.row_heights();
        &&& self.file_list_state.selected == self.diff_state.current_file_idx
        &&& n == 0 ==> c == 0
        &&& n > 0 ==> c < n && (prefix(h, n) <= usize::MAX ==> owns_row(
            h,
            c,
            self.diff_state.scroll_offset as int,
        ))
    }

    /// Navigation changed nothing but the scroll offset, current file and selection.
    pub open spec fn same_content(&self, other: &App) -> bool {
        &&& self.session == other.session
        &&& self.diff_files == other.diff_files
        &&& self.input_mode == other.input_mode
        &&& self.diff_view_mode == other.diff_view_mode
        &&& self.dirty == other.dirty
    }

    /// Everything but the input mode, the view mode and the text buffers is unchanged.
    pub open spec fn keeps_state_of(&self, other: &App) -> bool {
        &&& self.session == other.session
        &&& self.diff_files == other.diff_files
        &&& self.diff_state == other.diff_state
        &&& self.file_list_state == other.file_list_state
        &&& self.should_quit == other.should_quit
        &&& self.dirty == other.dirty
        &&& self.message == other.message
        &&& self.focused_panel == other.focused_panel
        &&& self.diff_view_mode == other.diff_view_mode
    }

    /// Starts a review of `diff_files`: every file gets a review entry under
    /// its display path, and the cursor is on the first row.
    pub fn new(vcs_info: VcsInfo, diff_files: Vec<DiffFile>) -> (r: App)
        ensures
            r.session.wf(),
            tracks_all(r.diff_files@, r.session.files@),
            r.session.files@.len() <= diff_files@.len(),
            forall|k: int| 0 <= k < r.session.files@.len() ==> fresh_review_of_some_file(
                #[trigger] r.session.files@[k],
                diff_files@,
            ),
            r.diff_files@ == diff_files@,
            r.session.repo_path@ == vcs_info.root_path@,
            r.session.base_commit@ == vcs_info.head_commit@,
            r.diff_state.scroll_offset == 0,
            r.diff_state.current_file_idx == 0,
            r.file_list_state.selected == 0,
            r.nav_ok(),
            r.input_mode == InputMode::Normal,
            r.focused_panel == FocusedPanel::Diff,
            r.diff_view_mode == DiffViewMode::Unified,
            !r.dirty,
            !r.should_quit,
            r.message is None,
    {
        let mut session = ReviewSession::new(
            vcs_info.root_path.clone(),
            vcs_info.head_commit.clone(),
        );
        let mut i: usize = 0;
        while i < diff_files.len()
            invariant
                i <= diff_files.len(),
                session.wf(),
                session.repo_path@ == vcs_info.root_path@,
                session.base_commit@ == vcs_info.head_commit@,
                session.files@.len() <= i,
                forall|k: int| 0 <= k < session.files@.len() ==> fresh_review_of_some_file(
                    #[trigger] session.files@[k],
                    diff_files@,
                ),
                forall|k: int|
                    0 <= k < i ==> (#[trigger] find_review(
                        session.files@,
                        display_path_of(diff_files@[k]@),
                    )) is Some,
            decreases diff_files.len() - i,
        {
            let path = diff_files[i].display_path();
            let ghost before = session.files@;
            let ghost pv = path@;
            session.add_file(path, diff_files[i].status);
            proof {
                if find_review(before, pv) is None {
                    assert(session.files@.drop_last() =~= before);
                    assert forall|k: int| 0 <= k < session.files@.len() implies fresh_review_of_some_file(
                        #[trigger] session.files@[k],
                        diff_files@,
                    ) by {
                        if k < before.len() {
                            assert(session.files@[k] == before[k]);
                        } else {
                            assert(session.files@[k].path@ == display_path_of(diff_files@[i as int]@));
                        }
                    }
                }
                assert forall|k: int| 0 <= k <= i implies (#[trigger] find_review(
                    session.files@,
                    display_path_of(diff_files@[k]@),
                )) is Some by {
                    let p = display_path_of(diff_files@[k]@);
                    if find_review(before, pv) is None {
                        if p != pv {
                            assert(find_review(session.files@, p) == find_review(before, p));
                        }
                    }
                }
            }
            i += 1;
        }
        let app = App {
            vcs_info,
            session,
            diff_files,
            input_mode: InputMode::Normal,
            focused_panel: FocusedPanel::Diff,
            diff_view_mode: DiffViewMode::Unified,
            file_list_state: FileListState { selected: 0, offset: 0 },
            diff_state: DiffState { scroll_offset: 0, cursor_line: 0, current_file_idx: 0 },
            command_buffer: String::new(),
            comment_buffer: String::new(),
            should_quit: false,
            dirty: false,
            message: None,
        };
        proof {
            let h = app.row_heights();
            if h.len() > 0 {
                assert(prefix(h, 1) == prefix(h, 0) + h[0]);
            }
        }
        app
    }

    pub fn current_file(&self) -> (r: Option<&DiffFile>)
        ensures
            self.diff_state.current_file_idx < self.diff_files@.len() ==> r == Some(
                &self.diff_files@[self.diff_state.current_file_idx as int],
            ),
            self.diff_state.current_file_idx >= self.diff_files@.len() ==> r is None,
    {
        if self.diff_state.current_file_idx < self.diff_files.len() {
            Some(&self.diff_files[self.diff_state.current_file_idx])
        } else {
            None
        }
    }

    pub fn current_file_path(&self) -> (r: Option<String>)
        ensures
            self.diff_state.current_file_idx < self.diff_files@.len() ==> (r matches Some(p) && p@
                == display_path_of(self.diff_files@[self.diff_state.current_file_idx as int]@)),
            self.diff_state.current_file_idx >= self.diff_files@.len() ==> r is None,
    {
        match self.current_file() {
            Some(f) => Some(f.display_path()),
            None => None,
        }
    }

    /// Flips the reviewed mark of the current file and marks the state dirty.
    pub fn toggle_reviewed(&mut self)
        requires
            old(self).session.wf(),
        ensures
            final(self).session.wf(),
            same_identity(final(self).session, old(self).session),
            final(self).session.updated_at == old(self).session.updated_at,
            final(self).diff_files == old(self).diff_files,
            final(self).diff_state == old(self).diff_state,
            final(self).file_list_state == old(self).file_list_state,
            final(self).input_mode == old(self).input_mode,
            final(self).focused_panel == old(self).focused_panel,
            final(self).diff_view_mode == old(self).diff_view_mode,
            final(self).message == old(self).message,
            final(self).should_quit == old(self).should_quit,
            final(self).command_buffer == old(self).command_buffer,
            final(self).comment_buffer == old(self).comment_buffer,
            ({
                let c = old(self).diff_state.current_file_idx as int;
                let found = c < old(self).diff_files@.len() && find_review(
                    old(self).session.files@,
                    display_path_of(old(self).diff_files@[c]@),
                ) is Some;
                &&& !found ==> final(self).session.files@ == old(self).session.files@
                    && final(self).dirty == old(self).dirty
                &&& found ==> final(self).dirty && {
                    let i = find_review(
                        old(self).session.files@,
                        display_path_of(old(self).diff_files@[c]@),
                    )->0;
                    let r = old(self).session.files@[i];
                    final(self).session.files@ == old(self).session.files@.update(
                        i,
                        FileReview { reviewed: !r.reviewed, ..r },
                    )
                }
            }),
    {
        if let Some(path) = self.current_file_path() {
            if self.session.toggle_reviewed(&path) {
                self.dirty = true;
            }
        }
    }

    pub fn is_current_file_reviewed(&self) -> (r: bool)
        ensures
            r == (self.diff_state.current_file_idx < self.diff_files@.len() && (review_of(
                self.session.files@,
                display_path_of(self.diff_files@[self.diff_state.current_file_idx as int]@),
            ) matches Some(rv) && rv.reviewed)),
    {
        match self.current_file_path() {
            Some(p) => match self.session.file_index(&p) {
                Some(i) => {
                    proof {
                        crate::review::lemma_find_bounds(self.session.files@, p@);
                    }
                    self.session.files[i].reviewed
                },
                None => false,
            },
            None => false,
        }
    }

    pub fn file_count(&self) -> (r: usize)
        ensures
            r == self.diff_files@.len(),
    {
        self.diff_files.len()
    }

    pub fn reviewed_count(&self) -> (r: usize)
        ensures
            r == count_reviewed(self.session.files@),
    {
        self.session.reviewed_count()
    }

    pub fn set_message(&mut self, msg: String)
        ensures
            final(self).message == Some(msg),
            final(self).same_content(old(self)),
            final(self).diff_state == old(self).diff_state,
            final(self).file_list_state == old(self).file_list_state,
    {
        self.message = Some(msg);
    }

    pub fn clear_message(&mut self)
        ensures
            final(self).message is None,
            final(self).same_content(old(self)),
            final(self).diff_state == old(self).diff_state,
            final(self).file_list_state == old(self).file_list_state,
    {
        self.message = None;
    }

    /// Re-derives the current file (and selection) from the scroll offset.
    fn update_current_file_from_scroll(&mut self)
        ensures
            final(self).same_content(old(self)),
            final(self).diff_state.scroll_offset == old(self).diff_state.scroll_offset,
            old(self).diff_files@.len() > 0 ==> final(self).nav_ok(),
            old(self).diff_files@.len() > 0 ==> owns_row(
                final(self).row_heights(),
                final(self).diff_state.current_file_idx as int,
                final(self).diff_state.scroll_offset as int,
            ),
            old(self).diff_files@.len() == 0 ==> final(self).diff_state == old(self).diff_state
                && final(self).file_list_state == old(self).file_list_state,
    {
        let h = self.current_heights();
        let off = self.diff_state.scroll_offset;
        let mut cum: usize = 0;
        let mut i: usize = 0;
        while i < h.len()
            invariant
                i <= h.len(),
                h@ == self.row_heights(),
                h@.len() == self.diff_files@.len(),
                cum == prefix(h@, i as int),
                cum <= off,
                off == self.diff_state.scroll_offset,
                self.session == old(self).session,
                self.diff_files == old(self).diff_files,
                self.input_mode == old(self).input_mode,
                self.diff_view_mode == old(self).diff_view_mode,
                self.dirty == old(self).dirty,
                self.diff_state == old(self).diff_state,
                self.file_list_state == old(self).file_list_state,
            decreases h.len() - i,
        {
            if h[i] > off - cum {
                self.diff_state.current_file_idx = i;
                self.file_list_state.selected = i;
                return;
            }
            cum = cum + h[i];
            i += 1;
        }
        if h.len() > 0 {
            self.diff_state.current_file_idx = h.len() - 1;
            self.file_list_state.selected = h.len() - 1;
        }
    }

    pub fn scroll_down(&mut self, lines: usize)
        ensures
            final(self).same_content(old(self)),
            final(self).diff_state.scroll_offset == clamp(
                (old(self).diff_state.scroll_offset + lines) as nat,
            ),
            old(self).diff_files@.len() > 0 ==> final(self).nav_ok(),
            old(self).diff_files@.len() > 0 ==> owns_row(
                final(self).row_heights(),
                final(self).diff_state.current_file_idx as int,
                final(self).diff_state.scroll_offset as int,
            ),
            old(self).nav_ok() ==> final(self).nav_ok(),
    {
        self.diff_state.scroll_offset = self.diff_state.scroll_offset.saturating_add(lines);
        self.update_current_file_from_scroll();
    }

    pub fn scroll_up(&mut self, lines: usize)
        ensures
            final(self).same_content(old(self)),
            final(self).diff_state.scroll_offset == if old(self).diff_state.scroll_offset >= lines {
                old(self).diff_state.scroll_offset - lines
            } else {
                0
            },
            old(self).diff_files@.len() > 0 ==> final(self).nav_ok(),
            old(self).diff_files@.len() > 0 ==> owns_row(
                final(self).row_heights(),
                final(self).diff_state.current_file_idx as int,
                final(self).diff_state.scroll_offset as int,
            ),
            old(self).nav_ok() ==> final(self).nav_ok(),
    {
        self.diff_state.scroll_offset = self.diff_state.scroll_offset.saturating_sub(lines);
        self.update_current_file_from_scroll();
    }

    /// Rows of all files before file `file_idx`.
    fn calculate_file_scroll_offset(&self, file_idx: usize) -> (r: usize)
        requires
            file_idx <= self.diff_files@.len(),
        ensures
            r == clamp(prefix(self.row_heights(), file_idx as int)),
    {
        let h = self.current_heights();
        rows_before(&h, file_idx)
    }

    /// Makes file `idx` (clamped to the last file) current, scrolled to its header.
    pub fn jump_to_file(&mut self, idx: usize)
        ensures
            final(self).same_content(old(self)),
            old(self).diff_files@.len() == 0 ==> final(self).diff_state == old(self).diff_state
                && final(self).file_list_state == old(self).file_list_state,
            old(self).diff_files@.len() > 0 ==> {
                let i = if idx < old(self).diff_files@.len() {
                    idx as int
                } else {
                    old(self).diff_files@.len() - 1
                };
                &&& final(self).diff_state.current_file_idx == i
                &&& final(self).file_list_state.selected == i
                &&& final(self).diff_state.scroll_offset == clamp(prefix(old(self).row_heights(), i))
                &&& final(self).nav_ok()
            },
            old(self).nav_ok() ==> final(self).nav_ok(),
    {
        let n = self.diff_files.len();
        if n == 0 {
            return;
        }
        let i = if idx < n {
            idx
        } else {
            n - 1
        };
        let offset = self.calculate_file_scroll_offset(i);
        let h = self.current_heights();
        proof {
            lemma_prefix_monotone(h@, i as int, n as int);
            lemma_prefix_monotone(h@, i + 1, n as int);
        }
        self.diff_state.current_file_idx = i;
        self.diff_state.scroll_offset = offset;
        self.file_list_state.selected = i;
    }

    pub fn next_file(&mut self)
        ensures
            final(self).same_content(old(self)),
            old(self).diff_files@.len() > 0 ==> {
                &&& final(self).nav_ok()
                &&& final(self).diff_state.current_file_idx == old(self).next_file_index()
                &&& final(self).file_list_state.selected == old(self).next_file_index()
                &&& final(self).diff_state.scroll_offset == clamp(
                    prefix(old(self).row_heights(), old(self).next_file_index()),
                )
            },
            old(self).nav_ok() ==> final(self).nav_ok(),
    {
        let n = self.diff_files.len();
        let candidate = self.diff_state.current_file_idx.saturating_add(1);
        let last = n.saturating_sub(1);
        let next = if candidate < last {
            candidate
        } else {
            last
        };
        self.jump_to_file(next);
    }

    pub fn prev_file(&mut self)
        ensures
            final(self).same_content(old(self)),
            old(self).diff_files@.len() > 0 ==> {
                &&& final(self).nav_ok()
                &&& final(self).diff_state.current_file_idx == old(self).prev_file_index()
                &&& final(self).file_list_state.selected == old(self).prev_file_index()
                &&& final(self).diff_state.scroll_offset == clamp(
                    prefix(old(self).row_heights(), old(self).prev_file_index()),
                )
            },
            old(self).nav_ok() ==> final(self).nav_ok(),
    {
        let prev = self.diff_state.current_file_idx.saturating_sub(1);
        self.jump_to_file(prev);
    }

    pub fn enter_command_mode(&mut self)
        ensures
            final(self).input_mode == InputMode::Command,
            final(self).command_buffer@.len() == 0,
            final(self).keeps_state_of(old(self)),
    {
        self.input_mode = InputMode::Command;
        self.command_buffer = String::new();
    }

    pub fn exit_command_mode(&mut self)
        ensures
            final(self).input_mode == InputMode::Normal,
            final(self).command_buffer@.len() == 0,
            final(self).keeps_state_of(old(self)),
    {
        self.input_mode = InputMode::Normal;
        self.command_buffer = String::new();
    }

    pub fn enter_comment_mode(&mut self)
        ensures
            final(self).input_mode == InputMode::Comment,
            final(self).comment_buffer@.len() == 0,
            final(self).keeps_state_of(old(self)),
    {
        self.input_mode = InputMode::Comment;
        self.comment_buffer = String::new();
    }

    pub fn exit_comment_mode(&mut self)
        ensures
            final(self).input_mode == InputMode::Normal,
            final(self).comment_buffer@.len() == 0,
            final(self).keeps_state_of(old(self)),
    {
        self.input_mode = InputMode::Normal;
        self.comment_buffer = String::new();
    }

    pub fn toggle_help(&mut self)
        ensures
            final(self).keeps_state_of(old(self)),
            old(self).input_mode == InputMode::Help ==> final(self).input_mode == InputMode::Normal,
            old(self).input_mode != InputMode::Help ==> final(self).input_mode == InputMode::Help,
    {
        if self.input_mode == InputMode::Help {
            self.input_mode = InputMode::Normal;
        } else {
            self.input_mode = InputMode::Help;
        }
    }

    /// Switches between the unified and the two-column layout.
    pub fn toggle_diff_view_mode(&mut self)
        ensures
            final(self).session == old(self).session,
            final(self).diff_files == old(self).diff_files,
            final(self).diff_state == old(self).diff_state,
            final(self).file_list_state == old(self).file_list_state,
            final(self).should_quit == old(self).should_quit,
            final(self).dirty == old(self).dirty,
            final(self).message == old(self).message,
            final(self).focused_panel == old(self).focused_panel,
            old(self).diff_view_mode == DiffViewMode::Unified ==> final(self).diff_view_mode
                == DiffViewMode::SideBySide,
            old(self).diff_view_mode == DiffViewMode::SideBySide ==> final(self).diff_view_mode
                == DiffViewMode::Unified,
            final(self).input_mode == old(self).input_mode,
    {
        self.diff_view_mode = match self.diff_view_mode {
            DiffViewMode::Unified => DiffViewMode::SideBySide,
            DiffViewMode::SideBySide => DiffViewMode::Unified,
        };
    }
}

/// A user action, as the key bindings produce it.
#[derive(Clone, Copy, Debug, PartialEq, Eq, Structural)]
pub enum Action {
    Quit,
    ScrollDown(usize),
    ScrollUp(usize),
    HalfPageDown,
    HalfPageUp,
    PageDown,
    PageUp,
    GoToTop,
    GoToBottom,
    NextFile,
    PrevFile,
    ToggleReviewed,
    ToggleFocus,
    SelectFile,
    ToggleHelp,
    ToggleDiffView,
    EnterCommandMode,
    EnterCommentMode,
    ExitMode,
    InsertChar(char),
    DeleteChar,
    SubmitInput,
    Nothing,
}

/// Rows moved by a half-page scroll.
pub const HALF_PAGE: usize = 15;

/// Rows moved by a page scroll.
pub const PAGE: usize = 30;

/// Relies on `String::push`: appends one character.
#[verifier::external_body]
fn push_char(s: &mut String, c: char)
    ensures
        final(s)@ == old(s)@.push(c),
{
    s.push(c);
}

/// Relies on `String::pop`: removes the last character, if any.
#[verifier::external_body]
fn pop_char(s: &mut String)
    ensures
        old(s)@.len() > 0 ==> final(s)@ == old(s)@.drop_last(),
        old(s)@.len() == 0 ==> final(s)@ == old(s)@,
{
    s.pop();
}

/// What a submitted command line does.
pub open spec fn quits(cmd: Seq<char>) -> bool {
    trim(cmd) == "q"@ || trim(cmd) == "quit"@ || trim(cmd) == "wq"@
}

/// The message a submitted command line leaves, if it does not quit.
pub open spec fn command_message(cmd: Seq<char>) -> Seq<char> {
    if trim(cmd) == "w"@ || trim(cmd) == "write"@ {
        "Save not yet implemented"@
    } else if trim(cmd) == "e"@ || trim(cmd) == "export"@ {
        "Export not yet implemented"@
    } else {
        "Unknown command: "@ + trim(cmd)
    }
}

impl App {
    /// Runs a command line: `q`, `quit` and `wq` quit; `w`/`write` and
    /// `e`/`export` report that they are not available; anything else is
    /// reported as unknown. Returns to normal mode.
    fn submit_command(&mut self)
        ensures
            final(self).input_mode == InputMode::Normal,
            final(self).command_buffer@.len() == 0,
            final(self).session == old(self).session,
            final(self).diff_files == old(self).diff_files,
            final(self).dirty == old(self).dirty,
            final(self).diff_state == old(self).diff_state,
            final(self).file_list_state == old(self).file_list_state,
            quits(old(self).command_buffer@) ==> final(self).should_quit && final(self).message
                == old(self).message,
            !quits(old(self).command_buffer@) ==> final(self).should_quit == old(self).should_quit
                && (final(self).message matches Some(m) && m@ == command_message(
                old(self).command_buffer@,
            )),
    {
        let cmd = trim_chars(&chars_of(self.command_buffer.as_str()));
        if equals_str(&cmd, "q") || equals_str(&cmd, "quit") || equals_str(&cmd, "wq") {
            self.should_quit = true;
        } else if equals_str(&cmd, "w") || equals_str(&cmd, "write") {
            self.message = Some(String::from_str("Save not yet implemented"));
        } else if equals_str(&cmd, "e") || equals_str(&cmd, "export") {
            self.message = Some(String::from_str("Export not yet implemented"));
        } else {
            let mut m = String::from_str("Unknown command: ");
            let text = string_from_chars(&cmd);
            m.append(text.as_str());
            self.message = Some(m);
        }
        self.exit_command_mode();
    }

    /// Adds the typed text, trimmed, as a note on the current file when it is
    /// not empty and the file is tracked. Returns to normal mode.
    fn submit_comment(&mut self)
        requires
            old(self).session.wf(),
        ensures
            final(self).session.wf(),
            final(self).input_mode == InputMode::Normal,
            final(self).comment_buffer@.len() == 0,
            final(self).diff_files == old(self).diff_files,
            final(self).diff_state == old(self).diff_state,
            final(self).file_list_state == old(self).file_list_state,
            final(self).should_quit == old(self).should_quit,
            ({
                let c = old(self).diff_state.current_file_idx as int;
                let text = trim(old(self).comment_buffer@);
                let added = text.len() > 0 && c < old(self).diff_files@.len() && find_review(
                    old(self).session.files@,
                    display_path_of(old(self).diff_files@[c]@),
                ) is Some;
                &&& !added ==> final(self).session == old(self).session && final(self).dirty
                    == old(self).dirty
                &&& added ==> {
                    let i = find_review(
                        old(self).session.files@,
                        display_path_of(old(self).diff_files@[c]@),
                    )->0;
                    let r = old(self).session.files@[i];
                    &&& final(self).dirty
                    &&& same_identity(final(self).session, old(self).session)
                    &&& final(self).session.files@.len() == old(self).session.files@.len()
                    &&& forall|k: int|
                        0 <= k < old(self).session.files@.len() && k != i ==> final(self).session.files@[k] == old(self).session.files@[k]
                    &&& final(self).session.files@[i].file_comments@.len() == r.file_comments@.len()
                        + 1
                    &&& final(self).session.files@[i].file_comments@.last().content@ == text
                    &&& final(self).session.files@[i].file_comments@.last().comment_type
                        == CommentType::Note
                    &&& final(self).session.files@[i].file_comments@.last().side is None
                    &&& final(self).session.files@[i].file_comments@.drop_last()
                        == r.file_comments@
                    &&& final(self).session.files@[i].line_comments@ == r.line_comments@
                    &&& final(self).session.files@[i].path == r.path
                    &&& final(self).session.files@[i].reviewed == r.reviewed
                }
            }),
    {
        let text = trim_chars(&chars_of(self.comment_buffer.as_str()));
        if text.len() > 0 {
            if let Some(path) = self.current_file_path() {
                match self.session.file_index(&path) {
                    Some(i) => {
                        proof {
                            lemma_find_bounds(self.session.files@, path@);
                        }
                        let ghost before = self.session.files@;
                        let mut review = self.session.files.remove(i);
                        review.add_file_comment(
                            Comment {
                                content: string_from_chars(&text),
                                comment_type: CommentType::Note,
                                side: None,
                            },
                        );
                        self.session.files.insert(i, review);
                        proof {
                            assert(self.session.files@ =~= before.update(i as int, review));
                            assert(crate::review::unique_paths(self.session.files@)) by {
                                assert forall|a: int, b: int|
                                    0 <= a < self.session.files@.len() && 0 <= b
                                        < self.session.files@.len() && a != b implies self.session.files@[a].path@
                                    != self.session.files@[b].path@ by {
                                    assert(self.session.files@[a].path@ == before[a].path@);
                                    assert(self.session.files@[b].path@ == before[b].path@);
                                }
                            }
                            assert(review.file_comments@.drop_last() =~= before[i as int].file_comments@);
                        }
                        self.session.touch();
                        self.dirty = true;
                    },
                    None => {},
                }
            }
        }
        self.exit_comment_mode();
    }

    /// Applies one user action to the state.
    pub fn handle_action(&mut self, action: Action)
        requires
            old(self).session.wf(),
        ensures
            final(self).session.wf(),
            final(self).diff_files == old(self).diff_files,
            old(self).nav_ok() && !(action is ToggleReviewed) && !(action is SubmitInput) && !(
                action is ToggleDiffView) ==> final(self).nav_ok(),
            match action {
                Action::Quit => final(self).should_quit,
                Action::ScrollDown(n) => final(self).diff_state.scroll_offset == clamp(
                    (old(self).diff_state.scroll_offset + n) as nat,
                ) && final(self).session == old(self).session,
                Action::ScrollUp(n) => final(self).diff_state.scroll_offset == (if old(self).diff_state.scroll_offset >= n {
                    old(self).diff_state.scroll_offset - n
                } else {
                    0
                }) && final(self).session == old(self).session,
                Action::HalfPageDown => final(self).diff_state.scroll_offset == clamp(
                    (old(self).diff_state.scroll_offset + HALF_PAGE) as nat,
                ),
                Action::PageDown => final(self).diff_state.scroll_offset == clamp(
                    (old(self).diff_state.scroll_offset + PAGE) as nat,
                ),
                Action::GoToTop => old(self).diff_files@.len() > 0 ==> final(self).diff_state.current_file_idx == 0 && final(self).diff_state.scroll_offset == 0,
                Action::GoToBottom => old(self).diff_files@.len() > 0 ==> final(self).diff_state.current_file_idx == old(self).diff_files@.len() - 1,
                Action::ToggleFocus => final(self).focused_panel != old(self).focused_panel,
                Action::SelectFile => old(self).focused_panel == FocusedPanel::FileList && old(self).file_list_state.selected < old(self).diff_files@.len() ==> final(self).diff_state.current_file_idx == old(self).file_list_state.selected,
                Action::ToggleDiffView => final(self).diff_view_mode != old(self).diff_view_mode,
                Action::EnterCommandMode => final(self).input_mode == InputMode::Command,
                Action::EnterCommentMode => final(self).input_mode == InputMode::Comment,
                Action::ExitMode => (old(self).input_mode == InputMode::Command || old(self).input_mode == InputMode::Comment) ==> final(self).input_mode == InputMode::Normal,
                Action::InsertChar(c) => {
                    &&& old(self).input_mode == InputMode::Command ==> final(self).command_buffer@ == old(self).command_buffer@.push(c)
                    &&& old(self).input_mode == InputMode::Comment ==> final(self).comment_buffer@ == old(self).comment_buffer@.push(c)
                },
                Action::DeleteChar => {
                    &&& (old(self).input_mode == InputMode::Command && old(self).command_buffer@.len() > 0) ==> final(self).command_buffer@ == old(self).command_buffer@.drop_last()
                    &&& (old(self).input_mode == InputMode::Comment && old(self).comment_buffer@.len() > 0) ==> final(self).comment_buffer@ == old(self).comment_buffer@.drop_last()
                },
                Action::SubmitInput => {
                    &&& old(self).input_mode == InputMode::Command ==> final(self).input_mode
                        == InputMode::Normal && (quits(old(self).command_buffer@)
                        ==> final(self).should_quit)
                    &&& old(self).input_mode == InputMode::Comment ==> final(self).input_mode
                        == InputMode::Normal
                },
                Action::HalfPageUp => final(self).diff_state.scroll_offset == (if old(self).diff_state.scroll_offset >= HALF_PAGE {
                    old(self).diff_state.scroll_offset - HALF_PAGE
                } else {
                    0
                }),
                Action::PageUp => final(self).diff_state.scroll_offset == (if old(self).diff_state.scroll_offset >= PAGE {
                    old(self).diff_state.scroll_offset - PAGE
                } else {
                    0
                }),
                Action::NextFile => old(self).diff_files@.len() > 0 ==> (final(self).diff_state.current_file_idx
                    == old(self).next_file_index() && final(self).diff_state.scroll_offset == clamp(
                    prefix(old(self).row_heights(), old(self).next_file_index()),
                )),
                Action::PrevFile => old(self).diff_files@.len() > 0 ==> (final(self).diff_state.current_file_idx
                    == old(self).prev_file_index() && final(self).diff_state.scroll_offset == clamp(
                    prefix(old(self).row_heights(), old(self).prev_file_index()),
                )),
                Action::ToggleReviewed => toggled_current(*old(self), *final(self)) && final(self).diff_state == old(self).diff_state,
                Action::ToggleHelp => {
                    &&& old(self).input_mode == InputMode::Help ==> final(self).input_mode
                        == InputMode::Normal
                    &&& old(self).input_mode != InputMode::Help ==> final(self).input_mode
                        == InputMode::Help
                },
                Action::Nothing => *final(self) == *old(self),
            },
    {
        match action {
            Action::Quit => {
                self.should_quit = true;
            },
            Action::ScrollDown(n) => self.scroll_down(n),
            Action::ScrollUp(n) => self.scroll_up(n),
            Action::HalfPageDown => self.scroll_down(HALF_PAGE),
            Action::HalfPageUp => self.scroll_up(HALF_PAGE),
            Action::PageDown => self.scroll_down(PAGE),
            Action::PageUp => self.scroll_up(PAGE),
            Action::GoToTop => {
                self.jump_to_file(0);
                proof {
                    assert(prefix(old(self).row_heights(), 0) == 0);
                }
            },
            Action::GoToBottom => {
                let last = self.file_count().saturating_sub(1);
                self.jump_to_file(last);
            },
            Action::NextFile => self.next_file(),
            Action::PrevFile => self.prev_file(),
            Action::ToggleReviewed => {
                self.toggle_reviewed();
                self.session.touch();
            },
            Action::ToggleFocus => {
                self.focused_panel = match self.focused_panel {
                    FocusedPanel::FileList => FocusedPanel::Diff,
                    FocusedPanel::Diff => FocusedPanel::FileList,
                };
            },
            Action::SelectFile => {
                if self.focused_panel == FocusedPanel::FileList {
                    let selected = self.file_list_state.selected;
                    self.jump_to_file(selected);
                }
            },
            Action::ToggleHelp => self.toggle_help(),
            Action::ToggleDiffView => self.toggle_diff_view_mode(),
            Action::EnterCommandMode => self.enter_command_mode(),
            Action::EnterCommentMode => self.enter_comment_mode(),
            Action::ExitMode => {
                if self.input_mode == InputMode::Command {
                    self.exit_command_mode();
                } else if self.input_mode == InputMode::Comment {
                    self.exit_comment_mode();
                }
            },
            Action::InsertChar(c) => {
                if self.input_mode == InputMode::Command {
                    push_char(&mut self.command_buffer, c);
                } else if self.input_mode == InputMode::Comment {
                    push_char(&mut self.comment_buffer, c);
                }
            },
            Action::DeleteChar => {
                if self.input_mode == InputMode::Command {
                    pop_char(&mut self.command_buffer);
                } else if self.input_mode == InputMode::Comment {
                    pop_char(&mut self.comment_buffer);
                }
            },
            Action::SubmitInput => {
                if self.input_mode == InputMode::Command {
                    self.submit_command();
                } else if self.input_mode == InputMode::Comment {
                    self.submit_comment();
                }
            },
            Action::Nothing => {},
        }
    }
}

} // verus!
