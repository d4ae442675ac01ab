//! Review-session model: per-file reviewed state and comments.

use vstd::prelude::*;

use crate::model::FileStatus;

verus! {

#[derive(Clone, Copy, Debug, PartialEq, Eq, Structural)]
pub enum CommentType {
    Note,
    Suggestion,
    Issue,
    Praise,
}

/// Which column of a changed line a comment is anchored to.
#[derive(Clone, Copy, Debug, PartialEq, Eq, Structural)]
pub enum LineSide {
    Old,
    New,
}

#[derive(Clone, Debug)]
pub struct Comment {
    pub content: String,
    pub comment_type: CommentType,
    pub side: Option<LineSide>,
}

/// A comment anchored to a line number.
#[derive(Clone, Debug)]
pub struct LineComment {
    pub line: u32,
    pub comment: Comment,
}

/// Review state of one file. Line comments are kept in insertion order; the
/// comments on one line are those entries whose `line` is that number.
#[derive(Clone, Debug)]
pub struct FileReview {
    pub path: String,
    pub reviewed: bool,
    pub status: FileStatus,
    pub file_comments: Vec<Comment>,
    pub line_comments: Vec<LineComment>,
}

/// The comments on `line`, in insertion order.
pub open spec fn comments_on(entries: Seq<LineComment>, line: u32) -> Seq<Comment>
    decreases entries.len(),
{
    if entries.len() == 0 {
        seq![]
    } else {
        let rest = comments_on(entries.drop_last(), line);
        if entries.last().line == line {
            rest.push(entries.last().comment)
        } else {
            rest
        }
    }
}

pub open spec fn comment_total(r: FileReview) -> nat {
    r.file_comments@.len() + r.line_comments@.len()
}

impl FileReview {
    pub fn new(path: String, status: FileStatus) -> (r: Self)
        ensures
            r.path@ == path@,
            r.status == status,
            !r.reviewed,
            r.file_comments@.len() == 0,
            r.line_comments@.len() == 0,
    {
        FileReview {
            path,
            reviewed: false,
            status,
            file_comments: Vec::new(),
            line_comments: Vec::new(),
        }
    }

    /// File comments plus line comments.
    pub fn comment_count(&self) -> (r: usize)
        requires
            comment_total(*self) <= usize::MAX,
        ensures
            r == comment_total(*self),
    {
        self.file_comments.len() + self.line_comments.len()
    }

    pub fn add_file_comment(&mut self, comment: Comment)
        ensures
            final(self).file_comments@ == old(self).file_comments@.push(comment),
            final(self).line_comments@ == old(self).line_comments@,
            final(self).path == old(self).path,
            final(self).reviewed == old(self).reviewed,
            final(self).status == old(self).status,
    {
        self.file_comments.push(comment);
    }

    /// Appends `comment` to the comments on `line`; other lines keep theirs.
    pub fn add_line_comment(&mut self, line: u32, comment: Comment)
        ensures
            final(self).line_comments@ == old(self).line_comments@.push(
                LineComment { line, comment },
            ),
            comments_on(final(self).line_comments@, line) == comments_on(
                old(self).line_comments@,
                line,
            ).push(comment),
            forall|other: u32|
                other != line ==> comments_on(final(self).line_comments@, other) == comments_on(
                    old(self).line_comments@,
                    other,
                ),
            final(self).file_comments@ == old(self).file_comments@,
            final(self).path == old(self).path,
            final(self).reviewed == old(self).reviewed,
            final(self).status == old(self).status,
    {
        let ghost before = self.line_comments@;
        self.line_comments.push(LineComment { line, comment });
        assert(self.line_comments@.drop_last() =~= before);
    }
}

/// Positions of the entries on `line`, in insertion order.
pub open spec fn entries_on(entries: Seq<LineComment>, line: u32) -> Seq<usize>
    decreases entries.len(),
{
    if entries.len() == 0 {
        seq![]
    } else {
        let rest = entries_on(entries.drop_last(), line);
        if entries.last().line == line {
            rest.push((entries.len() - 1) as usize)
        } else {
            rest
        }
    }
}

impl FileReview {
    /// Where the comments on `line` sit in `line_comments`, in insertion order.
    pub fn line_comment_indices(&self, line: u32) -> (r: Vec<usize>)
        ensures
            r@ == entries_on(self.line_comments@, line),
    {
        let mut r: Vec<usize> = Vec::new();
        let mut i: usize = 0;
        while i < self.line_comments.len()
            invariant
                i <= self.line_comments.len(),
                r@ == entries_on(self.line_comments@.take(i as int), line),
            decreases self.line_comments.len() - i,
        {
            assert(self.line_comments@.take(i + 1).drop_last() =~= self.line_comments@.take(
                i as int,
            ));
            if self.line_comments[i].line == line {
                r.push(i);
            }
            i += 1;
        }
        assert(self.line_comments@.take(i as int) =~= self.line_comments@);
        r
    }
}

/// Position of the review of `path`, if any.
pub open spec fn find_review(files: Seq<FileReview>, path: Seq<char>) -> Option<int>
    decreases files.len(),
{
    if files.len() == 0 {
        None
    } else if files.last().path@ == path {
        Some(files.len() - 1)
    } else {
        find_review(files.drop_last(), path)
    }
}

pub open spec fn review_of(files: Seq<FileReview>, path: Seq<char>) -> Option<FileReview> {
    match find_review(files, path) {
        Some(i) => Some(files[i]),
        None => None,
    }
}

/// No two reviews share a path.
pub open spec fn unique_paths(files: Seq<FileReview>) -> bool {
    forall|i: int, j: int|
        0 <= i < files.len() && 0 <= j < files.len() && i != j ==> files[i].path@ != files[j].path@
}

pub open spec fn count_reviewed(files: Seq<FileReview>) -> nat
    decreases files.len(),
{
    if files.len() == 0 {
        0
    } else {
        count_reviewed(files.drop_last()) + if files.last().reviewed {
            1nat
        } else {
            0nat
        }
    }
}

pub open spec fn any_comments(files: Seq<FileReview>) -> bool {
    exists|i: int| 0 <= i < files.len() && comment_total(#[trigger] files[i]) > 0
}

/// One review pass over one changeset. Timestamps are milliseconds since the
/// Unix epoch.
#[derive(Clone, Debug)]
pub struct ReviewSession {
    pub id: String,
    pub version: String,
    pub repo_path: String,
    pub base_commit: String,
    pub created_at: i64,
    pub updated_at: i64,
    pub files: Vec<FileReview>,
    pub session_notes: Option<String>,
}

/// Relies on `uuid::Uuid::new_v4` and `Uuid`'s `Display`: a random id printed
/// in the hyphenated form, which is 36 characters long.
#[verifier::external_body]
fn new_session_id() -> (r: String)
    ensures
        r@.len() == 36,
{
    uuid::Uuid::new_v4().to_string()
}

/// Relies on `chrono::Utc::now` and `DateTime::timestamp_millis`: the current
/// time in milliseconds since the Unix epoch.
#[verifier::external_body]
fn now_millis() -> (r: i64) {
    chrono::Utc::now().timestamp_millis()
}

/// Everything but the reviews and the update time is unchanged.
pub open spec fn same_identity(a: ReviewSession, b: ReviewSession) -> bool {
    &&& a.id == b.id
    &&& a.version == b.version
    &&& a.repo_path == b.repo_path
    &&& a.base_commit == b.base_commit
    &&& a.created_at == b.created_at
    &&& a.session_notes == b.session_notes
}

impl ReviewSession {
    /// A session has at most one review per path.
    pub open spec fn wf(&self) -> bool {
        unique_paths(self.files@)
    }

    pub fn new(repo_path: String, base_commit: String) -> (r: Self)
        ensures
            r.wf(),
            r.repo_path@ == repo_path@,
            r.base_commit@ == base_commit@,
            r.version@ == "1.0"@,
            r.id@.len() == 36,
            r.created_at == r.updated_at,
            r.files@.len() == 0,
            r.session_notes is None,
    {
        let now = now_millis();
        ReviewSession {
            id: new_session_id(),
            version: String::from_str("1.0"),
            repo_path,
            base_commit,
            created_at: now,
            updated_at: now,
            files: Vec::new(),
            session_notes: None,
        }
    }

    /// Stamps the modification time.
    pub fn touch(&mut self)
        ensures
            same_identity(*final(self), *old(self)),
            final(self).files == old(self).files,
    {
        self.updated_at = now_millis();
    }

    pub fn reviewed_count(&self) -> (r: usize)
        ensures
            r == count_reviewed(self.files@),
    {
        let mut n: usize = 0;
        let mut i: usize = 0;
        while i < self.files.len()
            invariant
                i <= self.files.len(),
                n == count_reviewed(self.files@.take(i as int)),
                n <= i,
            decreases self.files.len() - i,
        {
            assert(self.files@.take(i + 1).drop_last() =~= self.files@.take(i as int));
            if self.files[i].reviewed {
                n += 1;
            }
            i += 1;
        }
        assert(self.files@.take(i as int) =~= self.files@);
        n
    }

    pub fn total_files(&self) -> (r: usize)
        ensures
            r == self.files@.len(),
    {
        self.files.len()
    }

    /// Index of the review of `path`.
    pub fn file_index(&self, path: &String) -> (r: Option<usize>)
        ensures
            match r {
                Some(i) => find_review(self.files@, path@) == Some(i as int),
                None => find_review(self.files@, path@) is None,
            },
    {
        let mut i: usize = self.files.len();
        assert(self.files@.take(i as int) =~= self.files@);
        while i > 0
            invariant
                i <= self.files.len(),
                find_review(self.files@, path@) == find_review(self.files@.take(i as int), path@),
            decreases i,
        {
            let ghost pre = self.files@.take(i as int);
            assert(pre.drop_last() =~= self.files@.take(i - 1));
            if self.files[i - 1].path == *path {
                return Some(i - 1);
            }
            i -= 1;
        }
        None
    }

    /// The review of `path`, to change in place.
    pub fn get_file_mut(&mut self, path: &String) -> (r: Option<&mut FileReview>)
        ensures
            match r {
                Some(f) => {
                    &&& find_review(old(self).files@, path@) is Some
                    &&& *f == old(self).files@[find_review(old(self).files@, path@)->0]
                    &&& final(self).files@ == old(self).files@.update(
                        find_review(old(self).files@, path@)->0,
                        *final(f),
                    )
                    &&& same_identity(*final(self), *old(self))
                },
                None => find_review(old(self).files@, path@) is None && *final(self) == *old(self),
            },
    {
        match self.file_index(path) {
            Some(i) => {
                proof {
                    lemma_find_bounds(self.files@, path@);
                }
                Some(&mut self.files[i])
            },
            None => None,
        }
    }

    /// Adds a review for `path` unless it already has one.
    pub fn add_file(&mut self, path: String, status: FileStatus)
        requires
            old(self).wf(),
        ensures
            final(self).wf(),
            same_identity(*final(self), *old(self)),
            final(self).updated_at == old(self).updated_at,
            find_review(old(self).files@, path@) is Some ==> final(self).files@ == old(
                self,
            ).files@,
            find_review(old(self).files@, path@) is None ==> final(self).files@ == old(
                self,
            ).files@.push(final(self).files@.last()) && final(self).files@.last().path@ == path@
                && final(self).files@.last().status == status && !final(self).files@.last().reviewed
                && final(self).files@.last().file_comments@.len() == 0
                && final(self).files@.last().line_comments@.len() == 0,
    {
        match self.file_index(&path) {
            Some(_) => {},
            None => {
                proof {
                    lemma_find_none(self.files@, path@);
                }
                let review = FileReview::new(path, status);
                self.files.push(review);
            },
        }
    }

    /// Flips the reviewed flag of `path`; returns whether the path is tracked.
    pub fn toggle_reviewed(&mut self, path: &String) -> (found: bool)
        requires
            old(self).wf(),
        ensures
            final(self).wf(),
            same_identity(*final(self), *old(self)),
            final(self).updated_at == old(self).updated_at,
            found == find_review(old(self).files@, path@) is Some,
            !found ==> final(self).files@ == old(self).files@,
            found ==> ({
                let i = find_review(old(self).files@, path@)->0;
                let r = old(self).files@[i];
                final(self).files@ == old(self).files@.update(
                    i,
                    FileReview { reviewed: !r.reviewed, ..r },
                )
            }),
    {
        match self.file_index(path) {
            Some(i) => {
                proof {
                    lemma_find_bounds(self.files@, path@);
                }
                let mut r = self.files.remove(i);
                r.reviewed = !r.reviewed;
                self.files.insert(i, r);
                assert(self.files@ =~= old(self).files@.update(
                    i as int,
                    FileReview { reviewed: !old(self).files@[i as int].reviewed, ..old(self).files@[i as int] },
                ));
                true
            },
            None => false,
        }
    }

    pub fn has_comments(&self) -> (r: bool)
        ensures
            r == any_comments(self.files@),
    {
        let mut i: usize = 0;
        while i < self.files.len()
            invariant
                i <= self.files.len(),
                forall|k: int| 0 <= k < i ==> comment_total(#[trigger] self.files@[k]) == 0,
            decreases self.files.len() - i,
        {
            if self.files[i].file_comments.len() > 0 || self.files[i].line_comments.len() > 0 {
                return true;
            }
            i += 1;
        }
        false
    }
}

pub proof fn lemma_find_bounds(files: Seq<FileReview>, path: Seq<char>)
    ensures
        match find_review(files, path) {
            Some(i) => 0 <= i < files.len() && files[i].path@ == path,
            None => true,
        },
    decreases files.len(),
{
    if files.len() > 0 && files.last().path@ != path {
        lemma_find_bounds(files.drop_last(), path);
    }
}

pub proof fn lemma_find_none(files: Seq<FileReview>, path: Seq<char>)
    requires
        find_review(files, path) is None,
    ensures
        forall|k: int| 0 <= k < files.len() ==> (#[trigger] files[k]).path@ != path,
    decreases files.len(),
{
    if files.len() > 0 {
        lemma_find_none(files.drop_last(), path);
        assert forall|k: int| 0 <= k < files.len() implies (#[trigger] files[k]).path@ != path by {
            if k < files.len() - 1 {
                assert(files[k] == files.drop_last()[k]);
            }
        }
    }
}

} // verus!

verus! {

/// The comments on one line, grouped as a stored session keeps them.
#[derive(Clone, Debug)]
pub struct LineGroup {
    pub line: u32,
    pub comments: Vec<Comment>,
}

/// No two groups share a line.
pub open spec fn distinct_lines(groups: Seq<LineGroup>) -> bool {
    forall|i: int, j: int|
        0 <= i < groups.len() && 0 <= j < groups.len() && i != j ==> groups[i].line != groups[j].line
}

pub open spec fn has_group(groups: Seq<LineGroup>, line: u32) -> bool {
    exists|i: int| 0 <= i < groups.len() && (#[trigger] groups[i]).line == line
}

/// The comments grouped under `line` (none when no group has it).
pub open spec fn group_of(groups: Seq<LineGroup>, line: u32) -> Seq<Comment> {
    if has_group(groups, line) {
        groups[choose|i: int| 0 <= i < groups.len() && (#[trigger] groups[i]).line == line].comments@
    } else {
        seq![]
    }
}

proof fn lemma_group_at(groups: Seq<LineGroup>, g: int)
    requires
        distinct_lines(groups),
        0 <= g < groups.len(),
    ensures
        group_of(groups, groups[g].line) == groups[g].comments@,
{
    let line = groups[g].line;
    assert(has_group(groups, line));
    let i = choose|i: int| 0 <= i < groups.len() && (#[trigger] groups[i]).line == line;
    assert(i == g);
}

proof fn lemma_comments_on_step(entries: Seq<LineComment>, k: int, line: u32)
    requires
        0 <= k < entries.len(),
    ensures
        comments_on(entries.take(k + 1), line) == if entries[k].line == line {
            comments_on(entries.take(k), line).push(entries[k].comment)
        } else {
            comments_on(entries.take(k), line)
        },
{
    assert(entries.take(k + 1).drop_last() =~= entries.take(k));
}

/// Groups line comments by line; every line keeps its comments in order.
pub fn group_line_comments(entries: Vec<LineComment>) -> (r: Vec<LineGroup>)
    ensures
        distinct_lines(r@),
        forall|line: u32| #[trigger] group_of(r@, line) == comments_on(entries@, line),
{
    let ghost orig = entries@;
    let n = entries.len();
    let mut rest = entries;
    let mut groups: Vec<LineGroup> = Vec::new();
    let mut k: usize = 0;
    while rest.len() > 0
        invariant
            k <= orig.len(),
            n == orig.len(),
            rest@ == orig.subrange(k as int, orig.len() as int),
            distinct_lines(groups@),
            forall|line: u32| #[trigger] group_of(groups@, line) == comments_on(orig.take(k as int), line),
        decreases rest.len(),
    {
        let ghost before = groups@;
        let e = rest.remove(0);
        assert(e == orig[k as int]);
        let LineComment { line, comment } = e;
        let mut g: usize = 0;
        while g < groups.len() && groups[g].line != line
            invariant
                g <= groups.len(),
                groups@ == before,
                forall|j: int| 0 <= j < g ==> before[j].line != line,
            decreases groups.len() - g,
        {
            g += 1;
        }
        proof {
            assert forall|l: u32| #[trigger] comments_on(orig.take(k + 1), l) == if orig[k as int].line == l {
                comments_on(orig.take(k as int), l).push(orig[k as int].comment)
            } else {
                comments_on(orig.take(k as int), l)
            } by {
                lemma_comments_on_step(orig, k as int, l);
            }
        }
        if g < groups.len() {
            proof {
                lemma_group_at(before, g as int);
            }
            let ghost c = comment;
            groups[g].comments.push(comment);
            proof {
                assert(groups@ == before.update(g as int, groups@[g as int]));
                assert(groups@[g as int].line == line);
                assert(groups@[g as int].comments@ == before[g as int].comments@.push(c));
                assert(c == orig[k as int].comment);
                assert(group_of(before, line) == comments_on(orig.take(k as int), line));
                assert(distinct_lines(groups@)) by {
                    assert forall|i: int, j: int|
                        0 <= i < groups@.len() && 0 <= j < groups@.len() && i != j implies groups@[i].line
                        != groups@[j].line by {
                        assert(groups@[i].line == before[i].line);
                        assert(groups@[j].line == before[j].line);
                    }
                }
                assert forall|l: u32| #[trigger] group_of(groups@, l) == comments_on(
                    orig.take(k + 1),
                    l,
                ) by {
                    if l == line {
                        lemma_group_at(groups@, g as int);
                        assert(group_of(groups@, l) == before[g as int].comments@.push(c));
                    } else {
                        assert(has_group(groups@, l) == has_group(before, l)) by {
                            if has_group(before, l) {
                                let i = choose|i: int| 0 <= i < before.len() && (#[trigger] before[i]).line == l;
                                assert(groups@[i].line == l);
                            }
                            if has_group(groups@, l) {
                                let i = choose|i: int| 0 <= i < groups@.len() && (#[trigger] groups@[i]).line == l;
                                assert(before[i].line == l);
                            }
                        }
                        assert(comments_on(orig.take(k + 1), l) == comments_on(orig.take(k as int), l));
                        assert(group_of(before, l) == comments_on(orig.take(k as int), l));
                        if has_group(before, l) {
                            let i = choose|i: int| 0 <= i < before.len() && (#[trigger] before[i]).line == l;
                            lemma_group_at(before, i);
                            assert(i != g);
                            assert(groups@[i] == before[i]);
                            lemma_group_at(groups@, i);
                        }
                        assert(group_of(groups@, l) == group_of(before, l));
                    }
                }
            }
        } else {
            let mut cs: Vec<Comment> = Vec::new();
            cs.push(comment);
            groups.push(LineGroup { line, comments: cs });
            proof {
                assert(groups@.drop_last() =~= before);
                assert(distinct_lines(groups@)) by {
                    assert forall|i: int, j: int|
                        0 <= i < groups@.len() && 0 <= j < groups@.len() && i != j implies groups@[i].line
                        != groups@[j].line by {
                        if i < before.len() && j < before.len() {
                            assert(groups@[i] == before[i]);
                            assert(groups@[j] == before[j]);
                        } else if i < before.len() {
                            assert(groups@[i] == before[i]);
                        } else {
                            assert(groups@[j] == before[j]);
                        }
                    }
                }
                assert(!has_group(before, line));
                assert forall|l: u32| #[trigger] group_of(groups@, l) == comments_on(
                    orig.take(k + 1),
                    l,
                ) by {
                    let last = (groups@.len() - 1) as int;
                    if l == line {
                        lemma_group_at(groups@, last);
                        assert(cs@ =~= seq![orig[k as int].comment]);
                        assert(group_of(before, l) == comments_on(orig.take(k as int), l));
                        assert(comments_on(orig.take(k as int), l) =~= Seq::<Comment>::empty());
                    } else {
                        assert(has_group(groups@, l) == has_group(before, l)) by {
                            if has_group(before, l) {
                                let i = choose|i: int| 0 <= i < before.len() && (#[trigger] before[i]).line == l;
                                assert(groups@[i] == before[i]);
                            }
                            if has_group(groups@, l) {
                                let i = choose|i: int| 0 <= i < groups@.len() && (#[trigger] groups@[i]).line == l;
                                assert(i != last);
                                assert(groups@[i] == before[i]);
                            }
                        }
                        assert(comments_on(orig.take(k + 1), l) == comments_on(orig.take(k as int), l));
                        assert(group_of(before, l) == comments_on(orig.take(k as int), l));
                        if has_group(before, l) {
                            let i = choose|i: int| 0 <= i < before.len() && (#[trigger] before[i]).line == l;
                            lemma_group_at(before, i);
                            assert(groups@[i] == before[i]);
                            lemma_group_at(groups@, i);
                        }
                        assert(group_of(groups@, l) == group_of(before, l));
                    }
                }
            }
        }
        k += 1;
    }
    assert(orig.take(k as int) =~= orig);
    groups
}

proof fn lemma_group_of_step(gs: Seq<LineGroup>, k: int, l: u32)
    requires
        distinct_lines(gs),
        0 <= k < gs.len(),
    ensures
        distinct_lines(gs.take(k)),
        distinct_lines(gs.take(k + 1)),
        group_of(gs.take(k + 1), l) == if gs[k].line == l {
            gs[k].comments@
        } else {
            group_of(gs.take(k), l)
        },
{
    let a = gs.take(k);
    let b = gs.take(k + 1);
    assert(distinct_lines(a)) by {
        assert forall|i: int, j: int| 0 <= i < a.len() && 0 <= j < a.len() && i != j implies a[i].line
            != a[j].line by {
            assert(a[i] == gs[i] && a[j] == gs[j]);
        }
    }
    assert(distinct_lines(b)) by {
        assert forall|i: int, j: int| 0 <= i < b.len() && 0 <= j < b.len() && i != j implies b[i].line
            != b[j].line by {
            assert(b[i] == gs[i] && b[j] == gs[j]);
        }
    }
    if gs[k].line == l {
        assert(b[k] == gs[k]);
        lemma_group_at(b, k);
    } else {
        assert(has_group(b, l) == has_group(a, l)) by {
            if has_group(a, l) {
                let i = choose|i: int| 0 <= i < a.len() && (#[trigger] a[i]).line == l;
                assert(b[i] == a[i]);
            }
            if has_group(b, l) {
                let i = choose|i: int| 0 <= i < b.len() && (#[trigger] b[i]).line == l;
                assert(i != k);
                assert(b[i] == a[i]);
            }
        }
        if has_group(a, l) {
            let i = choose|i: int| 0 <= i < a.len() && (#[trigger] a[i]).line == l;
            lemma_group_at(a, i);
            assert(b[i] == a[i]);
            lemma_group_at(b, i);
        }
    }
}

proof fn lemma_comments_on_push(entries: Seq<LineComment>, e: LineComment, l: u32)
    ensures
        comments_on(entries.push(e), l) == if e.line == l {
            comments_on(entries, l).push(e.comment)
        } else {
            comments_on(entries, l)
        },
{
    assert(entries.push(e).drop_last() =~= entries);
}

/// Lays grouped comments out as line-comment entries, group by group; every
/// line keeps its comments in order.
pub fn flatten_line_groups(groups: Vec<LineGroup>) -> (r: Vec<LineComment>)
    requires
        distinct_lines(groups@),
    ensures
        forall|line: u32| #[trigger] comments_on(r@, line) == group_of(groups@, line),
{
    let ghost orig = groups@;
    let n = groups.len();
    let mut rest = groups;
    let mut out: Vec<LineComment> = Vec::new();
    let mut k: usize = 0;
    assert forall|l: u32| #[trigger] comments_on(out@, l) == group_of(orig.take(0), l) by {
        assert(!has_group(orig.take(0), l));
    }
    while rest.len() > 0
        invariant
            k <= orig.len(),
            n == orig.len(),
            distinct_lines(orig),
            rest@ == orig.subrange(k as int, orig.len() as int),
            forall|l: u32| #[trigger] comments_on(out@, l) == group_of(orig.take(k as int), l),
        decreases rest.len(),
    {
        let grp = rest.remove(0);
        assert(grp == orig[k as int]);
        proof {
            assert forall|l: u32| #[trigger] group_of(orig.take(k + 1), l) == if orig[k as int].line == l {
                orig[k as int].comments@
            } else {
                group_of(orig.take(k as int), l)
            } by {
                lemma_group_of_step(orig, k as int, l);
            }
            lemma_group_of_step(orig, k as int, grp.line);
            assert(!has_group(orig.take(k as int), grp.line)) by {
                if has_group(orig.take(k as int), grp.line) {
                    let i = choose|i: int| 0 <= i < k && (#[trigger] orig.take(k as int)[i]).line == grp.line;
                    assert(orig.take(k as int)[i] == orig[i]);
                }
            }
        }
        let LineGroup { line, comments } = grp;
        let ghost all = comments@;
        let ghost base = out@;
        let m = comments.len();
        let mut cs = comments;
        let mut j: usize = 0;
        while cs.len() > 0
            invariant
                j <= all.len(),
                m == all.len(),
                cs@ == all.subrange(j as int, all.len() as int),
                forall|l: u32| #[trigger] comments_on(out@, l) == if l == line {
                    comments_on(base, l) + all.take(j as int)
                } else {
                    comments_on(base, l)
                },
            decreases cs.len(),
        {
            let c = cs.remove(0);
            assert(c == all[j as int]);
            let ghost prev = out@;
            let e = LineComment { line, comment: c };
            out.push(e);
            proof {
                assert forall|l: u32| #[trigger] comments_on(out@, l) == if l == line {
                    comments_on(base, l) + all.take(j + 1)
                } else {
                    comments_on(base, l)
                } by {
                    lemma_comments_on_push(prev, e, l);
                    if l == line {
                        assert(comments_on(prev, l) == comments_on(base, l) + all.take(j as int));
                        assert(all.take(j + 1) =~= all.take(j as int).push(c));
                        assert(comments_on(base, l) + all.take(j + 1) =~= (comments_on(base, l) + all.take(j as int)).push(c));
                    } else {
                        assert(comments_on(prev, l) == comments_on(base, l));
                    }
                }
            }
            j += 1;
        }
        proof {
            assert(all.take(j as int) =~= all);
            assert forall|l: u32| #[trigger] comments_on(out@, l) == group_of(orig.take(k + 1), l) by {
                assert(comments_on(base, l) == group_of(orig.take(k as int), l));
                if l == line {
                    assert(group_of(orig.take(k as int), l) =~= Seq::<Comment>::empty());
                    assert(comments_on(base, l) + all =~= all);
                }
            }
        }
        k += 1;
    }
    assert(orig.take(k as int) =~= orig);
    out
}

} // verus!
