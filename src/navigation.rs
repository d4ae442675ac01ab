//! Row counting for the flattened, scrollable view of a changeset.
//!
//! Every file contributes a header row. A reviewed file is folded to that
//! row alone; otherwise it also shows its file comments, each hunk header,
//! each diff line followed by the comments anchored to it, and a trailing
//! separator row. A comment spans one row per line of its text.
//!
//! Counts are exact in the specification and saturate at `usize::MAX` in
//! executable code (`clamp`).

use vstd::prelude::*;

use crate::model::{file_views, display_path_of, DiffFile, DiffHunk, DiffLine, FileView, HunkView, LineView, line_views, hunk_views};
use crate::review::{review_of, lemma_find_bounds, Comment, FileReview, LineComment, LineSide, ReviewSession};
use crate::text::chars_of;

verus! {

pub open spec fn clamp(n: nat) -> nat {
    if n <= usize::MAX {
        n
    } else {
        usize::MAX as nat
    }
}

pub proof fn lemma_clamp_add(a: nat, b: nat)
    ensures
        clamp(clamp(a) + clamp(b)) == clamp(a + b),
{
}

pub open spec fn newline_count(s: Seq<char>) -> nat
    decreases s.len(),
{
    if s.len() == 0 {
        0
    } else {
        newline_count(s.drop_last()) + if s.last() == '\n' {
            1nat
        } else {
            0nat
        }
    }
}

/// Rows a comment spans: one per line of its text.
pub open spec fn comment_rows(c: Comment) -> nat {
    1 + newline_count(c.content@)
}

pub open spec fn comments_rows(cs: Seq<Comment>) -> nat
    decreases cs.len(),
{
    if cs.len() == 0 {
        0
    } else {
        comments_rows(cs.drop_last()) + comment_rows(cs.last())
    }
}

/// Whether a line comment is shown under the old-side (deleted) column or the
/// new-side one; a comment without a side goes with the new side.
pub open spec fn shows_on(c: Comment, old_side: bool) -> bool {
    if old_side {
        c.side == Some(LineSide::Old)
    } else {
        c.side != Some(LineSide::Old)
    }
}

/// Rows of the comments on `line` shown on the given side.
pub open spec fn side_rows(lc: Seq<LineComment>, line: u32, old_side: bool) -> nat
    decreases lc.len(),
{
    if lc.len() == 0 {
        0
    } else {
        side_rows(lc.drop_last(), line, old_side) + if lc.last().line == line && shows_on(
            lc.last().comment,
            old_side,
        ) {
            comment_rows(lc.last().comment)
        } else {
            0
        }
    }
}

/// A diff line's row plus the rows of the comments anchored to it.
pub open spec fn diff_line_rows(l: LineView, lc: Seq<LineComment>) -> nat {
    1 + (match l.old_lineno {
        Some(o) => side_rows(lc, o, true),
        None => 0,
    }) + (match l.new_lineno {
        Some(n) => side_rows(lc, n, false),
        None => 0,
    })
}

pub open spec fn lines_rows(ls: Seq<LineView>, lc: Seq<LineComment>) -> nat
    decreases ls.len(),
{
    if ls.len() == 0 {
        0
    } else {
        lines_rows(ls.drop_last(), lc) + diff_line_rows(ls.last(), lc)
    }
}

pub open spec fn hunks_rows(hs: Seq<HunkView>, lc: Seq<LineComment>) -> nat
    decreases hs.len(),
{
    if hs.len() == 0 {
        0
    } else {
        hunks_rows(hs.drop_last(), lc) + 1 + lines_rows(hs.last().lines, lc)
    }
}

/// Rows of one file given the tracked reviews.
pub open spec fn file_rows(f: FileView, reviews: Seq<FileReview>) -> nat {
    match review_of(reviews, display_path_of(f)) {
        Some(r) => if r.reviewed {
            1
        } else {
            2 + comments_rows(r.file_comments@) + hunks_rows(f.hunks, r.line_comments@)
        },
        None => 2 + hunks_rows(f.hunks, seq![]),
    }
}

/// Row counts of each file, saturated to `usize`.
pub open spec fn heights(files: Seq<FileView>, reviews: Seq<FileReview>) -> Seq<usize> {
    Seq::new(files.len(), |i: int| clamp(file_rows(files[i], reviews)) as usize)
}

/// Rows of the first `i` files.
pub open spec fn prefix(h: Seq<usize>, i: int) -> nat
    decreases i,
{
    if i <= 0 {
        0
    } else {
        (prefix(h, i - 1) + h[i - 1]) as nat
    }
}

pub proof fn lemma_prefix_monotone(h: Seq<usize>, i: int, j: int)
    requires
        i <= j,
    ensures
        prefix(h, i) <= prefix(h, j),
    decreases j - i,
{
    if i < j {
        lemma_prefix_monotone(h, i, j - 1);
    }
}

pub fn comment_height(c: &Comment) -> (r: usize)
    ensures
        r == clamp(comment_rows(*c)),
{
    let chars = chars_of(c.content.as_str());
    let mut n: usize = 1;
    let mut i: usize = 0;
    while i < chars.len()
        invariant
            i <= chars.len(),
            chars@ == c.content@,
            n == clamp(1 + newline_count(chars@.take(i as int))),
        decreases chars.len() - i,
    {
        assert(chars@.take(i + 1).drop_last() =~= chars@.take(i as int));
        if chars[i] == '\n' {
            n = n.saturating_add(1);
        }
        i += 1;
    }
    assert(chars@.take(i as int) =~= chars@);
    n
}

fn comments_height(cs: &Vec<Comment>) -> (r: usize)
    ensures
        r == clamp(comments_rows(cs@)),
{
    let mut n: usize = 0;
    let mut i: usize = 0;
    while i < cs.len()
        invariant
            i <= cs.len(),
            n == clamp(comments_rows(cs@.take(i as int))),
        decreases cs.len() - i,
    {
        assert(cs@.take(i + 1).drop_last() =~= cs@.take(i as int));
        let h = comment_height(&cs[i]);
        proof {
            lemma_clamp_add(comments_rows(cs@.take(i as int)), comment_rows(cs@[i as int]));
        }
        n = n.saturating_add(h);
        i += 1;
    }
    assert(cs@.take(i as int) =~= cs@);
    n
}

fn side_height(lc: &Vec<LineComment>, line: u32, old_side: bool) -> (r: usize)
    ensures
        r == clamp(side_rows(lc@, line, old_side)),
{
    let mut n: usize = 0;
    let mut i: usize = 0;
    while i < lc.len()
        invariant
            i <= lc.len(),
            n == clamp(side_rows(lc@.take(i as int), line, old_side)),
        decreases lc.len() - i,
    {
        assert(lc@.take(i + 1).drop_last() =~= lc@.take(i as int));
        let e = &lc[i];
        let shown = if old_side {
            e.comment.side == Some(LineSide::Old)
        } else {
            e.comment.side != Some(LineSide::Old)
        };
        if e.line == line && shown {
            let h = comment_height(&e.comment);
            proof {
                lemma_clamp_add(
                    side_rows(lc@.take(i as int), line, old_side),
                    comment_rows(lc@[i as int].comment),
                );
            }
            n = n.saturating_add(h);
        }
        i += 1;
    }
    assert(lc@.take(i as int) =~= lc@);
    n
}

fn diff_line_height(l: &DiffLine, lc: &Vec<LineComment>) -> (r: usize)
    ensures
        r == clamp(diff_line_rows(l@, lc@)),
{
    let old_rows: usize = match l.old_lineno {
        Some(o) => side_height(lc, o, true),
        None => 0,
    };
    let new_rows: usize = match l.new_lineno {
        Some(n) => side_height(lc, n, false),
        None => 0,
    };
    let ghost a: nat = match l.old_lineno {
        Some(o) => side_rows(lc@, o, true),
        None => 0,
    };
    let ghost b: nat = match l.new_lineno {
        Some(n) => side_rows(lc@, n, false),
        None => 0,
    };
    proof {
        lemma_clamp_add(1, a);
        lemma_clamp_add(1 + a, b);
    }
    1usize.saturating_add(old_rows).saturating_add(new_rows)
}

fn hunk_height(h: &DiffHunk, lc: &Vec<LineComment>) -> (r: usize)
    ensures
        r == clamp(1 + lines_rows(h@.lines, lc@)),
{
    let ghost ls = h@.lines;
    let mut n: usize = 1;
    let mut i: usize = 0;
    while i < h.lines.len()
        invariant
            i <= h.lines.len(),
            ls == line_views(h.lines@),
            n == clamp(1 + lines_rows(ls.take(i as int), lc@)),
        decreases h.lines.len() - i,
    {
        assert(ls.take(i + 1).drop_last() =~= ls.take(i as int));
        assert(ls[i as int] == h.lines@[i as int]@);
        let d = diff_line_height(&h.lines[i], lc);
        proof {
            lemma_clamp_add(
                (1 + lines_rows(ls.take(i as int), lc@)) as nat,
                diff_line_rows(ls[i as int], lc@),
            );
        }
        n = n.saturating_add(d);
        i += 1;
    }
    assert(ls.take(i as int) =~= ls);
    n
}

fn hunks_height(f: &DiffFile, lc: &Vec<LineComment>) -> (r: usize)
    ensures
        r == clamp(hunks_rows(f@.hunks, lc@)),
{
    let ghost hs = f@.hunks;
    let mut n: usize = 0;
    let mut i: usize = 0;
    while i < f.hunks.len()
        invariant
            i <= f.hunks.len(),
            hs == hunk_views(f.hunks@),
            n == clamp(hunks_rows(hs.take(i as int), lc@)),
        decreases f.hunks.len() - i,
    {
        assert(hs.take(i + 1).drop_last() =~= hs.take(i as int));
        assert(hs[i as int] == f.hunks@[i as int]@);
        let d = hunk_height(&f.hunks[i], lc);
        proof {
            lemma_clamp_add(
                hunks_rows(hs.take(i as int), lc@),
                (1 + lines_rows(hs[i as int].lines, lc@)) as nat,
            );
        }
        n = n.saturating_add(d);
        i += 1;
    }
    assert(hs.take(i as int) =~= hs);
    n
}

/// Row count of one file under the session's review state.
pub fn file_height(f: &DiffFile, session: &ReviewSession) -> (r: usize)
    ensures
        r == clamp(file_rows(f@, session.files@)),
        r >= 1,
{
    let path = f.display_path();
    match session.file_index(&path) {
        Some(i) => {
            proof {
                lemma_find_bounds(session.files@, path@);
            }
            let review = &session.files[i];
            if review.reviewed {
                1
            } else {
                let c = comments_height(&review.file_comments);
                let hs = hunks_height(f, &review.line_comments);
                proof {
                    lemma_clamp_add(2, comments_rows(review.file_comments@));
                    lemma_clamp_add(
                        2 + comments_rows(review.file_comments@),
                        hunks_rows(f@.hunks, review.line_comments@),
                    );
                }
                2usize.saturating_add(c).saturating_add(hs)
            }
        },
        None => {
            let empty: Vec<LineComment> = Vec::new();
            assert(empty@ =~= Seq::<LineComment>::empty());
            let hs = hunks_height(f, &empty);
            proof {
                lemma_clamp_add(2, hunks_rows(f@.hunks, seq![]));
            }
            2usize.saturating_add(hs)
        },
    }
}

/// Row counts of every file, in changeset order.
pub fn file_heights(files: &Vec<DiffFile>, session: &ReviewSession) -> (r: Vec<usize>)
    ensures
        r@ == heights(file_views(files@), session.files@),
        forall|i: int| 0 <= i < r@.len() ==> r@[i] >= 1,
{
    let mut r: Vec<usize> = Vec::new();
    let mut i: usize = 0;
    while i < files.len()
        invariant
            i <= files.len(),
            r@.len() == i,
            forall|k: int|
                0 <= k < i ==> r@[k] == clamp(file_rows(files@[k]@, session.files@)),
            forall|k: int| 0 <= k < i ==> r@[k] >= 1,
        decreases files.len() - i,
    {
        let h = file_height(&files[i], session);
        r.push(h);
        i += 1;
    }
    assert(r@ =~= heights(file_views(files@), session.files@));
    r
}

/// Rows of the first `i` files, saturated.
pub fn rows_before(h: &Vec<usize>, i: usize) -> (r: usize)
    requires
        i <= h.len(),
    ensures
        r == clamp(prefix(h@, i as int)),
{
    let mut n: usize = 0;
    let mut k: usize = 0;
    while k < i
        invariant
            k <= i <= h.len(),
            n == clamp(prefix(h@, k as int)),
        decreases i - k,
    {
        proof {
            lemma_clamp_add(prefix(h@, k as int), h@[k as int] as nat);
        }
        n = n.saturating_add(h[k]);
        k += 1;
    }
    n
}

} // verus!

verus! {

/// A file marked reviewed is folded to its header: none of its diff lines or
/// comments count among the visible rows.
pub proof fn lemma_reviewed_file_folds(f: FileView, reviews: Seq<FileReview>)
    requires
        review_of(reviews, display_path_of(f)) matches Some(r) && r.reviewed,
    ensures
        file_rows(f, reviews) == 1,
{
}

/// An unreviewed file shows its header, its file comments, every hunk header,
/// every diff line with its comments, and a separator.
pub proof fn lemma_unreviewed_file_unfolds(f: FileView, reviews: Seq<FileReview>)
    requires
        review_of(reviews, display_path_of(f)) matches Some(r) && !r.reviewed,
    ensures
        file_rows(f, reviews) == 2 + comments_rows(
            review_of(reviews, display_path_of(f))->0.file_comments@,
        ) + hunks_rows(f.hunks, review_of(reviews, display_path_of(f))->0.line_comments@),
{
}

/// Marking a file reviewed and then unmarking it restores the reviews, and so
/// every file's rows.
pub proof fn lemma_unmark_restores(files: Seq<FileView>, reviews: Seq<FileReview>, i: int)
    requires
        0 <= i < reviews.len(),
    ensures
        ({
            let once = reviews.update(i, FileReview { reviewed: !reviews[i].reviewed, ..reviews[i] });
            let twice = once.update(i, FileReview { reviewed: !once[i].reviewed, ..once[i] });
            &&& twice == reviews
            &&& heights(files, twice) == heights(files, reviews)
        }),
{
    let once = reviews.update(i, FileReview { reviewed: !reviews[i].reviewed, ..reviews[i] });
    let twice = once.update(i, FileReview { reviewed: !once[i].reviewed, ..once[i] });
    assert(twice =~= reviews);
}

} // verus!
