//! The flattened sequence of visible rows of the unified view.
//!
//! Row `k` of `changeset_rows` is what the cursor row `k` addresses; each
//! file's rows follow the row-count contract of `navigation`.

use vstd::prelude::*;

use crate::align::{align_from, align_hunk, origins, SideRow};
use crate::model::{LineOrigin, display_path_of, file_views, hunk_views, line_views, DiffFile, DiffLine, FileView, HunkView, LineView};
use crate::navigation::{
    clamp, comment_height, comment_rows, comments_rows, file_rows, heights, hunks_rows,
    lines_rows, prefix, shows_on, side_rows,
};
use crate::review::{find_review, lemma_find_bounds, review_of, Comment, FileReview, LineComment, LineSide, ReviewSession};

verus! {

#[derive(Clone, Copy, Debug, PartialEq, Eq, Structural)]
pub enum RowKind {
    FileHeader,
    FileComment,
    HunkHeader,
    Line,
    LineComment,
    Separator,
}

/// One visible row. `file`, `hunk` and `line` locate it in the changeset;
/// `comment` is the index of a file comment or of a line-comment entry, and
/// `part` the row within that comment's text. In the two-column view a line
/// row names the line shown in each column (`left`, `right`); elsewhere both
/// are `None`.
#[derive(Clone, Copy, Debug, PartialEq, Eq, Structural)]
pub struct Row {
    pub kind: RowKind,
    pub file: usize,
    pub hunk: usize,
    pub line: usize,
    pub comment: usize,
    pub part: usize,
    pub left: Option<usize>,
    pub right: Option<usize>,
}

pub open spec fn mk_row(kind: RowKind, file: int, hunk: int, line: int, comment: int, part: int) -> Row {
    Row {
        kind,
        file: file as usize,
        hunk: hunk as usize,
        line: line as usize,
        comment: comment as usize,
        part: part as usize,
        left: None,
        right: None,
    }
}

/// The `n` rows of one comment.
pub open spec fn comment_parts(kind: RowKind, file: int, hunk: int, line: int, comment: int, n: nat) -> Seq<Row> {
    Seq::new(n, |p: int| mk_row(kind, file, hunk, line, comment, p))
}

/// Rows of the comments on `ln` shown on one side, under line `line` of hunk `hunk`.
pub open spec fn side_row_seq(lc: Seq<LineComment>, ln: u32, old_side: bool, file: int, hunk: int, line: int) -> Seq<Row>
    decreases lc.len(),
{
    if lc.len() == 0 {
        seq![]
    } else {
        side_row_seq(lc.drop_last(), ln, old_side, file, hunk, line) + if lc.last().line == ln
            && shows_on(lc.last().comment, old_side) {
            comment_parts(
                RowKind::LineComment,
                file,
                hunk,
                line,
                lc.len() - 1,
                clamp(comment_rows(lc.last().comment)),
            )
        } else {
            seq![]
        }
    }
}

/// A diff line's row, then its old-side comments, then its new-side comments.
pub open spec fn line_row_seq(l: LineView, lc: Seq<LineComment>, file: int, hunk: int, line: int) -> Seq<Row> {
    seq![mk_row(RowKind::Line, file, hunk, line, 0, 0)] + (match l.old_lineno {
        Some(o) => side_row_seq(lc, o, true, file, hunk, line),
        None => seq![],
    }) + (match l.new_lineno {
        Some(n) => side_row_seq(lc, n, false, file, hunk, line),
        None => seq![],
    })
}

pub open spec fn lines_row_seq(ls: Seq<LineView>, lc: Seq<LineComment>, file: int, hunk: int) -> Seq<Row>
    decreases ls.len(),
{
    if ls.len() == 0 {
        seq![]
    } else {
        lines_row_seq(ls.drop_last(), lc, file, hunk) + line_row_seq(
            ls.last(),
            lc,
            file,
            hunk,
            ls.len() - 1,
        )
    }
}

pub open spec fn hunks_row_seq(hs: Seq<HunkView>, lc: Seq<LineComment>, file: int) -> Seq<Row>
    decreases hs.len(),
{
    if hs.len() == 0 {
        seq![]
    } else {
        hunks_row_seq(hs.drop_last(), lc, file) + seq![
            mk_row(RowKind::HunkHeader, file, hs.len() - 1, 0, 0, 0),
        ] + lines_row_seq(hs.last().lines, lc, file, hs.len() - 1)
    }
}

pub open spec fn file_comment_seq(cs: Seq<Comment>, file: int) -> Seq<Row>
    decreases cs.len(),
{
    if cs.len() == 0 {
        seq![]
    } else {
        file_comment_seq(cs.drop_last(), file) + comment_parts(
            RowKind::FileComment,
            file,
            0,
            0,
            cs.len() - 1,
            clamp(comment_rows(cs.last())),
        )
    }
}

/// Rows of file `file`: only its header when reviewed.
pub open spec fn file_row_seq(f: FileView, reviews: Seq<FileReview>, file: int) -> Seq<Row> {
    let header = seq![mk_row(RowKind::FileHeader, file, 0, 0, 0, 0)];
    let sep = seq![mk_row(RowKind::Separator, file, 0, 0, 0, 0)];
    match review_of(reviews, display_path_of(f)) {
        Some(r) => if r.reviewed {
            header
        } else {
            header + file_comment_seq(r.file_comments@, file) + hunks_row_seq(
                f.hunks,
                r.line_comments@,
                file,
            ) + sep
        },
        None => header + hunks_row_seq(f.hunks, seq![], file) + sep,
    }
}

/// Every visible row of the changeset, in order.
pub open spec fn changeset_rows(files: Seq<FileView>, reviews: Seq<FileReview>) -> Seq<Row>
    decreases files.len(),
{
    if files.len() == 0 {
        seq![]
    } else {
        changeset_rows(files.drop_last(), reviews) + file_row_seq(
            files.last(),
            reviews,
            files.len() - 1,
        )
    }
}

fn push_comment_parts(rows: &mut Vec<Row>, kind: RowKind, file: usize, hunk: usize, line: usize, comment: usize, n: usize)
    ensures
        final(rows)@ == old(rows)@ + comment_parts(
            kind,
            file as int,
            hunk as int,
            line as int,
            comment as int,
            n as nat,
        ),
{
    let ghost base = old(rows)@;
    let mut p: usize = 0;
    while p < n
        invariant
            p <= n,
            rows@ == base + comment_parts(
                kind,
                file as int,
                hunk as int,
                line as int,
                comment as int,
                p as nat,
            ),
        decreases n - p,
    {
        rows.push(Row { kind, file, hunk, line, comment, part: p, left: None, right: None });
        p += 1;
        assert(rows@ =~= base + comment_parts(
            kind,
            file as int,
            hunk as int,
            line as int,
            comment as int,
            p as nat,
        ));
    }
}

fn push_side_rows(rows: &mut Vec<Row>, lc: &Vec<LineComment>, ln: u32, old_side: bool, file: usize, hunk: usize, line: usize)
    ensures
        final(rows)@ == old(rows)@ + side_row_seq(
            lc@,
            ln,
            old_side,
            file as int,
            hunk as int,
            line as int,
        ),
{
    let ghost base = old(rows)@;
    let mut i: usize = 0;
    while i < lc.len()
        invariant
            i <= lc.len(),
            rows@ == base + side_row_seq(
                lc@.take(i as int),
                ln,
                old_side,
                file as int,
                hunk as int,
                line as int,
            ),
        decreases lc.len() - i,
    {
        assert(lc@.take(i + 1).drop_last() =~= lc@.take(i as int));
        let e = &lc[i];
        let shown = if old_side {
            e.comment.side == Some(LineSide::Old)
        } else {
            e.comment.side != Some(LineSide::Old)
        };
        if e.line == ln && shown {
            let n = comment_height(&e.comment);
            push_comment_parts(rows, RowKind::LineComment, file, hunk, line, i, n);
        }
        let ghost piece = side_row_seq(
            lc@.take(i + 1),
            ln,
            old_side,
            file as int,
            hunk as int,
            line as int,
        );
        assert(rows@ =~= base + piece);
        i += 1;
    }
    assert(lc@.take(i as int) =~= lc@);
}

fn push_line_rows(rows: &mut Vec<Row>, l: &DiffLine, lc: &Vec<LineComment>, file: usize, hunk: usize, line: usize)
    ensures
        final(rows)@ == old(rows)@ + line_row_seq(l@, lc@, file as int, hunk as int, line as int),
{
    let ghost base = old(rows)@;
    rows.push(Row { kind: RowKind::Line, file, hunk, line, comment: 0, part: 0, left: None, right: None });
    match l.old_lineno {
        Some(o) => push_side_rows(rows, lc, o, true, file, hunk, line),
        None => {},
    }
    match l.new_lineno {
        Some(n) => push_side_rows(rows, lc, n, false, file, hunk, line),
        None => {},
    }
    assert(rows@ =~= base + line_row_seq(l@, lc@, file as int, hunk as int, line as int));
}

fn push_hunk_rows(rows: &mut Vec<Row>, f: &DiffFile, lc: &Vec<LineComment>, file: usize)
    ensures
        final(rows)@ == old(rows)@ + hunks_row_seq(f@.hunks, lc@, file as int),
{
    let ghost base = old(rows)@;
    let ghost hs = f@.hunks;
    let mut h: usize = 0;
    while h < f.hunks.len()
        invariant
            h <= f.hunks.len(),
            hs == hunk_views(f.hunks@),
            rows@ == base + hunks_row_seq(hs.take(h as int), lc@, file as int),
        decreases f.hunks.len() - h,
    {
        assert(hs.take(h + 1).drop_last() =~= hs.take(h as int));
        assert(hs[h as int] == f.hunks@[h as int]@);
        rows.push(Row { kind: RowKind::HunkHeader, file, hunk: h, line: 0, comment: 0, part: 0, left: None, right: None });
        let hunk = &f.hunks[h];
        let ghost ls = hunk@.lines;
        let ghost mid = rows@;
        let mut k: usize = 0;
        while k < hunk.lines.len()
            invariant
                k <= hunk.lines.len(),
                ls == line_views(hunk.lines@),
                rows@ == mid + lines_row_seq(ls.take(k as int), lc@, file as int, h as int),
            decreases hunk.lines.len() - k,
        {
            assert(ls.take(k + 1).drop_last() =~= ls.take(k as int));
            assert(ls[k as int] == hunk.lines@[k as int]@);
            push_line_rows(rows, &hunk.lines[k], lc, file, h, k);
            assert(rows@ =~= mid + lines_row_seq(ls.take(k + 1), lc@, file as int, h as int));
            k += 1;
        }
        assert(ls.take(k as int) =~= ls);
        assert(rows@ =~= base + hunks_row_seq(hs.take(h + 1), lc@, file as int));
        h += 1;
    }
    assert(hs.take(h as int) =~= hs);
}

fn push_file_comment_rows(rows: &mut Vec<Row>, cs: &Vec<Comment>, file: usize)
    ensures
        final(rows)@ == old(rows)@ + file_comment_seq(cs@, file as int),
{
    let ghost base = old(rows)@;
    let mut i: usize = 0;
    while i < cs.len()
        invariant
            i <= cs.len(),
            rows@ == base + file_comment_seq(cs@.take(i as int), file as int),
        decreases cs.len() - i,
    {
        assert(cs@.take(i + 1).drop_last() =~= cs@.take(i as int));
        let n = comment_height(&cs[i]);
        push_comment_parts(rows, RowKind::FileComment, file, 0, 0, i, n);
        assert(rows@ =~= base + file_comment_seq(cs@.take(i + 1), file as int));
        i += 1;
    }
    assert(cs@.take(i as int) =~= cs@);
}

fn push_file_rows(rows: &mut Vec<Row>, f: &DiffFile, session: &ReviewSession, file: usize)
    ensures
        final(rows)@ == old(rows)@ + file_row_seq(f@, session.files@, file as int),
{
    let ghost base = old(rows)@;
    rows.push(Row { kind: RowKind::FileHeader, file, hunk: 0, line: 0, comment: 0, part: 0, left: None, right: None });
    let path = f.display_path();
    match session.file_index(&path) {
        Some(i) => {
            proof {
                lemma_find_bounds(session.files@, path@);
            }
            let review = &session.files[i];
            if !review.reviewed {
                push_file_comment_rows(rows, &review.file_comments, file);
                push_hunk_rows(rows, f, &review.line_comments, file);
                rows.push(Row { kind: RowKind::Separator, file, hunk: 0, line: 0, comment: 0, part: 0, left: None, right: None });
            }
        },
        None => {
            let empty: Vec<LineComment> = Vec::new();
            assert(empty@ =~= Seq::<LineComment>::empty());
            push_hunk_rows(rows, f, &empty, file);
            rows.push(Row { kind: RowKind::Separator, file, hunk: 0, line: 0, comment: 0, part: 0, left: None, right: None });
        },
    }
    assert(rows@ =~= base + file_row_seq(f@, session.files@, file as int));
}

/// Every visible row of the unified view, in display order.
pub fn unified_rows(files: &Vec<DiffFile>, session: &ReviewSession) -> (r: Vec<Row>)
    ensures
        r@ == changeset_rows(file_views(files@), session.files@),
{
    let ghost fs = file_views(files@);
    let mut rows: Vec<Row> = Vec::new();
    let mut i: usize = 0;
    while i < files.len()
        invariant
            i <= files.len(),
            fs == file_views(files@),
            rows@ == changeset_rows(fs.take(i as int), session.files@),
        decreases files.len() - i,
    {
        assert(fs.take(i + 1).drop_last() =~= fs.take(i as int));
        assert(fs[i as int] == files@[i as int]@);
        push_file_rows(&mut rows, &files[i], session, i);
        assert(rows@ =~= changeset_rows(fs.take(i + 1), session.files@));
        i += 1;
    }
    assert(fs.take(i as int) =~= fs);
    rows
}

} // verus!

verus! {

/// A reviewed file shows only its header row: none of its diff lines or
/// comments are among the visible rows.
pub proof fn lemma_reviewed_rows_fold(f: FileView, reviews: Seq<FileReview>, file: int)
    requires
        review_of(reviews, display_path_of(f)) matches Some(r) && r.reviewed,
    ensures
        file_row_seq(f, reviews, file) == seq![mk_row(RowKind::FileHeader, file, 0, 0, 0, 0)],
{
}

/// A comment's row count fits in `usize`.
pub open spec fn fits(c: Comment) -> bool {
    comment_rows(c) <= usize::MAX
}

pub open spec fn line_comments_fit(lc: Seq<LineComment>) -> bool {
    forall|k: int| 0 <= k < lc.len() ==> fits(#[trigger] lc[k].comment)
}

pub open spec fn comments_fit(cs: Seq<Comment>) -> bool {
    forall|k: int| 0 <= k < cs.len() ==> fits(#[trigger] cs[k])
}

pub open spec fn reviews_fit(reviews: Seq<FileReview>) -> bool {
    forall|i: int|
        0 <= i < reviews.len() ==> comments_fit((#[trigger] reviews[i]).file_comments@)
            && line_comments_fit(reviews[i].line_comments@)
}

proof fn lemma_side_len(lc: Seq<LineComment>, ln: u32, old_side: bool, file: int, hunk: int, line: int)
    requires
        line_comments_fit(lc),
    ensures
        side_row_seq(lc, ln, old_side, file, hunk, line).len() == side_rows(lc, ln, old_side),
    decreases lc.len(),
{
    if lc.len() > 0 {
        assert(line_comments_fit(lc.drop_last())) by {
            assert forall|k: int| 0 <= k < lc.drop_last().len() implies fits(
                #[trigger] lc.drop_last()[k].comment,
            ) by {
                assert(lc.drop_last()[k] == lc[k]);
            }
        }
        lemma_side_len(lc.drop_last(), ln, old_side, file, hunk, line);
        assert(fits(lc[lc.len() - 1].comment));
    }
}

proof fn lemma_lines_len(ls: Seq<LineView>, lc: Seq<LineComment>, file: int, hunk: int)
    requires
        line_comments_fit(lc),
    ensures
        lines_row_seq(ls, lc, file, hunk).len() == lines_rows(ls, lc),
    decreases ls.len(),
{
    if ls.len() > 0 {
        lemma_lines_len(ls.drop_last(), lc, file, hunk);
        let l = ls.last();
        match l.old_lineno {
            Some(o) => lemma_side_len(lc, o, true, file, hunk, ls.len() - 1),
            None => {},
        }
        match l.new_lineno {
            Some(n) => lemma_side_len(lc, n, false, file, hunk, ls.len() - 1),
            None => {},
        }
    }
}

proof fn lemma_hunks_len(hs: Seq<HunkView>, lc: Seq<LineComment>, file: int)
    requires
        line_comments_fit(lc),
    ensures
        hunks_row_seq(hs, lc, file).len() == hunks_rows(hs, lc),
    decreases hs.len(),
{
    if hs.len() > 0 {
        lemma_hunks_len(hs.drop_last(), lc, file);
        lemma_lines_len(hs.last().lines, lc, file, hs.len() - 1);
    }
}

proof fn lemma_file_comments_len(cs: Seq<Comment>, file: int)
    requires
        comments_fit(cs),
    ensures
        file_comment_seq(cs, file).len() == comments_rows(cs),
    decreases cs.len(),
{
    if cs.len() > 0 {
        assert(comments_fit(cs.drop_last())) by {
            assert forall|k: int| 0 <= k < cs.drop_last().len() implies fits(
                #[trigger] cs.drop_last()[k],
            ) by {
                assert(cs.drop_last()[k] == cs[k]);
            }
        }
        lemma_file_comments_len(cs.drop_last(), file);
        assert(fits(cs[cs.len() - 1]));
    }
}

/// The unified view shows exactly as many rows for a file as the navigation
/// engine counts for it.
pub proof fn lemma_file_rows_agree(f: FileView, reviews: Seq<FileReview>, file: int)
    requires
        reviews_fit(reviews),
    ensures
        file_row_seq(f, reviews, file).len() == file_rows(f, reviews),
{
    lemma_find_bounds(reviews, display_path_of(f));
    match find_review(reviews, display_path_of(f)) {
        Some(i) => {
            let r = reviews[i];
            if !r.reviewed {
                lemma_file_comments_len(r.file_comments@, file);
                lemma_hunks_len(f.hunks, r.line_comments@, file);
            }
        },
        None => {
            assert(line_comments_fit(Seq::<LineComment>::empty()));
            lemma_hunks_len(f.hunks, seq![], file);
        },
    }
}

proof fn lemma_rows_len(files: Seq<FileView>, reviews: Seq<FileReview>, j: int)
    requires
        reviews_fit(reviews),
        0 <= j <= files.len(),
        forall|i: int| 0 <= i < files.len() ==> file_rows(#[trigger] files[i], reviews) <= usize::MAX,
    ensures
        changeset_rows(files.take(j), reviews).len() == prefix(heights(files, reviews), j),
    decreases j,
{
    if j > 0 {
        lemma_rows_len(files, reviews, j - 1);
        assert(files.take(j).drop_last() =~= files.take(j - 1));
        lemma_file_rows_agree(files[j - 1], reviews, j - 1);
    }
}

proof fn lemma_rows_prefix(files: Seq<FileView>, reviews: Seq<FileReview>, j: int, k: int)
    requires
        0 <= j <= files.len(),
        0 <= k < changeset_rows(files.take(j), reviews).len(),
    ensures
        k < changeset_rows(files, reviews).len(),
        changeset_rows(files, reviews)[k] == changeset_rows(files.take(j), reviews)[k],
    decreases files.len() - j,
{
    if j == files.len() {
        assert(files.take(j) =~= files);
    } else {
        assert(files.take(j + 1).drop_last() =~= files.take(j));
        lemma_rows_prefix(files, reviews, j + 1, k);
    }
}

/// The rows before file `idx` number `prefix(heights, idx)`, the offset that
/// `jump_to_file(idx)` scrolls to, and the row there is file `idx`'s header.
pub proof fn lemma_jump_lands_on_header(files: Seq<FileView>, reviews: Seq<FileReview>, idx: int)
    requires
        reviews_fit(reviews),
        0 <= idx < files.len(),
        forall|i: int| 0 <= i < files.len() ==> file_rows(#[trigger] files[i], reviews) <= usize::MAX,
    ensures
        prefix(heights(files, reviews), idx) < changeset_rows(files, reviews).len(),
        changeset_rows(files, reviews)[prefix(heights(files, reviews), idx) as int] == mk_row(
            RowKind::FileHeader,
            idx,
            0,
            0,
            0,
            0,
        ),
{
    lemma_rows_len(files, reviews, idx);
    assert(files.take(idx + 1).drop_last() =~= files.take(idx));
    assert(files.take(idx + 1).last() == files[idx]);
    let p = prefix(heights(files, reviews), idx) as int;
    lemma_rows_prefix(files, reviews, idx + 1, p);
}

} // verus!

verus! {

pub open spec fn view_origins(ls: Seq<LineView>) -> Seq<LineOrigin> {
    ls.map_values(|l: LineView| l.origin)
}

/// The row showing one aligned pair of columns.
pub open spec fn pair_row(file: int, hunk: int, sr: SideRow) -> Row {
    Row {
        kind: RowKind::Line,
        file: file as usize,
        hunk: hunk as usize,
        line: match sr.left {
            Some(d) => d,
            None => match sr.right {
                Some(a) => a,
                None => 0,
            },
        },
        comment: 0,
        part: 0,
        left: sr.left,
        right: sr.right,
    }
}

/// One aligned row, then the old-side comments of a deletion in its left
/// column, then the new-side comments of the line in its right column.
pub open spec fn aligned_row_seq(ls: Seq<LineView>, sr: SideRow, lc: Seq<LineComment>, file: int, hunk: int) -> Seq<Row> {
    seq![pair_row(file, hunk, sr)] + (match sr.left {
        Some(d) => if (d as int) < ls.len() && ls[d as int].origin == LineOrigin::Deletion
            && ls[d as int].old_lineno is Some {
            side_row_seq(lc, ls[d as int].old_lineno->0, true, file, hunk, d as int)
        } else {
            seq![]
        },
        None => seq![],
    }) + (match sr.right {
        Some(a) => if (a as int) < ls.len() && ls[a as int].new_lineno is Some {
            side_row_seq(lc, ls[a as int].new_lineno->0, false, file, hunk, a as int)
        } else {
            seq![]
        },
        None => seq![],
    })
}

pub open spec fn aligned_rows_seq(ls: Seq<LineView>, srs: Seq<SideRow>, lc: Seq<LineComment>, file: int, hunk: int) -> Seq<Row>
    decreases srs.len(),
{
    if srs.len() == 0 {
        seq![]
    } else {
        aligned_rows_seq(ls, srs.drop_last(), lc, file, hunk) + aligned_row_seq(
            ls,
            srs.last(),
            lc,
            file,
            hunk,
        )
    }
}

pub open spec fn two_column_hunks_seq(hs: Seq<HunkView>, lc: Seq<LineComment>, file: int) -> Seq<Row>
    decreases hs.len(),
{
    if hs.len() == 0 {
        seq![]
    } else {
        two_column_hunks_seq(hs.drop_last(), lc, file) + seq![
            mk_row(RowKind::HunkHeader, file, hs.len() - 1, 0, 0, 0),
        ] + aligned_rows_seq(
            hs.last().lines,
            align_from(view_origins(hs.last().lines), 0),
            lc,
            file,
            hs.len() - 1,
        )
    }
}

/// Rows of file `file` in the two-column view: only its header when reviewed.
pub open spec fn two_column_file_seq(f: FileView, reviews: Seq<FileReview>, file: int) -> Seq<Row> {
    let header = seq![mk_row(RowKind::FileHeader, file, 0, 0, 0, 0)];
    let sep = seq![mk_row(RowKind::Separator, file, 0, 0, 0, 0)];
    match review_of(reviews, display_path_of(f)) {
        Some(r) => if r.reviewed {
            header
        } else {
            header + file_comment_seq(r.file_comments@, file) + two_column_hunks_seq(
                f.hunks,
                r.line_comments@,
                file,
            ) + sep
        },
        None => header + two_column_hunks_seq(f.hunks, seq![], file) + sep,
    }
}

/// Every visible row of the two-column view, in order.
pub open spec fn two_column_rows(files: Seq<FileView>, reviews: Seq<FileReview>) -> Seq<Row>
    decreases files.len(),
{
    if files.len() == 0 {
        seq![]
    } else {
        two_column_rows(files.drop_last(), reviews) + two_column_file_seq(
            files.last(),
            reviews,
            files.len() - 1,
        )
    }
}

fn push_aligned_row(rows: &mut Vec<Row>, lines: &Vec<DiffLine>, sr: SideRow, lc: &Vec<LineComment>, file: usize, hunk: usize)
    ensures
        final(rows)@ == old(rows)@ + aligned_row_seq(
            line_views(lines@),
            sr,
            lc@,
            file as int,
            hunk as int,
        ),
{
    let ghost base = old(rows)@;
    let ghost ls = line_views(lines@);
    let line = match sr.left {
        Some(d) => d,
        None => match sr.right {
            Some(a) => a,
            None => 0,
        },
    };
    rows.push(
        Row {
            kind: RowKind::Line,
            file,
            hunk,
            line,
            comment: 0,
            part: 0,
            left: sr.left,
            right: sr.right,
        },
    );
    match sr.left {
        Some(d) => {
            if d < lines.len() && lines[d].origin == LineOrigin::Deletion {
                assert(ls[d as int] == lines@[d as int]@);
                match lines[d].old_lineno {
                    Some(o) => push_side_rows(rows, lc, o, true, file, hunk, d),
                    None => {},
                }
            }
        },
        None => {},
    }
    match sr.right {
        Some(a) => {
            if a < lines.len() {
                assert(ls[a as int] == lines@[a as int]@);
                match lines[a].new_lineno {
                    Some(n) => push_side_rows(rows, lc, n, false, file, hunk, a),
                    None => {},
                }
            }
        },
        None => {},
    }
    assert(rows@ =~= base + aligned_row_seq(ls, sr, lc@, file as int, hunk as int));
}

fn push_two_column_hunks(rows: &mut Vec<Row>, f: &DiffFile, lc: &Vec<LineComment>, file: usize)
    ensures
        final(rows)@ == old(rows)@ + two_column_hunks_seq(f@.hunks, lc@, file as int),
{
    let ghost base = old(rows)@;
    let ghost hs = f@.hunks;
    let mut h: usize = 0;
    while h < f.hunks.len()
        invariant
            h <= f.hunks.len(),
            hs == hunk_views(f.hunks@),
            rows@ == base + two_column_hunks_seq(hs.take(h as int), lc@, file as int),
        decreases f.hunks.len() - h,
    {
        assert(hs.take(h + 1).drop_last() =~= hs.take(h as int));
        assert(hs[h as int] == f.hunks@[h as int]@);
        rows.push(
            Row {
                kind: RowKind::HunkHeader,
                file,
                hunk: h,
                line: 0,
                comment: 0,
                part: 0,
                left: None,
                right: None,
            },
        );
        let hunk = &f.hunks[h];
        let ghost ls = hunk@.lines;
        let aligned = align_hunk(&hunk.lines);
        assert(origins(hunk.lines@) =~= view_origins(ls));
        let ghost srs = aligned@;
        let ghost mid = rows@;
        let mut k: usize = 0;
        while k < aligned.len()
            invariant
                k <= aligned.len(),
                ls == line_views(hunk.lines@),
                srs == aligned@,
                rows@ == mid + aligned_rows_seq(ls, srs.take(k as int), lc@, file as int, h as int),
            decreases aligned.len() - k,
        {
            assert(srs.take(k + 1).drop_last() =~= srs.take(k as int));
            push_aligned_row(rows, &hunk.lines, aligned[k], lc, file, h);
            assert(rows@ =~= mid + aligned_rows_seq(
                ls,
                srs.take(k + 1),
                lc@,
                file as int,
                h as int,
            ));
            k += 1;
        }
        assert(srs.take(k as int) =~= srs);
        assert(rows@ =~= base + two_column_hunks_seq(hs.take(h + 1), lc@, file as int));
        h += 1;
    }
    assert(hs.take(h as int) =~= hs);
}

fn push_two_column_file(rows: &mut Vec<Row>, f: &DiffFile, session: &ReviewSession, file: usize)
    ensures
        final(rows)@ == old(rows)@ + two_column_file_seq(f@, session.files@, file as int),
{
    let ghost base = old(rows)@;
    rows.push(
        Row {
            kind: RowKind::FileHeader,
            file,
            hunk: 0,
            line: 0,
            comment: 0,
            part: 0,
            left: None,
            right: None,
        },
    );
    let path = f.display_path();
    match session.file_index(&path) {
        Some(i) => {
            proof {
                lemma_find_bounds(session.files@, path@);
            }
            let review = &session.files[i];
            if !review.reviewed {
                push_file_comment_rows(rows, &review.file_comments, file);
                push_two_column_hunks(rows, f, &review.line_comments, file);
                rows.push(
                    Row {
                        kind: RowKind::Separator,
                        file,
                        hunk: 0,
                        line: 0,
                        comment: 0,
                        part: 0,
                        left: None,
                        right: None,
                    },
                );
            }
        },
        None => {
            let empty: Vec<LineComment> = Vec::new();
            assert(empty@ =~= Seq::<LineComment>::empty());
            push_two_column_hunks(rows, f, &empty, file);
            rows.push(
                Row {
                    kind: RowKind::Separator,
                    file,
                    hunk: 0,
                    line: 0,
                    comment: 0,
                    part: 0,
                    left: None,
                    right: None,
                },
            );
        },
    }
    assert(rows@ =~= base + two_column_file_seq(f@, session.files@, file as int));
}

/// Every visible row of the two-column view, in display order.
pub fn side_by_side_rows(files: &Vec<DiffFile>, session: &ReviewSession) -> (r: Vec<Row>)
    ensures
        r@ == two_column_rows(file_views(files@), session.files@),
{
    let ghost fs = file_views(files@);
    let mut rows: Vec<Row> = Vec::new();
    let mut i: usize = 0;
    while i < files.len()
        invariant
            i <= files.len(),
            fs == file_views(files@),
            rows@ == two_column_rows(fs.take(i as int), session.files@),
        decreases files.len() - i,
    {
        assert(fs.take(i + 1).drop_last() =~= fs.take(i as int));
        assert(fs[i as int] == files@[i as int]@);
        push_two_column_file(&mut rows, &files[i], session, i);
        assert(rows@ =~= two_column_rows(fs.take(i + 1), session.files@));
        i += 1;
    }
    assert(fs.take(i as int) =~= fs);
    rows
}

} // verus!

verus! {

/// Row counts of each file in the two-column view, saturated to `usize`.
pub open spec fn two_column_heights(files: Seq<FileView>, reviews: Seq<FileReview>) -> Seq<usize> {
    Seq::new(
        files.len(),
        |i: int| clamp(two_column_file_seq(files[i], reviews, i).len()) as usize,
    )
}

/// Row counts of every file in the two-column view, in changeset order.
pub fn two_column_file_heights(files: &Vec<DiffFile>, session: &ReviewSession) -> (r: Vec<usize>)
    ensures
        r@ == two_column_heights(file_views(files@), session.files@),
        forall|i: int| 0 <= i < r@.len() ==> r@[i] >= 1,
{
    let mut r: Vec<usize> = Vec::new();
    let mut i: usize = 0;
    while i < files.len()
        invariant
            i <= files.len(),
            r@.len() == i,
            forall|k: int|
                0 <= k < i ==> r@[k] == clamp(
                    two_column_file_seq(files@[k]@, session.files@, k).len(),
                ),
            forall|k: int| 0 <= k < i ==> r@[k] >= 1,
        decreases files.len() - i,
    {
        let mut rows: Vec<Row> = Vec::new();
        push_two_column_file(&mut rows, &files[i], session, i);
        assert(rows@ =~= two_column_file_seq(files@[i as int]@, session.files@, i as int));
        r.push(rows.len());
        i += 1;
    }
    assert(r@ =~= two_column_heights(file_views(files@), session.files@));
    r
}

proof fn lemma_two_column_rows_len(files: Seq<FileView>, reviews: Seq<FileReview>, j: int)
    requires
        0 <= j <= files.len(),
        forall|i: int|
            0 <= i < files.len() ==> (#[trigger] two_column_file_seq(files[i], reviews, i)).len()
                <= usize::MAX,
    ensures
        two_column_rows(files.take(j), reviews).len() == prefix(two_column_heights(files, reviews), j),
    decreases j,
{
    if j > 0 {
        lemma_two_column_rows_len(files, reviews, j - 1);
        assert(files.take(j).drop_last() =~= files.take(j - 1));
        assert(two_column_file_seq(files[j - 1], reviews, j - 1).len() <= usize::MAX);
    }
}

proof fn lemma_two_column_rows_prefix(files: Seq<FileView>, reviews: Seq<FileReview>, j: int, k: int)
    requires
        0 <= j <= files.len(),
        0 <= k < two_column_rows(files.take(j), reviews).len(),
    ensures
        k < two_column_rows(files, reviews).len(),
        two_column_rows(files, reviews)[k] == two_column_rows(files.take(j), reviews)[k],
    decreases files.len() - j,
{
    if j == files.len() {
        assert(files.take(j) =~= files);
    } else {
        assert(files.take(j + 1).drop_last() =~= files.take(j));
        lemma_two_column_rows_prefix(files, reviews, j + 1, k);
    }
}

/// In the two-column view too, the rows before file `idx` number
/// `prefix(two_column_heights, idx)`, the offset `jump_to_file(idx)` scrolls
/// to, and the row there is file `idx`'s header.
pub proof fn lemma_two_column_jump_lands_on_header(files: Seq<FileView>, reviews: Seq<FileReview>, idx: int)
    requires
        0 <= idx < files.len(),
        forall|i: int|
            0 <= i < files.len() ==> (#[trigger] two_column_file_seq(files[i], reviews, i)).len()
                <= usize::MAX,
    ensures
        prefix(two_column_heights(files, reviews), idx) < two_column_rows(files, reviews).len(),
        two_column_rows(files, reviews)[prefix(two_column_heights(files, reviews), idx) as int]
            == mk_row(RowKind::FileHeader, idx, 0, 0, 0, 0),
{
    lemma_two_column_rows_len(files, reviews, idx);
    assert(files.take(idx + 1).drop_last() =~= files.take(idx));
    assert(files.take(idx + 1).last() == files[idx]);
    let p = prefix(two_column_heights(files, reviews), idx) as int;
    lemma_two_column_rows_prefix(files, reviews, idx + 1, p);
}

} // verus!

verus! {

/// Every row of `s` belongs to file `j`.
pub open spec fn all_of_file(s: Seq<Row>, j: int) -> bool {
    forall|i: int| 0 <= i < s.len() ==> (#[trigger] s[i]).file == j as usize
}

proof fn lemma_side_of_file(lc: Seq<LineComment>, ln: u32, old_side: bool, file: int, hunk: int, line: int)
    ensures
        all_of_file(side_row_seq(lc, ln, old_side, file, hunk, line), file),
    decreases lc.len(),
{
    if lc.len() > 0 {
        lemma_side_of_file(lc.drop_last(), ln, old_side, file, hunk, line);
    }
}

proof fn lemma_lines_of_file(ls: Seq<LineView>, lc: Seq<LineComment>, file: int, hunk: int)
    ensures
        all_of_file(lines_row_seq(ls, lc, file, hunk), file),
    decreases ls.len(),
{
    if ls.len() > 0 {
        lemma_lines_of_file(ls.drop_last(), lc, file, hunk);
        let l = ls.last();
        match l.old_lineno {
            Some(o) => lemma_side_of_file(lc, o, true, file, hunk, ls.len() - 1),
            None => {},
        }
        match l.new_lineno {
            Some(n) => lemma_side_of_file(lc, n, false, file, hunk, ls.len() - 1),
            None => {},
        }
    }
}

proof fn lemma_hunks_of_file(hs: Seq<HunkView>, lc: Seq<LineComment>, file: int)
    ensures
        all_of_file(hunks_row_seq(hs, lc, file), file),
    decreases hs.len(),
{
    if hs.len() > 0 {
        lemma_hunks_of_file(hs.drop_last(), lc, file);
        lemma_lines_of_file(hs.last().lines, lc, file, hs.len() - 1);
    }
}

proof fn lemma_file_comments_of_file(cs: Seq<Comment>, file: int)
    ensures
        all_of_file(file_comment_seq(cs, file), file),
    decreases cs.len(),
{
    if cs.len() > 0 {
        lemma_file_comments_of_file(cs.drop_last(), file);
    }
}

proof fn lemma_file_rows_of_file(f: FileView, reviews: Seq<FileReview>, file: int)
    ensures
        all_of_file(file_row_seq(f, reviews, file), file),
{
    lemma_find_bounds(reviews, display_path_of(f));
    match find_review(reviews, display_path_of(f)) {
        Some(i) => {
            lemma_file_comments_of_file(reviews[i].file_comments@, file);
            lemma_hunks_of_file(f.hunks, reviews[i].line_comments@, file);
        },
        None => {
            lemma_hunks_of_file(f.hunks, seq![], file);
        },
    }
}

/// A file marked reviewed shows no row but its header anywhere in the
/// scrollable row sequence: none of its comments, hunk headers, diff lines
/// or separator, whichever window the scroll offset selects.
pub proof fn lemma_reviewed_file_only_header(files: Seq<FileView>, reviews: Seq<FileReview>, k: int)
    requires
        0 <= k < files.len(),
        files.len() <= usize::MAX,
        review_of(reviews, display_path_of(files[k])) matches Some(r) && r.reviewed,
    ensures
        forall|i: int|
            0 <= i < changeset_rows(files, reviews).len() && (#[trigger] changeset_rows(
                files,
                reviews,
            )[i]).file == k as usize ==> changeset_rows(files, reviews)[i].kind
                == RowKind::FileHeader,
    decreases files.len(),
{
    let rows = changeset_rows(files, reviews);
    let n = files.len() as int;
    let last = file_row_seq(files.last(), reviews, n - 1);
    let init = changeset_rows(files.drop_last(), reviews);
    assert(rows == init + last);
    if k < n - 1 {
        assert(files.drop_last()[k] == files[k]);
        lemma_reviewed_file_only_header(files.drop_last(), reviews, k);
        lemma_file_rows_of_file(files.last(), reviews, n - 1);
        assert forall|i: int|
            0 <= i < rows.len() && (#[trigger] rows[i]).file == k as usize implies rows[i].kind
            == RowKind::FileHeader by {
            if i < init.len() {
                assert(rows[i] == init[i]);
            } else {
                assert(rows[i] == last[i - init.len()]);
            }
        }
    } else {
        lemma_rows_all_before(files.drop_last(), reviews);
        assert forall|i: int|
            0 <= i < rows.len() && (#[trigger] rows[i]).file == k as usize implies rows[i].kind
            == RowKind::FileHeader by {
            if i < init.len() {
                assert(rows[i] == init[i]);
            } else {
                assert(rows[i] == last[i - init.len()]);
            }
        }
    }
}

/// Rows of the first files name only those files.
proof fn lemma_rows_all_before(files: Seq<FileView>, reviews: Seq<FileReview>)
    requires
        files.len() < usize::MAX,
    ensures
        forall|i: int|
            0 <= i < changeset_rows(files, reviews).len() ==> (#[trigger] changeset_rows(
                files,
                reviews,
            )[i]).file < files.len(),
    decreases files.len(),
{
    if files.len() > 0 {
        let n = files.len() as int;
        lemma_rows_all_before(files.drop_last(), reviews);
        lemma_file_rows_of_file(files.last(), reviews, n - 1);
        let init = changeset_rows(files.drop_last(), reviews);
        let last = file_row_seq(files.last(), reviews, n - 1);
        let rows = changeset_rows(files, reviews);
        assert forall|i: int| 0 <= i < rows.len() implies (#[trigger] rows[i]).file < files.len() by {
            if i < init.len() {
                assert(rows[i] == init[i]);
            } else {
                assert(rows[i] == last[i - init.len()]);
            }
        }
    }
}

} // verus!

verus! {

proof fn lemma_aligned_of_file(ls: Seq<LineView>, srs: Seq<SideRow>, lc: Seq<LineComment>, file: int, hunk: int)
    ensures
        all_of_file(aligned_rows_seq(ls, srs, lc, file, hunk), file),
    decreases srs.len(),
{
    if srs.len() > 0 {
        lemma_aligned_of_file(ls, srs.drop_last(), lc, file, hunk);
        let sr = srs.last();
        match sr.left {
            Some(d) => if (d as int) < ls.len() && ls[d as int].old_lineno is Some {
                lemma_side_of_file(lc, ls[d as int].old_lineno->0, true, file, hunk, d as int);
            },
            None => {},
        }
        match sr.right {
            Some(a) => if (a as int) < ls.len() && ls[a as int].new_lineno is Some {
                lemma_side_of_file(lc, ls[a as int].new_lineno->0, false, file, hunk, a as int);
            },
            None => {},
        }
    }
}

proof fn lemma_two_column_hunks_of_file(hs: Seq<HunkView>, lc: Seq<LineComment>, file: int)
    ensures
        all_of_file(two_column_hunks_seq(hs, lc, file), file),
    decreases hs.len(),
{
    if hs.len() > 0 {
        lemma_two_column_hunks_of_file(hs.drop_last(), lc, file);
        lemma_aligned_of_file(
            hs.last().lines,
            align_from(view_origins(hs.last().lines), 0),
            lc,
            file,
            hs.len() - 1,
        );
    }
}

proof fn lemma_two_column_file_of_file(f: FileView, reviews: Seq<FileReview>, file: int)
    ensures
        all_of_file(two_column_file_seq(f, reviews, file), file),
{
    lemma_find_bounds(reviews, display_path_of(f));
    match find_review(reviews, display_path_of(f)) {
        Some(i) => {
            lemma_file_comments_of_file(reviews[i].file_comments@, file);
            lemma_two_column_hunks_of_file(f.hunks, reviews[i].line_comments@, file);
        },
        None => {
            lemma_two_column_hunks_of_file(f.hunks, seq![], file);
        },
    }
}

proof fn lemma_two_column_all_before(files: Seq<FileView>, reviews: Seq<FileReview>)
    requires
        files.len() < usize::MAX,
    ensures
        forall|i: int|
            0 <= i < two_column_rows(files, reviews).len() ==> (#[trigger] two_column_rows(
                files,
                reviews,
            )[i]).file < files.len(),
    decreases files.len(),
{
    if files.len() > 0 {
        let n = files.len() as int;
        lemma_two_column_all_before(files.drop_last(), reviews);
        lemma_two_column_file_of_file(files.last(), reviews, n - 1);
        let init = two_column_rows(files.drop_last(), reviews);
        let last = two_column_file_seq(files.last(), reviews, n - 1);
        let rows = two_column_rows(files, reviews);
        assert forall|i: int| 0 <= i < rows.len() implies (#[trigger] rows[i]).file < files.len() by {
            if i < init.len() {
                assert(rows[i] == init[i]);
            } else {
                assert(rows[i] == last[i - init.len()]);
            }
        }
    }
}

/// In the two-column view too, a file marked reviewed shows no row but its header.
pub proof fn lemma_two_column_reviewed_only_header(files: Seq<FileView>, reviews: Seq<FileReview>, k: int)
    requires
        0 <= k < files.len(),
        files.len() <= usize::MAX,
        review_of(reviews, display_path_of(files[k])) matches Some(r) && r.reviewed,
    ensures
        forall|i: int|
            0 <= i < two_column_rows(files, reviews).len() && (#[trigger] two_column_rows(
                files,
                reviews,
            )[i]).file == k as usize ==> two_column_rows(files, reviews)[i].kind
                == RowKind::FileHeader,
    decreases files.len(),
{
    let rows = two_column_rows(files, reviews);
    let n = files.len() as int;
    let last = two_column_file_seq(files.last(), reviews, n - 1);
    let init = two_column_rows(files.drop_last(), reviews);
    assert(rows == init + last);
    if k < n - 1 {
        assert(files.drop_last()[k] == files[k]);
        lemma_two_column_reviewed_only_header(files.drop_last(), reviews, k);
        lemma_two_column_file_of_file(files.last(), reviews, n - 1);
    } else {
        lemma_two_column_all_before(files.drop_last(), reviews);
    }
    assert forall|i: int|
        0 <= i < rows.len() && (#[trigger] rows[i]).file == k as usize implies rows[i].kind
        == RowKind::FileHeader by {
        if i < init.len() {
            assert(rows[i] == init[i]);
        } else {
            assert(rows[i] == last[i - init.len()]);
        }
    }
}

} // verus!
