use tuicr::model::DiffFile;
use tuicr::parser::parse_unified_diff;
use tuicr::review::{Comment, CommentType, LineSide, ReviewSession};
use tuicr::rows::{side_by_side_rows, unified_rows, Row, RowKind};
use tuicr::vcs::{changeset_or_no_changes, status_for_delta, DeltaKind};
use tuicr::model::{FileStatus, TuicrError};

const DIFF: &str = "diff --git a/a.txt b/a.txt\n--- a/a.txt\n+++ b/a.txt\n@@ -1,4 +1,2 @@\n keep\n-d1\n-d2\n-d3\n+a1\n";

fn setup() -> (Vec<DiffFile>, ReviewSession) {
    let files = parse_unified_diff(DIFF).unwrap();
    let mut session = ReviewSession::new("/r".to_string(), "h".to_string());
    session.add_file(files[0].display_path(), files[0].status);
    (files, session)
}

fn kinds(rows: &[Row]) -> Vec<RowKind> {
    rows.iter().map(|r| r.kind).collect()
}

#[test]
fn unified_rows_follow_the_row_contract() {
    let (files, mut session) = setup();
    let rows = unified_rows(&files, &session);
    assert_eq!(kinds(&rows), vec![RowKind::FileHeader, RowKind::HunkHeader, RowKind::Line, RowKind::Line, RowKind::Line, RowKind::Line, RowKind::Line, RowKind::Separator]);
    session.files[0].add_line_comment(
        3,
        Comment { content: "why?\nreally".to_string(), comment_type: CommentType::Issue, side: Some(LineSide::Old) },
    );
    let rows = unified_rows(&files, &session);
    assert_eq!(rows.len(), 10);
    assert_eq!(rows[5].kind, RowKind::LineComment);
    assert_eq!(rows[5].line, 2);
    assert_eq!(rows[6].part, 1);
    session.toggle_reviewed(&"a.txt".to_string());
    let rows = unified_rows(&files, &session);
    assert_eq!(kinds(&rows), vec![RowKind::FileHeader]);
}

#[test]
fn side_by_side_rows_pair_runs_and_place_comments() {
    let (files, mut session) = setup();
    session.files[0].add_line_comment(
        3,
        Comment { content: "old side".to_string(), comment_type: CommentType::Note, side: Some(LineSide::Old) },
    );
    let rows = side_by_side_rows(&files, &session);
    assert_eq!(kinds(&rows), vec![RowKind::FileHeader, RowKind::HunkHeader, RowKind::Line, RowKind::Line, RowKind::Line, RowKind::LineComment, RowKind::Line, RowKind::Separator]);
    assert_eq!((rows[2].left, rows[2].right), (Some(0), Some(0)));
    assert_eq!((rows[3].left, rows[3].right), (Some(1), Some(4)));
    assert_eq!((rows[4].left, rows[4].right), (Some(2), None));
    assert_eq!(rows[5].line, 2);
    assert_eq!((rows[6].left, rows[6].right), (Some(3), None));
}

#[test]
fn git_deltas_map_to_statuses() {
    assert_eq!(status_for_delta(DeltaKind::Untracked), FileStatus::Added);
    assert_eq!(status_for_delta(DeltaKind::Other), FileStatus::Modified);
    assert_eq!(status_for_delta(DeltaKind::Copied), FileStatus::Copied);
    assert!(matches!(changeset_or_no_changes(Vec::new()), Err(TuicrError::NoChanges)));
    let (files, _) = setup();
    assert_eq!(changeset_or_no_changes(files).unwrap().len(), 1);
}
