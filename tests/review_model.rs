use tuicr::model::FileStatus;
use tuicr::review::{Comment, CommentType, FileReview, LineSide, ReviewSession};

fn note(text: &str) -> Comment {
    Comment { content: text.to_string(), comment_type: CommentType::Note, side: None }
}

#[test]
fn file_review_counts_comments_in_order() {
    let mut r = FileReview::new("src/a.rs".to_string(), FileStatus::Modified);
    assert_eq!(r.comment_count(), 0);
    r.add_file_comment(note("first"));
    r.add_line_comment(3, note("l3 a"));
    r.add_line_comment(5, note("l5"));
    r.add_line_comment(3, note("l3 b"));
    assert_eq!(r.comment_count(), 4);
    let on3: Vec<&Comment> = r.line_comments.iter().filter(|e| e.line == 3).map(|e| &e.comment).collect();
    assert_eq!(on3.len(), 2);
    assert_eq!(on3[0].content, "l3 a");
    assert_eq!(on3[1].content, "l3 b");
    assert_eq!(r.line_comment_indices(3), vec![0, 2]);
    assert!(r.line_comment_indices(4).is_empty());
}

#[test]
fn add_file_is_idempotent() {
    let mut s = ReviewSession::new("/repo".to_string(), "HEAD".to_string());
    assert_eq!(s.version, "1.0");
    s.add_file("a".to_string(), FileStatus::Added);
    s.get_file_mut(&"a".to_string()).unwrap().add_file_comment(note("keep me"));
    assert!(s.get_file_mut(&"missing".to_string()).is_none());
    s.add_file("a".to_string(), FileStatus::Modified);
    assert_eq!(s.total_files(), 1);
    assert_eq!(s.files[0].status, FileStatus::Added);
    assert_eq!(s.files[0].file_comments.len(), 1);
    assert!(s.has_comments());
}

#[test]
fn toggle_reviewed_reports_unknown_files() {
    let mut s = ReviewSession::new("/repo".to_string(), "HEAD".to_string());
    s.add_file("a".to_string(), FileStatus::Added);
    s.add_file("b".to_string(), FileStatus::Deleted);
    assert!(!s.toggle_reviewed(&"zzz".to_string()));
    assert!(s.toggle_reviewed(&"b".to_string()));
    assert_eq!(s.reviewed_count(), 1);
    assert!(s.files[1].reviewed);
    assert!(s.toggle_reviewed(&"b".to_string()));
    assert_eq!(s.reviewed_count(), 0);
    assert!(!s.has_comments());
}

#[test]
fn touch_keeps_identity() {
    let mut s = ReviewSession::new("/repo".to_string(), "HEAD".to_string());
    let id = s.id.clone();
    let created = s.created_at;
    s.touch();
    assert_eq!(s.id, id);
    assert_eq!(s.created_at, created);
    assert!(s.updated_at >= created);
    let other = ReviewSession::new("/repo".to_string(), "HEAD".to_string());
    assert_ne!(other.id, s.id);
    let _ = LineSide::New;
}

#[test]
fn grouping_line_comments_keeps_each_line_in_order() {
    use_grouping();
}

fn use_grouping() {
    let mut r = FileReview::new("f".to_string(), FileStatus::Modified);
    r.add_line_comment(7, note("a"));
    r.add_line_comment(2, note("b"));
    r.add_line_comment(7, note("c"));
    let groups = tuicr::review::group_line_comments(r.line_comments);
    assert_eq!(groups.len(), 2);
    assert_eq!(groups[0].line, 7);
    let texts: Vec<&str> = groups[0].comments.iter().map(|c| c.content.as_str()).collect();
    assert_eq!(texts, vec!["a", "c"]);
    assert_eq!(groups[1].line, 2);
    let back = tuicr::review::flatten_line_groups(groups);
    assert_eq!(back.len(), 3);
    let on7: Vec<&str> = back.iter().filter(|e| e.line == 7).map(|e| e.comment.content.as_str()).collect();
    assert_eq!(on7, vec!["a", "c"]);
    let on2: Vec<&str> = back.iter().filter(|e| e.line == 2).map(|e| e.comment.content.as_str()).collect();
    assert_eq!(on2, vec!["b"]);
}
