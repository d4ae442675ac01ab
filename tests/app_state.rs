use tuicr::app::{Action, App, InputMode};
use tuicr::model::DiffFile;
use tuicr::parser::parse_unified_diff;
use tuicr::review::{Comment, CommentType, LineSide};
use tuicr::vcs::{VcsInfo, VcsType};

const THREE_FILES: &str = "diff --git a/a.txt b/a.txt\n--- a/a.txt\n+++ b/a.txt\n@@ -1,2 +1,2 @@\n keep\n-old\n+new\n\
diff --git a/b.txt b/b.txt\n--- a/b.txt\n+++ b/b.txt\n@@ -1 +1,2 @@\n x\n+y\n\
diff --git a/c.txt b/c.txt\n--- a/c.txt\n+++ b/c.txt\n@@ -1 +1 @@\n-p\n+q\n";

fn info() -> VcsInfo {
    VcsInfo {
        root_path: "/repo".to_string(),
        head_commit: "abc".to_string(),
        branch_name: None,
        vcs_type: VcsType::Git,
    }
}

fn app_with(text: &str) -> App {
    let files: Vec<DiffFile> = parse_unified_diff(text).unwrap();
    App::new(info(), files)
}

fn assert_consistent(app: &App) {
    assert_eq!(app.diff_state.current_file_idx, app.file_list_state.selected);
}

// Rows per file: a.txt = header + hunk header + 3 lines + separator = 6,
// b.txt = 1 + 1 + 2 + 1 = 5, c.txt = 1 + 1 + 2 + 1 = 5.

#[test]
fn new_app_tracks_every_file() {
    let app = app_with(THREE_FILES);
    assert_eq!(app.file_count(), 3);
    assert_eq!(app.session.total_files(), 3);
    assert_eq!(app.session.repo_path, "/repo");
    assert_eq!(app.session.base_commit, "abc");
    assert_eq!(app.session.id.len(), 36);
    assert_eq!(app.diff_state.scroll_offset, 0);
    assert_eq!(app.reviewed_count(), 0);
}

#[test]
fn jump_to_file_scrolls_to_its_header() {
    let mut app = app_with(THREE_FILES);
    app.jump_to_file(1);
    assert_eq!(app.diff_state.scroll_offset, 6);
    assert_eq!(app.diff_state.current_file_idx, 1);
    app.jump_to_file(2);
    assert_eq!(app.diff_state.scroll_offset, 11);
    app.jump_to_file(99);
    assert_eq!(app.diff_state.current_file_idx, 2);
    assert_eq!(app.diff_state.scroll_offset, 11);
    assert_consistent(&app);
}

#[test]
fn next_and_prev_file_are_clamped() {
    let mut app = app_with(THREE_FILES);
    app.prev_file();
    assert_eq!(app.diff_state.current_file_idx, 0);
    app.next_file();
    app.next_file();
    app.next_file();
    assert_eq!(app.diff_state.current_file_idx, 2);
    app.prev_file();
    assert_eq!(app.diff_state.current_file_idx, 1);
    assert_eq!(app.diff_state.scroll_offset, 6);
    assert_consistent(&app);
}

#[test]
fn scrolling_selects_the_file_on_screen() {
    let mut app = app_with(THREE_FILES);
    app.scroll_down(5);
    assert_eq!(app.diff_state.current_file_idx, 0);
    app.scroll_down(1);
    assert_eq!(app.diff_state.current_file_idx, 1);
    app.scroll_down(5);
    assert_eq!(app.diff_state.current_file_idx, 2);
    app.scroll_down(1000);
    assert_eq!(app.diff_state.current_file_idx, 2);
    app.scroll_up(usize::MAX);
    assert_eq!(app.diff_state.scroll_offset, 0);
    assert_eq!(app.diff_state.current_file_idx, 0);
    assert_consistent(&app);
}

#[test]
fn reviewed_file_folds_to_its_header() {
    let mut app = app_with(THREE_FILES);
    app.toggle_reviewed();
    assert!(app.dirty);
    assert!(app.is_current_file_reviewed());
    assert_eq!(app.reviewed_count(), 1);
    app.jump_to_file(1);
    assert_eq!(app.diff_state.scroll_offset, 1);
    app.scroll_down(1);
    assert_eq!(app.diff_state.current_file_idx, 1);
    app.jump_to_file(0);
    app.toggle_reviewed();
    assert!(!app.is_current_file_reviewed());
    app.jump_to_file(1);
    assert_eq!(app.diff_state.scroll_offset, 6);
}

#[test]
fn comments_add_rows_to_their_file() {
    let mut app = app_with(THREE_FILES);
    let path = app.current_file_path().unwrap();
    let idx = app.session.file_index(&path).unwrap();
    let review = &mut app.session.files[idx];
    review.add_file_comment(Comment {
        content: "two\nlines".to_string(),
        comment_type: CommentType::Note,
        side: None,
    });
    review.add_line_comment(
        2,
        Comment { content: "on new".to_string(), comment_type: CommentType::Issue, side: None },
    );
    review.add_line_comment(
        2,
        Comment {
            content: "on old".to_string(),
            comment_type: CommentType::Issue,
            side: Some(LineSide::Old),
        },
    );
    // a.txt: 6 rows + 2 (file comment) + 1 (new-side comment under "+new")
    //        + 1 (old-side comment under "-old") = 10.
    app.jump_to_file(1);
    assert_eq!(app.diff_state.scroll_offset, 10);
    assert!(app.session.has_comments());
}

#[test]
fn empty_changeset_navigation_is_a_no_op() {
    let mut app = App::new(info(), Vec::new());
    app.next_file();
    app.jump_to_file(3);
    app.scroll_down(4);
    assert_eq!(app.diff_state.current_file_idx, 0);
    assert_eq!(app.file_list_state.selected, 0);
    assert!(app.current_file().is_none());
    app.toggle_reviewed();
    assert!(!app.dirty);
}

#[test]
fn modes_switch() {
    let mut app = app_with(THREE_FILES);
    app.enter_command_mode();
    assert_eq!(app.input_mode, InputMode::Command);
    app.exit_command_mode();
    assert_eq!(app.input_mode, InputMode::Normal);
    app.toggle_help();
    assert_eq!(app.input_mode, InputMode::Help);
    app.toggle_help();
    assert_eq!(app.input_mode, InputMode::Normal);
    app.enter_comment_mode();
    assert_eq!(app.input_mode, InputMode::Comment);
    app.exit_comment_mode();
    app.set_message("hi".to_string());
    assert_eq!(app.message, Some("hi".to_string()));
    app.clear_message();
    assert_eq!(app.message, None);
}

fn type_text(app: &mut App, text: &str) {
    for c in text.chars() {
        app.handle_action(Action::InsertChar(c));
    }
}

#[test]
fn commands_quit_or_report() {
    let mut app = app_with(THREE_FILES);
    app.handle_action(Action::EnterCommandMode);
    type_text(&mut app, " w ");
    app.handle_action(Action::SubmitInput);
    assert_eq!(app.message, Some("Save not yet implemented".to_string()));
    assert_eq!(app.input_mode, InputMode::Normal);
    assert!(!app.should_quit);
    app.handle_action(Action::EnterCommandMode);
    type_text(&mut app, "fooo");
    app.handle_action(Action::DeleteChar);
    assert_eq!(app.command_buffer, "foo");
    app.handle_action(Action::SubmitInput);
    assert_eq!(app.message, Some("Unknown command: foo".to_string()));
    app.handle_action(Action::EnterCommandMode);
    type_text(&mut app, "quit");
    app.handle_action(Action::SubmitInput);
    assert!(app.should_quit);
}

#[test]
fn submitted_comment_lands_on_current_file() {
    let mut app = app_with(THREE_FILES);
    app.handle_action(Action::NextFile);
    app.handle_action(Action::EnterCommentMode);
    type_text(&mut app, "  looks good ");
    app.handle_action(Action::SubmitInput);
    assert_eq!(app.input_mode, InputMode::Normal);
    assert!(app.dirty);
    let i = app.session.file_index(&"b.txt".to_string()).unwrap();
    assert_eq!(app.session.files[i].file_comments.len(), 1);
    assert_eq!(app.session.files[i].file_comments[0].content, "looks good");
    app.handle_action(Action::EnterCommentMode);
    type_text(&mut app, "   ");
    app.handle_action(Action::SubmitInput);
    assert_eq!(app.session.files[i].file_comments.len(), 1);
}

#[test]
fn actions_drive_navigation() {
    let mut app = app_with(THREE_FILES);
    app.handle_action(Action::GoToBottom);
    assert_eq!(app.diff_state.current_file_idx, 2);
    app.handle_action(Action::GoToTop);
    assert_eq!(app.diff_state.scroll_offset, 0);
    app.handle_action(Action::PageDown);
    assert_eq!(app.diff_state.scroll_offset, 30);
    assert_eq!(app.diff_state.current_file_idx, 2);
    app.handle_action(Action::ToggleFocus);
    app.file_list_state.selected = 1;
    app.handle_action(Action::SelectFile);
    assert_eq!(app.diff_state.current_file_idx, 1);
    assert_eq!(app.diff_state.scroll_offset, 6);
    app.handle_action(Action::ToggleReviewed);
    assert!(app.is_current_file_reviewed());
    app.handle_action(Action::Quit);
    assert!(app.should_quit);
}

#[test]
fn two_column_layout_counts_its_own_rows() {
    let mut app = app_with(THREE_FILES);
    app.handle_action(Action::ToggleDiffView);
    // a.txt: header + hunk header + context row + one paired row + separator = 5;
    // b.txt: 1 + 1 + 2 + 1 = 5; c.txt: 1 + 1 + 1 + 1 = 4.
    app.jump_to_file(1);
    assert_eq!(app.diff_state.scroll_offset, 5);
    app.next_file();
    assert_eq!(app.diff_state.scroll_offset, 10);
    app.scroll_up(1);
    assert_eq!(app.diff_state.current_file_idx, 1);
    let rows = tuicr::rows::side_by_side_rows(&app.diff_files, &app.session);
    assert_eq!(rows.len(), 14);
    assert_eq!(rows[10].kind, tuicr::rows::RowKind::FileHeader);
    assert_eq!(rows[10].file, 2);
}
