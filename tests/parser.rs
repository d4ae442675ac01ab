use tuicr::model::{FileStatus, LineOrigin, TuicrError};
use tuicr::parser::{parse_hunk_header, parse_unified_diff};

#[test]
fn should_return_no_changes_for_empty_diff() {
    let result = parse_unified_diff("");
    assert!(matches!(result, Err(TuicrError::NoChanges)));
}

#[test]
fn should_parse_simple_diff() {
    let diff = r#"diff --git a/file.txt b/file.txt
--- a/file.txt
+++ b/file.txt
@@ -1,3 +1,4 @@
 line1
+added
 line2
 line3
"#;
    let files = parse_unified_diff(diff).unwrap();
    assert_eq!(files.len(), 1);
    assert_eq!(files[0].new_path, Some("file.txt".to_string()));
    assert_eq!(files[0].status, FileStatus::Modified);
    assert_eq!(files[0].hunks.len(), 1);
    assert_eq!(files[0].hunks[0].lines.len(), 4);
}

#[test]
fn should_parse_new_file() {
    let diff = r#"diff --git a/new.txt b/new.txt
new file mode 100644
--- /dev/null
+++ b/new.txt
@@ -0,0 +1,2 @@
+line1
+line2
"#;
    let files = parse_unified_diff(diff).unwrap();
    assert_eq!(files.len(), 1);
    assert_eq!(files[0].status, FileStatus::Added);
}

#[test]
fn should_parse_deleted_file() {
    let diff = r#"diff --git a/old.txt b/old.txt
deleted file mode 100644
--- a/old.txt
+++ /dev/null
@@ -1,2 +0,0 @@
-line1
-line2
"#;
    let files = parse_unified_diff(diff).unwrap();
    assert_eq!(files.len(), 1);
    assert_eq!(files[0].status, FileStatus::Deleted);
}

#[test]
fn should_parse_renamed_file() {
    let diff = "diff --git a/old.txt b/new.txt\nrename from old.txt\nrename to new.txt\n";
    let files = parse_unified_diff(diff).unwrap();
    assert_eq!(files.len(), 1);
    assert_eq!(files[0].status, FileStatus::Renamed);
}

#[test]
fn should_parse_multiple_files() {
    let diff = r#"diff --git a/a.txt b/a.txt
--- a/a.txt
+++ b/a.txt
@@ -1 +1 @@
-old
+new
diff --git a/b.txt b/b.txt
--- a/b.txt
+++ b/b.txt
@@ -1 +1 @@
-foo
+bar
"#;
    let files = parse_unified_diff(diff).unwrap();
    assert_eq!(files.len(), 2);
    assert_eq!(files[0].new_path, Some("a.txt".to_string()));
    assert_eq!(files[1].new_path, Some("b.txt".to_string()));
}

#[test]
fn should_parse_hunk_header() {
    let result = parse_hunk_header("@@ -1,3 +1,4 @@");
    assert_eq!(result, Some((1, 3, 1, 4)));

    let result = parse_hunk_header("@@ -10,5 +20,8 @@ context");
    assert_eq!(result, Some((10, 5, 20, 8)));
}

#[test]
fn should_calculate_line_numbers() {
    let diff = r#"diff --git a/file.txt b/file.txt
--- a/file.txt
+++ b/file.txt
@@ -5,4 +5,5 @@
 context
-deleted
+added1
+added2
 more
"#;
    let files = parse_unified_diff(diff).unwrap();
    let hunk = &files[0].hunks[0];

    assert_eq!(hunk.lines[0].old_lineno, Some(5));
    assert_eq!(hunk.lines[0].new_lineno, Some(5));

    assert_eq!(hunk.lines[1].old_lineno, Some(6));
    assert_eq!(hunk.lines[1].new_lineno, None);

    assert_eq!(hunk.lines[2].old_lineno, None);
    assert_eq!(hunk.lines[2].new_lineno, Some(6));

    assert_eq!(hunk.lines[3].old_lineno, None);
    assert_eq!(hunk.lines[3].new_lineno, Some(7));

    assert_eq!(hunk.lines[4].old_lineno, Some(7));
    assert_eq!(hunk.lines[4].new_lineno, Some(8));
}

#[test]
fn hunk_header_without_counts_defaults_to_one() {
    assert_eq!(parse_hunk_header("@@ -7 +9 @@"), Some((7, 1, 9, 1)));
    assert_eq!(parse_hunk_header("@@ -x,y +3 @@"), Some((1, 1, 3, 1)));
    assert_eq!(parse_hunk_header("@@ -1,2"), None);
    assert_eq!(parse_hunk_header("## -1,2 +1,2 ##"), None);
}

#[test]
fn text_without_file_section_is_no_changes() {
    let result = parse_unified_diff("just some text\n@@ -1 +1 @@\n+x\n");
    assert!(matches!(result, Err(TuicrError::NoChanges)));
}

#[test]
fn status_inferred_from_paths_without_marker() {
    let diff = "diff --git a/n.txt b/n.txt\n--- /dev/null\n+++ b/n.txt\n@@ -0,0 +1 @@\n+x\n\
diff --git a/d.txt b/d.txt\n--- a/d.txt\n+++ /dev/null\n@@ -1 +0,0 @@\n-x\n\
diff --git a/m.txt b/m.txt\n--- a/m.txt\n+++ b/m.txt\n@@ -1 +1 @@\n-x\n+y\n";
    let files = parse_unified_diff(diff).unwrap();
    assert_eq!(files.len(), 3);
    assert_eq!(files[0].status, FileStatus::Added);
    assert_eq!(files[0].old_path, None);
    assert_eq!(files[1].status, FileStatus::Deleted);
    assert_eq!(files[1].new_path, None);
    assert_eq!(files[1].old_path, Some("d.txt".to_string()));
    assert_eq!(files[2].status, FileStatus::Modified);
}

#[test]
fn binary_file_has_no_hunks() {
    let diff = "diff --git a/img.png b/img.png\nindex 1..2 100644\nBinary files a/img.png and b/img.png differ\n\
diff --git a/t.txt b/t.txt\n--- a/t.txt\n+++ b/t.txt\n@@ -1 +1 @@\n-a\n+b\n";
    let files = parse_unified_diff(diff).unwrap();
    assert_eq!(files.len(), 2);
    assert!(files[0].is_binary);
    assert!(files[0].hunks.is_empty());
    assert!(!files[1].is_binary);
    assert_eq!(files[1].hunks[0].lines.len(), 2);
}

#[test]
fn no_newline_marker_and_crlf_are_handled() {
    let diff = "diff --git a/f b/f\r\n--- a/f\r\n+++ b/f\r\n@@ -1,2 +1,2 @@\r\n one\r\n-two\r\n\\ No newline at end of file\r\n+deux\r\n";
    let files = parse_unified_diff(diff).unwrap();
    let hunk = &files[0].hunks[0];
    assert_eq!(hunk.header, "@@ -1,2 +1,2 @@");
    assert_eq!(hunk.lines.len(), 3);
    assert_eq!(hunk.lines[0].content, "one");
    assert_eq!(hunk.lines[0].origin, LineOrigin::Context);
    assert_eq!(hunk.lines[1].content, "two");
    assert_eq!(hunk.lines[1].old_lineno, Some(2));
    assert_eq!(hunk.lines[2].content, "deux");
    assert_eq!(hunk.lines[2].new_lineno, Some(2));
}

#[test]
fn recorded_numbers_add_up_to_declared_counts() {
    let diff = "diff --git a/f b/f\n--- a/f\n+++ b/f\n@@ -3,4 +3,3 @@\n a\n-b\n-c\n+C\n d\n@@ -20,1 +19,2 @@\n x\n+y\n";
    let files = parse_unified_diff(diff).unwrap();
    for hunk in &files[0].hunks {
        let old = hunk.lines.iter().filter(|l| l.old_lineno.is_some()).count();
        let new = hunk.lines.iter().filter(|l| l.new_lineno.is_some()).count();
        assert_eq!(old as u32, hunk.old_count);
        assert_eq!(new as u32, hunk.new_count);
    }
    assert_eq!(files[0].hunks[1].lines[1].new_lineno, Some(20));
}

#[test]
fn repeated_path_prefixes_are_stripped() {
    let diff = "diff --git a/a/x b/b/x\n--- a/a/x\n+++ b/b/x\n";
    let files = parse_unified_diff(diff).unwrap();
    assert_eq!(files[0].old_path, Some("x".to_string()));
    assert_eq!(files[0].new_path, Some("x".to_string()));
    assert_eq!(files[0].display_path(), "x");
}

#[test]
fn body_lines_starting_with_triple_marks_are_kept() {
    let diff = "diff --git a/f b/f\n--- a/f\n+++ b/f\n@@ -1,2 +1,2 @@\n---x\n+++y\n a\n";
    let files = parse_unified_diff(diff).unwrap();
    let hunk = &files[0].hunks[0];
    assert_eq!(hunk.lines.len(), 3);
    assert_eq!(hunk.lines[0].origin, LineOrigin::Deletion);
    assert_eq!(hunk.lines[0].content, "--x");
    assert_eq!(hunk.lines[0].old_lineno, Some(1));
    assert_eq!(hunk.lines[1].origin, LineOrigin::Addition);
    assert_eq!(hunk.lines[1].content, "++y");
    assert_eq!(hunk.lines[1].new_lineno, Some(1));
    assert_eq!(hunk.lines[2].old_lineno, Some(2));
    assert_eq!(hunk.lines[2].new_lineno, Some(2));
}

#[test]
fn only_binary_files_line_marks_a_binary_file() {
    let diff = "diff --git a/x b/x\nold mode 100644\nnew mode 100755\ndiff --git a/Binary b/Binary\n--- a/Binary\n+++ b/Binary\n@@ -1 +1 @@\n-a\n+b\n";
    let files = parse_unified_diff(diff).unwrap();
    assert_eq!(files.len(), 2);
    assert!(!files[0].is_binary);
    assert_eq!(files[0].new_path, Some("x".to_string()));
    assert_eq!(files[1].new_path, Some("Binary".to_string()));
    assert_eq!(files[1].hunks.len(), 1);
}

#[test]
fn section_without_path_lines_takes_paths_from_its_header() {
    let diff = "diff --git a/old.txt b/new.txt\nrename from old.txt\nrename to new.txt\n";
    let files = parse_unified_diff(diff).unwrap();
    assert_eq!(files[0].old_path, Some("old.txt".to_string()));
    assert_eq!(files[0].new_path, Some("new.txt".to_string()));
    assert_eq!(files[0].display_path(), "new.txt");
    let odd = parse_unified_diff("diff --git weird\n").unwrap();
    assert_eq!(odd[0].old_path, Some("weird".to_string()));
}
