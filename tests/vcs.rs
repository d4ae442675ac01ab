use tuicr::model::{LineOrigin, TuicrError};
use tuicr::vcs::{context_lines, detect_vcs, HgBackend, JjBackend, VcsInfo, VcsType};

fn info(t: VcsType) -> VcsInfo {
    VcsInfo { root_path: "/r".to_string(), head_commit: "h".to_string(), branch_name: None, vcs_type: t }
}

#[test]
fn detect_vcs_outside_repo_returns_error() {
    let result = detect_vcs(None, None, None);
    match result {
        Ok(info) => {
            assert!(!info.head_commit.is_empty());
        }
        Err(TuicrError::NotARepository) => {}
        Err(e) => {
            panic!("Unexpected error: {:?}", e);
        }
    }
    assert!(matches!(detect_vcs(None, None, None), Err(TuicrError::NotARepository)));
}

#[test]
fn detect_vcs_prefers_jj_then_git_then_hg() {
    let r = detect_vcs(Some(info(VcsType::Jujutsu)), Some(info(VcsType::Git)), None).unwrap();
    assert_eq!(r.vcs_type, VcsType::Jujutsu);
    let r = detect_vcs(None, Some(info(VcsType::Git)), Some(info(VcsType::Mercurial))).unwrap();
    assert_eq!(r.vcs_type, VcsType::Git);
    let r = detect_vcs(None, None, Some(info(VcsType::Mercurial))).unwrap();
    assert_eq!(r.vcs_type, VcsType::Mercurial);
}

#[test]
fn backends_read_command_output() {
    let hg = HgBackend::from_outputs("/tmp/repo\n", Some("  1a2b3c+\n"), Some("default\n"));
    assert_eq!(hg.info().root_path, "/tmp/repo");
    assert_eq!(hg.info().head_commit, "1a2b3c");
    assert_eq!(hg.info().branch_name, Some("default".to_string()));
    assert_eq!(hg.info().vcs_type, VcsType::Mercurial);
    let hg = HgBackend::from_outputs("/x", None, None);
    assert_eq!(hg.info().head_commit, "unknown");
    let jj = JjBackend::from_outputs(" /j \n", Some("qpvuntsm\n"), Some("\n"));
    assert_eq!(jj.info().root_path, "/j");
    assert_eq!(jj.info().head_commit, "qpvuntsm");
    assert_eq!(jj.info().branch_name, None);
    assert_eq!(jj.info().vcs_type, VcsType::Jujutsu);
}

#[test]
fn context_lines_take_the_requested_range() {
    let content = "hello world\nmodified line\nthird\n";
    let lines = context_lines(content, 1, 2);
    assert_eq!(lines.len(), 2);
    assert_eq!(lines[0].content, "hello world");
    assert_eq!(lines[1].content, "modified line");
    assert_eq!(lines[1].old_lineno, Some(2));
    assert_eq!(lines[1].new_lineno, Some(2));
    assert_eq!(lines[0].origin, LineOrigin::Context);
    assert_eq!(context_lines(content, 2, 10).len(), 2);
    assert!(context_lines(content, 0, 2).is_empty());
    assert!(context_lines(content, 3, 2).is_empty());
    assert!(context_lines(content, 4, 9).is_empty());
}

#[test]
fn commit_info_shortens_id_and_fills_defaults() {
    use_commit_info();
}

fn use_commit_info() {
    let c = tuicr::vcs::CommitInfo::from_parts(
        "0123456789abcdef".to_string(),
        None,
        Some("Ada".to_string()),
        1_700_000_000,
    );
    assert_eq!(c.short_id, "0123456");
    assert_eq!(c.summary, "(no message)");
    assert_eq!(c.author, "Ada");
    assert_eq!(c.time, 1_700_000_000);
    let c = tuicr::vcs::CommitInfo::from_parts("abc".to_string(), Some("fix".to_string()), None, 0);
    assert_eq!(c.short_id, "abc");
    assert_eq!(c.summary, "fix");
    assert_eq!(c.author, "Unknown");
}
