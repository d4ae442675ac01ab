use tuicr::align::{align_hunk, SideRow};
use tuicr::model::{DiffLine, LineOrigin};

fn line(origin: LineOrigin) -> DiffLine {
    DiffLine { origin, content: String::new(), old_lineno: None, new_lineno: None }
}

fn lines(origins: &[LineOrigin]) -> Vec<DiffLine> {
    origins.iter().map(|o| line(*o)).collect()
}

use LineOrigin::{Addition as A, Context as C, Deletion as D};

#[test]
fn three_deletions_one_addition() {
    let rows = align_hunk(&lines(&[D, D, D, A]));
    assert_eq!(
        rows,
        vec![
            SideRow { left: Some(0), right: Some(3) },
            SideRow { left: Some(1), right: None },
            SideRow { left: Some(2), right: None },
        ]
    );
}

#[test]
fn one_deletion_three_additions() {
    let rows = align_hunk(&lines(&[D, A, A, A]));
    assert_eq!(
        rows,
        vec![
            SideRow { left: Some(0), right: Some(1) },
            SideRow { left: None, right: Some(2) },
            SideRow { left: None, right: Some(3) },
        ]
    );
}

#[test]
fn context_and_standalone_additions() {
    let rows = align_hunk(&lines(&[C, A, C, D, C]));
    assert_eq!(
        rows,
        vec![
            SideRow { left: Some(0), right: Some(0) },
            SideRow { left: None, right: Some(1) },
            SideRow { left: Some(2), right: Some(2) },
            SideRow { left: Some(3), right: None },
            SideRow { left: Some(4), right: Some(4) },
        ]
    );
    assert!(align_hunk(&Vec::new()).is_empty());
}
