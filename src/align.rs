//! Side-by-side alignment of a hunk's lines into two-column rows.
//!
//! Context lines show on both columns. A run of deletions is paired
//! positionally with the run of additions right after it; the shorter run
//! leaves its column blank on the extra rows. An addition with no deletion
//! run before it shows alone on the right.

use vstd::prelude::*;

use crate::model::{DiffLine, LineOrigin};

verus! {

/// One two-column row: the index of the line shown on each side, if any.
#[derive(Clone, Copy, Debug, PartialEq, Eq, Structural)]
pub struct SideRow {
    pub left: Option<usize>,
    pub right: Option<usize>,
}

pub open spec fn origins(lines: Seq<DiffLine>) -> Seq<LineOrigin> {
    lines.map_values(|l: DiffLine| l.origin)
}

/// Index of the first line at or after `i` whose origin is not `o`.
pub open spec fn run_end(ls: Seq<LineOrigin>, i: int, o: LineOrigin) -> int
    decreases ls.len() - i,
{
    if i < 0 || i >= ls.len() || ls[i] != o {
        i
    } else {
        run_end(ls, i + 1, o)
    }
}

/// Rows pairing deletions `i..d` with additions `d..a`.
pub open spec fn paired_rows(i: int, d: int, a: int) -> Seq<SideRow> {
    let nd = d - i;
    let na = a - d;
    Seq::new(
        (if nd >= na {
            nd
        } else {
            na
        }) as nat,
        |k: int|
            SideRow {
                left: if k < nd {
                    Some((i + k) as usize)
                } else {
                    None
                },
                right: if k < na {
                    Some((d + k) as usize)
                } else {
                    None
                },
            },
    )
}

/// Rows for the lines from `i` on.
pub open spec fn align_from(ls: Seq<LineOrigin>, i: int) -> Seq<SideRow>
    decreases ls.len() - i,
{
    if i < 0 || i >= ls.len() {
        seq![]
    } else {
        match ls[i] {
            LineOrigin::Context => seq![SideRow { left: Some(i as usize), right: Some(i as usize) }]
                + align_from(ls, i + 1),
            LineOrigin::Addition => seq![SideRow { left: None, right: Some(i as usize) }]
                + align_from(ls, i + 1),
            LineOrigin::Deletion => {
                let d = run_end(ls, i, LineOrigin::Deletion);
                let a = run_end(ls, d, LineOrigin::Addition);
                if i < d && d <= a && a <= ls.len() {
                    paired_rows(i, d, a) + align_from(ls, a)
                } else {
                    seq![]
                }
            },
        }
    }
}

pub proof fn lemma_run_end(ls: Seq<LineOrigin>, i: int, j: int, o: LineOrigin)
    requires
        0 <= i <= j <= ls.len(),
        forall|k: int| i <= k < j ==> ls[k] == o,
        j == ls.len() || ls[j] != o,
    ensures
        run_end(ls, i, o) == j,
    decreases j - i,
{
    if i < j {
        lemma_run_end(ls, i + 1, j, o);
    }
}

pub proof fn lemma_run_end_bounds(ls: Seq<LineOrigin>, i: int, o: LineOrigin)
    requires
        0 <= i <= ls.len(),
    ensures
        i <= run_end(ls, i, o) <= ls.len(),
        forall|k: int| i <= k < run_end(ls, i, o) ==> ls[k] == o,
        run_end(ls, i, o) == ls.len() || ls[run_end(ls, i, o)] != o,
    decreases ls.len() - i,
{
    if i < ls.len() && ls[i] == o {
        lemma_run_end_bounds(ls, i + 1, o);
    }
}

fn find_run_end(lines: &Vec<DiffLine>, i: usize, o: LineOrigin) -> (r: usize)
    requires
        i <= lines.len(),
    ensures
        r == run_end(origins(lines@), i as int, o),
        i <= r <= lines.len(),
{
    let ghost ls = origins(lines@);
    let mut j = i;
    while j < lines.len() && lines[j].origin == o
        invariant
            i <= j <= lines.len(),
            ls == origins(lines@),
            forall|k: int| i <= k < j ==> ls[k] == o,
        decreases lines.len() - j,
    {
        j += 1;
    }
    proof {
        lemma_run_end(ls, i as int, j as int, o);
    }
    j
}

/// Aligns a hunk's lines into two-column rows: see `align_from`.
pub fn align_hunk(lines: &Vec<DiffLine>) -> (r: Vec<SideRow>)
    ensures
        r@ == align_from(origins(lines@), 0),
{
    let ghost ls = origins(lines@);
    let mut rows: Vec<SideRow> = Vec::new();
    let mut i: usize = 0;
    assert(rows@ + align_from(ls, 0) =~= align_from(ls, 0));
    while i < lines.len()
        invariant
            i <= lines.len(),
            ls == origins(lines@),
            align_from(ls, 0) == rows@ + align_from(ls, i as int),
        decreases lines.len() - i,
    {
        let ghost before = rows@;
        match lines[i].origin {
            LineOrigin::Context => {
                let row = SideRow { left: Some(i), right: Some(i) };
                rows.push(row);
                assert(before + (seq![row] + align_from(ls, i + 1)) =~= rows@ + align_from(
                    ls,
                    i + 1,
                ));
                i += 1;
            },
            LineOrigin::Addition => {
                let row = SideRow { left: None, right: Some(i) };
                rows.push(row);
                assert(before + (seq![row] + align_from(ls, i + 1)) =~= rows@ + align_from(
                    ls,
                    i + 1,
                ));
                i += 1;
            },
            LineOrigin::Deletion => {
                proof {
                    assert(ls[i as int] == LineOrigin::Deletion);
                    lemma_run_end_bounds(ls, i + 1, LineOrigin::Deletion);
                }
                let d = find_run_end(lines, i, LineOrigin::Deletion);
                let a = find_run_end(lines, d, LineOrigin::Addition);
                let n_del = d - i;
                let n_add = a - d;
                let count = if n_del >= n_add {
                    n_del
                } else {
                    n_add
                };
                let ghost pairs = paired_rows(i as int, d as int, a as int);
                let mut k: usize = 0;
                while k < count
                    invariant
                        k <= count,
                        count == pairs.len(),
                        n_del == d - i,
                        n_add == a - d,
                        i < d <= a <= lines.len(),
                        pairs == paired_rows(i as int, d as int, a as int),
                        rows@ == before + pairs.take(k as int),
                    decreases count - k,
                {
                    let row = SideRow {
                        left: if k < n_del {
                            Some(i + k)
                        } else {
                            None
                        },
                        right: if k < n_add {
                            Some(d + k)
                        } else {
                            None
                        },
                    };
                    assert(row == pairs[k as int]);
                    rows.push(row);
                    assert(rows@ =~= before + pairs.take(k + 1));
                    k += 1;
                }
                assert(pairs.take(count as int) =~= pairs);
                assert(before + (pairs + align_from(ls, a as int)) =~= rows@ + align_from(
                    ls,
                    a as int,
                ));
                i = a;
            },
        }
    }
    assert(rows@ + Seq::<SideRow>::empty() =~= rows@);
    rows
}

/// A run of `nd` deletions followed by a run of `na` additions gives
/// `max(nd, na)` rows; row `k` shows deletion `k` on the left while `k < nd`
/// and addition `k` on the right while `k < na`, the other column being blank.
pub proof fn lemma_run_pairing(nd: int, na: int)
    requires
        nd >= 1,
        na >= 0,
        nd + na <= usize::MAX,
    ensures
        ({
            let ls = Seq::new(
                (nd + na) as nat,
                |k: int|
                    if k < nd {
                        LineOrigin::Deletion
                    } else {
                        LineOrigin::Addition
                    },
            );
            let rows = align_from(ls, 0);
            &&& rows.len() == if nd >= na {
                nd
            } else {
                na
            }
            &&& forall|k: int|
                0 <= k < rows.len() ==> (#[trigger] rows[k]).left == (if k < nd {
                    Some(k as usize)
                } else {
                    None
                }) && rows[k].right == (if k < na {
                    Some((nd + k) as usize)
                } else {
                    None
                })
        }),
{
    let ls = Seq::new(
        (nd + na) as nat,
        |k: int|
            if k < nd {
                LineOrigin::Deletion
            } else {
                LineOrigin::Addition
            },
    );
    lemma_run_end(ls, 0, nd, LineOrigin::Deletion);
    lemma_run_end(ls, nd, nd + na, LineOrigin::Addition);
    assert(align_from(ls, nd + na) == Seq::<SideRow>::empty());
    assert(align_from(ls, 0) =~= paired_rows(0, nd, nd + na));
}

} // verus!
