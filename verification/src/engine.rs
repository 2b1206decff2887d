//! The diff engine: Needleman-Wunsch alignment of the bodies of two basic
//! blocks, greedy pairing of blocks between two functions, and the emission
//! of the result rows.
//!
//! The alignment table for bodies of lengths `m` and `n` has `(m+1) x (n+1)`
//! cells; cell `(i, j)` holds the best score for aligning the first `i` left
//! instructions against the first `j` right ones, together with the arrow
//! that achieved it.  Gaps cost the positive penalty `gap` per skipped
//! instruction; aligning a pair adds its similarity score.

use vstd::prelude::*;
use crate::model::{BasicBlock, Function, Instruction};
use crate::score::{spec_score, spec_term_score, EQUIVALENT};
use crate::{rows_model, MatchDirection, Row, RowModel};

verus! {

/// The absolute value of an integer.
pub open spec fn iabs(x: int) -> int {
    if x < 0 { -x } else { x }
}

/// One cell of the alignment table: the score for aligning the first `i`
/// left instructions against the first `j` right ones, and the arrow taken.
/// Of equal candidates the later in the order diagonal, right-gap, left-gap
/// wins.
pub open spec fn spec_cell(
    l: Seq<Instruction>,
    r: Seq<Instruction>,
    gap: int,
    i: int,
    j: int,
) -> (int, Option<MatchDirection>)
    decreases i + j,
{
    if i <= 0 && j <= 0 {
        (0, None)
    } else if j <= 0 {
        (i * -gap, Some(MatchDirection::GapRight))
    } else if i <= 0 {
        (j * -gap, Some(MatchDirection::GapLeft))
    } else {
        let s = spec_score(l[i - 1], r[j - 1]);
        let d = spec_cell(l, r, gap, i - 1, j - 1).0 + s;
        let gl = spec_cell(l, r, gap, i, j - 1).0 - gap;
        let gr = spec_cell(l, r, gap, i - 1, j).0 - gap;
        if gr >= gl && gr >= d {
            (gr, Some(MatchDirection::GapRight))
        } else if gl >= d {
            (gl, Some(MatchDirection::GapLeft))
        } else {
            (d, Some(MatchDirection::Align(s >= EQUIVALENT as int)))
        }
    }
}

/// The traceback path from the origin to cell `(i, j)`, in forward order.
pub open spec fn spec_path(
    l: Seq<Instruction>,
    r: Seq<Instruction>,
    gap: int,
    i: int,
    j: int,
) -> Seq<MatchDirection>
    decreases iabs(i) + iabs(j),
{
    if i <= 0 && j <= 0 {
        seq![]
    } else if j <= 0 {
        spec_path(l, r, gap, i - 1, j).push(MatchDirection::GapRight)
    } else if i <= 0 {
        spec_path(l, r, gap, i, j - 1).push(MatchDirection::GapLeft)
    } else {
        match spec_cell(l, r, gap, i, j).1 {
            Some(MatchDirection::GapLeft) => spec_path(l, r, gap, i, j - 1).push(
                MatchDirection::GapLeft,
            ),
            Some(MatchDirection::GapRight) => spec_path(l, r, gap, i - 1, j).push(
                MatchDirection::GapRight,
            ),
            Some(MatchDirection::Align(e)) => spec_path(l, r, gap, i - 1, j - 1).push(
                MatchDirection::Align(e),
            ),
            None => seq![],
        }
    }
}

/// How many arrows of a path are left-gaps.
pub open spec fn gapleft_count(p: Seq<MatchDirection>) -> int
    decreases p.len(),
{
    if p.len() == 0 {
        0
    } else {
        gapleft_count(p.drop_last()) + if p.last() == MatchDirection::GapLeft { 1int } else { 0int }
    }
}

/// How many arrows of a path are right-gaps.
pub open spec fn gapright_count(p: Seq<MatchDirection>) -> int
    decreases p.len(),
{
    if p.len() == 0 {
        0
    } else {
        gapright_count(p.drop_last()) + if p.last() == MatchDirection::GapRight {
            1int
        } else {
            0int
        }
    }
}

/// Counts lie between 0 and the path length.
pub proof fn lemma_count_bounds(p: Seq<MatchDirection>)
    ensures
        0 <= gapleft_count(p) <= p.len(),
        0 <= gapright_count(p) <= p.len(),
    decreases p.len(),
{
    if p.len() > 0 {
        lemma_count_bounds(p.drop_last());
    }
}

/// In the traceback path to cell `(i, j)`, the arrows that consume a left
/// instruction (all but left-gaps) number exactly `i`, and the arrows that
/// consume a right instruction (all but right-gaps) number exactly `j`.
pub proof fn lemma_path_counts(l: Seq<Instruction>, r: Seq<Instruction>, gap: int, i: int, j: int)
    requires
        0 <= i,
        0 <= j,
    ensures
        spec_path(l, r, gap, i, j).len() - gapleft_count(spec_path(l, r, gap, i, j)) == i,
        spec_path(l, r, gap, i, j).len() - gapright_count(spec_path(l, r, gap, i, j)) == j,
    decreases i + j,
{
    let p = spec_path(l, r, gap, i, j);
    if i == 0 && j == 0 {
    } else if j == 0 {
        lemma_path_counts(l, r, gap, i - 1, j);
        assert(p.drop_last() == spec_path(l, r, gap, i - 1, j));
    } else if i == 0 {
        lemma_path_counts(l, r, gap, i, j - 1);
        assert(p.drop_last() == spec_path(l, r, gap, i, j - 1));
    } else {
        match spec_cell(l, r, gap, i, j).1 {
            Some(MatchDirection::GapLeft) => {
                lemma_path_counts(l, r, gap, i, j - 1);
                assert(p.drop_last() == spec_path(l, r, gap, i, j - 1));
            },
            Some(MatchDirection::GapRight) => {
                lemma_path_counts(l, r, gap, i - 1, j);
                assert(p.drop_last() == spec_path(l, r, gap, i - 1, j));
            },
            Some(MatchDirection::Align(e)) => {
                lemma_path_counts(l, r, gap, i - 1, j - 1);
                assert(p.drop_last() == spec_path(l, r, gap, i - 1, j - 1));
            },
            None => {
                assert(false);
            },
        }
    }
}

/// Cell scores stay far inside the range of the 128-bit integers the
/// executable table holds.
pub proof fn lemma_cell_fits(l: Seq<Instruction>, r: Seq<Instruction>, gap: int, i: int, j: int)
    requires
        0 <= gap <= 0xffff_ffff,
        0 <= i <= 0xffff_ffff_ffff_ffff,
        0 <= j <= 0xffff_ffff_ffff_ffff,
    ensures
        iabs(spec_cell(l, r, gap, i, j).0) <= 0x1_0000_0000_0000_0000_0000_0000_0000,
{
    lemma_cell_bound(l, r, gap, i, j);
    assert((6 + gap) * (i + j) <= 0x1_0000_0000_0000_0000_0000_0000_0000) by (nonlinear_arith)
        requires
            0 <= gap <= 0xffff_ffff,
            0 <= i <= 0xffff_ffff_ffff_ffff,
            0 <= j <= 0xffff_ffff_ffff_ffff;
}

/// Alignment scores are bounded by `(6 + gap)` per alignment step.
pub proof fn lemma_cell_bound(l: Seq<Instruction>, r: Seq<Instruction>, gap: int, i: int, j: int)
    requires
        gap >= 0,
        i >= 0,
        j >= 0,
    ensures
        iabs(spec_cell(l, r, gap, i, j).0) <= (6 + gap) * (i + j),
    decreases i + j,
{
    if i == 0 && j == 0 {
    } else if j == 0 {
        assert(iabs(i * -gap) == i * gap) by (nonlinear_arith)
            requires i > 0 && gap >= 0;
        assert(i * gap <= (6 + gap) * (i + j)) by (nonlinear_arith)
            requires i > 0 && j == 0 && gap >= 0;
    } else if i == 0 {
        assert(iabs(j * -gap) == j * gap) by (nonlinear_arith)
            requires j > 0 && gap >= 0;
        assert(j * gap <= (6 + gap) * (i + j)) by (nonlinear_arith)
            requires j > 0 && i == 0 && gap >= 0;
    } else {
        lemma_cell_bound(l, r, gap, i - 1, j - 1);
        lemma_cell_bound(l, r, gap, i, j - 1);
        lemma_cell_bound(l, r, gap, i - 1, j);
        crate::score::lemma_score_bounds(l[i - 1], r[j - 1]);
        assert((6 + gap) * (i + j - 2) + 6 <= (6 + gap) * (i + j)) by (nonlinear_arith)
            requires i >= 1 && j >= 1 && gap >= 0;
        assert((6 + gap) * (i + j - 1) + gap <= (6 + gap) * (i + j)) by (nonlinear_arith)
            requires i >= 1 && j >= 1 && gap >= 0;
    }
}

/// One executable cell agrees with the specification cell.
pub open spec fn cell_matches(
    c: (i128, Option<MatchDirection>),
    l: Seq<Instruction>,
    r: Seq<Instruction>,
    gap: int,
    i: int,
    j: int,
) -> bool {
    c.0 as int == spec_cell(l, r, gap, i, j).0 && c.1 == spec_cell(l, r, gap, i, j).1
}

/// One executable row of the table agrees with the specification cells.
pub open spec fn row_matches(
    row: Seq<(i128, Option<MatchDirection>)>,
    l: Seq<Instruction>,
    r: Seq<Instruction>,
    gap: int,
    i: int,
) -> bool {
    row.len() == r.len() + 1 && forall|j: int|
        0 <= j <= r.len() ==> cell_matches(#[trigger] row[j], l, r, gap, i, j)
}

/// The whole executable table agrees with the specification cells.
pub open spec fn grid_matches(
    g: Seq<Vec<(i128, Option<MatchDirection>)>>,
    l: Seq<Instruction>,
    r: Seq<Instruction>,
    gap: int,
) -> bool {
    g.len() == l.len() + 1 && forall|i: int|
        0 <= i <= l.len() ==> row_matches((#[trigger] g[i])@, l, r, gap, i)
}

/// Fill the alignment table for the two block bodies.
pub fn fill_grid(l: &Vec<Instruction>, r: &Vec<Instruction>, gap: u32) -> (g: Vec<
    Vec<(i128, Option<MatchDirection>)>,
>)
    ensures
        grid_matches(g@, l@, r@, gap as int),
{
    let m = l.len();
    let n = r.len();
    let gi: i128 = gap as i128;
    proof {
        assert(usize::MAX as int <= 0xffff_ffff_ffff_ffff);
    }
    let mut g: Vec<Vec<(i128, Option<MatchDirection>)>> = Vec::new();
    let mut row0: Vec<(i128, Option<MatchDirection>)> = Vec::new();
    row0.push((0, None));
    for jj in 0..n
        invariant
            n == r@.len(),
            gi == gap,
            row0@.len() == jj + 1,
            forall|t: int| 0 <= t <= jj ==> cell_matches(#[trigger] row0@[t], l@, r@, gap as int, 0, t),
    {
        let j = jj + 1;
        proof {
            assert((j as i128) * -gi == -((j as int) * (gap as int))) by (nonlinear_arith)
                requires gi == gap as int && 0 <= j <= 0xffff_ffff_ffff_ffff && 0 <= gap <= 0xffff_ffff;
            assert((j as int) * (gap as int) <= 0x1_0000_0000_0000_0000_0000_0000_0000) by (nonlinear_arith)
                requires 0 <= j <= 0xffff_ffff_ffff_ffff && 0 <= gap <= 0xffff_ffff;
        }
        row0.push((j as i128 * -gi, Some(MatchDirection::GapLeft)));
    }
    g.push(row0);
    for ii in 0..m
        invariant
            m == l@.len(),
            n == r@.len(),
            gi == gap,
            g@.len() == ii + 1,
            forall|t: int| 0 <= t <= ii ==> row_matches((#[trigger] g@[t])@, l@, r@, gap as int, t),
    {
        let i = ii + 1;
        let mut row: Vec<(i128, Option<MatchDirection>)> = Vec::new();
        proof {
            assert((i as i128) * -gi == -((i as int) * (gap as int))) by (nonlinear_arith)
                requires gi == gap as int && 0 <= i <= 0xffff_ffff_ffff_ffff && 0 <= gap <= 0xffff_ffff;
            assert((i as int) * (gap as int) <= 0x1_0000_0000_0000_0000_0000_0000_0000) by (nonlinear_arith)
                requires 0 <= i <= 0xffff_ffff_ffff_ffff && 0 <= gap <= 0xffff_ffff;
        }
        row.push((i as i128 * -gi, Some(MatchDirection::GapRight)));
        for jj in 0..n
            invariant
                m == l@.len(),
                n == r@.len(),
                1 <= i <= m,
                i == ii + 1,
                gi == gap,
                g@.len() == i,
                forall|t: int| 0 <= t < i ==> row_matches((#[trigger] g@[t])@, l@, r@, gap as int, t),
                row@.len() == jj + 1,
                forall|t: int|
                    0 <= t <= jj ==> cell_matches(#[trigger] row@[t], l@, r@, gap as int, i as int, t),
        {
            let j = jj + 1;
            let s: i64 = crate::score::score(&l[i - 1], &r[j - 1]);
            proof {
                lemma_cell_fits(l@, r@, gap as int, i - 1, j - 1);
                lemma_cell_fits(l@, r@, gap as int, i as int, j - 1);
                lemma_cell_fits(l@, r@, gap as int, i - 1, j as int);
                crate::score::lemma_score_bounds(l@[i - 1], r@[j - 1]);
            }
            let prev = &g[i - 1];
            let d: i128 = prev[j - 1].0 + s as i128;
            let gl: i128 = row[j - 1].0 - gi;
            let gr: i128 = prev[j].0 - gi;
            let cell = if gr >= gl && gr >= d {
                (gr, Some(MatchDirection::GapRight))
            } else if gl >= d {
                (gl, Some(MatchDirection::GapLeft))
            } else {
                (d, Some(MatchDirection::Align(s >= EQUIVALENT)))
            };
            row.push(cell);
        }
        g.push(row);
    }
    g
}

/// Walk the arrows back from cell `(m, n)` to the origin and return the
/// alignment path in forward order.
fn traceback(
    g: &Vec<Vec<(i128, Option<MatchDirection>)>>,
    m: usize,
    n: usize,
    Ghost(l): Ghost<Seq<Instruction>>,
    Ghost(r): Ghost<Seq<Instruction>>,
    Ghost(gap): Ghost<int>,
) -> (path: Vec<MatchDirection>)
    requires
        grid_matches(g@, l, r, gap),
        m == l.len(),
        n == r.len(),
    ensures
        path@ == spec_path(l, r, gap, m as int, n as int),
{
    let mut rev: Vec<MatchDirection> = Vec::new();
    let mut i: usize = m;
    let mut j: usize = n;
    loop
        invariant
            grid_matches(g@, l, r, gap),
            m == l.len(),
            n == r.len(),
            i <= m,
            j <= n,
            spec_path(l, r, gap, m as int, n as int) == spec_path(l, r, gap, i as int, j as int)
                + rev@.reverse(),
        ensures
            spec_path(l, r, gap, m as int, n as int) == rev@.reverse(),
        decreases i + j,
    {
        let arrow = g[i][j].1;
        proof {
            assert(cell_matches(g@[i as int]@[j as int], l, r, gap, i as int, j as int));
        }
        match arrow {
            None => {
                proof {
                    assert(i == 0 && j == 0);
                }
                break;
            },
            Some(MatchDirection::GapLeft) => {
                proof {
                    assert(j >= 1);
                    lemma_unstep(l, r, gap, i as int, j as int, rev@, MatchDirection::GapLeft);
                }
                rev.push(MatchDirection::GapLeft);
                j -= 1;
            },
            Some(MatchDirection::GapRight) => {
                proof {
                    assert(i >= 1);
                    lemma_unstep(l, r, gap, i as int, j as int, rev@, MatchDirection::GapRight);
                }
                rev.push(MatchDirection::GapRight);
                i -= 1;
            },
            Some(MatchDirection::Align(e)) => {
                proof {
                    assert(i >= 1 && j >= 1);
                    lemma_unstep(l, r, gap, i as int, j as int, rev@, MatchDirection::Align(e));
                }
                rev.push(MatchDirection::Align(e));
                i -= 1;
                j -= 1;
            },
        }
    }
    let mut path: Vec<MatchDirection> = Vec::new();
    let total = rev.len();
    proof {
        assert(path@ =~= rev@.reverse().take(0));
    }
    for k in 0..total
        invariant
            total == rev@.len(),
            path@ == rev@.reverse().take(k as int),
            spec_path(l, r, gap, m as int, n as int) == rev@.reverse(),
    {
        path.push(rev[total - 1 - k]);
        proof {
            assert(rev@.reverse()[k as int] == rev@[total - 1 - k]);
            assert(path@ =~= rev@.reverse().take(k + 1));
        }
    }
    proof {
        assert(path@ =~= rev@.reverse());
    }
    path
}

/// The rendered text of a terminator position.
pub open spec fn spec_term_text(t: Option<Instruction>) -> Seq<char> {
    match t {
        Some(i) => i.spec_text(),
        None => "<no instruction>"@,
    }
}

/// Render a terminator position for display.
pub fn term_render(t: &Option<Instruction>) -> (r: String)
    ensures
        r@ == spec_term_text(*t),
{
    match t {
        Some(i) => i.render().to_owned(),
        None => "<no instruction>".to_owned(),
    }
}

/// The score of pairing two blocks: the final score of the body alignment
/// table plus the similarity of the two terminators.
pub open spec fn spec_pair_score(lb: BasicBlock, rb: BasicBlock, gap: int) -> int {
    spec_cell(lb.body@, rb.body@, gap, lb.body@.len() as int, rb.body@.len() as int).0
        + spec_term_score(lb.terminator, rb.terminator)
}

/// Compute the score of pairing two blocks.  The result is exactly the final
/// cell of the body alignment table plus the terminator score.
pub fn pair_score(lb: &BasicBlock, rb: &BasicBlock, gap: u32) -> (s: i128)
    ensures
        s as int == spec_cell(
            lb.body@,
            rb.body@,
            gap as int,
            lb.body@.len() as int,
            rb.body@.len() as int,
        ).0 + spec_term_score(lb.terminator, rb.terminator),
        s as int == spec_pair_score(*lb, *rb, gap as int),
{
    let g = fill_grid(&lb.body, &rb.body, gap);
    let m = lb.body.len();
    let n = rb.body.len();
    proof {
        assert(usize::MAX as int <= 0xffff_ffff_ffff_ffff);
        lemma_cell_fits(lb.body@, rb.body@, gap as int, m as int, n as int);
        crate::score::lemma_term_score_bounds(lb.terminator, rb.terminator);
    }
    let body = g[m][n].0;
    let t = crate::score::term_score(&lb.terminator, &rb.terminator);
    body + t as i128
}

/// The rows of one alignment path, walked forward from body positions
/// `(i, j)`: one instruction row per arrow, the missing side of a gap row
/// left empty.
pub open spec fn spec_path_rows(
    l: Seq<Instruction>,
    r: Seq<Instruction>,
    p: Seq<MatchDirection>,
    i: int,
    j: int,
) -> Seq<RowModel>
    decreases p.len(),
{
    if p.len() == 0 {
        seq![]
    } else {
        match p.first() {
            MatchDirection::Align(e) => seq![
                RowModel::Instruction {
                    left: l[i].spec_text(),
                    right: r[j].spec_text(),
                    kind: MatchDirection::Align(e),
                },
            ] + spec_path_rows(l, r, p.drop_first(), i + 1, j + 1),
            MatchDirection::GapLeft => seq![
                RowModel::Instruction {
                    left: Seq::empty(),
                    right: r[j].spec_text(),
                    kind: MatchDirection::GapLeft,
                },
            ] + spec_path_rows(l, r, p.drop_first(), i, j + 1),
            MatchDirection::GapRight => seq![
                RowModel::Instruction {
                    left: l[i].spec_text(),
                    right: Seq::empty(),
                    kind: MatchDirection::GapRight,
                },
            ] + spec_path_rows(l, r, p.drop_first(), i + 1, j),
        }
    }
}

/// The rows emitted for a paired pair of blocks: the header, one row per
/// alignment arrow, and the terminator row, marked exact when the terminator
/// score reaches the equivalence threshold.
pub open spec fn spec_pair_rows(lb: BasicBlock, rb: BasicBlock, gap: int) -> Seq<RowModel> {
    seq![RowModel::BlockHeader { left: lb.name@, right: rb.name@ }] + spec_path_rows(
        lb.body@,
        rb.body@,
        spec_path(lb.body@, rb.body@, gap, lb.body@.len() as int, rb.body@.len() as int),
        0,
        0,
    ) + seq![
        RowModel::Instruction {
            left: spec_term_text(lb.terminator),
            right: spec_term_text(rb.terminator),
            kind: MatchDirection::Align(
                spec_term_score(lb.terminator, rb.terminator) >= EQUIVALENT as int,
            ),
        },
    ]
}

/// The rows emitted for an orphaned left block: the header with an empty
/// right name, every body instruction as a right-gap row, and a terminator
/// row that is never exact.
pub open spec fn spec_orphan_rows(lb: BasicBlock) -> Seq<RowModel> {
    seq![RowModel::BlockHeader { left: lb.name@, right: Seq::empty() }] + Seq::new(
        lb.body@.len(),
        |k: int| RowModel::Instruction {
            left: lb.body@[k].spec_text(),
            right: Seq::empty(),
            kind: MatchDirection::GapRight,
        },
    ) + seq![
        RowModel::Instruction {
            left: spec_term_text(lb.terminator),
            right: Seq::empty(),
            kind: MatchDirection::Align(false),
        },
    ]
}

/// The rows emitted for a right block no left block consumed: the header
/// with an empty left name, then every body instruction and the terminator
/// as left-gap rows.
pub open spec fn spec_unused_rows(rb: BasicBlock) -> Seq<RowModel> {
    seq![RowModel::BlockHeader { left: Seq::empty(), right: rb.name@ }] + Seq::new(
        rb.body@.len(),
        |k: int| RowModel::Instruction {
            left: Seq::empty(),
            right: rb.body@[k].spec_text(),
            kind: MatchDirection::GapLeft,
        },
    ) + seq![
        RowModel::Instruction {
            left: Seq::empty(),
            right: spec_term_text(rb.terminator),
            kind: MatchDirection::GapLeft,
        },
    ]
}

/// Counting a one-step extension of a prefix.
proof fn lemma_count_take_step(p: Seq<MatchDirection>, k: int)
    requires
        0 <= k < p.len(),
    ensures
        gapleft_count(p.take(k + 1)) == gapleft_count(p.take(k)) + (if p[k]
            == MatchDirection::GapLeft {
            1int
        } else {
            0int
        }),
        gapright_count(p.take(k + 1)) == gapright_count(p.take(k)) + (if p[k]
            == MatchDirection::GapRight {
            1int
        } else {
            0int
        }),
{
    assert(p.take(k + 1).drop_last() =~= p.take(k));
    assert(p.take(k + 1).last() == p[k]);
}

/// A prefix never consumes more of either side than the whole path does.
proof fn lemma_prefix_counts(p: Seq<MatchDirection>, k: int)
    requires
        0 <= k <= p.len(),
    ensures
        k - gapleft_count(p.take(k)) <= p.len() - gapleft_count(p),
        k - gapright_count(p.take(k)) <= p.len() - gapright_count(p),
    decreases p.len() - k,
{
    if k == p.len() {
        assert(p.take(k) =~= p);
    } else {
        lemma_prefix_counts(p.drop_last(), k);
        assert(p.drop_last().take(k) =~= p.take(k));
    }
}

/// Walk an alignment path over the two block bodies and emit its instruction
/// rows.
fn rows_of_path(l: &Vec<Instruction>, r: &Vec<Instruction>, path: &Vec<MatchDirection>) -> (v: Vec<
    Row,
>)
    requires
        path@.len() - gapleft_count(path@) == l@.len(),
        path@.len() - gapright_count(path@) == r@.len(),
    ensures
        rows_model(v@) == spec_path_rows(l@, r@, path@, 0, 0),
{
    let mut v: Vec<Row> = Vec::new();
    let mut i: usize = 0;
    let mut j: usize = 0;
    let total = path.len();
    proof {
        assert(path@.take(0) =~= Seq::<MatchDirection>::empty());
        assert(path@.skip(0) =~= path@);
        assert(rows_model(v@) =~= Seq::<RowModel>::empty());
    }
    for k in 0..total
        invariant
            total == path@.len(),
            path@.len() - gapleft_count(path@) == l@.len(),
            path@.len() - gapright_count(path@) == r@.len(),
            i == k - gapleft_count(path@.take(k as int)),
            j == k - gapright_count(path@.take(k as int)),
            i <= l@.len(),
            j <= r@.len(),
            spec_path_rows(l@, r@, path@, 0, 0) == rows_model(v@) + spec_path_rows(
                l@,
                r@,
                path@.skip(k as int),
                i as int,
                j as int,
            ),
    {
        proof {
            lemma_count_bounds(path@.take(k as int));
            lemma_count_take_step(path@, k as int);
            lemma_prefix_counts(path@, k as int + 1);
            assert(path@.skip(k as int).first() == path@[k as int]);
            assert(path@.skip(k as int).drop_first() =~= path@.skip(k as int + 1));
        }
        let ghost old_v = v@;
        let ghost old_i = i as int;
        let ghost old_j = j as int;
        let row = match path[k] {
            MatchDirection::Align(e) => {
                let row = Row::Instruction(
                    l[i].render().to_owned(),
                    r[j].render().to_owned(),
                    MatchDirection::Align(e),
                );
                i += 1;
                j += 1;
                row
            },
            MatchDirection::GapLeft => {
                let row = Row::Instruction(
                    String::new(),
                    r[j].render().to_owned(),
                    MatchDirection::GapLeft,
                );
                j += 1;
                row
            },
            MatchDirection::GapRight => {
                let row = Row::Instruction(
                    l[i].render().to_owned(),
                    String::new(),
                    MatchDirection::GapRight,
                );
                i += 1;
                row
            },
        };
        v.push(row);
        proof {
            assert(rows_model(v@) =~= rows_model(old_v).push(v@.last()@));
            assert(spec_path_rows(l@, r@, path@.skip(k as int), old_i, old_j) == seq![
                v@.last()@,
            ] + spec_path_rows(l@, r@, path@.skip(k as int + 1), i as int, j as int));
            assert(rows_model(old_v) + spec_path_rows(l@, r@, path@.skip(k as int), old_i, old_j)
                =~= rows_model(v@) + spec_path_rows(
                l@,
                r@,
                path@.skip(k as int + 1),
                i as int,
                j as int,
            ));
        }
    }
    proof {
        assert(path@.take(total as int) =~= path@);
        assert(path@.skip(total as int) =~= Seq::<MatchDirection>::empty());
        assert(spec_path_rows(l@, r@, path@, 0, 0) =~= rows_model(v@));
    }
    v
}

/// Emit the full row list for a paired pair of blocks.
fn block_pair_rows(lb: &BasicBlock, rb: &BasicBlock, gap: u32) -> (v: Vec<Row>)
    ensures
        rows_model(v@) == spec_pair_rows(*lb, *rb, gap as int),
{
    let m = lb.body.len();
    let n = rb.body.len();
    let g = fill_grid(&lb.body, &rb.body, gap);
    let path = traceback(&g, m, n, Ghost(lb.body@), Ghost(rb.body@), Ghost(gap as int));
    proof {
        lemma_path_counts(lb.body@, rb.body@, gap as int, m as int, n as int);
    }
    let mut v: Vec<Row> = Vec::new();
    v.push(Row::BlockHeader(lb.name().to_owned(), rb.name().to_owned()));
    let mut body_rows = rows_of_path(&lb.body, &rb.body, &path);
    let ghost header_rows = v@;
    let ghost body_model = rows_model(body_rows@);
    v.append(&mut body_rows);
    proof {
        assert(rows_model(v@) =~= rows_model(header_rows) + body_model);
    }
    let ts = crate::score::term_score(&lb.terminator, &rb.terminator);
    let ghost before_term = rows_model(v@);
    v.push(
        Row::Instruction(
            term_render(&lb.terminator),
            term_render(&rb.terminator),
            MatchDirection::Align(ts >= EQUIVALENT),
        ),
    );
    proof {
        assert(rows_model(v@) =~= before_term.push(v@.last()@));
        assert(rows_model(v@) =~= spec_pair_rows(*lb, *rb, gap as int));
    }
    v
}

/// Emit the rows of an orphaned left block.
fn orphan_rows(lb: &BasicBlock) -> (v: Vec<Row>)
    ensures
        rows_model(v@) == spec_orphan_rows(*lb),
{
    let blen = lb.body.len();
    let ghost body_model = Seq::new(
        lb.body@.len(),
        |k: int| RowModel::Instruction {
            left: lb.body@[k].spec_text(),
            right: Seq::empty(),
            kind: MatchDirection::GapRight,
        },
    );
    let mut v: Vec<Row> = Vec::new();
    v.push(Row::BlockHeader(lb.name().to_owned(), String::new()));
    proof {
        assert(rows_model(v@) =~= seq![v@[0]@] + body_model.take(0));
    }
    for k in 0..blen
        invariant
            blen == lb.body@.len(),
            v@.len() == k + 1,
            v@[0] matches Row::BlockHeader(lname, rname) && lname@ == lb.name@ && rname@
                == Seq::<char>::empty(),
            rows_model(v@) == seq![v@[0]@] + body_model.take(k as int),
            body_model == Seq::new(
                lb.body@.len(),
                |t: int| RowModel::Instruction {
                    left: lb.body@[t].spec_text(),
                    right: Seq::empty(),
                    kind: MatchDirection::GapRight,
                },
            ),
    {
        let ghost old_model = rows_model(v@);
        v.push(
            Row::Instruction(lb.get(k).render().to_owned(), String::new(), MatchDirection::GapRight),
        );
        proof {
            assert(rows_model(v@) =~= old_model.push(v@.last()@));
            assert(body_model.take(k + 1) =~= body_model.take(k as int).push(body_model[k as int]));
            assert(rows_model(v@) =~= seq![v@[0]@] + body_model.take(k + 1));
        }
    }
    let ghost old_model = rows_model(v@);
    v.push(
        Row::Instruction(term_render(&lb.terminator), String::new(), MatchDirection::Align(false)),
    );
    proof {
        assert(body_model.take(blen as int) =~= body_model);
        assert(rows_model(v@) =~= old_model.push(v@.last()@));
        assert(rows_model(v@) =~= spec_orphan_rows(*lb));
    }
    v
}

/// Emit the rows of a right block no left block consumed.
fn unused_rows(rb: &BasicBlock) -> (v: Vec<Row>)
    ensures
        rows_model(v@) == spec_unused_rows(*rb),
{
    let blen = rb.body.len();
    let ghost body_model = Seq::new(
        rb.body@.len(),
        |k: int| RowModel::Instruction {
            left: Seq::empty(),
            right: rb.body@[k].spec_text(),
            kind: MatchDirection::GapLeft,
        },
    );
    let mut v: Vec<Row> = Vec::new();
    v.push(Row::BlockHeader(String::new(), rb.name().to_owned()));
    proof {
        assert(rows_model(v@) =~= seq![v@[0]@] + body_model.take(0));
    }
    for k in 0..blen
        invariant
            blen == rb.body@.len(),
            v@.len() == k + 1,
            v@[0] matches Row::BlockHeader(lname, rname) && rname@ == rb.name@ && lname@
                == Seq::<char>::empty(),
            rows_model(v@) == seq![v@[0]@] + body_model.take(k as int),
            body_model == Seq::new(
                rb.body@.len(),
                |t: int| RowModel::Instruction {
                    left: Seq::empty(),
                    right: rb.body@[t].spec_text(),
                    kind: MatchDirection::GapLeft,
                },
            ),
    {
        let ghost old_model = rows_model(v@);
        v.push(
            Row::Instruction(String::new(), rb.get(k).render().to_owned(), MatchDirection::GapLeft),
        );
        proof {
            assert(rows_model(v@) =~= old_model.push(v@.last()@));
            assert(body_model.take(k + 1) =~= body_model.take(k as int).push(body_model[k as int]));
            assert(rows_model(v@) =~= seq![v@[0]@] + body_model.take(k + 1));
        }
    }
    let ghost old_model = rows_model(v@);
    v.push(
        Row::Instruction(String::new(), term_render(&rb.terminator), MatchDirection::GapLeft),
    );
    proof {
        assert(body_model.take(blen as int) =~= body_model);
        assert(rows_model(v@) =~= old_model.push(v@.last()@));
        assert(rows_model(v@) =~= spec_unused_rows(*rb));
    }
    v
}

/// The greedy choice of a right block for one left block: the index and
/// score of the right block among the first `k` with the strictly greatest
/// positive pair score, earlier indices winning ties.
pub open spec fn spec_best(lb: BasicBlock, rbs: Seq<BasicBlock>, gap: int, k: int) -> Option<
    (int, int),
>
    decreases k,
{
    if k <= 0 {
        None
    } else {
        let prev = spec_best(lb, rbs, gap, k - 1);
        let s = spec_pair_score(lb, rbs[k - 1], gap);
        if s > 0 && (prev is None || s > (prev->0).1) {
            Some((k - 1, s))
        } else {
            prev
        }
    }
}

/// A chosen right block lies among the first `k` and its score is positive.
pub proof fn lemma_best_range(lb: BasicBlock, rbs: Seq<BasicBlock>, gap: int, k: int)
    ensures
        spec_best(lb, rbs, gap, k) matches Some(p) ==> 0 <= p.0 < k && p.1 > 0 && p.1
            == spec_pair_score(lb, rbs[p.0], gap),
    decreases k,
{
    if k > 0 {
        lemma_best_range(lb, rbs, gap, k - 1);
    }
}

/// Choose the right block this left block pairs with, greedily.
fn best_block(lb: &BasicBlock, rbs: &Vec<BasicBlock>, gap: u32) -> (r: Option<(usize, i128)>)
    ensures
        match r {
            None => spec_best(*lb, rbs@, gap as int, rbs@.len() as int) is None,
            Some(p) => spec_best(*lb, rbs@, gap as int, rbs@.len() as int) == Some(
                (p.0 as int, p.1 as int),
            ) && p.0 < rbs@.len(),
        },
{
    let n = rbs.len();
    let mut best: Option<(usize, i128)> = None;
    for k in 0..n
        invariant
            n == rbs@.len(),
            match best {
                None => spec_best(*lb, rbs@, gap as int, k as int) is None,
                Some(p) => spec_best(*lb, rbs@, gap as int, k as int) == Some(
                    (p.0 as int, p.1 as int),
                ) && p.0 < k,
            },
    {
        let s = pair_score(lb, &rbs[k], gap);
        let better = match &best {
            None => s > 0,
            Some(p) => s > 0 && s > p.1,
        };
        if better {
            best = Some((k, s));
        }
    }
    best
}

/// The rows and the consumed right-block index for one left block: the rows
/// of the best pairing, or all-right-gap rows when no right block scores
/// positively.
pub open spec fn spec_block_rows(lb: BasicBlock, rbs: Seq<BasicBlock>, gap: int) -> (
    Seq<RowModel>,
    Option<int>,
) {
    match spec_best(lb, rbs, gap, rbs.len() as int) {
        None => (spec_orphan_rows(lb), None),
        Some(p) => (spec_pair_rows(lb, rbs[p.0], gap), Some(p.0)),
    }
}

/// Emit the rows for one left block and report which right block it
/// consumed.
fn diff_block(lb: &BasicBlock, rbs: &Vec<BasicBlock>, gap: u32) -> (res: (Vec<Row>, Option<usize>))
    ensures
        rows_model(res.0@) == spec_block_rows(*lb, rbs@, gap as int).0,
        match res.1 {
            None => spec_block_rows(*lb, rbs@, gap as int).1 is None,
            Some(idx) => spec_block_rows(*lb, rbs@, gap as int).1 == Some(idx as int) && idx
                < rbs@.len(),
        },
{
    proof {
        lemma_best_range(*lb, rbs@, gap as int, rbs@.len() as int);
    }
    match best_block(lb, rbs, gap) {
        None => (orphan_rows(lb), None),
        Some((idx, _s)) => (block_pair_rows(lb, &rbs[idx], gap), Some(idx)),
    }
}

/// The rows emitted for, and the right blocks consumed by, the first `k`
/// left blocks.
pub open spec fn spec_left_part(
    lbs: Seq<BasicBlock>,
    rbs: Seq<BasicBlock>,
    gap: int,
    k: int,
) -> (Seq<RowModel>, Set<int>)
    decreases k,
{
    if k <= 0 {
        (seq![], Set::empty())
    } else {
        let prev = spec_left_part(lbs, rbs, gap, k - 1);
        let cur = spec_block_rows(lbs[k - 1], rbs, gap);
        (
            prev.0 + cur.0,
            if cur.1 is Some {
                prev.1.insert(cur.1->0)
            } else {
                prev.1
            },
        )
    }
}

/// The rows of the right blocks among the first `k` that no left block
/// consumed.
pub open spec fn spec_tail_rows(rbs: Seq<BasicBlock>, used: Set<int>, k: int) -> Seq<RowModel>
    decreases k,
{
    if k <= 0 {
        seq![]
    } else {
        spec_tail_rows(rbs, used, k - 1) + if used.contains(k - 1) {
            seq![]
        } else {
            spec_unused_rows(rbs[k - 1])
        }
    }
}

/// All rows emitted for one pair of functions: each left block in order,
/// then the right blocks no left block consumed.
pub open spec fn spec_function_rows(lf: Function, rf: Function, gap: int) -> Seq<RowModel> {
    let part = spec_left_part(lf.blocks@, rf.blocks@, gap, lf.blocks@.len() as int);
    part.0 + spec_tail_rows(rf.blocks@, part.1, rf.blocks@.len() as int)
}

/// Whether a row list shows a difference: some instruction row that is not
/// an exact alignment.
pub open spec fn spec_rows_have_diff(rows: Seq<RowModel>) -> bool {
    exists|k: int|
        0 <= k < rows.len() && (#[trigger] rows[k] matches RowModel::Instruction { kind, .. }
            && kind != MatchDirection::Align(true))
}

/// Produce the full row table comparing two functions.
pub fn diff_functions(lf: &Function, rf: &Function, gap: u32) -> (v: Vec<Row>)
    ensures
        rows_model(v@) == spec_function_rows(*lf, *rf, gap as int),
{
    let ln = lf.blocks.len();
    let rn = rf.blocks.len();
    let mut used: Vec<bool> = Vec::new();
    for t in 0..rn
        invariant
            used@.len() == t,
            forall|x: int| 0 <= x < t ==> !(#[trigger] used@[x]),
    {
        used.push(false);
    }
    let mut v: Vec<Row> = Vec::new();
    for k in 0..ln
        invariant
            ln == lf.blocks@.len(),
            rn == rf.blocks@.len(),
            used@.len() == rn,
            rows_model(v@) == spec_left_part(lf.blocks@, rf.blocks@, gap as int, k as int).0,
            forall|x: int|
                0 <= x < rn ==> #[trigger] used@[x] == spec_left_part(
                    lf.blocks@,
                    rf.blocks@,
                    gap as int,
                    k as int,
                ).1.contains(x),
    {
        let ghost old_model = rows_model(v@);
        let ghost old_set = spec_left_part(lf.blocks@, rf.blocks@, gap as int, k as int).1;
        let (mut rows, idx) = diff_block(&lf.blocks[k], &rf.blocks, gap);
        let ghost cur_model = rows_model(rows@);
        v.append(&mut rows);
        proof {
            assert(rows_model(v@) =~= old_model + cur_model);
        }
        if let Some(i) = idx {
            used.set(i, true);
        }
        proof {
            let next = spec_left_part(lf.blocks@, rf.blocks@, gap as int, k + 1);
            assert(next.0 == old_model + cur_model);
            assert forall|x: int| 0 <= x < rn implies #[trigger] used@[x] == next.1.contains(x) by {
                if idx is Some {
                    assert(next.1 == old_set.insert(idx->0 as int));
                }
            }
        }
    }
    let ghost part = spec_left_part(lf.blocks@, rf.blocks@, gap as int, ln as int);
    for t in 0..rn
        invariant
            ln == lf.blocks@.len(),
            rn == rf.blocks@.len(),
            used@.len() == rn,
            part == spec_left_part(lf.blocks@, rf.blocks@, gap as int, ln as int),
            forall|x: int| 0 <= x < rn ==> #[trigger] used@[x] == part.1.contains(x),
            rows_model(v@) == part.0 + spec_tail_rows(rf.blocks@, part.1, t as int),
    {
        let ghost old_model = rows_model(v@);
        if !used[t] {
            let mut rows = unused_rows(&rf.blocks[t]);
            let ghost cur_model = rows_model(rows@);
            v.append(&mut rows);
            proof {
                assert(rows_model(v@) =~= old_model + cur_model);
                assert(rows_model(v@) =~= part.0 + spec_tail_rows(rf.blocks@, part.1, t + 1));
            }
        } else {
            proof {
                assert(spec_tail_rows(rf.blocks@, part.1, t + 1) =~= spec_tail_rows(
                    rf.blocks@,
                    part.1,
                    t as int,
                ));
            }
        }
    }
    v
}

/// Scan a row table for any row that shows a difference.
pub fn rows_have_diff(rows: &Vec<Row>) -> (r: bool)
    ensures
        r == spec_rows_have_diff(rows_model(rows@)),
{
    let n = rows.len();
    for k in 0..n
        invariant
            n == rows@.len(),
            forall|t: int|
                0 <= t < k ==> !(#[trigger] rows_model(rows@)[t] matches RowModel::Instruction {
                    kind,
                    ..
                } && kind != MatchDirection::Align(true)),
    {
        let shows = match &rows[k] {
            Row::Instruction(_, _, kind) => match kind {
                MatchDirection::Align(true) => false,
                _ => true,
            },
            _ => false,
        };
        if shows {
            proof {
                assert(rows_model(rows@)[k as int] matches RowModel::Instruction { kind, .. }
                    && kind != MatchDirection::Align(true));
            }
            return true;
        }
    }
    false
}

/// An alignment path emits exactly one instruction row per arrow.
pub proof fn lemma_path_rows_len(
    l: Seq<Instruction>,
    r: Seq<Instruction>,
    p: Seq<MatchDirection>,
    i: int,
    j: int,
)
    ensures
        spec_path_rows(l, r, p, i, j).len() == p.len(),
    decreases p.len(),
{
    if p.len() > 0 {
        match p.first() {
            MatchDirection::Align(e) => {
                lemma_path_rows_len(l, r, p.drop_first(), i + 1, j + 1);
            },
            MatchDirection::GapLeft => {
                lemma_path_rows_len(l, r, p.drop_first(), i, j + 1);
            },
            MatchDirection::GapRight => {
                lemma_path_rows_len(l, r, p.drop_first(), i + 1, j);
            },
        }
    }
}

/// Each row of an alignment path is an instruction row carrying that
/// arrow's direction.
pub proof fn lemma_path_rows_kind(
    l: Seq<Instruction>,
    r: Seq<Instruction>,
    p: Seq<MatchDirection>,
    i: int,
    j: int,
)
    ensures
        forall|q: int|
            0 <= q < p.len() ==> ((#[trigger] spec_path_rows(l, r, p, i, j)[q])
                matches RowModel::Instruction { kind, .. } && kind == p[q]),
    decreases p.len(),
{
    lemma_path_rows_len(l, r, p, i, j);
    if p.len() > 0 {
        match p.first() {
            MatchDirection::Align(e) => {
                lemma_path_rows_kind(l, r, p.drop_first(), i + 1, j + 1);
                lemma_path_rows_len(l, r, p.drop_first(), i + 1, j + 1);
            },
            MatchDirection::GapLeft => {
                lemma_path_rows_kind(l, r, p.drop_first(), i, j + 1);
                lemma_path_rows_len(l, r, p.drop_first(), i, j + 1);
            },
            MatchDirection::GapRight => {
                lemma_path_rows_kind(l, r, p.drop_first(), i + 1, j);
                lemma_path_rows_len(l, r, p.drop_first(), i + 1, j);
            },
        }
        assert forall|q: int| 0 <= q < p.len() implies ((#[trigger] spec_path_rows(
            l,
            r,
            p,
            i,
            j,
        )[q]) matches RowModel::Instruction { kind, .. } && kind == p[q]) by {
            if q > 0 {
                assert(p.drop_first()[q - 1] == p[q]);
            }
        }
    }
}

/// Removing the final arrow of a traceback: pushing it onto the reversed
/// tail keeps the whole path intact.
proof fn lemma_unstep(
    l: Seq<Instruction>,
    r: Seq<Instruction>,
    gap: int,
    i: int,
    j: int,
    rev: Seq<MatchDirection>,
    a: MatchDirection,
)
    requires
        0 <= i,
        0 <= j,
        i > 0 || j > 0,
        spec_cell(l, r, gap, i, j).1 == Some(a),
        a == MatchDirection::GapLeft ==> j >= 1,
        a == MatchDirection::GapRight ==> i >= 1,
        a matches MatchDirection::Align(_) ==> i >= 1 && j >= 1,
    ensures
        spec_path(l, r, gap, i, j) + rev.reverse() == spec_path(
            l,
            r,
            gap,
            if a == MatchDirection::GapLeft { i } else { i - 1 },
            if a == MatchDirection::GapRight { j } else { j - 1 },
        ) + rev.push(a).reverse(),
{
    let prev = spec_path(
        l,
        r,
        gap,
        if a == MatchDirection::GapLeft { i } else { i - 1 },
        if a == MatchDirection::GapRight { j } else { j - 1 },
    );
    assert(spec_path(l, r, gap, i, j) == prev.push(a));
    assert(rev.push(a).reverse() =~= seq![a] + rev.reverse());
    assert(prev.push(a) + rev.reverse() =~= prev + (seq![a] + rev.reverse()));
}

} // verus!
