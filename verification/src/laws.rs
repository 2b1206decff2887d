//! The engine's general laws, stated and proved over the same specification
//! functions that the executable contracts use.

use vstd::prelude::*;
use crate::engine::{
    gapleft_count, gapright_count, lemma_path_counts, lemma_path_rows_kind, lemma_path_rows_len,
    spec_best, spec_block_rows, spec_cell, spec_function_rows, spec_left_part, spec_pair_rows,
    spec_pair_score, spec_path, spec_path_rows, spec_rows_have_diff, spec_tail_rows,
    spec_term_text,
};
use crate::model::{BasicBlock, Function, Instruction};
use crate::score::{spec_score, spec_term_score, EQUIVALENT};
use crate::{MatchDirection, RowModel};

verus! {

/// Law: between the block header and the terminator row, a paired block
/// emits exactly one instruction row per arrow of its traceback path.
pub proof fn lemma_pair_rows_shape(lb: BasicBlock, rb: BasicBlock, gap: int)
    ensures
        spec_pair_rows(lb, rb, gap).len() == spec_path(
            lb.body@,
            rb.body@,
            gap,
            lb.body@.len() as int,
            rb.body@.len() as int,
        ).len() + 2,
        spec_pair_rows(lb, rb, gap).subrange(1, spec_pair_rows(lb, rb, gap).len() - 1)
            == spec_path_rows(
            lb.body@,
            rb.body@,
            spec_path(lb.body@, rb.body@, gap, lb.body@.len() as int, rb.body@.len() as int),
            0,
            0,
        ),
{
    let p = spec_path(lb.body@, rb.body@, gap, lb.body@.len() as int, rb.body@.len() as int);
    lemma_path_rows_len(lb.body@, rb.body@, p, 0, 0);
    assert(spec_pair_rows(lb, rb, gap).subrange(1, spec_pair_rows(lb, rb, gap).len() - 1)
        =~= spec_path_rows(lb.body@, rb.body@, p, 0, 0));
}

/// Law: an alignment path consumes every left instruction exactly once and
/// every right instruction exactly once — the arrows that are not left-gaps
/// number `len(L)` and those that are not right-gaps number `len(R)`.
/// Swapping the inputs swaps the two counts: the row counts of a pair are
/// symmetric up to the orientation of the gap rows.
pub proof fn lemma_alignment_counts(l: Seq<Instruction>, r: Seq<Instruction>, gap: int)
    ensures
        spec_path(l, r, gap, l.len() as int, r.len() as int).len() - gapleft_count(
            spec_path(l, r, gap, l.len() as int, r.len() as int),
        ) == l.len(),
        spec_path(l, r, gap, l.len() as int, r.len() as int).len() - gapright_count(
            spec_path(l, r, gap, l.len() as int, r.len() as int),
        ) == r.len(),
        spec_path(r, l, gap, r.len() as int, l.len() as int).len() - gapleft_count(
            spec_path(r, l, gap, r.len() as int, l.len() as int),
        ) == r.len(),
        spec_path(r, l, gap, r.len() as int, l.len() as int).len() - gapright_count(
            spec_path(r, l, gap, r.len() as int, l.len() as int),
        ) == l.len(),
{
    lemma_path_counts(l, r, gap, l.len() as int, r.len() as int);
    lemma_path_counts(r, l, gap, r.len() as int, l.len() as int);
}

/// Law: a pair of blocks with empty bodies emits just the block header and
/// one terminator row, exact exactly when the terminator score reaches the
/// equivalence threshold.
pub proof fn lemma_empty_bodies_rows(lb: BasicBlock, rb: BasicBlock, gap: int)
    requires
        lb.body@.len() == 0,
        rb.body@.len() == 0,
    ensures
        spec_pair_rows(lb, rb, gap) == seq![
            RowModel::BlockHeader { left: lb.name@, right: rb.name@ },
            RowModel::Instruction {
                left: spec_term_text(lb.terminator),
                right: spec_term_text(rb.terminator),
                kind: MatchDirection::Align(
                    spec_term_score(lb.terminator, rb.terminator) >= EQUIVALENT as int,
                ),
            },
        ],
{
    assert(spec_path(lb.body@, rb.body@, gap, 0, 0) =~= Seq::<MatchDirection>::empty());
    assert(spec_pair_rows(lb, rb, gap) =~= seq![
        RowModel::BlockHeader { left: lb.name@, right: rb.name@ },
        RowModel::Instruction {
            left: spec_term_text(lb.terminator),
            right: spec_term_text(rb.terminator),
            kind: MatchDirection::Align(
                spec_term_score(lb.terminator, rb.terminator) >= EQUIVALENT as int,
            ),
        },
    ]);
}

/// Law: two single-block functions with empty block bodies whose
/// terminators score positively produce exactly a block header and a single
/// terminator row.
pub proof fn lemma_empty_block_function(lf: Function, rf: Function, gap: int)
    requires
        lf.blocks@.len() == 1,
        rf.blocks@.len() == 1,
        lf.blocks@[0].body@.len() == 0,
        rf.blocks@[0].body@.len() == 0,
        spec_term_score(lf.blocks@[0].terminator, rf.blocks@[0].terminator) > 0,
    ensures
        spec_function_rows(lf, rf, gap) == seq![
            RowModel::BlockHeader { left: lf.blocks@[0].name@, right: rf.blocks@[0].name@ },
            RowModel::Instruction {
                left: spec_term_text(lf.blocks@[0].terminator),
                right: spec_term_text(rf.blocks@[0].terminator),
                kind: MatchDirection::Align(
                    spec_term_score(lf.blocks@[0].terminator, rf.blocks@[0].terminator)
                        >= EQUIVALENT as int,
                ),
            },
        ],
{
    let lb = lf.blocks@[0];
    let rb = rf.blocks@[0];
    assert(spec_cell(lb.body@, rb.body@, gap, 0, 0).0 == 0);
    assert(spec_pair_score(lb, rb, gap) == spec_term_score(lb.terminator, rb.terminator));
    assert(spec_best(lb, rf.blocks@, gap, 0) is None);
    assert(rf.blocks@[0] == rb);
    assert(spec_pair_score(lb, rf.blocks@[0], gap) > 0);
    assert(spec_best(lb, rf.blocks@, gap, 1) == Some(
        (0int, spec_pair_score(lb, rb, gap)),
    ));
    lemma_empty_bodies_rows(lb, rb, gap);
    let part = spec_left_part(lf.blocks@, rf.blocks@, gap, 1);
    assert(spec_left_part(lf.blocks@, rf.blocks@, gap, 0).0 =~= Seq::<RowModel>::empty());
    assert(part.0 =~= spec_block_rows(lb, rf.blocks@, gap).0);
    assert(part.1.contains(0));
    assert(spec_tail_rows(rf.blocks@, part.1, 0) =~= Seq::<RowModel>::empty());
    assert(spec_tail_rows(rf.blocks@, part.1, 1) =~= spec_tail_rows(rf.blocks@, part.1, 0)
        + Seq::<RowModel>::empty());
    assert(spec_tail_rows(rf.blocks@, part.1, 1) =~= Seq::<RowModel>::empty());
    assert(spec_function_rows(lf, rf, gap) =~= spec_pair_rows(lb, rb, gap));
}

/// The total self-similarity of the first `k` instructions of a sequence.
pub open spec fn self_sum(l: Seq<Instruction>, k: int) -> int
    decreases k,
{
    if k <= 0 {
        0
    } else {
        self_sum(l, k - 1) + spec_score(l[k - 1], l[k - 1])
    }
}

/// Self-similarity grows by at least the equivalence threshold per
/// instruction.
proof fn lemma_self_sum_mono(l: Seq<Instruction>, a: int, b: int)
    requires
        0 <= a <= b,
    ensures
        self_sum(l, b) >= self_sum(l, a) + 4 * (b - a),
    decreases b - a,
{
    if a < b {
        lemma_self_sum_mono(l, a, b - 1);
        crate::score::lemma_score_self(l[b - 1]);
    }
}

/// On identical sequences the alignment table is governed by the diagonal:
/// an off-diagonal cell never beats the self-similarity of the shorter
/// prefix minus the gap cost of returning to the diagonal, a diagonal cell
/// holds exactly the prefix's self-similarity, and its arrow is an exact
/// alignment.
proof fn lemma_self_cells(l: Seq<Instruction>, gap: int, i: int, j: int)
    requires
        gap >= 1,
        i >= 0,
        j >= 0,
    ensures
        i <= j ==> spec_cell(l, l, gap, i, j).0 <= self_sum(l, i) - gap * (j - i),
        j <= i ==> spec_cell(l, l, gap, i, j).0 <= self_sum(l, j) - gap * (i - j),
        i == j ==> spec_cell(l, l, gap, i, j).0 == self_sum(l, i),
        i == j && i >= 1 ==> spec_cell(l, l, gap, i, j).1 == Some(MatchDirection::Align(true)),
    decreases i + j,
{
    if i == 0 && j == 0 {
    } else if j == 0 {
        assert(i * -gap == 0 - gap * (i - 0)) by (nonlinear_arith);
    } else if i == 0 {
        assert(j * -gap == 0 - gap * (j - 0)) by (nonlinear_arith);
    } else {
        lemma_self_cells(l, gap, i - 1, j - 1);
        lemma_self_cells(l, gap, i, j - 1);
        lemma_self_cells(l, gap, i - 1, j);
        let s = spec_score(l[i - 1], l[j - 1]);
        crate::score::lemma_score_cross(l[i - 1], l[j - 1]);
        crate::score::lemma_score_self(l[i - 1]);
        crate::score::lemma_score_self(l[j - 1]);
        crate::score::lemma_score_bounds(l[i - 1], l[j - 1]);
        let d = spec_cell(l, l, gap, i - 1, j - 1).0 + s;
        let gl = spec_cell(l, l, gap, i, j - 1).0 - gap;
        let gr = spec_cell(l, l, gap, i - 1, j).0 - gap;
        if i == j {
            assert(d == self_sum(l, i));
            assert(spec_cell(l, l, gap, i, j - 1).0 <= self_sum(l, i - 1) - gap * (i - (j - 1)));
            assert(gap * (i - (j - 1)) == gap) by (nonlinear_arith)
                requires i == j;
            assert(gl <= self_sum(l, i - 1) - 2 * gap);
            assert(self_sum(l, i) == self_sum(l, i - 1) + spec_score(l[i - 1], l[i - 1]));
            assert(gl < d);
            assert(spec_cell(l, l, gap, i - 1, j).0 <= self_sum(l, i - 1) - gap * (j - (i - 1)));
            assert(gap * (j - (i - 1)) == gap) by (nonlinear_arith)
                requires i == j;
            assert(gr < d);
            assert(spec_cell(l, l, gap, i, j).0 == d);
            assert(s >= EQUIVALENT as int);
            assert(spec_cell(l, l, gap, i, j).1 == Some(MatchDirection::Align(true)));
        } else if i < j {
            // diagonal candidate
            assert(spec_cell(l, l, gap, i - 1, j - 1).0 <= self_sum(l, i - 1) - gap * ((j - 1) - (
            i - 1)));
            assert(gap * ((j - 1) - (i - 1)) == gap * (j - i)) by (nonlinear_arith);
            assert(s <= spec_score(l[i - 1], l[i - 1]));
            assert(d <= self_sum(l, i) - gap * (j - i));
            // left-gap candidate
            assert(spec_cell(l, l, gap, i, j - 1).0 <= self_sum(l, i) - gap * ((j - 1) - i));
            assert(gap * ((j - 1) - i) + gap == gap * (j - i)) by (nonlinear_arith);
            assert(gl <= self_sum(l, i) - gap * (j - i));
            // right-gap candidate
            assert(spec_cell(l, l, gap, i - 1, j).0 <= self_sum(l, i - 1) - gap * (j - (i - 1)));
            assert(gap * (j - (i - 1)) == gap * (j - i) + gap) by (nonlinear_arith);
            lemma_self_sum_mono(l, i - 1, i);
            assert(gr <= self_sum(l, i) - gap * (j - i));
            assert(spec_cell(l, l, gap, i, j).0 <= self_sum(l, i) - gap * (j - i));
        } else {
            // diagonal candidate
            assert(spec_cell(l, l, gap, i - 1, j - 1).0 <= self_sum(l, j - 1) - gap * ((i - 1) - (
            j - 1)));
            assert(gap * ((i - 1) - (j - 1)) == gap * (i - j)) by (nonlinear_arith);
            assert(s <= spec_score(l[j - 1], l[j - 1]));
            assert(d <= self_sum(l, j) - gap * (i - j));
            // right-gap candidate
            assert(spec_cell(l, l, gap, i - 1, j).0 <= self_sum(l, j) - gap * ((i - 1) - j));
            assert(gap * ((i - 1) - j) + gap == gap * (i - j)) by (nonlinear_arith);
            assert(gr <= self_sum(l, j) - gap * (i - j));
            // left-gap candidate
            assert(spec_cell(l, l, gap, i, j - 1).0 <= self_sum(l, j - 1) - gap * (i - (j - 1)));
            assert(gap * (i - (j - 1)) == gap * (i - j) + gap) by (nonlinear_arith);
            lemma_self_sum_mono(l, j - 1, j);
            assert(gl <= self_sum(l, j) - gap * (i - j));
            assert(spec_cell(l, l, gap, i, j).0 <= self_sum(l, j) - gap * (i - j));
        }
    }
}

/// On identical sequences the traceback is the diagonal: every arrow is an
/// exact alignment.
proof fn lemma_self_path(l: Seq<Instruction>, gap: int, i: int)
    requires
        gap >= 1,
        0 <= i,
    ensures
        spec_path(l, l, gap, i, i).len() == i,
        forall|t: int| 0 <= t < i ==> spec_path(l, l, gap, i, i)[t] == MatchDirection::Align(true),
    decreases i,
{
    if i > 0 {
        lemma_self_cells(l, gap, i, i);
        lemma_self_path(l, gap, i - 1);
        assert(spec_path(l, l, gap, i, i) == spec_path(l, l, gap, i - 1, i - 1).push(
            MatchDirection::Align(true),
        ));
    }
}

/// A block's pairing score against itself: the full self-similarity of its
/// body plus its terminator's self-score; always positive.
proof fn lemma_self_pair_score(b: BasicBlock, gap: int)
    requires
        gap >= 1,
    ensures
        spec_pair_score(b, b, gap) == self_sum(b.body@, b.body@.len() as int) + spec_term_score(
            b.terminator,
            b.terminator,
        ),
        spec_pair_score(b, b, gap) > 0,
{
    lemma_self_cells(b.body@, gap, b.body@.len() as int, b.body@.len() as int);
    lemma_self_sum_mono(b.body@, 0, b.body@.len() as int);
    crate::score::lemma_term_score_self(b.terminator);
}

/// Every row a block paired with itself emits is a header or an exact
/// alignment row.
proof fn lemma_self_pair_rows_clean(b: BasicBlock, gap: int)
    requires
        gap >= 1,
    ensures
        forall|q: int|
            0 <= q < spec_pair_rows(b, b, gap).len() ==> ((#[trigger] spec_pair_rows(
                b,
                b,
                gap,
            )[q]) matches RowModel::Instruction { kind, .. } ==> kind == MatchDirection::Align(
                true,
            )),
{
    let n = b.body@.len() as int;
    let p = spec_path(b.body@, b.body@, gap, n, n);
    lemma_self_path(b.body@, gap, n);
    lemma_path_rows_kind(b.body@, b.body@, p, 0, 0);
    lemma_path_rows_len(b.body@, b.body@, p, 0, 0);
    crate::score::lemma_term_score_self(b.terminator);
    let rows = spec_pair_rows(b, b, gap);
    assert forall|q: int| 0 <= q < rows.len() implies ((#[trigger] rows[q])
        matches RowModel::Instruction { kind, .. } ==> kind == MatchDirection::Align(true)) by {
        if 1 <= q < rows.len() - 1 {
            assert(rows[q] == spec_path_rows(b.body@, b.body@, p, 0, 0)[q - 1]);
            assert(p[q - 1] == MatchDirection::Align(true));
        }
    }
}

/// Each block of the sequence pairs more strongly with itself than with any
/// other block of the sequence.
pub open spec fn blocks_dissimilar(blocks: Seq<BasicBlock>, gap: int) -> bool {
    forall|i: int, j: int|
        0 <= i < blocks.len() && 0 <= j < blocks.len() && i != j ==> #[trigger] spec_pair_score(
            blocks[i],
            blocks[j],
            gap,
        ) < spec_pair_score(blocks[i], blocks[i], gap)
}

/// Under dissimilarity, the greedy choice for a block of the sequence is
/// that block itself, once it has been considered.
proof fn lemma_self_best(blocks: Seq<BasicBlock>, gap: int, k: int, t: int)
    requires
        gap >= 1,
        0 <= k < blocks.len(),
        0 <= t <= blocks.len(),
        blocks_dissimilar(blocks, gap),
    ensures
        t <= k ==> (spec_best(blocks[k], blocks, gap, t) is None || (spec_best(
            blocks[k],
            blocks,
            gap,
            t,
        ) matches Some(p) && p.1 < spec_pair_score(blocks[k], blocks[k], gap))),
        t > k ==> spec_best(blocks[k], blocks, gap, t) == Some(
            (k, spec_pair_score(blocks[k], blocks[k], gap)),
        ),
    decreases t,
{
    if t > 0 {
        lemma_self_best(blocks, gap, k, t - 1);
        lemma_self_pair_score(blocks[k], gap);
        if t - 1 == k {
        } else {
            assert(spec_pair_score(blocks[k], blocks[t - 1], gap) < spec_pair_score(
                blocks[k],
                blocks[k],
                gap,
            ));
        }
    }
}

/// Under dissimilarity, processing the first `t` left blocks of a self-diff
/// consumes exactly the right blocks below `t` and emits only headers and
/// exact alignment rows.
proof fn lemma_self_left_part(blocks: Seq<BasicBlock>, gap: int, t: int)
    requires
        gap >= 1,
        0 <= t <= blocks.len(),
        blocks_dissimilar(blocks, gap),
    ensures
        forall|x: int| spec_left_part(blocks, blocks, gap, t).1.contains(x) <==> 0 <= x < t,
        forall|q: int|
            0 <= q < spec_left_part(blocks, blocks, gap, t).0.len() ==> ((
            #[trigger] spec_left_part(blocks, blocks, gap, t).0[q])
                matches RowModel::Instruction { kind, .. } ==> kind == MatchDirection::Align(
                true,
            )),
    decreases t,
{
    if t > 0 {
        lemma_self_left_part(blocks, gap, t - 1);
        lemma_self_best(blocks, gap, t - 1, blocks.len() as int);
        lemma_self_pair_rows_clean(blocks[t - 1], gap);
        let prev = spec_left_part(blocks, blocks, gap, t - 1);
        let cur = spec_block_rows(blocks[t - 1], blocks, gap);
        assert(cur.1 == Some(t - 1));
        assert(cur.0 == spec_pair_rows(blocks[t - 1], blocks[t - 1], gap));
        assert forall|q: int| 0 <= q < spec_left_part(blocks, blocks, gap, t).0.len() implies ((
        #[trigger] spec_left_part(blocks, blocks, gap, t).0[q])
            matches RowModel::Instruction { kind, .. } ==> kind == MatchDirection::Align(true)) by {
            if q < prev.0.len() {
                assert(spec_left_part(blocks, blocks, gap, t).0[q] == prev.0[q]);
            } else {
                assert(spec_left_part(blocks, blocks, gap, t).0[q] == cur.0[q - prev.0.len()]);
            }
        }
    }
}

/// When every right block was consumed, the tail emits nothing.
proof fn lemma_tail_all_used(rbs: Seq<BasicBlock>, used: Set<int>, t: int)
    requires
        0 <= t <= rbs.len(),
        forall|x: int| 0 <= x < rbs.len() ==> used.contains(x),
    ensures
        spec_tail_rows(rbs, used, t) == Seq::<RowModel>::empty(),
    decreases t,
{
    if t > 0 {
        lemma_tail_all_used(rbs, used, t - 1);
        assert(used.contains(t - 1));
        assert(spec_tail_rows(rbs, used, t) =~= Seq::<RowModel>::empty());
    }
}

/// Law: diffing a function against itself emits only block headers and
/// exact alignment rows — no gap row anywhere — and shows no difference.
/// The blocks must be pairwise dissimilar: a function with two blocks whose
/// pair scores tie its self-scores can pair both left copies to one right
/// block and leave the other right block as gap rows.
pub proof fn lemma_self_diff_function(f: Function, gap: int)
    requires
        gap >= 1,
        blocks_dissimilar(f.blocks@, gap),
    ensures
        forall|q: int|
            0 <= q < spec_function_rows(f, f, gap).len() ==> ((#[trigger] spec_function_rows(
                f,
                f,
                gap,
            )[q]) matches RowModel::Instruction { kind, .. } ==> kind == MatchDirection::Align(
                true,
            )),
        !spec_rows_have_diff(spec_function_rows(f, f, gap)),
{
    let n = f.blocks@.len() as int;
    lemma_self_left_part(f.blocks@, gap, n);
    let part = spec_left_part(f.blocks@, f.blocks@, gap, n);
    lemma_tail_all_used(f.blocks@, part.1, n);
    assert(spec_function_rows(f, f, gap) =~= part.0);
    assert forall|q: int| 0 <= q < spec_function_rows(f, f, gap).len() implies ((
    #[trigger] spec_function_rows(f, f, gap)[q]) matches RowModel::Instruction { kind, .. }
        ==> kind == MatchDirection::Align(true)) by {
        assert(spec_function_rows(f, f, gap)[q] == part.0[q]);
    }
}

/// Over unique names, the common pairs of a function list with itself are
/// the diagonal: every function against itself, in order.
proof fn lemma_common_pairs_diag(all: Seq<Function>, d: int)
    requires
        crate::model::unique_names(all),
        0 <= d <= all.len(),
    ensures
        crate::spec_common_pairs(all.skip(d), all) == Seq::new(
            (all.len() - d) as nat,
            |k: int| (all[d + k], all[d + k]),
        ),
    decreases all.len() - d,
{
    if d < all.len() {
        lemma_common_pairs_diag(all, d + 1);
        crate::model::lemma_get_self(all, d);
        assert(all.skip(d).first() == all[d]);
        assert(all.skip(d).drop_first() =~= all.skip(d + 1));
        assert(crate::spec_common_pairs(all.skip(d), all) =~= Seq::new(
            (all.len() - d) as nat,
            |k: int| (all[d + k], all[d + k]),
        ));
    } else {
        assert(all.skip(d) =~= Seq::<Function>::empty());
        assert(crate::spec_common_pairs(all.skip(d), all) =~= Seq::new(
            (all.len() - d) as nat,
            |k: int| (all[d + k], all[d + k]),
        ));
    }
}

/// Law: the self-diff of a program pairs every function with itself and
/// shows no difference in any of them: no gap rows, every alignment row
/// exact.  Each function's blocks must be pairwise dissimilar.
pub proof fn lemma_self_diff_program(p: crate::model::Program)
    requires
        p.wf(),
        p.funcs@.len() > 0,
        forall|k: int|
            0 <= k < p.funcs@.len() ==> blocks_dissimilar(
                (#[trigger] p.funcs@[k]).blocks@,
                p.gap as int,
            ),
    ensures
        crate::spec_selected_pairs(p, p, crate::FunctionName::Unspecified) matches Ok(pairs)
            && pairs.len() == p.funcs@.len() && (forall|k: int|
            0 <= k < pairs.len() ==> #[trigger] pairs[k] == (p.funcs@[k], p.funcs@[k])) && (
        forall|k: int|
            0 <= k < pairs.len() ==> !spec_rows_have_diff(
                spec_function_rows(p.funcs@[k], p.funcs@[k], p.gap as int),
            )),
{
    lemma_common_pairs_diag(p.funcs@, 0);
    assert(p.funcs@.skip(0) =~= p.funcs@);
    let pairs = crate::spec_common_pairs(p.funcs@, p.funcs@);
    assert(pairs.len() == p.funcs@.len());
    assert forall|k: int| 0 <= k < pairs.len() implies !spec_rows_have_diff(
        spec_function_rows(p.funcs@[k], p.funcs@[k], p.gap as int),
    ) by {
        lemma_self_diff_function(p.funcs@[k], p.gap as int);
    }
}

} // verus!
