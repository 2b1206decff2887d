//! Structural, instruction-level diffing of compiled artifacts.
//!
//! Two inputs are decoded into programs of named functions, each function a
//! sequence of basic blocks; blocks of the left and right function are paired
//! greedily by similarity, and instructions inside a paired block are aligned
//! by a Needleman-Wunsch dynamic program.  The result is a linear table of
//! rows suitable for a side-by-side display.

use vstd::prelude::*;

pub mod engine;
pub mod format;
pub mod goblin_yax;
pub mod laws;
pub mod llvm;
pub mod model;
pub mod score;
pub mod util;

verus! {

/// Indicates what function(s) should be compared from the programs provided.
pub enum FunctionName {
    /// Compare two functions of different names (e.g. mangled names that
    /// differ although the functions are structurally similar).
    Different(String, String),
    /// Compare two functions of the same name.
    Same(String),
    /// Compare any functions with identical names.
    Unspecified,
}

/// The type of match at one row of a diff.
#[derive(Clone, Copy, PartialEq, Eq, Structural, Debug)]
pub enum MatchDirection {
    /// The left-hand instruction is absent; only the right-hand is supplied.
    GapLeft,
    /// The right-hand instruction is absent; only the left-hand is supplied.
    GapRight,
    /// Both instructions are present; the flag is true when the match is
    /// exact.
    Align(bool),
}

/// One row of a rendered diff.
pub enum Row {
    /// The header naming the pair of basic blocks being compared.
    BlockHeader(String, String),
    /// One pair of rendered instructions and how they relate.  A gap row
    /// leaves the missing side empty.
    Instruction(String, String, MatchDirection),
}

/// The mathematical content of a `Row`: the two rendered texts, and the
/// match direction for an instruction row.
pub enum RowModel {
    /// The header naming the pair of basic blocks being compared.
    BlockHeader { left: Seq<char>, right: Seq<char> },
    /// One pair of rendered instructions and how they relate.
    Instruction { left: Seq<char>, right: Seq<char>, kind: MatchDirection },
}

impl View for Row {
    type V = RowModel;

    open spec fn view(&self) -> RowModel {
        match self {
            Row::BlockHeader(l, r) => RowModel::BlockHeader { left: l@, right: r@ },
            Row::Instruction(l, r, k) => RowModel::Instruction {
                left: l@,
                right: r@,
                kind: *k,
            },
        }
    }
}

/// The row sequence of a diff, viewed mathematically.
pub open spec fn rows_model(rows: Seq<Row>) -> Seq<RowModel> {
    rows.map_values(|r: Row| r@)
}

/// The comparison of one pair of functions: their display names and the
/// emitted rows.
pub struct FunctionDiff {
    /// The display name of the left-hand function.
    pub left_name: String,
    /// The display name of the right-hand function.
    pub right_name: String,
    /// The emitted rows: block headers and instruction rows.
    pub rows: Vec<Row>,
}

/// An error produced by the diff process.
#[derive(Debug)]
pub enum Error {
    /// Functions could not be located in the input program(s) on the given
    /// side(s).
    NoMatch(FunctionLocation),
    /// An input file could not be parsed.
    ParseError(FunctionLocation, crate::goblin_yax::GoblinYaxError),
}

/// The side of a diff on which a function was looked up.
#[derive(Clone, Copy, PartialEq, Eq, Structural, Debug)]
pub enum FunctionLocation {
    /// In the left-hand file of a diff
    Left,
    /// In the right-hand file of a diff
    Right,
    /// In either/both file(s) of a diff
    Both,
}

impl FunctionLocation {
    /// The name of a location, for error messages.
    pub fn name(&self) -> (r: &'static str)
        ensures
            *self == FunctionLocation::Left ==> r@ == "left-hand"@,
            *self == FunctionLocation::Right ==> r@ == "right-hand"@,
            *self == FunctionLocation::Both ==> r@ == "either"@,
    {
        match self {
            FunctionLocation::Left => "left-hand",
            FunctionLocation::Right => "right-hand",
            FunctionLocation::Both => "either",
        }
    }
}

/// The function a user-supplied name selects in a program: looked up as
/// given, and failing that, under its demangled form (the program's keys are
/// demangled names).
pub open spec fn spec_lookup(p: model::Program, n: Seq<char>) -> Option<model::Function> {
    match model::seq_get_fn(p.funcs@, n) {
        Some(f) => Some(f),
        None => model::seq_get_fn(p.funcs@, goblin_yax::spec_demangle(n)),
    }
}

fn lookup<'a>(p: &'a model::Program, n: &str) -> (r: Option<&'a model::Function>)
    ensures
        match r {
            Some(f) => spec_lookup(*p, n@) == Some(*f),
            None => spec_lookup(*p, n@) is None,
        },
{
    match p.get(n) {
        Some(f) => Some(f),
        None => {
            let d = goblin_yax::demangle(n);
            p.get(d.as_str())
        },
    }
}

/// The function pairs an `Unspecified` selector diffs: each left function
/// whose name also names a right function, in left order, with that right
/// function.
pub open spec fn spec_common_pairs(lfs: Seq<model::Function>, rfs: Seq<model::Function>) -> Seq<
    (model::Function, model::Function),
>
    decreases lfs.len(),
{
    if lfs.len() == 0 {
        seq![]
    } else {
        let rest = spec_common_pairs(lfs.drop_first(), rfs);
        match model::seq_get_fn(rfs, lfs.first().name@) {
            Some(rf) => seq![(lfs.first(), rf)] + rest,
            None => rest,
        }
    }
}

/// Extending the processed prefix by one left function appends its pair, if
/// its name is found on the right.
proof fn lemma_common_pairs_snoc(lfs: Seq<model::Function>, rfs: Seq<model::Function>, k: int)
    requires
        0 <= k < lfs.len(),
    ensures
        model::seq_get_fn(rfs, lfs[k].name@) matches Some(rf) ==> spec_common_pairs(
            lfs.take(k + 1),
            rfs,
        ) == spec_common_pairs(lfs.take(k), rfs).push((lfs[k], rf)),
        model::seq_get_fn(rfs, lfs[k].name@) is None ==> spec_common_pairs(lfs.take(k + 1), rfs)
            == spec_common_pairs(lfs.take(k), rfs),
    decreases k,
{
    if k == 0 {
        assert(lfs.take(0) =~= Seq::<model::Function>::empty());
        assert(lfs.take(1) =~= seq![lfs[0]]);
        assert(seq![lfs[0]].drop_first() =~= Seq::<model::Function>::empty());
        if model::seq_get_fn(rfs, lfs[0].name@) is Some {
            let rf = model::seq_get_fn(rfs, lfs[0].name@)->0;
            assert(spec_common_pairs(lfs.take(1), rfs) =~= spec_common_pairs(
                lfs.take(0),
                rfs,
            ).push((lfs[0], rf)));
        }
    } else {
        lemma_common_pairs_snoc(lfs.drop_first(), rfs, k - 1);
        assert(lfs.take(k + 1).drop_first() =~= lfs.drop_first().take(k));
        assert(lfs.take(k).drop_first() =~= lfs.drop_first().take(k - 1));
        assert(lfs.take(k + 1).first() == lfs.first());
        assert(lfs.take(k).first() == lfs.first());
        assert(lfs.drop_first()[k - 1] == lfs[k]);
        match model::seq_get_fn(rfs, lfs[k].name@) {
            Some(rf) => {
                match model::seq_get_fn(rfs, lfs.first().name@) {
                    Some(rf0) => {
                        assert(spec_common_pairs(lfs.take(k + 1), rfs) =~= spec_common_pairs(
                            lfs.take(k),
                            rfs,
                        ).push((lfs[k], rf)));
                    },
                    None => {
                        assert(spec_common_pairs(lfs.take(k + 1), rfs) =~= spec_common_pairs(
                            lfs.take(k),
                            rfs,
                        ).push((lfs[k], rf)));
                    },
                }
            },
            None => {
                assert(spec_common_pairs(lfs.take(k + 1), rfs) =~= spec_common_pairs(
                    lfs.take(k),
                    rfs,
                ));
            },
        }
    }
}

/// The result of the function selection: the pairs to diff, or the side(s)
/// on which the lookup failed.
pub open spec fn spec_pair_of(
    lf: Option<model::Function>,
    rf: Option<model::Function>,
) -> Result<Seq<(model::Function, model::Function)>, FunctionLocation> {
    match (lf, rf) {
        (Some(l), Some(r)) => Ok(seq![(l, r)]),
        (None, Some(_)) => Err(FunctionLocation::Left),
        (Some(_), None) => Err(FunctionLocation::Right),
        (None, None) => Err(FunctionLocation::Both),
    }
}

/// Which function pairs a selector picks from the two programs, or on which
/// side(s) it fails: `Same` and `Different` look one name up on each side;
/// `Unspecified` diffs the functions whose names the programs share and
/// fails on both sides when there are none.
pub open spec fn spec_selected_pairs(
    left: model::Program,
    right: model::Program,
    name: FunctionName,
) -> Result<Seq<(model::Function, model::Function)>, FunctionLocation> {
    match name {
        FunctionName::Different(ln, rn) => spec_pair_of(
            spec_lookup(left, ln@),
            spec_lookup(right, rn@),
        ),
        FunctionName::Same(n) => spec_pair_of(spec_lookup(left, n@), spec_lookup(right, n@)),
        FunctionName::Unspecified => {
            let pairs = spec_common_pairs(left.funcs@, right.funcs@);
            if pairs.len() == 0 {
                Err(FunctionLocation::Both)
            } else {
                Ok(pairs)
            }
        },
    }
}

/// A produced diff carries the two display names and exactly the rows of the
/// engine for that pair of functions.
pub open spec fn diff_matches(
    d: FunctionDiff,
    lf: model::Function,
    rf: model::Function,
    gap: int,
) -> bool {
    d.left_name@ == lf.name@ && d.right_name@ == rf.name@ && rows_model(d.rows@)
        == engine::spec_function_rows(lf, rf, gap)
}

/// Whether any produced diff shows a difference.
pub open spec fn spec_any_diff(diffs: Seq<FunctionDiff>) -> bool {
    exists|k: int|
        0 <= k < diffs.len() && engine::spec_rows_have_diff(rows_model((#[trigger] diffs[k]).rows@))
}

/// Scan all produced diffs for any difference.
fn diffs_any(diffs: &Vec<FunctionDiff>) -> (r: bool)
    ensures
        r == spec_any_diff(diffs@),
{
    let n = diffs.len();
    for k in 0..n
        invariant
            n == diffs@.len(),
            forall|t: int|
                0 <= t < k ==> !engine::spec_rows_have_diff(rows_model((#[trigger] diffs@[t]).rows@)),
    {
        if engine::rows_have_diff(&diffs[k].rows) {
            return true;
        }
    }
    false
}

/// Diff one found pair of functions, or report on which side(s) the lookup
/// failed.
fn pair_result(
    lf: Option<&model::Function>,
    rf: Option<&model::Function>,
    gap: u32,
) -> (r: Result<(bool, Vec<FunctionDiff>), Error>)
    ensures
        match (lf, rf) {
            (Some(l), Some(r0)) => r matches Ok(p) && p.1@.len() == 1 && diff_matches(
                p.1@[0],
                *l,
                *r0,
                gap as int,
            ) && p.0 == spec_any_diff(p.1@),
            (None, Some(_)) => r == Err::<(bool, Vec<FunctionDiff>), Error>(
                Error::NoMatch(FunctionLocation::Left),
            ),
            (Some(_), None) => r == Err::<(bool, Vec<FunctionDiff>), Error>(
                Error::NoMatch(FunctionLocation::Right),
            ),
            (None, None) => r == Err::<(bool, Vec<FunctionDiff>), Error>(
                Error::NoMatch(FunctionLocation::Both),
            ),
        },
{
    match (lf, rf) {
        (Some(l), Some(r0)) => {
            let rows = engine::diff_functions(l, r0, gap);
            let flag = engine::rows_have_diff(&rows);
            let mut diffs: Vec<FunctionDiff> = Vec::new();
            diffs.push(
                FunctionDiff {
                    left_name: l.name().to_owned(),
                    right_name: r0.name().to_owned(),
                    rows,
                },
            );
            proof {
                if spec_any_diff(diffs@) {
                    let k = choose|k: int|
                        0 <= k < diffs@.len() && engine::spec_rows_have_diff(
                            rows_model((#[trigger] diffs@[k]).rows@),
                        );
                    assert(k == 0);
                }
            }
            Ok((flag, diffs))
        },
        (None, Some(_)) => Err(Error::NoMatch(FunctionLocation::Left)),
        (Some(_), None) => Err(Error::NoMatch(FunctionLocation::Right)),
        (None, None) => Err(Error::NoMatch(FunctionLocation::Both)),
    }
}

/// Compare two parsed programs.
///
/// The selector picks the function pairs; for each pair the engine pairs
/// basic blocks greedily and aligns instructions inside each paired block.
/// The boolean reports whether any instruction row other than an exact
/// alignment was emitted.  The gap penalty of the left program is used;
/// both sides of a diff come from the same instruction set.
pub fn compute_diff(
    left: &model::Program,
    right: &model::Program,
    name: FunctionName,
) -> (r: Result<(bool, Vec<FunctionDiff>), Error>)
    ensures
        spec_selected_pairs(*left, *right, name) matches Err(loc) ==> r == Err::<
            (bool, Vec<FunctionDiff>),
            Error,
        >(Error::NoMatch(loc)),
        spec_selected_pairs(*left, *right, name) matches Ok(pairs) ==> r matches Ok(p)
            && p.1@.len() == pairs.len() && (forall|k: int|
            0 <= k < pairs.len() ==> diff_matches(
                #[trigger] p.1@[k],
                pairs[k].0,
                pairs[k].1,
                left.gap as int,
            )) && p.0 == spec_any_diff(p.1@),
{
    match name {
        FunctionName::Different(ln, rn) => {
            let lf = lookup(left, ln.as_str());
            let rf = lookup(right, rn.as_str());
            pair_result(lf, rf, left.gap)
        },
        FunctionName::Same(n) => {
            let lf = lookup(left, n.as_str());
            let rf = lookup(right, n.as_str());
            pair_result(lf, rf, left.gap)
        },
        FunctionName::Unspecified => {
            let gap = left.gap;
            let mut diffs: Vec<FunctionDiff> = Vec::new();
            let ln = left.funcs.len();
            proof {
                assert(left.funcs@.take(0) =~= Seq::<model::Function>::empty());
            }
            for k in 0..ln
                invariant
                    ln == left.funcs@.len(),
                    gap == left.gap,
                    diffs@.len() == spec_common_pairs(left.funcs@.take(k as int), right.funcs@).len(),
                    forall|t: int|
                        0 <= t < diffs@.len() ==> diff_matches(
                            #[trigger] diffs@[t],
                            spec_common_pairs(left.funcs@.take(k as int), right.funcs@)[t].0,
                            spec_common_pairs(left.funcs@.take(k as int), right.funcs@)[t].1,
                            gap as int,
                        ),
            {
                proof {
                    lemma_common_pairs_snoc(left.funcs@, right.funcs@, k as int);
                }
                let lf = &left.funcs[k];
                match right.get(lf.name.as_str()) {
                    Some(rf) => {
                        let rows = engine::diff_functions(lf, rf, gap);
                        diffs.push(
                            FunctionDiff {
                                left_name: lf.name().to_owned(),
                                right_name: rf.name().to_owned(),
                                rows,
                            },
                        );
                    },
                    None => {},
                }
            }
            proof {
                assert(left.funcs@.take(ln as int) =~= left.funcs@);
            }
            if diffs.len() == 0 {
                Err(Error::NoMatch(FunctionLocation::Both))
            } else {
                let flag = diffs_any(&diffs);
                Ok((flag, diffs))
            }
        },
    }
}

} // verus!
