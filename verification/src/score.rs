//! Instruction similarity scoring, shared by block pairing and alignment.
//!
//! Machine instructions score 4 when their opcode tags are equal and 0
//! otherwise; IR instructions score by the table in `llvm`.  The absent
//! terminator scores as exactly equivalent against another absent terminator
//! and 0 against any present instruction.

use vstd::prelude::*;
use crate::model::Instruction;

verus! {

/// The score threshold at and above which two instructions are considered an
/// exact match.
pub const EQUIVALENT: i64 = 4;

/// The similarity score of two instructions: a non-negative ordinal, higher
/// meaning more similar, 0 meaning unrelated.
pub open spec fn spec_score(a: Instruction, b: Instruction) -> int {
    match (a, b) {
        (Instruction::Machine { tag: at, .. }, Instruction::Machine { tag: bt, .. }) => {
            if at@ == bt@ { 4 } else { 0 }
        },
        (
            Instruction::Ir { op: aop, detail: ad, extra: ax, .. },
            Instruction::Ir { op: bop, detail: bd, extra: bx, .. },
        ) => crate::llvm::spec_ir_score(aop, ad@, ax@, bop, bd@, bx@),
        _ => 0,
    }
}

/// The similarity score of two terminator positions: two absent terminators
/// are an exact match, an absent one is unrelated to any present one.
pub open spec fn spec_term_score(a: Option<Instruction>, b: Option<Instruction>) -> int {
    match (a, b) {
        (Some(ai), Some(bi)) => spec_score(ai, bi),
        (None, None) => EQUIVALENT as int,
        _ => 0,
    }
}

/// Compute the similarity score of two instructions.
pub fn score(a: &Instruction, b: &Instruction) -> (r: i64)
    ensures
        r == spec_score(*a, *b),
{
    match (a, b) {
        (Instruction::Machine { tag: at, .. }, Instruction::Machine { tag: bt, .. }) => {
            if *at == *bt { 4 } else { 0 }
        },
        (
            Instruction::Ir { op: aop, detail: ad, extra: ax, .. },
            Instruction::Ir { op: bop, detail: bd, extra: bx, .. },
        ) => crate::llvm::ir_score(*aop, ad, ax, *bop, bd, bx),
        _ => 0,
    }
}

/// Compute the similarity score of two terminator positions.
pub fn term_score(a: &Option<Instruction>, b: &Option<Instruction>) -> (r: i64)
    ensures
        r == spec_term_score(*a, *b),
{
    match (a, b) {
        (Some(ai), Some(bi)) => score(ai, bi),
        (None, None) => EQUIVALENT,
        _ => 0,
    }
}

impl Instruction {
    /// Compute the similarity score against another instruction.
    pub fn score(&self, other: &Instruction) -> (r: i64)
        ensures
            r == spec_score(*self, *other),
    {
        score(self, other)
    }
}

/// Scores are ordinals: between 0 and 4.
pub proof fn lemma_score_bounds(a: Instruction, b: Instruction)
    ensures
        0 <= spec_score(a, b) <= 4,
{
}

/// Terminator scores are ordinals: between 0 and 4.
pub proof fn lemma_term_score_bounds(a: Option<Instruction>, b: Option<Instruction>)
    ensures
        0 <= spec_term_score(a, b) <= 4,
{
}

/// Every instruction is exactly equivalent to itself.
pub proof fn lemma_score_self(a: Instruction)
    ensures
        spec_score(a, a) >= EQUIVALENT as int,
{
}

/// Every terminator position is exactly equivalent to itself.
pub proof fn lemma_term_score_self(a: Option<Instruction>)
    ensures
        spec_term_score(a, a) >= EQUIVALENT as int,
{
    if a is Some {
        lemma_score_self(a->0);
    }
}

/// No pair scores above what either side scores against itself.
pub proof fn lemma_score_cross(a: Instruction, b: Instruction)
    ensures
        spec_score(a, b) <= spec_score(a, a),
        spec_score(a, b) <= spec_score(b, b),
{
}

/// No terminator pair scores above what either side scores against itself.
pub proof fn lemma_term_score_cross(a: Option<Instruction>, b: Option<Instruction>)
    ensures
        spec_term_score(a, b) <= spec_term_score(a, a),
        spec_term_score(a, b) <= spec_term_score(b, b),
{
    if a is Some && b is Some {
        lemma_score_cross(a->0, b->0);
        lemma_score_self(a->0);
        lemma_score_self(b->0);
    } else {
        lemma_term_score_self(a);
        lemma_term_score_self(b);
    }
}

} // verus!
