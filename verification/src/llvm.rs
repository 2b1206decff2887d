//! Compiler-IR instruction kinds and their similarity scoring.
//!
//! Scores are ordinals in 0 to 4: 4 means the same operation with all
//! salient fields matching (for an atomic read-modify-write, its operation
//! and its ordering), 3 the same operation family diverging on a minor
//! field, 2 a related-but-different pair inside a family, 0 no relation.

use vstd::prelude::*;

verus! {

/// The kind of a compiler-IR instruction or terminator.
#[derive(Clone, Copy, PartialEq, Eq, Structural, Debug)]
pub enum IrOp {
    Add,
    Sub,
    Mul,
    UDiv,
    SDiv,
    URem,
    SRem,
    And,
    Or,
    Xor,
    Shl,
    LShr,
    AShr,
    FAdd,
    FSub,
    FMul,
    FDiv,
    FRem,
    FNeg,
    ExtractElement,
    InsertElement,
    ShuffleVector,
    ExtractValue,
    InsertValue,
    Alloca,
    Load,
    Store,
    Fence,
    CmpXchg,
    AtomicRMW,
    GetElementPtr,
    Trunc,
    ZExt,
    SExt,
    FPTrunc,
    FPExt,
    FPToUI,
    FPToSI,
    UIToFP,
    SIToFP,
    PtrToInt,
    IntToPtr,
    BitCast,
    AddrSpaceCast,
    ICmp,
    FCmp,
    Phi,
    Select,
    Freeze,
    Call,
    VAArg,
    LandingPad,
    CatchPad,
    CleanupPad,
    Ret,
    Br,
    CondBr,
    Switch,
    IndirectBr,
    Invoke,
    Resume,
    Unreachable,
    CleanupRet,
    CatchRet,
    CatchSwitch,
    CallBr,
}

/// The family an operation belongs to: 1 integer arithmetic, 2 bitwise,
/// 3 floating-point arithmetic, 0 none.  Two different operations of one
/// family are still related.
pub open spec fn spec_ir_family(op: IrOp) -> int {
    match op {
        IrOp::Add | IrOp::Sub | IrOp::UDiv | IrOp::SDiv | IrOp::URem | IrOp::SRem => 1,
        IrOp::And | IrOp::Or | IrOp::Xor | IrOp::Shl | IrOp::LShr | IrOp::AShr => 2,
        IrOp::FAdd | IrOp::FSub | IrOp::FMul | IrOp::FDiv | IrOp::FRem | IrOp::FNeg => 3,
        _ => 0,
    }
}

/// Whether two equal operations still compare a salient field (a cast's
/// target type, a comparison's predicate, an ordering, an argument count).
pub open spec fn spec_ir_detailed(op: IrOp) -> bool {
    match op {
        IrOp::Alloca | IrOp::Fence | IrOp::CmpXchg | IrOp::Trunc | IrOp::ZExt | IrOp::SExt
            | IrOp::FPTrunc | IrOp::FPExt | IrOp::FPToUI | IrOp::FPToSI | IrOp::UIToFP
            | IrOp::SIToFP | IrOp::PtrToInt | IrOp::IntToPtr | IrOp::BitCast
            | IrOp::AddrSpaceCast | IrOp::ICmp | IrOp::FCmp | IrOp::Phi | IrOp::Call
            | IrOp::VAArg => true,
        _ => false,
    }
}

/// The pairs of different conversions that are interchangeable enough to
/// stay related: zero- vs sign-extension, float truncation vs extension,
/// float-to-integer and integer-to-float signedness variants.
pub open spec fn spec_ir_cross_cast(a: IrOp, b: IrOp) -> bool {
    ||| (a == IrOp::ZExt && b == IrOp::SExt)
    ||| (a == IrOp::SExt && b == IrOp::ZExt)
    ||| (a == IrOp::FPTrunc && b == IrOp::FPExt)
    ||| (a == IrOp::FPExt && b == IrOp::FPTrunc)
    ||| (a == IrOp::FPToUI && b == IrOp::FPToSI)
    ||| (a == IrOp::FPToSI && b == IrOp::FPToUI)
    ||| (a == IrOp::UIToFP && b == IrOp::SIToFP)
    ||| (a == IrOp::SIToFP && b == IrOp::UIToFP)
}

/// The similarity score of two IR instructions, over their kinds and their
/// rendered salient fields (`d` the main field, `x` the ordering of an
/// atomic read-modify-write).
pub open spec fn spec_ir_score(
    a: IrOp,
    ad: Seq<char>,
    ax: Seq<char>,
    b: IrOp,
    bd: Seq<char>,
    bx: Seq<char>,
) -> int {
    if a == b {
        if a == IrOp::AtomicRMW {
            if ad == bd && ax == bx { 4int } else { 3int }
        } else if spec_ir_detailed(a) {
            if ad == bd { 4 } else { 3 }
        } else {
            4
        }
    } else if spec_ir_cross_cast(a, b) {
        if ad == bd { 3 } else { 2 }
    } else if spec_ir_family(a) != 0 && spec_ir_family(a) == spec_ir_family(b) {
        3
    } else {
        0
    }
}

fn ir_detailed(op: IrOp) -> (r: bool)
    ensures
        r == spec_ir_detailed(op),
{
    match op {
        IrOp::Alloca | IrOp::Fence | IrOp::CmpXchg | IrOp::Trunc | IrOp::ZExt | IrOp::SExt
            | IrOp::FPTrunc | IrOp::FPExt | IrOp::FPToUI | IrOp::FPToSI | IrOp::UIToFP
            | IrOp::SIToFP | IrOp::PtrToInt | IrOp::IntToPtr | IrOp::BitCast
            | IrOp::AddrSpaceCast | IrOp::ICmp | IrOp::FCmp | IrOp::Phi | IrOp::Call
            | IrOp::VAArg => true,
        _ => false,
    }
}

fn ir_family(op: IrOp) -> (r: u32)
    ensures
        r == spec_ir_family(op),
{
    match op {
        IrOp::Add | IrOp::Sub | IrOp::UDiv | IrOp::SDiv | IrOp::URem | IrOp::SRem => 1,
        IrOp::And | IrOp::Or | IrOp::Xor | IrOp::Shl | IrOp::LShr | IrOp::AShr => 2,
        IrOp::FAdd | IrOp::FSub | IrOp::FMul | IrOp::FDiv | IrOp::FRem | IrOp::FNeg => 3,
        _ => 0,
    }
}

fn ir_cross_cast(a: IrOp, b: IrOp) -> (r: bool)
    ensures
        r == spec_ir_cross_cast(a, b),
{
    match (a, b) {
        (IrOp::ZExt, IrOp::SExt)
        | (IrOp::SExt, IrOp::ZExt)
        | (IrOp::FPTrunc, IrOp::FPExt)
        | (IrOp::FPExt, IrOp::FPTrunc)
        | (IrOp::FPToUI, IrOp::FPToSI)
        | (IrOp::FPToSI, IrOp::FPToUI)
        | (IrOp::UIToFP, IrOp::SIToFP)
        | (IrOp::SIToFP, IrOp::UIToFP) => true,
        _ => false,
    }
}

/// Score two IR instructions given as kind plus rendered salient fields.
pub fn ir_score(
    a: IrOp,
    ad: &String,
    ax: &String,
    b: IrOp,
    bd: &String,
    bx: &String,
) -> (r: i64)
    ensures
        r == spec_ir_score(a, ad@, ax@, b, bd@, bx@),
{
    if a == b {
        if a == IrOp::AtomicRMW {
            if *ad == *bd && *ax == *bx { 4 } else { 3 }
        } else if ir_detailed(a) {
            if *ad == *bd { 4 } else { 3 }
        } else {
            4
        }
    } else if ir_cross_cast(a, b) {
        if *ad == *bd { 3 } else { 2 }
    } else {
        let fa = ir_family(a);
        if fa != 0 && fa == ir_family(b) { 3 } else { 0 }
    }
}

} // verus!
