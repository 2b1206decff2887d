use ctflgrdifflib::compute_diff;
use ctflgrdifflib::llvm::IrOp;
use ctflgrdifflib::model::{BasicBlock, Function, Instruction, Program};
use ctflgrdifflib::score::score;
use ctflgrdifflib::{FunctionName, MatchDirection, Row};

fn ir(op: IrOp, detail: &str, text: &str) -> Instruction {
    Instruction::Ir {
        op,
        detail: detail.to_string(),
        extra: String::new(),
        text: text.to_string(),
    }
}

fn rmw(atomicity: &str, operation: &str) -> Instruction {
    Instruction::Ir {
        op: IrOp::AtomicRMW,
        detail: operation.to_string(),
        extra: atomicity.to_string(),
        text: "atomicrmw".to_string(),
    }
}

#[test]
fn same_operation_scores_exact() {
    assert_eq!(score(&ir(IrOp::Add, "", "add"), &ir(IrOp::Add, "", "add")), 4);
    assert_eq!(score(&ir(IrOp::Load, "", "load"), &ir(IrOp::Load, "", "load")), 4);
    assert_eq!(score(&ir(IrOp::Mul, "", "mul"), &ir(IrOp::Mul, "", "mul")), 4);
}

#[test]
fn same_family_scores_related() {
    assert_eq!(score(&ir(IrOp::Add, "", "add"), &ir(IrOp::Sub, "", "sub")), 3);
    assert_eq!(score(&ir(IrOp::And, "", "and"), &ir(IrOp::Or, "", "or")), 3);
    assert_eq!(score(&ir(IrOp::FAdd, "", "fadd"), &ir(IrOp::FMul, "", "fmul")), 3);
}

#[test]
fn unrelated_operations_score_zero() {
    assert_eq!(score(&ir(IrOp::Add, "", "add"), &ir(IrOp::And, "", "and")), 0);
    assert_eq!(score(&ir(IrOp::Load, "", "load"), &ir(IrOp::Store, "", "store")), 0);
}

#[test]
fn casts_compare_their_target_type() {
    assert_eq!(score(&ir(IrOp::Trunc, "i8", "t"), &ir(IrOp::Trunc, "i8", "t")), 4);
    assert_eq!(score(&ir(IrOp::Trunc, "i8", "t"), &ir(IrOp::Trunc, "i16", "t")), 3);
    assert_eq!(score(&ir(IrOp::ZExt, "i64", "z"), &ir(IrOp::SExt, "i64", "s")), 3);
    assert_eq!(score(&ir(IrOp::ZExt, "i64", "z"), &ir(IrOp::SExt, "i32", "s")), 2);
    assert_eq!(score(&ir(IrOp::FPToUI, "i32", "f"), &ir(IrOp::FPToSI, "i32", "f")), 3);
    assert_eq!(score(&ir(IrOp::UIToFP, "f32", "u"), &ir(IrOp::SIToFP, "f64", "s")), 2);
}

#[test]
fn comparisons_compare_their_predicate() {
    assert_eq!(score(&ir(IrOp::ICmp, "eq", "c"), &ir(IrOp::ICmp, "eq", "c")), 4);
    assert_eq!(score(&ir(IrOp::ICmp, "eq", "c"), &ir(IrOp::ICmp, "slt", "c")), 3);
}

#[test]
fn calls_compare_their_argument_count() {
    assert_eq!(score(&ir(IrOp::Call, "2", "call"), &ir(IrOp::Call, "2", "call")), 4);
    assert_eq!(score(&ir(IrOp::Call, "2", "call"), &ir(IrOp::Call, "3", "call")), 3);
}

#[test]
fn atomic_rmw_compares_ordering_and_operation() {
    assert_eq!(score(&rmw("seqcst", "add"), &rmw("seqcst", "add")), 4);
    assert_eq!(score(&rmw("seqcst", "add"), &rmw("seqcst", "xchg")), 3);
    assert_eq!(score(&rmw("seqcst", "add"), &rmw("acquire", "add")), 3);
    assert_eq!(score(&rmw("seqcst", "add"), &rmw("acquire", "xchg")), 3);
}

#[test]
fn terminator_kinds_match_or_not() {
    assert_eq!(score(&ir(IrOp::Ret, "", "ret"), &ir(IrOp::Ret, "", "ret void")), 4);
    assert_eq!(score(&ir(IrOp::Ret, "", "ret"), &ir(IrOp::Br, "", "br")), 0);
    assert_eq!(score(&ir(IrOp::CondBr, "", "br i1"), &ir(IrOp::CondBr, "", "br i1")), 4);
}

#[test]
fn machine_and_ir_instructions_are_unrelated() {
    let m = Instruction::Machine {
        tag: "RET".to_string(),
        text: "ret".to_string(),
    };
    assert_eq!(score(&m, &ir(IrOp::Ret, "", "ret")), 0);
}

#[test]
fn ir_self_diff_uses_bitcode_gap() {
    // An IR program carries the bitcode gap penalty of 2; a self diff is
    // still all-exact.
    let build = || {
        let mut p = Program::new(2);
        p.insert(Function {
            name: "f".to_string(),
            blocks: vec![BasicBlock {
                name: "entry".to_string(),
                body: vec![ir(IrOp::Add, "", "%1 = add i32 %a, %b")],
                terminator: Some(ir(IrOp::Ret, "", "ret i32 %1")),
            }],
        });
        p
    };
    let (has_diff, diffs) = compute_diff(&build(), &build(), FunctionName::Unspecified).unwrap();
    assert!(!has_diff);
    assert_eq!(diffs.len(), 1);
    match &diffs[0].rows[0] {
        Row::BlockHeader(l, r) => {
            assert_eq!(l, "entry");
            assert_eq!(r, "entry");
        }
        _ => panic!("expected a block header"),
    }
    match &diffs[0].rows[1] {
        Row::Instruction(_, _, kind) => assert_eq!(*kind, MatchDirection::Align(true)),
        _ => panic!("expected an instruction row"),
    }
}

#[test]
fn gap_penalty_influences_alignment() {
    // With mismatching bodies of different lengths, a larger gap penalty
    // favours aligning mismatched instructions over gap rows.
    let lf = Function {
        name: "f".to_string(),
        blocks: vec![BasicBlock {
            name: "0".to_string(),
            body: vec![ir(IrOp::Add, "", "add"), ir(IrOp::Store, "", "store")],
            terminator: Some(ir(IrOp::Ret, "", "ret")),
        }],
    };
    let rf = Function {
        name: "f".to_string(),
        blocks: vec![BasicBlock {
            name: "0".to_string(),
            body: vec![ir(IrOp::Store, "", "store")],
            terminator: Some(ir(IrOp::Ret, "", "ret")),
        }],
    };
    let rows = ctflgrdifflib::engine::diff_functions(&lf, &rf, 2);
    // One right-gap row for the extra left instruction, one exact alignment
    // for the store, one exact terminator row.
    let gaps = rows
        .iter()
        .filter(|r| matches!(r, Row::Instruction(_, _, MatchDirection::GapRight)))
        .count();
    assert_eq!(gaps, 1);
    let exact = rows
        .iter()
        .filter(|r| matches!(r, Row::Instruction(_, _, MatchDirection::Align(true))))
        .count();
    assert_eq!(exact, 2);
}
