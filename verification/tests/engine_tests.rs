use ctflgrdifflib::compute_diff;
use ctflgrdifflib::engine::{diff_functions, fill_grid, pair_score, rows_have_diff};
use ctflgrdifflib::model::{BasicBlock, Function, Instruction, Program};
use ctflgrdifflib::score::{score, term_score, EQUIVALENT};
use ctflgrdifflib::{Error, FunctionDiff, FunctionLocation, FunctionName, MatchDirection, Row};

fn mi(tag: &str, text: &str) -> Instruction {
    Instruction::Machine {
        tag: tag.to_string(),
        text: text.to_string(),
    }
}

fn block(name: &str, body: Vec<Instruction>, terminator: Option<Instruction>) -> BasicBlock {
    BasicBlock {
        name: name.to_string(),
        body,
        terminator,
    }
}

fn func(name: &str, blocks: Vec<BasicBlock>) -> Function {
    Function {
        name: name.to_string(),
        blocks,
    }
}

fn program(funcs: Vec<Function>) -> Program {
    let mut p = Program::new(1);
    for f in funcs {
        p.insert(f);
    }
    p
}

fn ret() -> Instruction {
    mi("RET", "ret")
}

fn is_instruction_row(row: &Row, left: &str, right: &str, kind: MatchDirection) -> bool {
    match row {
        Row::Instruction(l, r, k) => l == left && r == right && *k == kind,
        _ => false,
    }
}

fn is_block_header(row: &Row, left: &str, right: &str) -> bool {
    match row {
        Row::BlockHeader(l, r) => l == left && r == right,
        _ => false,
    }
}

#[test]
fn program_get_is_consistent_with_functions() {
    let p = program(vec![func("a", vec![]), func("b", vec![])]);
    assert_eq!(p.functions().len(), 2);
    assert!(p.get("a").is_some());
    assert!(p.get("b").is_some());
    assert!(p.get("c").is_none());
    for f in p.functions() {
        let found = p.get(f.name()).expect("listed function must be found");
        assert_eq!(found.name(), f.name());
    }
}

#[test]
fn program_insert_replaces_same_name() {
    let mut p = Program::new(1);
    p.insert(func("a", vec![]));
    p.insert(func("a", vec![block("0", vec![], Some(ret()))]));
    assert_eq!(p.functions().len(), 1);
    assert_eq!(p.get("a").unwrap().blocks().len(), 1);
}

#[test]
fn identical_functions_diff_is_all_exact() {
    let f = func(
        "main",
        vec![block("0", vec![mi("ADD", "add r0"), mi("SUB", "sub r1")], Some(ret()))],
    );
    let g = func(
        "main",
        vec![block("0", vec![mi("ADD", "add r0"), mi("SUB", "sub r1")], Some(ret()))],
    );
    let left = program(vec![f]);
    let right = program(vec![g]);
    let (has_diff, diffs) =
        compute_diff(&left, &right, FunctionName::Same("main".to_string())).unwrap();
    assert!(!has_diff);
    assert_eq!(diffs.len(), 1);
    for row in &diffs[0].rows {
        match row {
            Row::BlockHeader(_, _) => {}
            Row::Instruction(_, _, kind) => assert_eq!(*kind, MatchDirection::Align(true)),
        }
    }
}

#[test]
fn self_diff_of_identical_program_has_no_gaps() {
    let build = || {
        program(vec![
            func("f", vec![block("0", vec![mi("ADD", "add")], Some(ret()))]),
            func("g", vec![block("0", vec![mi("SUB", "sub")], Some(mi("JMP", "jmp")))]),
        ])
    };
    let (has_diff, diffs) = compute_diff(&build(), &build(), FunctionName::Unspecified).unwrap();
    assert!(!has_diff);
    assert_eq!(diffs.len(), 2);
    for d in &diffs {
        for row in &d.rows {
            match row {
                Row::BlockHeader(_, _) => {}
                Row::Instruction(_, _, kind) => assert_eq!(*kind, MatchDirection::Align(true)),
            }
        }
    }
}

#[test]
fn diff_is_not_commutative() {
    // The left function has two blocks, the right only one.  A surplus left
    // block still pairs (consumed right blocks stay candidates), while a
    // surplus right block can only appear as left-gap tail rows: swapping
    // the inputs changes the output.
    let two = || {
        func(
            "main",
            vec![
                block("0", vec![mi("A", "a")], Some(ret())),
                block("1", vec![mi("B", "b")], Some(ret())),
            ],
        )
    };
    let one = || func("main", vec![block("0", vec![mi("A", "a")], Some(ret()))]);
    let lr = diff_functions(&two(), &one(), 1);
    let rl = diff_functions(&one(), &two(), 1);
    let count = |rows: &Vec<Row>, want: MatchDirection| {
        rows.iter()
            .filter(|r| matches!(r, Row::Instruction(_, _, k) if *k == want))
            .count()
    };
    assert_eq!(count(&lr, MatchDirection::GapLeft) + count(&lr, MatchDirection::GapRight), 0);
    assert_eq!(count(&lr, MatchDirection::Align(false)), 1);
    assert_eq!(count(&rl, MatchDirection::GapLeft), 2);
    assert_eq!(count(&rl, MatchDirection::Align(false)), 0);
}

#[test]
fn single_pair_row_counts_swap_gaps() {
    // For one pair of blocks the row counts are symmetric up to the
    // orientation of the gap rows.
    let big = || func("main", vec![block("0", vec![mi("A", "a"), mi("B", "b")], Some(ret()))]);
    let small = || func("main", vec![block("0", vec![mi("A", "a")], Some(ret()))]);
    let lr = diff_functions(&big(), &small(), 1);
    let rl = diff_functions(&small(), &big(), 1);
    let count = |rows: &Vec<Row>, want: MatchDirection| {
        rows.iter()
            .filter(|r| matches!(r, Row::Instruction(_, _, k) if *k == want))
            .count()
    };
    assert_eq!(lr.len(), rl.len());
    assert_eq!(count(&lr, MatchDirection::GapRight), 1);
    assert_eq!(count(&lr, MatchDirection::GapRight), count(&rl, MatchDirection::GapLeft));
    assert_eq!(count(&lr, MatchDirection::GapLeft), count(&rl, MatchDirection::GapRight));
}

#[test]
fn empty_bodies_with_equivalent_terminators_emit_header_and_one_row() {
    let lf = func("main", vec![block("0", vec![], Some(ret()))]);
    let rf = func("main", vec![block("0", vec![], Some(ret()))]);
    let rows = diff_functions(&lf, &rf, 1);
    assert_eq!(rows.len(), 2);
    assert!(is_block_header(&rows[0], "0", "0"));
    assert!(is_instruction_row(&rows[1], "ret", "ret", MatchDirection::Align(true)));
}

#[test]
fn absent_terminators_match_exactly() {
    let lf = func("main", vec![block("0", vec![mi("A", "a")], None)]);
    let rf = func("main", vec![block("0", vec![mi("A", "a")], None)]);
    let rows = diff_functions(&lf, &rf, 1);
    assert_eq!(rows.len(), 3);
    assert!(is_instruction_row(&rows[1], "a", "a", MatchDirection::Align(true)));
    assert!(is_instruction_row(
        &rows[2],
        "<no instruction>",
        "<no instruction>",
        MatchDirection::Align(true)
    ));
}

#[test]
fn disjoint_bodies_identical_terminators_still_pair() {
    // The positive terminator score suffices to pair the blocks; the bodies
    // align as an inexact row.
    let lf = func("main", vec![block("0", vec![mi("A", "a")], Some(ret()))]);
    let rf = func("main", vec![block("0", vec![mi("B", "b")], Some(ret()))]);
    let rows = diff_functions(&lf, &rf, 1);
    assert_eq!(rows.len(), 3);
    assert!(is_block_header(&rows[0], "0", "0"));
    assert!(is_instruction_row(&rows[1], "a", "b", MatchDirection::Align(false)));
    assert!(is_instruction_row(&rows[2], "ret", "ret", MatchDirection::Align(true)));
    assert!(rows_have_diff(&rows));
}

#[test]
fn unrelated_blocks_are_orphaned() {
    // Nothing scores positively: the left block is orphaned and the right
    // block is emitted as left-gap rows.
    let lf = func("main", vec![block("0", vec![mi("A", "a")], Some(mi("RET", "ret")))]);
    let rf = func("main", vec![block("0", vec![mi("B", "b")], Some(mi("JMP", "jmp")))]);
    let rows = diff_functions(&lf, &rf, 1);
    assert_eq!(rows.len(), 6);
    assert!(is_block_header(&rows[0], "0", ""));
    assert!(is_instruction_row(&rows[1], "a", "", MatchDirection::GapRight));
    assert!(is_instruction_row(&rows[2], "ret", "", MatchDirection::Align(false)));
    assert!(is_block_header(&rows[3], "", "0"));
    assert!(is_instruction_row(&rows[4], "", "b", MatchDirection::GapLeft));
    assert!(is_instruction_row(&rows[5], "", "jmp", MatchDirection::GapLeft));
}

#[test]
fn orphan_block_scenario() {
    // Left has blocks [A; RET] and [B; RET]; right has only [A; RET]: the
    // first left block pairs exactly, the second is orphaned.
    let lf = func(
        "main",
        vec![
            block("0", vec![mi("A", "a")], Some(ret())),
            block("1", vec![mi("B", "b")], Some(ret())),
        ],
    );
    let rf = func("main", vec![block("0", vec![mi("A", "a")], Some(ret()))]);
    let rows = diff_functions(&lf, &rf, 1);
    assert!(is_block_header(&rows[0], "0", "0"));
    assert!(is_instruction_row(&rows[1], "a", "a", MatchDirection::Align(true)));
    assert!(is_instruction_row(&rows[2], "ret", "ret", MatchDirection::Align(true)));
    // The second left block pairs with the same right block again (used
    // blocks stay candidates), or orphans; with an equal-score tie the
    // earlier candidate is kept, so it pairs with right block 0.
    assert!(rows.len() > 3);
    assert!(rows_have_diff(&rows) == rows.iter().any(|r| matches!(
        r,
        Row::Instruction(_, _, k) if *k != MatchDirection::Align(true)
    )));
}

#[test]
fn no_overlap_fails_no_match_both() {
    let left = program(vec![func("f", vec![])]);
    let right = program(vec![func("g", vec![])]);
    match compute_diff(&left, &right, FunctionName::Unspecified) {
        Err(Error::NoMatch(FunctionLocation::Both)) => {}
        _ => panic!("expected NoMatch(Both)"),
    }
}

#[test]
fn missing_sides_report_their_location() {
    let left = program(vec![func("f", vec![])]);
    let right = program(vec![func("g", vec![])]);
    match compute_diff(&left, &right, FunctionName::Same("g".to_string())) {
        Err(Error::NoMatch(FunctionLocation::Left)) => {}
        _ => panic!("expected NoMatch(Left)"),
    }
    match compute_diff(&left, &right, FunctionName::Same("f".to_string())) {
        Err(Error::NoMatch(FunctionLocation::Right)) => {}
        _ => panic!("expected NoMatch(Right)"),
    }
    match compute_diff(&left, &right, FunctionName::Same("h".to_string())) {
        Err(Error::NoMatch(FunctionLocation::Both)) => {}
        _ => panic!("expected NoMatch(Both)"),
    }
}

#[test]
fn pair_score_is_grid_corner_plus_terminator_score() {
    let lb = block("0", vec![mi("A", "a"), mi("B", "b")], Some(ret()));
    let rb = block("0", vec![mi("A", "a")], Some(ret()));
    let grid = fill_grid(&lb.body, &rb.body, 1);
    let corner = grid[lb.body.len()][rb.body.len()].0;
    let ts = term_score(lb.terminator(), rb.terminator()) as i128;
    assert_eq!(pair_score(&lb, &rb, 1), corner + ts);
}

#[test]
fn alignment_path_row_counts_match_body_lengths() {
    // Between the header and the terminator row, the rows that are not
    // left-gaps number len(left body) and those that are not right-gaps
    // number len(right body).
    let lf = func(
        "main",
        vec![block("0", vec![mi("A", "a"), mi("B", "b"), mi("C", "c")], Some(ret()))],
    );
    let rf = func("main", vec![block("0", vec![mi("A", "a"), mi("C", "c")], Some(ret()))]);
    let rows = diff_functions(&lf, &rf, 1);
    let body_rows = &rows[1..rows.len() - 1];
    let not_gap_left = body_rows
        .iter()
        .filter(|r| matches!(r, Row::Instruction(_, _, k) if *k != MatchDirection::GapLeft))
        .count();
    let not_gap_right = body_rows
        .iter()
        .filter(|r| matches!(r, Row::Instruction(_, _, k) if *k != MatchDirection::GapRight))
        .count();
    assert_eq!(not_gap_left, 3);
    assert_eq!(not_gap_right, 2);
    assert_eq!(body_rows.len(), 3);
}

#[test]
fn machine_score_is_tag_equality() {
    let a = mi("ADD", "add r0, r1");
    let b = mi("ADD", "add r2, r3");
    let c = mi("SUB", "sub r0, r1");
    assert_eq!(score(&a, &b), 4);
    assert_eq!(score(&a, &c), 0);
    assert_eq!(score(&a, &a), EQUIVALENT);
}

#[test]
fn terminator_scoring_handles_absence() {
    let some = Some(ret());
    let none: Option<Instruction> = None;
    assert_eq!(term_score(&none, &none), 4);
    assert_eq!(term_score(&some, &none), 0);
    assert_eq!(term_score(&none, &some), 0);
    assert_eq!(term_score(&some, &Some(ret())), 4);
}

#[test]
fn function_diff_carries_display_names() {
    let left = program(vec![func("alpha", vec![block("0", vec![], Some(ret()))])]);
    let right = program(vec![func("beta", vec![block("0", vec![], Some(ret()))])]);
    let (_, diffs): (bool, Vec<FunctionDiff>) = compute_diff(
        &left,
        &right,
        FunctionName::Different("alpha".to_string(), "beta".to_string()),
    )
    .unwrap();
    assert_eq!(diffs.len(), 1);
    assert_eq!(diffs[0].left_name, "alpha");
    assert_eq!(diffs[0].right_name, "beta");
}

#[test]
fn location_names() {
    assert_eq!(FunctionLocation::Left.name(), "left-hand");
    assert_eq!(FunctionLocation::Right.name(), "right-hand");
    assert_eq!(FunctionLocation::Both.name(), "either");
}
