use ctflgrdifflib::compute_diff;
use ctflgrdifflib::format::MachineArch;
use ctflgrdifflib::goblin_yax::{decode_function, demangle, parse_program, GoblinYaxError};
use ctflgrdifflib::model::{Function, Program};
use ctflgrdifflib::{FunctionName, MatchDirection, Row};

fn avr_program(name: &str, bytes: &[u8]) -> Program {
    let blocks = decode_function(bytes, 0, bytes.len() as u64, MachineArch::Avr).unwrap();
    let mut p = Program::new(1);
    p.insert(Function {
        name: name.to_string(),
        blocks,
    });
    p
}

#[test]
fn avr_ret_decodes_into_terminator_only_block() {
    // 0x9508 (little endian 08 95) is the AVR `ret` instruction.
    let blocks = decode_function(&[0x08, 0x95], 0, 2, MachineArch::Avr).unwrap();
    assert_eq!(blocks.len(), 1);
    assert_eq!(blocks[0].name(), "0");
    assert_eq!(blocks[0].len(), 0);
    let term = blocks[0].terminator().as_ref().expect("ret closes the block");
    assert_eq!(term.render(), "ret");
}

#[test]
fn exact_match_single_block_avr() {
    let left = avr_program("main", &[0x08, 0x95]);
    let right = avr_program("main", &[0x08, 0x95]);
    let (has_diff, diffs) =
        compute_diff(&left, &right, FunctionName::Same("main".to_string())).unwrap();
    assert!(!has_diff);
    assert_eq!(diffs.len(), 1);
    assert_eq!(diffs[0].rows.len(), 2);
    match &diffs[0].rows[0] {
        Row::BlockHeader(l, r) => {
            assert_eq!(l, "0");
            assert_eq!(r, "0");
        }
        _ => panic!("expected a block header first"),
    }
    match &diffs[0].rows[1] {
        Row::Instruction(l, r, kind) => {
            assert_eq!(l, "ret");
            assert_eq!(r, "ret");
            assert_eq!(*kind, MatchDirection::Align(true));
        }
        _ => panic!("expected the terminator row"),
    }
}

#[test]
fn one_instruction_differs_avr() {
    // Left is `ret`; right is `nop` then `ret`: the extra right-side `nop`
    // becomes a left-gap row, the terminators align exactly.
    let left = avr_program("main", &[0x08, 0x95]);
    let right = avr_program("main", &[0x00, 0x00, 0x08, 0x95]);
    let (has_diff, diffs) =
        compute_diff(&left, &right, FunctionName::Same("main".to_string())).unwrap();
    assert!(has_diff);
    assert_eq!(diffs.len(), 1);
    let rows = &diffs[0].rows;
    assert_eq!(rows.len(), 3);
    match &rows[1] {
        Row::Instruction(l, r, kind) => {
            assert_eq!(l, "");
            assert_eq!(r, "nop");
            assert_eq!(*kind, MatchDirection::GapLeft);
        }
        _ => panic!("expected the gap row"),
    }
    match &rows[2] {
        Row::Instruction(l, r, kind) => {
            assert_eq!(l, "ret");
            assert_eq!(r, "ret");
            assert_eq!(*kind, MatchDirection::Align(true));
        }
        _ => panic!("expected the terminator row"),
    }
}

#[test]
fn decode_failure_aborts_the_function() {
    // A single byte cannot hold an AVR instruction: the decoder runs out of
    // input and the whole function fails with a decode error.
    match decode_function(&[0x08], 0, 1, MachineArch::Avr) {
        Err(GoblinYaxError::Yax(_)) => {}
        _ => panic!("expected a decode error"),
    }
}

#[test]
fn range_outside_buffer_yields_no_blocks() {
    let blocks = decode_function(&[0x08, 0x95], 0, 100, MachineArch::Avr).unwrap();
    assert_eq!(blocks.len(), 0);
}

#[test]
fn blocks_are_numbered_sequentially() {
    // ret, nop, ret: two blocks; the nop opens the second one.
    let blocks =
        decode_function(&[0x08, 0x95, 0x00, 0x00, 0x08, 0x95], 0, 6, MachineArch::Avr).unwrap();
    assert_eq!(blocks.len(), 2);
    assert_eq!(blocks[0].name(), "0");
    assert_eq!(blocks[1].name(), "1");
    assert_eq!(blocks[0].len(), 0);
    assert_eq!(blocks[1].len(), 1);
}

#[test]
fn trailing_bytes_form_block_with_absent_terminator() {
    // A lone nop never reaches a flow-control instruction.
    let blocks = decode_function(&[0x00, 0x00], 0, 2, MachineArch::Avr).unwrap();
    assert_eq!(blocks.len(), 1);
    assert!(blocks[0].terminator().is_none());
    assert_eq!(blocks[0].len(), 1);
    assert_eq!(blocks[0].get(0).render(), "nop");
}

#[test]
fn fat_macho_missing_slice() {
    // A fat Mach-O container (big-endian header) holding one ARM64 slice;
    // requesting the 64-bit x86 slice must fail with the fat-binary error.
    let bytes: Vec<u8> = vec![
        0xca, 0xfe, 0xba, 0xbe, // FAT_MAGIC
        0x00, 0x00, 0x00, 0x01, // one architecture
        0x01, 0x00, 0x00, 0x0c, // cputype ARM64
        0x00, 0x00, 0x00, 0x00, // cpusubtype
        0x00, 0x00, 0x00, 0x1c, // offset
        0x00, 0x00, 0x00, 0x08, // size
        0x00, 0x00, 0x00, 0x03, // align
        0x00, 0x00, 0x00, 0x00, 0x00, 0x00, 0x00, 0x00, // slice bytes
    ];
    match parse_program(&bytes, MachineArch::X64) {
        Err(GoblinYaxError::Fat) => {}
        Err(e) => panic!("expected the fat-binary error, got: {}", e.message()),
        Ok(_) => panic!("expected the fat-binary error"),
    }
}

#[test]
fn avr_never_matches_a_fat_slice() {
    // AVR has no Mach-O CPU type at all.
    let bytes: Vec<u8> = vec![
        0xca, 0xfe, 0xba, 0xbe, 0x00, 0x00, 0x00, 0x01, 0x01, 0x00, 0x00, 0x0c, 0x00, 0x00, 0x00,
        0x00, 0x00, 0x00, 0x00, 0x1c, 0x00, 0x00, 0x00, 0x08, 0x00, 0x00, 0x00, 0x03, 0x00, 0x00,
        0x00, 0x00, 0x00, 0x00, 0x00, 0x00,
    ];
    match parse_program(&bytes, MachineArch::Avr) {
        Err(GoblinYaxError::Fat) => {}
        _ => panic!("expected the fat-binary error"),
    }
}

#[test]
fn unrecognised_container_is_reported() {
    let bytes = [0u8; 64];
    match parse_program(&bytes, MachineArch::Avr) {
        Err(GoblinYaxError::Unrecognized) | Err(GoblinYaxError::Goblin(_)) => {}
        Err(e) => panic!("unexpected error: {}", e.message()),
        Ok(_) => panic!("expected a rejection"),
    }
}

#[test]
fn demangling_rewrites_mangled_names() {
    let cpp = demangle("_ZN3fooEv");
    assert_ne!(cpp, "_ZN3fooEv");
    assert!(cpp.contains("foo"));
    let rust = demangle("_ZN4core3fmt9Arguments6new_v117h1d3a3f4b6f6e6d6aE");
    assert!(rust.contains("core") && rust.contains("fmt"));
    // A name neither demangler accepts stays as it is.
    assert_eq!(demangle("plain_name"), "plain_name");
}

#[test]
fn selector_with_different_mangled_names() {
    // The programs are keyed by demangled names, as the ingester builds
    // them; looking up the raw mangled name still finds the function.
    let foo = demangle("_ZN3fooEv");
    let bar = demangle("_ZN3barEv");
    let left = avr_program(&foo, &[0x08, 0x95]);
    let right = avr_program(&bar, &[0x08, 0x95]);
    let (has_diff, diffs) = compute_diff(
        &left,
        &right,
        FunctionName::Different("_ZN3fooEv".to_string(), "_ZN3barEv".to_string()),
    )
    .unwrap();
    assert!(!has_diff);
    assert_eq!(diffs.len(), 1);
    assert_eq!(diffs[0].left_name, foo);
    assert_eq!(diffs[0].right_name, bar);
    assert!(diffs[0].left_name.contains("foo"));
    assert!(diffs[0].right_name.contains("bar"));
}

#[test]
fn error_messages() {
    assert_eq!(
        GoblinYaxError::Fat.message(),
        "architecture is not present in FAT binary"
    );
    assert_eq!(GoblinYaxError::NoSym.message(), "symbol table is corrupt");
    assert_eq!(GoblinYaxError::Unrecognized.message(), "cannot parse file");
    assert_eq!(GoblinYaxError::Io("gone".to_string()).message(), "gone");
}

#[test]
fn elf_object_parses_into_named_functions() {
    // A minimal 64-bit ELF relocatable with one global function symbol
    // `main` covering a four-byte text section that holds AVR `nop; ret`.
    let bytes: Vec<u8> = vec![
        0x7f, 0x45, 0x4c, 0x46, 0x02, 0x01, 0x01, 0x00, 0x00, 0x00, 0x00, 0x00, 0x00, 0x00, 0x00, 0x00,
        0x01, 0x00, 0x53, 0x00, 0x01, 0x00, 0x00, 0x00, 0x00, 0x00, 0x00, 0x00, 0x00, 0x00, 0x00, 0x00,
        0x00, 0x00, 0x00, 0x00, 0x00, 0x00, 0x00, 0x00, 0xa0, 0x00, 0x00, 0x00, 0x00, 0x00, 0x00, 0x00,
        0x00, 0x00, 0x00, 0x00, 0x40, 0x00, 0x00, 0x00, 0x00, 0x00, 0x40, 0x00, 0x05, 0x00, 0x04, 0x00,
        0x00, 0x00, 0x08, 0x95, 0x00, 0x00, 0x00, 0x00, 0x00, 0x00, 0x00, 0x00, 0x00, 0x00, 0x00, 0x00,
        0x00, 0x00, 0x00, 0x00, 0x00, 0x00, 0x00, 0x00, 0x00, 0x00, 0x00, 0x00, 0x01, 0x00, 0x00, 0x00,
        0x12, 0x00, 0x01, 0x00, 0x00, 0x00, 0x00, 0x00, 0x00, 0x00, 0x00, 0x00, 0x04, 0x00, 0x00, 0x00,
        0x00, 0x00, 0x00, 0x00, 0x00, 0x6d, 0x61, 0x69, 0x6e, 0x00, 0x00, 0x2e, 0x74, 0x65, 0x78, 0x74,
        0x00, 0x2e, 0x73, 0x79, 0x6d, 0x74, 0x61, 0x62, 0x00, 0x2e, 0x73, 0x74, 0x72, 0x74, 0x61, 0x62,
        0x00, 0x2e, 0x73, 0x68, 0x73, 0x74, 0x72, 0x74, 0x61, 0x62, 0x00, 0x00, 0x00, 0x00, 0x00, 0x00,
        0x00, 0x00, 0x00, 0x00, 0x00, 0x00, 0x00, 0x00, 0x00, 0x00, 0x00, 0x00, 0x00, 0x00, 0x00, 0x00,
        0x00, 0x00, 0x00, 0x00, 0x00, 0x00, 0x00, 0x00, 0x00, 0x00, 0x00, 0x00, 0x00, 0x00, 0x00, 0x00,
        0x00, 0x00, 0x00, 0x00, 0x00, 0x00, 0x00, 0x00, 0x00, 0x00, 0x00, 0x00, 0x00, 0x00, 0x00, 0x00,
        0x00, 0x00, 0x00, 0x00, 0x00, 0x00, 0x00, 0x00, 0x00, 0x00, 0x00, 0x00, 0x00, 0x00, 0x00, 0x00,
        0x01, 0x00, 0x00, 0x00, 0x01, 0x00, 0x00, 0x00, 0x06, 0x00, 0x00, 0x00, 0x00, 0x00, 0x00, 0x00,
        0x00, 0x00, 0x00, 0x00, 0x00, 0x00, 0x00, 0x00, 0x40, 0x00, 0x00, 0x00, 0x00, 0x00, 0x00, 0x00,
        0x04, 0x00, 0x00, 0x00, 0x00, 0x00, 0x00, 0x00, 0x00, 0x00, 0x00, 0x00, 0x00, 0x00, 0x00, 0x00,
        0x01, 0x00, 0x00, 0x00, 0x00, 0x00, 0x00, 0x00, 0x00, 0x00, 0x00, 0x00, 0x00, 0x00, 0x00, 0x00,
        0x07, 0x00, 0x00, 0x00, 0x02, 0x00, 0x00, 0x00, 0x00, 0x00, 0x00, 0x00, 0x00, 0x00, 0x00, 0x00,
        0x00, 0x00, 0x00, 0x00, 0x00, 0x00, 0x00, 0x00, 0x44, 0x00, 0x00, 0x00, 0x00, 0x00, 0x00, 0x00,
        0x30, 0x00, 0x00, 0x00, 0x00, 0x00, 0x00, 0x00, 0x03, 0x00, 0x00, 0x00, 0x01, 0x00, 0x00, 0x00,
        0x08, 0x00, 0x00, 0x00, 0x00, 0x00, 0x00, 0x00, 0x18, 0x00, 0x00, 0x00, 0x00, 0x00, 0x00, 0x00,
        0x0f, 0x00, 0x00, 0x00, 0x03, 0x00, 0x00, 0x00, 0x00, 0x00, 0x00, 0x00, 0x00, 0x00, 0x00, 0x00,
        0x00, 0x00, 0x00, 0x00, 0x00, 0x00, 0x00, 0x00, 0x74, 0x00, 0x00, 0x00, 0x00, 0x00, 0x00, 0x00,
        0x06, 0x00, 0x00, 0x00, 0x00, 0x00, 0x00, 0x00, 0x00, 0x00, 0x00, 0x00, 0x00, 0x00, 0x00, 0x00,
        0x01, 0x00, 0x00, 0x00, 0x00, 0x00, 0x00, 0x00, 0x00, 0x00, 0x00, 0x00, 0x00, 0x00, 0x00, 0x00,
        0x17, 0x00, 0x00, 0x00, 0x03, 0x00, 0x00, 0x00, 0x00, 0x00, 0x00, 0x00, 0x00, 0x00, 0x00, 0x00,
        0x00, 0x00, 0x00, 0x00, 0x00, 0x00, 0x00, 0x00, 0x7a, 0x00, 0x00, 0x00, 0x00, 0x00, 0x00, 0x00,
        0x21, 0x00, 0x00, 0x00, 0x00, 0x00, 0x00, 0x00, 0x00, 0x00, 0x00, 0x00, 0x00, 0x00, 0x00, 0x00,
        0x01, 0x00, 0x00, 0x00, 0x00, 0x00, 0x00, 0x00, 0x00, 0x00, 0x00, 0x00, 0x00, 0x00, 0x00, 0x00,
    ];
    let p = parse_program(&bytes, MachineArch::Avr).unwrap();
    assert_eq!(p.functions().len(), 1);
    let f = p.get("main").expect("the symbol names the function");
    assert_eq!(f.name(), "main");
    assert_eq!(f.blocks().len(), 1);
    let b = &f.blocks()[0];
    assert_eq!(b.len(), 1);
    assert_eq!(b.get(0).render(), "nop");
    assert_eq!(b.terminator().as_ref().unwrap().render(), "ret");
}

#[test]
fn thin_macho_uses_segment_offsets_and_next_symbol() {
    // A minimal thin 64-bit Mach-O object: one segment holding one
    // instruction section of four bytes (two AVR `ret`s) and two symbols
    // `a` (value 0) and `b` (value 2).  `a` reaches the next symbol of its
    // section; `b` has no symbol after it, so it is dropped rather than
    // guessed at.
    let bytes: Vec<u8> = vec![
        0xcf, 0xfa, 0xed, 0xfe, 0x0c, 0x00, 0x00, 0x01, 0x00, 0x00, 0x00, 0x00, 0x01, 0x00, 0x00, 0x00,
        0x02, 0x00, 0x00, 0x00, 0xb0, 0x00, 0x00, 0x00, 0x00, 0x00, 0x00, 0x00, 0x00, 0x00, 0x00, 0x00,
        0x19, 0x00, 0x00, 0x00, 0x98, 0x00, 0x00, 0x00, 0x00, 0x00, 0x00, 0x00, 0x00, 0x00, 0x00, 0x00,
        0x00, 0x00, 0x00, 0x00, 0x00, 0x00, 0x00, 0x00, 0x00, 0x00, 0x00, 0x00, 0x00, 0x00, 0x00, 0x00,
        0x04, 0x00, 0x00, 0x00, 0x00, 0x00, 0x00, 0x00, 0xd0, 0x00, 0x00, 0x00, 0x00, 0x00, 0x00, 0x00,
        0x04, 0x00, 0x00, 0x00, 0x00, 0x00, 0x00, 0x00, 0x07, 0x00, 0x00, 0x00, 0x05, 0x00, 0x00, 0x00,
        0x01, 0x00, 0x00, 0x00, 0x00, 0x00, 0x00, 0x00, 0x5f, 0x5f, 0x74, 0x65, 0x78, 0x74, 0x00, 0x00,
        0x00, 0x00, 0x00, 0x00, 0x00, 0x00, 0x00, 0x00, 0x5f, 0x5f, 0x54, 0x45, 0x58, 0x54, 0x00, 0x00,
        0x00, 0x00, 0x00, 0x00, 0x00, 0x00, 0x00, 0x00, 0x00, 0x00, 0x00, 0x00, 0x00, 0x00, 0x00, 0x00,
        0x04, 0x00, 0x00, 0x00, 0x00, 0x00, 0x00, 0x00, 0xd0, 0x00, 0x00, 0x00, 0x00, 0x00, 0x00, 0x00,
        0x00, 0x00, 0x00, 0x00, 0x00, 0x00, 0x00, 0x00, 0x00, 0x04, 0x00, 0x80, 0x00, 0x00, 0x00, 0x00,
        0x00, 0x00, 0x00, 0x00, 0x00, 0x00, 0x00, 0x00, 0x02, 0x00, 0x00, 0x00, 0x18, 0x00, 0x00, 0x00,
        0xd4, 0x00, 0x00, 0x00, 0x02, 0x00, 0x00, 0x00, 0xf4, 0x00, 0x00, 0x00, 0x0d, 0x00, 0x00, 0x00,
        0x08, 0x95, 0x08, 0x95, 0x01, 0x00, 0x00, 0x00, 0x0f, 0x01, 0x00, 0x00, 0x00, 0x00, 0x00, 0x00,
        0x00, 0x00, 0x00, 0x00, 0x07, 0x00, 0x00, 0x00, 0x0f, 0x01, 0x00, 0x00, 0x02, 0x00, 0x00, 0x00,
        0x00, 0x00, 0x00, 0x00, 0x00, 0x61, 0x6c, 0x70, 0x68, 0x61, 0x00, 0x62, 0x72, 0x61, 0x76, 0x6f,
        0x00,
    ];
    let p = parse_program(&bytes, MachineArch::Avr).unwrap();
    assert_eq!(p.functions().len(), 1);
    let f = p.get("alpha").expect("the first symbol becomes a function");
    assert_eq!(f.blocks().len(), 1);
    assert_eq!(f.blocks()[0].len(), 0);
    assert_eq!(f.blocks()[0].terminator().as_ref().unwrap().render(), "ret");
    assert!(p.get("bravo").is_none());
}

#[test]
fn archive_members_are_ingested_in_turn() {
    // A Unix archive holding the minimal ELF object as its only member.
    let bytes: Vec<u8> = vec![
        0x21, 0x3c, 0x61, 0x72, 0x63, 0x68, 0x3e, 0x0a, 0x6d, 0x2e, 0x6f, 0x2f, 0x20, 0x20, 0x20, 0x20,
        0x20, 0x20, 0x20, 0x20, 0x20, 0x20, 0x20, 0x20, 0x30, 0x20, 0x20, 0x20, 0x20, 0x20, 0x20, 0x20,
        0x20, 0x20, 0x20, 0x20, 0x30, 0x20, 0x20, 0x20, 0x20, 0x20, 0x30, 0x20, 0x20, 0x20, 0x20, 0x20,
        0x31, 0x30, 0x30, 0x36, 0x34, 0x34, 0x20, 0x20, 0x34, 0x38, 0x30, 0x20, 0x20, 0x20, 0x20, 0x20,
        0x20, 0x20, 0x60, 0x0a, 0x7f, 0x45, 0x4c, 0x46, 0x02, 0x01, 0x01, 0x00, 0x00, 0x00, 0x00, 0x00,
        0x00, 0x00, 0x00, 0x00, 0x01, 0x00, 0x53, 0x00, 0x01, 0x00, 0x00, 0x00, 0x00, 0x00, 0x00, 0x00,
        0x00, 0x00, 0x00, 0x00, 0x00, 0x00, 0x00, 0x00, 0x00, 0x00, 0x00, 0x00, 0xa0, 0x00, 0x00, 0x00,
        0x00, 0x00, 0x00, 0x00, 0x00, 0x00, 0x00, 0x00, 0x40, 0x00, 0x00, 0x00, 0x00, 0x00, 0x40, 0x00,
        0x05, 0x00, 0x04, 0x00, 0x00, 0x00, 0x08, 0x95, 0x00, 0x00, 0x00, 0x00, 0x00, 0x00, 0x00, 0x00,
        0x00, 0x00, 0x00, 0x00, 0x00, 0x00, 0x00, 0x00, 0x00, 0x00, 0x00, 0x00, 0x00, 0x00, 0x00, 0x00,
        0x01, 0x00, 0x00, 0x00, 0x12, 0x00, 0x01, 0x00, 0x00, 0x00, 0x00, 0x00, 0x00, 0x00, 0x00, 0x00,
        0x04, 0x00, 0x00, 0x00, 0x00, 0x00, 0x00, 0x00, 0x00, 0x6d, 0x61, 0x69, 0x6e, 0x00, 0x00, 0x2e,
        0x74, 0x65, 0x78, 0x74, 0x00, 0x2e, 0x73, 0x79, 0x6d, 0x74, 0x61, 0x62, 0x00, 0x2e, 0x73, 0x74,
        0x72, 0x74, 0x61, 0x62, 0x00, 0x2e, 0x73, 0x68, 0x73, 0x74, 0x72, 0x74, 0x61, 0x62, 0x00, 0x00,
        0x00, 0x00, 0x00, 0x00, 0x00, 0x00, 0x00, 0x00, 0x00, 0x00, 0x00, 0x00, 0x00, 0x00, 0x00, 0x00,
        0x00, 0x00, 0x00, 0x00, 0x00, 0x00, 0x00, 0x00, 0x00, 0x00, 0x00, 0x00, 0x00, 0x00, 0x00, 0x00,
        0x00, 0x00, 0x00, 0x00, 0x00, 0x00, 0x00, 0x00, 0x00, 0x00, 0x00, 0x00, 0x00, 0x00, 0x00, 0x00,
        0x00, 0x00, 0x00, 0x00, 0x00, 0x00, 0x00, 0x00, 0x00, 0x00, 0x00, 0x00, 0x00, 0x00, 0x00, 0x00,
        0x00, 0x00, 0x00, 0x00, 0x01, 0x00, 0x00, 0x00, 0x01, 0x00, 0x00, 0x00, 0x06, 0x00, 0x00, 0x00,
        0x00, 0x00, 0x00, 0x00, 0x00, 0x00, 0x00, 0x00, 0x00, 0x00, 0x00, 0x00, 0x40, 0x00, 0x00, 0x00,
        0x00, 0x00, 0x00, 0x00, 0x04, 0x00, 0x00, 0x00, 0x00, 0x00, 0x00, 0x00, 0x00, 0x00, 0x00, 0x00,
        0x00, 0x00, 0x00, 0x00, 0x01, 0x00, 0x00, 0x00, 0x00, 0x00, 0x00, 0x00, 0x00, 0x00, 0x00, 0x00,
        0x00, 0x00, 0x00, 0x00, 0x07, 0x00, 0x00, 0x00, 0x02, 0x00, 0x00, 0x00, 0x00, 0x00, 0x00, 0x00,
        0x00, 0x00, 0x00, 0x00, 0x00, 0x00, 0x00, 0x00, 0x00, 0x00, 0x00, 0x00, 0x44, 0x00, 0x00, 0x00,
        0x00, 0x00, 0x00, 0x00, 0x30, 0x00, 0x00, 0x00, 0x00, 0x00, 0x00, 0x00, 0x03, 0x00, 0x00, 0x00,
        0x01, 0x00, 0x00, 0x00, 0x08, 0x00, 0x00, 0x00, 0x00, 0x00, 0x00, 0x00, 0x18, 0x00, 0x00, 0x00,
        0x00, 0x00, 0x00, 0x00, 0x0f, 0x00, 0x00, 0x00, 0x03, 0x00, 0x00, 0x00, 0x00, 0x00, 0x00, 0x00,
        0x00, 0x00, 0x00, 0x00, 0x00, 0x00, 0x00, 0x00, 0x00, 0x00, 0x00, 0x00, 0x74, 0x00, 0x00, 0x00,
        0x00, 0x00, 0x00, 0x00, 0x06, 0x00, 0x00, 0x00, 0x00, 0x00, 0x00, 0x00, 0x00, 0x00, 0x00, 0x00,
        0x00, 0x00, 0x00, 0x00, 0x01, 0x00, 0x00, 0x00, 0x00, 0x00, 0x00, 0x00, 0x00, 0x00, 0x00, 0x00,
        0x00, 0x00, 0x00, 0x00, 0x17, 0x00, 0x00, 0x00, 0x03, 0x00, 0x00, 0x00, 0x00, 0x00, 0x00, 0x00,
        0x00, 0x00, 0x00, 0x00, 0x00, 0x00, 0x00, 0x00, 0x00, 0x00, 0x00, 0x00, 0x7a, 0x00, 0x00, 0x00,
        0x00, 0x00, 0x00, 0x00, 0x21, 0x00, 0x00, 0x00, 0x00, 0x00, 0x00, 0x00, 0x00, 0x00, 0x00, 0x00,
        0x00, 0x00, 0x00, 0x00, 0x01, 0x00, 0x00, 0x00, 0x00, 0x00, 0x00, 0x00, 0x00, 0x00, 0x00, 0x00,
        0x00, 0x00, 0x00, 0x00,
    ];
    let p = parse_program(&bytes, MachineArch::Avr).unwrap();
    assert_eq!(p.functions().len(), 1);
    let f = p.get("main").unwrap();
    assert_eq!(f.blocks().len(), 1);
    assert_eq!(f.blocks()[0].get(0).render(), "nop");
}

#[test]
fn truncated_elf_reports_the_parser_message() {
    let bytes = [0x7f, 0x45, 0x4c, 0x46, 0x02, 0x01, 0x01, 0x00];
    match parse_program(&bytes, MachineArch::Avr) {
        Err(GoblinYaxError::Goblin(_)) => {}
        Err(e) => panic!("unexpected error: {}", e.message()),
        Ok(_) => panic!("expected a container error"),
    }
}

#[test]
fn function_symbol_with_bad_section_marks_symbols_corrupt() {
    // The same minimal ELF, with the function symbol pointing at section 9
    // of 5: the symbol table is corrupt.
    let bytes: Vec<u8> = vec![
        0x7f, 0x45, 0x4c, 0x46, 0x02, 0x01, 0x01, 0x00, 0x00, 0x00, 0x00, 0x00, 0x00, 0x00, 0x00, 0x00,
        0x01, 0x00, 0x53, 0x00, 0x01, 0x00, 0x00, 0x00, 0x00, 0x00, 0x00, 0x00, 0x00, 0x00, 0x00, 0x00,
        0x00, 0x00, 0x00, 0x00, 0x00, 0x00, 0x00, 0x00, 0xa0, 0x00, 0x00, 0x00, 0x00, 0x00, 0x00, 0x00,
        0x00, 0x00, 0x00, 0x00, 0x40, 0x00, 0x00, 0x00, 0x00, 0x00, 0x40, 0x00, 0x05, 0x00, 0x04, 0x00,
        0x00, 0x00, 0x08, 0x95, 0x00, 0x00, 0x00, 0x00, 0x00, 0x00, 0x00, 0x00, 0x00, 0x00, 0x00, 0x00,
        0x00, 0x00, 0x00, 0x00, 0x00, 0x00, 0x00, 0x00, 0x00, 0x00, 0x00, 0x00, 0x01, 0x00, 0x00, 0x00,
        0x12, 0x00, 0x09, 0x00, 0x00, 0x00, 0x00, 0x00, 0x00, 0x00, 0x00, 0x00, 0x04, 0x00, 0x00, 0x00,
        0x00, 0x00, 0x00, 0x00, 0x00, 0x6d, 0x61, 0x69, 0x6e, 0x00, 0x00, 0x2e, 0x74, 0x65, 0x78, 0x74,
        0x00, 0x2e, 0x73, 0x79, 0x6d, 0x74, 0x61, 0x62, 0x00, 0x2e, 0x73, 0x74, 0x72, 0x74, 0x61, 0x62,
        0x00, 0x2e, 0x73, 0x68, 0x73, 0x74, 0x72, 0x74, 0x61, 0x62, 0x00, 0x00, 0x00, 0x00, 0x00, 0x00,
        0x00, 0x00, 0x00, 0x00, 0x00, 0x00, 0x00, 0x00, 0x00, 0x00, 0x00, 0x00, 0x00, 0x00, 0x00, 0x00,
        0x00, 0x00, 0x00, 0x00, 0x00, 0x00, 0x00, 0x00, 0x00, 0x00, 0x00, 0x00, 0x00, 0x00, 0x00, 0x00,
        0x00, 0x00, 0x00, 0x00, 0x00, 0x00, 0x00, 0x00, 0x00, 0x00, 0x00, 0x00, 0x00, 0x00, 0x00, 0x00,
        0x00, 0x00, 0x00, 0x00, 0x00, 0x00, 0x00, 0x00, 0x00, 0x00, 0x00, 0x00, 0x00, 0x00, 0x00, 0x00,
        0x01, 0x00, 0x00, 0x00, 0x01, 0x00, 0x00, 0x00, 0x06, 0x00, 0x00, 0x00, 0x00, 0x00, 0x00, 0x00,
        0x00, 0x00, 0x00, 0x00, 0x00, 0x00, 0x00, 0x00, 0x40, 0x00, 0x00, 0x00, 0x00, 0x00, 0x00, 0x00,
        0x04, 0x00, 0x00, 0x00, 0x00, 0x00, 0x00, 0x00, 0x00, 0x00, 0x00, 0x00, 0x00, 0x00, 0x00, 0x00,
        0x01, 0x00, 0x00, 0x00, 0x00, 0x00, 0x00, 0x00, 0x00, 0x00, 0x00, 0x00, 0x00, 0x00, 0x00, 0x00,
        0x07, 0x00, 0x00, 0x00, 0x02, 0x00, 0x00, 0x00, 0x00, 0x00, 0x00, 0x00, 0x00, 0x00, 0x00, 0x00,
        0x00, 0x00, 0x00, 0x00, 0x00, 0x00, 0x00, 0x00, 0x44, 0x00, 0x00, 0x00, 0x00, 0x00, 0x00, 0x00,
        0x30, 0x00, 0x00, 0x00, 0x00, 0x00, 0x00, 0x00, 0x03, 0x00, 0x00, 0x00, 0x01, 0x00, 0x00, 0x00,
        0x08, 0x00, 0x00, 0x00, 0x00, 0x00, 0x00, 0x00, 0x18, 0x00, 0x00, 0x00, 0x00, 0x00, 0x00, 0x00,
        0x0f, 0x00, 0x00, 0x00, 0x03, 0x00, 0x00, 0x00, 0x00, 0x00, 0x00, 0x00, 0x00, 0x00, 0x00, 0x00,
        0x00, 0x00, 0x00, 0x00, 0x00, 0x00, 0x00, 0x00, 0x74, 0x00, 0x00, 0x00, 0x00, 0x00, 0x00, 0x00,
        0x06, 0x00, 0x00, 0x00, 0x00, 0x00, 0x00, 0x00, 0x00, 0x00, 0x00, 0x00, 0x00, 0x00, 0x00, 0x00,
        0x01, 0x00, 0x00, 0x00, 0x00, 0x00, 0x00, 0x00, 0x00, 0x00, 0x00, 0x00, 0x00, 0x00, 0x00, 0x00,
        0x17, 0x00, 0x00, 0x00, 0x03, 0x00, 0x00, 0x00, 0x00, 0x00, 0x00, 0x00, 0x00, 0x00, 0x00, 0x00,
        0x00, 0x00, 0x00, 0x00, 0x00, 0x00, 0x00, 0x00, 0x7a, 0x00, 0x00, 0x00, 0x00, 0x00, 0x00, 0x00,
        0x21, 0x00, 0x00, 0x00, 0x00, 0x00, 0x00, 0x00, 0x00, 0x00, 0x00, 0x00, 0x00, 0x00, 0x00, 0x00,
        0x01, 0x00, 0x00, 0x00, 0x00, 0x00, 0x00, 0x00, 0x00, 0x00, 0x00, 0x00, 0x00, 0x00, 0x00, 0x00,
    ];
    match parse_program(&bytes, MachineArch::Avr) {
        Err(GoblinYaxError::NoSym) => {}
        Err(e) => panic!("unexpected error: {}", e.message()),
        Ok(_) => panic!("expected the corrupt-symbol error"),
    }
}

#[test]
fn return_instructions_close_blocks_on_every_architecture() {
    // One return instruction per instruction set; each decodes into a single
    // block with an empty body, closed by a flow-control terminator.
    let cases: Vec<(MachineArch, Vec<u8>)> = vec![
        (MachineArch::Arm64, vec![0xc0, 0x03, 0x5f, 0xd6]), // ret
        (MachineArch::Arm32, vec![0x1e, 0xff, 0x2f, 0xe1]), // bx lr
        (MachineArch::Avr, vec![0x08, 0x95]),               // ret
        (MachineArch::X86, vec![0xc3]),                     // ret
        (MachineArch::X64, vec![0xc3]),                     // ret
    ];
    for (arch, bytes) in cases {
        let blocks = decode_function(&bytes, 0, bytes.len() as u64, arch).unwrap();
        assert_eq!(blocks.len(), 1);
        assert_eq!(blocks[0].len(), 0);
        assert!(blocks[0].terminator().is_some());
    }
}
