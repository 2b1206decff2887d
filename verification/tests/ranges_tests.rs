use ctflgrdifflib::goblin_yax::{
    elf_ranges, mach_export_ranges, mach_sym_ranges, pe_ranges, ElfSection, ElfSym,
    GoblinYaxError, MachExport, MachSeg, MachSym, PeExport,
};

fn pe(name: Option<&str>, offset: Option<u64>) -> PeExport {
    PeExport {
        name: name.map(|n| n.to_string()),
        offset,
    }
}

#[test]
fn pe_function_reaches_the_next_export() {
    let rows = vec![pe(Some("f"), Some(0x400)), pe(Some("g"), Some(0x410)), pe(
        Some("h"),
        Some(0x4f0),
    )];
    let ranges = pe_ranges(&rows);
    // `h` has no export after it and is dropped rather than guessed at.
    assert_eq!(ranges.len(), 2);
    assert_eq!(ranges[0].name, "f");
    assert_eq!(ranges[0].start, 0x400);
    assert_eq!(ranges[0].end, 0x410);
    assert_eq!(ranges[1].name, "g");
    assert_eq!(ranges[1].start, 0x410);
    assert_eq!(ranges[1].end, 0x4f0);
}

#[test]
fn pe_exports_without_name_or_offset_are_skipped() {
    let rows = vec![pe(None, Some(0x100)), pe(Some("f"), None), pe(Some("g"), Some(0x100)), pe(
        None,
        Some(0x200),
    )];
    let ranges = pe_ranges(&rows);
    // Only `g` qualifies; the anonymous export above it still bounds it.
    assert_eq!(ranges.len(), 1);
    assert_eq!(ranges[0].name, "g");
    assert_eq!(ranges[0].end, 0x200);
}

#[test]
fn elf_offsets_subtract_the_load_address() {
    let rows = vec![ElfSym {
        name: Some("f".to_string()),
        value: 0x1010,
        size: 8,
        shndx: 1,
        func: true,
    }];
    let secs = vec![
        ElfSection { offset: 0, addr: 0 },
        ElfSection {
            offset: 0x200,
            addr: 0x1000,
        },
    ];
    let ranges = elf_ranges(&rows, &secs).unwrap();
    assert_eq!(ranges.len(), 1);
    assert_eq!(ranges[0].start, 0x210);
    assert_eq!(ranges[0].end, 0x218);
}

#[test]
fn elf_non_functions_and_empty_symbols_are_ignored() {
    let rows = vec![
        ElfSym {
            name: Some("d".to_string()),
            value: 0,
            size: 4,
            shndx: 0,
            func: false,
        },
        ElfSym {
            name: Some("z".to_string()),
            value: 0,
            size: 0,
            shndx: 0,
            func: true,
        },
    ];
    let secs = vec![ElfSection { offset: 0, addr: 0 }];
    let ranges = elf_ranges(&rows, &secs).unwrap();
    assert_eq!(ranges.len(), 0);
}

#[test]
fn elf_nameless_function_symbol_is_an_error() {
    let rows = vec![ElfSym {
        name: None,
        value: 0,
        size: 4,
        shndx: 0,
        func: true,
    }];
    let secs = vec![ElfSection { offset: 0, addr: 0 }];
    match elf_ranges(&rows, &secs) {
        Err(GoblinYaxError::NoSym) => {}
        _ => panic!("expected the corrupt-symbol error"),
    }
}

#[test]
fn mach_section_indices_span_segments() {
    // Two segments of two sections each: section index 3 (1-based 4) lands
    // in the second segment, whose file offset places the symbol.
    let segs = vec![
        MachSeg {
            fileoff: 0x100,
            nsects: 2,
            flags: vec![0x80000000, 0],
        },
        MachSeg {
            fileoff: 0x900,
            nsects: 2,
            flags: vec![0, 0x400],
        },
    ];
    let syms = vec![
        MachSym {
            name: "far".to_string(),
            n_sect: 4,
            n_value: 0x10,
        },
        MachSym {
            name: "after".to_string(),
            n_sect: 4,
            n_value: 0x20,
        },
    ];
    let ranges = mach_sym_ranges(&syms, &segs);
    // `far` reaches `after`; `after` has no later symbol and is dropped.
    assert_eq!(ranges.len(), 1);
    assert_eq!(ranges[0].name, "far");
    assert_eq!(ranges[0].start, 0x910);
    assert_eq!(ranges[0].end, 0x920);
}

#[test]
fn mach_sections_without_instructions_drop_their_symbols() {
    let segs = vec![MachSeg {
        fileoff: 0x100,
        nsects: 1,
        flags: vec![0],
    }];
    let syms = vec![
        MachSym {
            name: "data".to_string(),
            n_sect: 1,
            n_value: 0,
        },
        MachSym {
            name: "more".to_string(),
            n_sect: 1,
            n_value: 8,
        },
    ];
    assert_eq!(mach_sym_ranges(&syms, &segs).len(), 0);
}

#[test]
fn mach_symbols_without_a_section_are_skipped() {
    let segs = vec![MachSeg {
        fileoff: 0,
        nsects: 1,
        flags: vec![0x400],
    }];
    let syms = vec![MachSym {
        name: "undef".to_string(),
        n_sect: 0,
        n_value: 0,
    }];
    assert_eq!(mach_sym_ranges(&syms, &segs).len(), 0);
}

#[test]
fn mach_exports_carry_their_own_sizes() {
    let rows = vec![MachExport {
        name: "e".to_string(),
        offset: 0x40,
        size: 0x10,
    }];
    let ranges = mach_export_ranges(&rows);
    assert_eq!(ranges.len(), 1);
    assert_eq!(ranges[0].start, 0x40);
    assert_eq!(ranges[0].end, 0x50);
}
