use ctflgrdifflib::format::{parse_format, Format, MachineArch};

#[test]
fn unknown_format_is_rejected() {
    assert!(parse_format("blorg").is_none());
    assert!(parse_format("").is_none());
    assert!(parse_format("ARM64").is_none());
}

#[test]
fn bitcode_tags() {
    assert_eq!(parse_format("ll"), Some(Format::Bitcode { textual: true }));
    assert_eq!(parse_format("ll-ir"), Some(Format::Bitcode { textual: true }));
    assert_eq!(parse_format("llir"), Some(Format::Bitcode { textual: true }));
    assert_eq!(parse_format("ll-bc"), Some(Format::Bitcode { textual: false }));
    assert_eq!(parse_format("llbc"), Some(Format::Bitcode { textual: false }));
}

#[test]
fn machine_tags() {
    for tag in ["arm64", "aarch64", "armv8"] {
        assert_eq!(parse_format(tag), Some(Format::Machine(MachineArch::Arm64)));
    }
    for tag in ["arm32", "aarch32", "armv7"] {
        assert_eq!(parse_format(tag), Some(Format::Machine(MachineArch::Arm32)));
    }
    assert_eq!(parse_format("avr"), Some(Format::Machine(MachineArch::Avr)));
    for tag in ["x86", "x86-32", "x86_32", "i386", "i686"] {
        assert_eq!(parse_format(tag), Some(Format::Machine(MachineArch::X86)));
    }
    for tag in ["x64", "x86-64", "x86_64"] {
        assert_eq!(parse_format(tag), Some(Format::Machine(MachineArch::X64)));
    }
}
