//! The format dispatcher: a pure mapping from a textual format tag to the
//! ingester configuration it selects.

use vstd::prelude::*;
use crate::util::str_eq;

verus! {

/// The instruction sets the machine-code ingester can decode.
#[derive(Clone, Copy, PartialEq, Eq, Structural, Debug)]
pub enum MachineArch {
    /// 64-bit ARM (a64).
    Arm64,
    /// 32-bit ARM (ARMv7).
    Arm32,
    /// 8-bit AVR.
    Avr,
    /// 32-bit x86 (protected mode).
    X86,
    /// 64-bit x86 (long mode).
    X64,
}

/// What a format tag selects: compiler bitcode, or machine code of one
/// instruction set.
#[derive(Clone, Copy, PartialEq, Eq, Structural, Debug)]
pub enum Format {
    /// Compiler bitcode; the flag is true for the textual form.
    Bitcode { textual: bool },
    /// A machine-code object of the given instruction set.
    Machine(MachineArch),
}

/// The format a tag selects, if any.  Tags are case-sensitive.
pub open spec fn spec_format(tag: Seq<char>) -> Option<Format> {
    if tag == "ll"@ || tag == "ll-ir"@ || tag == "llir"@ {
        Some(Format::Bitcode { textual: true })
    } else if tag == "ll-bc"@ || tag == "llbc"@ {
        Some(Format::Bitcode { textual: false })
    } else if tag == "arm64"@ || tag == "aarch64"@ || tag == "armv8"@ {
        Some(Format::Machine(MachineArch::Arm64))
    } else if tag == "arm32"@ || tag == "aarch32"@ || tag == "armv7"@ {
        Some(Format::Machine(MachineArch::Arm32))
    } else if tag == "avr"@ {
        Some(Format::Machine(MachineArch::Avr))
    } else if tag == "x86"@ || tag == "x86-32"@ || tag == "x86_32"@ || tag == "i386"@ || tag
        == "i686"@ {
        Some(Format::Machine(MachineArch::X86))
    } else if tag == "x64"@ || tag == "x86-64"@ || tag == "x86_64"@ {
        Some(Format::Machine(MachineArch::X64))
    } else {
        None
    }
}

/// Map a textual format tag to what it selects; an unknown tag selects
/// nothing.
pub fn parse_format(tag: &str) -> (r: Option<Format>)
    ensures
        r == spec_format(tag@),
{
    if str_eq(tag, "ll") || str_eq(tag, "ll-ir") || str_eq(tag, "llir") {
        Some(Format::Bitcode { textual: true })
    } else if str_eq(tag, "ll-bc") || str_eq(tag, "llbc") {
        Some(Format::Bitcode { textual: false })
    } else if str_eq(tag, "arm64") || str_eq(tag, "aarch64") || str_eq(tag, "armv8") {
        Some(Format::Machine(MachineArch::Arm64))
    } else if str_eq(tag, "arm32") || str_eq(tag, "aarch32") || str_eq(tag, "armv7") {
        Some(Format::Machine(MachineArch::Arm32))
    } else if str_eq(tag, "avr") {
        Some(Format::Machine(MachineArch::Avr))
    } else if str_eq(tag, "x86") || str_eq(tag, "x86-32") || str_eq(tag, "x86_32") || str_eq(
        tag,
        "i386",
    ) || str_eq(tag, "i686") {
        Some(Format::Machine(MachineArch::X86))
    } else if str_eq(tag, "x64") || str_eq(tag, "x86-64") || str_eq(tag, "x86_64") {
        Some(Format::Machine(MachineArch::X64))
    } else {
        None
    }
}

} // verus!
