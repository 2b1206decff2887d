//! The machine-code ingester: reads a byte buffer, identifies the container
//! (ELF, PE, Mach-O thin or fat, archive), enumerates function symbols with
//! their byte ranges, decodes each range linearly and splits it on
//! flow-control instructions into basic blocks.
//!
//! The container parser and the per-architecture decoders are outside
//! libraries; each is consulted through a small trusted wrapper that hands
//! back plain values, and everything done with those values — offset
//! arithmetic, length heuristics, block splitting, program assembly — is
//! verified.

use vstd::prelude::*;
use crate::format::MachineArch;
use crate::model::{BasicBlock, Function, Instruction, Program};
use crate::util::{str_eq, spec_u64_string, u64_to_string};

verus! {

/// An error produced while ingesting a machine-code artifact.
#[derive(Debug)]
pub enum GoblinYaxError {
    /// The requested architecture is not present in a fat binary.
    Fat,
    /// The container structure is invalid; carries the parser's message.
    Goblin(String),
    /// The input file could not be read; carries the I/O message.
    Io(String),
    /// The symbol table is corrupt or missing.
    NoSym,
    /// The container type is not supported.
    Unrecognized,
    /// The instruction decoder rejected a byte sequence; carries its message.
    Yax(String),
}

/// The mathematical content of an ingest error: the same cases, messages as
/// character sequences.
pub enum GoblinYaxErrorModel {
    /// The requested architecture is not present in a fat binary.
    Fat,
    /// The container structure is invalid; carries the parser's message.
    Goblin(Seq<char>),
    /// The input file could not be read; carries the I/O message.
    Io(Seq<char>),
    /// The symbol table is corrupt or missing.
    NoSym,
    /// The container type is not supported.
    Unrecognized,
    /// The instruction decoder rejected a byte sequence; carries its message.
    Yax(Seq<char>),
}

impl View for GoblinYaxError {
    type V = GoblinYaxErrorModel;

    open spec fn view(&self) -> GoblinYaxErrorModel {
        match self {
            GoblinYaxError::Fat => GoblinYaxErrorModel::Fat,
            GoblinYaxError::Goblin(m) => GoblinYaxErrorModel::Goblin(m@),
            GoblinYaxError::Io(m) => GoblinYaxErrorModel::Io(m@),
            GoblinYaxError::NoSym => GoblinYaxErrorModel::NoSym,
            GoblinYaxError::Unrecognized => GoblinYaxErrorModel::Unrecognized,
            GoblinYaxError::Yax(m) => GoblinYaxErrorModel::Yax(m@),
        }
    }
}

impl GoblinYaxError {
    /// The message shown to the user for this error.
    pub fn message(&self) -> (r: String)
        ensures
            *self == GoblinYaxError::Fat ==> r@ == "architecture is not present in FAT binary"@,
            *self == GoblinYaxError::NoSym ==> r@ == "symbol table is corrupt"@,
            *self == GoblinYaxError::Unrecognized ==> r@ == "cannot parse file"@,
            self matches GoblinYaxError::Goblin(m) ==> r@ == m@,
            self matches GoblinYaxError::Io(m) ==> r@ == m@,
            self matches GoblinYaxError::Yax(m) ==> r@ == m@,
    {
        match self {
            GoblinYaxError::Fat => "architecture is not present in FAT binary".to_owned(),
            GoblinYaxError::Goblin(m) => m.clone(),
            GoblinYaxError::Io(m) => m.clone(),
            GoblinYaxError::NoSym => "symbol table is corrupt".to_owned(),
            GoblinYaxError::Unrecognized => "cannot parse file".to_owned(),
            GoblinYaxError::Yax(m) => m.clone(),
        }
    }
}

/// The kind of container a byte buffer holds.
pub enum ObjKind {
    /// An ELF object or executable.
    Elf,
    /// A PE image.
    Pe,
    /// A thin Mach-O binary.
    MachThin,
    /// A fat Mach-O container.
    MachFat,
    /// A Unix archive.
    Archive,
    /// A container the parser recognises but this ingester does not support.
    Other,
    /// Not a recognised container.
    Unknown,
    /// The parser rejected the buffer; carries its message.
    Bad(String),
}

/// One symbol row of an ELF symbol table, with its name already resolved
/// against the matching string table.
pub struct ElfSym {
    /// The resolved name, where the string table holds one.
    pub name: Option<String>,
    /// The symbol's value (an address).
    pub value: u64,
    /// The symbol's size in bytes.
    pub size: u64,
    /// The index of the section the symbol lives in.
    pub shndx: usize,
    /// Whether the symbol table flags this symbol as a function.
    pub func: bool,
}

/// One section header row of an ELF file.
pub struct ElfSection {
    /// The section's file offset.
    pub offset: u64,
    /// The section's load address.
    pub addr: u64,
}

/// One export row of a PE image.
pub struct PeExport {
    /// The export's name, if it has one.
    pub name: Option<String>,
    /// The export's file offset, if known.
    pub offset: Option<u64>,
}

/// One symbol row of a Mach-O symbol table.
pub struct MachSym {
    /// The symbol's name.
    pub name: String,
    /// The 1-based index of the section the symbol lives in; 0 means none.
    pub n_sect: usize,
    /// The symbol's value (an offset inside its segment).
    pub n_value: u64,
}

/// One segment row of a Mach-O binary.
pub struct MachSeg {
    /// The segment's file offset.
    pub fileoff: u64,
    /// How many sections the segment header declares.
    pub nsects: u32,
    /// The flags of each section that could be read.
    pub flags: Vec<u32>,
}

/// One export row of a Mach-O binary.
pub struct MachExport {
    /// The export's name.
    pub name: String,
    /// The export's file offset.
    pub offset: u64,
    /// The export's size in bytes.
    pub size: u64,
}

/// One member row of a Unix archive.
pub struct ArMember {
    /// The member's file offset from the start of the archive.
    pub offset: u64,
    /// The member's size in bytes.
    pub size: u64,
}

/// One decoded machine instruction, as plain values: the opcode identity
/// tag, the rendered text, and how many bytes the instruction occupies.
pub struct RawInst {
    /// The opcode identity: two instructions of one architecture have equal
    /// tags exactly when the decoder reports the same opcode.
    pub tag: String,
    /// The rendered instruction.
    pub text: String,
    /// The encoded length in bytes.
    pub len: usize,
}

/// What the container parser makes of a byte buffer.  Every parse below is
/// a function of the bytes (and offset) alone.
pub uninterp spec fn classification_of(bytes: Seq<u8>) -> ObjKind;

/// The ELF symbol rows read from a byte buffer (dynamic symbols first), or
/// the parser's message.
pub uninterp spec fn elf_symbols_of(bytes: Seq<u8>) -> Result<Seq<ElfSym>, String>;

/// The ELF section header rows read from a byte buffer, or the parser's
/// message.
pub uninterp spec fn elf_sections_of(bytes: Seq<u8>) -> Result<Seq<ElfSection>, String>;

/// The PE export rows read from a byte buffer, or the parser's message.
pub uninterp spec fn pe_exports_of(bytes: Seq<u8>) -> Result<Seq<PeExport>, String>;

/// The Mach-O symbol rows read at an offset of a byte buffer, or the
/// parser's message.
pub uninterp spec fn mach_symbols_of(bytes: Seq<u8>, offset: int) -> Result<Seq<MachSym>, String>;

/// The Mach-O segment rows read at an offset of a byte buffer, or the
/// parser's message.
pub uninterp spec fn mach_segments_of(bytes: Seq<u8>, offset: int) -> Result<Seq<MachSeg>, String>;

/// The Mach-O export rows read at an offset of a byte buffer, or the
/// parser's message.
pub uninterp spec fn mach_exports_of(bytes: Seq<u8>, offset: int) -> Result<
    Seq<MachExport>,
    String,
>;

/// The file offset of the fat Mach-O slice for a CPU type, if the container
/// carries one, or the parser's message.
pub uninterp spec fn fat_slice_of(bytes: Seq<u8>, cputype: u32) -> Result<Option<u64>, String>;

/// The archive member rows read from a byte buffer, or the parser's message.
pub uninterp spec fn archive_members_of(bytes: Seq<u8>) -> Result<Seq<ArMember>, String>;

/// What the a64 decoder makes of the first instruction of a byte buffer.
pub uninterp spec fn arm64_inst_of(buf: Seq<u8>) -> Result<RawInst, String>;

/// What the ARMv7 decoder makes of the first instruction of a byte buffer.
pub uninterp spec fn arm32_inst_of(buf: Seq<u8>) -> Result<RawInst, String>;

/// What the AVR decoder makes of the first instruction of a byte buffer.
pub uninterp spec fn avr_inst_of(buf: Seq<u8>) -> Result<RawInst, String>;

/// What the protected-mode x86 decoder makes of the first instruction of a
/// byte buffer.
pub uninterp spec fn x86_inst_of(buf: Seq<u8>) -> Result<RawInst, String>;

/// What the long-mode x86 decoder makes of the first instruction of a byte
/// buffer.
pub uninterp spec fn x64_inst_of(buf: Seq<u8>) -> Result<RawInst, String>;

/// Relies on goblin::Object::parse: tells the container kinds apart.
#[verifier::external_body]
fn classify(bytes: &[u8]) -> (r: ObjKind)
    ensures
        r == classification_of(bytes@),
{
    match goblin::Object::parse(bytes) {
        Ok(goblin::Object::Elf(_)) => ObjKind::Elf,
        Ok(goblin::Object::PE(_)) => ObjKind::Pe,
        Ok(goblin::Object::Mach(goblin::mach::Mach::Binary(_))) => ObjKind::MachThin,
        Ok(goblin::Object::Mach(goblin::mach::Mach::Fat(_))) => ObjKind::MachFat,
        Ok(goblin::Object::Archive(_)) => ObjKind::Archive,
        Ok(goblin::Object::Unknown(_)) => ObjKind::Unknown,
        Ok(_) => ObjKind::Other,
        Err(e) => ObjKind::Bad(format!("{}", e)),
    }
}

/// Relies on goblin::elf::Elf::parse and its symbol and string tables: hands
/// out the dynamic-symbol rows followed by the regular-symbol rows.
#[verifier::external_body]
fn elf_symbol_rows(bytes: &[u8]) -> (r: Result<Vec<ElfSym>, String>)
    ensures
        match r {
            Ok(v) => elf_symbols_of(bytes@) == Ok::<Seq<ElfSym>, String>(v@),
            Err(m) => elf_symbols_of(bytes@) == Err::<Seq<ElfSym>, String>(m),
        },
{
    let elf = goblin::elf::Elf::parse(bytes).map_err(|e| format!("{}", e))?;
    let dyns = elf.dynsyms.iter().map(|s| ElfSym {
        name: elf.dynstrtab.get_at(s.st_name).map(str::to_string),
        value: s.st_value, size: s.st_size, shndx: s.st_shndx, func: s.is_function(),
    });
    let syms = elf.syms.iter().map(|s| ElfSym {
        name: elf.strtab.get_at(s.st_name).map(str::to_string),
        value: s.st_value, size: s.st_size, shndx: s.st_shndx, func: s.is_function(),
    });
    Ok(dyns.chain(syms).collect())
}

/// Relies on goblin::elf::Elf::parse: hands out each section header's file
/// offset and load address.
#[verifier::external_body]
fn elf_section_rows(bytes: &[u8]) -> (r: Result<Vec<ElfSection>, String>)
    ensures
        match r {
            Ok(v) => elf_sections_of(bytes@) == Ok::<Seq<ElfSection>, String>(v@),
            Err(m) => elf_sections_of(bytes@) == Err::<Seq<ElfSection>, String>(m),
        },
{
    let elf = goblin::elf::Elf::parse(bytes).map_err(|e| format!("{}", e))?;
    Ok(elf.section_headers.iter().map(|s| ElfSection { offset: s.sh_offset, addr: s.sh_addr })
        .collect())
}

/// Relies on goblin::pe::PE::parse: hands out each export's name and file
/// offset.
#[verifier::external_body]
fn pe_export_rows(bytes: &[u8]) -> (r: Result<Vec<PeExport>, String>)
    ensures
        match r {
            Ok(v) => pe_exports_of(bytes@) == Ok::<Seq<PeExport>, String>(v@),
            Err(m) => pe_exports_of(bytes@) == Err::<Seq<PeExport>, String>(m),
        },
{
    let pe = goblin::pe::PE::parse(bytes).map_err(|e| format!("{}", e))?;
    Ok(pe.exports.iter().map(|e| PeExport {
        name: e.name.map(str::to_string),
        offset: e.offset.map(|o| o as u64),
    }).collect())
}

/// Relies on goblin::mach::MachO::parse and its symbol iterator: hands out
/// the name, section index and value of each readable symbol.
#[verifier::external_body]
fn mach_symbol_rows(bytes: &[u8], offset: usize) -> (r: Result<Vec<MachSym>, String>)
    ensures
        match r {
            Ok(v) => mach_symbols_of(bytes@, offset as int) == Ok::<Seq<MachSym>, String>(v@),
            Err(m) => mach_symbols_of(bytes@, offset as int) == Err::<Seq<MachSym>, String>(m),
        },
{
    let mach = goblin::mach::MachO::parse(bytes, offset).map_err(|e| format!("{}", e))?;
    Ok(mach.symbols().filter_map(|s| s.ok()).map(|(name, list)| MachSym {
        name: name.to_string(), n_sect: list.n_sect, n_value: list.n_value,
    }).collect())
}

/// Relies on goblin::mach::MachO::parse and its segment table: hands out
/// each segment's file offset, declared section count, and the flags of the
/// sections that could be read.
#[verifier::external_body]
fn mach_segment_rows(bytes: &[u8], offset: usize) -> (r: Result<Vec<MachSeg>, String>)
    ensures
        match r {
            Ok(v) => mach_segments_of(bytes@, offset as int) == Ok::<Seq<MachSeg>, String>(v@),
            Err(m) => mach_segments_of(bytes@, offset as int) == Err::<Seq<MachSeg>, String>(m),
        },
{
    let mach = goblin::mach::MachO::parse(bytes, offset).map_err(|e| format!("{}", e))?;
    Ok(mach.segments.iter().map(|seg| MachSeg {
        fileoff: seg.fileoff,
        nsects: seg.nsects,
        flags: seg.sections().map(|v| v.iter().map(|(s, _)| s.flags).collect()).unwrap_or_default(),
    }).collect())
}

/// Relies on goblin::mach::MachO::parse and its export trie: hands out each
/// export's name, file offset and size.
#[verifier::external_body]
fn mach_export_rows(bytes: &[u8], offset: usize) -> (r: Result<Vec<MachExport>, String>)
    ensures
        match r {
            Ok(v) => mach_exports_of(bytes@, offset as int) == Ok::<Seq<MachExport>, String>(v@),
            Err(m) => mach_exports_of(bytes@, offset as int) == Err::<Seq<MachExport>, String>(m),
        },
{
    let mach = goblin::mach::MachO::parse(bytes, offset).map_err(|e| format!("{}", e))?;
    let exports = mach.exports().map_err(|e| format!("{}", e))?;
    Ok(exports.into_iter().map(|e| MachExport {
        name: e.name, offset: e.offset, size: e.size as u64,
    }).collect())
}

/// Relies on goblin::mach::Mach::parse and FatHeader::find_cputype: the file
/// offset of the fat slice for a CPU type, if the container carries one.
#[verifier::external_body]
fn fat_slice_offset(bytes: &[u8], cputype: u32) -> (r: Result<Option<u64>, String>)
    ensures
        r == fat_slice_of(bytes@, cputype),
{
    match goblin::mach::Mach::parse(bytes).map_err(|e| format!("{}", e))? {
        goblin::mach::Mach::Fat(fat) => match fat.find_cputype(cputype) {
            Ok(arch) => Ok(arch.map(|a| a.offset as u64)),
            Err(e) => Err(format!("{}", e)),
        },
        goblin::mach::Mach::Binary(_) => Ok(None),
    }
}

/// Relies on goblin::archive::Archive::parse and summarize: hands out each
/// member's file offset and size.
#[verifier::external_body]
fn archive_member_rows(bytes: &[u8]) -> (r: Result<Vec<ArMember>, String>)
    ensures
        match r {
            Ok(v) => archive_members_of(bytes@) == Ok::<Seq<ArMember>, String>(v@),
            Err(m) => archive_members_of(bytes@) == Err::<Seq<ArMember>, String>(m),
        },
{
    let ar = goblin::archive::Archive::parse(bytes).map_err(|e| format!("{}", e))?;
    Ok(ar.summarize().into_iter().map(|(_, member, _)| ArMember {
        offset: member.offset, size: member.size() as u64,
    }).collect())
}

/// Relies on the yaxpeax a64 decoder: one decoded instruction as its opcode
/// tag, rendering and byte length, or the decoder's message.
#[verifier::external_body]
fn decode_arm64(buf: &[u8]) -> (r: Result<RawInst, String>)
    ensures
        r == arm64_inst_of(buf@),
{
    let mut reader = yaxpeax_arch::U8Reader::new(buf);
    let decoder = <yaxpeax_arm::armv8::a64::ARMv8 as yaxpeax_arch::Arch>::Decoder::default();
    match yaxpeax_arch::Decoder::decode(&decoder, &mut reader) {
        Ok(inst) => Ok(RawInst {
            tag: format!("{:?}", inst.opcode),
            text: format!("{}", inst),
            len: yaxpeax_arch::AddressBase::to_linear(
                &(0u64 + yaxpeax_arch::LengthedInstruction::len(&inst)),
            ),
        }),
        Err(e) => Err(format!("{}", e)),
    }
}

/// Relies on the yaxpeax ARMv7 decoder: one decoded instruction as its
/// opcode tag, rendering and byte length, or the decoder's message.
#[verifier::external_body]
fn decode_arm32(buf: &[u8]) -> (r: Result<RawInst, String>)
    ensures
        r == arm32_inst_of(buf@),
{
    let mut reader = yaxpeax_arch::U8Reader::new(buf);
    let decoder = <yaxpeax_arm::armv7::ARMv7 as yaxpeax_arch::Arch>::Decoder::default();
    match yaxpeax_arch::Decoder::decode(&decoder, &mut reader) {
        Ok(inst) => Ok(RawInst {
            tag: format!("{:?}", inst.opcode),
            text: format!("{}", inst),
            len: yaxpeax_arch::AddressBase::to_linear(
                &(0u32 + yaxpeax_arch::LengthedInstruction::len(&inst)),
            ),
        }),
        Err(e) => Err(format!("{}", e)),
    }
}

/// Relies on the yaxpeax AVR decoder: one decoded instruction as its opcode
/// tag, rendering and byte length, or the decoder's message.
#[verifier::external_body]
fn decode_avr(buf: &[u8]) -> (r: Result<RawInst, String>)
    ensures
        r == avr_inst_of(buf@),
{
    let mut reader = yaxpeax_arch::U8Reader::new(buf);
    let decoder = <yaxpeax_avr::AVR as yaxpeax_arch::Arch>::Decoder::default();
    match yaxpeax_arch::Decoder::decode(&decoder, &mut reader) {
        Ok(inst) => Ok(RawInst {
            tag: format!("{:?}", inst.opcode),
            text: format!("{}", inst),
            len: yaxpeax_arch::AddressBase::to_linear(
                &(0u32 + yaxpeax_arch::LengthedInstruction::len(&inst)),
            ),
        }),
        Err(e) => Err(format!("{}", e)),
    }
}

/// Relies on the yaxpeax protected-mode x86 decoder: one decoded instruction
/// as its opcode tag, rendering and byte length, or the decoder's message.
#[verifier::external_body]
fn decode_x86(buf: &[u8]) -> (r: Result<RawInst, String>)
    ensures
        r == x86_inst_of(buf@),
{
    let mut reader = yaxpeax_arch::U8Reader::new(buf);
    let decoder = <yaxpeax_x86::x86_32 as yaxpeax_arch::Arch>::Decoder::default();
    match yaxpeax_arch::Decoder::decode(&decoder, &mut reader) {
        Ok(inst) => Ok(RawInst {
            tag: format!("{:?}", inst.opcode()),
            text: format!("{}", inst),
            len: yaxpeax_arch::AddressBase::to_linear(
                &(0u32 + yaxpeax_arch::LengthedInstruction::len(&inst)),
            ),
        }),
        Err(e) => Err(format!("{}", e)),
    }
}

/// Relies on the yaxpeax long-mode x86 decoder: one decoded instruction as
/// its opcode tag, rendering and byte length, or the decoder's message.
#[verifier::external_body]
fn decode_x64(buf: &[u8]) -> (r: Result<RawInst, String>)
    ensures
        r == x64_inst_of(buf@),
{
    let mut reader = yaxpeax_arch::U8Reader::new(buf);
    let decoder = <yaxpeax_x86::x86_64 as yaxpeax_arch::Arch>::Decoder::default();
    match yaxpeax_arch::Decoder::decode(&decoder, &mut reader) {
        Ok(inst) => Ok(RawInst {
            tag: format!("{:?}", inst.opcode()),
            text: format!("{}", inst),
            len: yaxpeax_arch::AddressBase::to_linear(
                &(0u64 + yaxpeax_arch::LengthedInstruction::len(&inst)),
            ),
        }),
        Err(e) => Err(format!("{}", e)),
    }
}

/// What the architecture's decoder makes of the first instruction of a byte
/// buffer.
pub open spec fn spec_decode_one(arch: MachineArch, buf: Seq<u8>) -> Result<RawInst, String> {
    match arch {
        MachineArch::Arm64 => arm64_inst_of(buf),
        MachineArch::Arm32 => arm32_inst_of(buf),
        MachineArch::Avr => avr_inst_of(buf),
        MachineArch::X86 => x86_inst_of(buf),
        MachineArch::X64 => x64_inst_of(buf),
    }
}

/// Decode the first instruction of the remaining bytes with the
/// architecture's decoder.
fn decode_one(arch: MachineArch, buf: &[u8]) -> (r: Result<RawInst, String>)
    ensures
        r == spec_decode_one(arch, buf@),
{
    match arch {
        MachineArch::Arm64 => decode_arm64(buf),
        MachineArch::Arm32 => decode_arm32(buf),
        MachineArch::Avr => decode_avr(buf),
        MachineArch::X86 => decode_x86(buf),
        MachineArch::X64 => decode_x64(buf),
    }
}

/// The CPU type a fat Mach-O slice is looked up under, for architectures
/// that Mach-O containers carry.
pub open spec fn spec_cpu_type(arch: MachineArch) -> Option<u32> {
    match arch {
        MachineArch::Arm64 => Some(0x0100000cu32),
        MachineArch::Arm32 => Some(0x0000000cu32),
        MachineArch::Avr => None,
        MachineArch::X86 => Some(0x00000007u32),
        MachineArch::X64 => Some(0x01000007u32),
    }
}

fn cpu_type(arch: MachineArch) -> (r: Option<u32>)
    ensures
        r == spec_cpu_type(arch),
{
    match arch {
        MachineArch::Arm64 => Some(0x0100000c),
        MachineArch::Arm32 => Some(0x0000000c),
        MachineArch::Avr => None,
        MachineArch::X86 => Some(0x00000007),
        MachineArch::X64 => Some(0x01000007),
    }
}

/// Whether an a64 conditional-branch opcode tag (one of the sixteen
/// condition codes) names a flow-control instruction.
pub open spec fn spec_is_bcc(tag: Seq<char>) -> bool {
    ||| tag == "Bcc(0)"@
    ||| tag == "Bcc(1)"@
    ||| tag == "Bcc(2)"@
    ||| tag == "Bcc(3)"@
    ||| tag == "Bcc(4)"@
    ||| tag == "Bcc(5)"@
    ||| tag == "Bcc(6)"@
    ||| tag == "Bcc(7)"@
    ||| tag == "Bcc(8)"@
    ||| tag == "Bcc(9)"@
    ||| tag == "Bcc(10)"@
    ||| tag == "Bcc(11)"@
    ||| tag == "Bcc(12)"@
    ||| tag == "Bcc(13)"@
    ||| tag == "Bcc(14)"@
    ||| tag == "Bcc(15)"@
}

/// Whether an opcode tag names a flow-control instruction of the given
/// architecture: such an instruction closes the basic block it ends.
pub open spec fn spec_is_flow(arch: MachineArch, tag: Seq<char>) -> bool {
    match arch {
        MachineArch::Arm64 => tag == "B"@ || tag == "BCAX"@ || tag == "BL"@ || tag == "BLR"@
            || tag == "CBNZ"@ || tag == "CBZ"@ || tag == "RET"@ || tag == "TBNZ"@ || tag == "TBZ"@
            || spec_is_bcc(tag),
        MachineArch::Arm32 => tag == "B"@ || tag == "BLX"@ || tag == "BX"@ || tag == "BXJ"@ || tag
            == "CBNZ"@ || tag == "CBZ"@ || tag == "BL"@ || tag == "TBB"@ || tag == "TBH"@,
        MachineArch::Avr => tag == "EIJMP"@ || tag == "IJMP"@ || tag == "JMP"@ || tag == "RET"@
            || tag == "RJMP"@ || tag == "RETI"@,
        MachineArch::X86 => tag == "JA"@ || tag == "JB"@ || tag == "JECXZ"@ || tag == "JG"@ || tag
            == "JGE"@ || tag == "JL"@ || tag == "JLE"@ || tag == "JMPE"@ || tag == "JMPF"@ || tag
            == "JNA"@ || tag == "JNB"@ || tag == "JNO"@ || tag == "JNP"@ || tag == "JNS"@ || tag
            == "JNZ"@ || tag == "JS"@ || tag == "JZ"@ || tag == "RETURN"@ || tag == "RETF"@,
        MachineArch::X64 => tag == "JA"@ || tag == "JB"@ || tag == "JRCXZ"@ || tag == "JG"@ || tag
            == "JGE"@ || tag == "JL"@ || tag == "JLE"@ || tag == "JMPE"@ || tag == "JMPF"@ || tag
            == "JNA"@ || tag == "JNB"@ || tag == "JNO"@ || tag == "JNP"@ || tag == "JNS"@ || tag
            == "JNZ"@ || tag == "JS"@ || tag == "JZ"@ || tag == "RETURN"@ || tag == "RETF"@,
    }
}

fn is_bcc(tag: &str) -> (r: bool)
    ensures
        r == spec_is_bcc(tag@),
{
    str_eq(tag, "Bcc(0)") || str_eq(tag, "Bcc(1)") || str_eq(tag, "Bcc(2)") || str_eq(
        tag,
        "Bcc(3)",
    ) || str_eq(tag, "Bcc(4)") || str_eq(tag, "Bcc(5)") || str_eq(tag, "Bcc(6)") || str_eq(
        tag,
        "Bcc(7)",
    ) || str_eq(tag, "Bcc(8)") || str_eq(tag, "Bcc(9)") || str_eq(tag, "Bcc(10)") || str_eq(
        tag,
        "Bcc(11)",
    ) || str_eq(tag, "Bcc(12)") || str_eq(tag, "Bcc(13)") || str_eq(tag, "Bcc(14)") || str_eq(
        tag,
        "Bcc(15)",
    )
}

/// Decide whether an opcode tag names a flow-control instruction.
pub fn is_flow_control(arch: MachineArch, tag: &str) -> (r: bool)
    ensures
        r == spec_is_flow(arch, tag@),
{
    match arch {
        MachineArch::Arm64 => str_eq(tag, "B") || str_eq(tag, "BCAX") || str_eq(tag, "BL")
            || str_eq(tag, "BLR") || str_eq(tag, "CBNZ") || str_eq(tag, "CBZ") || str_eq(
            tag,
            "RET",
        ) || str_eq(tag, "TBNZ") || str_eq(tag, "TBZ") || is_bcc(tag),
        MachineArch::Arm32 => str_eq(tag, "B") || str_eq(tag, "BLX") || str_eq(tag, "BX")
            || str_eq(tag, "BXJ") || str_eq(tag, "CBNZ") || str_eq(tag, "CBZ") || str_eq(
            tag,
            "BL",
        ) || str_eq(tag, "TBB") || str_eq(tag, "TBH"),
        MachineArch::Avr => str_eq(tag, "EIJMP") || str_eq(tag, "IJMP") || str_eq(tag, "JMP")
            || str_eq(tag, "RET") || str_eq(tag, "RJMP") || str_eq(tag, "RETI"),
        MachineArch::X86 => str_eq(tag, "JA") || str_eq(tag, "JB") || str_eq(tag, "JECXZ")
            || str_eq(tag, "JG") || str_eq(tag, "JGE") || str_eq(tag, "JL") || str_eq(tag, "JLE")
            || str_eq(tag, "JMPE") || str_eq(tag, "JMPF") || str_eq(tag, "JNA") || str_eq(
            tag,
            "JNB",
        ) || str_eq(tag, "JNO") || str_eq(tag, "JNP") || str_eq(tag, "JNS") || str_eq(tag, "JNZ")
            || str_eq(tag, "JS") || str_eq(tag, "JZ") || str_eq(tag, "RETURN") || str_eq(
            tag,
            "RETF",
        ),
        MachineArch::X64 => str_eq(tag, "JA") || str_eq(tag, "JB") || str_eq(tag, "JRCXZ")
            || str_eq(tag, "JG") || str_eq(tag, "JGE") || str_eq(tag, "JL") || str_eq(tag, "JLE")
            || str_eq(tag, "JMPE") || str_eq(tag, "JMPF") || str_eq(tag, "JNA") || str_eq(
            tag,
            "JNB",
        ) || str_eq(tag, "JNO") || str_eq(tag, "JNP") || str_eq(tag, "JNS") || str_eq(tag, "JNZ")
            || str_eq(tag, "JS") || str_eq(tag, "JZ") || str_eq(tag, "RETURN") || str_eq(
            tag,
            "RETF",
        ),
    }
}

/// Whether an instruction is a flow-control instruction of the given
/// architecture.
pub open spec fn spec_flow_inst(arch: MachineArch, inst: Instruction) -> bool {
    inst matches Instruction::Machine { tag, .. } && spec_is_flow(arch, tag@)
}

/// The groups linear decoding splits an instruction stream into, `acc`
/// holding the instructions already collected for the open group: each
/// flow-control instruction closes the open group as its terminator; a
/// trailing non-empty run forms a final group with no terminator.
pub open spec fn spec_split_pieces(
    arch: MachineArch,
    insts: Seq<Instruction>,
    acc: Seq<Instruction>,
) -> Seq<(Seq<Instruction>, Option<Instruction>)>
    decreases insts.len(),
{
    if insts.len() == 0 {
        if acc.len() == 0 {
            seq![]
        } else {
            seq![(acc, None::<Instruction>)]
        }
    } else if spec_flow_inst(arch, insts.first()) {
        seq![(acc, Some(insts.first()))] + spec_split_pieces(arch, insts.drop_first(), seq![])
    } else {
        spec_split_pieces(arch, insts.drop_first(), acc.push(insts.first()))
    }
}

/// The basic blocks of one decoded instruction stream: the split groups,
/// each named by its index.
pub open spec fn spec_split(arch: MachineArch, insts: Seq<Instruction>) -> Seq<
    crate::model::BlockModel,
> {
    let pieces = spec_split_pieces(arch, insts, seq![]);
    Seq::new(
        pieces.len(),
        |k: int| crate::model::BlockModel {
            name: spec_u64_string(k as nat),
            body: pieces[k].0,
            terminator: pieces[k].1,
        },
    )
}

/// The body and terminator content of a block sequence.
pub open spec fn pieces_model(s: Seq<BasicBlock>) -> Seq<(Seq<Instruction>, Option<Instruction>)> {
    Seq::new(s.len(), |k: int| (s[k].body@, s[k].terminator))
}

/// Whether an instruction (by value) is flow control.
fn flow_inst(arch: MachineArch, inst: &Instruction) -> (r: bool)
    ensures
        r == spec_flow_inst(arch, *inst),
{
    match inst {
        Instruction::Machine { tag, .. } => is_flow_control(arch, tag.as_str()),
        Instruction::Ir { .. } => false,
    }
}

/// Split a linearly decoded instruction stream into basic blocks: each
/// flow-control instruction closes the current block as its terminator; a
/// trailing run of instructions with no flow control forms a final block
/// with an absent terminator.  Blocks are named by their index.
pub fn split_blocks(arch: MachineArch, insts: Vec<Instruction>) -> (blocks: Vec<BasicBlock>)
    ensures
        crate::model::blocks_model(blocks@) == spec_split(arch, insts@),
{
    let ghost all = insts@;
    let mut rest = insts;
    let mut rev: Vec<Instruction> = Vec::new();
    loop
        invariant
            all == rest@ + rev@.reverse(),
        ensures
            rest@.len() == 0,
            all == rev@.reverse(),
        decreases rest@.len(),
    {
        let ghost old_rest = rest@;
        let ghost old_rev = rev@;
        match rest.pop() {
            Some(x) => {
                rev.push(x);
                proof {
                    assert(rest@ + rev@.reverse() =~= old_rest + old_rev.reverse());
                }
            },
            None => {
                proof {
                    assert(all =~= rev@.reverse());
                }
                break;
            },
        }
    }
    let mut blocks: Vec<BasicBlock> = Vec::new();
    let mut acc: Vec<Instruction> = Vec::new();
    loop
        invariant
            rev@.reverse() == all.skip(all.len() - rev@.len()),
            rev@.len() <= all.len(),
            spec_split_pieces(arch, all, seq![]) == pieces_model(blocks@) + spec_split_pieces(
                arch,
                rev@.reverse(),
                acc@,
            ),
            forall|k: int|
                0 <= k < blocks@.len() ==> (#[trigger] blocks@[k]).name@ == spec_u64_string(
                    k as nat,
                ),
        ensures
            rev@.len() == 0,
            spec_split_pieces(arch, all, seq![]) == pieces_model(blocks@) + spec_split_pieces(
                arch,
                seq![],
                acc@,
            ),
            forall|k: int|
                0 <= k < blocks@.len() ==> (#[trigger] blocks@[k]).name@ == spec_u64_string(
                    k as nat,
                ),
        decreases rev@.len(),
    {
        let ghost old_rev = rev@;
        let ghost old_acc = acc@;
        let ghost old_blocks = blocks@;
        match rev.pop() {
            Some(x) => {
                proof {
                    assert(old_rev.reverse().first() == old_rev.last());
                    assert(old_rev.reverse().drop_first() =~= rev@.reverse());
                    assert(rev@.reverse() =~= all.skip(all.len() - rev@.len()));
                }
                if flow_inst(arch, &x) {
                    let name = u64_to_string(blocks.len() as u64);
                    blocks.push(BasicBlock { name, body: acc, terminator: Some(x) });
                    acc = Vec::new();
                    proof {
                        assert(pieces_model(blocks@) =~= pieces_model(old_blocks).push(
                            (old_acc, Some(old_rev.last())),
                        ));
                        assert(pieces_model(old_blocks) + spec_split_pieces(
                            arch,
                            old_rev.reverse(),
                            old_acc,
                        ) =~= pieces_model(blocks@) + spec_split_pieces(
                            arch,
                            rev@.reverse(),
                            acc@,
                        ));
                    }
                } else {
                    acc.push(x);
                    proof {
                        assert(acc@ =~= old_acc.push(old_rev.last()));
                    }
                }
            },
            None => {
                break;
            },
        }
    }
    proof {
        assert(Seq::<Instruction>::empty() =~= rev@.reverse());
    }
    if acc.len() > 0 {
        let name = u64_to_string(blocks.len() as u64);
        let ghost old_blocks = blocks@;
        let ghost old_acc = acc@;
        blocks.push(BasicBlock { name, body: acc, terminator: None });
        proof {
            assert(pieces_model(blocks@) =~= pieces_model(old_blocks).push((old_acc, None)));
            assert(spec_split_pieces(arch, all, seq![]) =~= pieces_model(blocks@));
        }
    } else {
        proof {
            assert(spec_split_pieces(arch, all, seq![]) =~= pieces_model(blocks@));
        }
    }
    proof {
        assert(crate::model::blocks_model(blocks@) =~= spec_split(arch, all));
    }
    blocks
}

/// One block of a split is well formed within its sequence: named by its
/// index, its terminator (when present) flow control, its body free of flow
/// control, only the last block possibly unterminated, and an unterminated
/// block never empty.
pub open spec fn block_wf(arch: MachineArch, bm: Seq<crate::model::BlockModel>, k: int) -> bool {
    &&& bm[k].name == spec_u64_string(k as nat)
    &&& (bm[k].terminator matches Some(t) ==> spec_flow_inst(arch, t))
    &&& (forall|i: int|
        0 <= i < bm[k].body.len() ==> !spec_flow_inst(arch, #[trigger] bm[k].body[i]))
    &&& (k < bm.len() - 1 ==> bm[k].terminator is Some)
    &&& (bm[k].terminator is None ==> bm[k].body.len() > 0)
}

/// Every block a split produces is well formed.
pub open spec fn wf_machine_blocks(arch: MachineArch, bm: Seq<crate::model::BlockModel>) -> bool {
    forall|k: int| 0 <= k < bm.len() ==> #[trigger] block_wf(arch, bm, k)
}

/// One split group is well formed within its sequence.
pub open spec fn piece_wf(
    arch: MachineArch,
    pieces: Seq<(Seq<Instruction>, Option<Instruction>)>,
    k: int,
) -> bool {
    &&& (pieces[k].1 matches Some(t) ==> spec_flow_inst(arch, t))
    &&& (forall|i: int|
        0 <= i < pieces[k].0.len() ==> !spec_flow_inst(arch, #[trigger] pieces[k].0[i]))
    &&& (k < pieces.len() - 1 ==> pieces[k].1 is Some)
    &&& (pieces[k].1 is None ==> pieces[k].0.len() > 0)
}

/// The pieces of a split are well formed, provided nothing already
/// collected for the open group is flow control.
proof fn lemma_pieces_wf(arch: MachineArch, insts: Seq<Instruction>, acc: Seq<Instruction>)
    requires
        forall|i: int| 0 <= i < acc.len() ==> !spec_flow_inst(arch, #[trigger] acc[i]),
    ensures
        forall|k: int|
            0 <= k < spec_split_pieces(arch, insts, acc).len() ==> #[trigger] piece_wf(
                arch,
                spec_split_pieces(arch, insts, acc),
                k,
            ),
    decreases insts.len(),
{
    let pieces = spec_split_pieces(arch, insts, acc);
    if insts.len() == 0 {
        assert forall|k: int| 0 <= k < pieces.len() implies #[trigger] piece_wf(arch, pieces, k)
        by {
            assert(k == 0);
        }
    } else if spec_flow_inst(arch, insts.first()) {
        lemma_pieces_wf(arch, insts.drop_first(), seq![]);
        let rest = spec_split_pieces(arch, insts.drop_first(), seq![]);
        assert(pieces == seq![(acc, Some(insts.first()))] + rest);
        assert forall|k: int| 0 <= k < pieces.len() implies #[trigger] piece_wf(arch, pieces, k)
        by {
            if k == 0 {
                assert(pieces[0] == (acc, Some(insts.first())));
                assert(pieces[0].1 == Some(insts.first()));
                assert(pieces[0].0 == acc);
            } else {
                assert(piece_wf(arch, rest, k - 1));
                assert(pieces[k] == rest[k - 1]);
                assert(pieces.len() == 1 + rest.len());
            }
        }
    } else {
        let acc2 = acc.push(insts.first());
        assert(forall|i: int|
            0 <= i < acc2.len() ==> !spec_flow_inst(arch, #[trigger] acc2[i]));
        lemma_pieces_wf(arch, insts.drop_first(), acc2);
        assert(pieces == spec_split_pieces(arch, insts.drop_first(), acc2));
    }
}

/// A split always produces well-formed blocks.
pub proof fn lemma_split_wf(arch: MachineArch, insts: Seq<Instruction>)
    ensures
        wf_machine_blocks(arch, spec_split(arch, insts)),
{
    lemma_pieces_wf(arch, insts, seq![]);
    let pieces = spec_split_pieces(arch, insts, seq![]);
    let bm = spec_split(arch, insts);
    assert forall|k: int| 0 <= k < bm.len() implies #[trigger] block_wf(arch, bm, k) by {
        assert(piece_wf(arch, pieces, k));
    }
}

/// The instruction sequence linear decoding yields over a byte range, per
/// the named decoder results: one instruction after another from `pos`,
/// each advancing by its reported length (capped at the end of the range),
/// until the range is exhausted; or the message of the first rejection.  A
/// range that leaves the buffer yields nothing.
pub open spec fn spec_decode_insts(
    arch: MachineArch,
    bytes: Seq<u8>,
    pos: int,
    end: int,
) -> Result<Seq<Instruction>, Seq<char>>
    decreases end - pos,
{
    if pos < 0 || pos >= end || end > bytes.len() {
        Ok(seq![])
    } else {
        match spec_decode_one(arch, bytes.subrange(pos, end)) {
            Err(m) => Err(m@),
            Ok(ri) => {
                if ri.len == 0 {
                    Err("decoder made no forward progress"@)
                } else {
                    let inst = Instruction::Machine { tag: ri.tag, text: ri.text };
                    let next = if pos + ri.len >= end {
                        end
                    } else {
                        pos + ri.len
                    };
                    match spec_decode_insts(arch, bytes, next, end) {
                        Ok(rest) => Ok(seq![inst] + rest),
                        Err(m) => Err(m),
                    }
                }
            },
        }
    }
}

/// Decode one function's byte range linearly into basic blocks.  Decoding
/// starts at `start`; a range that leaves the buffer yields a function with
/// no blocks; a decoder rejection aborts the whole function.
pub fn decode_function(bytes: &[u8], start: u64, end: u64, arch: MachineArch) -> (r: Result<
    Vec<BasicBlock>,
    GoblinYaxError,
>)
    ensures
        match r {
            Ok(blocks) => spec_decode_insts(arch, bytes@, start as int, end as int) matches Ok(
                insts,
            ) && crate::model::blocks_model(blocks@) == spec_split(arch, insts)
                && wf_machine_blocks(arch, crate::model::blocks_model(blocks@)),
            Err(e) => e matches GoblinYaxError::Yax(msg) && spec_decode_insts(
                arch,
                bytes@,
                start as int,
                end as int,
            ) == Err::<Seq<Instruction>, Seq<char>>(msg@),
        },
{
    let blen = bytes.len();
    let mut insts: Vec<Instruction> = Vec::new();
    if start < end && end <= blen as u64 {
        let s = start as usize;
        let e = end as usize;
        let mut pos: usize = s;
        proof {
            assert(s as int == start as int && e as int == end as int);
        }
        while pos < e
            invariant
                s <= e <= bytes@.len(),
                s <= pos <= e,
                s as int == start as int,
                e as int == end as int,
                spec_decode_insts(arch, bytes@, start as int, end as int) == (
                match spec_decode_insts(arch, bytes@, pos as int, e as int) {
                    Ok(rest) => Ok::<Seq<Instruction>, Seq<char>>(insts@ + rest),
                    Err(m) => Err::<Seq<Instruction>, Seq<char>>(m),
                }),
            decreases e - pos,
        {
            let rest = &bytes[pos..e];
            match decode_one(arch, rest) {
                Ok(ri) => {
                    let ghost gri = ri;
                    if ri.len == 0 {
                        return Err(
                            GoblinYaxError::Yax("decoder made no forward progress".to_owned()),
                        );
                    }
                    let rl = ri.len;
                    let ghost old_insts = insts@;
                    insts.push(Instruction::Machine { tag: ri.tag, text: ri.text });
                    let ghost old_pos = pos as int;
                    if rl >= e - pos {
                        pos = e;
                    } else {
                        pos = pos + rl;
                    }
                    proof {
                        let inst = Instruction::Machine { tag: gri.tag, text: gri.text };
                        assert(spec_decode_insts(arch, bytes@, old_pos, e as int) == (
                        match spec_decode_insts(arch, bytes@, pos as int, e as int) {
                            Ok(rest) => Ok::<Seq<Instruction>, Seq<char>>(seq![inst] + rest),
                            Err(m) => Err::<Seq<Instruction>, Seq<char>>(m),
                        }));
                        if spec_decode_insts(arch, bytes@, pos as int, e as int) is Ok {
                            let rest = spec_decode_insts(arch, bytes@, pos as int, e as int)->Ok_0;
                            assert(old_insts + (seq![inst] + rest) =~= insts@ + rest);
                        }
                    }
                },
                Err(m) => {
                    return Err(GoblinYaxError::Yax(m));
                },
            }
        }
        proof {
            assert(spec_decode_insts(arch, bytes@, pos as int, e as int) == Ok::<
                Seq<Instruction>,
                Seq<char>,
            >(seq![]));
            assert(insts@ + Seq::<Instruction>::empty() =~= insts@);
        }
    } else {
        proof {
            assert(spec_decode_insts(arch, bytes@, start as int, end as int) == Ok::<
                Seq<Instruction>,
                Seq<char>,
            >(seq![]));
            assert(insts@ =~= Seq::<Instruction>::empty());
        }
    }
    let ghost decoded = insts@;
    let blocks = split_blocks(arch, insts);
    proof {
        lemma_split_wf(arch, decoded);
    }
    Ok(blocks)
}

/// One function symbol with its byte range in the buffer.
pub struct SymRange {
    /// The symbol's raw name.
    pub name: String,
    /// The first byte of the function.
    pub start: u64,
    /// One past the last byte of the function.
    pub end: u64,
}

/// The mathematical content of a symbol range.
pub struct SymRangeModel {
    /// The symbol's raw name.
    pub name: Seq<char>,
    /// The first byte of the function.
    pub start: int,
    /// One past the last byte of the function.
    pub end: int,
}

impl View for SymRange {
    type V = SymRangeModel;

    open spec fn view(&self) -> SymRangeModel {
        SymRangeModel { name: self.name@, start: self.start as int, end: self.end as int }
    }
}

/// A range sequence, viewed mathematically.
pub open spec fn ranges_model(s: Seq<SymRange>) -> Seq<SymRangeModel> {
    s.map_values(|r: SymRange| r@)
}

/// The function ranges of an ELF symbol list: function symbols of positive
/// size, placed at `section offset + value - section address` with their
/// declared size.  A missing name, a section index outside the section
/// table, or address arithmetic that leaves the file's range marks the
/// symbol table corrupt.
pub open spec fn spec_elf_ranges(rows: Seq<ElfSym>, secs: Seq<ElfSection>) -> Result<
    Seq<SymRangeModel>,
    GoblinYaxError,
>
    decreases rows.len(),
{
    if rows.len() == 0 {
        Ok(seq![])
    } else {
        let s = rows.first();
        if !(s.func && s.size > 0) {
            spec_elf_ranges(rows.drop_first(), secs)
        } else if s.name is None {
            Err(GoblinYaxError::NoSym)
        } else if s.shndx >= secs.len() {
            Err(GoblinYaxError::NoSym)
        } else {
            let sec = secs[s.shndx as int];
            let start = sec.offset + s.value - sec.addr;
            let end = start + s.size;
            if start < 0 || start > u64::MAX || end > u64::MAX {
                Err(GoblinYaxError::NoSym)
            } else {
                match spec_elf_ranges(rows.drop_first(), secs) {
                    Ok(rest) => Ok(
                        seq![SymRangeModel { name: s.name->0@, start, end }] + rest,
                    ),
                    Err(e) => Err(e),
                }
            }
        }
    }
}

/// Compute the function ranges of an ELF symbol list.
pub fn elf_ranges(rows: &Vec<ElfSym>, secs: &Vec<ElfSection>) -> (r: Result<
    Vec<SymRange>,
    GoblinYaxError,
>)
    ensures
        match r {
            Ok(out) => spec_elf_ranges(rows@, secs@) == Ok::<_, GoblinYaxError>(
                ranges_model(out@),
            ),
            Err(e) => spec_elf_ranges(rows@, secs@) == Err::<Seq<SymRangeModel>, _>(e),
        },
{
    let n = rows.len();
    let mut out: Vec<SymRange> = Vec::new();
    proof {
        assert(rows@.skip(0) =~= rows@);
        assert(ranges_model(out@) =~= Seq::<SymRangeModel>::empty());
    }
    for k in 0..n
        invariant
            n == rows@.len(),
            spec_elf_ranges(rows@, secs@) == (match spec_elf_ranges(rows@.skip(k as int), secs@) {
                Ok(rest) => Ok::<_, GoblinYaxError>(ranges_model(out@) + rest),
                Err(e) => Err::<Seq<SymRangeModel>, _>(e),
            }),
    {
        proof {
            assert(rows@.skip(k as int).first() == rows@[k as int]);
            assert(rows@.skip(k as int).drop_first() =~= rows@.skip(k as int + 1));
        }
        let s = &rows[k];
        if s.func && s.size > 0 {
            match &s.name {
                None => {
                    return Err(GoblinYaxError::NoSym);
                },
                Some(name) => {
                    if s.shndx >= secs.len() {
                        return Err(GoblinYaxError::NoSym);
                    }
                    let sec = &secs[s.shndx];
                    let sum: u128 = sec.offset as u128 + s.value as u128;
                    if sum < sec.addr as u128 {
                        return Err(GoblinYaxError::NoSym);
                    }
                    let start: u128 = sum - sec.addr as u128;
                    let end: u128 = start + s.size as u128;
                    if start > u64::MAX as u128 || end > u64::MAX as u128 {
                        return Err(GoblinYaxError::NoSym);
                    }
                    let ghost old_out = out@;
                    out.push(
                        SymRange { name: name.clone(), start: start as u64, end: end as u64 },
                    );
                    proof {
                        assert(ranges_model(out@) =~= ranges_model(old_out).push(
                            out@.last()@,
                        ));
                        assert(spec_elf_ranges(rows@.skip(k as int + 1), secs@) matches Ok(rest)
                            ==> ranges_model(old_out) + (seq![out@.last()@] + rest)
                            =~= ranges_model(out@) + rest);
                    }
                },
            }
        }
    }
    proof {
        assert(rows@.skip(n as int) =~= Seq::<ElfSym>::empty());
    }
    Ok(out)
}

/// The smallest export offset strictly above `start`, if any: PE exports
/// carry no sizes, so a function is assumed to reach the next export.
pub open spec fn spec_pe_min_above(rows: Seq<PeExport>, start: int) -> Option<int>
    decreases rows.len(),
{
    if rows.len() == 0 {
        None
    } else {
        let rest = spec_pe_min_above(rows.drop_first(), start);
        match rows.first().offset {
            Some(o) => if o > start {
                match rest {
                    None => Some(o as int),
                    Some(m) => Some(if o < m { o as int } else { m }),
                }
            } else {
                rest
            },
            None => rest,
        }
    }
}

fn pe_min_above(rows: &Vec<PeExport>, start: u64) -> (r: Option<u64>)
    ensures
        match r {
            Some(m) => spec_pe_min_above(rows@, start as int) == Some(m as int),
            None => spec_pe_min_above(rows@, start as int) is None,
        },
{
    let mut cur: Option<u64> = None;
    let mut k = rows.len();
    proof {
        assert(rows@.skip(k as int) =~= Seq::<PeExport>::empty());
    }
    while k > 0
        invariant
            k <= rows@.len(),
            match cur {
                Some(m) => spec_pe_min_above(rows@.skip(k as int), start as int) == Some(m as int),
                None => spec_pe_min_above(rows@.skip(k as int), start as int) is None,
            },
        decreases k,
    {
        k = k - 1;
        proof {
            assert(rows@.skip(k as int).first() == rows@[k as int]);
            assert(rows@.skip(k as int).drop_first() =~= rows@.skip(k as int + 1));
        }
        match &rows[k].offset {
            Some(o) => {
                if *o > start {
                    cur = Some(
                        match cur {
                            Some(m) => if *o < m {
                                *o
                            } else {
                                m
                            },
                            None => *o,
                        },
                    );
                }
            },
            None => {},
        }
    }
    proof {
        assert(rows@.skip(0) =~= rows@);
    }
    cur
}

/// The function ranges of a PE export list: each named export with a known
/// offset reaches to the next export above it; an export with no export
/// after it is dropped rather than guessed at.
pub open spec fn spec_pe_ranges(all: Seq<PeExport>, rows: Seq<PeExport>) -> Seq<SymRangeModel>
    decreases rows.len(),
{
    if rows.len() == 0 {
        seq![]
    } else {
        let e = rows.first();
        let rest = spec_pe_ranges(all, rows.drop_first());
        if e.name is Some && e.offset is Some {
            match spec_pe_min_above(all, e.offset->0 as int) {
                Some(end) => seq![
                    SymRangeModel { name: e.name->0@, start: e.offset->0 as int, end },
                ] + rest,
                None => rest,
            }
        } else {
            rest
        }
    }
}

/// Compute the function ranges of a PE export list.
pub fn pe_ranges(rows: &Vec<PeExport>) -> (out: Vec<SymRange>)
    ensures
        ranges_model(out@) == spec_pe_ranges(rows@, rows@),
{
    let n = rows.len();
    let mut out: Vec<SymRange> = Vec::new();
    proof {
        assert(rows@.skip(0) =~= rows@);
        assert(ranges_model(out@) =~= Seq::<SymRangeModel>::empty());
    }
    for k in 0..n
        invariant
            n == rows@.len(),
            spec_pe_ranges(rows@, rows@) == ranges_model(out@) + spec_pe_ranges(
                rows@,
                rows@.skip(k as int),
            ),
    {
        proof {
            assert(rows@.skip(k as int).first() == rows@[k as int]);
            assert(rows@.skip(k as int).drop_first() =~= rows@.skip(k as int + 1));
        }
        let e = &rows[k];
        match (&e.name, &e.offset) {
            (Some(name), Some(start)) => {
                match pe_min_above(rows, *start) {
                    Some(end) => {
                        let ghost old_out = out@;
                        out.push(SymRange { name: name.clone(), start: *start, end });
                        proof {
                            assert(ranges_model(out@) =~= ranges_model(old_out).push(
                                out@.last()@,
                            ));
                            assert(ranges_model(out@) + spec_pe_ranges(
                                rows@,
                                rows@.skip(k as int + 1),
                            ) =~= ranges_model(old_out) + spec_pe_ranges(
                                rows@,
                                rows@.skip(k as int),
                            ));
                        }
                    },
                    None => {},
                }
            },
            _ => {},
        }
    }
    proof {
        assert(rows@.skip(n as int) =~= Seq::<PeExport>::empty());
    }
    out
}

/// The Mach-O section attribute marking a section that holds only machine
/// instructions.
pub const S_ATTR_PURE_INSTRUCTIONS: u32 = 0x80000000;

/// The Mach-O section attribute marking a section that holds some machine
/// instructions.
pub const S_ATTR_SOME_INSTRUCTIONS: u32 = 0x400;

/// Resolve a 0-based section index against the segment list: the file
/// offset of the segment whose declared sections cover the index, provided
/// that section's flags mark it as holding instructions.  `None` drops the
/// symbol; an index beyond every segment keeps the symbol at file offset 0.
pub open spec fn spec_mach_fileoff(segs: Seq<MachSeg>, sect: int) -> Option<int>
    decreases segs.len(),
{
    if segs.len() == 0 {
        Some(0)
    } else {
        let seg = segs.first();
        if sect < seg.nsects {
            if sect >= seg.flags@.len() {
                None
            } else if seg.flags@[sect] & S_ATTR_PURE_INSTRUCTIONS == 0 && seg.flags@[sect]
                & S_ATTR_SOME_INSTRUCTIONS == 0 {
                None
            } else {
                Some(seg.fileoff as int)
            }
        } else {
            spec_mach_fileoff(segs.drop_first(), sect - seg.nsects)
        }
    }
}

fn mach_fileoff(segs: &Vec<MachSeg>, sect: usize) -> (r: Option<u64>)
    ensures
        match r {
            Some(fo) => spec_mach_fileoff(segs@, sect as int) == Some(fo as int),
            None => spec_mach_fileoff(segs@, sect as int) is None,
        },
{
    let n = segs.len();
    let mut cur: usize = sect;
    proof {
        assert(segs@.skip(0) =~= segs@);
    }
    for k in 0..n
        invariant
            n == segs@.len(),
            spec_mach_fileoff(segs@, sect as int) == spec_mach_fileoff(
                segs@.skip(k as int),
                cur as int,
            ),
    {
        proof {
            assert(segs@.skip(k as int).first() == segs@[k as int]);
            assert(segs@.skip(k as int).drop_first() =~= segs@.skip(k as int + 1));
        }
        let seg = &segs[k];
        if (cur as u64) < (seg.nsects as u64) {
            if cur >= seg.flags.len() {
                return None;
            }
            let flags = seg.flags[cur];
            if flags & S_ATTR_PURE_INSTRUCTIONS == 0 && flags & S_ATTR_SOME_INSTRUCTIONS == 0 {
                return None;
            }
            return Some(seg.fileoff);
        } else {
            cur = cur - seg.nsects as usize;
        }
    }
    proof {
        assert(segs@.skip(n as int) =~= Seq::<MachSeg>::empty());
    }
    Some(0)
}

/// The smallest symbol value strictly above `value` among symbols of the
/// same section, if any: Mach-O symbols carry no sizes, so a function is
/// assumed to reach the next symbol of its section.
pub open spec fn spec_mach_min_above(rows: Seq<MachSym>, sect: int, value: int) -> Option<int>
    decreases rows.len(),
{
    if rows.len() == 0 {
        None
    } else {
        let rest = spec_mach_min_above(rows.drop_first(), sect, value);
        let s = rows.first();
        if s.n_sect == sect && s.n_value > value {
            match rest {
                None => Some(s.n_value as int),
                Some(m) => Some(if s.n_value < m { s.n_value as int } else { m }),
            }
        } else {
            rest
        }
    }
}

fn mach_min_above(rows: &Vec<MachSym>, sect: usize, value: u64) -> (r: Option<u64>)
    ensures
        match r {
            Some(m) => spec_mach_min_above(rows@, sect as int, value as int) == Some(m as int),
            None => spec_mach_min_above(rows@, sect as int, value as int) is None,
        },
{
    let mut cur: Option<u64> = None;
    let mut k = rows.len();
    proof {
        assert(rows@.skip(k as int) =~= Seq::<MachSym>::empty());
    }
    while k > 0
        invariant
            k <= rows@.len(),
            match cur {
                Some(m) => spec_mach_min_above(rows@.skip(k as int), sect as int, value as int)
                    == Some(m as int),
                None => spec_mach_min_above(
                    rows@.skip(k as int),
                    sect as int,
                    value as int,
                ) is None,
            },
        decreases k,
    {
        k = k - 1;
        proof {
            assert(rows@.skip(k as int).first() == rows@[k as int]);
            assert(rows@.skip(k as int).drop_first() =~= rows@.skip(k as int + 1));
        }
        let s = &rows[k];
        if s.n_sect == sect && s.n_value > value {
            cur = Some(
                match cur {
                    Some(m) => if s.n_value < m {
                        s.n_value
                    } else {
                        m
                    },
                    None => s.n_value,
                },
            );
        }
    }
    proof {
        assert(rows@.skip(0) =~= rows@);
    }
    cur
}

/// The function ranges of a Mach-O symbol list: a symbol with a section is
/// placed at its segment's file offset plus its value, and reaches the next
/// symbol of its section.  Symbols with no section, in a section not marked
/// as instructions, with no following symbol, or whose placement overflows,
/// are dropped.
pub open spec fn spec_mach_sym_ranges(
    all: Seq<MachSym>,
    rows: Seq<MachSym>,
    segs: Seq<MachSeg>,
) -> Seq<SymRangeModel>
    decreases rows.len(),
{
    if rows.len() == 0 {
        seq![]
    } else {
        let s = rows.first();
        let rest = spec_mach_sym_ranges(all, rows.drop_first(), segs);
        if s.n_sect == 0 {
            rest
        } else {
            match spec_mach_fileoff(segs, s.n_sect - 1) {
                None => rest,
                Some(fo) => match spec_mach_min_above(all, s.n_sect as int, s.n_value as int) {
                    None => rest,
                    Some(mv) => {
                        let start = fo + s.n_value;
                        let end = fo + mv;
                        if start > u64::MAX || end > u64::MAX {
                            rest
                        } else {
                            seq![SymRangeModel { name: s.name@, start, end }] + rest
                        }
                    },
                },
            }
        }
    }
}

/// Compute the function ranges of a Mach-O symbol list.
pub fn mach_sym_ranges(rows: &Vec<MachSym>, segs: &Vec<MachSeg>) -> (out: Vec<SymRange>)
    ensures
        ranges_model(out@) == spec_mach_sym_ranges(rows@, rows@, segs@),
{
    let n = rows.len();
    let mut out: Vec<SymRange> = Vec::new();
    proof {
        assert(rows@.skip(0) =~= rows@);
        assert(ranges_model(out@) =~= Seq::<SymRangeModel>::empty());
    }
    for k in 0..n
        invariant
            n == rows@.len(),
            spec_mach_sym_ranges(rows@, rows@, segs@) == ranges_model(out@)
                + spec_mach_sym_ranges(rows@, rows@.skip(k as int), segs@),
    {
        proof {
            assert(rows@.skip(k as int).first() == rows@[k as int]);
            assert(rows@.skip(k as int).drop_first() =~= rows@.skip(k as int + 1));
        }
        let s = &rows[k];
        if s.n_sect != 0 {
            match mach_fileoff(segs, s.n_sect - 1) {
                None => {},
                Some(fo) => {
                    match mach_min_above(rows, s.n_sect, s.n_value) {
                        None => {},
                        Some(mv) => {
                            let start: u128 = fo as u128 + s.n_value as u128;
                            let end: u128 = fo as u128 + mv as u128;
                            if start <= u64::MAX as u128 && end <= u64::MAX as u128 {
                                let ghost old_out = out@;
                                out.push(
                                    SymRange {
                                        name: s.name.clone(),
                                        start: start as u64,
                                        end: end as u64,
                                    },
                                );
                                proof {
                                    assert(ranges_model(out@) =~= ranges_model(old_out).push(
                                        out@.last()@,
                                    ));
                                    assert(ranges_model(out@) + spec_mach_sym_ranges(
                                        rows@,
                                        rows@.skip(k as int + 1),
                                        segs@,
                                    ) =~= ranges_model(old_out) + spec_mach_sym_ranges(
                                        rows@,
                                        rows@.skip(k as int),
                                        segs@,
                                    ));
                                }
                            }
                        },
                    }
                },
            }
        }
    }
    proof {
        assert(rows@.skip(n as int) =~= Seq::<MachSym>::empty());
    }
    out
}

/// The function ranges of a Mach-O export list: exports do carry sizes, so
/// each reaches from its offset over its size.  An export whose end
/// overflows is dropped.
pub open spec fn spec_mach_export_ranges(rows: Seq<MachExport>) -> Seq<SymRangeModel>
    decreases rows.len(),
{
    if rows.len() == 0 {
        seq![]
    } else {
        let e = rows.first();
        let rest = spec_mach_export_ranges(rows.drop_first());
        if e.offset + e.size > u64::MAX {
            rest
        } else {
            seq![
                SymRangeModel {
                    name: e.name@,
                    start: e.offset as int,
                    end: e.offset + e.size,
                },
            ] + rest
        }
    }
}

/// Compute the function ranges of a Mach-O export list.
pub fn mach_export_ranges(rows: &Vec<MachExport>) -> (out: Vec<SymRange>)
    ensures
        ranges_model(out@) == spec_mach_export_ranges(rows@),
{
    let n = rows.len();
    let mut out: Vec<SymRange> = Vec::new();
    proof {
        assert(rows@.skip(0) =~= rows@);
        assert(ranges_model(out@) =~= Seq::<SymRangeModel>::empty());
    }
    for k in 0..n
        invariant
            n == rows@.len(),
            spec_mach_export_ranges(rows@) == ranges_model(out@) + spec_mach_export_ranges(
                rows@.skip(k as int),
            ),
    {
        proof {
            assert(rows@.skip(k as int).first() == rows@[k as int]);
            assert(rows@.skip(k as int).drop_first() =~= rows@.skip(k as int + 1));
        }
        let e = &rows[k];
        let end: u128 = e.offset as u128 + e.size as u128;
        if end <= u64::MAX as u128 {
            let ghost old_out = out@;
            out.push(SymRange { name: e.name.clone(), start: e.offset, end: end as u64 });
            proof {
                assert(ranges_model(out@) =~= ranges_model(old_out).push(out@.last()@));
                assert(ranges_model(out@) + spec_mach_export_ranges(rows@.skip(k as int + 1))
                    =~= ranges_model(old_out) + spec_mach_export_ranges(rows@.skip(k as int)));
            }
        }
    }
    proof {
        assert(rows@.skip(n as int) =~= Seq::<MachExport>::empty());
    }
    out
}

/// What the Rust demangler makes of a symbol, if it accepts it.  The result
/// depends on the symbol alone.
pub uninterp spec fn rust_demangling(s: Seq<char>) -> Option<Seq<char>>;

/// What the C++ demangler makes of a symbol, if it accepts it.  The result
/// depends on the symbol alone.
pub uninterp spec fn cpp_demangling(s: Seq<char>) -> Option<Seq<char>>;

/// The view of an optional owned string.
pub open spec fn opt_text(o: Option<String>) -> Option<Seq<char>> {
    match o {
        Some(s) => Some(s@),
        None => None,
    }
}

/// Relies on rustc_demangle::try_demangle and the rendering of its result.
#[verifier::external_body]
fn rust_demangle(s: &str) -> (r: Option<String>)
    ensures
        opt_text(r) == rust_demangling(s@),
{
    rustc_demangle::try_demangle(s).ok().map(|d| d.to_string())
}

/// Relies on cpp_demangle::Symbol::new and Symbol::demangle.
#[verifier::external_body]
fn cpp_demangle_symbol(s: &str) -> (r: Option<String>)
    ensures
        opt_text(r) == cpp_demangling(s@),
{
    cpp_demangle::Symbol::new(s).ok().and_then(|d| d.demangle().ok())
}

/// The name a symbol is displayed and keyed under: its Rust demangling, else
/// its C++ demangling, else the symbol itself.
pub open spec fn spec_demangle(s: Seq<char>) -> Seq<char> {
    match rust_demangling(s) {
        Some(d) => d,
        None => match cpp_demangling(s) {
            Some(d) => d,
            None => s,
        },
    }
}

/// Demangle a symbol name: Rust mangling first, then C++; a symbol neither
/// demangler accepts stays as it is.
pub fn demangle(symbol: &str) -> (r: String)
    ensures
        r@ == spec_demangle(symbol@),
{
    if let Some(d) = rust_demangle(symbol) {
        d
    } else if let Some(d) = cpp_demangle_symbol(symbol) {
        d
    } else {
        symbol.to_owned()
    }
}

/// A function of a machine-code program is well formed: its blocks are a
/// well-formed split for the architecture.
pub open spec fn fn_wf(arch: MachineArch, f: Function) -> bool {
    wf_machine_blocks(arch, crate::model::blocks_model(f.blocks@))
}

/// The functions a range list adds to a program, per the named decoder
/// results: each range decoded and split into blocks, keyed by the demangled
/// symbol name, later ranges replacing earlier functions of the same name;
/// the first decoder rejection aborts everything.
pub open spec fn spec_build(
    bytes: Seq<u8>,
    ranges: Seq<SymRangeModel>,
    arch: MachineArch,
    funcs: Seq<crate::model::FunctionModel>,
) -> Result<Seq<crate::model::FunctionModel>, GoblinYaxErrorModel>
    decreases ranges.len(),
{
    if ranges.len() == 0 {
        Ok(funcs)
    } else {
        let rg = ranges.first();
        match spec_decode_insts(arch, bytes, rg.start, rg.end) {
            Err(m) => Err(GoblinYaxErrorModel::Yax(m)),
            Ok(insts) => spec_build(
                bytes,
                ranges.drop_first(),
                arch,
                crate::model::spec_insert_model(
                    funcs,
                    crate::model::FunctionModel {
                        name: spec_demangle(rg.name),
                        blocks: spec_split(arch, insts),
                    },
                ),
            ),
        }
    }
}

/// Decode every symbol range into a function and add it to the program,
/// later ranges replacing earlier functions of the same demangled name.
fn build_functions(
    bytes: &[u8],
    ranges: &Vec<SymRange>,
    arch: MachineArch,
    prog: &mut Program,
) -> (r: Result<(), GoblinYaxError>)
    ensures
        final(prog).gap == old(prog).gap,
        old(prog).wf() ==> final(prog).wf(),
        (forall|i: int|
            0 <= i < old(prog).funcs@.len() ==> fn_wf(arch, #[trigger] old(prog).funcs@[i]))
            ==> forall|i: int|
            0 <= i < final(prog).funcs@.len() ==> fn_wf(arch, #[trigger] final(prog).funcs@[i]),
        match r {
            Ok(()) => spec_build(
                bytes@,
                ranges_model(ranges@),
                arch,
                crate::model::funcs_model(old(prog).funcs@),
            ) == Ok::<_, GoblinYaxErrorModel>(crate::model::funcs_model(final(prog).funcs@)),
            Err(e) => spec_build(
                bytes@,
                ranges_model(ranges@),
                arch,
                crate::model::funcs_model(old(prog).funcs@),
            ) == Err::<Seq<crate::model::FunctionModel>, _>(e@),
        },
{
    let n = ranges.len();
    let ghost all_wf_before = forall|i: int|
        0 <= i < old(prog).funcs@.len() ==> fn_wf(arch, #[trigger] old(prog).funcs@[i]);
    let ghost old_model = crate::model::funcs_model(old(prog).funcs@);
    proof {
        assert(ranges_model(ranges@).skip(0) =~= ranges_model(ranges@));
    }
    for k in 0..n
        invariant
            n == ranges@.len(),
            prog.gap == old(prog).gap,
            old(prog).wf() ==> prog.wf(),
            all_wf_before == (forall|i: int|
                0 <= i < old(prog).funcs@.len() ==> fn_wf(arch, #[trigger] old(prog).funcs@[i])),
            all_wf_before ==> forall|i: int|
                0 <= i < prog.funcs@.len() ==> fn_wf(arch, #[trigger] prog.funcs@[i]),
            old_model == crate::model::funcs_model(old(prog).funcs@),
            spec_build(bytes@, ranges_model(ranges@), arch, old_model) == spec_build(
                bytes@,
                ranges_model(ranges@).skip(k as int),
                arch,
                crate::model::funcs_model(prog.funcs@),
            ),
    {
        proof {
            assert(ranges_model(ranges@)[k as int] == ranges@[k as int]@);
            assert(ranges_model(ranges@).skip(k as int).first() == ranges_model(
                ranges@,
            )[k as int]);
            assert(ranges_model(ranges@).skip(k as int).drop_first() =~= ranges_model(
                ranges@,
            ).skip(k as int + 1));
        }
        let rg = &ranges[k];
        let dname = demangle(rg.name.as_str());
        match decode_function(bytes, rg.start, rg.end, arch) {
            Ok(blocks) => {
                let f = Function { name: dname, blocks };
                let ghost before = prog.funcs@;
                proof {
                    crate::model::lemma_insert_model(before, f);
                }
                prog.insert(f);
                proof {
                    if all_wf_before {
                        crate::model::lemma_insert_fn_names(before, f);
                        assert forall|i: int| 0 <= i < prog.funcs@.len() implies fn_wf(
                            arch,
                            #[trigger] prog.funcs@[i],
                        ) by {
                            if prog.funcs@[i] != f {
                                let j = choose|j: int|
                                    0 <= j < before.len() && before[j] == prog.funcs@[i];
                                assert(fn_wf(arch, before[j]));
                            }
                        }
                    }
                }
            },
            Err(e) => {
                return Err(e);
            },
        }
    }
    proof {
        assert(ranges_model(ranges@).skip(n as int) =~= Seq::<SymRangeModel>::empty());
    }
    Ok(())
}

/// What ingesting a Mach-O binary at an offset of the buffer yields, per
/// the named parser results: the symbol ranges (placed by segment, reaching
/// the next symbol) and then the export ranges (carrying their own sizes)
/// built into the function list; or the first error.
pub open spec fn spec_mach_ingest(
    bytes: Seq<u8>,
    offset: int,
    arch: MachineArch,
    funcs: Seq<crate::model::FunctionModel>,
) -> Result<Seq<crate::model::FunctionModel>, GoblinYaxErrorModel> {
    match mach_symbols_of(bytes, offset) {
        Err(m) => Err(GoblinYaxErrorModel::Goblin(m@)),
        Ok(syms) => match mach_segments_of(bytes, offset) {
            Err(m) => Err(GoblinYaxErrorModel::Goblin(m@)),
            Ok(segs) => match mach_exports_of(bytes, offset) {
                Err(m) => Err(GoblinYaxErrorModel::Goblin(m@)),
                Ok(exports) => match spec_build(
                    bytes,
                    spec_mach_sym_ranges(syms, syms, segs),
                    arch,
                    funcs,
                ) {
                    Err(e) => Err(e),
                    Ok(f1) => spec_build(bytes, spec_mach_export_ranges(exports), arch, f1),
                },
            },
        },
    }
}

/// Ingest a Mach-O binary found at an offset of the buffer: symbols placed
/// by segment and reaching the next symbol, then exports with their own
/// sizes.
fn mach_into(bytes: &[u8], offset: usize, arch: MachineArch, prog: &mut Program) -> (r: Result<
    (),
    GoblinYaxError,
>)
    ensures
        final(prog).gap == old(prog).gap,
        old(prog).wf() ==> final(prog).wf(),
        (forall|i: int|
            0 <= i < old(prog).funcs@.len() ==> fn_wf(arch, #[trigger] old(prog).funcs@[i]))
            ==> forall|i: int|
            0 <= i < final(prog).funcs@.len() ==> fn_wf(arch, #[trigger] final(prog).funcs@[i]),
        match r {
            Ok(()) => spec_mach_ingest(
                bytes@,
                offset as int,
                arch,
                crate::model::funcs_model(old(prog).funcs@),
            ) == Ok::<_, GoblinYaxErrorModel>(crate::model::funcs_model(final(prog).funcs@)),
            Err(e) => spec_mach_ingest(
                bytes@,
                offset as int,
                arch,
                crate::model::funcs_model(old(prog).funcs@),
            ) == Err::<Seq<crate::model::FunctionModel>, _>(e@),
        },
{
    let syms = match mach_symbol_rows(bytes, offset) {
        Ok(v) => v,
        Err(m) => {
            return Err(GoblinYaxError::Goblin(m));
        },
    };
    let segs = match mach_segment_rows(bytes, offset) {
        Ok(v) => v,
        Err(m) => {
            return Err(GoblinYaxError::Goblin(m));
        },
    };
    let exports = match mach_export_rows(bytes, offset) {
        Ok(v) => v,
        Err(m) => {
            return Err(GoblinYaxError::Goblin(m));
        },
    };
    let sym_ranges = mach_sym_ranges(&syms, &segs);
    match build_functions(bytes, &sym_ranges, arch, prog) {
        Ok(()) => {},
        Err(e) => {
            return Err(e);
        },
    }
    let export_ranges = mach_export_ranges(&exports);
    build_functions(bytes, &export_ranges, arch, prog)
}

/// What ingesting one artifact yields, per the named parser and decoder
/// results: the function list after the artifact's functions are added, or
/// the error — the container kinds, the two fat-binary failures, the
/// unsupported and unrecognised containers, and the corrupt-symbol and
/// decoder aborts, each exactly as the executable ingester produces them.
/// `fuel` bounds the nesting of archives: one archive level consumes one
/// unit, and a member is strictly shorter than its archive, so any fuel
/// above the buffer length gives the same answer (`lemma_ingest_fuel`).
pub open spec fn spec_ingest(
    bytes: Seq<u8>,
    arch: MachineArch,
    funcs: Seq<crate::model::FunctionModel>,
    fuel: nat,
) -> Result<Seq<crate::model::FunctionModel>, GoblinYaxErrorModel>
    decreases fuel, 0int, 0int,
{
    if fuel == 0 {
        Err(GoblinYaxErrorModel::Unrecognized)
    } else {
        match classification_of(bytes) {
            ObjKind::Elf => match elf_symbols_of(bytes) {
                Err(m) => Err(GoblinYaxErrorModel::Goblin(m@)),
                Ok(rows) => match elf_sections_of(bytes) {
                    Err(m) => Err(GoblinYaxErrorModel::Goblin(m@)),
                    Ok(secs) => match spec_elf_ranges(rows, secs) {
                        Err(e) => Err(e@),
                        Ok(ranges) => spec_build(bytes, ranges, arch, funcs),
                    },
                },
            },
            ObjKind::Pe => match pe_exports_of(bytes) {
                Err(m) => Err(GoblinYaxErrorModel::Goblin(m@)),
                Ok(rows) => spec_build(bytes, spec_pe_ranges(rows, rows), arch, funcs),
            },
            ObjKind::MachThin => spec_mach_ingest(bytes, 0, arch, funcs),
            ObjKind::MachFat => match spec_cpu_type(arch) {
                None => Err(GoblinYaxErrorModel::Fat),
                Some(ct) => match fat_slice_of(bytes, ct) {
                    Err(m) => Err(GoblinYaxErrorModel::Goblin(m@)),
                    Ok(None) => Err(GoblinYaxErrorModel::Fat),
                    Ok(Some(off)) => if off > usize::MAX as u64 {
                        Err(GoblinYaxErrorModel::Goblin("fat slice offset out of range"@))
                    } else {
                        spec_mach_ingest(bytes, off as int, arch, funcs)
                    },
                },
            },
            ObjKind::Archive => match archive_members_of(bytes) {
                Err(m) => Err(GoblinYaxErrorModel::Goblin(m@)),
                Ok(members) => spec_archive(bytes, members, arch, funcs, (fuel - 1) as nat),
            },
            ObjKind::Other => Err(GoblinYaxErrorModel::Unrecognized),
            ObjKind::Unknown => Err(GoblinYaxErrorModel::Unrecognized),
            ObjKind::Bad(m) => Err(GoblinYaxErrorModel::Goblin(m@)),
        }
    }
}

/// The archive fold: members ingested in order, each member's functions
/// replacing earlier ones of the same name; a member placed outside the
/// archive, or the first failing member, aborts everything.
pub open spec fn spec_archive(
    bytes: Seq<u8>,
    members: Seq<ArMember>,
    arch: MachineArch,
    funcs: Seq<crate::model::FunctionModel>,
    fuel: nat,
) -> Result<Seq<crate::model::FunctionModel>, GoblinYaxErrorModel>
    decreases fuel, 1int, members.len(),
{
    if members.len() == 0 {
        Ok(funcs)
    } else {
        let m = members.first();
        if m.offset < 1 || m.offset > bytes.len() || m.size > bytes.len() - m.offset {
            Err(GoblinYaxErrorModel::Goblin("archive member out of range"@))
        } else {
            match spec_ingest(
                bytes.subrange(m.offset as int, m.offset + m.size),
                arch,
                funcs,
                fuel,
            ) {
                Err(e) => Err(e),
                Ok(merged) => spec_archive(bytes, members.drop_first(), arch, merged, fuel),
            }
        }
    }
}

/// Above the buffer length the fuel does not matter: an archive member is
/// strictly shorter than its archive, so nesting consumes at most one unit
/// per byte.
pub proof fn lemma_ingest_fuel(
    bytes: Seq<u8>,
    arch: MachineArch,
    funcs: Seq<crate::model::FunctionModel>,
    f1: nat,
    f2: nat,
)
    requires
        f1 >= bytes.len() + 1,
        f2 >= bytes.len() + 1,
    ensures
        spec_ingest(bytes, arch, funcs, f1) == spec_ingest(bytes, arch, funcs, f2),
    decreases f1 + f2, 0int, 0int,
{
    match classification_of(bytes) {
        ObjKind::Archive => {
            match archive_members_of(bytes) {
                Ok(members) => {
                    lemma_archive_fuel(
                        bytes,
                        members,
                        arch,
                        funcs,
                        (f1 - 1) as nat,
                        (f2 - 1) as nat,
                    );
                },
                Err(_) => {},
            }
        },
        _ => {},
    }
}

/// Fuel irrelevance for the archive fold.
proof fn lemma_archive_fuel(
    bytes: Seq<u8>,
    members: Seq<ArMember>,
    arch: MachineArch,
    funcs: Seq<crate::model::FunctionModel>,
    f1: nat,
    f2: nat,
)
    requires
        f1 >= bytes.len(),
        f2 >= bytes.len(),
    ensures
        spec_archive(bytes, members, arch, funcs, f1) == spec_archive(
            bytes,
            members,
            arch,
            funcs,
            f2,
        ),
    decreases f1 + f2, 1int, members.len(),
{
    if members.len() > 0 {
        let m = members.first();
        if !(m.offset < 1 || m.offset > bytes.len() || m.size > bytes.len() - m.offset) {
            let sub = bytes.subrange(m.offset as int, m.offset + m.size);
            assert(sub.len() + 1 <= bytes.len());
            lemma_ingest_fuel(sub, arch, funcs, f1, f2);
            match spec_ingest(sub, arch, funcs, f1) {
                Ok(merged) => {
                    lemma_archive_fuel(bytes, members.drop_first(), arch, merged, f1, f2);
                },
                Err(_) => {},
            }
        }
    }
}

/// Ingest one artifact's bytes into the program: identify the container,
/// enumerate function ranges, decode each range into blocks.  Archive
/// members are ingested in turn, later members replacing earlier functions
/// of the same name.
pub fn parse_into(bytes: &[u8], arch: MachineArch, prog: &mut Program) -> (r: Result<
    (),
    GoblinYaxError,
>)
    ensures
        final(prog).gap == old(prog).gap,
        old(prog).wf() ==> final(prog).wf(),
        (forall|i: int|
            0 <= i < old(prog).funcs@.len() ==> fn_wf(arch, #[trigger] old(prog).funcs@[i]))
            ==> forall|i: int|
            0 <= i < final(prog).funcs@.len() ==> fn_wf(arch, #[trigger] final(prog).funcs@[i]),
        match r {
            Ok(()) => spec_ingest(
                bytes@,
                arch,
                crate::model::funcs_model(old(prog).funcs@),
                (bytes@.len() + 1) as nat,
            ) == Ok::<_, GoblinYaxErrorModel>(crate::model::funcs_model(final(prog).funcs@)),
            Err(e) => spec_ingest(
                bytes@,
                arch,
                crate::model::funcs_model(old(prog).funcs@),
                (bytes@.len() + 1) as nat,
            ) == Err::<Seq<crate::model::FunctionModel>, _>(e@),
        },
    decreases bytes@.len(),
{
    match classify(bytes) {
        ObjKind::Elf => {
            let rows = match elf_symbol_rows(bytes) {
                Ok(v) => v,
                Err(m) => {
                    return Err(GoblinYaxError::Goblin(m));
                },
            };
            let secs = match elf_section_rows(bytes) {
                Ok(v) => v,
                Err(m) => {
                    return Err(GoblinYaxError::Goblin(m));
                },
            };
            let ranges = match elf_ranges(&rows, &secs) {
                Ok(v) => v,
                Err(e) => {
                    return Err(e);
                },
            };
            build_functions(bytes, &ranges, arch, prog)
        },
        ObjKind::Pe => {
            let rows = match pe_export_rows(bytes) {
                Ok(v) => v,
                Err(m) => {
                    return Err(GoblinYaxError::Goblin(m));
                },
            };
            let ranges = pe_ranges(&rows);
            build_functions(bytes, &ranges, arch, prog)
        },
        ObjKind::MachThin => mach_into(bytes, 0, arch, prog),
        ObjKind::MachFat => {
            match cpu_type(arch) {
                None => Err(GoblinYaxError::Fat),
                Some(ct) => {
                    match fat_slice_offset(bytes, ct) {
                        Err(m) => Err(GoblinYaxError::Goblin(m)),
                        Ok(None) => Err(GoblinYaxError::Fat),
                        Ok(Some(off)) => {
                            if off > usize::MAX as u64 {
                                Err(
                                    GoblinYaxError::Goblin(
                                        "fat slice offset out of range".to_owned(),
                                    ),
                                )
                            } else {
                                mach_into(bytes, off as usize, arch, prog)
                            }
                        },
                    }
                },
            }
        },
        ObjKind::Archive => {
            let members = match archive_member_rows(bytes) {
                Ok(v) => v,
                Err(m) => {
                    return Err(GoblinYaxError::Goblin(m));
                },
            };
            let blen = bytes.len();
            let n = members.len();
            let ghost all_wf_before = forall|i: int|
                0 <= i < old(prog).funcs@.len() ==> fn_wf(arch, #[trigger] old(prog).funcs@[i]);
            let ghost old_model = crate::model::funcs_model(old(prog).funcs@);
            let ghost afuel = bytes@.len() as nat;
            proof {
                assert(members@.skip(0) =~= members@);
                assert(((bytes@.len() + 1) as nat - 1) as nat == afuel);
                assert(spec_ingest(bytes@, arch, old_model, (bytes@.len() + 1) as nat)
                    == spec_archive(bytes@, members@, arch, old_model, afuel));
            }
            for k in 0..n
                invariant
                    n == members@.len(),
                    blen == bytes@.len(),
                    prog.gap == old(prog).gap,
                    old(prog).wf() ==> prog.wf(),
                    all_wf_before == (forall|i: int|
                        0 <= i < old(prog).funcs@.len() ==> fn_wf(
                            arch,
                            #[trigger] old(prog).funcs@[i],
                        )),
                    all_wf_before ==> forall|i: int|
                        0 <= i < prog.funcs@.len() ==> fn_wf(arch, #[trigger] prog.funcs@[i]),
                    old_model == crate::model::funcs_model(old(prog).funcs@),
                    afuel == bytes@.len() as nat,
                    spec_ingest(bytes@, arch, old_model, (bytes@.len() + 1) as nat)
                        == spec_archive(bytes@, members@, arch, old_model, afuel),
                    spec_archive(bytes@, members@, arch, old_model, afuel) == spec_archive(
                        bytes@,
                        members@.skip(k as int),
                        arch,
                        crate::model::funcs_model(prog.funcs@),
                        afuel,
                    ),
            {
                proof {
                    assert(members@.skip(k as int).first() == members@[k as int]);
                    assert(members@.skip(k as int).drop_first() =~= members@.skip(k as int + 1));
                }
                let m = &members[k];
                if m.offset < 1 || m.offset > blen as u64 || m.size > blen as u64 - m.offset {
                    proof {
                        assert(spec_archive(
                            bytes@,
                            members@.skip(k as int),
                            arch,
                            crate::model::funcs_model(prog.funcs@),
                            afuel,
                        ) == Err::<Seq<crate::model::FunctionModel>, _>(
                            GoblinYaxErrorModel::Goblin("archive member out of range"@),
                        ));
                    }
                    return Err(GoblinYaxError::Goblin("archive member out of range".to_owned()));
                }
                let s = m.offset as usize;
                let e = (m.offset + m.size) as usize;
                let sub = &bytes[s..e];
                let ghost cur_model = crate::model::funcs_model(prog.funcs@);
                proof {
                    assert(sub@ == bytes@.subrange(m.offset as int, m.offset + m.size));
                    assert(sub@.len() + 1 <= afuel);
                    lemma_ingest_fuel(sub@, arch, cur_model, (sub@.len() + 1) as nat, afuel);
                }
                match parse_into(sub, arch, prog) {
                    Ok(()) => {
                        proof {
                            assert(spec_ingest(sub@, arch, cur_model, afuel) == Ok::<
                                _,
                                GoblinYaxErrorModel,
                            >(crate::model::funcs_model(prog.funcs@)));
                            assert(spec_archive(
                                bytes@,
                                members@.skip(k as int),
                                arch,
                                cur_model,
                                afuel,
                            ) == spec_archive(
                                bytes@,
                                members@.skip(k as int + 1),
                                arch,
                                crate::model::funcs_model(prog.funcs@),
                                afuel,
                            ));
                        }
                    },
                    Err(err) => {
                        proof {
                            assert(spec_ingest(sub@, arch, cur_model, afuel)
                                == Err::<Seq<crate::model::FunctionModel>, _>(err@));
                            assert(spec_archive(
                                bytes@,
                                members@.skip(k as int),
                                arch,
                                cur_model,
                                afuel,
                            ) == Err::<Seq<crate::model::FunctionModel>, _>(err@));
                        }
                        return Err(err);
                    },
                }
            }
            proof {
                assert(members@.skip(n as int) =~= Seq::<ArMember>::empty());
                assert(spec_archive(
                    bytes@,
                    members@.skip(n as int),
                    arch,
                    crate::model::funcs_model(prog.funcs@),
                    afuel,
                ) == Ok::<_, GoblinYaxErrorModel>(crate::model::funcs_model(prog.funcs@)));
            }
            Ok(())
        },
        ObjKind::Unknown => Err(GoblinYaxError::Unrecognized),
        ObjKind::Other => Err(GoblinYaxError::Unrecognized),
        ObjKind::Bad(m) => Err(GoblinYaxError::Goblin(m)),
    }
}

/// Parse a machine-code artifact into a program for diffing: every function
/// named by a demangled symbol, decoded into basic blocks, with the machine
/// gap penalty.
pub fn parse_program(bytes: &[u8], arch: MachineArch) -> (r: Result<Program, GoblinYaxError>)
    ensures
        match r {
            Ok(p) => p.wf() && p.gap == 1 && (forall|i: int|
                0 <= i < p.funcs@.len() ==> fn_wf(arch, #[trigger] p.funcs@[i])) && spec_ingest(
                bytes@,
                arch,
                Seq::<crate::model::FunctionModel>::empty(),
                (bytes@.len() + 1) as nat,
            ) == Ok::<_, GoblinYaxErrorModel>(crate::model::funcs_model(p.funcs@)),
            Err(e) => spec_ingest(
                bytes@,
                arch,
                Seq::<crate::model::FunctionModel>::empty(),
                (bytes@.len() + 1) as nat,
            ) == Err::<Seq<crate::model::FunctionModel>, _>(e@),
        },
{
    let mut prog = Program::new(1);
    proof {
        assert(crate::model::funcs_model(prog.funcs@) =~= Seq::<
            crate::model::FunctionModel,
        >::empty());
    }
    match parse_into(bytes, arch, &mut prog) {
        Ok(()) => Ok(prog),
        Err(e) => Err(e),
    }
}

} // verus!
