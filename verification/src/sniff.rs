//! Magic-byte format detection: ELF, Mach-O (thin and fat), PE/COFF,
//! WebAssembly, Java class files, static libraries and the archive formats
//! that most often smuggle prebuilt binaries into dependency trees.
//! Everything is decided from the first 512 bytes of the file.

use vstd::prelude::*;
use vstd::string::StringExecFns;
use crate::text::{dec, hex4, push_dec, push_hex4, push_str};

verus! {

/// How many leading bytes [`detect`] needs to see.
pub const HEADER_LEN: usize = 512;

/// ELF object file type (`e_type`).
#[derive(Debug, Clone, Copy, PartialEq, Eq, Structural)]
pub enum ElfType {
    Relocatable,
    Executable,
    SharedObject,
    Core,
    Other(u16),
}

/// Mach-O file type (`filetype`).
#[derive(Debug, Clone, Copy, PartialEq, Eq, Structural)]
pub enum MachType {
    Object,
    Executable,
    Dylib,
    Bundle,
    Other(u32),
}

/// A recognized file format, with whatever the header reveals.
#[derive(Debug, Clone, PartialEq)]
pub enum Format {
    Elf { bits: u8, little_endian: bool, etype: ElfType, machine: String },
    MachO { bits: u8, cpu: String, filetype: MachType },
    MachOFat { arches: u32 },
    Pe { machine: String, dll: bool },
    Wasm { version: u32 },
    JavaClass { major: u16 },
    /// `!<arch>` static library / ar archive (`.a`, `.lib`).
    ArArchive,
    Zip,
    Gzip,
    Xz,
    Zstd,
    Bzip2,
    Tar,
}

/// The mathematical value of a [`Format`]: its strings as character
/// sequences.
pub enum FormatV {
    Elf { bits: u8, little_endian: bool, etype: ElfType, machine: Seq<char> },
    MachO { bits: u8, cpu: Seq<char>, filetype: MachType },
    MachOFat { arches: u32 },
    Pe { machine: Seq<char>, dll: bool },
    Wasm { version: u32 },
    JavaClass { major: u16 },
    ArArchive,
    Zip,
    Gzip,
    Xz,
    Zstd,
    Bzip2,
    Tar,
}

impl View for Format {
    type V = FormatV;

    open spec fn view(&self) -> FormatV {
        match self {
            Format::Elf { bits, little_endian, etype, machine } => FormatV::Elf {
                bits: *bits,
                little_endian: *little_endian,
                etype: *etype,
                machine: machine@,
            },
            Format::MachO { bits, cpu, filetype } => FormatV::MachO {
                bits: *bits,
                cpu: cpu@,
                filetype: *filetype,
            },
            Format::MachOFat { arches } => FormatV::MachOFat { arches: *arches },
            Format::Pe { machine, dll } => FormatV::Pe { machine: machine@, dll: *dll },
            Format::Wasm { version } => FormatV::Wasm { version: *version },
            Format::JavaClass { major } => FormatV::JavaClass { major: *major },
            Format::ArArchive => FormatV::ArArchive,
            Format::Zip => FormatV::Zip,
            Format::Gzip => FormatV::Gzip,
            Format::Xz => FormatV::Xz,
            Format::Zstd => FormatV::Zstd,
            Format::Bzip2 => FormatV::Bzip2,
            Format::Tar => FormatV::Tar,
        }
    }
}

/// The view of an optional format.
pub open spec fn opt_format(o: Option<Format>) -> Option<FormatV> {
    match o {
        Some(f) => Some(f@),
        None => None,
    }
}

/// Native executable code: machine code, byte code or a static library.
pub open spec fn native_spec(f: FormatV) -> bool {
    match f {
        FormatV::Elf { .. } | FormatV::MachO { .. } | FormatV::MachOFat { .. } | FormatV::Pe { .. }
        | FormatV::Wasm { .. } | FormatV::JavaClass { .. } | FormatV::ArArchive => true,
        _ => false,
    }
}

/// One-line description of a format.
pub open spec fn describe_spec(f: FormatV) -> Seq<char> {
    match f {
        FormatV::Elf { etype, .. } => match etype {
            ElfType::Relocatable => "ELF relocatable object"@,
            ElfType::Executable => "ELF executable"@,
            ElfType::SharedObject => "ELF shared object"@,
            ElfType::Core => "ELF core dump"@,
            ElfType::Other(t) => "ELF (type "@ + dec(t as nat) + ")"@,
        },
        FormatV::MachO { filetype, .. } => match filetype {
            MachType::Object => "Mach-O object"@,
            MachType::Executable => "Mach-O executable"@,
            MachType::Dylib => "Mach-O dylib"@,
            MachType::Bundle => "Mach-O bundle"@,
            MachType::Other(t) => "Mach-O (filetype "@ + dec(t as nat) + ")"@,
        },
        FormatV::MachOFat { arches } => "Mach-O universal binary ("@ + dec(arches as nat)
            + " arches)"@,
        FormatV::Pe { dll, .. } => if dll {
            "PE DLL"@
        } else {
            "PE executable"@
        },
        FormatV::Wasm { version } => "WebAssembly module (v"@ + dec(version as nat) + ")"@,
        FormatV::JavaClass { major } => "Java class file (major "@ + dec(major as nat) + ")"@,
        FormatV::ArArchive => "static library (ar archive)"@,
        FormatV::Zip => "zip archive"@,
        FormatV::Gzip => "gzip data"@,
        FormatV::Xz => "xz data"@,
        FormatV::Zstd => "zstd data"@,
        FormatV::Bzip2 => "bzip2 data"@,
        FormatV::Tar => "tar archive"@,
    }
}

/// Architecture text of a format, when its header names one.
pub open spec fn arch_spec(f: FormatV) -> Option<Seq<char>> {
    match f {
        FormatV::Elf { machine, bits, .. } => Some(machine + " ("@ + dec(bits as nat) + "-bit)"@),
        FormatV::MachO { cpu, .. } => Some(cpu),
        FormatV::MachOFat { .. } => Some("multi-arch"@),
        FormatV::Pe { machine, .. } => Some(machine),
        _ => None,
    }
}

impl Format {
    /// Native executable code (as opposed to an archive that may contain it).
    pub fn is_native(&self) -> (r: bool)
        ensures
            r == native_spec(self@),
    {
        match self {
            Format::Elf { .. } | Format::MachO { .. } | Format::MachOFat { .. } | Format::Pe { .. }
            | Format::Wasm { .. } | Format::JavaClass { .. } | Format::ArArchive => true,
            _ => false,
        }
    }

    /// Human-readable one-line description, e.g. `ELF shared object`.
    pub fn describe(&self) -> (r: String)
        ensures
            r@ == describe_spec(self@),
    {
        match self {
            Format::Elf { etype, .. } => match etype {
                ElfType::Relocatable => String::from_str("ELF relocatable object"),
                ElfType::Executable => String::from_str("ELF executable"),
                ElfType::SharedObject => String::from_str("ELF shared object"),
                ElfType::Core => String::from_str("ELF core dump"),
                ElfType::Other(t) => {
                    let mut s = String::from_str("ELF (type ");
                    push_dec(&mut s, *t as u64);
                    push_str(&mut s, ")");
                    s
                },
            },
            Format::MachO { filetype, .. } => match filetype {
                MachType::Object => String::from_str("Mach-O object"),
                MachType::Executable => String::from_str("Mach-O executable"),
                MachType::Dylib => String::from_str("Mach-O dylib"),
                MachType::Bundle => String::from_str("Mach-O bundle"),
                MachType::Other(t) => {
                    let mut s = String::from_str("Mach-O (filetype ");
                    push_dec(&mut s, *t as u64);
                    push_str(&mut s, ")");
                    s
                },
            },
            Format::MachOFat { arches } => {
                let mut s = String::from_str("Mach-O universal binary (");
                push_dec(&mut s, *arches as u64);
                push_str(&mut s, " arches)");
                s
            },
            Format::Pe { dll, .. } => if *dll {
                String::from_str("PE DLL")
            } else {
                String::from_str("PE executable")
            },
            Format::Wasm { version } => {
                let mut s = String::from_str("WebAssembly module (v");
                push_dec(&mut s, *version as u64);
                push_str(&mut s, ")");
                s
            },
            Format::JavaClass { major } => {
                let mut s = String::from_str("Java class file (major ");
                push_dec(&mut s, *major as u64);
                push_str(&mut s, ")");
                s
            },
            Format::ArArchive => String::from_str("static library (ar archive)"),
            Format::Zip => String::from_str("zip archive"),
            Format::Gzip => String::from_str("gzip data"),
            Format::Xz => String::from_str("xz data"),
            Format::Zstd => String::from_str("zstd data"),
            Format::Bzip2 => String::from_str("bzip2 data"),
            Format::Tar => String::from_str("tar archive"),
        }
    }

    /// Architecture string when the header names one.
    pub fn arch(&self) -> (r: Option<String>)
        ensures
            crate::util::opt_view(r) == arch_spec(self@),
    {
        match self {
            Format::Elf { machine, bits, .. } => {
                let mut s = machine.clone();
                push_str(&mut s, " (");
                push_dec(&mut s, *bits as u64);
                push_str(&mut s, "-bit)");
                Some(s)
            },
            Format::MachO { cpu, .. } => Some(cpu.clone()),
            Format::MachOFat { .. } => Some(String::from_str("multi-arch")),
            Format::Pe { machine, .. } => Some(machine.clone()),
            _ => None,
        }
    }
}

// ---------------------------------------------------------------------
// Header fields
// ---------------------------------------------------------------------

/// Little-endian `u16` at `off`.
pub open spec fn le16(b: Seq<u8>, off: int) -> nat {
    b[off] as nat + 256 * (b[off + 1] as nat)
}

/// Big-endian `u16` at `off`.
pub open spec fn be16(b: Seq<u8>, off: int) -> nat {
    256 * (b[off] as nat) + b[off + 1] as nat
}

/// Little-endian `u32` at `off`.
pub open spec fn le32(b: Seq<u8>, off: int) -> nat {
    b[off] as nat + 0x100 * (b[off + 1] as nat) + 0x1_0000 * (b[off + 2] as nat) + 0x100_0000 * (
    b[off + 3] as nat)
}

/// Big-endian `u32` at `off`.
pub open spec fn be32(b: Seq<u8>, off: int) -> nat {
    0x100_0000 * (b[off] as nat) + 0x1_0000 * (b[off + 1] as nat) + 0x100 * (b[off + 2] as nat) + b[off
        + 3] as nat
}

/// `b` holds the bytes `pat` at offset `off`.
pub open spec fn bytes_at(b: Seq<u8>, off: int, pat: Seq<u8>) -> bool {
    0 <= off && off + pat.len() <= b.len() && b.subrange(off, off + pat.len()) == pat
}

fn le16_at(b: &[u8], off: usize) -> (r: u16)
    requires
        off + 2 <= b.len(),
    ensures
        r as nat == le16(b@, off as int),
{
    ((b[off] as u32) + 256 * (b[off + 1] as u32)) as u16
}

fn be16_at(b: &[u8], off: usize) -> (r: u16)
    requires
        off + 2 <= b.len(),
    ensures
        r as nat == be16(b@, off as int),
{
    (256 * (b[off] as u32) + (b[off + 1] as u32)) as u16
}

fn le32_at(b: &[u8], off: usize) -> (r: u32)
    requires
        off + 4 <= b.len(),
    ensures
        r as nat == le32(b@, off as int),
{
    ((b[off] as u64) + 0x100 * (b[off + 1] as u64) + 0x1_0000 * (b[off + 2] as u64) + 0x100_0000 * (
    b[off + 3] as u64)) as u32
}

fn be32_at(b: &[u8], off: usize) -> (r: u32)
    requires
        off + 4 <= b.len(),
    ensures
        r as nat == be32(b@, off as int),
{
    (0x100_0000 * (b[off] as u64) + 0x1_0000 * (b[off + 1] as u64) + 0x100 * (b[off + 2] as u64) + (
    b[off + 3] as u64)) as u32
}

/// Whether `b` holds `pat` at `off`.
fn has_at(b: &[u8], off: usize, pat: &[u8]) -> (r: bool)
    ensures
        r == bytes_at(b@, off as int, pat@),
{
    if off > b.len() || b.len() - off < pat.len() {
        return false;
    }
    let mut i: usize = 0;
    while i < pat.len()
        invariant
            off + pat.len() <= b.len(),
            0 <= i <= pat.len(),
            forall|j: int| 0 <= j < i ==> b@[off + j] == pat@[j],
        decreases pat.len() - i,
    {
        if b[off + i] != pat[i] {
            assert(b@.subrange(off as int, off + pat.len())[i as int] != pat@[i as int]);
            return false;
        }
        i = i + 1;
    }
    assert(b@.subrange(off as int, off + pat.len()) =~= pat@);
    true
}

// ---------------------------------------------------------------------
// Names
// ---------------------------------------------------------------------

/// `e_machine` names.
pub open spec fn elf_machine_spec(m: nat) -> Seq<char> {
    if m == 3 {
        "x86"@
    } else if m == 8 {
        "MIPS"@
    } else if m == 20 {
        "PowerPC"@
    } else if m == 21 {
        "PowerPC64"@
    } else if m == 22 {
        "S390"@
    } else if m == 40 {
        "ARM"@
    } else if m == 62 {
        "x86-64"@
    } else if m == 183 {
        "AArch64"@
    } else if m == 243 {
        "RISC-V"@
    } else {
        "EM_"@ + dec(m)
    }
}

/// Mach-O `cputype` names.
pub open spec fn macho_cpu_spec(cpu: nat) -> Seq<char> {
    if cpu == 7 {
        "x86"@
    } else if cpu == 0x0100_0007 {
        "x86-64"@
    } else if cpu == 12 {
        "ARM"@
    } else if cpu == 0x0100_000c {
        "ARM64"@
    } else if cpu == 18 {
        "PowerPC"@
    } else {
        "cputype "@ + dec(cpu)
    }
}

/// PE `Machine` names.
pub open spec fn pe_machine_spec(m: nat) -> Seq<char> {
    if m == 0x014c {
        "x86"@
    } else if m == 0x8664 {
        "x86-64"@
    } else if m == 0x01c0 {
        "ARM"@
    } else if m == 0xaa64 {
        "ARM64"@
    } else {
        "machine 0x"@ + hex4(m)
    }
}

fn elf_machine_name(m: u16) -> (r: String)
    ensures
        r@ == elf_machine_spec(m as nat),
{
    match m {
        3 => String::from_str("x86"),
        8 => String::from_str("MIPS"),
        20 => String::from_str("PowerPC"),
        21 => String::from_str("PowerPC64"),
        22 => String::from_str("S390"),
        40 => String::from_str("ARM"),
        62 => String::from_str("x86-64"),
        183 => String::from_str("AArch64"),
        243 => String::from_str("RISC-V"),
        other => {
            let mut s = String::from_str("EM_");
            push_dec(&mut s, other as u64);
            s
        },
    }
}

fn macho_cpu_name(cpu: u32) -> (r: String)
    ensures
        r@ == macho_cpu_spec(cpu as nat),
{
    match cpu {
        7 => String::from_str("x86"),
        0x0100_0007 => String::from_str("x86-64"),
        12 => String::from_str("ARM"),
        0x0100_000c => String::from_str("ARM64"),
        18 => String::from_str("PowerPC"),
        other => {
            let mut s = String::from_str("cputype ");
            push_dec(&mut s, other as u64);
            s
        },
    }
}

fn pe_machine_name(m: u16) -> (r: String)
    ensures
        r@ == pe_machine_spec(m as nat),
{
    match m {
        0x014c => String::from_str("x86"),
        0x8664 => String::from_str("x86-64"),
        0x01c0 => String::from_str("ARM"),
        0xaa64 => String::from_str("ARM64"),
        other => {
            let mut s = String::from_str("machine 0x");
            push_hex4(&mut s, other as u32);
            s
        },
    }
}

/// ELF `e_type` classification.
pub open spec fn elf_type_spec(t: u16) -> ElfType {
    if t == 1 {
        ElfType::Relocatable
    } else if t == 2 {
        ElfType::Executable
    } else if t == 3 {
        ElfType::SharedObject
    } else if t == 4 {
        ElfType::Core
    } else {
        ElfType::Other(t)
    }
}

/// Mach-O `filetype` classification.
pub open spec fn mach_type_spec(t: u32) -> MachType {
    if t == 1 {
        MachType::Object
    } else if t == 2 {
        MachType::Executable
    } else if t == 6 {
        MachType::Dylib
    } else if t == 8 {
        MachType::Bundle
    } else {
        MachType::Other(t)
    }
}

// ---------------------------------------------------------------------
// Detectors
// ---------------------------------------------------------------------

/// ELF: `\x7fELF`, a known class (32/64) and byte order; type and machine
/// read in the declared byte order.
pub open spec fn elf_spec(b: Seq<u8>) -> Option<FormatV> {
    if b.len() < 0x14 || !bytes_at(b, 0, seq![0x7fu8, 0x45u8, 0x4cu8, 0x46u8]) {
        None
    } else if b[4] != 1 && b[4] != 2 {
        None
    } else if b[5] != 1 && b[5] != 2 {
        None
    } else {
        let little = b[5] == 1;
        let t = if little { le16(b, 0x10) } else { be16(b, 0x10) };
        let m = if little { le16(b, 0x12) } else { be16(b, 0x12) };
        Some(FormatV::Elf {
            bits: if b[4] == 1 { 32u8 } else { 64u8 },
            little_endian: little,
            etype: elf_type_spec(t as u16),
            machine: elf_machine_spec(m),
        })
    }
}

/// Thin Mach-O in either on-disk byte order.
pub open spec fn macho_spec(b: Seq<u8>) -> Option<FormatV> {
    if b.len() < 16 {
        None
    } else {
        let magic = be32(b, 0);
        if magic != 0xfeed_face && magic != 0xfeed_facf && magic != 0xcefa_edfe && magic
            != 0xcffa_edfe {
            None
        } else {
            let bits: u8 = if magic == 0xfeed_face || magic == 0xcefa_edfe {
                32
            } else {
                64
            };
            let swapped = magic == 0xcefa_edfe || magic == 0xcffa_edfe;
            let cpu = if swapped { le32(b, 4) } else { be32(b, 4) };
            let ft = if swapped { le32(b, 12) } else { be32(b, 12) };
            Some(FormatV::MachO {
                bits,
                cpu: macho_cpu_spec(cpu),
                filetype: mach_type_spec(ft as u32),
            })
        }
    }
}

/// `0xCAFEBABE`: a fat Mach-O when the next word is below 45 (an arch
/// count), otherwise a Java class file whose major version is the low half.
pub open spec fn cafebabe_spec(b: Seq<u8>) -> Option<FormatV> {
    if b.len() < 8 || be32(b, 0) != 0xcafe_babe {
        None
    } else {
        let next = be32(b, 4);
        if next < 45 {
            Some(FormatV::MachOFat { arches: next as u32 })
        } else {
            Some(FormatV::JavaClass { major: (next % 0x1_0000) as u16 })
        }
    }
}

/// PE/COFF: `MZ`, and a `PE\0\0` header that lies wholly inside `b`.
pub open spec fn pe_spec(b: Seq<u8>) -> Option<FormatV> {
    if b.len() < 0x40 || !bytes_at(b, 0, seq![0x4du8, 0x5au8]) {
        None
    } else {
        let off = le32(b, 0x3c);
        if off + 24 > b.len() || !bytes_at(b, off as int, seq![0x50u8, 0x45u8, 0u8, 0u8]) {
            None
        } else {
            Some(FormatV::Pe {
                machine: pe_machine_spec(le16(b, off + 4int)),
                dll: (le16(b, off + 22int) / 0x2000) % 2 == 1,
            })
        }
    }
}

/// Format of a file from its leading bytes `b` and its full length: the
/// first detector that fires, in the order ELF, Mach-O, `0xCAFEBABE`, PE,
/// WebAssembly, ar, zip, gzip, xz, zstd, bzip2, tar.
pub open spec fn detect_spec(b: Seq<u8>, file_len: u64) -> Option<FormatV> {
    if elf_spec(b) is Some {
        elf_spec(b)
    } else if macho_spec(b) is Some {
        macho_spec(b)
    } else if cafebabe_spec(b) is Some {
        cafebabe_spec(b)
    } else if pe_spec(b) is Some {
        pe_spec(b)
    } else if b.len() >= 8 && bytes_at(b, 0, seq![0u8, 0x61u8, 0x73u8, 0x6du8]) {
        Some(FormatV::Wasm { version: le32(b, 4) as u32 })
    } else if bytes_at(b, 0, seq![0x21u8, 0x3cu8, 0x61u8, 0x72u8, 0x63u8, 0x68u8, 0x3eu8, 0x0au8]) {
        Some(FormatV::ArArchive)
    } else if bytes_at(b, 0, seq![0x50u8, 0x4bu8, 0x03u8, 0x04u8]) {
        Some(FormatV::Zip)
    } else if bytes_at(b, 0, seq![0x1fu8, 0x8bu8]) {
        Some(FormatV::Gzip)
    } else if bytes_at(b, 0, seq![0xfdu8, 0x37u8, 0x7au8, 0x58u8, 0x5au8, 0u8]) {
        Some(FormatV::Xz)
    } else if bytes_at(b, 0, seq![0x28u8, 0xb5u8, 0x2fu8, 0xfdu8]) {
        Some(FormatV::Zstd)
    } else if b.len() >= 4 && bytes_at(b, 0, seq![0x42u8, 0x5au8, 0x68u8]) && 0x30 <= b[3] <= 0x39 {
        Some(FormatV::Bzip2)
    } else if b.len() >= 262 && bytes_at(b, 257, seq![0x75u8, 0x73u8, 0x74u8, 0x61u8, 0x72u8])
        && file_len >= 512 {
        Some(FormatV::Tar)
    } else {
        None
    }
}

fn detect_elf(b: &[u8]) -> (r: Option<Format>)
    ensures
        opt_format(r) == elf_spec(b@),
{
    if b.len() < 0x14 || !has_at(b, 0, &[0x7f, 0x45, 0x4c, 0x46]) {
        return None;
    }
    let bits: u8 = match b[4] {
        1 => 32,
        2 => 64,
        _ => return None,
    };
    let little_endian = match b[5] {
        1 => true,
        2 => false,
        _ => return None,
    };
    let t = if little_endian { le16_at(b, 0x10) } else { be16_at(b, 0x10) };
    let m = if little_endian { le16_at(b, 0x12) } else { be16_at(b, 0x12) };
    let etype = match t {
        1 => ElfType::Relocatable,
        2 => ElfType::Executable,
        3 => ElfType::SharedObject,
        4 => ElfType::Core,
        t => ElfType::Other(t),
    };
    Some(Format::Elf { bits, little_endian, etype, machine: elf_machine_name(m) })
}

fn detect_macho(b: &[u8]) -> (r: Option<Format>)
    ensures
        opt_format(r) == macho_spec(b@),
{
    if b.len() < 16 {
        return None;
    }
    let magic = be32_at(b, 0);
    let (bits, swapped): (u8, bool) = match magic {
        0xfeed_face => (32, false),
        0xfeed_facf => (64, false),
        0xcefa_edfe => (32, true),
        0xcffa_edfe => (64, true),
        _ => return None,
    };
    let cpu_word = if swapped { le32_at(b, 4) } else { be32_at(b, 4) };
    let ft = if swapped { le32_at(b, 12) } else { be32_at(b, 12) };
    let filetype = match ft {
        1 => MachType::Object,
        2 => MachType::Executable,
        6 => MachType::Dylib,
        8 => MachType::Bundle,
        t => MachType::Other(t),
    };
    Some(Format::MachO { bits, cpu: macho_cpu_name(cpu_word), filetype })
}

fn detect_cafebabe(b: &[u8]) -> (r: Option<Format>)
    ensures
        opt_format(r) == cafebabe_spec(b@),
{
    if b.len() < 8 || be32_at(b, 0) != 0xcafe_babe {
        return None;
    }
    let next = be32_at(b, 4);
    if next < 45 {
        Some(Format::MachOFat { arches: next })
    } else {
        Some(Format::JavaClass { major: (next % 0x1_0000) as u16 })
    }
}

fn detect_pe(b: &[u8]) -> (r: Option<Format>)
    ensures
        opt_format(r) == pe_spec(b@),
{
    if b.len() < 0x40 || !has_at(b, 0, &[0x4d, 0x5a]) {
        return None;
    }
    let off = le32_at(b, 0x3c);
    // Only trust headers that fit in the sniff window; a plain DOS stub or a
    // truncated read is reported as unrecognized rather than guessed at.
    if (off as u64) + 24 > (b.len() as u64) {
        return None;
    }
    let pe_off = off as usize;
    if !has_at(b, pe_off, &[0x50, 0x45, 0, 0]) {
        return None;
    }
    let machine = pe_machine_name(le16_at(b, pe_off + 4));
    let characteristics = le16_at(b, pe_off + 22);
    Some(Format::Pe { machine, dll: (characteristics / 0x2000) % 2 == 1 })
}

/// Detect a format from the first bytes of a file (`header`) given the full
/// file length. Returns `None` for anything unrecognized.
pub fn detect(header: &[u8], file_len: u64) -> (r: Option<Format>)
    ensures
        opt_format(r) == detect_spec(header@, file_len),
{
    let b = header;
    if let Some(f) = detect_elf(b) {
        return Some(f);
    }
    if let Some(f) = detect_macho(b) {
        return Some(f);
    }
    if let Some(f) = detect_cafebabe(b) {
        return Some(f);
    }
    if let Some(f) = detect_pe(b) {
        return Some(f);
    }
    if b.len() >= 8 && has_at(b, 0, &[0, 0x61, 0x73, 0x6d]) {
        return Some(Format::Wasm { version: le32_at(b, 4) });
    }
    if has_at(b, 0, &[0x21, 0x3c, 0x61, 0x72, 0x63, 0x68, 0x3e, 0x0a]) {
        return Some(Format::ArArchive);
    }
    if has_at(b, 0, &[0x50, 0x4b, 0x03, 0x04]) {
        return Some(Format::Zip);
    }
    if has_at(b, 0, &[0x1f, 0x8b]) {
        return Some(Format::Gzip);
    }
    if has_at(b, 0, &[0xfd, 0x37, 0x7a, 0x58, 0x5a, 0]) {
        return Some(Format::Xz);
    }
    if has_at(b, 0, &[0x28, 0xb5, 0x2f, 0xfd]) {
        return Some(Format::Zstd);
    }
    if b.len() >= 4 && has_at(b, 0, &[0x42, 0x5a, 0x68]) && 0x30 <= b[3] && b[3] <= 0x39 {
        return Some(Format::Bzip2);
    }
    // tar has no leading magic; "ustar" sits at offset 257 and tar files are
    // at least one 512-byte block long.
    if b.len() >= 262 && has_at(b, 257, &[0x75, 0x73, 0x74, 0x61, 0x72]) && file_len >= 512 {
        return Some(Format::Tar);
    }
    None
}

// ---------------------------------------------------------------------
// Laws on names
// ---------------------------------------------------------------------

/// The Mach-O CPU types with a name of their own.
pub open spec fn known_macho_cpu(cpu: nat) -> bool {
    cpu == 7 || cpu == 0x0100_0007 || cpu == 12 || cpu == 0x0100_000c || cpu == 18
}

/// One architecture is named alike whichever header names it: Mach-O
/// `CPU_TYPE_X86`, ELF `EM_386` and PE `IMAGE_FILE_MACHINE_I386` all read
/// the same, as do the x86-64 (`CPU_TYPE_X86_64`, `EM_X86_64`,
/// `IMAGE_FILE_MACHINE_AMD64`), 32-bit ARM and 64-bit ARM (Mach-O and PE)
/// types, and PowerPC (Mach-O and ELF).
pub proof fn law_architectures_named_alike_across_formats()
    ensures
        macho_cpu_spec(7) == elf_machine_spec(3) && elf_machine_spec(3) == pe_machine_spec(0x014c),
        macho_cpu_spec(0x0100_0007) == elf_machine_spec(62) && elf_machine_spec(62) == pe_machine_spec(
            0x8664,
        ),
        macho_cpu_spec(12) == elf_machine_spec(40) && elf_machine_spec(40) == pe_machine_spec(0x01c0),
        macho_cpu_spec(0x0100_000c) == pe_machine_spec(0xaa64),
        macho_cpu_spec(18) == elf_machine_spec(20),
{
}

/// Distinct known Mach-O CPU types get distinct names; in particular the
/// 64-bit ABI variant of a CPU family (flag `0x0100_0000`) is never named
/// like its 32-bit member.
pub proof fn law_macho_cpu_names_distinct(a: nat, b: nat)
    requires
        known_macho_cpu(a),
        known_macho_cpu(b),
        a != b,
    ensures
        macho_cpu_spec(a) != macho_cpu_spec(b),
{
    reveal_strlit("x86");
    reveal_strlit("x86-64");
    reveal_strlit("ARM");
    reveal_strlit("ARM64");
    reveal_strlit("PowerPC");
    assert("x86"@.len() != "x86-64"@.len());
    assert("x86"@ != "ARM"@) by {
        assert("x86"@[0] != "ARM"@[0]);
    }
    assert("x86"@.len() != "ARM64"@.len());
    assert("x86"@.len() != "PowerPC"@.len());
    assert("x86-64"@ != "ARM64"@) by {
        assert("x86-64"@.len() != "ARM64"@.len());
    }
    assert("x86-64"@.len() != "ARM"@.len());
    assert("x86-64"@.len() != "PowerPC"@.len());
    assert("ARM"@.len() != "ARM64"@.len());
    assert("ARM"@.len() != "PowerPC"@.len());
    assert("ARM64"@.len() != "PowerPC"@.len());
}

} // verus!
