use lib::sniff::{detect, ElfType, Format, MachType};

/// A minimal but well-formed ELF header for the given class/endian/type.
fn elf_bytes(bits: u8, little: bool, etype: u16, machine: u16) -> Vec<u8> {
    let mut b = vec![0u8; 64];
    b[..4].copy_from_slice(b"\x7fELF");
    b[4] = if bits == 64 { 2 } else { 1 };
    b[5] = if little { 1 } else { 2 };
    b[6] = 1;
    let (t, m) = if little {
        (etype.to_le_bytes(), machine.to_le_bytes())
    } else {
        (etype.to_be_bytes(), machine.to_be_bytes())
    };
    b[0x10..0x12].copy_from_slice(&t);
    b[0x12..0x14].copy_from_slice(&m);
    b
}

#[test]
fn elf_shared_object_x86_64_little_endian() {
    let b = elf_bytes(64, true, 3, 62);
    let f = detect(&b, b.len() as u64).expect("must detect ELF");
    assert_eq!(
        f,
        Format::Elf {
            bits: 64,
            little_endian: true,
            etype: ElfType::SharedObject,
            machine: "x86-64".into()
        }
    );
    assert_eq!(f.describe(), "ELF shared object");
    assert_eq!(f.arch().as_deref(), Some("x86-64 (64-bit)"));
    assert!(f.is_native());
}

#[test]
fn elf_big_endian_fields_are_swapped() {
    let b = elf_bytes(64, false, 2, 22);
    match detect(&b, 64).unwrap() {
        Format::Elf {
            little_endian,
            etype,
            machine,
            ..
        } => {
            assert!(!little_endian);
            assert_eq!(etype, ElfType::Executable);
            assert_eq!(machine, "S390");
        }
        other => panic!("wrong format: {other:?}"),
    }
}

#[test]
fn elf_aarch64_and_riscv_names() {
    assert!(matches!(
        detect(&elf_bytes(64, true, 3, 183), 64),
        Some(Format::Elf { machine, .. }) if machine == "AArch64"
    ));
    assert!(matches!(
        detect(&elf_bytes(64, true, 3, 243), 64),
        Some(Format::Elf { machine, .. }) if machine == "RISC-V"
    ));
}

fn macho_bytes(magic: u32, cpu: u32, filetype: u32, swapped: bool) -> Vec<u8> {
    let mut b = vec![0u8; 32];
    b[..4].copy_from_slice(&magic.to_be_bytes());
    if swapped {
        b[4..8].copy_from_slice(&cpu.to_le_bytes());
        b[12..16].copy_from_slice(&filetype.to_le_bytes());
    } else {
        b[4..8].copy_from_slice(&cpu.to_be_bytes());
        b[12..16].copy_from_slice(&filetype.to_be_bytes());
    }
    b
}

#[test]
fn macho_arm64_dylib_as_written_on_apple_silicon() {
    let b = macho_bytes(0xcffa_edfe, 0x0100_000c, 6, true);
    let f = detect(&b, 32).unwrap();
    assert_eq!(
        f,
        Format::MachO {
            bits: 64,
            cpu: "ARM64".into(),
            filetype: MachType::Dylib
        }
    );
    assert_eq!(f.describe(), "Mach-O dylib");
}

#[test]
fn macho_big_endian_executable() {
    let b = macho_bytes(0xfeed_face, 18, 2, false);
    assert_eq!(
        detect(&b, 32).unwrap(),
        Format::MachO {
            bits: 32,
            cpu: "PowerPC".into(),
            filetype: MachType::Executable
        }
    );
}

#[test]
fn cafebabe_disambiguates_fat_macho_from_java_class() {
    let mut fat = vec![0u8; 16];
    fat[..4].copy_from_slice(&0xcafe_babeu32.to_be_bytes());
    fat[4..8].copy_from_slice(&2u32.to_be_bytes());
    assert_eq!(detect(&fat, 16).unwrap(), Format::MachOFat { arches: 2 });

    let mut class = vec![0u8; 16];
    class[..4].copy_from_slice(&0xcafe_babeu32.to_be_bytes());
    class[6..8].copy_from_slice(&52u16.to_be_bytes());
    assert_eq!(detect(&class, 16).unwrap(), Format::JavaClass { major: 52 });
}

fn pe_bytes(machine: u16, characteristics: u16) -> Vec<u8> {
    let mut b = vec![0u8; 0x100];
    b[..2].copy_from_slice(b"MZ");
    b[0x3c..0x40].copy_from_slice(&0x80u32.to_le_bytes());
    b[0x80..0x84].copy_from_slice(b"PE\0\0");
    b[0x84..0x86].copy_from_slice(&machine.to_le_bytes());
    b[0x80 + 22..0x80 + 24].copy_from_slice(&characteristics.to_le_bytes());
    b
}

#[test]
fn pe_dll_vs_exe_via_characteristics_bit() {
    let dll = detect(&pe_bytes(0x8664, 0x2102), 256).unwrap();
    assert_eq!(
        dll,
        Format::Pe {
            machine: "x86-64".into(),
            dll: true
        }
    );
    assert_eq!(dll.describe(), "PE DLL");
    let exe = detect(&pe_bytes(0xaa64, 0x0102), 256).unwrap();
    assert_eq!(
        exe,
        Format::Pe {
            machine: "ARM64".into(),
            dll: false
        }
    );
}

#[test]
fn mz_without_a_valid_pe_header_is_not_a_pe() {
    let mut b = vec![0u8; 0x100];
    b[..2].copy_from_slice(b"MZ");
    assert_eq!(detect(&b, 256), None);
    b[0x3c..0x40].copy_from_slice(&0x0004_0000u32.to_le_bytes());
    assert_eq!(detect(&b, 0x100), None);
}

#[test]
fn wasm_module_with_version() {
    assert_eq!(
        detect(b"\0asm\x01\0\0\0", 8).unwrap(),
        Format::Wasm { version: 1 }
    );
}

#[test]
fn ar_archive_magic() {
    assert_eq!(detect(b"!<arch>\nfoo", 512).unwrap(), Format::ArArchive);
    assert!(Format::ArArchive.is_native());
}

#[test]
fn compression_and_tar_magics() {
    assert_eq!(detect(b"PK\x03\x04....", 100).unwrap(), Format::Zip);
    assert_eq!(detect(b"\x1f\x8b\x08....", 100).unwrap(), Format::Gzip);
    assert_eq!(detect(b"\xfd7zXZ\0..", 100).unwrap(), Format::Xz);
    assert_eq!(detect(b"\x28\xb5\x2f\xfd..", 100).unwrap(), Format::Zstd);
    assert_eq!(detect(b"BZh9....", 100).unwrap(), Format::Bzip2);
    assert!(!Format::Zip.is_native());
    let mut b = vec![0u8; 512];
    b[257..262].copy_from_slice(b"ustar");
    assert_eq!(detect(&b, 512).unwrap(), Format::Tar);
    assert_eq!(detect(&b, 300), None);
}

#[test]
fn plain_text_and_truncated_magics_are_unrecognized() {
    assert_eq!(detect(b"#!/bin/sh\necho hello\n", 21), None);
    assert_eq!(detect(b"\x7fEL", 3), None);
    assert_eq!(detect(b"", 0), None);
}

#[test]
fn elf_32_bit_relocatable_describes_and_names_arch() {
    let b = elf_bytes(32, true, 1, 3);
    let f = detect(&b, 64).unwrap();
    assert_eq!(f.describe(), "ELF relocatable object");
    assert_eq!(f.arch().as_deref(), Some("x86 (32-bit)"));
}

#[test]
fn archives_and_wasm_have_no_arch() {
    assert_eq!(Format::Zip.arch(), None);
    assert_eq!(Format::Wasm { version: 1 }.arch(), None);
    assert!(Format::Wasm { version: 1 }.is_native());
    assert!(!Format::Tar.is_native());
}

#[test]
fn describe_formats_numbers_in_its_text() {
    assert_eq!(
        Format::MachOFat { arches: 3 }.describe(),
        "Mach-O universal binary (3 arches)"
    );
    assert_eq!(Format::Wasm { version: 1 }.describe(), "WebAssembly module (v1)");
    assert_eq!(Format::JavaClass { major: 52 }.describe(), "Java class file (major 52)");
    let odd = Format::Elf {
        bits: 64,
        little_endian: true,
        etype: ElfType::Other(65024),
        machine: "x86-64".into(),
    };
    assert_eq!(odd.describe(), "ELF (type 65024)");
    assert_eq!(Format::MachOFat { arches: 2 }.arch().as_deref(), Some("multi-arch"));
}
