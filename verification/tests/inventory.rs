use lib::inventory::Kind;

#[test]
fn kind_names_round_trip() {
    for k in [Kind::Native, Kind::Archive, Kind::Opaque] {
        assert_eq!(Kind::parse(k.as_str()), Some(k));
    }
    assert_eq!(Kind::Native.as_str(), "native");
    assert_eq!(Kind::parse("sneaky"), None);
    assert_eq!(Kind::parse("Native"), None);
}

use lib::inventory::{classify, hints_for, inspect_finding, is_media_path, EntropyText, Scan};
use lib::provenance::{DirFacts, Provenance};
use lib::sniff::{ElfType, Format};
use std::path::Path;

/// A minimal ELF shared object (x86-64, little-endian).
fn elf_so() -> Vec<u8> {
    let mut b = vec![0u8; 64];
    b[..4].copy_from_slice(b"\x7fELF");
    b[4] = 2;
    b[5] = 1;
    b[0x10] = 3;
    b[0x12] = 62;
    b
}

fn text(h: f64) -> EntropyText {
    EntropyText {
        two_places: format!("{h:.2}"),
        four_places: format!("{h:.4}"),
    }
}

fn facts_for(file: &str, at: &dyn Fn(&str) -> DirFacts) -> Vec<DirFacts> {
    Path::new(file)
        .ancestors()
        .skip(1)
        .map(|d| at(d.to_str().unwrap()))
        .collect()
}

fn npm() -> Provenance {
    Provenance {
        ecosystem: Some("npm"),
        package: Some("p".into()),
        version: None,
        package_root: None,
    }
}

#[test]
fn classify_applies_size_media_and_archive_rules() {
    let elf = elf_so();
    assert_eq!(
        classify(&elf, 64, "logo.png", 4096, false, false).map(|(k, _)| k),
        Some(Kind::Native)
    );
    let noise = vec![0x55u8; 16];
    assert_eq!(classify(&noise, 8192, "photo.JPG", 4096, false, false).map(|(k, _)| k), None);
    assert_eq!(
        classify(&noise, 8192, "photo.jpg", 4096, true, false).map(|(k, _)| k),
        Some(Kind::Opaque)
    );
    assert_eq!(classify(&noise, 4095, "data.bin", 4096, false, false).map(|(k, _)| k), None);
    assert_eq!(
        classify(&noise, 4096, "data.bin", 4096, false, false).map(|(k, _)| k),
        Some(Kind::Opaque)
    );
    let gz = b"\x1f\x8b\x08....";
    assert_eq!(
        classify(gz, 100, "a.tgz", 4096, false, false).map(|(k, _)| k),
        Some(Kind::Archive)
    );
    assert_eq!(classify(gz, 100, "a.tgz", 4096, false, true).map(|(k, _)| k), None);
    assert!(is_media_path("a/b/FONT.woff2"));
    assert!(!is_media_path("a/b/font"));
}

#[test]
fn hints_follow_path_format_and_provenance() {
    let so = Format::Elf {
        bits: 64,
        little_endian: true,
        etype: ElfType::SharedObject,
        machine: "x86-64".into(),
    };
    let h = hints_for(
        "node_modules/classic-level/prebuilds/linux-x64/node.napi.node",
        Kind::Native,
        Some(&so),
        &npm(),
        Some("prebuilds/linux-x64/node.napi.node"),
        false,
    );
    assert_eq!(
        h,
        vec![
            "prebuilt binary shipped inside the package (prebuilds/)".to_string(),
            "Node.js native addon — loaded straight into the node process".to_string(),
        ]
    );
    let pip = Provenance {
        ecosystem: Some("pip"),
        ..npm()
    };
    let h = hints_for("site-packages/x/_m.so", Kind::Native, Some(&so), &pip, None, false);
    assert_eq!(h, vec!["compiled Python extension module — imported like plain Python".to_string()]);
    let h = hints_for("wheels/vendored-1.0-py3-none-any.WHL", Kind::Archive, Some(&Format::Zip), &Provenance::default(), None, false);
    assert_eq!(
        h,
        vec![
            "Python wheel — may contain compiled extensions".to_string(),
            "no package manifest found above this file".to_string(),
        ]
    );
    let h = hints_for("prebuild.tar.gz", Kind::Archive, Some(&Format::Gzip), &npm(), None, false);
    assert_eq!(h, vec!["bundled tarball — may unpack binaries at install time".to_string()]);
    let h = hints_for("payload.bin", Kind::Opaque, None, &npm(), None, true);
    assert_eq!(
        h,
        vec!["no known format; content is statistically random (packed, encrypted or compressed)".to_string()]
    );
    let h = hints_for("a/build/Release/x.o", Kind::Native, Some(&Format::Elf {
        bits: 64,
        little_endian: true,
        etype: ElfType::Relocatable,
        machine: "x86-64".into(),
    }), &npm(), None, true);
    assert_eq!(
        h,
        vec![
            "node-gyp build output (build/Release/) — compiled on this machine at install time".to_string(),
            "precompiled object file — linked into builds without compilation".to_string(),
        ]
    );
}

#[test]
fn scan_keeps_findings_and_sorts_them_by_path() {
    let root = "/t";
    let mut s = Scan::new(root, 4096, false, false);
    assert!(!s.count_file(0));
    assert!(s.count_file(64));
    let elf = elf_so();
    let (kind, format) = s.classify_header(&elf, 64, "/t/node_modules/sharp/build/Release/sharp.node").unwrap();
    let file = "/t/node_modules/sharp/build/Release/sharp.node";
    let facts = facts_for(file, &|d| {
        if d == "/t/node_modules/sharp" {
            DirFacts {
                package_json_file: true,
                package_json: r#"{"name":"sharp","version":"0.33.4"}"#.into(),
                ..DirFacts::default()
            }
        } else {
            DirFacts::default()
        }
    });
    s.add(file, 64, &elf, kind, format, "ab".repeat(32), text(3.2), false, &facts, &DirFacts::default());
    assert!(s.count_file(8192));
    let blob = "/t/a/payload.bin";
    let bfacts = facts_for(blob, &|_| DirFacts::default());
    s.add(blob, 8192, &[0x55u8; 16], Kind::Opaque, None, "cd".repeat(32), text(7.9), true, &bfacts, &DirFacts::default());
    assert!(s.count_file(8192));
    s.add("/t/a/low.bin", 8192, &[0x55u8; 16], Kind::Opaque, None, "ef".repeat(32), text(4.0), false, &bfacts, &DirFacts::default());
    s.warn("cannot read /t/x: denied".into());
    let c = s.finish();
    assert_eq!(c.files_scanned, 4);
    assert_eq!(c.root, "/t");
    assert_eq!(c.warnings, vec!["cannot read /t/x: denied".to_string()]);
    assert_eq!(c.findings.len(), 2);
    assert_eq!(c.findings[0].rel, "a/payload.bin");
    assert_eq!(c.findings[0].format, "high-entropy data");
    assert_eq!(c.findings[0].provenance.label(), "unattributed");
    let f = &c.findings[1];
    assert_eq!(f.rel, "node_modules/sharp/build/Release/sharp.node");
    assert_eq!(f.kind, Kind::Native);
    assert_eq!(f.format, "ELF shared object");
    assert_eq!(f.arch.as_deref(), Some("x86-64 (64-bit)"));
    assert_eq!(f.provenance.label(), "npm · sharp@0.33.4");
    assert_eq!(f.inner.as_deref(), Some("build/Release/sharp.node"));
    assert!(f.hints.iter().any(|h| h.contains("node-gyp")));
    assert!(f.hints.iter().any(|h| h.contains("native addon")));
}
