use lib::baseline::{Drift, LockEntry};
use lib::inventory::Kind;
use lib::inventory::{Census, EntropyText, Finding};
use lib::provenance::Provenance;
use lib::report::{clips_at_twelve, diff_report, drift_printable, explain_report, render_table, scan_report};

#[test]
fn diff_report_clean_and_dirty() {
    let clean = diff_report(&Drift::default(), 5);
    assert!(clean.contains("baseline OK — 5 blobs, no drift"));
    let single = diff_report(&Drift::default(), 1);
    assert!(single.contains("baseline OK — 1 blob, no drift"));

    let entry = |p: &str| LockEntry {
        sha256: "cd".repeat(32),
        size: 1024,
        kind: Kind::Native,
        path: p.into(),
    };
    let drift = Drift {
        added: vec![entry("new.so")],
        removed: vec![entry("old.so")],
        changed: vec![(entry("mod.so"), entry("mod.so"))],
    };
    let r = diff_report(&drift, 5);
    assert!(r.contains("+ added"));
    assert!(r.contains("new.so"));
    assert!(r.contains("- removed"));
    assert!(r.contains("~ changed"));
    assert!(r.contains("drift: 1 added · 1 removed · 1 changed (baseline had 5 blobs)"));
}

#[test]
fn diff_report_lines_are_exact() {
    let e = |p: &str, sha: &str, size: u64, kind: Kind| LockEntry {
        sha256: sha.into(),
        size,
        kind,
        path: p.into(),
    };
    let drift = Drift {
        added: vec![e("a.so", &"ab".repeat(32), 4096, Kind::Native)],
        removed: vec![e("b.tgz", "short", 10, Kind::Archive)],
        changed: vec![(
            e("c.bin", &"01".repeat(32), 2048, Kind::Opaque),
            e("c.bin", &"fe".repeat(32), 5_452_595, Kind::Opaque),
        )],
    };
    assert!(drift_printable(&drift));
    assert_eq!(
        diff_report(&drift, 0),
        "+ added    native  a.so  (4.0K, sha256 abababababab…)\n\
         - removed  archive b.tgz  (was 10B, sha256 short…)\n\
         ~ changed  opaque  c.bin  (sha256 010101010101… -> fefefefefefe…, 2.0K -> 5.2M)\n\
         drift: 1 added · 1 removed · 1 changed (baseline had 0 blobs)\n"
    );
}

#[test]
fn twelve_byte_cut_must_land_on_a_char_boundary() {
    assert!(clips_at_twelve("0123456789abcdef"));
    assert!(clips_at_twelve("ééééééé"));
    assert!(clips_at_twelve("0123456789é"));
    assert!(!clips_at_twelve("0123456789aé"));
    assert!(clips_at_twelve(""));
}

fn finding(rel: &str, kind: Kind, label_pkg: Option<(&str, &str)>) -> Finding {
    Finding {
        rel: rel.into(),
        size: 5_452_595,
        kind,
        format: "ELF shared object".into(),
        arch: Some("x86-64 (64-bit)".into()),
        entropy: EntropyText {
            two_places: format!("{:.2}", 6.31f64),
            four_places: format!("{:.4}", 6.31f64),
        },
        sha256: "ab".repeat(32),
        provenance: match label_pkg {
            Some((pkg, ver)) => Provenance {
                ecosystem: Some("npm"),
                package: Some(pkg.into()),
                version: Some(ver.into()),
                package_root: None,
            },
            None => Provenance::default(),
        },
        inner: None,
        hints: vec!["Node.js native addon — loaded straight into the node process".into()],
    }
}

fn census(findings: Vec<Finding>) -> Census {
    Census {
        root: "/proj".into(),
        files_scanned: 42,
        findings,
        warnings: vec![],
    }
}

#[test]
fn scan_report_groups_by_package_and_counts() {
    let mut c = census(vec![
        finding(
            "node_modules/sharp/a.node",
            Kind::Native,
            Some(("sharp", "0.33.4")),
        ),
        finding(
            "node_modules/sharp/b.node",
            Kind::Native,
            Some(("sharp", "0.33.4")),
        ),
        finding("assets/blob.bin", Kind::Opaque, None),
    ]);
    c.warnings
        .push("cannot read /proj/locked: permission denied".into());
    let r = scan_report(&c);
    assert!(r.contains("npm · sharp@0.33.4 — 2 findings"));
    assert!(r.contains("unattributed — 1 finding\n"));
    assert!(r.contains(
        "summary: 42 files scanned · 2 native · 0 archives · 1 opaque blob · 1 package affected"
    ));
    assert!(r.contains("warning: cannot read /proj/locked"));
    assert!(r.find("sharp").unwrap() < r.find("unattributed").unwrap());
}

#[test]
fn scan_report_on_clean_tree_is_just_the_summary() {
    let r = scan_report(&census(vec![]));
    assert_eq!(
        r,
        "summary: 42 files scanned · 0 native · 0 archives · 0 opaque blobs · 0 packages affected\n"
    );
}

#[test]
fn explain_report_lists_all_fields_and_hints() {
    let f = finding(
        "node_modules/sharp/a.node",
        Kind::Native,
        Some(("sharp", "0.33.4")),
    );
    let r = explain_report(&f);
    assert!(r.contains("kind:     native"));
    assert!(r.contains("format:   ELF shared object"));
    assert!(r.contains("arch:     x86-64 (64-bit)"));
    assert!(r.contains("size:     5.2M (5452595 bytes)"));
    assert!(r.contains("entropy:  6.31 bits/byte"));
    assert!(r.contains(&"ab".repeat(32)));
    assert!(r.contains("package:  npm · sharp@0.33.4"));
    assert!(r.contains("- Node.js native addon"));
}

#[test]
fn scan_report_table_is_aligned_and_groups_sorted() {
    let mut a = finding("x/z.so", Kind::Archive, Some(("zeta", "1")));
    a.format = "zip archive".into();
    a.arch = None;
    a.size = 10;
    let b = finding("y/a.so", Kind::Native, Some(("alpha", "2")));
    let mut u = finding("loose.bin", Kind::Opaque, None);
    u.inner = Some("inner/loose.bin".into());
    let r = scan_report(&census(vec![a, u, b]));
    let expected = "npm · alpha@2 — 1 finding\n  KIND   FORMAT            ARCH            SIZE ENTROPY PATH\n  native ELF shared object x86-64 (64-bit) 5.2M 6.31    y/a.so\n\n\
npm · zeta@1 — 1 finding\n  KIND    FORMAT      ARCH SIZE ENTROPY PATH\n  archive zip archive -    10B  6.31    x/z.so\n\n\
unattributed — 1 finding\n  KIND   FORMAT            ARCH            SIZE ENTROPY PATH\n  opaque ELF shared object x86-64 (64-bit) 5.2M 6.31    inner/loose.bin\n\n\
summary: 42 files scanned · 1 native · 1 archive · 1 opaque blob · 2 packages affected\n";
    assert_eq!(r, expected);
}

#[test]
fn render_table_pads_all_but_the_last_cell_and_trims() {
    let rows = vec![
        vec!["a".to_string(), "bb".to_string(), "c".to_string()],
        vec!["dddd".to_string(), "".to_string()],
        vec![],
    ];
    assert_eq!(render_table(&rows), "  a    bb c\n  dddd\n\n");
}

#[test]
fn explain_report_without_arch_or_hints() {
    let mut f = finding("blob.bin", Kind::Opaque, None);
    f.arch = None;
    f.hints.clear();
    f.size = 973;
    assert_eq!(
        explain_report(&f),
        format!(
            "blob.bin\n  kind:     opaque\n  format:   ELF shared object\n  size:     973B (973 bytes)\n  entropy:  6.31 bits/byte\n  sha256:   {}\n  package:  unattributed\n",
            "ab".repeat(32)
        )
    );
}
