use lib::baseline::{diff, parse, render, LockEntry, HEADER};
use lib::inventory::Kind;

fn entry(path: &str, sha_seed: u8) -> LockEntry {
    LockEntry {
        sha256: format!("{:064x}", sha_seed as u128),
        size: 100,
        kind: Kind::Native,
        path: path.to_string(),
    }
}

#[test]
fn render_then_parse_round_trips() {
    let entries = vec![
        entry("node_modules/a/lib.so", 1),
        LockEntry {
            sha256: format!("{:064x}", 2u128),
            size: 4096,
            kind: Kind::Opaque,
            path: "vendor/blob with spaces.bin".into(),
        },
    ];
    let text = render(&entries);
    assert!(text.starts_with(HEADER));
    let parsed = parse(&text).unwrap();
    assert_eq!(parsed, entries);
}

#[test]
fn paths_with_spaces_survive_because_path_is_the_last_field() {
    let text = format!(
        "{HEADER}\n{:064x} 9 archive deep/dir/my archive.tar.gz\n",
        3u128
    );
    let parsed = parse(&text).unwrap();
    assert_eq!(parsed[0].path, "deep/dir/my archive.tar.gz");
}

#[test]
fn parse_rejects_bad_digests_sizes_and_kinds_with_line_numbers() {
    let bad_sha = format!("{HEADER}\nnothex 9 native a\n");
    assert!(parse(&bad_sha).unwrap_err().contains("line 2"));

    let bad_size = format!("{HEADER}\n{:064x} lots native a\n", 1u128);
    assert!(parse(&bad_size).unwrap_err().contains("not a size"));

    let bad_kind = format!("{HEADER}\n{:064x} 9 sneaky a\n", 1u128);
    assert!(parse(&bad_kind).unwrap_err().contains("unknown kind"));

    let short = format!("{HEADER}\n{:064x} 9\n", 1u128);
    assert!(parse(&short).unwrap_err().contains("expected"));
}

#[test]
fn parse_requires_the_version_header() {
    let text = format!("{:064x} 9 native a\n", 1u128);
    assert!(parse(&text).unwrap_err().contains("header"));
    assert!(parse(HEADER).unwrap().is_empty());
    assert!(parse("").unwrap().is_empty());
}

#[test]
fn diff_reports_added_removed_changed() {
    let baseline = vec![entry("a.so", 1), entry("b.so", 2), entry("c.so", 3)];
    let mut b_changed = entry("b.so", 9);
    b_changed.size = 200;
    let current = vec![entry("a.so", 1), b_changed, entry("d.so", 4)];
    let drift = diff(&baseline, &current);
    assert_eq!(drift.added.len(), 1);
    assert_eq!(drift.added[0].path, "d.so");
    assert_eq!(drift.removed.len(), 1);
    assert_eq!(drift.removed[0].path, "c.so");
    assert_eq!(drift.changed.len(), 1);
    assert_eq!(drift.changed[0].0.sha256, format!("{:064x}", 2u128));
    assert_eq!(drift.changed[0].1.sha256, format!("{:064x}", 9u128));
    assert!(!drift.is_clean());
    assert_eq!(drift.total(), 3);
    let fresh = diff(&[], &[entry("new.so", 1)]);
    assert_eq!(fresh.added.len(), 1);
    assert!(fresh.removed.is_empty());
}

#[test]
fn identical_sets_are_clean() {
    let baseline = vec![entry("a.so", 1), entry("b.so", 2)];
    let drift = diff(&baseline, &baseline.clone());
    assert!(drift.is_clean());
    assert_eq!(drift.total(), 0);
}

#[test]
fn render_writes_header_then_one_line_per_entry() {
    let text = render(&[entry("x y.so", 1)]);
    assert_eq!(
        text,
        format!("{HEADER}\n{:064x} 100 native x y.so\n", 1u128)
    );
    assert_eq!(render(&[]), format!("{HEADER}\n"));
}

#[test]
fn parse_skips_blank_and_comment_lines() {
    let text = format!("{HEADER}\n\n# note\n{:064x} 7 opaque p\n", 5u128);
    let parsed = parse(&text).unwrap();
    assert_eq!(parsed.len(), 1);
    assert_eq!(parsed[0].size, 7);
    assert_eq!(parsed[0].kind, Kind::Opaque);
}

#[test]
fn later_entries_for_a_path_win_in_diff() {
    let baseline = vec![entry("a.so", 1), entry("a.so", 2)];
    let current = vec![entry("a.so", 2)];
    assert!(diff(&baseline, &current).is_clean());
}

#[test]
fn size_change_alone_is_no_drift() {
    let baseline = vec![entry("a.so", 1)];
    let mut same = entry("a.so", 1);
    same.size = 5;
    assert!(diff(&baseline, &[same]).is_clean());
}

#[test]
fn header_must_come_before_the_first_entry() {
    let late = format!("{:064x} 9 native a\n{HEADER}\n", 1u128);
    assert_eq!(
        parse(&late),
        Err(format!("missing '{HEADER}' header line"))
    );
    let garbage_first = format!("garbage\n{HEADER}\n");
    assert!(parse(&garbage_first).unwrap_err().contains("header"));
    let comment_then_header = format!("# note\n\n{HEADER}\n{:064x} 9 native a\n", 1u128);
    assert_eq!(parse(&comment_then_header).unwrap().len(), 1);
    let header_only_late = format!("# note\n{HEADER}\n");
    assert!(parse(&header_only_late).unwrap().is_empty());
}

#[test]
fn diff_the_other_way_swaps_sides() {
    let a = vec![entry("a.so", 1), entry("b.so", 2), entry("c.so", 3)];
    let b = vec![entry("a.so", 1), entry("b.so", 9), entry("d.so", 4)];
    let ab = diff(&a, &b);
    let ba = diff(&b, &a);
    assert_eq!(ab.added, ba.removed);
    assert_eq!(ab.removed, ba.added);
    assert_eq!(ab.changed.len(), ba.changed.len());
    for (x, y) in ab.changed.iter().zip(ba.changed.iter()) {
        assert_eq!(x.0, y.1);
        assert_eq!(x.1, y.0);
    }
}

#[test]
fn kind_and_size_changes_do_not_move_paths_between_lists() {
    let base = vec![entry("a.so", 1), entry("b.so", 2)];
    let cur = vec![entry("b.so", 5), entry("c.so", 3)];
    let mut cur2 = vec![entry("b.so", 5), entry("c.so", 3)];
    cur2[0].size = 1;
    cur2[1].kind = Kind::Archive;
    let d1 = diff(&base, &cur);
    let d2 = diff(&base, &cur2);
    let paths = |v: &Vec<LockEntry>| v.iter().map(|e| e.path.clone()).collect::<Vec<_>>();
    assert_eq!(paths(&d1.added), paths(&d2.added));
    assert_eq!(d1.removed, d2.removed);
    assert_eq!(d1.changed.len(), d2.changed.len());
    assert_eq!(d1.changed[0].1.path, d2.changed[0].1.path);
}
