//! Whole scans over an in-memory tree, driven the way the program drives
//! the library over the disk.

use lib::entropy::Counter;
use lib::inventory::{inspect_finding, Census, EntropyText, Finding, Kind, Scan};
use lib::provenance::DirFacts;
use lib::sha256::{hex_digest, Sha256};
use lib::sniff;
use lib::walk::{Found, Meta, Step, Walker};
use std::collections::BTreeMap;
use std::path::Path;

/// Files by path; directories are implied by the paths, or listed when
/// empty.
struct Tree {
    files: BTreeMap<String, Vec<u8>>,
    empty_dirs: Vec<String>,
}

impl Tree {
    fn new(root: &str, files: &[(&str, Vec<u8>)]) -> Tree {
        Tree {
            files: files
                .iter()
                .map(|(p, b)| (format!("{root}/{p}"), b.clone()))
                .collect(),
            empty_dirs: vec![],
        }
    }

    fn with_empty_dir(mut self, root: &str, d: &str) -> Tree {
        self.empty_dirs.push(format!("{root}/{d}"));
        self
    }

    fn paths(&self) -> Vec<String> {
        let mut all: Vec<String> = self.files.keys().cloned().collect();
        all.extend(self.empty_dirs.iter().map(|d| format!("{d}/")));
        all.sort();
        all
    }

    fn is_dir(&self, d: &str) -> bool {
        let prefix = format!("{d}/");
        self.paths().iter().any(|p| p.starts_with(&prefix))
    }

    fn list(&self, d: &str) -> Option<Vec<String>> {
        if !self.is_dir(d) {
            return None;
        }
        let prefix = format!("{d}/");
        let mut names: Vec<String> = self
            .paths()
            .iter()
            .filter_map(|p| p.strip_prefix(&prefix))
            .map(|rest| rest.split('/').next().unwrap().to_string())
            .filter(|n| !n.is_empty())
            .collect();
        names.sort();
        names.dedup();
        Some(names)
    }

    fn meta(&self, p: &str) -> Meta {
        match self.files.get(p) {
            Some(b) => Meta::File(b.len() as u64),
            None if self.is_dir(p) => Meta::Dir,
            None => Meta::Other,
        }
    }

    fn text(&self, p: String) -> Option<String> {
        self.files.get(&p).map(|b| String::from_utf8_lossy(b).into_owned())
    }

    fn facts(&self, d: &str) -> DirFacts {
        let at = |n: &str| format!("{d}/{n}");
        DirFacts {
            package_json_file: self.files.contains_key(&at("package.json")),
            package_json: self.text(at("package.json")).unwrap_or_default(),
            cargo_toml_file: self.files.contains_key(&at("Cargo.toml")),
            cargo_toml: self.text(at("Cargo.toml")),
            pyproject_file: self.files.contains_key(&at("pyproject.toml")),
            setup_py_file: self.files.contains_key(&at("setup.py")),
            go_mod_file: self.files.contains_key(&at("go.mod")),
            go_mod: self.text(at("go.mod")).unwrap_or_default(),
            composer_json_file: self.files.contains_key(&at("composer.json")),
            composer_json: self.text(at("composer.json")).unwrap_or_default(),
            modules_txt: self.text(at("modules.txt")),
            entries: self.list(d),
        }
    }

    fn ancestor_facts(&self, file: &str) -> Vec<DirFacts> {
        Path::new(file)
            .ancestors()
            .skip(1)
            .map(|d| self.facts(d.to_str().unwrap()))
            .collect()
    }
}

fn bits_per_byte(c: &Counter) -> f64 {
    let total = c.bytes_seen();
    if total == 0 {
        return 0.0;
    }
    let total = total as f64;
    let mut h = 0.0f64;
    for b in 0..=255u8 {
        let n = c.count(b);
        if n == 0 {
            continue;
        }
        let p = n as f64 / total;
        h -= p * p.log2();
    }
    h
}

fn digest(data: &[u8]) -> (String, f64, EntropyText) {
    let mut h = Sha256::new();
    let mut c = Counter::new();
    for chunk in data.chunks(64 * 1024) {
        h.update(chunk);
        c.update(chunk);
    }
    let e = bits_per_byte(&c);
    (
        h.finish_hex(),
        e,
        EntropyText {
            two_places: format!("{e:.2}"),
            four_places: format!("{e:.4}"),
        },
    )
}

struct Config {
    entropy_threshold: f64,
    min_blob: u64,
    include_media: bool,
    skip_archives: bool,
}

fn config() -> Config {
    Config {
        entropy_threshold: 7.5,
        min_blob: 4096,
        include_media: false,
        skip_archives: false,
    }
}

fn scan(tree: &Tree, root: &str, cfg: &Config) -> Census {
    let mut s = Scan::new(root, cfg.min_blob, cfg.include_media, cfg.skip_archives);
    let mut w = Walker::new(root);
    let root_facts = tree.facts(root);
    loop {
        match w.next() {
            Step::Done => break,
            Step::List(d) => {
                let listing = tree.list(&d).ok_or_else(|| "not a directory".to_string());
                if let Some(m) = w.listed(&d, listing) {
                    s.warn(m);
                }
            }
            Step::Examine(p) => match w.examined(&p, Ok(tree.meta(&p))) {
                Found::File(e) => {
                    if !s.count_file(e.size) {
                        continue;
                    }
                    let data = &tree.files[&e.path];
                    let header = &data[..data.len().min(sniff::HEADER_LEN)];
                    let Some((kind, format)) = s.classify_header(header, e.size, &e.path) else {
                        continue;
                    };
                    let (sha, h, text) = digest(data);
                    let facts = tree.ancestor_facts(&e.path);
                    s.add(
                        &e.path,
                        e.size,
                        header,
                        kind,
                        format,
                        sha,
                        text,
                        h >= cfg.entropy_threshold,
                        &facts,
                        &root_facts,
                    );
                }
                Found::Warning(m) => s.warn(m),
                Found::Nothing => {}
            },
        }
    }
    s.finish()
}

fn inspect(tree: &Tree, root: &str, path: &str) -> Finding {
    let data = &tree.files[path];
    let header = &data[..data.len().min(sniff::HEADER_LEN)];
    let format = sniff::detect(header, data.len() as u64);
    let (sha, h, text) = digest(data);
    inspect_finding(
        root,
        path,
        data.len() as u64,
        format,
        sha,
        text,
        h >= 7.5,
        &tree.ancestor_facts(path),
        &tree.facts(root),
    )
}

/// A minimal ELF shared object (x86-64, little-endian).
fn elf_so() -> Vec<u8> {
    let mut b = vec![0u8; 64];
    b[..4].copy_from_slice(b"\x7fELF");
    b[4] = 2;
    b[5] = 1;
    b[0x10] = 3;
    b[0x12] = 62;
    b
}

/// Deterministic pseudo-random bytes that hit ~8 bits/byte of entropy.
fn noise(len: usize) -> Vec<u8> {
    let mut state = 0x9e3779b97f4a7c15u64;
    (0..len)
        .map(|_| {
            state = state
                .wrapping_mul(6364136223846793005)
                .wrapping_add(1442695040888963407);
            (state >> 33) as u8
        })
        .collect()
}

#[test]
fn finds_an_elf_inside_node_modules_with_provenance() {
    let d = "/elf";
    let tree = Tree::new(
        d,
        &[
            (
                "node_modules/sharp/package.json",
                br#"{"name":"sharp","version":"0.33.4"}"#.to_vec(),
            ),
            ("node_modules/sharp/build/Release/sharp.node", elf_so()),
            ("node_modules/sharp/index.js", b"module.exports = 1;\n".to_vec()),
        ],
    );
    let census = scan(&tree, d, &config());
    assert_eq!(census.findings.len(), 1);
    let f = &census.findings[0];
    assert_eq!(f.kind, Kind::Native);
    assert_eq!(f.format, "ELF shared object");
    assert_eq!(f.arch.as_deref(), Some("x86-64 (64-bit)"));
    assert_eq!(f.provenance.label(), "npm · sharp@0.33.4");
    assert!(f.hints.iter().any(|h| h.contains("node-gyp")));
    assert!(f.hints.iter().any(|h| h.contains("native addon")));
    assert_eq!(f.sha256.len(), 64);
}

#[test]
fn source_and_empty_files_produce_no_findings() {
    let d = "/clean";
    let tree = Tree::new(
        d,
        &[
            ("src/lib.js", b"export const x = 1;\n".to_vec()),
            ("README.md", b"# hello\n".to_vec()),
            ("empty.so", vec![]),
        ],
    );
    let census = scan(&tree, d, &config());
    assert_eq!(census.files_scanned, 3);
    assert!(census.findings.is_empty());
}

#[test]
fn high_entropy_unknown_file_is_opaque() {
    let d = "/opaque";
    let tree = Tree::new(d, &[("payload.bin", noise(8192))]);
    let census = scan(&tree, d, &config());
    assert_eq!(census.findings.len(), 1);
    let f = &census.findings[0];
    assert_eq!(f.kind, Kind::Opaque);
    let e: f64 = f.entropy.four_places.parse().unwrap();
    assert!(e > 7.5, "noise entropy was {}", e);
    assert!(f.hints.iter().any(|h| h.contains("statistically random")));
}

#[test]
fn unknown_files_below_either_threshold_are_skipped() {
    let d = "/thresholds";
    let tree = Tree::new(d, &[("tiny.bin", noise(512)), ("data.bin", vec![7u8; 100_000])]);
    let census = scan(&tree, d, &config());
    assert!(census.findings.is_empty());
}

#[test]
fn media_extensions_are_exempt_unless_all() {
    let d = "/media";
    let tree = Tree::new(d, &[("photo.jpg", noise(8192))]);
    let mut cfg = config();
    assert!(scan(&tree, d, &cfg).findings.is_empty());
    cfg.include_media = true;
    assert_eq!(scan(&tree, d, &cfg).findings.len(), 1);
}

#[test]
fn media_extension_does_not_hide_a_real_elf() {
    let d = "/disguise";
    let tree = Tree::new(d, &[("logo.png", elf_so())]);
    let census = scan(&tree, d, &config());
    assert_eq!(census.findings.len(), 1);
    assert_eq!(census.findings[0].kind, Kind::Native);
}

#[test]
fn archives_reported_by_default_suppressed_by_flag() {
    let d = "/arch";
    let mut gz = vec![0x1f, 0x8b, 0x08];
    gz.extend(noise(4096));
    let tree = Tree::new(d, &[("prebuild.tar.gz", gz)]);
    let mut cfg = config();
    let census = scan(&tree, d, &cfg);
    assert_eq!(census.findings.len(), 1);
    assert_eq!(census.findings[0].kind, Kind::Archive);
    assert!(census.findings[0]
        .hints
        .iter()
        .any(|h| h.contains("unpack binaries")));
    cfg.skip_archives = true;
    assert!(scan(&tree, d, &cfg).findings.is_empty());
}

#[test]
fn entropy_threshold_is_configurable() {
    let d = "/thresh";
    let data: Vec<u8> = (0..8192u32)
        .map(|i| b"ABCDEFGHIJKLMNOPQRSTUVWXYZabcdefghijklmnopqrstuvwxyz0123456789+/"[(i % 64) as usize])
        .collect();
    let tree = Tree::new(d, &[("encoded.dat", data)]);
    let mut cfg = config();
    assert!(scan(&tree, d, &cfg).findings.is_empty());
    cfg.entropy_threshold = 5.0;
    assert_eq!(scan(&tree, d, &cfg).findings.len(), 1);
}

#[test]
fn wasm_and_wheel_are_inventoried_in_path_order() {
    let d = "/mix";
    let mut whl = b"PK\x03\x04".to_vec();
    whl.extend(noise(1024));
    let tree = Tree::new(
        d,
        &[
            ("vendored-1.0-py3-none-any.whl", whl),
            ("mod.wasm", b"\0asm\x01\0\0\0more".to_vec()),
        ],
    );
    let census = scan(&tree, d, &config());
    let rels: Vec<&str> = census.findings.iter().map(|f| f.rel.as_str()).collect();
    assert_eq!(rels, vec!["mod.wasm", "vendored-1.0-py3-none-any.whl"]);
    assert_eq!(census.findings[0].kind, Kind::Native);
    let whl = &census.findings[1];
    assert_eq!(whl.kind, Kind::Archive);
    assert!(whl.hints.iter().any(|h| h.contains("wheel")));
}

#[test]
fn inspect_file_reports_even_boring_files() {
    let d = "/inspect";
    let tree = Tree::new(d, &[("notes.txt", b"hello world\n".to_vec())]);
    let f = inspect(&tree, d, "/inspect/notes.txt");
    assert_eq!(f.kind, Kind::Opaque);
    assert_eq!(f.format, "unrecognized data");
    assert_eq!(f.sha256, hex_digest(b"hello world\n"));
    assert!(
        f.hints.iter().any(|h| h.contains("entropy is low")),
        "{:?}",
        f.hints
    );
    assert!(!f.hints.iter().any(|h| h.contains("statistically random")));
}

#[test]
fn prebuilds_hint_fires_on_inner_path() {
    let d = "/prebuilds";
    let tree = Tree::new(
        d,
        &[("node_modules/classic-level/prebuilds/linux-x64/node.napi.node", elf_so())],
    );
    let census = scan(&tree, d, &config());
    assert_eq!(census.findings.len(), 1);
    assert!(census.findings[0]
        .hints
        .iter()
        .any(|h| h.contains("prebuilds/")));
}

/// An npm addon, a pip extension, a stray opaque blob and a bundled tarball.
fn fixture(d: &str) -> Tree {
    let mut gz = vec![0x1f, 0x8b, 0x08];
    gz.extend(noise(2048));
    Tree::new(
        d,
        &[
            (
                "node_modules/sharp/package.json",
                br#"{"name": "sharp", "version": "0.33.4"}"#.to_vec(),
            ),
            ("node_modules/sharp/build/Release/sharp.node", elf_so()),
            ("node_modules/sharp/index.js", b"module.exports = 1;\n".to_vec()),
            (
                "venv/lib/python3.12/site-packages/numpy/core/_multiarray_umath.cpython-312-x86_64-linux-gnu.so",
                elf_so(),
            ),
            ("mystery.bin", noise(8192)),
            ("node_modules/leveldown/prebuilds/linux-x64.tar.gz", gz),
        ],
    )
    .with_empty_dir(d, "venv/lib/python3.12/site-packages/numpy-1.26.4.dist-info")
}

#[test]
fn scan_reports_all_kinds_with_provenance() {
    let d = "/scan";
    let census = scan(&fixture(d), d, &config());
    assert_eq!(lib::cli::scan_exit_code(false, &census), 0, "scan must exit 0 without --strict");
    let text = lib::report::scan_report(&census);
    assert!(text.contains("npm · sharp@0.33.4 — 1 finding\n"), "{text}");
    assert!(text.contains("pip · numpy@1.26.4 — 1 finding\n"), "{text}");
    assert!(text.contains("ELF shared object"));
    assert!(text.contains("x86-64 (64-bit)"));
    assert!(text.contains("opaque"));
    assert!(text.contains("archive"));
    assert!(text.contains("build/Release/sharp.node"));
    assert!(text.contains("unattributed"));
    assert!(text.find("sharp").unwrap() < text.find("unattributed").unwrap());
    assert!(text.contains(
        "summary: 6 files scanned · 2 native · 1 archive · 1 opaque blob · 3 packages affected"
    ));
}

#[test]
fn scan_json_is_machine_readable() {
    let d = "/json";
    let census = scan(&fixture(d), d, &config());
    let text = lib::json::census_json(&census, "0.1.0");
    assert!(text.contains("\"blobfind\": \"0.1.0\""));
    assert!(text.contains("\"summary\": { \"native\": 2, \"archive\": 1, \"opaque\": 1 }"));
    assert!(text.contains("\"path\": \"node_modules/sharp/build/Release/sharp.node\""));
    assert!(text.contains("\"package\": \"numpy\""));
    assert!(text.contains("\"version\": \"1.26.4\""));
    assert!(text.contains("\"sha256\": \""));
    assert!(text.contains("\"kind\": \"opaque\""));
    assert_eq!(text.matches('{').count(), text.matches('}').count());
}

#[test]
fn strict_exit_code_depends_on_findings() {
    let d = "/strict-clean";
    let clean = Tree::new(d, &[("app.js", b"console.log(1);\n".to_vec())]);
    let census = scan(&clean, d, &config());
    assert_eq!(lib::cli::scan_exit_code(true, &census), 0, "clean tree under --strict must exit 0");
    assert!(lib::report::scan_report(&census).contains("0 native"));
    let d = "/strict-dirty";
    let census = scan(&fixture(d), d, &config());
    assert_eq!(lib::cli::scan_exit_code(true, &census), 1, "findings under --strict exit 1");
}

#[test]
fn tuning_flags_change_what_counts() {
    let d = "/tuning";
    let tree = fixture(d);
    let mut cfg = config();
    cfg.skip_archives = true;
    assert!(lib::report::scan_report(&scan(&tree, d, &cfg)).contains("0 archives"));
    let mut cfg = config();
    cfg.min_blob = lib::util::parse_size("16K").unwrap();
    assert!(lib::report::scan_report(&scan(&tree, d, &cfg)).contains("0 opaque blobs"));
}

#[test]
fn diff_flags_added_changed_and_removed_blobs() {
    let d = "/drift";
    let mut tree = fixture(d);
    let lock = lib::baseline::render(&lib::baseline::entries_from(&scan(&tree, d, &config())));
    tree.files.insert(format!("{d}/node_modules/sharp/vendored.so"), elf_so());
    let mut patched = elf_so();
    patched[0x12] = 183;
    tree.files
        .insert(format!("{d}/node_modules/sharp/build/Release/sharp.node"), patched);
    tree.files.remove(&format!("{d}/mystery.bin"));
    let baseline = lib::baseline::parse(&lock).unwrap();
    let current = lib::baseline::entries_from(&scan(&tree, d, &config()));
    let drift = lib::baseline::diff(&baseline, &current);
    assert_eq!(lib::cli::diff_exit_code(&drift), 1, "drift must exit 1");
    let text = lib::report::diff_report(&drift, baseline.len());
    assert!(text.contains("+ added"));
    assert!(text.contains("vendored.so"));
    assert!(text.contains("~ changed"));
    assert!(text.contains("sharp.node"));
    assert!(text.contains("- removed"));
    assert!(text.contains("mystery.bin"));
    assert!(text.contains("drift: 1 added · 1 removed · 1 changed (baseline had 4 blobs)"));
}

#[test]
fn diff_with_missing_or_corrupt_baseline_is_an_error() {
    let err = lib::baseline::parse("# blobfind lock v1\ngarbage line\n").unwrap_err();
    assert!(err.contains("line 2"));
}

#[test]
fn snapshot_then_diff_round_trips_clean() {
    let d = "/roundtrip";
    let tree = fixture(d);
    let census = scan(&tree, d, &config());
    let entries = lib::baseline::entries_from(&census);
    let text = lib::baseline::render(&entries);
    assert!(text.starts_with("# blobfind lock v1\n"));
    assert_eq!(text.lines().count(), 5, "header + 4 entries: {text}");
    let parsed = lib::baseline::parse(&text).unwrap();
    let again = lib::baseline::entries_from(&scan(&tree, d, &config()));
    let drift = lib::baseline::diff(&parsed, &again);
    assert!(drift.is_clean());
    assert_eq!(
        lib::report::diff_report(&drift, parsed.len()),
        "baseline OK — 4 blobs, no drift\n"
    );
}
