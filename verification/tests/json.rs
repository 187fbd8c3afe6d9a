use lib::json::escape;

#[test]
fn escape_handles_quotes_backslashes_and_control_chars() {
    assert_eq!(escape("plain"), "plain");
    assert_eq!(escape("a\"b"), "a\\\"b");
    assert_eq!(escape("a\\b"), "a\\\\b");
    assert_eq!(escape("a\nb\tc"), "a\\nb\\tc");
    assert_eq!(escape("\u{01}"), "\\u0001");
}

#[test]
fn escape_keeps_non_ascii_and_maps_carriage_return() {
    assert_eq!(escape("é·\r\u{1f}"), "é·\\r\\u001f");
    assert_eq!(escape(""), "");
    assert_eq!(escape(" \u{7f}"), " \u{7f}");
}

use lib::inventory::{Census, EntropyText, Finding, Kind};
use lib::json::{census_json, finding_doc};
use lib::provenance::Provenance;

const VERSION: &str = "0.1.0";

fn entropy(h: f64) -> EntropyText {
    EntropyText {
        two_places: format!("{h:.2}"),
        four_places: format!("{h:.4}"),
    }
}

fn sample_finding() -> Finding {
    Finding {
        rel: "node_modules/sharp/build/Release/sharp.node".into(),
        size: 1024,
        kind: Kind::Native,
        format: "ELF shared object".into(),
        arch: Some("x86-64 (64-bit)".into()),
        entropy: entropy(6.3125),
        sha256: "ab".repeat(32),
        provenance: Provenance {
            ecosystem: Some("npm"),
            package: Some("sharp".into()),
            version: Some("0.33.4".into()),
            package_root: None,
        },
        inner: Some("build/Release/sharp.node".into()),
        hints: vec!["say \"hi\"".into()],
    }
}

fn sample_census() -> Census {
    Census {
        root: "/proj".into(),
        files_scanned: 10,
        findings: vec![sample_finding()],
        warnings: vec!["cannot read /proj/x".into()],
    }
}

#[test]
fn census_json_contains_all_fields() {
    let doc = census_json(&sample_census(), VERSION);
    assert!(doc.contains(&format!("\"blobfind\": \"{}\"", VERSION)));
    assert!(doc.contains("\"files_scanned\": 10"));
    assert!(doc.contains("\"summary\": { \"native\": 1, \"archive\": 0, \"opaque\": 0 }"));
    assert!(doc.contains("\"path\": \"node_modules/sharp/build/Release/sharp.node\""));
    assert!(doc.contains("\"entropy\": 6.3125"));
    assert!(doc.contains("\"package\": \"sharp\""));
    assert!(doc.contains("\"inner_path\": \"build/Release/sharp.node\""));
    assert!(doc.contains("\"hints\": [\"say \\\"hi\\\"\"]"));
    assert!(doc.contains("\"warnings\": [\"cannot read /proj/x\"]"));
    assert_eq!(doc.matches('{').count(), doc.matches('}').count());
    assert_eq!(doc.matches('[').count(), doc.matches(']').count());
    assert!(doc.trim_end().ends_with('}'));
}

#[test]
fn null_fields_are_json_null_not_strings() {
    let mut f = sample_finding();
    f.arch = None;
    f.provenance = Provenance::default();
    f.inner = None;
    let doc = finding_doc(&f);
    assert!(doc.contains("\"arch\": null"));
    assert!(doc.contains("\"ecosystem\": null"));
    assert!(doc.contains("\"package\": null"));
    assert!(doc.contains("\"inner_path\": null"));
}

#[test]
fn empty_census_yields_empty_arrays() {
    let census = Census {
        root: "/proj".into(),
        files_scanned: 0,
        findings: vec![],
        warnings: vec![],
    };
    let doc = census_json(&census, VERSION);
    assert!(doc.contains("\"findings\": [\n\n  ]"));
    assert!(doc.contains("\"warnings\": []"));
}

#[test]
fn finding_doc_is_exact() {
    let mut f = sample_finding();
    f.hints = vec!["a".into(), "b".into()];
    let doc = finding_doc(&f);
    let expected = format!(
        "{{\n  \"path\": \"node_modules/sharp/build/Release/sharp.node\",\n  \"kind\": \"native\",\n  \"format\": \"ELF shared object\",\n  \"arch\": \"x86-64 (64-bit)\",\n  \"size\": 1024,\n  \"entropy\": 6.3125,\n  \"sha256\": \"{}\",\n  \"ecosystem\": \"npm\",\n  \"package\": \"sharp\",\n  \"version\": \"0.33.4\",\n  \"inner_path\": \"build/Release/sharp.node\",\n  \"hints\": [\"a\", \"b\"]\n}}\n",
        "ab".repeat(32)
    );
    assert_eq!(doc, expected);
}

#[test]
fn census_json_two_findings_are_comma_separated() {
    let mut c = sample_census();
    let mut second = sample_finding();
    second.kind = Kind::Opaque;
    c.findings.push(second);
    c.warnings.clear();
    let doc = census_json(&c, VERSION);
    assert!(doc.starts_with("{\n  \"blobfind\": \"0.1.0\",\n  \"root\": \"/proj\",\n"));
    assert!(doc.contains("\"summary\": { \"native\": 1, \"archive\": 0, \"opaque\": 1 }"));
    assert!(doc.contains("    },\n    {\n"));
    assert!(doc.ends_with("  ],\n  \"warnings\": []\n}\n"));
}
