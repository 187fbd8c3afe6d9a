use lib::provenance::{json_str_field, toml_package_field, Provenance};

#[test]
fn json_str_field_extracts_values_escapes_and_skips_non_string_hits() {
    let src = r#"{ "name": "sharp", "version": "0.33.4" }"#;
    assert_eq!(json_str_field(src, "name").as_deref(), Some("sharp"));
    assert_eq!(json_str_field(src, "version").as_deref(), Some("0.33.4"));
    assert_eq!(json_str_field(src, "missing"), None);
    assert_eq!(
        json_str_field(r#"{"name": "a\"b\\c"}"#, "name").as_deref(),
        Some("a\"b\\c")
    );
    let src = r#"{"scripts": {"version": {"x": 1}}, "version": "2.0.0"}"#;
    assert_eq!(json_str_field(src, "version").as_deref(), Some("2.0.0"));
}

#[test]
fn toml_package_field_reads_only_the_package_section() {
    let src =
        "[dependencies]\nname = \"decoy\"\n[package]\nname = \"ring\"\nversion = \"0.17.8\"\n";
    assert_eq!(toml_package_field(src, "name").as_deref(), Some("ring"));
    assert_eq!(
        toml_package_field(src, "version").as_deref(),
        Some("0.17.8")
    );
}

#[test]
fn json_str_field_unterminated_and_escapes() {
    assert_eq!(json_str_field(r#"{"name": "abc"#, "name"), None);
    assert_eq!(
        json_str_field(r#"{"name" :  "a\nb\tc\/"}"#, "name").as_deref(),
        Some("a\nb\tc/")
    );
    assert_eq!(json_str_field(r#"{"name": 3}"#, "name"), None);
}

#[test]
fn toml_package_field_edge_cases() {
    assert_eq!(toml_package_field("name = \"x\"\n", "name"), None);
    assert_eq!(toml_package_field("[package]\nname = 3\nname = \"y\"\n", "name"), None);
    assert_eq!(
        toml_package_field("  [package]  \r\n  name=\"z\" # c\r\n", "name").as_deref(),
        Some("z")
    );
    assert_eq!(
        toml_package_field("[package]\nnamex = \"q\"\n", "name"),
        None
    );
    assert_eq!(
        toml_package_field("[package]\nname = \"open\n", "name").as_deref(),
        Some("open")
    );
}

#[test]
fn label_and_inner() {
    let p = Provenance {
        ecosystem: Some("npm"),
        package: Some("sharp".into()),
        version: Some("0.33.4".into()),
        package_root: Some("/proj/node_modules/sharp".into()),
    };
    assert_eq!(p.label(), "npm · sharp@0.33.4");
    assert_eq!(
        p.inner("/proj/node_modules/sharp/build/Release/sharp.node").as_deref(),
        Some("build/Release/sharp.node")
    );
    let mut q = p.clone();
    q.version = None;
    assert_eq!(q.label(), "npm · sharp");
    assert_eq!(Provenance::default().label(), "unattributed");
    assert_eq!(Provenance::default().inner("/x"), None);
}

use lib::provenance::{resolve, DirFacts};
use std::path::Path;

/// Facts for every directory above `file`, nearest first, from `at`.
fn facts_for(file: &str, at: &dyn Fn(&str) -> DirFacts) -> Vec<DirFacts> {
    Path::new(file)
        .ancestors()
        .skip(1)
        .map(|d| at(d.to_str().unwrap()))
        .collect()
}

fn with_package_json(text: &str) -> DirFacts {
    DirFacts {
        package_json_file: true,
        package_json: text.to_string(),
        ..DirFacts::default()
    }
}

fn listing(names: &[&str]) -> DirFacts {
    DirFacts {
        entries: Some(names.iter().map(|n| n.to_string()).collect()),
        ..DirFacts::default()
    }
}

#[test]
fn npm_plain_package_with_manifest_version() {
    let file = "/t/node_modules/sharp/build/Release/sharp.node";
    let facts = facts_for(file, &|d| {
        if d == "/t/node_modules/sharp" {
            with_package_json(r#"{"name": "sharp", "version": "0.33.4"}"#)
        } else {
            DirFacts::default()
        }
    });
    let p = resolve("/t", file, &facts, &DirFacts::default());
    assert_eq!(p.label(), "npm · sharp@0.33.4");
    assert_eq!(p.inner(file).as_deref(), Some("build/Release/sharp.node"));
    assert_eq!(p.package_root.as_deref(), Some("/t/node_modules/sharp"));
}

#[test]
fn npm_scoped_package_resolves_scope_and_name() {
    let file = "/t/node_modules/@img/sharp-linux-x64/lib/sharp-linux-x64.node";
    let facts = facts_for(file, &|_| DirFacts::default());
    let p = resolve("/t", file, &facts, &DirFacts::default());
    assert_eq!(p.ecosystem, Some("npm"));
    assert_eq!(p.package.as_deref(), Some("@img/sharp-linux-x64"));
    assert_eq!(p.version, None);
}

#[test]
fn npm_nested_node_modules_attributes_to_the_innermost() {
    let file = "/t/node_modules/outer/node_modules/inner/payload.so";
    let facts = facts_for(file, &|d| {
        if d == "/t/node_modules/outer/node_modules/inner" {
            with_package_json(r#"{"name":"inner","version":"1.0.0"}"#)
        } else if d == "/t/node_modules/outer" {
            with_package_json(r#"{"name":"outer","version":"9.9.9"}"#)
        } else {
            DirFacts::default()
        }
    });
    assert_eq!(resolve("/t", file, &facts, &DirFacts::default()).label(), "npm · inner@1.0.0");
}

#[test]
fn pip_package_version_comes_from_dist_info() {
    let file = "/t/venv/lib/python3.12/site-packages/PIL/_imaging.cpython-312-x86_64-linux-gnu.so";
    let facts = facts_for(file, &|d| {
        if d.ends_with("site-packages") {
            listing(&["PIL", "pillow-10.3.0.dist-info"])
        } else {
            DirFacts::default()
        }
    });
    let p = resolve("/t", file, &facts, &DirFacts::default());
    assert_eq!(p.ecosystem, Some("pip"));
    assert_eq!(p.package.as_deref(), Some("PIL"));
    assert_eq!(p.version, None);
}

#[test]
fn pip_matching_dist_info_supplies_the_version() {
    let file = "/t/site-packages/numpy/core/_multiarray_umath.so";
    let facts = facts_for(file, &|d| {
        if d == "/t/site-packages" {
            listing(&["numpy", "numpy-2.0.0.dist-info.bak", "numpy-1.26.4.dist-info", "numpy-1.9.dist-info"])
        } else {
            DirFacts::default()
        }
    });
    assert_eq!(resolve("/t", file, &facts, &DirFacts::default()).label(), "pip · numpy@1.26.4");
}

#[test]
fn pip_toplevel_extension_module_in_site_packages() {
    let file = "/t/site-packages/_cffi_backend.cpython-312-x86_64-linux-gnu.so";
    let facts = facts_for(file, &|d| {
        if d == "/t/site-packages" {
            listing(&["_cffi_backend-1.16.0.dist-info", "_cffi_backend.cpython-312-x86_64-linux-gnu.so"])
        } else {
            DirFacts::default()
        }
    });
    let p = resolve("/t", file, &facts, &DirFacts::default());
    assert_eq!(p.label(), "pip · _cffi_backend@1.16.0");
    assert_eq!(p.package_root.as_deref(), Some("/t/site-packages"));
}

#[test]
fn cargo_vendored_crate_via_manifest() {
    let file = "/t/vendor/ring/pregenerated/aesni-x86_64-elf.o";
    let facts = facts_for(file, &|d| {
        if d == "/t/vendor/ring" {
            DirFacts {
                cargo_toml_file: true,
                cargo_toml: Some("[package]\nname = \"ring\"\nversion = \"0.17.8\"\n".into()),
                ..DirFacts::default()
            }
        } else {
            DirFacts::default()
        }
    });
    assert_eq!(resolve("/t", file, &facts, &DirFacts::default()).label(), "cargo · ring@0.17.8");
}

#[test]
fn go_vendor_longest_module_prefix_wins() {
    let file = "/t/vendor/example.test/tool/sub/blob.bin";
    let facts = facts_for(file, &|d| {
        if d == "/t/vendor" {
            DirFacts {
                modules_txt: Some(
                    "# example.test/tool v1.2.3\n## explicit; go 1.22\nexample.test/tool\n# example.test/tool/sub v2.0.0\nexample.test/tool/sub\n"
                        .into(),
                ),
                ..DirFacts::default()
            }
        } else {
            DirFacts::default()
        }
    });
    let p = resolve("/t", file, &facts, &DirFacts::default());
    assert_eq!(p.label(), "go · example.test/tool/sub@v2.0.0");
    assert_eq!(p.package_root.as_deref(), Some("/t/vendor/example.test/tool/sub"));
    assert_eq!(p.inner(file).as_deref(), Some("blob.bin"));
}

#[test]
fn gem_layout_splits_name_and_version() {
    let file = "/t/gems/nokogiri-1.16.5-x86_64-linux/lib/nokogiri.so";
    let facts = facts_for(file, &|_| DirFacts::default());
    let p = resolve("/t", file, &facts, &DirFacts::default());
    assert_eq!(p.ecosystem, Some("gem"));
    assert_eq!(p.package.as_deref(), Some("nokogiri"));
    assert_eq!(p.version.as_deref(), Some("1.16.5-x86_64-linux"));
}

#[test]
fn unattributed_when_nothing_matches_and_lookup_stops_at_root() {
    let file = "/t/assets/blob.bin";
    let app = || with_package_json(r#"{"name":"app","version":"1.0.0"}"#);
    let facts = facts_for(file, &|_| DirFacts::default());
    let p = resolve("/t", file, &facts, &DirFacts::default());
    assert_eq!(p.label(), "unattributed");
    assert_eq!(p.package_root, None);
    let facts = facts_for(file, &|d| if d == "/t" { app() } else { DirFacts::default() });
    let p = resolve("/t/assets", file, &facts, &DirFacts::default());
    assert_eq!(p.label(), "unattributed");
    let p = resolve("/t/elsewhere", file, &facts, &DirFacts::default());
    assert_eq!(p.label(), "npm · app@1.0.0");
}

#[test]
fn resolve_fallback_manifests_in_order() {
    let file = "/t/proj/bin/tool";
    let facts = facts_for(file, &|d| {
        if d == "/t/proj" {
            DirFacts {
                pyproject_file: true,
                go_mod_file: true,
                go_mod: "module example.test/x\n".into(),
                ..DirFacts::default()
            }
        } else {
            DirFacts::default()
        }
    });
    assert_eq!(resolve("/t", file, &facts, &DirFacts::default()).label(), "pip · proj");
    let facts = facts_for(file, &|d| {
        if d == "/t/proj" {
            DirFacts {
                go_mod_file: true,
                go_mod: "// c\n  module   example.test/x  \n".into(),
                ..DirFacts::default()
            }
        } else {
            DirFacts::default()
        }
    });
    assert_eq!(resolve("/t", file, &facts, &DirFacts::default()).label(), "go · example.test/x");
    let root = DirFacts {
        composer_json_file: true,
        composer_json: r#"{"name": "acme/lib", "version": "2.1.0"}"#.into(),
        ..DirFacts::default()
    };
    let facts = facts_for(file, &|_| DirFacts::default());
    assert_eq!(resolve("/t", file, &facts, &root).label(), "composer · acme/lib@2.1.0");
}
