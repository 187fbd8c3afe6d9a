use lib::walk::{Found, Meta, Step, Walker};
use std::collections::BTreeMap;

/// An in-memory tree: each path maps to what examining it reports, and
/// each directory to the names it lists.
struct Tree {
    meta: BTreeMap<String, Meta>,
    lists: BTreeMap<String, Vec<String>>,
}

fn meta_of(m: &Meta) -> Meta {
    match m {
        Meta::Symlink => Meta::Symlink,
        Meta::Dir => Meta::Dir,
        Meta::File(n) => Meta::File(*n),
        Meta::Other => Meta::Other,
    }
}

/// Drives a walk over `tree`, as the program does over the disk.
fn walk(tree: &Tree, root: &str) -> (Vec<(String, u64)>, Vec<String>) {
    let mut w = Walker::new(root);
    let mut files = Vec::new();
    let mut warnings = Vec::new();
    loop {
        match w.next() {
            Step::Done => break,
            Step::List(d) => {
                let listing = match tree.lists.get(&d) {
                    Some(names) => Ok(names.clone()),
                    None => Err("No such file or directory (os error 2)".to_string()),
                };
                if let Some(msg) = w.listed(&d, listing) {
                    warnings.push(msg);
                }
            }
            Step::Examine(p) => {
                let meta = match tree.meta.get(&p) {
                    Some(m) => Ok(meta_of(m)),
                    None => Err("gone".to_string()),
                };
                match w.examined(&p, meta) {
                    Found::File(e) => files.push((e.path, e.size)),
                    Found::Warning(m) => warnings.push(m),
                    Found::Nothing => {}
                }
            }
        }
    }
    (files, warnings)
}

fn tree(entries: &[(&str, Meta)], lists: &[(&str, &[&str])]) -> Tree {
    Tree {
        meta: entries.iter().map(|(p, m)| (p.to_string(), meta_of(m))).collect(),
        lists: lists
            .iter()
            .map(|(d, ns)| (d.to_string(), ns.iter().map(|n| n.to_string()).collect()))
            .collect(),
    }
}

#[test]
fn unreadable_root_warns_instead_of_panicking() {
    let t = tree(&[], &[]);
    let (files, warnings) = walk(&t, "/nonexistent/blobfind-test-path");
    assert!(files.is_empty(), "no files expected");
    assert_eq!(warnings.len(), 1);
    assert!(warnings[0].contains("cannot read"));
}

#[test]
fn visits_files_in_sorted_depth_first_order() {
    let t = tree(
        &[
            ("/d/z.txt", Meta::File(1)),
            ("/d/a.txt", Meta::File(1)),
            ("/d/b", Meta::Dir),
            ("/d/b/inner", Meta::Dir),
            ("/d/b/inner/deep.txt", Meta::File(1)),
            ("/d/b/mid.txt", Meta::File(1)),
        ],
        &[
            ("/d", &["z.txt", "b", "a.txt"]),
            ("/d/b", &["mid.txt", "inner"]),
            ("/d/b/inner", &["deep.txt"]),
        ],
    );
    let (files, warnings) = walk(&t, "/d");
    let paths: Vec<&str> = files.iter().map(|(p, _)| p.as_str()).collect();
    assert_eq!(paths, vec!["/d/a.txt", "/d/b/inner/deep.txt", "/d/b/mid.txt", "/d/z.txt"]);
    assert!(warnings.is_empty());
}

#[test]
fn skips_vcs_directories() {
    let t = tree(
        &[
            ("/d/.git", Meta::Dir),
            ("/d/.git/objects", Meta::Dir),
            ("/d/.git/objects/pack", Meta::File(1)),
            ("/d/keep.txt", Meta::File(1)),
        ],
        &[("/d", &[".git", "keep.txt"]), ("/d/.git", &["objects"]), ("/d/.git/objects", &["pack"])],
    );
    let (files, warnings) = walk(&t, "/d");
    assert_eq!(files, vec![("/d/keep.txt".to_string(), 1)]);
    assert!(warnings.is_empty());
}

#[test]
fn never_follows_symlinks() {
    let t = tree(
        &[
            ("/d/real", Meta::Dir),
            ("/d/real/file.bin", Meta::File(1)),
            ("/d/alias", Meta::Symlink),
            ("/d/link.bin", Meta::Symlink),
            ("/d/fifo", Meta::Other),
        ],
        &[("/d", &["real", "alias", "link.bin", "fifo"]), ("/d/real", &["file.bin"]), ("/d/alias", &["file.bin"])],
    );
    let (files, _) = walk(&t, "/d");
    assert_eq!(files, vec![("/d/real/file.bin".to_string(), 1)]);
}

#[test]
fn reports_size_from_metadata() {
    let t = tree(&[("/d/four.bin", Meta::File(4))], &[("/d", &["four.bin"])]);
    let (files, _) = walk(&t, "/d");
    let sizes: Vec<u64> = files.iter().map(|(_, n)| *n).collect();
    assert_eq!(sizes, vec![4]);
}

#[test]
fn walker_reports_unstattable_entries_and_goes_on() {
    let t = tree(&[("/d/b.bin", Meta::File(1234))], &[("/d/", &["a.bin", "b.bin"])]);
    let (files, warnings) = walk(&t, "/d/");
    assert_eq!(files, vec![("/d/b.bin".to_string(), 1234)]);
    assert_eq!(warnings, vec!["cannot stat /d/a.bin: gone".to_string()]);
}
