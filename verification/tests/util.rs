use lib::util::{count_noun, extension, human_size, parse_size, rel_slash};

#[test]
fn human_size_units_and_precision() {
    assert_eq!(human_size(0), "0B");
    assert_eq!(human_size(973), "973B");
    assert_eq!(human_size(1024), "1.0K");
    assert_eq!(human_size(4096), "4.0K");
    assert_eq!(human_size(5_452_595), "5.2M");
    assert_eq!(human_size(11 << 20), "11M");
    assert_eq!(human_size(1_181_116_006), "1.1G");
}

#[test]
fn parse_size_accepts_bytes_and_suffixes() {
    assert_eq!(parse_size("4096"), Ok(4096));
    assert_eq!(parse_size("4K"), Ok(4096));
    assert_eq!(parse_size("4k"), Ok(4096));
    assert_eq!(parse_size("2M"), Ok(2 << 20));
    assert_eq!(parse_size("1G"), Ok(1 << 30));
}

#[test]
fn parse_size_rejects_garbage() {
    assert!(parse_size("").is_err());
    assert!(parse_size("12Q").is_err());
    assert!(parse_size("K").is_err());
    assert!(parse_size("-4K").is_err());
    assert!(parse_size("99999999999G").is_err());
}

#[test]
fn count_noun_pluralizes_everything_but_one() {
    assert_eq!(count_noun(0, "finding"), "0 findings");
    assert_eq!(count_noun(1, "finding"), "1 finding");
    assert_eq!(count_noun(2, "opaque blob"), "2 opaque blobs");
}

#[test]
fn rel_slash_strips_root_and_normalizes() {
    let root = "/proj";
    let file = "/proj/node_modules/pkg/lib.so";
    assert_eq!(rel_slash(root, file), "node_modules/pkg/lib.so");
}

#[test]
fn rel_slash_falls_back_outside_root() {
    let root = "/proj";
    let file = "/elsewhere/x";
    assert_eq!(rel_slash(root, file), "/elsewhere/x");
}

#[test]
fn extension_is_lowercased_and_optional() {
    assert_eq!(extension("a/B.SO"), Some("so".into()));
    assert_eq!(extension("a/noext"), None);
}

#[test]
fn human_size_boundaries() {
    assert_eq!(human_size(1023), "1023B");
    assert_eq!(human_size(10 * 1024 - 1), "10.0K");
    assert_eq!(human_size(10 * 1024), "10K");
    assert_eq!(human_size(1536), "1.5K");
    assert_eq!(human_size(1u64 << 40), "1024G");
    assert_eq!(human_size(u64::MAX), "17179869184G");
}

#[test]
fn parse_size_error_messages() {
    assert_eq!(parse_size(""), Err("empty size".to_string()));
    assert_eq!(
        parse_size("12Q"),
        Err("unknown size suffix 'Q' (use K, M or G)".to_string())
    );
    assert_eq!(parse_size("x4K"), Err("invalid size 'x4K'".to_string()));
    assert_eq!(
        parse_size("99999999999G"),
        Err("size '99999999999G' overflows".to_string())
    );
    assert_eq!(parse_size(" 8 "), Ok(8));
}

#[test]
fn rel_slash_collapses_dots_and_double_slashes() {
    assert_eq!(rel_slash("/proj/", "/proj//a/./b"), "a/b");
    assert_eq!(rel_slash("/proj", "/proj"), "");
}

#[test]
fn extension_of_dotfile_and_trailing_dot() {
    assert_eq!(extension(".bashrc"), None);
    assert_eq!(extension("a/x.tar.GZ"), Some("gz".into()));
    assert_eq!(extension("a/x."), Some("".into()));
}
