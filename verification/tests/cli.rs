use lib::baseline::{Drift, LockEntry};
use lib::cli::{diff_exit_code, parse, scan_exit_code, Arg, Command, EntropyArg, Tuning, USAGE_ERROR};
use lib::inventory::{Census, Kind};

fn argv(s: &str) -> Vec<String> {
    s.split_whitespace().map(String::from).collect()
}

/// Each argument with what it is when read as an `--entropy` value.
fn args_of(args: &[String]) -> Vec<Arg> {
    args.iter()
        .map(|a| Arg {
            text: a.clone(),
            as_entropy: match a.parse::<f64>() {
                Err(_) => EntropyArg::Invalid,
                Ok(h) if !(0.0..=8.0).contains(&h) => EntropyArg::OutOfRange,
                Ok(_) => EntropyArg::Valid,
            },
        })
        .collect()
}

fn run(s: &str) -> Result<Command, String> {
    parse(&args_of(&argv(s)))
}

#[test]
fn help_and_version_forms() {
    assert_eq!(parse(&[]).unwrap(), Command::Help);
    assert_eq!(run("--help").unwrap(), Command::Help);
    assert_eq!(run("-h").unwrap(), Command::Help);
    assert_eq!(run("--version").unwrap(), Command::Version);
    assert_eq!(run("-V").unwrap(), Command::Version);
}

#[test]
fn help_and_version_win_after_a_subcommand_too() {
    assert_eq!(run("scan --help").unwrap(), Command::Help);
    assert_eq!(run("diff -h").unwrap(), Command::Help);
    assert_eq!(run("snapshot --version").unwrap(), Command::Version);
}

#[test]
fn scan_defaults_to_current_dir() {
    match run("scan").unwrap() {
        Command::Scan {
            dir,
            json,
            strict,
            tuning,
        } => {
            assert_eq!(dir, ".");
            assert!(!json);
            assert!(!strict);
            assert_eq!(tuning, Tuning::default());
        }
        other => panic!("wrong parse: {other:?}"),
    }
}

#[test]
fn scan_parses_all_flags() {
    match run("scan deps --json --strict --entropy 6.5 --min-blob 1K --all --no-archives").unwrap() {
        Command::Scan {
            dir,
            json,
            strict,
            tuning,
        } => {
            assert_eq!(dir, "deps");
            assert!(json && strict);
            assert_eq!(tuning.entropy.parse::<f64>().unwrap(), 6.5);
            assert_eq!(tuning.min_blob, 1024);
            assert!(tuning.all && tuning.no_archives);
        }
        other => panic!("wrong parse: {other:?}"),
    }
}

#[test]
fn entropy_must_be_in_range_and_numeric() {
    assert!(run("scan --entropy 9").is_err());
    assert!(run("scan --entropy lots").is_err());
    assert!(run("scan --entropy").is_err());
}

#[test]
fn explain_requires_a_file_argument() {
    assert!(run("explain").is_err());
    match run("explain a/b.so --root proj --json").unwrap() {
        Command::Explain { file, root, json } => {
            assert_eq!(file, "a/b.so");
            assert_eq!(root.as_deref(), Some("proj"));
            assert!(json);
        }
        other => panic!("wrong parse: {other:?}"),
    }
}

#[test]
fn snapshot_output_flag_short_and_long() {
    for form in [
        "snapshot deps -o out.lock",
        "snapshot deps --output out.lock",
    ] {
        match run(form).unwrap() {
            Command::Snapshot { dir, output, .. } => {
                assert_eq!(dir, "deps");
                assert_eq!(output.as_deref(), Some("out.lock"));
            }
            other => panic!("wrong parse: {other:?}"),
        }
    }
}

#[test]
fn diff_against_is_optional() {
    match run("diff deps --against base.lock").unwrap() {
        Command::Diff { dir, against, .. } => {
            assert_eq!(dir, "deps");
            assert_eq!(against.as_deref(), Some("base.lock"));
        }
        other => panic!("wrong parse: {other:?}"),
    }
    match run("diff").unwrap() {
        Command::Diff { against, .. } => assert_eq!(against, None),
        other => panic!("wrong parse: {other:?}"),
    }
}

#[test]
fn unknown_commands_and_flags_are_usage_errors() {
    assert!(run("frobnicate").unwrap_err().contains("unknown command"));
    assert!(run("scan --frob").unwrap_err().contains("unknown option"));
    assert!(run("diff --strict").is_err());
    assert!(run("scan --against x").is_err());
}

#[test]
fn extra_positionals_are_rejected() {
    assert!(run("scan a b").unwrap_err().contains("extra argument"));
}

#[test]
fn parse_error_messages_are_exact() {
    assert_eq!(run("frobnicate"), Err("unknown command 'frobnicate'".to_string()));
    assert_eq!(run("scan --frob"), Err("unknown option '--frob' for 'scan'".to_string()));
    assert_eq!(run("scan --entropy lots"), Err("invalid --entropy 'lots'".to_string()));
    assert_eq!(run("scan --entropy 9"), Err("--entropy must be within 0..=8, got 9".to_string()));
    assert_eq!(run("scan --entropy"), Err("--entropy requires a value".to_string()));
    assert_eq!(run("snapshot -o"), Err("-o requires a value".to_string()));
    assert_eq!(run("scan --min-blob 12Q"), Err("unknown size suffix 'Q' (use K, M or G)".to_string()));
    assert_eq!(run("explain"), Err("explain requires a <FILE> argument".to_string()));
    assert_eq!(run("explain a b"), Err("unexpected extra argument 'b'".to_string()));
    assert_eq!(run("help").unwrap(), Command::Help);
    assert_eq!(run("version").unwrap(), Command::Version);
}

#[test]
fn first_entropy_error_wins_over_later_arguments() {
    assert_eq!(run("scan --entropy x --frob"), Err("invalid --entropy 'x'".to_string()));
    assert_eq!(run("scan --frob --entropy x"), Err("unknown option '--frob' for 'scan'".to_string()));
}

#[test]
fn exit_codes_follow_strict_and_drift() {
    let empty = Census {
        root: ".".into(),
        files_scanned: 3,
        findings: vec![],
        warnings: vec![],
    };
    assert_eq!(scan_exit_code(true, &empty), 0);
    assert_eq!(scan_exit_code(false, &empty), 0);
    assert_eq!(diff_exit_code(&Drift::default()), 0);
    let drift = Drift {
        added: vec![LockEntry {
            sha256: "ab".repeat(32),
            size: 1,
            kind: Kind::Native,
            path: "x".into(),
        }],
        removed: vec![],
        changed: vec![],
    };
    assert_eq!(diff_exit_code(&drift), 1);
    assert_eq!(USAGE_ERROR, 2);
}
