//! The command line: four subcommands and a handful of flags, parsed into
//! a [`Command`]. Whether an `--entropy` value is a number in range is
//! decided by the caller, which reads numbers; everything else is decided
//! here.

use vstd::prelude::*;
use crate::baseline::Drift;
use crate::inventory::Census;
use crate::text::{chars_of, eq_lit, push_str};
use crate::util::{parse_size, parse_size_spec};

verus! {

/// What the caller found an argument to be when read as an `--entropy`
/// value: not a number, a number outside `0..=8`, or a usable threshold.
#[derive(Debug, Clone, Copy, PartialEq, Eq, Structural)]
pub enum EntropyArg {
    Invalid,
    OutOfRange,
    Valid,
}

/// Scan-behavior knobs shared by scan/snapshot/diff. The entropy
/// threshold is kept as written (`7.5` by default).
#[derive(Debug, PartialEq)]
pub struct Tuning {
    pub entropy: String,
    pub min_blob: u64,
    pub all: bool,
    pub no_archives: bool,
}

/// The value of a [`Tuning`].
pub struct TuningV {
    pub entropy: Seq<char>,
    pub min_blob: u64,
    pub all: bool,
    pub no_archives: bool,
}

impl View for Tuning {
    type V = TuningV;

    open spec fn view(&self) -> TuningV {
        TuningV {
            entropy: self.entropy@,
            min_blob: self.min_blob,
            all: self.all,
            no_archives: self.no_archives,
        }
    }
}

/// The defaults: threshold `7.5`, 4 KiB minimum blob, media skipped,
/// archives reported.
pub open spec fn default_tuning() -> TuningV {
    TuningV { entropy: "7.5"@, min_blob: 4096, all: false, no_archives: false }
}

impl Default for Tuning {
    fn default() -> (t: Tuning)
        ensures
            t@ == default_tuning(),
    {
        Tuning { entropy: String::from_str("7.5"), min_blob: 4096, all: false, no_archives: false }
    }
}

/// Parsed command line, one variant per subcommand.
#[derive(Debug, PartialEq)]
pub enum Command {
    Scan { dir: String, json: bool, strict: bool, tuning: Tuning },
    Explain { file: String, root: Option<String>, json: bool },
    Snapshot { dir: String, output: Option<String>, tuning: Tuning },
    Diff { dir: String, against: Option<String>, tuning: Tuning },
    Help,
    Version,
}

/// The value of a [`Command`].
pub enum CommandV {
    Scan { dir: Seq<char>, json: bool, strict: bool, tuning: TuningV },
    Explain { file: Seq<char>, root: Option<Seq<char>>, json: bool },
    Snapshot { dir: Seq<char>, output: Option<Seq<char>>, tuning: TuningV },
    Diff { dir: Seq<char>, against: Option<Seq<char>>, tuning: TuningV },
    Help,
    Version,
}

/// The view of an optional string.
pub open spec fn ov(o: Option<String>) -> Option<Seq<char>> {
    match o {
        Some(s) => Some(s@),
        None => None,
    }
}

impl View for Command {
    type V = CommandV;

    open spec fn view(&self) -> CommandV {
        match self {
            Command::Scan { dir, json, strict, tuning } => CommandV::Scan {
                dir: dir@,
                json: *json,
                strict: *strict,
                tuning: tuning@,
            },
            Command::Explain { file, root, json } => CommandV::Explain {
                file: file@,
                root: ov(*root),
                json: *json,
            },
            Command::Snapshot { dir, output, tuning } => CommandV::Snapshot {
                dir: dir@,
                output: ov(*output),
                tuning: tuning@,
            },
            Command::Diff { dir, against, tuning } => CommandV::Diff {
                dir: dir@,
                against: ov(*against),
                tuning: tuning@,
            },
            Command::Help => CommandV::Help,
            Command::Version => CommandV::Version,
        }
    }
}

/// What the options read so far have set.
pub struct Opts {
    pub dir: Option<Seq<char>>,
    pub file: Option<Seq<char>>,
    pub json: bool,
    pub strict: bool,
    pub output: Option<Seq<char>>,
    pub against: Option<Seq<char>>,
    pub root: Option<Seq<char>>,
    pub tuning: TuningV,
}

/// Nothing set yet.
pub open spec fn start_opts() -> Opts {
    Opts {
        dir: None,
        file: None,
        json: false,
        strict: false,
        output: None,
        against: None,
        root: None,
        tuning: default_tuning(),
    }
}

/// How reading the options ended: on `--help` or `--version`, or with
/// every argument read.
pub enum Early {
    Help,
    Version,
    Through(Opts),
}

/// The tuning flags apply to this command.
pub open spec fn tuned(cmd: Seq<char>) -> bool {
    cmd == "scan"@ || cmd == "snapshot"@ || cmd == "diff"@
}

/// `<flag> requires a value`.
pub open spec fn needs_value(flag: Seq<char>) -> Seq<char> {
    flag + " requires a value"@
}

/// The flags and arguments from `args[i]` on, for command `cmd`.
pub open spec fn parse_opts(
    args: Seq<Seq<char>>,
    checks: Seq<EntropyArg>,
    cmd: Seq<char>,
    i: nat,
    o: Opts,
) -> Result<Early, Seq<char>>
    decreases args.len() - i,
{
    if i >= args.len() {
        Ok(Early::Through(o))
    } else {
        let arg = args[i as int];
        let has_value = i + 1 < args.len();
        let v = args[i + 1 as int];
        if arg == "--help"@ || arg == "-h"@ {
            Ok(Early::Help)
        } else if arg == "--version"@ || arg == "-V"@ {
            Ok(Early::Version)
        } else if arg == "--json"@ && (cmd == "scan"@ || cmd == "explain"@) {
            parse_opts(args, checks, cmd, i + 1, Opts { json: true, ..o })
        } else if arg == "--strict"@ && cmd == "scan"@ {
            parse_opts(args, checks, cmd, i + 1, Opts { strict: true, ..o })
        } else if arg == "--all"@ && tuned(cmd) {
            parse_opts(args, checks, cmd, i + 1, Opts { tuning: TuningV { all: true, ..o.tuning }, ..o })
        } else if arg == "--no-archives"@ && tuned(cmd) {
            parse_opts(
                args,
                checks,
                cmd,
                i + 1,
                Opts { tuning: TuningV { no_archives: true, ..o.tuning }, ..o },
            )
        } else if arg == "--entropy"@ && tuned(cmd) {
            if !has_value {
                Err(needs_value("--entropy"@))
            } else {
                match checks[i + 1 as int] {
                    EntropyArg::Invalid => Err("invalid --entropy '"@ + v + "'"@),
                    EntropyArg::OutOfRange => Err("--entropy must be within 0..=8, got "@ + v),
                    EntropyArg::Valid => parse_opts(
                        args,
                        checks,
                        cmd,
                        i + 2,
                        Opts { tuning: TuningV { entropy: v, ..o.tuning }, ..o },
                    ),
                }
            }
        } else if arg == "--min-blob"@ && tuned(cmd) {
            if !has_value {
                Err(needs_value("--min-blob"@))
            } else {
                match parse_size_spec(v) {
                    Err(e) => Err(e),
                    Ok(n) => parse_opts(
                        args,
                        checks,
                        cmd,
                        i + 2,
                        Opts { tuning: TuningV { min_blob: n, ..o.tuning }, ..o },
                    ),
                }
            }
        } else if (arg == "-o"@ || arg == "--output"@) && cmd == "snapshot"@ {
            if !has_value {
                Err(needs_value(arg))
            } else {
                parse_opts(args, checks, cmd, i + 2, Opts { output: Some(v), ..o })
            }
        } else if arg == "--against"@ && cmd == "diff"@ {
            if !has_value {
                Err(needs_value("--against"@))
            } else {
                parse_opts(args, checks, cmd, i + 2, Opts { against: Some(v), ..o })
            }
        } else if arg == "--root"@ && cmd == "explain"@ {
            if !has_value {
                Err(needs_value("--root"@))
            } else {
                parse_opts(args, checks, cmd, i + 2, Opts { root: Some(v), ..o })
            }
        } else if arg.len() > 0 && arg[0] == '-' {
            Err("unknown option '"@ + arg + "' for '"@ + cmd + "'"@)
        } else if cmd == "explain"@ {
            if o.file is Some {
                Err("unexpected extra argument '"@ + arg + "'"@)
            } else {
                parse_opts(args, checks, cmd, i + 1, Opts { file: Some(arg), ..o })
            }
        } else {
            if o.dir is Some {
                Err("unexpected extra argument '"@ + arg + "'"@)
            } else {
                parse_opts(args, checks, cmd, i + 1, Opts { dir: Some(arg), ..o })
            }
        }
    }
}

/// The command the options give once all are read.
pub open spec fn finish_spec(cmd: Seq<char>, o: Opts) -> Result<CommandV, Seq<char>> {
    let dir = match o.dir {
        Some(d) => d,
        None => "."@,
    };
    if cmd == "scan"@ {
        Ok(CommandV::Scan { dir, json: o.json, strict: o.strict, tuning: o.tuning })
    } else if cmd == "explain"@ {
        match o.file {
            None => Err("explain requires a <FILE> argument"@),
            Some(f) => Ok(CommandV::Explain { file: f, root: o.root, json: o.json }),
        }
    } else if cmd == "snapshot"@ {
        Ok(CommandV::Snapshot { dir, output: o.output, tuning: o.tuning })
    } else {
        Ok(CommandV::Diff { dir, against: o.against, tuning: o.tuning })
    }
}

/// The command an argument list (without the program name) gives.
pub open spec fn parse_spec(args: Seq<Seq<char>>, checks: Seq<EntropyArg>) -> Result<CommandV, Seq<char>> {
    if args.len() == 0 {
        Ok(CommandV::Help)
    } else {
        let cmd = args[0];
        if cmd == "--help"@ || cmd == "-h"@ || cmd == "help"@ {
            Ok(CommandV::Help)
        } else if cmd == "--version"@ || cmd == "-V"@ || cmd == "version"@ {
            Ok(CommandV::Version)
        } else if !(cmd == "scan"@ || cmd == "explain"@ || cmd == "snapshot"@ || cmd == "diff"@) {
            Err("unknown command '"@ + cmd + "'"@)
        } else {
            match parse_opts(args, checks, cmd, 1, start_opts()) {
                Err(e) => Err(e),
                Ok(Early::Help) => Ok(CommandV::Help),
                Ok(Early::Version) => Ok(CommandV::Version),
                Ok(Early::Through(o)) => finish_spec(cmd, o),
            }
        }
    }
}

/// The view of a parse result.
pub open spec fn command_result(r: Result<Command, String>) -> Result<CommandV, Seq<char>> {
    match r {
        Ok(c) => Ok(c@),
        Err(e) => Err(e@),
    }
}

/// One command-line argument, with what it is when read as an
/// `--entropy` value.
pub struct Arg {
    pub text: String,
    pub as_entropy: EntropyArg,
}

/// The texts of the arguments.
pub open spec fn arg_texts(a: Seq<Arg>) -> Seq<Seq<char>> {
    a.map_values(|x: Arg| x.text@)
}

/// What each argument is as an `--entropy` value.
pub open spec fn arg_checks(a: Seq<Arg>) -> Seq<EntropyArg> {
    a.map_values(|x: Arg| x.as_entropy)
}

/// Options being read, held by executable code.
struct OptsExec {
    dir: Option<String>,
    file: Option<String>,
    json: bool,
    strict: bool,
    output: Option<String>,
    against: Option<String>,
    root: Option<String>,
    tuning: Tuning,
}

impl View for OptsExec {
    type V = Opts;

    closed spec fn view(&self) -> Opts {
        Opts {
            dir: ov(self.dir),
            file: ov(self.file),
            json: self.json,
            strict: self.strict,
            output: ov(self.output),
            against: ov(self.against),
            root: ov(self.root),
            tuning: self.tuning@,
        }
    }
}

/// The outcome of reading one argument.
enum Stepped {
    /// Go on at this index.
    Next(usize),
    Help,
    Version,
    Fail(String),
}

/// What `step` promises about reading the argument at `i`.
spec fn stepped_ok(
    args: Seq<Seq<char>>,
    checks: Seq<EntropyArg>,
    cmd: Seq<char>,
    i: nat,
    before: Opts,
    after: Opts,
    r: Stepped,
) -> bool {
    match r {
        Stepped::Next(j) => i < j && parse_opts(args, checks, cmd, i, before) == parse_opts(
            args,
            checks,
            cmd,
            j as nat,
            after,
        ),
        Stepped::Help => parse_opts(args, checks, cmd, i, before) == Ok::<Early, Seq<char>>(Early::Help),
        Stepped::Version => parse_opts(args, checks, cmd, i, before) == Ok::<Early, Seq<char>>(
            Early::Version,
        ),
        Stepped::Fail(e) => parse_opts(args, checks, cmd, i, before) == Err::<Early, Seq<char>>(e@),
    }
}

fn message3(a: &str, b: &str, c: &str) -> (r: String)
    ensures
        r@ == a@ + b@ + c@,
{
    let mut s = String::new();
    push_str(&mut s, a);
    push_str(&mut s, b);
    push_str(&mut s, c);
    assert(s@ =~= a@ + b@ + c@);
    s
}

/// Reads a flag that takes a value (`--entropy`, `--min-blob`, `-o`,
/// `--output`, `--against`, `--root`) at `i`.
fn step_valued(
    args: &[Arg],
    cmd: &Vec<char>,
    i: usize,
    o: &mut OptsExec,
) -> (r: Stepped)
    requires
        i < args.len(),
        ({
            let arg = arg_texts(args@)[i as int];
            let c = cmd@;
            !(arg == "--help"@ || arg == "-h"@ || arg == "--version"@ || arg == "-V"@)
                && !(arg == "--json"@ && (c == "scan"@ || c == "explain"@))
                && !(arg == "--strict"@ && c == "scan"@)
                && !(arg == "--all"@ && tuned(c))
                && !(arg == "--no-archives"@ && tuned(c))
                && ((arg == "--entropy"@ && tuned(c)) || (arg == "--min-blob"@ && tuned(c))
                || ((arg == "-o"@ || arg == "--output"@) && c == "snapshot"@)
                || (arg == "--against"@ && c == "diff"@) || (arg == "--root"@ && c == "explain"@))
        }),
    ensures
        stepped_ok(arg_texts(args@), arg_checks(args@), cmd@, i as nat, old(o)@, final(o)@, r),
{
    let ghost av = arg_texts(args@);
    let arg = chars_of(args[i].text.as_str());
    assert(arg@ == av[i as int]);
    if i + 1 >= args.len() {
        let name = args[i].text.as_str();
        let mut e = String::from_str(name);
        push_str(&mut e, " requires a value");
        proof {
            if arg@ == "--entropy"@ || arg@ == "--min-blob"@ || arg@ == "--against"@ || arg@ == "--root"@ {
                assert(e@ == needs_value(arg@));
            }
        }
        return Stepped::Fail(e);
    }
    let v = &args[i + 1].text;
    assert(av[i + 1] == v@);
    if eq_lit(&arg, "--entropy") && tuned_exec(cmd) {
        match args[i + 1].as_entropy {
            EntropyArg::Invalid => Stepped::Fail(message3("invalid --entropy '", v.as_str(), "'")),
            EntropyArg::OutOfRange => {
                let mut e = String::from_str("--entropy must be within 0..=8, got ");
                push_str(&mut e, v.as_str());
                Stepped::Fail(e)
            },
            EntropyArg::Valid => {
                o.tuning.entropy = v.clone();
                Stepped::Next(i + 2)
            },
        }
    } else if eq_lit(&arg, "--min-blob") && tuned_exec(cmd) {
        let r = parse_size(v.as_str());
        match r {
            Err(e) => Stepped::Fail(e),
            Ok(n) => {
                o.tuning.min_blob = n;
                Stepped::Next(i + 2)
            },
        }
    } else if (eq_lit(&arg, "-o") || eq_lit(&arg, "--output")) && eq_lit(cmd, "snapshot") {
        o.output = Some(v.clone());
        Stepped::Next(i + 2)
    } else if eq_lit(&arg, "--against") && eq_lit(cmd, "diff") {
        o.against = Some(v.clone());
        Stepped::Next(i + 2)
    } else {
        o.root = Some(v.clone());
        Stepped::Next(i + 2)
    }
}

fn tuned_exec(cmd: &Vec<char>) -> (r: bool)
    ensures
        r == tuned(cmd@),
{
    eq_lit(cmd, "scan") || eq_lit(cmd, "snapshot") || eq_lit(cmd, "diff")
}

/// Reads the argument at `i`.
fn step(args: &[Arg], cmd: &Vec<char>, i: usize, o: &mut OptsExec) -> (r: Stepped)
    requires
        i < args.len(),
    ensures
        stepped_ok(arg_texts(args@), arg_checks(args@), cmd@, i as nat, old(o)@, final(o)@, r),
{
    let ghost av = arg_texts(args@);
    let arg = chars_of(args[i].text.as_str());
    assert(arg@ == av[i as int]);
    let scan = eq_lit(cmd, "scan");
    let explain = eq_lit(cmd, "explain");
    if eq_lit(&arg, "--help") || eq_lit(&arg, "-h") {
        Stepped::Help
    } else if eq_lit(&arg, "--version") || eq_lit(&arg, "-V") {
        Stepped::Version
    } else if eq_lit(&arg, "--json") && (scan || explain) {
        o.json = true;
        Stepped::Next(i + 1)
    } else if eq_lit(&arg, "--strict") && scan {
        o.strict = true;
        Stepped::Next(i + 1)
    } else if eq_lit(&arg, "--all") && tuned_exec(cmd) {
        o.tuning.all = true;
        Stepped::Next(i + 1)
    } else if eq_lit(&arg, "--no-archives") && tuned_exec(cmd) {
        o.tuning.no_archives = true;
        Stepped::Next(i + 1)
    } else if (eq_lit(&arg, "--entropy") && tuned_exec(cmd)) || (eq_lit(&arg, "--min-blob")
        && tuned_exec(cmd)) || ((eq_lit(&arg, "-o") || eq_lit(&arg, "--output")) && eq_lit(
        cmd,
        "snapshot",
    )) || (eq_lit(&arg, "--against") && eq_lit(cmd, "diff")) || (eq_lit(&arg, "--root")
        && explain) {
        step_valued(args, cmd, i, o)
    } else if arg.len() > 0 && arg[0] == '-' {
        let mut e = String::from_str("unknown option '");
        push_str(&mut e, args[i].text.as_str());
        push_str(&mut e, "' for '");
        crate::text::push_chars(&mut e, cmd);
        push_str(&mut e, "'");
        Stepped::Fail(e)
    } else if explain {
        if o.file.is_some() {
            Stepped::Fail(message3("unexpected extra argument '", args[i].text.as_str(), "'"))
        } else {
            o.file = Some(args[i].text.clone());
            Stepped::Next(i + 1)
        }
    } else {
        if o.dir.is_some() {
            Stepped::Fail(message3("unexpected extra argument '", args[i].text.as_str(), "'"))
        } else {
            o.dir = Some(args[i].text.clone());
            Stepped::Next(i + 1)
        }
    }
}

/// Parse the raw argv (without the program name) into a [`Command`].
/// Each argument comes with what it is when read as an `--entropy` value.
pub fn parse(args: &[Arg]) -> (r: Result<Command, String>)
    ensures
        command_result(r) == parse_spec(arg_texts(args@), arg_checks(args@)),
{
    let ghost av = arg_texts(args@);
    if args.len() == 0 {
        return Ok(Command::Help);
    }
    let cmd = chars_of(args[0].text.as_str());
    assert(cmd@ == av[0]);
    if eq_lit(&cmd, "--help") || eq_lit(&cmd, "-h") || eq_lit(&cmd, "help") {
        return Ok(Command::Help);
    }
    if eq_lit(&cmd, "--version") || eq_lit(&cmd, "-V") || eq_lit(&cmd, "version") {
        return Ok(Command::Version);
    }
    let scan = eq_lit(&cmd, "scan");
    let explain = eq_lit(&cmd, "explain");
    let snapshot = eq_lit(&cmd, "snapshot");
    let diff = eq_lit(&cmd, "diff");
    if !(scan || explain || snapshot || diff) {
        return Err(message3("unknown command '", args[0].text.as_str(), "'"));
    }
    let mut o = OptsExec {
        dir: None,
        file: None,
        json: false,
        strict: false,
        output: None,
        against: None,
        root: None,
        tuning: Tuning::default(),
    };
    assert(o@ == start_opts());
    let mut i: usize = 1;
    assert(parse_spec(av, arg_checks(args@)) == (match parse_opts(av, arg_checks(args@), cmd@, 1, start_opts()) {
        Err(e) => Err(e),
        Ok(Early::Help) => Ok(CommandV::Help),
        Ok(Early::Version) => Ok(CommandV::Version),
        Ok(Early::Through(o)) => finish_spec(cmd@, o),
    }));
    while i < args.len()
        invariant
            1 <= i <= args.len(),
                av == arg_texts(args@),
            cmd@ == av[0],
            parse_opts(av, arg_checks(args@), cmd@, 1, start_opts()) == parse_opts(av, arg_checks(args@), cmd@, i as nat, o@),
            scan == (cmd@ == "scan"@),
            explain == (cmd@ == "explain"@),
            snapshot == (cmd@ == "snapshot"@),
            diff == (cmd@ == "diff"@),
            parse_spec(av, arg_checks(args@)) == (match parse_opts(av, arg_checks(args@), cmd@, 1, start_opts()) {
                Err(e) => Err(e),
                Ok(Early::Help) => Ok(CommandV::Help),
                Ok(Early::Version) => Ok(CommandV::Version),
                Ok(Early::Through(o)) => finish_spec(cmd@, o),
            }),
        decreases args.len() - i,
    {
        match step(args, &cmd, i, &mut o) {
            Stepped::Next(j) => {
                if j >= args.len() {
                    assert(parse_opts(av, arg_checks(args@), cmd@, j as nat, o@) == parse_opts(av, arg_checks(args@), cmd@, args.len() as nat, o@));
                    i = args.len();
                } else {
                    i = j;
                }
            },
            Stepped::Help => {
                return Ok(Command::Help);
            },
            Stepped::Version => {
                return Ok(Command::Version);
            },
            Stepped::Fail(e) => {
                return Err(e);
            },
        }
    }
    let dir = match o.dir {
        Some(d) => d,
        None => String::from_str("."),
    };
    if scan {
        Ok(Command::Scan { dir, json: o.json, strict: o.strict, tuning: o.tuning })
    } else if explain {
        match o.file {
            None => Err(String::from_str("explain requires a <FILE> argument")),
            Some(f) => Ok(Command::Explain { file: f, root: o.root, json: o.json }),
        }
    } else if snapshot {
        Ok(Command::Snapshot { dir, output: o.output, tuning: o.tuning })
    } else {
        Ok(Command::Diff { dir, against: o.against, tuning: o.tuning })
    }
}

// ---------------------------------------------------------------------
// Exit codes
// ---------------------------------------------------------------------

/// Exit code of a usage error.
pub const USAGE_ERROR: i32 = 2;

/// `scan` exits 1 when `--strict` is given and anything was found, else 0.
pub fn scan_exit_code(strict: bool, census: &Census) -> (code: i32)
    ensures
        code == (if strict && census@.findings.len() > 0 { 1i32 } else { 0i32 }),
{
    if strict && census.findings.len() > 0 {
        1
    } else {
        0
    }
}

/// `diff` exits 1 on any drift, 0 when the tree matches the baseline.
pub fn diff_exit_code(drift: &Drift) -> (code: i32)
    ensures
        code == (if drift@.added.len() == 0 && drift@.removed.len() == 0 && drift@.changed.len() == 0 {
            0i32
        } else {
            1i32
        }),
{
    if drift.is_clean() {
        0
    } else {
        1
    }
}

// ---------------------------------------------------------------------
// Laws
// ---------------------------------------------------------------------

proof fn lemma_flag_spellings()
    ensures
        "--all"@ != "--help"@ && "--all"@ != "-h"@ && "--all"@ != "--version"@ && "--all"@ != "-V"@
            && "--all"@ != "--json"@ && "--all"@ != "--strict"@,
        "--no-archives"@ != "--help"@ && "--no-archives"@ != "-h"@ && "--no-archives"@ != "--version"@
            && "--no-archives"@ != "-V"@ && "--no-archives"@ != "--json"@ && "--no-archives"@
            != "--strict"@ && "--no-archives"@ != "--all"@,
        "--entropy"@ != "--help"@ && "--entropy"@ != "-h"@ && "--entropy"@ != "--version"@
            && "--entropy"@ != "-V"@ && "--entropy"@ != "--json"@ && "--entropy"@ != "--strict"@
            && "--entropy"@ != "--all"@ && "--entropy"@ != "--no-archives"@,
        "--min-blob"@ != "--help"@ && "--min-blob"@ != "-h"@ && "--min-blob"@ != "--version"@
            && "--min-blob"@ != "-V"@ && "--min-blob"@ != "--json"@ && "--min-blob"@ != "--strict"@
            && "--min-blob"@ != "--all"@ && "--min-blob"@ != "--no-archives"@ && "--min-blob"@
            != "--entropy"@,
{
    reveal_strlit("--all");
    reveal_strlit("--help");
    reveal_strlit("-h");
    reveal_strlit("--version");
    reveal_strlit("-V");
    reveal_strlit("--json");
    reveal_strlit("--strict");
    reveal_strlit("--no-archives");
    reveal_strlit("--entropy");
    reveal_strlit("--min-blob");
    assert("--all"@.len() == 5 && "--help"@.len() == 6 && "-h"@.len() == 2);
    assert("--version"@.len() == 9 && "-V"@.len() == 2 && "--json"@.len() == 6);
    assert("--strict"@.len() == 8 && "--no-archives"@.len() == 13 && "--entropy"@.len() == 9);
    assert("--min-blob"@.len() == 10);
    assert("--entropy"@[2] != "--version"@[2]);
}

/// The tuning flags mean the same to `scan`, `snapshot` and `diff`:
/// `--all` and `--no-archives` set their switch, `--entropy` takes a
/// usable threshold and `--min-blob` a valid size, and reading goes on
/// after them.
pub proof fn law_tuning_flags_for_every_scanning_command(
    args: Seq<Seq<char>>,
    checks: Seq<EntropyArg>,
    cmd: Seq<char>,
    i: nat,
    o: Opts,
)
    requires
        cmd == "scan"@ || cmd == "snapshot"@ || cmd == "diff"@,
        i < args.len(),
    ensures
        args[i as int] == "--all"@ ==> parse_opts(args, checks, cmd, i, o) == parse_opts(
            args,
            checks,
            cmd,
            i + 1,
            Opts { tuning: TuningV { all: true, ..o.tuning }, ..o },
        ),
        args[i as int] == "--no-archives"@ ==> parse_opts(args, checks, cmd, i, o) == parse_opts(
            args,
            checks,
            cmd,
            i + 1,
            Opts { tuning: TuningV { no_archives: true, ..o.tuning }, ..o },
        ),
        args[i as int] == "--entropy"@ && i + 1 < args.len() && checks[i + 1 as int]
            == EntropyArg::Valid ==> parse_opts(args, checks, cmd, i, o) == parse_opts(
            args,
            checks,
            cmd,
            i + 2,
            Opts { tuning: TuningV { entropy: args[i + 1 as int], ..o.tuning }, ..o },
        ),
        args[i as int] == "--min-blob"@ && i + 1 < args.len() && parse_size_spec(args[i + 1 as int])
            is Ok ==> parse_opts(args, checks, cmd, i, o) == parse_opts(
            args,
            checks,
            cmd,
            i + 2,
            Opts {
                tuning: TuningV { min_blob: parse_size_spec(args[i + 1 as int])->Ok_0, ..o.tuning },
                ..o
            },
        ),
{
    lemma_flag_spellings();
}

} // verus!
