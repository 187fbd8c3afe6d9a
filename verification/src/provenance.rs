//! Provenance resolution: given a file deep inside a dependency tree, name
//! the package that shipped it. Layout conventions come first
//! (`node_modules/<pkg>`, `site-packages/<pkg>`, Go `vendor/modules.txt`,
//! Bundler `gems/<name>-<ver>`), then the nearest manifest file. What the
//! rules read from disk is handed in as [`DirFacts`], one per directory.

use vstd::prelude::*;
use crate::text::{
    chars_of, is_whitespace, push_char, push_chars, push_str, skip_ws, slice_chars, split_chars,
    starts_with_at, string_of, trim, trim_chars, trim_start, trim_start_from, is_ws, lines_of,
    split_on, vv,
};
use crate::paths::{comps, comps_prefix, comps_view, components, join_comps, path_str, path_string, rel_slash_spec, Comp, PComp};
use crate::text::{find_from, is_digit, lower, to_lower};
use crate::order::lex_le;
use crate::util::{opt_view, rel_slash};

verus! {

/// Which package shipped a file, as far as the tree layout can tell.
#[derive(Debug, Clone, PartialEq)]
pub struct Provenance {
    pub ecosystem: Option<&'static str>,
    pub package: Option<String>,
    pub version: Option<String>,
    /// Root directory of the owning package, when one was identified.
    pub package_root: Option<String>,
}

/// The value of a [`Provenance`]: its strings as character sequences.
pub struct ProvV {
    pub ecosystem: Option<Seq<char>>,
    pub package: Option<Seq<char>>,
    pub version: Option<Seq<char>>,
    pub package_root: Option<Seq<char>>,
}

/// The view of an optional string slice.
pub open spec fn opt_str_view(o: Option<&'static str>) -> Option<Seq<char>> {
    match o {
        Some(s) => Some(s@),
        None => None,
    }
}

impl View for Provenance {
    type V = ProvV;

    open spec fn view(&self) -> ProvV {
        ProvV {
            ecosystem: opt_str_view(self.ecosystem),
            package: opt_view(self.package),
            version: opt_view(self.version),
            package_root: opt_view(self.package_root),
        }
    }
}

/// Nothing known.
pub open spec fn unattributed() -> ProvV {
    ProvV { ecosystem: None, package: None, version: None, package_root: None }
}

impl Default for Provenance {
    fn default() -> (p: Provenance)
        ensures
            p@ == unattributed(),
    {
        Provenance { ecosystem: None, package: None, version: None, package_root: None }
    }
}

/// `eco · pkg@version`, `eco · pkg` without a version, `unattributed` when
/// the ecosystem or the package is unknown.
pub open spec fn label_spec(p: ProvV) -> Seq<char> {
    match (p.ecosystem, p.package) {
        (Some(e), Some(k)) => match p.version {
            Some(v) => e + " · "@ + k + "@"@ + v,
            None => e + " · "@ + k,
        },
        _ => "unattributed"@,
    }
}

/// Path of `file` inside the package root, when there is one.
pub open spec fn inner_spec(p: ProvV, file: Seq<char>) -> Option<Seq<char>> {
    match p.package_root {
        Some(root) => Some(rel_slash_spec(root, file)),
        None => None,
    }
}

impl Provenance {
    /// Grouping label, e.g. `npm · sharp@0.33.4` or `unattributed`.
    pub fn label(&self) -> (r: String)
        ensures
            r@ == label_spec(self@),
    {
        match (&self.ecosystem, &self.package) {
            (Some(eco), Some(pkg)) => {
                let mut s = String::new();
                push_str(&mut s, eco);
                push_str(&mut s, " · ");
                push_str(&mut s, pkg.as_str());
                match &self.version {
                    Some(v) => {
                        push_str(&mut s, "@");
                        push_str(&mut s, v.as_str());
                    },
                    None => {},
                }
                s
            },
            _ => String::from_str("unattributed"),
        }
    }

    /// Path of `file` inside the package root, `/`-separated.
    pub fn inner(&self, file: &str) -> (r: Option<String>)
        ensures
            opt_view(r) == inner_spec(self@, file@),
    {
        match &self.package_root {
            Some(root) => Some(rel_slash(root.as_str(), file)),
            None => None,
        }
    }
}

// ---------------------------------------------------------------------
// Manifest field extraction
// ---------------------------------------------------------------------

/// `p` occurs in `s` at position `i`.
pub open spec fn occurs_at(s: Seq<char>, p: Seq<char>, i: int) -> bool {
    0 <= i && i + p.len() <= s.len() && s.subrange(i, i + p.len()) == p
}

/// The first position `>= from` where `p` occurs in `s`, or -1.
pub open spec fn find_sub(s: Seq<char>, p: Seq<char>, from: nat) -> int
    decreases s.len() - from,
{
    if from + p.len() > s.len() {
        -1
    } else if occurs_at(s, p, from as int) {
        from as int
    } else if from < s.len() {
        find_sub(s, p, from + 1)
    } else {
        -1
    }
}

proof fn lemma_find_sub(s: Seq<char>, p: Seq<char>, from: nat)
    ensures
        find_sub(s, p, from) == -1 || (from <= find_sub(s, p, from) && occurs_at(
            s,
            p,
            find_sub(s, p, from),
        )),
    decreases s.len() - from,
{
    if from + p.len() <= s.len() && !occurs_at(s, p, from as int) && from < s.len() {
        lemma_find_sub(s, p, from + 1);
    }
}

/// Where `p` next occurs in `s` at or after `from`.
pub(crate) fn find_sub_exec(s: &[char], p: &[char], from: usize) -> (r: Option<usize>)
    requires
        from <= s.len(),
    ensures
        r matches Some(i) ==> find_sub(s@, p@, from as nat) == i,
        r is None ==> find_sub(s@, p@, from as nat) == -1,
{
    let mut i = from;
    while p.len() <= s.len() - i
        invariant
            from <= i <= s.len(),
            find_sub(s@, p@, from as nat) == find_sub(s@, p@, i as nat),
        decreases s.len() - i,
    {
        if starts_with_at(s, i, p) {
            assert(s@.skip(i as int).take(p@.len() as int) == s@.subrange(i as int, i + p@.len()));
            return Some(i);
        }
        assert(s@.skip(i as int).take(p@.len() as int) == s@.subrange(i as int, i + p@.len()));
        if i == s.len() {
            return None;
        }
        i = i + 1;
    }
    None
}

/// `p` occurs somewhere in `s`.
pub open spec fn contains(s: Seq<char>, p: Seq<char>) -> bool {
    find_sub(s, p, 0) >= 0
}

/// Whether `p` occurs somewhere in `s`.
pub fn contains_str(s: &[char], p: &str) -> (r: bool)
    ensures
        r == contains(s@, p@),
{
    let pc = chars_of(p);
    match find_sub_exec(s, &pc, 0) {
        Some(_) => true,
        None => false,
    }
}

/// The character a JSON escape `\c` stands for, as far as manifests need.
pub open spec fn unescape(c: char) -> char {
    if c == 'n' {
        '\n'
    } else if c == 't' {
        '\t'
    } else {
        c
    }
}

/// `o` with `a` put in front of the string it holds.
pub open spec fn prepend(a: Seq<char>, o: Option<Seq<char>>) -> Option<Seq<char>> {
    match o {
        Some(r) => Some(a + r),
        None => None,
    }
}

/// The body of a JSON string whose opening quote has been consumed: the
/// characters up to the closing quote, escapes resolved; `None` when the
/// string is not terminated.
pub open spec fn decode(t: Seq<char>) -> Option<Seq<char>>
    decreases t.len(),
{
    if t.len() == 0 {
        None
    } else if t[0] == '"' {
        Some(Seq::<char>::empty())
    } else if t[0] == '\\' {
        if t.len() < 2 {
            None
        } else {
            prepend(seq![unescape(t[1])], decode(t.skip(2)))
        }
    } else {
        prepend(seq![t[0]], decode(t.skip(1)))
    }
}

/// What follows a key that ends at `after`: `Some(r)` when it is `: "…`,
/// where `r` is the decoded string (or `None` when unterminated); `None`
/// when the value is no string, so that the search goes on.
pub open spec fn json_value(s: Seq<char>, after: int) -> Option<Option<Seq<char>>> {
    let r1 = trim_start(s.skip(after));
    if r1.len() > 0 && r1[0] == ':' {
        let r2 = trim_start(r1.skip(1));
        if r2.len() > 0 && r2[0] == '"' {
            Some(decode(r2.skip(1)))
        } else {
            None
        }
    } else {
        None
    }
}

/// The first occurrence of `needle` at or after `from` that is followed by
/// a string value decides the result.
pub open spec fn json_field_from(s: Seq<char>, needle: Seq<char>, from: nat) -> Option<Seq<char>>
    decreases s.len() - from,
{
    let p = find_sub(s, needle, from);
    if p < 0 {
        None
    } else {
        let after = p + needle.len();
        match json_value(s, after) {
            Some(r) => r,
            None => if from < after <= s.len() {
                json_field_from(s, needle, after as nat)
            } else {
                None
            },
        }
    }
}

/// The string value of the first `"key": "…"` pair in `src`.
pub open spec fn json_field(src: Seq<char>, key: Seq<char>) -> Option<Seq<char>> {
    json_field_from(src, seq!['"'] + key + seq!['"'], 0)
}

/// Decodes the JSON string body starting at `start`.
fn decode_exec(s: &[char], start: usize) -> (r: Option<String>)
    requires
        start <= s.len(),
    ensures
        opt_view(r) == decode(s@.skip(start as int)),
{
    let mut acc: Vec<char> = Vec::new();
    let mut i = start;
    while i < s.len()
        invariant
            start <= i <= s.len(),
            decode(s@.skip(start as int)) == prepend(acc@, decode(s@.skip(i as int))),
        decreases s.len() - i,
    {
        let c = s[i];
        let ghost t = s@.skip(i as int);
        assert(t[0] == c);
        if c == '"' {
            assert(acc@ + Seq::<char>::empty() == acc@);
            return Some(string_of(&acc));
        } else if c == '\\' {
            if i + 1 < s.len() {
                let e = s[i + 1];
                let u = if e == 'n' {
                    '\n'
                } else if e == 't' {
                    '\t'
                } else {
                    e
                };
                assert(t[1] == e);
                assert(t.skip(2) == s@.skip(i + 2));
                proof {
                    match decode(s@.skip(i + 2)) {
                        Some(r) => {
                            assert(acc@.push(u) + r == acc@ + (seq![u] + r));
                        },
                        None => {},
                    }
                }
                acc.push(u);
                i = i + 2;
            } else {
                assert(decode(t) is None);
                return None;
            }
        } else {
            assert(t.skip(1) == s@.skip(i + 1));
            proof {
                match decode(s@.skip(i + 1)) {
                    Some(r) => {
                        assert(acc@.push(c) + r == acc@ + (seq![c] + r));
                    },
                    None => {},
                }
            }
            acc.push(c);
            i = i + 1;
        }
    }
    assert(s@.skip(i as int).len() == 0);
    None
}

/// Extract the first string value for `key` from a JSON document. Not a
/// full parser: a key whose value is no string is passed over, and an
/// unterminated string gives `None`.
pub fn json_str_field(src: &str, key: &str) -> (r: Option<String>)
    ensures
        opt_view(r) == json_field(src@, key@),
{
    let s = chars_of(src);
    let mut needle: Vec<char> = Vec::new();
    needle.push('"');
    let k = chars_of(key);
    let mut j: usize = 0;
    while j < k.len()
        invariant
            j <= k.len(),
            needle@ == seq!['"'] + k@.take(j as int),
        decreases k.len() - j,
    {
        needle.push(k[j]);
        assert(k@.take(j + 1) == k@.take(j as int).push(k@[j as int]));
        j = j + 1;
    }
    needle.push('"');
    assert(k@.take(k.len() as int) == k@);
    assert(needle@ == seq!['"'] + key@ + seq!['"']);
    let mut from: usize = 0;
    loop
        invariant
            from <= s.len(),
            needle@.len() >= 2,
            json_field(src@, key@) == json_field_from(s@, needle@, from as nat),
            s@ == src@,
        decreases s.len() + 1 - from,
    {
        match find_sub_exec(&s, &needle, from) {
            None => {
                return None;
            },
            Some(p) => {
                proof {
                    lemma_find_sub(s@, needle@, from as nat);
                }
                let after = p + needle.len();
                let a1 = skip_ws(&s, after);
                if a1 < s.len() && s[a1] == ':' {
                    assert(s@.skip(a1 as int)[0] == s@[a1 as int]);
                    assert(s@.skip(a1 as int).skip(1) == s@.skip(a1 + 1));
                    let a2 = skip_ws(&s, a1 + 1);
                    if a2 < s.len() && s[a2] == '"' {
                        assert(s@.skip(a2 as int)[0] == s@[a2 as int]);
                        assert(s@.skip(a2 as int).skip(1) == s@.skip(a2 + 1));
                        return decode_exec(&s, a2 + 1);
                    }
                    assert(a2 < s.len() ==> s@.skip(a2 as int)[0] == s@[a2 as int]);
                } else {
                    assert(a1 < s.len() ==> s@.skip(a1 as int)[0] == s@[a1 as int]);
                }
                if after == s.len() {
                    assert(json_value(s@, after as int) is None);
                    assert(find_sub(s@, needle@, after as nat) == -1);
                    assert(json_field_from(s@, needle@, after as nat) is None);
                    return None;
                }
                from = after;
            },
        }
    }
}

/// The text up to the first double quote, or all of it.
pub open spec fn before_quote(t: Seq<char>) -> Seq<char> {
    let i = find_from(t, '"', 0);
    if i < 0 {
        t
    } else {
        t.take(i)
    }
}

/// `key = "value"` lookup over the lines from `i` on; `in_pkg` says whether
/// the current section is `[package]`.
pub open spec fn toml_scan(ls: Seq<Seq<char>>, key: Seq<char>, i: nat, in_pkg: bool) -> Option<
    Seq<char>,
>
    decreases ls.len() - i,
{
    if i >= ls.len() {
        None
    } else {
        let line = trim(ls[i as int]);
        if line.len() > 0 && line[0] == '[' {
            toml_scan(ls, key, i + 1, line == "[package]"@)
        } else if in_pkg && key.len() <= line.len() && line.take(key.len() as int) == key {
            let rest = trim_start(line.skip(key.len() as int));
            if rest.len() > 0 && rest[0] == '=' {
                let r2 = trim(rest.skip(1));
                if r2.len() > 0 && r2[0] == '"' {
                    Some(before_quote(r2.skip(1)))
                } else {
                    None
                }
            } else {
                toml_scan(ls, key, i + 1, in_pkg)
            }
        } else {
            toml_scan(ls, key, i + 1, in_pkg)
        }
    }
}

/// The quoted value of `key` in the `[package]` section.
pub open spec fn toml_field(src: Seq<char>, key: Seq<char>) -> Option<Seq<char>> {
    toml_scan(lines_of(src), key, 0, false)
}

/// The lines of `s` (see [`lines_of`]) as character vectors.
pub fn lines_exec(s: &[char]) -> (r: Vec<Vec<char>>)
    ensures
        vv(r@) == lines_of(s@),
{
    let mut parts = split_chars(s, '\n');
    proof {
        crate::text::lemma_split_nonempty(s@, '\n');
    }
    let n = parts.len();
    if parts[n - 1].len() == 0 {
        parts.pop();
        assert(vv(parts@) == split_on(s@, '\n').drop_last());
    }
    parts
}

/// The quoted value after `=` on a `key = "value"` line, given the part
/// of the line after the key; `None` at the outer level when it is no
/// assignment, `Some(None)` when the value is not a quoted string.
fn toml_value(rest0: &[char]) -> (r: Option<Option<String>>)
    ensures
        ({
            let rest = trim_start(rest0@);
            if rest.len() > 0 && rest[0] == '=' {
                let r2 = trim(rest.skip(1));
                if r2.len() > 0 && r2[0] == '"' {
                    r matches Some(Some(v)) && v@ == before_quote(r2.skip(1))
                } else {
                    r matches Some(None)
                }
            } else {
                r is None
            }
        }),
{
    let rest = trim_start_from(rest0, 0);
    assert(rest0@.skip(0) == rest0@);
    if rest.len() > 0 && rest[0] == '=' {
        let tail = slice_chars(&rest, 1, rest.len());
        assert(tail@ == rest@.skip(1));
        let r2 = trim_chars(&tail);
        if r2.len() > 0 && r2[0] == '"' {
            let t = slice_chars(&r2, 1, r2.len());
            assert(t@ == r2@.skip(1));
            match crate::text::find_char(&t, '"', 0) {
                Some(q) => {
                    let v = slice_chars(&t, 0, q);
                    assert(v@ == t@.take(q as int));
                    Some(Some(string_of(&v)))
                },
                None => Some(Some(string_of(&t))),
            }
        } else {
            Some(None)
        }
    } else {
        None
    }
}

/// Extract `key = "value"` from the `[package]` section of a Cargo.toml.
pub fn toml_package_field(src: &str, key: &str) -> (r: Option<String>)
    ensures
        opt_view(r) == toml_field(src@, key@),
{
    let s = chars_of(src);
    let k = chars_of(key);
    let ls = lines_exec(&s);
    let mut in_pkg = false;
    let mut i: usize = 0;
    while i < ls.len()
        invariant
            i <= ls.len(),
            vv(ls@) == lines_of(src@),
            s@ == src@,
            k@ == key@,
            toml_field(src@, key@) == toml_scan(lines_of(src@), key@, i as nat, in_pkg),
        decreases ls.len() - i,
    {
        assert(vv(ls@)[i as int] == ls@[i as int]@);
        let line = trim_chars(&ls[i]);
        if line.len() > 0 && line[0] == '[' {
            in_pkg = crate::text::eq_lit(&line, "[package]");
        } else if in_pkg && starts_with_at(&line, 0, &k) {
            assert(line@.skip(0) == line@);
            let rest0 = slice_chars(&line, k.len(), line.len());
            assert(rest0@ == line@.skip(k.len() as int));
            match toml_value(&rest0) {
                Some(Some(v)) => {
                    return Some(v);
                },
                Some(None) => {
                    return None;
                },
                None => {},
            }
        } else {
            assert(line@.skip(0) == line@);
        }
        i = i + 1;
    }
    None
}

// ---------------------------------------------------------------------
// What the resolver reads from disk
// ---------------------------------------------------------------------

/// What the resolver may learn from disk about one directory: which
/// manifests are regular files, their text, and the directory listing.
pub struct DirFacts {
    /// `package.json` is a regular file.
    pub package_json_file: bool,
    /// Text of `package.json`, empty when it cannot be read.
    pub package_json: String,
    /// `Cargo.toml` is a regular file.
    pub cargo_toml_file: bool,
    /// Text of `Cargo.toml`, when it can be read.
    pub cargo_toml: Option<String>,
    /// `pyproject.toml` is a regular file.
    pub pyproject_file: bool,
    /// `setup.py` is a regular file.
    pub setup_py_file: bool,
    /// `go.mod` is a regular file.
    pub go_mod_file: bool,
    /// Text of `go.mod`, empty when it cannot be read.
    pub go_mod: String,
    /// `composer.json` is a regular file.
    pub composer_json_file: bool,
    /// Text of `composer.json`, empty when it cannot be read.
    pub composer_json: String,
    /// Text of `modules.txt`, when it can be read.
    pub modules_txt: Option<String>,
    /// Names of the directory's entries, when it can be listed.
    pub entries: Option<Vec<String>>,
}

/// The value of a [`DirFacts`].
pub struct FactsV {
    pub package_json_file: bool,
    pub package_json: Seq<char>,
    pub cargo_toml_file: bool,
    pub cargo_toml: Option<Seq<char>>,
    pub pyproject_file: bool,
    pub setup_py_file: bool,
    pub go_mod_file: bool,
    pub go_mod: Seq<char>,
    pub composer_json_file: bool,
    pub composer_json: Seq<char>,
    pub modules_txt: Option<Seq<char>>,
    pub entries: Option<Seq<Seq<char>>>,
}

/// The views of a list of strings.
pub open spec fn strs_view(v: Seq<String>) -> Seq<Seq<char>> {
    v.map_values(|x: String| x@)
}

impl View for DirFacts {
    type V = FactsV;

    open spec fn view(&self) -> FactsV {
        FactsV {
            package_json_file: self.package_json_file,
            package_json: self.package_json@,
            cargo_toml_file: self.cargo_toml_file,
            cargo_toml: opt_view(self.cargo_toml),
            pyproject_file: self.pyproject_file,
            setup_py_file: self.setup_py_file,
            go_mod_file: self.go_mod_file,
            go_mod: self.go_mod@,
            composer_json_file: self.composer_json_file,
            composer_json: self.composer_json@,
            modules_txt: opt_view(self.modules_txt),
            entries: match self.entries {
                Some(v) => Some(strs_view(v@)),
                None => None,
            },
        }
    }
}

/// A directory with nothing in it that the resolver looks for.
pub open spec fn no_facts() -> FactsV {
    FactsV {
        package_json_file: false,
        package_json: Seq::<char>::empty(),
        cargo_toml_file: false,
        cargo_toml: None,
        pyproject_file: false,
        setup_py_file: false,
        go_mod_file: false,
        go_mod: Seq::<char>::empty(),
        composer_json_file: false,
        composer_json: Seq::<char>::empty(),
        modules_txt: None,
        entries: None,
    }
}

impl Default for DirFacts {
    fn default() -> (d: DirFacts)
        ensures
            d@ == no_facts(),
    {
        DirFacts {
            package_json_file: false,
            package_json: String::new(),
            cargo_toml_file: false,
            cargo_toml: None,
            pyproject_file: false,
            setup_py_file: false,
            go_mod_file: false,
            go_mod: String::new(),
            composer_json_file: false,
            composer_json: String::new(),
            modules_txt: None,
            entries: None,
        }
    }
}

// ---------------------------------------------------------------------
// pip: dist-info versions
// ---------------------------------------------------------------------

/// PEP 503-style normalization: ASCII lowercase, `-` and `.` become `_`.
pub open spec fn pep503(s: Seq<char>) -> Seq<char> {
    s.map_values(|c: char| if c == '-' || c == '.' { '_' } else { lower(c) })
}

fn pep503_exec(s: &[char]) -> (r: Vec<char>)
    ensures
        r@ == pep503(s@),
{
    let mut r: Vec<char> = Vec::new();
    let mut i: usize = 0;
    while i < s.len()
        invariant
            i <= s.len(),
            r@ == pep503(s@.take(i as int)),
        decreases s.len() - i,
    {
        let c = s[i];
        let d = if c == '-' || c == '.' {
            '_'
        } else {
            to_lower(c)
        };
        r.push(d);
        assert(pep503(s@.take(i + 1)) == pep503(s@.take(i as int)).push(d));
        i = i + 1;
    }
    assert(s@.take(s.len() as int) == s@);
    r
}

/// `s` ends with `suf`.
pub open spec fn ends_with(s: Seq<char>, suf: Seq<char>) -> bool {
    suf.len() <= s.len() && s.skip(s.len() - suf.len()) == suf
}

/// `s` with every trailing repetition of `suf` removed
/// (`str::trim_end_matches`).
pub open spec fn strip_all(s: Seq<char>, suf: Seq<char>) -> Seq<char>
    decreases s.len(),
{
    if suf.len() > 0 && ends_with(s, suf) {
        strip_all(s.take(s.len() - suf.len()), suf)
    } else {
        s
    }
}

/// Position of the last `c` in `s`, or -1.
pub open spec fn last_pos(s: Seq<char>, c: char) -> int
    decreases s.len(),
{
    if s.len() == 0 {
        -1
    } else if s.last() == c {
        s.len() - 1
    } else {
        last_pos(s.drop_last(), c)
    }
}

fn ends_with_exec(s: &[char], len: usize, suf: &str) -> (r: bool)
    requires
        len <= s.len(),
    ensures
        r == ends_with(s@.take(len as int), suf@),
{
    let t = chars_of(suf);
    if t.len() > len {
        return false;
    }
    let r = starts_with_at(s, len - t.len(), &t);
    assert(s@.skip(len - t.len()).take(t.len() as int) == s@.take(len as int).skip(len - t.len()));
    r
}

/// Whether `s` ends with `suf`.
pub fn ends_with_str(s: &[char], suf: &str) -> (r: bool)
    ensures
        r == ends_with(s@, suf@),
{
    assert(s@.take(s.len() as int) == s@);
    ends_with_exec(s, s.len(), suf)
}

fn last_pos_exec(s: &[char], len: usize, c: char) -> (r: Option<usize>)
    requires
        len <= s.len(),
    ensures
        r matches Some(i) ==> last_pos(s@.take(len as int), c) == i && i < len,
        r is None ==> last_pos(s@.take(len as int), c) == -1,
{
    let mut i = len;
    while i > 0
        invariant
            i <= len <= s.len(),
            last_pos(s@.take(len as int), c) == last_pos(s@.take(i as int), c),
        decreases i,
    {
        assert(s@.take(i as int).drop_last() == s@.take(i - 1));
        if s[i - 1] == c {
            return Some(i - 1);
        }
        i = i - 1;
    }
    None
}

/// The version a `<name>-<version>.dist-info` entry gives for the
/// normalized package name `want`.
pub open spec fn dist_version(name: Seq<char>, want: Seq<char>) -> Option<Seq<char>> {
    if !ends_with(name, ".dist-info"@) {
        None
    } else {
        let stem = strip_all(name, ".dist-info"@);
        let i = last_pos(stem, '-');
        if i >= 0 && pep503(stem.take(i)) == want {
            Some(stem.skip(i + 1))
        } else {
            None
        }
    }
}

fn dist_version_exec(name: &[char], want: &[char]) -> (r: Option<Vec<char>>)
    ensures
        match r {
            Some(v) => dist_version(name@, want@) == Some(v@),
            None => dist_version(name@, want@) is None,
        },
{
    assert(name@.take(name.len() as int) == name@);
    if !ends_with_exec(name, name.len(), ".dist-info") {
        return None;
    }
    let ghost suf = ".dist-info"@;
    let mut len = name.len();
    while ends_with_exec(name, len, ".dist-info")
        invariant
            len <= name.len(),
            suf == ".dist-info"@,
            strip_all(name@, suf) == strip_all(name@.take(len as int), suf),
        decreases len,
    {
        proof {
            reveal_strlit(".dist-info");
        }
        assert(name@.take(len as int).take(len - 10) == name@.take(len - 10));
        len = len - 10;
    }
    proof {
        reveal_strlit(".dist-info");
    }
    let ghost stem = name@.take(len as int);
    assert(strip_all(name@, suf) == stem);
    match last_pos_exec(name, len, '-') {
        None => None,
        Some(i) => {
            let d = slice_chars(name, 0, i);
            assert(d@ == stem.take(i as int));
            let p = pep503_exec(&d);
            if crate::text::seq_eq(&p, want) {
                let v = slice_chars(name, i + 1, len);
                assert(v@ == stem.skip(i + 1));
                Some(v)
            } else {
                None
            }
        },
    }
}

/// Index `i` holds a matching dist-info entry that sorts first among all
/// matching entries.
pub open spec fn is_min_match(names: Seq<Seq<char>>, want: Seq<char>, i: int) -> bool {
    &&& 0 <= i < names.len()
    &&& dist_version(names[i], want) is Some
    &&& forall|j: int|
        0 <= j < names.len() && (#[trigger] dist_version(names[j], want)) is Some ==> lex_le(
            names[i],
            names[j],
        )
}

/// The version that the listing of `site-packages` gives for `package`:
/// that of the first matching `<name>-<version>.dist-info` entry in sorted
/// order, `None` when none matches or the directory cannot be listed.
pub open spec fn pip_version(entries: Option<Seq<Seq<char>>>, package: Seq<char>) -> Option<
    Seq<char>,
> {
    match entries {
        Some(names) => {
            let want = pep503(package);
            if exists|i: int| is_min_match(names, want, i) {
                dist_version(names[choose|i: int| is_min_match(names, want, i)], want)
            } else {
                None
            }
        },
        None => None,
    }
}

fn pip_version_exec(entries: &Option<Vec<String>>, package: &[char]) -> (r: Option<String>)
    ensures
        opt_view(r) == pip_version(
            match entries {
                Some(v) => Some(strs_view(v@)),
                None => None,
            },
            package@,
        ),
{
    match entries {
        None => None,
        Some(names) => {
            let want = pep503_exec(package);
            let ghost ns = strs_view(names@);
            let mut best: Option<usize> = None;
            let mut best_name: Vec<char> = Vec::new();
            let mut best_ver: Vec<char> = Vec::new();
            let mut i: usize = 0;
            while i < names.len()
                invariant
                    i <= names.len(),
                    ns == strs_view(names@),
                    want@ == pep503(package@),
                    best is None ==> forall|j: int|
                        0 <= j < i ==> (#[trigger] dist_version(ns[j], want@)) is None,
                    best matches Some(b) ==> {
                        &&& b < i
                        &&& best_name@ == ns[b as int]
                        &&& dist_version(ns[b as int], want@) == Some(best_ver@)
                        &&& forall|j: int|
                            0 <= j < i && (#[trigger] dist_version(ns[j], want@)) is Some
                                ==> lex_le(ns[b as int], ns[j])
                    },
                decreases names.len() - i,
            {
                let nm = chars_of(names[i].as_str());
                assert(nm@ == ns[i as int]);
                match dist_version_exec(&nm, &want) {
                    None => {},
                    Some(v) => {
                        let take = match best {
                            None => true,
                            Some(_) => crate::order::lex_less(&nm, &best_name),
                        };
                        proof {
                            if let Some(b) = best {
                                crate::order::lemma_lex_total(nm@, best_name@);
                                if take {
                                    assert forall|j: int|
                                        0 <= j < i && (#[trigger] dist_version(ns[j], want@))
                                            is Some implies lex_le(nm@, ns[j]) by {
                                        if ns[b as int] != ns[j] {
                                            crate::order::lemma_lex_trans(nm@, ns[b as int], ns[j]);
                                        }
                                    }
                                }
                            }
                        }
                        if take {
                            best = Some(i);
                            best_name = nm;
                            best_ver = v;
                        }
                    },
                }
                i = i + 1;
            }
            match best {
                None => {
                    assert(!exists|k: int| is_min_match(ns, want@, k));
                    None
                },
                Some(b) => {
                    assert(is_min_match(ns, want@, b as int));
                    let ghost c = choose|k: int| is_min_match(ns, want@, k);
                    proof {
                        if ns[c] != ns[b as int] {
                            crate::order::lemma_lex_asym(ns[c], ns[b as int]);
                        }
                    }
                    Some(string_of(&best_ver))
                },
            }
        },
    }
}

// ---------------------------------------------------------------------
// Bundler and Go layouts
// ---------------------------------------------------------------------

/// The first `-` at or after `i` that is followed by an ASCII digit, or -1:
/// where a gem directory name splits into name and version.
pub open spec fn gem_dash(full: Seq<char>, i: nat) -> int
    decreases full.len() - i,
{
    if i >= full.len() {
        -1
    } else if full[i as int] == '-' && i + 1 < full.len() && is_digit(full[i + 1 as int]) {
        i as int
    } else {
        gem_dash(full, i + 1)
    }
}

fn gem_dash_exec(full: &[char]) -> (r: Option<usize>)
    ensures
        r matches Some(i) ==> gem_dash(full@, 0) == i && i < full.len(),
        r is None ==> gem_dash(full@, 0) == -1,
{
    let mut i: usize = 0;
    while i < full.len()
        invariant
            i <= full.len(),
            gem_dash(full@, 0) == gem_dash(full@, i as nat),
        decreases full.len() - i,
    {
        if full[i] == '-' && i + 1 < full.len() && '0' <= full[i + 1] && full[i + 1] <= '9' {
            return Some(i);
        }
        i = i + 1;
    }
    None
}

/// Index of the first whitespace character of `t` at or after `i`, or its
/// length.
pub open spec fn ws_index(t: Seq<char>, i: nat) -> int
    decreases t.len() - i,
{
    if i >= t.len() {
        t.len() as int
    } else if is_ws(t[i as int]) {
        i as int
    } else {
        ws_index(t, i + 1)
    }
}

fn ws_index_exec(t: &[char]) -> (r: usize)
    ensures
        r == ws_index(t@, 0),
        r <= t.len(),
{
    let mut i: usize = 0;
    while i < t.len()
        invariant
            i <= t.len(),
            ws_index(t@, 0) == ws_index(t@, i as nat),
        decreases t.len() - i,
    {
        if is_whitespace(t[i]) {
            return i;
        }
        i = i + 1;
    }
    i
}

/// The module and version of a `# <module> <version>` line of
/// `vendor/modules.txt` (its first two whitespace-separated words).
pub open spec fn module_line(line: Seq<char>) -> Option<(Seq<char>, Seq<char>)> {
    let l = trim(line);
    if l.len() >= 2 && l[0] == '#' && l[1] == ' ' {
        let t1 = trim_start(l.skip(2));
        if t1.len() == 0 {
            None
        } else {
            let w1 = t1.take(ws_index(t1, 0));
            let t2 = trim_start(t1.skip(w1.len() as int));
            if t2.len() == 0 {
                None
            } else {
                Some((w1, t2.take(ws_index(t2, 0))))
            }
        }
    } else {
        None
    }
}

fn module_line_exec(line: &[char]) -> (r: Option<(Vec<char>, Vec<char>)>)
    ensures
        match r {
            Some((m, v)) => module_line(line@) == Some((m@, v@)),
            None => module_line(line@) is None,
        },
{
    let l = trim_chars(line);
    if l.len() >= 2 && l[0] == '#' && l[1] == ' ' {
        let t1 = trim_start_from(&l, 2);
        if t1.len() == 0 {
            return None;
        }
        let e1 = ws_index_exec(&t1);
        let w1 = slice_chars(&t1, 0, e1);
        assert(w1@ == t1@.take(e1 as int));
        let t2 = trim_start_from(&t1, e1);
        if t2.len() == 0 {
            return None;
        }
        let e2 = ws_index_exec(&t2);
        let w2 = slice_chars(&t2, 0, e2);
        assert(w2@ == t2@.take(e2 as int));
        Some((w1, w2))
    } else {
        None
    }
}

/// `module` names `rel` itself or a directory above it.
pub open spec fn module_covers(module: Seq<char>, rel: Seq<char>) -> bool {
    rel == module || (module.len() + 1 <= rel.len() && rel.take(module.len() + 1 as int) == module.push(
        '/',
    ))
}

/// The longest module (first of equal length) listed from line `i` on
/// that covers `rel`, starting from `best`. Both candidates prefix `rel`,
/// so comparing lengths in characters orders them as bytes would.
pub open spec fn go_scan(
    ls: Seq<Seq<char>>,
    rel: Seq<char>,
    i: nat,
    best: Option<(Seq<char>, Seq<char>)>,
) -> Option<(Seq<char>, Seq<char>)>
    decreases ls.len() - i,
{
    if i >= ls.len() {
        best
    } else {
        let nb = match module_line(ls[i as int]) {
            Some((m, v)) => if v.len() > 0 && v[0] == 'v' && module_covers(m, rel) && (match best {
                None => true,
                Some((bm, _)) => m.len() > bm.len(),
            }) {
                Some((m, v))
            } else {
                best
            },
            None => best,
        };
        go_scan(ls, rel, i + 1, nb)
    }
}

fn module_covers_exec(m: &[char], rel: &[char]) -> (r: bool)
    ensures
        r == module_covers(m@, rel@),
{
    if crate::text::seq_eq(m, rel) {
        return true;
    }
    if m.len() >= rel.len() {
        return false;
    }
    let mut p: Vec<char> = slice_chars(m, 0, m.len());
    assert(p@ == m@);
    p.push('/');
    let r = starts_with_at(rel, 0, &p);
    assert(rel@.skip(0) == rel@);
    r
}

/// The module of `modules.txt` that owns `rel`, with its version.
fn go_module_for(txt: &str, rel: &[char]) -> (r: Option<(Vec<char>, Vec<char>)>)
    ensures
        match r {
            Some((m, v)) => go_scan(lines_of(txt@), rel@, 0, None) == Some((m@, v@)),
            None => go_scan(lines_of(txt@), rel@, 0, None) is None,
        },
{
    let s = chars_of(txt);
    let ls = lines_exec(&s);
    let mut best: Option<(Vec<char>, Vec<char>)> = None;
    let mut i: usize = 0;
    while i < ls.len()
        invariant
            i <= ls.len(),
            vv(ls@) == lines_of(txt@),
            go_scan(lines_of(txt@), rel@, 0, None) == go_scan(
                lines_of(txt@),
                rel@,
                i as nat,
                match best {
                    Some((m, v)) => Some((m@, v@)),
                    None => None,
                },
            ),
        decreases ls.len() - i,
    {
        assert(vv(ls@)[i as int] == ls@[i as int]@);
        match module_line_exec(&ls[i]) {
            Some((m, v)) => {
                if v.len() > 0 && v[0] == 'v' && module_covers_exec(&m, rel) {
                    let longer = match &best {
                        None => true,
                        Some((bm, _)) => m.len() > bm.len(),
                    };
                    if longer {
                        best = Some((m, v));
                    }
                }
            },
            None => {},
        }
        i = i + 1;
    }
    best
}

// ---------------------------------------------------------------------
// The rules, one directory at a time
// ---------------------------------------------------------------------

/// The name of the directory made of the first `k` components of `f`
/// (`Path::file_name`): its last component when that is a normal one.
pub open spec fn name_at(f: Seq<Comp>, k: int) -> Option<Seq<char>> {
    if 1 <= k <= f.len() && f[k - 1] is Normal {
        Some(f[k - 1]->Normal_0)
    } else {
        None
    }
}

/// The path of the directory made of the first `k` components of `f`.
pub open spec fn dir_str(f: Seq<Comp>, k: int) -> Seq<char> {
    path_str(f.take(k))
}

/// The views of a list of directory facts.
pub open spec fn facts_view(v: Seq<DirFacts>) -> Seq<FactsV> {
    v.map_values(|d: DirFacts| d@)
}

/// Facts about the directory made of the first `k` of the `n` components
/// of the file, from a list ordered as `Path::ancestors` yields the file's
/// directories (its parent first); a directory past the list's end has
/// nothing in it.
pub open spec fn fact_at(facts: Seq<FactsV>, n: int, k: int) -> FactsV {
    let i = n - 1 - k;
    if 0 <= i < facts.len() {
        facts[i]
    } else {
        no_facts()
    }
}

/// `a`, or `b` when `a` is `None`.
pub open spec fn or_else(a: Option<Seq<char>>, b: Option<Seq<char>>) -> Option<Seq<char>> {
    match a {
        Some(x) => Some(x),
        None => b,
    }
}

/// A provenance record for a package rooted at `root`.
pub open spec fn found(
    eco: Seq<char>,
    package: Option<Seq<char>>,
    version: Option<Seq<char>>,
    root: Seq<char>,
) -> ProvV {
    ProvV { ecosystem: Some(eco), package, version, package_root: Some(root) }
}

/// The npm package name that `node_modules/<pkg>` or
/// `node_modules/@scope/<pkg>` gives to directory `k`.
pub open spec fn npm_full(f: Seq<Comp>, k: int) -> Option<Seq<char>> {
    match name_at(f, k) {
        None => None,
        Some(nm) => if name_at(f, k - 1) == Some("node_modules"@) {
            if nm.len() > 0 && nm[0] == '@' {
                None
            } else {
                Some(nm)
            }
        } else {
            match name_at(f, k - 1) {
                Some(pn) => if pn.len() > 0 && pn[0] == '@' && name_at(f, k - 2) == Some(
                    "node_modules"@,
                ) {
                    Some(pn + seq!['/'] + nm)
                } else {
                    None
                },
                None => None,
            }
        },
    }
}

/// npm layout: the manifest's name and version, the layout's name when
/// the manifest has none.
pub open spec fn npm_rule(f: Seq<Comp>, k: int, d: FactsV) -> Option<ProvV> {
    match npm_full(f, k) {
        None => None,
        Some(full) => Some(
            found(
                "npm"@,
                Some(
                    match json_field(d.package_json, "name"@) {
                        Some(x) => x,
                        None => full,
                    },
                ),
                json_field(d.package_json, "version"@),
                dir_str(f, k),
            ),
        ),
    }
}

/// `site-packages` or `dist-packages`.
pub open spec fn is_site(n: Seq<char>) -> bool {
    n == "site-packages"@ || n == "dist-packages"@
}

/// pip layout: a package directory directly inside site-packages.
pub open spec fn pip_rule(f: Seq<Comp>, k: int, facts: Seq<FactsV>, n: int) -> Option<ProvV> {
    match (name_at(f, k - 1), name_at(f, k)) {
        (Some(pn), Some(nm)) => if is_site(pn) && !(ends_with(nm, ".dist-info"@) || ends_with(
            nm,
            ".data"@,
        ) || nm == "__pycache__"@) {
            Some(
                found("pip"@, Some(nm), pip_version(fact_at(facts, n, k - 1).entries, nm), dir_str(f, k)),
            )
        } else {
            None
        },
        _ => None,
    }
}

/// Bundler layout: `gems/<name>-<version>`, the version starting at the
/// first `-` followed by a digit.
pub open spec fn gem_rule(f: Seq<Comp>, k: int) -> Option<ProvV> {
    match (name_at(f, k - 1), name_at(f, k)) {
        (Some(pn), Some(full)) => if pn == "gems"@ && gem_dash(full, 0) >= 0 {
            let i = gem_dash(full, 0);
            Some(found("gem"@, Some(full.take(i)), Some(full.skip(i + 1)), dir_str(f, k)))
        } else {
            None
        },
        _ => None,
    }
}

/// `Path::join`: `p` itself when absolute, else `p` after `base` and a
/// separator.
pub open spec fn join_path(base: Seq<char>, p: Seq<char>) -> Seq<char> {
    if p.len() > 0 && p[0] == '/' {
        p
    } else if base.len() == 0 || base.last() == '/' {
        base + p
    } else {
        base + seq!['/'] + p
    }
}

/// Go vendoring: in a `vendor` directory, the longest module of
/// `modules.txt` that covers the file's path below it.
pub open spec fn go_rule(f: Seq<Comp>, k: int, d: FactsV) -> Option<ProvV> {
    if name_at(f, k) == Some("vendor"@) {
        match d.modules_txt {
            None => None,
            Some(txt) => match go_scan(lines_of(txt), join_comps(f.skip(k)), 0, None) {
                None => None,
                Some((m, v)) => Some(
                    ProvV {
                        ecosystem: Some("go"@),
                        package: Some(m),
                        version: Some(v),
                        package_root: Some(join_path(dir_str(f, k), m)),
                    },
                ),
            },
        }
    } else {
        None
    }
}

/// The layout rules in order of confidence for directory `k`.
pub open spec fn layout_rule(f: Seq<Comp>, k: int, d: FactsV, facts: Seq<FactsV>, n: int) -> Option<
    ProvV,
> {
    match npm_rule(f, k, d) {
        Some(p) => Some(p),
        None => match pip_rule(f, k, facts, n) {
            Some(p) => Some(p),
            None => match gem_rule(f, k) {
                Some(p) => Some(p),
                None => go_rule(f, k, d),
            },
        },
    }
}

/// A crate manifest with a `[package]` name.
pub open spec fn cargo_rule(f: Seq<Comp>, k: int, d: FactsV) -> Option<ProvV> {
    if !d.cargo_toml_file {
        None
    } else {
        match d.cargo_toml {
            None => None,
            Some(t) => match toml_field(t, "name"@) {
                None => None,
                Some(nm) => Some(found("cargo"@, Some(nm), toml_field(t, "version"@), dir_str(f, k))),
            },
        }
    }
}

/// The module path of the first `module …` line of a `go.mod`, from line `i`.
pub open spec fn go_mod_scan(ls: Seq<Seq<char>>, i: nat) -> Option<Seq<char>>
    decreases ls.len() - i,
{
    if i >= ls.len() {
        None
    } else {
        let l = trim(ls[i as int]);
        if l.len() >= 7 && l.take(7) == "module "@ {
            Some(trim(l.skip(7)))
        } else {
            go_mod_scan(ls, i + 1)
        }
    }
}

/// The nearest-manifest fallback for directory `k`.
pub open spec fn fallback_rule(f: Seq<Comp>, k: int, d: FactsV) -> Option<ProvV> {
    if d.package_json_file {
        Some(
            found(
                "npm"@,
                or_else(json_field(d.package_json, "name"@), name_at(f, k)),
                json_field(d.package_json, "version"@),
                dir_str(f, k),
            ),
        )
    } else if d.cargo_toml_file {
        cargo_rule(f, k, d)
    } else if d.pyproject_file || d.setup_py_file {
        Some(found("pip"@, name_at(f, k), None, dir_str(f, k)))
    } else if d.go_mod_file {
        Some(
            found(
                "go"@,
                or_else(go_mod_scan(lines_of(d.go_mod), 0), name_at(f, k)),
                None,
                dir_str(f, k),
            ),
        )
    } else if d.composer_json_file {
        Some(
            found(
                "composer"@,
                or_else(json_field(d.composer_json, "name"@), name_at(f, k)),
                json_field(d.composer_json, "version"@),
                dir_str(f, k),
            ),
        )
    } else {
        None
    }
}

/// A single-file extension module directly in site-packages: the module
/// is the file name up to its first `.`.
pub open spec fn pip_top_rule(f: Seq<Comp>, facts: Seq<FactsV>) -> Option<ProvV> {
    let n = f.len() as int;
    match (name_at(f, n - 1), name_at(f, n)) {
        (Some(sn), Some(stem)) => if is_site(sn) {
            let module = if find_from(stem, '.', 0) >= 0 {
                stem.take(find_from(stem, '.', 0))
            } else {
                stem
            };
            Some(
                found(
                    "pip"@,
                    Some(module),
                    pip_version(fact_at(facts, n, n - 1).entries, module),
                    dir_str(f, n - 1),
                ),
            )
        } else {
            None
        },
        _ => None,
    }
}

// ---------------------------------------------------------------------
// The rules, executable
// ---------------------------------------------------------------------

/// The view of an optional character vector.
pub open spec fn opt_chars(o: Option<Vec<char>>) -> Option<Seq<char>> {
    match o {
        Some(v) => Some(v@),
        None => None,
    }
}

fn name_exec(f: &Vec<PComp>, k: usize) -> (r: Option<Vec<char>>)
    ensures
        opt_chars(r) == name_at(comps_view(f@), k as int),
{
    if k >= 1 && k <= f.len() {
        match &f[k - 1] {
            PComp::Normal(v) => Some(slice_chars(v.as_slice(), 0, v.len())),
            _ => None,
        }
    } else {
        None
    }
}

fn name_is(f: &Vec<PComp>, k: usize, lit: &str) -> (r: bool)
    ensures
        r == (name_at(comps_view(f@), k as int) == Some(lit@)),
{
    match name_exec(f, k) {
        Some(v) => crate::text::eq_lit(&v, lit),
        None => false,
    }
}

fn string_opt(o: Option<Vec<char>>) -> (r: Option<String>)
    ensures
        opt_view(r) == opt_chars(o),
{
    match o {
        Some(v) => Some(string_of(&v)),
        None => None,
    }
}

fn fact_ref<'a>(facts: &'a [DirFacts], n: usize, k: usize, none: &'a DirFacts) -> (r: &'a DirFacts)
    requires
        none@ == no_facts(),
        k < n,
    ensures
        r@ == fact_at(facts_view(facts@), n as int, k as int),
{
    let i = n - 1 - k;
    if i < facts.len() {
        &facts[i]
    } else {
        none
    }
}

fn found_exec(eco: &'static str, package: Option<String>, version: Option<String>, root: String) -> (p: Provenance)
    ensures
        p@ == found(eco@, opt_view(package), opt_view(version), root@),
{
    Provenance { ecosystem: Some(eco), package, version, package_root: Some(root) }
}

fn starts_with_char(v: &[char], c: char) -> (r: bool)
    ensures
        r == (v@.len() > 0 && v@[0] == c),
{
    v.len() > 0 && v[0] == c
}

fn npm_full_exec(f: &Vec<PComp>, k: usize) -> (r: Option<Vec<char>>)
    ensures
        opt_chars(r) == npm_full(comps_view(f@), k as int),
{
    match name_exec(f, k) {
        None => None,
        Some(nm) => {
            if name_is(f, k - 1, "node_modules") {
                if starts_with_char(&nm, '@') {
                    None
                } else {
                    Some(nm)
                }
            } else if k >= 2 {
                match name_exec(f, k - 1) {
                    Some(pn) => {
                        if starts_with_char(&pn, '@') && name_is(f, k - 2, "node_modules") {
                            let mut full = pn;
                            full.push('/');
                            let mut i: usize = 0;
                            let ghost start = full@;
                            while i < nm.len()
                                invariant
                                    i <= nm.len(),
                                    full@ == start + nm@.take(i as int),
                                decreases nm.len() - i,
                            {
                                full.push(nm[i]);
                                assert(nm@.take(i + 1) == nm@.take(i as int).push(nm@[i as int]));
                                i = i + 1;
                            }
                            assert(nm@.take(nm.len() as int) == nm@);
                            Some(full)
                        } else {
                            None
                        }
                    },
                    None => None,
                }
            } else {
                None
            }
        },
    }
}

fn npm_exec(f: &Vec<PComp>, k: usize, d: &DirFacts) -> (r: Option<Provenance>)
    requires
        k <= f.len(),
    ensures
        match r {
            Some(p) => npm_rule(comps_view(f@), k as int, d@) == Some(p@),
            None => npm_rule(comps_view(f@), k as int, d@) is None,
        },
{
    match npm_full_exec(f, k) {
        None => None,
        Some(full) => {
            let pkg = match json_str_field(d.package_json.as_str(), "name") {
                Some(x) => x,
                None => string_of(&full),
            };
            let version = json_str_field(d.package_json.as_str(), "version");
            Some(found_exec("npm", Some(pkg), version, path_string(f, k)))
        },
    }
}

fn is_site_exec(v: &[char]) -> (r: bool)
    ensures
        r == is_site(v@),
{
    crate::text::eq_lit(v, "site-packages") || crate::text::eq_lit(v, "dist-packages")
}

fn pip_exec(f: &Vec<PComp>, k: usize, facts: &[DirFacts], none: &DirFacts) -> (r: Option<Provenance>)
    requires
        k <= f.len(),
        none@ == no_facts(),
    ensures
        match r {
            Some(p) => pip_rule(comps_view(f@), k as int, facts_view(facts@), f.len() as int) == Some(p@),
            None => pip_rule(comps_view(f@), k as int, facts_view(facts@), f.len() as int) is None,
        },
{
    if k < 1 {
        return None;
    }
    match (name_exec(f, k - 1), name_exec(f, k)) {
        (Some(pn), Some(nm)) => {
            assert(nm@.take(nm.len() as int) == nm@);
            if is_site_exec(&pn) && !(ends_with_exec(&nm, nm.len(), ".dist-info") || ends_with_exec(
                &nm,
                nm.len(),
                ".data",
            ) || crate::text::eq_lit(&nm, "__pycache__")) {
                let site = fact_ref(facts, f.len(), k - 1, none);
                let version = pip_version_exec(&site.entries, &nm);
                Some(found_exec("pip", Some(string_of(&nm)), version, path_string(f, k)))
            } else {
                None
            }
        },
        _ => None,
    }
}

fn gem_exec(f: &Vec<PComp>, k: usize) -> (r: Option<Provenance>)
    requires
        k <= f.len(),
    ensures
        match r {
            Some(p) => gem_rule(comps_view(f@), k as int) == Some(p@),
            None => gem_rule(comps_view(f@), k as int) is None,
        },
{
    if k < 1 {
        return None;
    }
    match (name_exec(f, k - 1), name_exec(f, k)) {
        (Some(pn), Some(full)) => {
            if crate::text::eq_lit(&pn, "gems") {
                match gem_dash_exec(&full) {
                    Some(i) => {
                        let name = slice_chars(&full, 0, i);
                        let version = slice_chars(&full, i + 1, full.len());
                        assert(name@ == full@.take(i as int));
                        assert(version@ == full@.skip(i + 1));
                        Some(
                            found_exec(
                                "gem",
                                Some(string_of(&name)),
                                Some(string_of(&version)),
                                path_string(f, k),
                            ),
                        )
                    },
                    None => None,
                }
            } else {
                None
            }
        },
        _ => None,
    }
}

fn join_path_exec(base: String, p: &[char]) -> (r: String)
    ensures
        r@ == join_path(base@, p@),
{
    if p.len() > 0 && p[0] == '/' {
        string_of(p)
    } else {
        let mut s = base;
        let bc = chars_of(s.as_str());
        if !(bc.len() == 0 || bc[bc.len() - 1] == '/') {
            push_char(&mut s, '/');
        }
        push_chars(&mut s, p);
        s
    }
}

fn go_exec(f: &Vec<PComp>, k: usize, d: &DirFacts) -> (r: Option<Provenance>)
    requires
        k <= f.len(),
    ensures
        match r {
            Some(p) => go_rule(comps_view(f@), k as int, d@) == Some(p@),
            None => go_rule(comps_view(f@), k as int, d@) is None,
        },
{
    if !name_is(f, k, "vendor") {
        return None;
    }
    match &d.modules_txt {
        None => None,
        Some(txt) => {
            let rel = crate::paths::join_from(f, k);
            let rc = chars_of(rel.as_str());
            match go_module_for(txt.as_str(), &rc) {
                None => None,
                Some((m, v)) => {
                    let root = join_path_exec(path_string(f, k), &m);
                    Some(
                        Provenance {
                            ecosystem: Some("go"),
                            package: Some(string_of(&m)),
                            version: Some(string_of(&v)),
                            package_root: Some(root),
                        },
                    )
                },
            }
        },
    }
}

fn layout_exec(f: &Vec<PComp>, k: usize, d: &DirFacts, facts: &[DirFacts], none: &DirFacts) -> (r: Option<Provenance>)
    requires
        k <= f.len(),
        none@ == no_facts(),
    ensures
        match r {
            Some(p) => layout_rule(comps_view(f@), k as int, d@, facts_view(facts@), f.len() as int) == Some(p@),
            None => layout_rule(comps_view(f@), k as int, d@, facts_view(facts@), f.len() as int) is None,
        },
{
    if let Some(p) = npm_exec(f, k, d) {
        return Some(p);
    }
    if let Some(p) = pip_exec(f, k, facts, none) {
        return Some(p);
    }
    if let Some(p) = gem_exec(f, k) {
        return Some(p);
    }
    go_exec(f, k, d)
}

fn cargo_exec(f: &Vec<PComp>, k: usize, d: &DirFacts) -> (r: Option<Provenance>)
    requires
        k <= f.len(),
    ensures
        match r {
            Some(p) => cargo_rule(comps_view(f@), k as int, d@) == Some(p@),
            None => cargo_rule(comps_view(f@), k as int, d@) is None,
        },
{
    if !d.cargo_toml_file {
        return None;
    }
    match &d.cargo_toml {
        None => None,
        Some(t) => match toml_package_field(t.as_str(), "name") {
            None => None,
            Some(nm) => {
                let version = toml_package_field(t.as_str(), "version");
                Some(found_exec("cargo", Some(nm), version, path_string(f, k)))
            },
        },
    }
}

fn go_mod_module(txt: &str) -> (r: Option<String>)
    ensures
        opt_view(r) == go_mod_scan(lines_of(txt@), 0),
{
    let s = chars_of(txt);
    let ls = lines_exec(&s);
    let mut i: usize = 0;
    while i < ls.len()
        invariant
            i <= ls.len(),
            vv(ls@) == lines_of(txt@),
            go_mod_scan(lines_of(txt@), 0) == go_mod_scan(lines_of(txt@), i as nat),
        decreases ls.len() - i,
    {
        assert(vv(ls@)[i as int] == ls@[i as int]@);
        let l = trim_chars(&ls[i]);
        let p = chars_of("module ");
        proof {
            reveal_strlit("module ");
        }
        if l.len() >= 7 && starts_with_at(&l, 0, &p) {
            assert(l@.skip(0) == l@);
            let rest = slice_chars(&l, 7, l.len());
            assert(rest@ == l@.skip(7));
            let m = trim_chars(&rest);
            return Some(string_of(&m));
        }
        assert(l@.skip(0) == l@);
        i = i + 1;
    }
    None
}

fn fallback_exec(f: &Vec<PComp>, k: usize, d: &DirFacts) -> (r: Option<Provenance>)
    requires
        k <= f.len(),
    ensures
        match r {
            Some(p) => fallback_rule(comps_view(f@), k as int, d@) == Some(p@),
            None => fallback_rule(comps_view(f@), k as int, d@) is None,
        },
{
    if d.package_json_file {
        let pkg = match json_str_field(d.package_json.as_str(), "name") {
            Some(x) => Some(x),
            None => string_opt(name_exec(f, k)),
        };
        let version = json_str_field(d.package_json.as_str(), "version");
        Some(found_exec("npm", pkg, version, path_string(f, k)))
    } else if d.cargo_toml_file {
        cargo_exec(f, k, d)
    } else if d.pyproject_file || d.setup_py_file {
        Some(found_exec("pip", string_opt(name_exec(f, k)), None, path_string(f, k)))
    } else if d.go_mod_file {
        let pkg = match go_mod_module(d.go_mod.as_str()) {
            Some(x) => Some(x),
            None => string_opt(name_exec(f, k)),
        };
        Some(found_exec("go", pkg, None, path_string(f, k)))
    } else if d.composer_json_file {
        let pkg = match json_str_field(d.composer_json.as_str(), "name") {
            Some(x) => Some(x),
            None => string_opt(name_exec(f, k)),
        };
        let version = json_str_field(d.composer_json.as_str(), "version");
        Some(found_exec("composer", pkg, version, path_string(f, k)))
    } else {
        None
    }
}

fn pip_top_exec(f: &Vec<PComp>, facts: &[DirFacts], none: &DirFacts) -> (r: Option<Provenance>)
    requires
        none@ == no_facts(),
    ensures
        match r {
            Some(p) => pip_top_rule(comps_view(f@), facts_view(facts@)) == Some(p@),
            None => pip_top_rule(comps_view(f@), facts_view(facts@)) is None,
        },
{
    let n = f.len();
    if n < 1 {
        return None;
    }
    match (name_exec(f, n - 1), name_exec(f, n)) {
        (Some(sn), Some(stem)) => {
            if is_site_exec(&sn) {
                let module = match crate::text::find_char(&stem, '.', 0) {
                    Some(i) => slice_chars(&stem, 0, i),
                    None => slice_chars(&stem, 0, stem.len()),
                };
                assert(stem@.subrange(0, stem.len() as int) == stem@);
                let site = fact_ref(facts, n, n - 1, none);
                let version = pip_version_exec(&site.entries, &module);
                Some(found_exec("pip", Some(string_of(&module)), version, path_string(f, n - 1)))
            } else {
                None
            }
        },
        _ => None,
    }
}

// ---------------------------------------------------------------------
// The search
// ---------------------------------------------------------------------

/// How many directories the search visits. When the file lies under the
/// root: its directories strictly below the root, then the root itself.
/// Otherwise every directory above the file.
pub open spec fn search_len(r: Seq<Comp>, f: Seq<Comp>) -> int {
    if comps_prefix(r, f) {
        if f.len() > r.len() {
            f.len() - r.len()
        } else {
            1
        }
    } else {
        let low = if f.len() > 0 && f[0] is Root {
            1int
        } else {
            0int
        };
        if f.len() > low {
            f.len() - low
        } else {
            0
        }
    }
}

/// The `j`-th directory of the search, as a number of leading components
/// of the file's path: nearest first, the root last when it bounds the
/// search.
pub open spec fn search_k(r: Seq<Comp>, f: Seq<Comp>, j: int) -> int {
    if comps_prefix(r, f) && j == search_len(r, f) - 1 {
        r.len() as int
    } else {
        f.len() - 1 - j
    }
}

/// What is on disk in the `j`-th directory of the search.
pub open spec fn search_facts(r: Seq<Comp>, f: Seq<Comp>, facts: Seq<FactsV>, rootf: FactsV, j: int) -> FactsV {
    if comps_prefix(r, f) && j == search_len(r, f) - 1 {
        rootf
    } else {
        fact_at(facts, f.len() as int, f.len() - 1 - j)
    }
}

/// The first layout rule that matches, nearest directory first.
pub open spec fn layout_pass(r: Seq<Comp>, f: Seq<Comp>, facts: Seq<FactsV>, rootf: FactsV, j: nat) -> Option<ProvV>
    decreases search_len(r, f) - j,
{
    if j >= search_len(r, f) {
        None
    } else {
        match layout_rule(f, search_k(r, f, j as int), search_facts(r, f, facts, rootf, j as int), facts, f.len() as int) {
            Some(p) => Some(p),
            None => layout_pass(r, f, facts, rootf, j + 1),
        }
    }
}

/// The nearest directory holding a recognizable manifest.
pub open spec fn manifest_pass(r: Seq<Comp>, f: Seq<Comp>, facts: Seq<FactsV>, rootf: FactsV, j: nat) -> Option<ProvV>
    decreases search_len(r, f) - j,
{
    if j >= search_len(r, f) {
        None
    } else {
        match fallback_rule(f, search_k(r, f, j as int), search_facts(r, f, facts, rootf, j as int)) {
            Some(p) => Some(p),
            None => manifest_pass(r, f, facts, rootf, j + 1),
        }
    }
}

/// Provenance of `file`: a top-level extension module in site-packages,
/// else the first layout rule over the searched directories, else the
/// nearest manifest, else nothing.
pub open spec fn resolve_spec(root: Seq<char>, file: Seq<char>, facts: Seq<FactsV>, rootf: FactsV) -> ProvV {
    let f = comps(file);
    let r = comps(root);
    match pip_top_rule(f, facts) {
        Some(p) => p,
        None => match layout_pass(r, f, facts, rootf, 0) {
            Some(p) => p,
            None => match manifest_pass(r, f, facts, rootf, 0) {
                Some(p) => p,
                None => unattributed(),
            },
        },
    }
}

/// Resolve provenance for `file`, looking at its directories up to and
/// including `root` when the file lies under it, else at all of them.
/// `facts` describes the file's directories in `file.ancestors().skip(1)`
/// order, `root_facts` the root. Layout conventions win over the manifest
/// fallback, and the nearest directory wins within each pass.
pub fn resolve(root: &str, file: &str, facts: &[DirFacts], root_facts: &DirFacts) -> (p: Provenance)
    ensures
        p@ == resolve_spec(root@, file@, facts_view(facts@), root_facts@),
{
    let fc = chars_of(file);
    let f = components(&fc);
    let rc = chars_of(root);
    let r = components(&rc);
    let none = DirFacts::default();
    let ghost fv = comps_view(f@);
    let ghost rv = comps_view(r@);
    let ghost fs = facts_view(facts@);
    if let Some(p) = pip_top_exec(&f, facts, &none) {
        return p;
    }
    let n = f.len();
    let bounded = crate::paths::is_comps_prefix(&r, &f);
    let len: usize = if bounded {
        if n > r.len() {
            n - r.len()
        } else {
            1
        }
    } else {
        let low: usize = if n > 0 && matches!(f[0], PComp::Root) {
            1
        } else {
            0
        };
        if n > low {
            n - low
        } else {
            0
        }
    };
    assert(len == search_len(rv, fv));
    let mut j: usize = 0;
    while j < len
        invariant
            j <= len,
            len == search_len(rv, fv),
            bounded == comps_prefix(rv, fv),
            n == f.len(),
            r.len() <= n || !bounded,
            fv == comps_view(f@),
            rv == comps_view(r@),
            fs == facts_view(facts@),
            none@ == no_facts(),
            layout_pass(rv, fv, fs, root_facts@, 0) == layout_pass(rv, fv, fs, root_facts@, j as nat),
            pip_top_rule(fv, fs) is None,
            fv == comps(file@),
            rv == comps(root@),
        decreases len - j,
    {
        let last = bounded && j + 1 == len;
        let k: usize = if last {
            r.len()
        } else {
            n - 1 - j
        };
        let d: &DirFacts = if last {
            root_facts
        } else if j < facts.len() {
            &facts[j]
        } else {
            &none
        };
        assert(k == search_k(rv, fv, j as int));
        assert(d@ == search_facts(rv, fv, fs, root_facts@, j as int));
        if let Some(p) = layout_exec(&f, k, d, facts, &none) {
            assert(layout_pass(rv, fv, fs, root_facts@, j as nat) == Some(p@));
            return p;
        }
        j = j + 1;
    }
    let mut j: usize = 0;
    while j < len
        invariant
            j <= len,
            len == search_len(rv, fv),
            bounded == comps_prefix(rv, fv),
            n == f.len(),
            r.len() <= n || !bounded,
            fv == comps_view(f@),
            rv == comps_view(r@),
            fs == facts_view(facts@),
            none@ == no_facts(),
            manifest_pass(rv, fv, fs, root_facts@, 0) == manifest_pass(rv, fv, fs, root_facts@, j as nat),
            pip_top_rule(fv, fs) is None,
            layout_pass(rv, fv, fs, root_facts@, 0) is None,
            fv == comps(file@),
            rv == comps(root@),
        decreases len - j,
    {
        let last = bounded && j + 1 == len;
        let k: usize = if last {
            r.len()
        } else {
            n - 1 - j
        };
        let d: &DirFacts = if last {
            root_facts
        } else if j < facts.len() {
            &facts[j]
        } else {
            &none
        };
        assert(k == search_k(rv, fv, j as int));
        assert(d@ == search_facts(rv, fv, fs, root_facts@, j as int));
        if let Some(p) = fallback_exec(&f, k, d) {
            assert(manifest_pass(rv, fv, fs, root_facts@, j as nat) == Some(p@));
            return p;
        }
        j = j + 1;
    }
    Provenance::default()
}

// ---------------------------------------------------------------------
// Laws
// ---------------------------------------------------------------------

/// Two fact lists that agree on every directory from the root down, and on
/// the listing of the root's parent.
pub open spec fn agree_below(facts1: Seq<FactsV>, facts2: Seq<FactsV>, n: int, m: int) -> bool {
    &&& forall|k: int| m <= k < n ==> #[trigger] fact_at(facts1, n, k) == fact_at(facts2, n, k)
    &&& m >= 1 ==> fact_at(facts1, n, m - 1).entries == fact_at(facts2, n, m - 1).entries
}

proof fn lemma_layout_pass_scoped(
    r: Seq<Comp>,
    f: Seq<Comp>,
    facts1: Seq<FactsV>,
    facts2: Seq<FactsV>,
    rootf: FactsV,
    j: nat,
)
    requires
        comps_prefix(r, f),
        agree_below(facts1, facts2, f.len() as int, r.len() as int),
    ensures
        layout_pass(r, f, facts1, rootf, j) == layout_pass(r, f, facts2, rootf, j),
        manifest_pass(r, f, facts1, rootf, j) == manifest_pass(r, f, facts2, rootf, j),
    decreases search_len(r, f) - j,
{
    let n = f.len() as int;
    let m = r.len() as int;
    if j < search_len(r, f) {
        let k = search_k(r, f, j as int);
        assert(m <= k <= n);
        if k > m {
            assert(fact_at(facts1, n, k) == fact_at(facts2, n, k));
            assert(fact_at(facts1, n, k - 1) == fact_at(facts2, n, k - 1));
        }
        assert(search_facts(r, f, facts1, rootf, j as int) == search_facts(r, f, facts2, rootf, j as int));
        assert(pip_rule(f, k, facts1, n) == pip_rule(f, k, facts2, n));
        lemma_layout_pass_scoped(r, f, facts1, facts2, rootf, j + 1);
    }
}

/// A file under the root is attributed from the directories from the root
/// down alone: what lies above the root (a manifest there, say) is never
/// consulted, save the listing of the root's own parent, where the
/// site-packages rule looks for `dist-info` entries.
pub proof fn law_lookup_stops_at_root(
    root: Seq<char>,
    file: Seq<char>,
    facts1: Seq<FactsV>,
    facts2: Seq<FactsV>,
    rootf: FactsV,
)
    requires
        comps_prefix(comps(root), comps(file)),
        agree_below(facts1, facts2, comps(file).len() as int, comps(root).len() as int),
    ensures
        resolve_spec(root, file, facts1, rootf) == resolve_spec(root, file, facts2, rootf),
{
    let f = comps(file);
    let r = comps(root);
    let n = f.len() as int;
    let m = r.len() as int;
    if n >= 1 {
        if n - 1 >= m {
            assert(fact_at(facts1, n, n - 1) == fact_at(facts2, n, n - 1));
        }
    }
    assert(pip_top_rule(f, facts1) == pip_top_rule(f, facts2));
    lemma_layout_pass_scoped(r, f, facts1, facts2, rootf, 0);
}

proof fn lemma_passes_unbounded(
    r1: Seq<Comp>,
    r2: Seq<Comp>,
    f: Seq<Comp>,
    facts: Seq<FactsV>,
    rf1: FactsV,
    rf2: FactsV,
    j: nat,
)
    requires
        !comps_prefix(r1, f),
        !comps_prefix(r2, f),
    ensures
        layout_pass(r1, f, facts, rf1, j) == layout_pass(r2, f, facts, rf2, j),
        manifest_pass(r1, f, facts, rf1, j) == manifest_pass(r2, f, facts, rf2, j),
    decreases search_len(r1, f) - j,
{
    if j < search_len(r1, f) {
        lemma_passes_unbounded(r1, r2, f, facts, rf1, rf2, j + 1);
    }
}

/// A file that does not lie under the root follows its own ancestry: the
/// root, and what is on disk there, play no part.
pub proof fn law_outside_root_ignores_root(
    root1: Seq<char>,
    root2: Seq<char>,
    file: Seq<char>,
    facts: Seq<FactsV>,
    rf1: FactsV,
    rf2: FactsV,
)
    requires
        !comps_prefix(comps(root1), comps(file)),
        !comps_prefix(comps(root2), comps(file)),
    ensures
        resolve_spec(root1, file, facts, rf1) == resolve_spec(root2, file, facts, rf2),
{
    lemma_passes_unbounded(comps(root1), comps(root2), comps(file), facts, rf1, rf2, 0);
}

/// `s[i]` is a `-` followed by an ASCII digit.
pub open spec fn dash_before_digit(s: Seq<char>, i: int) -> bool {
    0 <= i && i + 1 < s.len() && s[i] == '-' && '0' <= s[i + 1] && s[i + 1] <= '9'
}

proof fn lemma_gem_dash(full: Seq<char>, from: nat)
    ensures
        gem_dash(full, from) == -1 || gem_dash(full, from) >= from,
        gem_dash(full, from) == -1 <==> forall|j: int| from <= j ==> !dash_before_digit(full, j),
        gem_dash(full, from) >= 0 ==> {
            &&& from <= gem_dash(full, from)
            &&& dash_before_digit(full, gem_dash(full, from))
            &&& forall|j: int| from <= j < gem_dash(full, from) ==> !dash_before_digit(full, j)
        },
    decreases full.len() - from,
{
    if from < full.len() {
        lemma_gem_dash(full, from + 1);
        if dash_before_digit(full, from as int) {
            assert(gem_dash(full, from) == from);
        } else {
            assert(gem_dash(full, from) == gem_dash(full, from + 1));
            assert forall|j: int| from <= j && (forall|m: int| from + 1 <= m ==> !dash_before_digit(full, m))
                implies !dash_before_digit(full, j) by {
                if j > from {
                    assert(from + 1 <= j);
                }
            }
        }
    } else {
        assert(gem_dash(full, from) == -1);
        assert forall|j: int| from <= j implies !dash_before_digit(full, j) by {}
    }
}

/// A Bundler directory `gems/<name>-<version>` names a gem exactly when
/// some `-` in it is followed by an ASCII digit; the package is what comes
/// before the first such `-`, and the version, which starts with that
/// digit, is everything after it.
pub proof fn law_gem_splits_at_first_dash_before_a_digit(f: Seq<Comp>, k: int)
    requires
        name_at(f, k - 1) == Some("gems"@),
        name_at(f, k) is Some,
    ensures
        ({
            let full = name_at(f, k)->Some_0;
            &&& (exists|i: int| dash_before_digit(full, i)) <==> gem_rule(f, k) is Some
            &&& gem_rule(f, k) matches Some(p) ==> exists|i: int|
                {
                    &&& dash_before_digit(full, i)
                    &&& forall|j: int| 0 <= j < i ==> !dash_before_digit(full, j)
                    &&& p.ecosystem == Some("gem"@)
                    &&& p.package == Some(full.take(i))
                    &&& p.version == Some(full.skip(i + 1))
                    &&& '0' <= full.skip(i + 1)[0] && full.skip(i + 1)[0] <= '9'
                }
        }),
{
    let full = name_at(f, k)->Some_0;
    lemma_gem_dash(full, 0);
    if exists|i: int| dash_before_digit(full, i) {
        let i = choose|i: int| dash_before_digit(full, i);
        assert(0 <= i);
        assert(gem_dash(full, 0) != -1);
    }
    if gem_dash(full, 0) >= 0 {
        let i = gem_dash(full, 0);
        assert(full.skip(i + 1)[0] == full[i + 1]);
        let p = gem_rule(f, k)->Some_0;
        assert(p.package == Some(full.take(i)));
        assert(p.version == Some(full.skip(i + 1)));
        assert(forall|j: int| 0 <= j < i ==> !dash_before_digit(full, j));
        assert(exists|i: int|
            {
                &&& dash_before_digit(full, i)
                &&& forall|j: int| 0 <= j < i ==> !dash_before_digit(full, j)
                &&& p.ecosystem == Some("gem"@)
                &&& p.package == Some(full.take(i))
                &&& p.version == Some(full.skip(i + 1))
                &&& '0' <= full.skip(i + 1)[0] && full.skip(i + 1)[0] <= '9'
            });
    }
}

} // verus!
