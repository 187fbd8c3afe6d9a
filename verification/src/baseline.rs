//! The lock file: a deterministic, git-diffable census baseline. One line
//! per blob (`sha256 size kind path`), sorted by path, so a later diff can
//! prove that nothing executable appeared, vanished or changed between two
//! installs.

use vstd::prelude::*;
use vstd::string::StringExecFns;
use crate::inventory::{
    kind_parse_spec, kind_str, law_kind_round_trip, lemma_kind_strs, Census, FindingV, Kind,
};
use crate::text::{
    chars_of, dec, digit, eq_lit, find_char, find_from, is_digit, is_hex, is_ws, lines_of, push_char,
    push_chars, push_dec, push_str, split_chars, split_on, trim_end, trim_end_index, vv,
};
use crate::util::{all_digits, digits_value, parse_u64, parse_u64_spec};
use crate::order::{is_perm, lemma_lex_ascending_unique, lex_ascending, lex_lt, sort_order};

verus! {

/// First line of every lock file.
pub const HEADER: &'static str = "# blobfind lock v1";

/// One line of the lock file.
#[derive(Debug, Clone, PartialEq)]
pub struct LockEntry {
    pub sha256: String,
    pub size: u64,
    pub kind: Kind,
    pub path: String,
}

/// The value of a [`LockEntry`].
pub struct EntryV {
    pub sha256: Seq<char>,
    pub size: u64,
    pub kind: Kind,
    pub path: Seq<char>,
}

impl View for LockEntry {
    type V = EntryV;

    open spec fn view(&self) -> EntryV {
        EntryV { sha256: self.sha256@, size: self.size, kind: self.kind, path: self.path@ }
    }
}

/// Values of a list of entries.
pub open spec fn entries_view(s: Seq<LockEntry>) -> Seq<EntryV> {
    s.map_values(|e: LockEntry| e@)
}

// ---------------------------------------------------------------------
// Rendering
// ---------------------------------------------------------------------

/// `sha256 size kind path`.
pub open spec fn entry_body(e: EntryV) -> Seq<char> {
    e.sha256 + seq![' '] + dec(e.size as nat) + seq![' '] + kind_str(e.kind) + seq![' '] + e.path
}

/// An entry's line, newline included.
pub open spec fn entry_line(e: EntryV) -> Seq<char> {
    entry_body(e).push('\n')
}

/// The entry lines, in order.
pub open spec fn render_body(es: Seq<EntryV>) -> Seq<char>
    decreases es.len(),
{
    if es.len() == 0 {
        Seq::empty()
    } else {
        render_body(es.drop_last()) + entry_line(es.last())
    }
}

/// The lock file text: the header line, then one line per entry.
pub open spec fn render_spec(es: Seq<EntryV>) -> Seq<char> {
    HEADER@ + seq!['\n'] + render_body(es)
}

fn push_entry_line(out: &mut String, e: &LockEntry)
    ensures
        final(out)@ == old(out)@ + entry_line(e@),
{
    push_str(out, e.sha256.as_str());
    push_char(out, ' ');
    push_dec(out, e.size);
    push_char(out, ' ');
    push_str(out, e.kind.as_str());
    push_char(out, ' ');
    push_str(out, e.path.as_str());
    push_char(out, '\n');
    assert(final(out)@ =~= old(out)@ + entry_line(e@));
}

/// Render entries as the lock file text.
pub fn render(entries: &[LockEntry]) -> (r: String)
    ensures
        r@ == render_spec(entries_view(entries@)),
{
    let mut out = String::from_str(HEADER);
    push_char(&mut out, '\n');
    let ghost es = entries_view(entries@);
    let mut i: usize = 0;
    while i < entries.len()
        invariant
            0 <= i <= entries.len(),
            es == entries_view(entries@),
            out@ == HEADER@ + seq!['\n'] + render_body(es.take(i as int)),
        decreases entries.len() - i,
    {
        push_entry_line(&mut out, &entries[i]);
        assert(es.take(i + 1).drop_last() == es.take(i as int));
        assert(out@ =~= HEADER@ + seq!['\n'] + render_body(es.take(i + 1)));
        i = i + 1;
    }
    assert(es.take(i as int) == es);
    out
}

// ---------------------------------------------------------------------
// Parsing
// ---------------------------------------------------------------------

/// Sixty-four hexadecimal digits.
pub open spec fn is_digest(s: Seq<char>) -> bool {
    s.len() == 64 && forall|i: int| 0 <= i < s.len() ==> is_hex(#[trigger] s[i])
}

/// `line N: `
pub open spec fn line_prefix(n: nat) -> Seq<char> {
    "line "@ + dec(n) + ": "@
}

/// One non-comment line, numbered `n`: split at the first three spaces
/// (the path is everything after the third), then checked field by field.
pub open spec fn parse_entry_spec(line: Seq<char>, n: nat) -> Result<EntryV, Seq<char>> {
    let a = find_from(line, ' ', 0);
    let b = if a < 0 {
        -1
    } else {
        find_from(line, ' ', (a + 1) as nat)
    };
    let c = if b < 0 {
        -1
    } else {
        find_from(line, ' ', (b + 1) as nat)
    };
    if c < 0 {
        Err(line_prefix(n) + "expected 'sha256 size kind path'"@)
    } else {
        let sha = line.subrange(0, a);
        let size = line.subrange(a + 1, b);
        let kind = line.subrange(b + 1, c);
        let path = line.skip(c + 1);
        if !is_digest(sha) {
            Err(line_prefix(n) + "'"@ + sha + "' is not a sha256 hex digest"@)
        } else {
            match parse_u64_spec(size) {
                None => Err(line_prefix(n) + "'"@ + size + "' is not a size"@),
                Some(sz) => match kind_parse_spec(kind) {
                    None => Err(line_prefix(n) + "unknown kind '"@ + kind + "'"@),
                    Some(k) => Ok(EntryV { sha256: sha, size: sz, kind: k, path }),
                },
            }
        }
    }
}

/// `missing '# blobfind lock v1' header line`
pub open spec fn missing_header() -> Seq<char> {
    "missing '"@ + HEADER@ + "' header line"@
}

/// Lines `ls[i..]` after `acc` has been collected; `saw` records whether the
/// header line has been seen. Blank lines and `#` lines are skipped; an
/// entry line before the header line is refused as a missing header; the
/// first bad entry line is the error.
pub open spec fn parse_lines(ls: Seq<Seq<char>>, i: nat, acc: Seq<EntryV>, saw: bool) -> Result<
    Seq<EntryV>,
    Seq<char>,
>
    decreases ls.len() - i,
{
    if i >= ls.len() {
        Ok(acc)
    } else {
        let line = trim_end(ls[i as int]);
        if line.len() == 0 {
            parse_lines(ls, i + 1, acc, saw)
        } else if line[0] == '#' {
            parse_lines(ls, i + 1, acc, saw || line == HEADER@)
        } else if !saw {
            Err(missing_header())
        } else {
            match parse_entry_spec(line, i + 1) {
                Err(e) => Err(e),
                Ok(e) => parse_lines(ls, i + 1, acc.push(e), saw),
            }
        }
    }
}

/// What parsing lock file text yields.
pub open spec fn parse_spec(src: Seq<char>) -> Result<Seq<EntryV>, Seq<char>> {
    parse_lines(lines_of(src), 0, Seq::empty(), false)
}

/// The value of a parse result.
pub open spec fn lock_result(r: Result<Vec<LockEntry>, String>) -> Result<Seq<EntryV>, Seq<char>> {
    match r {
        Ok(v) => Ok(entries_view(v@)),
        Err(e) => Err(e@),
    }
}

fn push_line_prefix(out: &mut String, n: u64)
    ensures
        final(out)@ == old(out)@ + line_prefix(n as nat),
{
    push_str(out, "line ");
    push_dec(out, n);
    push_str(out, ": ");
    assert(final(out)@ =~= old(out)@ + line_prefix(n as nat));
}

fn parse_entry(line: &[char], n: u64) -> (r: Result<LockEntry, String>)
    ensures
        match r {
            Ok(e) => parse_entry_spec(line@, n as nat) == Ok::<EntryV, Seq<char>>(e@),
            Err(m) => parse_entry_spec(line@, n as nat) == Err::<EntryV, Seq<char>>(m@),
        },
{
    let ghost l = line@;
    let a = find_char(line, ' ', 0);
    let b = match a {
        Some(a) => find_char(line, ' ', a + 1),
        None => None,
    };
    let c = match b {
        Some(b) => find_char(line, ' ', b + 1),
        None => None,
    };
    proof {
        crate::text::lemma_find_from_range(l, ' ', 0);
        if let Some(a) = a {
            crate::text::lemma_find_from_range(l, ' ', (a + 1) as nat);
        }
        if let Some(b) = b {
            crate::text::lemma_find_from_range(l, ' ', (b + 1) as nat);
        }
    }
    if c.is_none() {
        let mut m = String::new();
        push_line_prefix(&mut m, n);
        push_str(&mut m, "expected 'sha256 size kind path'");
        return Err(m);
    }
    let a = a.unwrap();
    let b = b.unwrap();
    let c = c.unwrap();
    let sha = &line[0..a];
    let size = &line[a + 1..b];
    let kind = &line[b + 1..c];
    let path = &line[c + 1..line.len()];
    assert(sha@ == l.subrange(0, a as int));
    assert(size@ == l.subrange(a + 1, b as int));
    assert(kind@ == l.subrange(b + 1, c as int));
    assert(path@ == l.skip(c + 1));
    let mut hex = sha.len() == 64;
    let mut i: usize = 0;
    while hex && i < sha.len()
        invariant
            0 <= i <= sha.len(),
            hex ==> sha.len() == 64,
            hex ==> forall|j: int| 0 <= j < i ==> is_hex(#[trigger] sha@[j]),
            !hex ==> !is_digest(sha@),
        decreases sha.len() - i,
    {
        let ch = sha[i];
        if !(('0' <= ch && ch <= '9') || ('a' <= ch && ch <= 'f') || ('A' <= ch && ch <= 'F')) {
            assert(!is_hex(sha@[i as int]));
            hex = false;
        }
        i = i + 1;
    }
    if !hex {
        let mut m = String::new();
        push_line_prefix(&mut m, n);
        push_str(&mut m, "'");
        push_chars(&mut m, sha);
        push_str(&mut m, "' is not a sha256 hex digest");
        assert(m@ =~= line_prefix(n as nat) + "'"@ + sha@ + "' is not a sha256 hex digest"@);
        return Err(m);
    }
    let sz = match parse_u64(size, 0, size.len()) {
        Some(v) => v,
        None => {
            assert(size@.subrange(0, size@.len() as int) == size@);
            let mut m = String::new();
            push_line_prefix(&mut m, n);
            push_str(&mut m, "'");
            push_chars(&mut m, size);
            push_str(&mut m, "' is not a size");
            assert(m@ =~= line_prefix(n as nat) + "'"@ + size@ + "' is not a size"@);
            return Err(m);
        },
    };
    assert(size@.subrange(0, size@.len() as int) == size@);
    let k = match Kind::parse_chars(kind) {
        Some(k) => k,
        None => {
            let mut m = String::new();
            push_line_prefix(&mut m, n);
            push_str(&mut m, "unknown kind '");
            push_chars(&mut m, kind);
            push_str(&mut m, "'");
            assert(m@ =~= line_prefix(n as nat) + "unknown kind '"@ + kind@ + "'"@);
            return Err(m);
        },
    };
    let mut sha_s = String::new();
    push_chars(&mut sha_s, sha);
    let mut path_s = String::new();
    push_chars(&mut path_s, path);
    Ok(LockEntry { sha256: sha_s, size: sz, kind: k, path: path_s })
}

/// Parse lock file text. The header line must come before the first
/// entry; an empty lock (header only, or no text) is valid. Errors carry a
/// 1-based line number so a corrupted baseline is diagnosable, not just
/// "invalid".
pub fn parse(src: &str) -> (r: Result<Vec<LockEntry>, String>)
    ensures
        lock_result(r) == parse_spec(src@),
{
    let chars = chars_of(src);
    let pieces = split_chars(&chars, '\n');
    proof {
        crate::text::lemma_split_nonempty(src@, '\n');
    }
    let ghost ls = lines_of(src@);
    let n = if pieces[pieces.len() - 1].len() == 0 {
        pieces.len() - 1
    } else {
        pieces.len()
    };
    assert(ls == vv(pieces@).take(n as int));
    let mut entries: Vec<LockEntry> = Vec::new();
    let mut saw = false;
    let mut idx: usize = 0;
    assert(entries_view(entries@) =~= Seq::<EntryV>::empty());
    while idx < n
        invariant
            0 <= idx <= n <= pieces.len(),
            ls == vv(pieces@).take(n as int),
            parse_spec(src@) == parse_lines(ls, idx as nat, entries_view(entries@), saw),
        decreases n - idx,
    {
        let line = &pieces[idx];
        assert(line@ == ls[idx as int]);
        let end = trim_end_index(line.as_slice(), line.len());
        assert(line@.take(line.len() as int) == line@);
        let t = &line.as_slice()[0..end];
        assert(t@ == trim_end(ls[idx as int]));
        if end == 0 {
            idx = idx + 1;
            continue;
        }
        if t[0] == '#' {
            if eq_lit(t, HEADER) {
                saw = true;
            }
            idx = idx + 1;
            continue;
        }
        if !saw {
            let mut m = String::from_str("missing '");
            push_str(&mut m, HEADER);
            push_str(&mut m, "' header line");
            return Err(m);
        }
        match parse_entry(t, (idx + 1) as u64) {
            Err(m) => {
                return Err(m);
            },
            Ok(e) => {
                let ghost before = entries_view(entries@);
                entries.push(e);
                assert(entries_view(entries@) =~= before.push(e@));
            },
        }
        idx = idx + 1;
    }
    Ok(entries)
}

// ---------------------------------------------------------------------
// Drift
// ---------------------------------------------------------------------

/// A copy of an entry.
pub fn copy_entry(e: &LockEntry) -> (r: LockEntry)
    ensures
        r@ == e@,
{
    LockEntry { sha256: e.sha256.clone(), size: e.size, kind: e.kind, path: e.path.clone() }
}

/// The lock entry a finding gives: its digest, size, kind and path.
pub open spec fn entry_of(f: FindingV) -> EntryV {
    EntryV { sha256: f.sha256, size: f.size, kind: f.kind, path: f.rel }
}

/// Convert a census into lock entries, in the census's order.
pub fn entries_from(census: &Census) -> (r: Vec<LockEntry>)
    ensures
        entries_view(r@) == census@.findings.map_values(|f: FindingV| entry_of(f)),
{
    let ghost fv = census@.findings;
    let mut r: Vec<LockEntry> = Vec::new();
    let mut i: usize = 0;
    while i < census.findings.len()
        invariant
            i <= census.findings.len(),
            fv == census@.findings,
            entries_view(r@) == fv.take(i as int).map_values(|f: FindingV| entry_of(f)),
        decreases census.findings.len() - i,
    {
        let f = &census.findings[i];
        let e = LockEntry { sha256: f.sha256.clone(), size: f.size, kind: f.kind, path: f.rel.clone() };
        let ghost before = r@;
        r.push(e);
        assert(fv[i as int] == f@);
        assert(entries_view(r@) =~= entries_view(before).push(entry_of(fv[i as int])));
        assert(fv.take(i + 1).map_values(|f: FindingV| entry_of(f)) =~= fv.take(i as int).map_values(
            |f: FindingV| entry_of(f),
        ).push(entry_of(fv[i as int])));
        i = i + 1;
    }
    assert(fv.take(fv.len() as int) == fv);
    r
}

/// Drift between a baseline and the current census.
#[derive(Debug)]
pub struct Drift {
    /// In the tree now, not in the baseline.
    pub added: Vec<LockEntry>,
    /// In the baseline, gone from the tree.
    pub removed: Vec<LockEntry>,
    /// Same path in both, different content: `(baseline, current)`.
    pub changed: Vec<(LockEntry, LockEntry)>,
}

/// The value of a [`Drift`].
pub struct DriftV {
    pub added: Seq<EntryV>,
    pub removed: Seq<EntryV>,
    pub changed: Seq<(EntryV, EntryV)>,
}

impl View for Drift {
    type V = DriftV;

    open spec fn view(&self) -> DriftV {
        DriftV {
            added: entries_view(self.added@),
            removed: entries_view(self.removed@),
            changed: self.changed@.map_values(|c: (LockEntry, LockEntry)| (c.0@, c.1@)),
        }
    }
}

impl Default for Drift {
    fn default() -> (d: Drift)
        ensures
            d@.added.len() == 0,
            d@.removed.len() == 0,
            d@.changed.len() == 0,
    {
        Drift { added: Vec::new(), removed: Vec::new(), changed: Vec::new() }
    }
}

impl Drift {
    /// No blob was added, removed or changed.
    pub fn is_clean(&self) -> (r: bool)
        ensures
            r == (self@.added.len() == 0 && self@.removed.len() == 0 && self@.changed.len() == 0),
    {
        self.added.len() == 0 && self.removed.len() == 0 && self.changed.len() == 0
    }

    /// How many blobs drifted in all.
    pub fn total(&self) -> (r: usize)
        requires
            self@.added.len() + self@.removed.len() + self@.changed.len() <= usize::MAX,
        ensures
            r == self@.added.len() + self@.removed.len() + self@.changed.len(),
    {
        self.added.len() + self.removed.len() + self.changed.len()
    }
}

/// Index of the last entry with path `p`, or -1.
#[verifier::opaque]
pub open spec fn last_index(es: Seq<EntryV>, p: Seq<char>) -> int
    decreases es.len(),
{
    if es.len() == 0 {
        -1
    } else if es.last().path == p {
        es.len() - 1
    } else {
        last_index(es.drop_last(), p)
    }
}

/// Some entry of `es` has path `p`.
pub open spec fn present(es: Seq<EntryV>, p: Seq<char>) -> bool {
    last_index(es, p) >= 0
}

/// The entry for `p`: the last one with that path.
pub open spec fn latest(es: Seq<EntryV>, p: Seq<char>) -> EntryV {
    es[last_index(es, p)]
}

/// Some entry of `s` has path `p`.
pub open spec fn listed(s: Seq<EntryV>, p: Seq<char>) -> bool {
    exists|i: int| 0 <= i < s.len() && s[i].path == p
}

/// Some pair of `s` has current path `p`.
pub open spec fn listed_pair(s: Seq<(EntryV, EntryV)>, p: Seq<char>) -> bool {
    exists|i: int| 0 <= i < s.len() && s[i].1.path == p
}

/// Position `t` occurs in `pos`.
pub open spec fn hit(pos: Seq<int>, t: int) -> bool {
    exists|i: int| 0 <= i < pos.len() && pos[i] == t
}

/// Paths strictly ascending.
pub open spec fn paths_sorted(s: Seq<EntryV>) -> bool {
    forall|i: int, j: int| 0 <= i < j < s.len() ==> lex_lt(#[trigger] s[i].path, #[trigger] s[j].path)
}

/// `d` is the drift from `base` to `cur`, keyed by path (the last entry
/// for a path counts): `added` holds, in path order, the entries of paths
/// only `cur` has; `removed` those only `base` has; `changed` the
/// `(base, cur)` pairs of common paths whose digests differ.
pub open spec fn is_drift(base: Seq<EntryV>, cur: Seq<EntryV>, d: DriftV) -> bool {
    &&& paths_sorted(d.added)
    &&& forall|i: int|
        0 <= i < d.added.len() ==> {
            let p = #[trigger] d.added[i].path;
            present(cur, p) && !present(base, p) && d.added[i] == latest(cur, p)
        }
    &&& forall|p: Seq<char>|
        #![trigger listed(d.added, p)]
        present(cur, p) && !present(base, p) ==> listed(d.added, p)
    &&& paths_sorted(d.removed)
    &&& forall|i: int|
        0 <= i < d.removed.len() ==> {
            let p = #[trigger] d.removed[i].path;
            present(base, p) && !present(cur, p) && d.removed[i] == latest(base, p)
        }
    &&& forall|p: Seq<char>|
        #![trigger listed(d.removed, p)]
        present(base, p) && !present(cur, p) ==> listed(d.removed, p)
    &&& forall|i: int, j: int|
        0 <= i < j < d.changed.len() ==> lex_lt(#[trigger] d.changed[i].1.path, #[trigger] d.changed[j].1.path)
    &&& forall|i: int|
        0 <= i < d.changed.len() ==> {
            let p = #[trigger] d.changed[i].1.path;
            &&& present(base, p)
            &&& present(cur, p)
            &&& d.changed[i] == (latest(base, p), latest(cur, p))
            &&& latest(base, p).sha256 != latest(cur, p).sha256
        }
    &&& forall|p: Seq<char>|
        #![trigger listed_pair(d.changed, p)]
        present(base, p) && present(cur, p) && latest(base, p).sha256 != latest(cur, p).sha256
            ==> listed_pair(d.changed, p)
}

proof fn lemma_last_index(es: Seq<EntryV>, p: Seq<char>)
    ensures
        -1 <= last_index(es, p) < es.len(),
        last_index(es, p) >= 0 ==> es[last_index(es, p)].path == p,
        forall|j: int| last_index(es, p) < j < es.len() ==> es[j].path != p,
    decreases es.len(),
{
    reveal(last_index);
    if es.len() > 0 && es.last().path != p {
        lemma_last_index(es.drop_last(), p);
        assert forall|j: int| last_index(es, p) < j < es.len() implies es[j].path != p by {
            if j < es.len() - 1 {
                assert(es[j] == es.drop_last()[j]);
            }
        }
    }
}

proof fn lemma_last_index_at(es: Seq<EntryV>, i: int)
    requires
        0 <= i < es.len(),
        forall|j: int| i < j < es.len() ==> es[j].path != es[i].path,
    ensures
        last_index(es, es[i].path) == i,
    decreases es.len(),
{
    reveal(last_index);
    if i < es.len() - 1 {
        assert(es.last().path != es[i].path);
        assert forall|j: int| i < j < es.drop_last().len() implies es.drop_last()[j].path != es.drop_last()[i].path by {
            assert(es.drop_last()[j] == es[j]);
        }
        lemma_last_index_at(es.drop_last(), i);
        assert(es.drop_last()[i] == es[i]);
    }
}

/// Index of the last entry with path `p`, if any.
fn find_last(es: &[LockEntry], p: &String) -> (r: Option<usize>)
    ensures
        r matches Some(i) ==> last_index(entries_view(es@), p@) == i && i < es.len(),
        r is None ==> last_index(entries_view(es@), p@) == -1,
{
    let ghost ev = entries_view(es@);
    let mut i = es.len();
    assert(ev.take(i as int) == ev);
    reveal(last_index);
    while i > 0
        invariant
            i <= es.len(),
            ev == entries_view(es@),
            last_index(ev, p@) == last_index(ev.take(i as int), p@),
        decreases i,
    {
        proof {
            reveal(last_index);
        }
        assert(ev.take(i as int).drop_last() == ev.take(i - 1));
        assert(ev.take(i as int).last() == es@[i - 1]@);
        if es[i - 1].path == *p {
            return Some(i - 1);
        }
        i = i - 1;
    }
    None
}

/// Whether entry `i` is the last one with its path.
fn is_latest(es: &[LockEntry], i: usize) -> (r: bool)
    requires
        i < es.len(),
    ensures
        r == (last_index(entries_view(es@), es@[i as int]@.path) == i),
{
    let ghost ev = entries_view(es@);
    proof {
        lemma_last_index(ev, ev[i as int].path);
    }
    let mut j = i + 1;
    while j < es.len()
        invariant
            i < es.len(),
            i + 1 <= j <= es.len(),
            ev == entries_view(es@),
            forall|t: int| i < t < j ==> ev[t].path != ev[i as int].path,
        decreases es.len() - j,
    {
        if es[j].path == es[i].path {
            proof {
                lemma_last_index(ev, ev[i as int].path);
            }
            assert(ev[j as int].path == ev[i as int].path);
            assert(ev[i as int] == es@[i as int]@);
            return false;
        }
        j = j + 1;
    }
    proof {
        lemma_last_index_at(ev, i as int);
        assert(ev[i as int] == es@[i as int]@);
    }
    true
}

/// `r` lists, in path order, the index of the latest entry of every path
/// of `es`.
pub open spec fn latest_order(es: Seq<EntryV>, r: Seq<usize>) -> bool {
    &&& forall|k: int|
        0 <= k < r.len() ==> #[trigger] r[k] < es.len() && last_index(es, es[r[k] as int].path) == r[k]
    &&& forall|k: int, l: int|
        0 <= k < l < r.len() ==> lex_lt(es[#[trigger] r[k] as int].path, es[#[trigger] r[l] as int].path)
    &&& forall|j: int| 0 <= j < es.len() ==> #[trigger] covered(es, r, j)
}

/// The path of entry `j` is among those `r` points at.
pub open spec fn covered(es: Seq<EntryV>, r: Seq<usize>, j: int) -> bool {
    exists|k: int| 0 <= k < r.len() && es[r[k] as int].path == es[j].path
}

/// Index `j` occurs in `keep`.
pub open spec fn kept(keep: Seq<usize>, j: int) -> bool {
    exists|k: int| 0 <= k < keep.len() && keep[k] == j
}

/// Indices of the latest entry of every path, in increasing index order.
fn latest_indices(es: &[LockEntry]) -> (keep: Vec<usize>)
    ensures
        forall|k: int|
            0 <= k < keep.len() ==> #[trigger] keep@[k] < es.len() && last_index(
                entries_view(es@),
                entries_view(es@)[keep@[k] as int].path,
            ) == keep@[k],
        forall|k: int, l: int| 0 <= k < l < keep.len() ==> keep@[k] < keep@[l],
        forall|j: int|
            #![trigger kept(keep@, j)]
            0 <= j < es.len() && last_index(entries_view(es@), entries_view(es@)[j].path) == j ==> kept(keep@, j),
{
    let ghost ev = entries_view(es@);
    let mut keep: Vec<usize> = Vec::new();
    let mut i: usize = 0;
    while i < es.len()
        invariant
            0 <= i <= es.len(),
            ev == entries_view(es@),
            forall|k: int|
                0 <= k < keep.len() ==> #[trigger] keep@[k] < i && last_index(ev, ev[keep@[k] as int].path)
                    == keep@[k],
            forall|k: int, l: int| 0 <= k < l < keep.len() ==> keep@[k] < keep@[l],
            forall|j: int|
                #![trigger kept(keep@, j)]
                0 <= j < i && last_index(ev, ev[j].path) == j ==> kept(keep@, j),
        decreases es.len() - i,
    {
        let ghost old_keep = keep@;
        if is_latest(es, i) {
            keep.push(i);
            assert forall|j: int|
                0 <= j < i + 1 && last_index(ev, ev[j].path) == j implies #[trigger] kept(keep@, j) by {
                if j == i {
                    assert(keep@[old_keep.len() as int] == j);
                } else {
                    assert(kept(old_keep, j));
                    let k = choose|k: int| 0 <= k < old_keep.len() && old_keep[k] == j;
                    assert(keep@[k] == j);
                }
            }
        }
        i = i + 1;
    }
    keep
}

/// Indices of the latest entry of every path, in path order.
fn latest_sorted(es: &[LockEntry]) -> (r: Vec<usize>)
    ensures
        latest_order(entries_view(es@), r@),
{
    let ghost ev = entries_view(es@);
    let keep = latest_indices(es);
    let mut keys: Vec<Vec<char>> = Vec::new();
    let mut k: usize = 0;
    while k < keep.len()
        invariant
            0 <= k <= keep.len(),
            ev == entries_view(es@),
            forall|m: int| 0 <= m < keep.len() ==> #[trigger] keep@[m] < es.len(),
            keys.len() == k,
            forall|m: int| 0 <= m < k ==> #[trigger] keys@[m]@ == ev[keep@[m] as int].path,
        decreases keep.len() - k,
    {
        keys.push(chars_of(es[keep[k]].path.as_str()));
        k = k + 1;
    }
    let order = sort_order(&keys);
    let ghost kv = vv(keys@);
    let mut r: Vec<usize> = Vec::new();
    let mut m: usize = 0;
    while m < order.len()
        invariant
            0 <= m <= order.len(),
            order.len() == keep.len(),
            is_perm(order@, keys.len() as nat),
            r.len() == m,
            forall|t: int| 0 <= t < m ==> #[trigger] r@[t] == keep@[order@[t] as int],
        decreases order.len() - m,
    {
        r.push(keep[order[m]]);
        m = m + 1;
    }
    assert forall|m2: int| 0 <= m2 < keep.len() implies #[trigger] kv[m2] == ev[keep@[m2] as int].path by {}
    assert forall|k2: int| 0 <= k2 < r.len() implies #[trigger] r@[k2] < es.len() && last_index(
        ev,
        ev[r@[k2] as int].path,
    ) == r@[k2] by {
        assert(r@[k2] == keep@[order@[k2] as int]);
    }
    assert forall|k2: int, l: int| 0 <= k2 < l < r.len() implies lex_lt(
        ev[#[trigger] r@[k2] as int].path,
        ev[#[trigger] r@[l] as int].path,
    ) by {
        let a = order@[k2];
        let b = order@[l];
        assert(r@[k2] == keep@[a as int] && r@[l] == keep@[b as int]);
        assert(kv[a as int] == ev[keep@[a as int] as int].path);
        assert(kv[b as int] == ev[keep@[b as int] as int].path);
        if kv[a as int] == kv[b as int] {
            let pa = keep@[a as int];
            let pb = keep@[b as int];
            assert(last_index(ev, ev[pa as int].path) == pa);
            assert(last_index(ev, ev[pb as int].path) == pb);
            assert(a != b);
            if a < b {
                assert(keep@[a as int] < keep@[b as int]);
            } else {
                assert(keep@[b as int] < keep@[a as int]);
            }
        }
    }
    assert forall|j: int| 0 <= j < es.len() implies #[trigger] covered(ev, r@, j) by {
        lemma_last_index(ev, ev[j].path);
        let li = last_index(ev, ev[j].path);
        assert(ev[li].path == ev[j].path);
        assert(last_index(ev, ev[li].path) == li);
        assert(kept(keep@, li));
        let k2 = choose|k2: int| 0 <= k2 < keep.len() && keep@[k2] == li;
        assert(order@.contains(k2 as usize));
        let t = choose|t: int| 0 <= t < order.len() && order@[t] == k2 as usize;
        assert(r@[t] == keep@[k2]);
    }
    r
}

/// Latest entries of `a`, in path order, whose path `b` lacks.
#[verifier::spinoff_prover]
fn entries_only_in(a: &[LockEntry], oa: &Vec<usize>, b: &[LockEntry]) -> (r: Vec<LockEntry>)
    requires
        latest_order(entries_view(a@), oa@),
    ensures
        paths_sorted(entries_view(r@)),
        forall|i: int|
            0 <= i < r.len() ==> {
                let p = #[trigger] entries_view(r@)[i].path;
                present(entries_view(a@), p) && !present(entries_view(b@), p) && entries_view(r@)[i]
                    == latest(entries_view(a@), p)
            },
        forall|p: Seq<char>|
            #![trigger listed(entries_view(r@), p)]
            present(entries_view(a@), p) && !present(entries_view(b@), p) ==> listed(entries_view(r@), p),
{
    let ghost av = entries_view(a@);
    let ghost bv = entries_view(b@);
    let mut r: Vec<LockEntry> = Vec::new();
    let ghost mut pos: Seq<int> = Seq::empty();
    let mut m: usize = 0;
    while m < oa.len()
        invariant
            0 <= m <= oa.len(),
            av == entries_view(a@),
            bv == entries_view(b@),
            latest_order(av, oa@),
            pos.len() == r.len(),
            forall|i: int| 0 <= i < pos.len() ==> 0 <= #[trigger] pos[i] < m,
            forall|i: int, j: int| 0 <= i < j < pos.len() ==> pos[i] < pos[j],
            forall|i: int|
                0 <= i < r.len() ==> #[trigger] r@[i]@ == av[oa@[pos[i]] as int] && !present(
                    bv,
                    av[oa@[pos[i]] as int].path,
                ),
            forall|t: int|
                #![trigger hit(pos, t)]
                0 <= t < m && !present(bv, av[oa@[t] as int].path) ==> hit(pos, t),
        decreases oa.len() - m,
    {
        let e = &a[oa[m]];
        assert(av[oa@[m as int] as int] == e@);
        if find_last(b, &e.path).is_none() {
            let ghost old_pos = pos;
            r.push(copy_entry(e));
            proof {
                pos = pos.push(m as int);
                assert forall|t: int|
                    0 <= t < m + 1 && !present(bv, av[oa@[t] as int].path) implies #[trigger] hit(pos, t) by {
                    if t == m {
                        assert(pos[old_pos.len() as int] == t);
                    } else {
                        assert(hit(old_pos, t));
                        let i = choose|i: int| 0 <= i < old_pos.len() && old_pos[i] == t;
                        assert(pos[i] == t);
                    }
                }
            }
        }
        m = m + 1;
    }
    let ghost rv = entries_view(r@);
    assert forall|i: int, j: int| 0 <= i < j < rv.len() implies lex_lt(
        #[trigger] rv[i].path,
        #[trigger] rv[j].path,
    ) by {
        assert(rv[i] == r@[i]@ && rv[j] == r@[j]@);
        assert(oa@[pos[i]] < a.len());
    }
    assert forall|i: int| 0 <= i < rv.len() implies {
        let p = #[trigger] rv[i].path;
        present(av, p) && !present(bv, p) && rv[i] == latest(av, p)
    } by {
        assert(rv[i] == r@[i]@);
        assert(oa@[pos[i]] < a.len());
    }
    assert forall|p: Seq<char>| present(av, p) && !present(bv, p) implies #[trigger] listed(rv, p) by {
        lemma_last_index(av, p);
        let j = last_index(av, p);
        assert(covered(av, oa@, j));
        let k = choose|k: int| 0 <= k < oa.len() && av[oa@[k] as int].path == av[j].path;
        assert(hit(pos, k));
        let i = choose|i: int| 0 <= i < pos.len() && pos[i] == k;
        assert(rv[i] == r@[i]@);
    }
    r
}

/// The value of a list of `(baseline, current)` pairs.
pub open spec fn pairs_view(s: Seq<(LockEntry, LockEntry)>) -> Seq<(EntryV, EntryV)> {
    s.map_values(|c: (LockEntry, LockEntry)| (c.0@, c.1@))
}

/// `(base, cur)` pairs of latest entries, in path order, whose digests
/// differ.
#[verifier::spinoff_prover]
fn entries_changed(base: &[LockEntry], cur: &[LockEntry], oc: &Vec<usize>) -> (r: Vec<(LockEntry, LockEntry)>)
    requires
        latest_order(entries_view(cur@), oc@),
    ensures
        forall|i: int, j: int|
            0 <= i < j < r.len() ==> lex_lt(
                #[trigger] pairs_view(r@)[i].1.path,
                #[trigger] pairs_view(r@)[j].1.path,
            ),
        forall|i: int|
            0 <= i < r.len() ==> {
                let p = #[trigger] pairs_view(r@)[i].1.path;
                &&& present(entries_view(base@), p)
                &&& present(entries_view(cur@), p)
                &&& pairs_view(r@)[i] == (latest(entries_view(base@), p), latest(entries_view(cur@), p))
                &&& latest(entries_view(base@), p).sha256 != latest(entries_view(cur@), p).sha256
            },
        forall|p: Seq<char>|
            present(entries_view(base@), p) && present(entries_view(cur@), p) && latest(
                entries_view(base@),
                p,
            ).sha256 != latest(entries_view(cur@), p).sha256 ==> #[trigger] listed_pair(pairs_view(r@), p),
{
    let ghost bv = entries_view(base@);
    let ghost cv = entries_view(cur@);
    let mut r: Vec<(LockEntry, LockEntry)> = Vec::new();
    let ghost mut pos: Seq<int> = Seq::empty();
    let mut m: usize = 0;
    while m < oc.len()
        invariant
            0 <= m <= oc.len(),
            bv == entries_view(base@),
            cv == entries_view(cur@),
            latest_order(cv, oc@),
            pos.len() == r.len(),
            forall|i: int| 0 <= i < pos.len() ==> 0 <= #[trigger] pos[i] < m,
            forall|i: int, j: int| 0 <= i < j < pos.len() ==> pos[i] < pos[j],
            forall|i: int|
                0 <= i < r.len() ==> {
                    let p = cv[oc@[pos[i]] as int].path;
                    &&& #[trigger] r@[i].1@ == cv[oc@[pos[i]] as int]
                    &&& present(bv, p)
                    &&& r@[i].0@ == latest(bv, p)
                    &&& latest(bv, p).sha256 != cv[oc@[pos[i]] as int].sha256
                },
            forall|t: int|
                #![trigger hit(pos, t)]
                0 <= t < m && present(bv, cv[oc@[t] as int].path) && latest(
                    bv,
                    cv[oc@[t] as int].path,
                ).sha256 != cv[oc@[t] as int].sha256 ==> hit(pos, t),
        decreases oc.len() - m,
    {
        let e = &cur[oc[m]];
        assert(cv[oc@[m as int] as int] == e@);
        match find_last(base, &e.path) {
            None => {},
            Some(bi) => {
                proof {
                    lemma_last_index(bv, e.path@);
                }
                assert(latest(bv, e.path@) == base@[bi as int]@);
                if !(base[bi].sha256 == e.sha256) {
                    let ghost old_pos = pos;
                    let ghost old_r = r@;
                    let pair = (copy_entry(&base[bi]), copy_entry(e));
                    r.push(pair);
                    proof {
                        pos = pos.push(m as int);
                        assert forall|i: int| 0 <= i < r.len() implies {
                            let p = cv[oc@[pos[i]] as int].path;
                            &&& #[trigger] r@[i].1@ == cv[oc@[pos[i]] as int]
                            &&& present(bv, p)
                            &&& r@[i].0@ == latest(bv, p)
                            &&& latest(bv, p).sha256 != cv[oc@[pos[i]] as int].sha256
                        } by {
                            if i < old_r.len() {
                                assert(r@[i] == old_r[i]);
                                assert(pos[i] == old_pos[i]);
                            } else {
                                assert(r@[i] == pair);
                                assert(pos[i] == m);
                            }
                        }
                        assert forall|t: int|
                            0 <= t < m + 1 && present(bv, cv[oc@[t] as int].path) && latest(
                                bv,
                                cv[oc@[t] as int].path,
                            ).sha256 != cv[oc@[t] as int].sha256 implies #[trigger] hit(pos, t) by {
                            if t == m {
                                assert(pos[old_pos.len() as int] == t);
                            } else {
                                assert(hit(old_pos, t));
                        let i = choose|i: int| 0 <= i < old_pos.len() && old_pos[i] == t;
                                assert(pos[i] == t);
                            }
                        }
                    }
                }
            },
        }
        m = m + 1;
    }
    let ghost rv = pairs_view(r@);
    assert forall|i: int, j: int| 0 <= i < j < rv.len() implies lex_lt(
        #[trigger] rv[i].1.path,
        #[trigger] rv[j].1.path,
    ) by {
        assert(rv[i].1 == r@[i].1@ && rv[j].1 == r@[j].1@);
        assert(oc@[pos[i]] < cur.len());
    }
    assert forall|i: int| 0 <= i < rv.len() implies {
        let p = #[trigger] rv[i].1.path;
        &&& present(bv, p)
        &&& present(cv, p)
        &&& rv[i] == (latest(bv, p), latest(cv, p))
        &&& latest(bv, p).sha256 != latest(cv, p).sha256
    } by {
        assert(rv[i] == (r@[i].0@, r@[i].1@));
        assert(oc@[pos[i]] < cur.len());
    }
    assert forall|p: Seq<char>|
        present(bv, p) && present(cv, p) && latest(bv, p).sha256 != latest(cv, p).sha256 implies #[trigger] listed_pair(rv, p) by {
        lemma_last_index(cv, p);
        let j = last_index(cv, p);
        assert(covered(cv, oc@, j));
        let k = choose|k: int| 0 <= k < oc.len() && cv[oc@[k] as int].path == cv[j].path;
        assert(hit(pos, k));
        let i = choose|i: int| 0 <= i < pos.len() && pos[i] == k;
        assert(rv[i] == (r@[i].0@, r@[i].1@));
    }
    r
}

/// Compare `current` against `baseline`, keyed by path.
pub fn diff(baseline: &[LockEntry], current: &[LockEntry]) -> (d: Drift)
    ensures
        is_drift(entries_view(baseline@), entries_view(current@), d@),
{
    let oc = latest_sorted(current);
    let ob = latest_sorted(baseline);
    let added = entries_only_in(current, &oc, baseline);
    let removed = entries_only_in(baseline, &ob, current);
    let changed = entries_changed(baseline, current, &oc);
    let d = Drift { added, removed, changed };
    assert(d@.changed == pairs_view(d.changed@));
    d
}

/// Comparing a baseline with itself finds no drift.
pub proof fn law_identical_is_clean(b: Seq<EntryV>, d: DriftV)
    requires
        is_drift(b, b, d),
    ensures
        d.added.len() == 0,
        d.removed.len() == 0,
        d.changed.len() == 0,
{
    if d.added.len() > 0 {
        let p = d.added[0].path;
        assert(present(b, p) && !present(b, p));
    }
    if d.removed.len() > 0 {
        let p = d.removed[0].path;
        assert(present(b, p) && !present(b, p));
    }
    if d.changed.len() > 0 {
        let p = d.changed[0].1.path;
        assert(latest(b, p).sha256 != latest(b, p).sha256);
    }
}

/// Every path has the same presence and, where present, the same digest.
pub open spec fn same_blobs(base: Seq<EntryV>, cur: Seq<EntryV>) -> bool {
    &&& forall|p: Seq<char>| #[trigger] present(base, p) == present(cur, p)
    &&& forall|p: Seq<char>|
        present(base, p) && present(cur, p) ==> #[trigger] latest(base, p).sha256 == latest(
            cur,
            p,
        ).sha256
}

/// The paths of a list of entries, in order.
pub open spec fn entry_paths(s: Seq<EntryV>) -> Seq<Seq<char>> {
    s.map_values(|e: EntryV| e.path)
}

/// The current-side paths of a list of changed pairs, in order.
pub open spec fn pair_paths(s: Seq<(EntryV, EntryV)>) -> Seq<Seq<char>> {
    s.map_values(|c: (EntryV, EntryV)| c.1.path)
}

/// Each changed pair with its sides swapped.
pub open spec fn swapped(s: Seq<(EntryV, EntryV)>) -> Seq<(EntryV, EntryV)> {
    s.map_values(|c: (EntryV, EntryV)| (c.1, c.0))
}

/// The paths each list of a drift holds: ascending, and exactly those that
/// only `cur` has, only `base` has, and both have with different digests.
proof fn lemma_drift_paths(base: Seq<EntryV>, cur: Seq<EntryV>, d: DriftV)
    requires
        is_drift(base, cur, d),
    ensures
        lex_ascending(entry_paths(d.added)),
        lex_ascending(entry_paths(d.removed)),
        lex_ascending(pair_paths(d.changed)),
        forall|p: Seq<char>|
            #[trigger] entry_paths(d.added).contains(p) <==> (present(cur, p) && !present(base, p)),
        forall|p: Seq<char>|
            #[trigger] entry_paths(d.removed).contains(p) <==> (present(base, p) && !present(cur, p)),
        forall|p: Seq<char>|
            #[trigger] pair_paths(d.changed).contains(p) <==> (present(base, p) && present(cur, p)
                && latest(base, p).sha256 != latest(cur, p).sha256),
{
    let pa = entry_paths(d.added);
    let pr = entry_paths(d.removed);
    let pc = pair_paths(d.changed);
    assert forall|i: int, j: int| 0 <= i < j < pa.len() implies lex_lt(#[trigger] pa[i], #[trigger] pa[j]) by {
        assert(lex_lt(d.added[i].path, d.added[j].path));
    }
    assert forall|i: int, j: int| 0 <= i < j < pr.len() implies lex_lt(#[trigger] pr[i], #[trigger] pr[j]) by {
        assert(lex_lt(d.removed[i].path, d.removed[j].path));
    }
    assert forall|i: int, j: int| 0 <= i < j < pc.len() implies lex_lt(#[trigger] pc[i], #[trigger] pc[j]) by {
        assert(lex_lt(d.changed[i].1.path, d.changed[j].1.path));
    }
    assert forall|p: Seq<char>| #[trigger] pa.contains(p) <==> (present(cur, p) && !present(base, p)) by {
        if pa.contains(p) {
            let i = choose|i: int| 0 <= i < pa.len() && pa[i] == p;
            assert(d.added[i].path == p);
        }
        if present(cur, p) && !present(base, p) {
            assert(listed(d.added, p));
            let i = choose|i: int| 0 <= i < d.added.len() && d.added[i].path == p;
            assert(pa[i] == p);
        }
    }
    assert forall|p: Seq<char>| #[trigger] pr.contains(p) <==> (present(base, p) && !present(cur, p)) by {
        if pr.contains(p) {
            let i = choose|i: int| 0 <= i < pr.len() && pr[i] == p;
            assert(d.removed[i].path == p);
        }
        if present(base, p) && !present(cur, p) {
            assert(listed(d.removed, p));
            let i = choose|i: int| 0 <= i < d.removed.len() && d.removed[i].path == p;
            assert(pr[i] == p);
        }
    }
    assert forall|p: Seq<char>| #[trigger] pc.contains(p) <==> (present(base, p) && present(cur, p)
        && latest(base, p).sha256 != latest(cur, p).sha256) by {
        if pc.contains(p) {
            let i = choose|i: int| 0 <= i < pc.len() && pc[i] == p;
            assert(d.changed[i].1.path == p);
        }
        if present(base, p) && present(cur, p) && latest(base, p).sha256 != latest(cur, p).sha256 {
            assert(listed_pair(d.changed, p));
            let i = choose|i: int| 0 <= i < d.changed.len() && d.changed[i].1.path == p;
            assert(pc[i] == p);
        }
    }
}

/// Diffing the other way round swaps the sides: what one direction adds
/// the other removes, and each changed pair comes back swapped.
#[verifier::spinoff_prover]
pub proof fn law_diff_swaps_sides(a: Seq<EntryV>, b: Seq<EntryV>, d1: DriftV, d2: DriftV)
    requires
        is_drift(a, b, d1),
        is_drift(b, a, d2),
    ensures
        d1.added == d2.removed,
        d1.removed == d2.added,
        d1.changed == swapped(d2.changed),
{
    lemma_drift_paths(a, b, d1);
    lemma_drift_paths(b, a, d2);
    lemma_lex_ascending_unique(entry_paths(d1.added), entry_paths(d2.removed));
    lemma_lex_ascending_unique(entry_paths(d1.removed), entry_paths(d2.added));
    lemma_lex_ascending_unique(pair_paths(d1.changed), pair_paths(d2.changed));
    assert forall|i: int| 0 <= i < d1.added.len() implies d1.added[i] == d2.removed[i] by {
        assert(entry_paths(d1.added)[i] == entry_paths(d2.removed)[i]);
    }
    assert(d1.added =~= d2.removed);
    assert forall|i: int| 0 <= i < d1.removed.len() implies d1.removed[i] == d2.added[i] by {
        assert(entry_paths(d1.removed)[i] == entry_paths(d2.added)[i]);
    }
    assert(d1.removed =~= d2.added);
    assert forall|i: int| 0 <= i < d1.changed.len() implies d1.changed[i] == swapped(d2.changed)[i] by {
        assert(pair_paths(d1.changed)[i] == pair_paths(d2.changed)[i]);
    }
    assert(d1.changed =~= swapped(d2.changed));
}

/// Two entry lists that hold the same paths and digests, position by
/// position; sizes and kinds may differ.
pub open spec fn same_identity(c1: Seq<EntryV>, c2: Seq<EntryV>) -> bool {
    &&& c1.len() == c2.len()
    &&& forall|i: int| 0 <= i < c1.len() ==> #[trigger] c1[i].path == c2[i].path && c1[i].sha256 == c2[i].sha256
}

proof fn lemma_same_identity_index(c1: Seq<EntryV>, c2: Seq<EntryV>, p: Seq<char>)
    requires
        same_identity(c1, c2),
    ensures
        last_index(c1, p) == last_index(c2, p),
    decreases c1.len(),
{
    reveal(last_index);
    if c1.len() > 0 {
        assert(c1.last().path == c2.last().path);
        assert forall|i: int| 0 <= i < c1.drop_last().len() implies #[trigger] c1.drop_last()[i].path == c2.drop_last()[i].path
            && c1.drop_last()[i].sha256 == c2.drop_last()[i].sha256 by {
            assert(c1.drop_last()[i] == c1[i]);
            assert(c2.drop_last()[i] == c2[i]);
        }
        lemma_same_identity_index(c1.drop_last(), c2.drop_last(), p);
    }
}

/// Kind and size are informational, identity is the hash: when the current
/// entries change only in size or kind, the drift names the same paths as
/// added and changed and removes the same entries.
#[verifier::spinoff_prover]
pub proof fn law_size_and_kind_are_informational(
    base: Seq<EntryV>,
    c1: Seq<EntryV>,
    c2: Seq<EntryV>,
    d1: DriftV,
    d2: DriftV,
)
    requires
        same_identity(c1, c2),
        is_drift(base, c1, d1),
        is_drift(base, c2, d2),
    ensures
        entry_paths(d1.added) == entry_paths(d2.added),
        d1.removed == d2.removed,
        pair_paths(d1.changed) == pair_paths(d2.changed),
{
    lemma_drift_paths(base, c1, d1);
    lemma_drift_paths(base, c2, d2);
    assert forall|p: Seq<char>| present(c1, p) == present(c2, p) && (present(c1, p) ==> latest(c1, p).sha256
        == latest(c2, p).sha256) by {
        lemma_same_identity_index(c1, c2, p);
        if present(c1, p) {
            lemma_last_index(c1, p);
            assert(c1[last_index(c1, p)].sha256 == c2[last_index(c1, p)].sha256);
        }
    }
    lemma_lex_ascending_unique(entry_paths(d1.added), entry_paths(d2.added));
    lemma_lex_ascending_unique(entry_paths(d1.removed), entry_paths(d2.removed));
    lemma_lex_ascending_unique(pair_paths(d1.changed), pair_paths(d2.changed));
    assert forall|i: int| 0 <= i < d1.removed.len() implies d1.removed[i] == d2.removed[i] by {
        assert(entry_paths(d1.removed)[i] == entry_paths(d2.removed)[i]);
    }
    assert(d1.removed =~= d2.removed);
}

/// A drift is clean exactly when both sides hold the same paths with the
/// same digests; kind and size play no part.
pub proof fn law_clean_iff_same_blobs(base: Seq<EntryV>, cur: Seq<EntryV>, d: DriftV)
    requires
        is_drift(base, cur, d),
    ensures
        (d.added.len() == 0 && d.removed.len() == 0 && d.changed.len() == 0) <==> same_blobs(base, cur),
{
    if d.added.len() == 0 && d.removed.len() == 0 && d.changed.len() == 0 {
        assert forall|p: Seq<char>| #[trigger] present(base, p) == present(cur, p) by {
            if present(cur, p) && !present(base, p) {
                assert(listed(d.added, p));
            }
            if present(base, p) && !present(cur, p) {
                assert(listed(d.removed, p));
            }
        }
        assert forall|p: Seq<char>|
            present(base, p) && present(cur, p) implies #[trigger] latest(base, p).sha256 == latest(
            cur,
            p,
        ).sha256 by {
            if latest(base, p).sha256 != latest(cur, p).sha256 {
                assert(listed_pair(d.changed, p));
            }
        }
    }
    if same_blobs(base, cur) {
        if d.added.len() > 0 {
            let p = d.added[0].path;
            assert(present(base, p) == present(cur, p));
        }
        if d.removed.len() > 0 {
            let p = d.removed[0].path;
            assert(present(base, p) == present(cur, p));
        }
        if d.changed.len() > 0 {
            let p = d.changed[0].1.path;
            assert(latest(base, p).sha256 == latest(cur, p).sha256);
        }
    }
}

// ---------------------------------------------------------------------
// Round trip
// ---------------------------------------------------------------------

/// An entry the lock format can carry: a full digest, and a non-empty path
/// on one line that does not end in whitespace.
pub open spec fn valid_entry(e: EntryV) -> bool {
    &&& is_digest(e.sha256)
    &&& e.path.len() > 0
    &&& !e.path.contains('\n')
    &&& !is_ws(e.path.last())
}

proof fn lemma_header()
    ensures
        HEADER@.len() == 18,
        HEADER@[0] == '#',
        !HEADER@.contains('\n'),
        trim_end(HEADER@) == HEADER@,
{
    reveal_strlit("# blobfind lock v1");
    assert(HEADER@ =~= seq!['#', ' ', 'b', 'l', 'o', 'b', 'f', 'i', 'n', 'd', ' ', 'l', 'o', 'c', 'k', ' ', 'v', '1']);
    assert(!is_ws(HEADER@.last()));
}

proof fn lemma_dec_digits(n: nat)
    ensures
        dec(n).len() > 0,
        all_digits(dec(n)),
        digits_value(dec(n)) == n,
    decreases n,
{
    if n >= 10 {
        lemma_dec_digits(n / 10);
        let d = dec(n);
        assert(d.drop_last() == dec(n / 10));
        assert((digit(n % 10) as nat) == n % 10 + 48);
        assert(d.last() == digit(n % 10));
        assert(digits_value(d) == digits_value(d.drop_last()) * 10 + ((d.last() as nat) - 48) as nat);
        assert(digits_value(d) == (n / 10) * 10 + n % 10);
        assert forall|i: int| 0 <= i < d.len() implies is_digit(#[trigger] d[i]) by {
            if i < d.len() - 1 {
                assert(d[i] == dec(n / 10)[i]);
            }
        }
    } else {
        assert(dec(n).drop_last() =~= Seq::<char>::empty());
        assert((digit(n) as nat) == n + 48);
        let d = dec(n);
        assert(digits_value(d) == digits_value(d.drop_last()) * 10 + ((d.last() as nat) - 48) as nat);
    }
}

proof fn lemma_dec_parses(n: u64)
    ensures
        parse_u64_spec(dec(n as nat)) == Some(n),
{
    lemma_dec_digits(n as nat);
    assert(is_digit(dec(n as nat)[0]));
}

/// `find_from` skips characters that are not `c`.
proof fn lemma_find_at(s: Seq<char>, c: char, from: nat, t: nat)
    requires
        from <= t < s.len(),
        s[t as int] == c,
        forall|j: int| from <= j < t ==> s[j] != c,
    ensures
        find_from(s, c, from) == t,
    decreases t - from,
{
    if from < t {
        lemma_find_at(s, c, from + 1, t);
    }
}

proof fn lemma_entry_parses(e: EntryV, n: nat)
    requires
        valid_entry(e),
    ensures
        parse_entry_spec(entry_body(e), n) == Ok::<EntryV, Seq<char>>(e),
{
    let d = dec(e.size as nat);
    let k = kind_str(e.kind);
    let b = entry_body(e);
    lemma_dec_digits(e.size as nat);
    lemma_kind_strs();
    let a = 64nat;
    let bb = 65 + d.len();
    let cc = bb + 1 + k.len();
    assert(b =~= e.sha256 + seq![' '] + d + seq![' '] + k + seq![' '] + e.path);
    assert forall|j: int| 0 <= j < a implies b[j] != ' ' by {
        assert(b[j] == e.sha256[j]);
        assert(is_hex(e.sha256[j]));
    }
    assert(b[a as int] == ' ');
    lemma_find_at(b, ' ', 0, a);
    assert forall|j: int| a + 1 <= j < bb implies b[j] != ' ' by {
        assert(b[j] == d[j - 65]);
        assert(is_digit(d[j - 65]));
    }
    assert(b[bb as int] == ' ');
    lemma_find_at(b, ' ', a + 1, bb);
    assert forall|j: int| bb + 1 <= j < cc implies b[j] != ' ' by {
        assert(b[j] == k[j - bb - 1]);
    }
    assert(b[cc as int] == ' ');
    lemma_find_at(b, ' ', bb + 1, cc);
    assert(b.subrange(0, a as int) =~= e.sha256);
    assert(b.subrange(a + 1int, bb as int) =~= d);
    assert(b.subrange(bb + 1int, cc as int) =~= k);
    assert(b.skip(cc + 1int) =~= e.path);
    lemma_dec_parses(e.size);
    law_kind_round_trip(e.kind);
}

proof fn lemma_render_split(es: Seq<EntryV>)
    requires
        forall|i: int| 0 <= i < es.len() ==> valid_entry(#[trigger] es[i]),
    ensures
        split_on(render_spec(es), '\n') == (seq![HEADER@] + es.map_values(|e: EntryV| entry_body(e))).push(
            Seq::<char>::empty(),
        ),
    decreases es.len(),
{
    lemma_header();
    if es.len() == 0 {
        crate::text::lemma_split_append_plain(Seq::<char>::empty(), HEADER@, '\n');
        assert(Seq::<char>::empty() + HEADER@ == HEADER@);
        assert(render_spec(es).drop_last() == HEADER@);
        assert(split_on(render_spec(es), '\n') =~= seq![HEADER@].push(Seq::<char>::empty()));
        assert(es.map_values(|e: EntryV| entry_body(e)) =~= Seq::<Seq<char>>::empty());
        assert(seq![HEADER@] + Seq::<Seq<char>>::empty() == seq![HEADER@]);
    } else {
        let pre = es.drop_last();
        let e = es.last();
        assert forall|i: int| 0 <= i < pre.len() implies valid_entry(#[trigger] pre[i]) by {
            assert(pre[i] == es[i]);
        }
        lemma_render_split(pre);
        let x = render_spec(pre);
        let body = entry_body(e);
        assert(render_spec(es) =~= (x + body).push('\n'));
        lemma_kind_strs();
        lemma_dec_digits(e.size as nat);
        assert(!body.contains('\n')) by {
            if body.contains('\n') {
                let i = choose|i: int| 0 <= i < body.len() && body[i] == '\n';
                if i < 64 {
                    assert(is_hex(e.sha256[i]));
                } else if i >= 65 && i < 65 + dec(e.size as nat).len() {
                    assert(is_digit(dec(e.size as nat)[i - 65]));
                } else if i > 65 + dec(e.size as nat).len() + kind_str(e.kind).len() + 1 {
                    let j = i - (66 + dec(e.size as nat).len() + kind_str(e.kind).len());
                    assert(body[i] == e.path[j]);
                }
            }
        }
        crate::text::lemma_split_append_plain(x, body, '\n');
        assert((x + body).push('\n').drop_last() == x + body);
        let prev = (seq![HEADER@] + pre.map_values(|e: EntryV| entry_body(e)));
        assert(split_on(x, '\n') == prev.push(Seq::<char>::empty()));
        assert(split_on(x + body, '\n') =~= prev.push(body)) by {
            assert(Seq::<char>::empty() + body == body);
        }
        assert(es.map_values(|e: EntryV| entry_body(e)) =~= pre.map_values(|e: EntryV| entry_body(e)).push(body));
        assert(seq![HEADER@] + es.map_values(|e: EntryV| entry_body(e)) =~= prev.push(body));
    }
}

proof fn lemma_parse_bodies(ls: Seq<Seq<char>>, es: Seq<EntryV>, k: nat)
    requires
        ls.len() == es.len() + 1,
        k <= es.len(),
        forall|i: int| 0 <= i < es.len() ==> valid_entry(#[trigger] es[i]),
        forall|i: int| 0 <= i < es.len() ==> ls[i + 1] == entry_body(#[trigger] es[i]),
    ensures
        parse_lines(ls, k + 1, es.take(k as int), true) == Ok::<Seq<EntryV>, Seq<char>>(es),
    decreases es.len() - k,
{
    if k < es.len() {
        let e = es[k as int];
        let body = entry_body(e);
        assert(ls[k + 1int] == body);
        assert(body.last() == e.path.last());
        assert(trim_end(body) == body);
        assert(is_hex(e.sha256[0]));
        assert(body[0] == e.sha256[0]);
        lemma_entry_parses(e, k + 2);
        assert(es.take(k as int).push(e) == es.take(k + 1int));
        lemma_parse_bodies(ls, es, k + 1);
    } else {
        assert(es.take(k as int) == es);
    }
}

/// Rendering entries as a lock file and parsing that text gives the entries
/// back, for every list of entries the format can carry.
pub proof fn law_render_parse_round_trip(es: Seq<EntryV>)
    requires
        forall|i: int| 0 <= i < es.len() ==> valid_entry(#[trigger] es[i]),
    ensures
        parse_spec(render_spec(es)) == Ok::<Seq<EntryV>, Seq<char>>(es),
{
    lemma_header();
    lemma_render_split(es);
    let ls = seq![HEADER@] + es.map_values(|e: EntryV| entry_body(e));
    assert(lines_of(render_spec(es)) == ls) by {
        assert(ls.push(Seq::<char>::empty()).drop_last() == ls);
    }
    assert forall|i: int| 0 <= i < es.len() implies ls[i + 1] == entry_body(#[trigger] es[i]) by {}
    lemma_parse_bodies(ls, es, 0);
    assert(es.take(0) == Seq::<EntryV>::empty());
    assert(ls[0] == HEADER@);
}

/// A tree diffed against the lock file just written from it shows no
/// drift: the rendered entries parse back to themselves, and identical
/// entry lists are clean.
pub proof fn law_snapshot_then_diff_is_clean(es: Seq<EntryV>, d: DriftV)
    requires
        forall|i: int| 0 <= i < es.len() ==> valid_entry(#[trigger] es[i]),
        is_drift(parse_spec(render_spec(es))->Ok_0, es, d),
    ensures
        d.added.len() == 0,
        d.removed.len() == 0,
        d.changed.len() == 0,
{
    law_render_parse_round_trip(es);
    law_identical_is_clean(es, d);
}

} // verus!
