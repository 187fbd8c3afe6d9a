//! Human-readable output: the grouped scan report, the single-file
//! `explain` view and the baseline diff. Plain aligned text, no color
//! codes, so output is stable under pipes and in CI logs.

use vstd::prelude::*;
use crate::baseline::{Drift, DriftV, EntryV, LockEntry};
use crate::inventory::{findings_view, kind_str, Census, CensusV, Finding, FindingV, Kind};
use crate::json::{count_kind, count_of};
use crate::provenance::{label_spec, strs_view};
use crate::order::{is_perm, lex_lt, sort_order};
use crate::text::{
    chars_of, dec, push_char, push_chars, push_dec, push_str, slice_chars, trim_end, trim_end_index, vv,
};
use crate::util::{count_noun, count_noun_spec, human_size, human_size_spec};

verus! {

// ---------------------------------------------------------------------
// Short digests
// ---------------------------------------------------------------------

/// Bytes `c` takes in UTF-8.
pub open spec fn utf8_len(c: char) -> nat {
    if (c as u32) < 0x80 {
        1
    } else if (c as u32) < 0x800 {
        2
    } else if (c as u32) < 0x10000 {
        3
    } else {
        4
    }
}

/// The first `b` bytes of `s` end on a character boundary (or `s` is
/// shorter), so the prefix can be cut there.
pub open spec fn clip_ok(s: Seq<char>, b: nat) -> bool
    decreases s.len(),
{
    if b == 0 || s.len() == 0 {
        true
    } else if utf8_len(s[0]) <= b {
        clip_ok(s.drop_first(), (b - utf8_len(s[0])) as nat)
    } else {
        false
    }
}

/// The characters of `s` that fit in its first `b` bytes.
pub open spec fn clip(s: Seq<char>, b: nat) -> Seq<char>
    decreases s.len(),
{
    if b == 0 || s.len() == 0 {
        Seq::<char>::empty()
    } else if utf8_len(s[0]) <= b {
        seq![s[0]] + clip(s.drop_first(), (b - utf8_len(s[0])) as nat)
    } else {
        Seq::<char>::empty()
    }
}

fn utf8_len_exec(c: char) -> (r: usize)
    ensures
        r == utf8_len(c),
{
    if (c as u32) < 0x80 {
        1
    } else if (c as u32) < 0x800 {
        2
    } else if (c as u32) < 0x10000 {
        3
    } else {
        4
    }
}

/// Whether the first twelve bytes of `s` end on a character boundary.
pub fn clips_at_twelve(s: &str) -> (r: bool)
    ensures
        r == clip_ok(s@, 12),
{
    let v = chars_of(s);
    let mut i: usize = 0;
    let mut budget: usize = 12;
    assert(v@.skip(0) == v@);
    while i < v.len() && budget > 0
        invariant
            i <= v.len(),
            budget <= 12,
            v@ == s@,
            clip_ok(v@, 12) == clip_ok(v@.skip(i as int), budget as nat),
        decreases v.len() - i,
    {
        let l = utf8_len_exec(v[i]);
        assert(v@.skip(i as int)[0] == v@[i as int]);
        assert(v@.skip(i as int).drop_first() == v@.skip(i + 1));
        if l > budget {
            assert(!clip_ok(v@.skip(i as int), budget as nat));
            return false;
        }
        budget = budget - l;
        i = i + 1;
    }
    true
}

/// Appends the first twelve bytes of a digest (all of it when shorter).
fn push_short_sha(out: &mut String, s: &str)
    requires
        clip_ok(s@, 12),
    ensures
        final(out)@ == old(out)@ + clip(s@, 12),
{
    let v = chars_of(s);
    let ghost start = out@;
    let mut i: usize = 0;
    let mut budget: usize = 12;
    assert(v@.skip(0) == v@);
    while i < v.len() && budget > 0
        invariant
            i <= v.len(),
            budget <= 12,
            clip_ok(v@.skip(i as int), budget as nat),
            start + clip(v@, 12) == out@ + clip(v@.skip(i as int), budget as nat),
        decreases v.len() - i,
    {
        let c = v[i];
        let l = utf8_len_exec(c);
        assert(v@.skip(i as int)[0] == c);
        assert(v@.skip(i as int).drop_first() == v@.skip(i + 1));
        push_char(out, c);
        budget = budget - l;
        i = i + 1;
    }
    assert(clip(v@.skip(i as int), budget as nat) == Seq::<char>::empty());
}

// ---------------------------------------------------------------------
// Diff report
// ---------------------------------------------------------------------

/// `s` left-aligned in a field of `w` characters.
pub open spec fn pad(s: Seq<char>, w: nat) -> Seq<char> {
    if s.len() < w {
        s + Seq::new((w - s.len()) as nat, |i: int| ' ')
    } else {
        s
    }
}

/// Appends `s` left-aligned in a field of `w` characters.
fn push_padded(out: &mut String, s: &str, w: usize)
    ensures
        final(out)@ == old(out)@ + pad(s@, w as nat),
{
    let v = chars_of(s);
    let ghost start = out@;
    push_str(out, s);
    let mut i = v.len();
    while i < w
        invariant
            v@ == s@,
            v.len() <= i <= w || (v.len() >= w && i == v.len()),
            out@ == start + s@ + Seq::new((i - v.len()) as nat, |j: int| ' '),
        decreases w - i,
    {
        push_char(out, ' ');
        assert(Seq::new((i + 1 - v.len()) as nat, |j: int| ' ') == Seq::new((i - v.len()) as nat, |j: int| ' ').push(' '));
        i = i + 1;
    }
    assert(Seq::new(0, |j: int| ' ') == Seq::<char>::empty());
}

/// A digest cut to twelve bytes can be printed for every entry.
pub open spec fn entry_clips(e: EntryV) -> bool {
    clip_ok(e.sha256, 12)
}

/// Every digest the diff report prints can be cut to twelve bytes.
pub open spec fn drift_clips(d: DriftV) -> bool {
    &&& forall|i: int| 0 <= i < d.added.len() ==> entry_clips(#[trigger] d.added[i])
    &&& forall|i: int| 0 <= i < d.removed.len() ==> entry_clips(#[trigger] d.removed[i])
    &&& forall|i: int|
        0 <= i < d.changed.len() ==> entry_clips((#[trigger] d.changed[i]).0) && entry_clips(
            d.changed[i].1,
        )
}

/// `+ added    native  path  (4.0K, sha256 0123456789ab…)`.
pub open spec fn added_line(e: EntryV) -> Seq<char> {
    "+ added    "@ + pad(kind_str(e.kind), 7) + " "@ + e.path + "  ("@ + human_size_spec(e.size as nat)
        + ", sha256 "@ + clip(e.sha256, 12) + "…)\n"@
}

/// `- removed  native  path  (was 4.0K, sha256 0123456789ab…)`.
pub open spec fn removed_line(e: EntryV) -> Seq<char> {
    "- removed  "@ + pad(kind_str(e.kind), 7) + " "@ + e.path + "  (was "@ + human_size_spec(
        e.size as nat,
    ) + ", sha256 "@ + clip(e.sha256, 12) + "…)\n"@
}

/// `~ changed  native  path  (sha256 old… -> new…, 4.0K -> 8.0K)`.
pub open spec fn changed_line(old: EntryV, new: EntryV) -> Seq<char> {
    "~ changed  "@ + pad(kind_str(new.kind), 7) + " "@ + new.path + "  (sha256 "@ + clip(
        old.sha256,
        12,
    ) + "… -> "@ + clip(new.sha256, 12) + "…, "@ + human_size_spec(old.size as nat) + " -> "@
        + human_size_spec(new.size as nat) + ")\n"@
}

/// The lines for added entries, in order.
pub open spec fn added_text(s: Seq<EntryV>) -> Seq<char>
    decreases s.len(),
{
    if s.len() == 0 {
        Seq::empty()
    } else {
        added_text(s.drop_last()) + added_line(s.last())
    }
}

/// The lines for removed entries, in order.
pub open spec fn removed_text(s: Seq<EntryV>) -> Seq<char>
    decreases s.len(),
{
    if s.len() == 0 {
        Seq::empty()
    } else {
        removed_text(s.drop_last()) + removed_line(s.last())
    }
}

/// The lines for changed entries, in order.
pub open spec fn changed_text(s: Seq<(EntryV, EntryV)>) -> Seq<char>
    decreases s.len(),
{
    if s.len() == 0 {
        Seq::empty()
    } else {
        changed_text(s.drop_last()) + changed_line(s.last().0, s.last().1)
    }
}

/// The `blobfind diff` report: one line when clean, else a line per
/// drifted blob and a summary.
pub open spec fn diff_report_spec(d: DriftV, baseline_len: nat) -> Seq<char> {
    if d.added.len() == 0 && d.removed.len() == 0 && d.changed.len() == 0 {
        "baseline OK — "@ + count_noun_spec(baseline_len, "blob"@) + ", no drift\n"@
    } else {
        added_text(d.added) + removed_text(d.removed) + changed_text(d.changed) + drift_summary(
            d,
            baseline_len,
        )
    }
}

/// `drift: A added · R removed · C changed (baseline had N blobs)`.
pub open spec fn drift_summary(d: DriftV, baseline_len: nat) -> Seq<char> {
    "drift: "@ + dec(d.added.len()) + " added · "@ + dec(d.removed.len()) + " removed · "@ + dec(
        d.changed.len(),
    ) + " changed (baseline had "@ + count_noun_spec(baseline_len, "blob"@) + ")\n"@
}

fn push_added(out: &mut String, e: &LockEntry)
    requires
        entry_clips(e@),
    ensures
        final(out)@ == old(out)@ + added_line(e@),
{
    let ghost start = out@;
    push_str(out, "+ added    ");
    push_padded(out, e.kind.as_str(), 7);
    push_str(out, " ");
    push_str(out, e.path.as_str());
    push_str(out, "  (");
    let hs = human_size(e.size);
    push_str(out, hs.as_str());
    push_str(out, ", sha256 ");
    push_short_sha(out, e.sha256.as_str());
    push_str(out, "…)\n");
    assert(out@ == start + added_line(e@));
}

fn push_removed(out: &mut String, e: &LockEntry)
    requires
        entry_clips(e@),
    ensures
        final(out)@ == old(out)@ + removed_line(e@),
{
    let ghost start = out@;
    push_str(out, "- removed  ");
    push_padded(out, e.kind.as_str(), 7);
    push_str(out, " ");
    push_str(out, e.path.as_str());
    push_str(out, "  (was ");
    let hs = human_size(e.size);
    push_str(out, hs.as_str());
    push_str(out, ", sha256 ");
    push_short_sha(out, e.sha256.as_str());
    push_str(out, "…)\n");
    assert(out@ == start + removed_line(e@));
}

fn push_changed(out: &mut String, was: &LockEntry, new: &LockEntry)
    requires
        entry_clips(was@),
        entry_clips(new@),
    ensures
        final(out)@ == old(out)@ + changed_line(was@, new@),
{
    let ghost start = out@;
    push_str(out, "~ changed  ");
    push_padded(out, new.kind.as_str(), 7);
    push_str(out, " ");
    push_str(out, new.path.as_str());
    push_str(out, "  (sha256 ");
    push_short_sha(out, was.sha256.as_str());
    push_str(out, "… -> ");
    push_short_sha(out, new.sha256.as_str());
    push_str(out, "…, ");
    let h1 = human_size(was.size);
    push_str(out, h1.as_str());
    push_str(out, " -> ");
    let h2 = human_size(new.size);
    push_str(out, h2.as_str());
    push_str(out, ")\n");
    assert(out@ == start + changed_line(was@, new@));
}

/// Whether every digest the diff report prints can be cut to twelve bytes.
pub fn drift_printable(drift: &Drift) -> (r: bool)
    ensures
        r == drift_clips(drift@),
{
    let mut i: usize = 0;
    while i < drift.added.len()
        invariant
            i <= drift.added.len(),
            forall|j: int| 0 <= j < i ==> entry_clips(#[trigger] drift@.added[j]),
        decreases drift.added.len() - i,
    {
        if !clips_at_twelve(drift.added[i].sha256.as_str()) {
            assert(drift@.added[i as int] == drift.added@[i as int]@);
            return false;
        }
        i = i + 1;
    }
    let mut i: usize = 0;
    while i < drift.removed.len()
        invariant
            i <= drift.removed.len(),
            forall|j: int| 0 <= j < drift@.added.len() ==> entry_clips(#[trigger] drift@.added[j]),
            forall|j: int| 0 <= j < i ==> entry_clips(#[trigger] drift@.removed[j]),
        decreases drift.removed.len() - i,
    {
        if !clips_at_twelve(drift.removed[i].sha256.as_str()) {
            assert(drift@.removed[i as int] == drift.removed@[i as int]@);
            return false;
        }
        i = i + 1;
    }
    let mut i: usize = 0;
    while i < drift.changed.len()
        invariant
            i <= drift.changed.len(),
            forall|j: int| 0 <= j < drift@.added.len() ==> entry_clips(#[trigger] drift@.added[j]),
            forall|j: int| 0 <= j < drift@.removed.len() ==> entry_clips(#[trigger] drift@.removed[j]),
            forall|j: int|
                0 <= j < i ==> entry_clips((#[trigger] drift@.changed[j]).0) && entry_clips(
                    drift@.changed[j].1,
                ),
        decreases drift.changed.len() - i,
    {
        if !clips_at_twelve(drift.changed[i].0.sha256.as_str()) || !clips_at_twelve(
            drift.changed[i].1.sha256.as_str(),
        ) {
            assert(drift@.changed[i as int].0 == drift.changed@[i as int].0@);
            assert(drift@.changed[i as int].1 == drift.changed@[i as int].1@);
            return false;
        }
        i = i + 1;
    }
    true
}

/// The `blobfind diff` report.
pub fn diff_report(drift: &Drift, baseline_len: usize) -> (r: String)
    requires
        drift_clips(drift@),
    ensures
        r@ == diff_report_spec(drift@, baseline_len as nat),
{
    let mut out = String::new();
    if drift.is_clean() {
        push_str(&mut out, "baseline OK — ");
        let c = count_noun(baseline_len as u64, "blob");
        push_str(&mut out, c.as_str());
        push_str(&mut out, ", no drift\n");
        return out;
    }
    let ghost d = drift@;
    let mut i: usize = 0;
    while i < drift.added.len()
        invariant
            i <= drift.added.len(),
            d == drift@,
            drift_clips(d),
            out@ == added_text(d.added.take(i as int)),
        decreases drift.added.len() - i,
    {
        assert(entry_clips(d.added[i as int]));
        push_added(&mut out, &drift.added[i]);
        assert(d.added.take(i + 1).drop_last() == d.added.take(i as int));
        i = i + 1;
    }
    assert(d.added.take(d.added.len() as int) == d.added);
    let ghost a = out@;
    let mut i: usize = 0;
    while i < drift.removed.len()
        invariant
            i <= drift.removed.len(),
            d == drift@,
            drift_clips(d),
            out@ == a + removed_text(d.removed.take(i as int)),
        decreases drift.removed.len() - i,
    {
        assert(entry_clips(d.removed[i as int]));
        push_removed(&mut out, &drift.removed[i]);
        assert(d.removed.take(i + 1).drop_last() == d.removed.take(i as int));
        i = i + 1;
    }
    assert(d.removed.take(d.removed.len() as int) == d.removed);
    let ghost b = out@;
    let mut i: usize = 0;
    while i < drift.changed.len()
        invariant
            i <= drift.changed.len(),
            d == drift@,
            drift_clips(d),
            out@ == b + changed_text(d.changed.take(i as int)),
        decreases drift.changed.len() - i,
    {
        assert(entry_clips(d.changed[i as int].0));
        push_changed(&mut out, &drift.changed[i].0, &drift.changed[i].1);
        assert(d.changed.take(i + 1).drop_last() == d.changed.take(i as int));
        i = i + 1;
    }
    assert(d.changed.take(d.changed.len() as int) == d.changed);
    push_str(&mut out, "drift: ");
    push_dec(&mut out, drift.added.len() as u64);
    push_str(&mut out, " added · ");
    push_dec(&mut out, drift.removed.len() as u64);
    push_str(&mut out, " removed · ");
    push_dec(&mut out, drift.changed.len() as u64);
    push_str(&mut out, " changed (baseline had ");
    let c = count_noun(baseline_len as u64, "blob");
    push_str(&mut out, c.as_str());
    push_str(&mut out, ")\n");
    out
}

// ---------------------------------------------------------------------
// Explain report
// ---------------------------------------------------------------------

/// `    - hint` lines.
pub open spec fn hint_lines(hs: Seq<Seq<char>>) -> Seq<char>
    decreases hs.len(),
{
    if hs.len() == 0 {
        Seq::empty()
    } else {
        hint_lines(hs.drop_last()) + "    - "@ + hs.last() + "\n"@
    }
}

/// The path, kind, format and (when known) architecture lines.
pub open spec fn explain_head(f: FindingV) -> Seq<char> {
    f.rel + "\n"@ + "  kind:     "@ + kind_str(f.kind) + "\n"@ + "  format:   "@ + f.format + "\n"@ + (
    match f.arch {
        Some(a) => "  arch:     "@ + a + "\n"@,
        None => Seq::empty(),
    })
}

/// The size, entropy, digest and package lines.
pub open spec fn explain_body(f: FindingV) -> Seq<char> {
    "  size:     "@ + human_size_spec(f.size as nat) + " ("@ + dec(f.size as nat) + " bytes)\n"@
        + "  entropy:  "@ + f.entropy.0 + " bits/byte\n"@ + "  sha256:   "@ + f.sha256 + "\n"@
        + "  package:  "@ + label_spec(f.provenance) + "\n"@
}

/// The hints block, when there are hints.
pub open spec fn explain_hints(f: FindingV) -> Seq<char> {
    if f.hints.len() > 0 {
        "  hints:\n"@ + hint_lines(f.hints)
    } else {
        Seq::empty()
    }
}

/// The `blobfind explain <file>` detail view.
pub open spec fn explain_spec(f: FindingV) -> Seq<char> {
    explain_head(f) + explain_body(f) + explain_hints(f)
}

fn push_explain_head(out: &mut String, f: &Finding)
    ensures
        final(out)@ == old(out)@ + explain_head(f@),
{
    let ghost start = out@;
    push_str(out, f.rel.as_str());
    push_str(out, "\n");
    push_str(out, "  kind:     ");
    push_str(out, f.kind.as_str());
    push_str(out, "\n");
    push_str(out, "  format:   ");
    push_str(out, f.format.as_str());
    push_str(out, "\n");
    match &f.arch {
        Some(a) => {
            push_str(out, "  arch:     ");
            push_str(out, a.as_str());
            push_str(out, "\n");
        },
        None => {},
    }
    assert(out@ =~= start + explain_head(f@));
}

fn push_explain_body(out: &mut String, f: &Finding)
    ensures
        final(out)@ == old(out)@ + explain_body(f@),
{
    let ghost start = out@;
    push_str(out, "  size:     ");
    let hs = human_size(f.size);
    push_str(out, hs.as_str());
    push_str(out, " (");
    push_dec(out, f.size);
    push_str(out, " bytes)\n");
    push_str(out, "  entropy:  ");
    push_str(out, f.entropy.two_places.as_str());
    push_str(out, " bits/byte\n");
    push_str(out, "  sha256:   ");
    push_str(out, f.sha256.as_str());
    push_str(out, "\n");
    push_str(out, "  package:  ");
    let l = f.provenance.label();
    push_str(out, l.as_str());
    push_str(out, "\n");
    assert(out@ =~= start + explain_body(f@));
}

fn push_explain_hints(out: &mut String, f: &Finding)
    ensures
        final(out)@ == old(out)@ + explain_hints(f@),
{
    let ghost start = out@;
    if f.hints.len() > 0 {
        push_str(out, "  hints:\n");
        push_hint_lines(out, &f.hints);
    }
    assert(out@ =~= start + explain_hints(f@));
}

fn push_hint_lines(out: &mut String, hs: &Vec<String>)
    ensures
        final(out)@ == old(out)@ + hint_lines(strs_view(hs@)),
{
    let ghost start = out@;
    let ghost all = strs_view(hs@);
    let mut i: usize = 0;
    while i < hs.len()
        invariant
            i <= hs.len(),
            all == strs_view(hs@),
            out@ == start + hint_lines(all.take(i as int)),
        decreases hs.len() - i,
    {
        let ghost next = all.take(i + 1);
        assert(next.drop_last() == all.take(i as int));
        assert(next.last() == hs@[i as int]@);
        push_str(out, "    - ");
        push_str(out, hs[i].as_str());
        push_str(out, "\n");
        assert(out@ =~= start + hint_lines(next));
        i = i + 1;
    }
    assert(all.take(hs.len() as int) == all);
}

/// The `blobfind explain <file>` detail view.
pub fn explain_report(f: &Finding) -> (r: String)
    ensures
        r@ == explain_spec(f@),
{
    let mut out = String::new();
    push_explain_head(&mut out, f);
    push_explain_body(&mut out, f);
    push_explain_hints(&mut out, f);
    assert(out@ == Seq::<char>::empty() + explain_head(f@) + explain_body(f@) + explain_hints(f@));
    assert(Seq::<char>::empty() + explain_head(f@) == explain_head(f@));
    out
}

// ---------------------------------------------------------------------
// Tables
// ---------------------------------------------------------------------

/// The values of a table's rows.
pub open spec fn rows_view(rows: Seq<Vec<String>>) -> Seq<Seq<Seq<char>>> {
    rows.map_values(|r: Vec<String>| strs_view(r@))
}

/// The widest cell of column `i`, in characters.
pub open spec fn col_width(rows: Seq<Seq<Seq<char>>>, i: int) -> nat
    decreases rows.len(),
{
    if rows.len() == 0 {
        0
    } else {
        let w = col_width(rows.drop_last(), i);
        let r = rows.last();
        if 0 <= i < r.len() && r[i].len() > w {
            r[i].len()
        } else {
            w
        }
    }
}

/// `n` spaces.
pub open spec fn spaces(n: nat) -> Seq<char> {
    Seq::new(n, |k: int| ' ')
}

/// The first `j` cells of `row`, each after a space, all but the row's
/// last cell padded to its column's width.
pub open spec fn cells_text(row: Seq<Seq<char>>, rows: Seq<Seq<Seq<char>>>, j: int) -> Seq<char>
    decreases j,
{
    if j <= 0 {
        Seq::empty()
    } else {
        cells_text(row, rows, j - 1) + " "@ + row[j - 1] + (if j < row.len() {
            spaces((col_width(rows, j - 1) - row[j - 1].len()) as nat)
        } else {
            Seq::empty()
        })
    }
}

/// One table line: a leading space, the cells, trailing whitespace
/// trimmed, a newline.
pub open spec fn row_line(row: Seq<Seq<char>>, rows: Seq<Seq<Seq<char>>>) -> Seq<char> {
    trim_end(" "@ + cells_text(row, rows, row.len() as int)) + "\n"@
}

/// The lines of the first `k` rows.
pub open spec fn table_lines(rows: Seq<Seq<Seq<char>>>, k: int) -> Seq<char>
    decreases k,
{
    if k <= 0 {
        Seq::empty()
    } else {
        table_lines(rows, k - 1) + row_line(rows[k - 1], rows)
    }
}

/// Cells aligned in columns as wide as their widest cell.
pub open spec fn table_spec(rows: Seq<Seq<Seq<char>>>) -> Seq<char> {
    table_lines(rows, rows.len() as int)
}

fn column_widths(rows: &Vec<Vec<String>>) -> (w: Vec<usize>)
    ensures
        forall|k: int| 0 <= k < rows.len() ==> (#[trigger] rows@[k]).len() <= w.len(),
        forall|i: int| 0 <= i < w.len() ==> #[trigger] w@[i] == col_width(rows_view(rows@), i),
{
    let ghost rv = rows_view(rows@);
    let mut cols: usize = 0;
    let mut k: usize = 0;
    while k < rows.len()
        invariant
            k <= rows.len(),
            forall|m: int| 0 <= m < k ==> (#[trigger] rows@[m]).len() <= cols,
        decreases rows.len() - k,
    {
        if rows[k].len() > cols {
            cols = rows[k].len();
        }
        k = k + 1;
    }
    let mut w: Vec<usize> = Vec::new();
    while w.len() < cols
        invariant
            w.len() <= cols,
            forall|i: int| 0 <= i < w.len() ==> #[trigger] w@[i] == 0,
        decreases cols - w.len(),
    {
        w.push(0);
    }
    let mut k: usize = 0;
    while k < rows.len()
        invariant
            k <= rows.len(),
            w.len() == cols,
            rv == rows_view(rows@),
            forall|m: int| 0 <= m < rows.len() ==> (#[trigger] rows@[m]).len() <= cols,
            forall|i: int| 0 <= i < w.len() ==> #[trigger] w@[i] == col_width(rv.take(k as int), i),
        decreases rows.len() - k,
    {
        let row = &rows[k];
        assert(rv[k as int] == strs_view(row@));
        assert(rv.take(k + 1).drop_last() == rv.take(k as int));
        assert(rv.take(k + 1).last() == strs_view(row@));
        let mut i: usize = 0;
        while i < row.len()
            invariant
                i <= row.len() <= cols,
                w.len() == cols,
                row == &rows@[k as int],
                k < rows.len(),
                rv.len() == rows.len(),
                rv[k as int] == strs_view(row@),
                rv.take(k + 1).drop_last() == rv.take(k as int),
                rv.take(k + 1).last() == strs_view(row@),
                forall|c: int| 0 <= c < i ==> #[trigger] w@[c] == col_width(rv.take(k + 1), c),
                forall|c: int| i <= c < w.len() ==> #[trigger] w@[c] == col_width(rv.take(k as int), c),
            decreases row.len() - i,
        {
            let cv = chars_of(row[i].as_str());
            let n = cv.len();
            assert(strs_view(row@)[i as int] == row@[i as int]@);
            assert(strs_view(row@).len() == row.len());
            assert(n == rv.take(k + 1).last()[i as int].len());
            assert(rv.take(k + 1).len() > 0);
            assert(col_width(rv.take(k + 1), i as int) == if n > col_width(rv.take(k as int), i as int) {
                n as nat
            } else {
                col_width(rv.take(k as int), i as int)
            });
            if n > w[i] {
                w.set(i, n);
            }
            i = i + 1;
        }
        assert forall|c: int| 0 <= c < w.len() implies #[trigger] w@[c] == col_width(rv.take(k + 1), c) by {
            if c >= row.len() {
                assert(w@[c] == col_width(rv.take(k as int), c));
            }
        }
        k = k + 1;
    }
    assert(rv.take(rows.len() as int) == rv);
    w
}

fn push_spaces(v: &mut Vec<char>, n: usize)
    ensures
        final(v)@ == old(v)@ + spaces(n as nat),
{
    let ghost start = v@;
    let mut i: usize = 0;
    while i < n
        invariant
            i <= n,
            v@ == start + spaces(i as nat),
        decreases n - i,
    {
        v.push(' ');
        assert(spaces((i + 1) as nat) == spaces(i as nat).push(' '));
        i = i + 1;
    }
}

fn table_line(row: &Vec<String>, rows: &Vec<Vec<String>>, w: &Vec<usize>) -> (line: Vec<char>)
    requires
        row.len() <= w.len(),
        forall|i: int| 0 <= i < w.len() ==> #[trigger] w@[i] == col_width(rows_view(rows@), i),
        forall|i: int| 0 <= i < row.len() ==> (#[trigger] row@[i])@.len() <= w@[i],
    ensures
        line@ == " "@ + cells_text(strs_view(row@), rows_view(rows@), row.len() as int),
{
    let ghost rw = strs_view(row@);
    let ghost rv = rows_view(rows@);
    let mut line: Vec<char> = Vec::new();
    line.push(' ');
    proof {
        reveal_strlit(" ");
    }
    assert(line@ =~= " "@ + cells_text(rw, rv, 0));
    let mut i: usize = 0;
    while i < row.len()
        invariant
            i <= row.len() <= w.len(),
            rw == strs_view(row@),
            rv == rows_view(rows@),
            forall|c: int| 0 <= c < w.len() ==> #[trigger] w@[c] == col_width(rv, c),
            forall|c: int| 0 <= c < row.len() ==> (#[trigger] row@[c])@.len() <= w@[c],
            line@ == " "@ + cells_text(rw, rv, i as int),
        decreases row.len() - i,
    {
        let ghost before = line@;
        let cell = chars_of(row[i].as_str());
        assert(rw[i as int] == cell@);
        line.push(' ');
        let mut j: usize = 0;
        while j < cell.len()
            invariant
                j <= cell.len(),
                line@ == before.push(' ') + cell@.take(j as int),
            decreases cell.len() - j,
        {
            line.push(cell[j]);
            assert(cell@.take(j + 1) == cell@.take(j as int).push(cell@[j as int]));
            j = j + 1;
        }
        assert(cell@.take(cell.len() as int) == cell@);
        proof {
            reveal_strlit(" ");
        }
        assert(before.push(' ') + cell@ =~= before + " "@ + rw[i as int]);
        if i + 1 < row.len() {
            assert(row@[i as int]@.len() <= w@[i as int]);
            push_spaces(&mut line, w[i] - cell.len());
        } else {
            assert(line@ =~= line@ + Seq::<char>::empty());
        }
        assert(cells_text(rw, rv, i + 1) == cells_text(rw, rv, i as int) + " "@ + rw[i as int] + (if i + 1 < rw.len() {
            spaces((col_width(rv, i as int) - rw[i as int].len()) as nat)
        } else {
            Seq::empty()
        }));
        assert(line@ =~= " "@ + cells_text(rw, rv, i + 1));
        i = i + 1;
    }
    line
}

/// Lays the rows out as an aligned table.
pub fn render_table(rows: &Vec<Vec<String>>) -> (r: String)
    ensures
        r@ == table_spec(rows_view(rows@)),
{
    let w = column_widths(rows);
    let ghost rv = rows_view(rows@);
    let mut out = String::new();
    let mut k: usize = 0;
    while k < rows.len()
        invariant
            k <= rows.len(),
            rv == rows_view(rows@),
            forall|m: int| 0 <= m < rows.len() ==> (#[trigger] rows@[m]).len() <= w.len(),
            forall|i: int| 0 <= i < w.len() ==> #[trigger] w@[i] == col_width(rv, i),
            out@ == table_lines(rv, k as int),
        decreases rows.len() - k,
    {
        let row = &rows[k];
        assert(rv[k as int] == strs_view(row@));
        assert forall|i: int| 0 <= i < row.len() implies (#[trigger] row@[i])@.len() <= w@[i] by {
            lemma_col_width_ge(rv, i, k as int);
            assert(rv[k as int][i] == row@[i]@);
        }
        let line = table_line(row, rows, &w);
        let end = trim_end_index(&line, line.len());
        assert(line@.take(line.len() as int) == line@);
        let t = slice_chars(&line, 0, end);
        assert(t@ == line@.take(end as int));
        push_chars(&mut out, &t);
        push_char(&mut out, '\n');
        proof {
            reveal_strlit("\n");
        }
        assert(out@ =~= table_lines(rv, k + 1));
        k = k + 1;
    }
    out
}

proof fn lemma_col_width_ge(rows: Seq<Seq<Seq<char>>>, i: int, k: int)
    requires
        0 <= k < rows.len(),
        0 <= i < rows[k].len(),
    ensures
        rows[k][i].len() <= col_width(rows, i),
    decreases rows.len(),
{
    if k < rows.len() - 1 {
        lemma_col_width_ge(rows.drop_last(), i, k);
    }
}

// ---------------------------------------------------------------------
// Grouping by package
// ---------------------------------------------------------------------

/// The label a finding is grouped under.
pub open spec fn finding_label(f: FindingV) -> Seq<char> {
    label_spec(f.provenance)
}

/// Group order: attributed labels alphabetically, `unattributed` last.
pub open spec fn group_before(a: Seq<char>, b: Seq<char>) -> bool {
    let au = a == "unattributed"@;
    let bu = b == "unattributed"@;
    (!au && bu) || (au == bu && lex_lt(a, b))
}

/// The findings labelled `l`, in order.
pub open spec fn members(fs: Seq<FindingV>, l: Seq<char>) -> Seq<FindingV>
    decreases fs.len(),
{
    if fs.len() == 0 {
        Seq::empty()
    } else {
        members(fs.drop_last(), l) + if finding_label(fs.last()) == l {
            seq![fs.last()]
        } else {
            Seq::empty()
        }
    }
}

/// Some group carries label `l`.
pub open spec fn has_group(gs: Seq<(Seq<char>, Seq<FindingV>)>, l: Seq<char>) -> bool {
    exists|i: int| 0 <= i < gs.len() && gs[i].0 == l
}

/// `gs` groups the findings by label: each group holds exactly the
/// findings with its label, in order, every finding's label has a group,
/// and the groups come in [`group_before`] order.
pub open spec fn is_grouping(fs: Seq<FindingV>, gs: Seq<(Seq<char>, Seq<FindingV>)>) -> bool {
    &&& forall|i: int|
        0 <= i < gs.len() ==> (#[trigger] gs[i]).1 == members(fs, gs[i].0) && gs[i].1.len() > 0
    &&& forall|j: int| 0 <= j < fs.len() ==> has_group(gs, finding_label(#[trigger] fs[j]))
    &&& forall|i: int, j: int| 0 <= i < j < gs.len() ==> group_before(#[trigger] gs[i].0, #[trigger] gs[j].0)
}

/// A group held as its label and the indices of its findings.
pub open spec fn group_view(g: (Vec<char>, Vec<usize>), fv: Seq<FindingV>) -> (Seq<char>, Seq<FindingV>) {
    (g.0@, g.1@.map_values(|i: usize| fv[i as int]))
}

/// The groups' values.
pub open spec fn groups_view(gs: Seq<(Vec<char>, Vec<usize>)>, fv: Seq<FindingV>) -> Seq<(Seq<char>, Seq<FindingV>)> {
    gs.map_values(|g: (Vec<char>, Vec<usize>)| group_view(g, fv))
}

/// The key that orders groups: a flag that puts `unattributed` last,
/// then the label.
pub open spec fn group_key(l: Seq<char>) -> Seq<char> {
    seq![if l == "unattributed"@ { 'b' } else { 'a' }] + l
}

proof fn lemma_group_key(a: Seq<char>, b: Seq<char>)
    requires
        lex_lt(group_key(a), group_key(b)),
    ensures
        group_before(a, b),
{
    let ka = group_key(a);
    let kb = group_key(b);
    assert(ka[0] == if a == "unattributed"@ { 'b' } else { 'a' });
    assert(kb[0] == if b == "unattributed"@ { 'b' } else { 'a' });
    if ka[0] == kb[0] {
        assert(ka.drop_first() == a);
        assert(kb.drop_first() == b);
    }
}

/// Some group held by executable code carries label `l`.
pub open spec fn has_label(gs: Seq<(Vec<char>, Vec<usize>)>, l: Seq<char>) -> bool {
    exists|i: int| 0 <= i < gs.len() && #[trigger] gs[i].0@ == l
}

fn find_group(gs: &Vec<(Vec<char>, Vec<usize>)>, l: &Vec<char>) -> (r: Option<usize>)
    ensures
        r matches Some(g) ==> g < gs.len() && gs@[g as int].0@ == l@,
        r is None ==> forall|m: int| 0 <= m < gs.len() ==> (#[trigger] gs@[m]).0@ != l@,
{
    let mut i: usize = 0;
    while i < gs.len()
        invariant
            i <= gs.len(),
            forall|m: int| 0 <= m < i ==> (#[trigger] gs@[m]).0@ != l@,
        decreases gs.len() - i,
    {
        if crate::text::seq_eq(&gs[i].0, l) {
            return Some(i);
        }
        i = i + 1;
    }
    None
}

proof fn lemma_members_step(fs: Seq<FindingV>, k: int)
    requires
        0 <= k < fs.len(),
    ensures
        forall|l: Seq<char>|
            #[trigger] members(fs.take(k + 1), l) == members(fs.take(k), l) + if finding_label(fs[k]) == l {
                seq![fs[k]]
            } else {
                Seq::empty()
            },
{
    assert(fs.take(k + 1).drop_last() == fs.take(k));
    assert(fs.take(k + 1).last() == fs[k]);
}

fn first_appearance(fs: &Vec<Finding>) -> (gs: Vec<(Vec<char>, Vec<usize>)>)
    ensures
        forall|i: int|
            0 <= i < gs.len() ==> {
                &&& (#[trigger] groups_view(gs@, findings_view(fs@))[i]).1 == members(
                    findings_view(fs@),
                    gs@[i].0@,
                )
                &&& gs@[i].1.len() > 0
                &&& forall|t: int| 0 <= t < gs@[i].1.len() ==> #[trigger] gs@[i].1@[t] < fs.len()
            },
        forall|j: int|
            0 <= j < fs.len() ==> has_group(
                groups_view(gs@, findings_view(fs@)),
                finding_label(#[trigger] findings_view(fs@)[j]),
            ),
        forall|i: int, j: int| 0 <= i < j < gs.len() ==> gs@[i].0@ != gs@[j].0@,
{
    let ghost fv = findings_view(fs@);
    let mut gs: Vec<(Vec<char>, Vec<usize>)> = Vec::new();
    let mut k: usize = 0;
    while k < fs.len()
        invariant
            k <= fs.len(),
            fv == findings_view(fs@),
            forall|i: int|
                0 <= i < gs.len() ==> {
                    &&& (#[trigger] gs@[i]).1@.map_values(|t: usize| fv[t as int]) == members(
                        fv.take(k as int),
                        gs@[i].0@,
                    )
                    &&& gs@[i].1.len() > 0
                    &&& forall|t: int| 0 <= t < gs@[i].1.len() ==> #[trigger] gs@[i].1@[t] < k
                },
            forall|j: int| 0 <= j < k ==> has_label(gs@, finding_label(#[trigger] fv[j])),
            forall|i: int, j: int| 0 <= i < j < gs.len() ==> gs@[i].0@ != gs@[j].0@,
        decreases fs.len() - k,
    {
        let lbl = fs[k].provenance.label();
        let lc = chars_of(lbl.as_str());
        let ghost f = fv[k as int];
        assert(lc@ == finding_label(f));
        assert(fv.take(k + 1).drop_last() == fv.take(k as int));
        assert(fv.take(k + 1).last() == f);
        let found = find_group(&gs, &lc);
        let ghost old_gs = gs@;
        match found {
            Some(g) => {
                let mut entry = gs.remove(g);
                entry.1.push(k);
                gs.insert(g, entry);
                assert(gs@ == old_gs.update(g as int, gs@[g as int]));
            },
            None => {
                let mut idx: Vec<usize> = Vec::new();
                idx.push(k);
                gs.push((lc, idx));
            },
        }
        proof {
            lemma_members_step(fv, k as int);
            assert forall|m: int| 0 <= m < gs.len() implies {
                &&& (#[trigger] gs@[m]).1@.map_values(|t: usize| fv[t as int]) == members(
                    fv.take(k + 1),
                    gs@[m].0@,
                )
                &&& gs@[m].1.len() > 0
                &&& forall|t: int| 0 <= t < gs@[m].1.len() ==> #[trigger] gs@[m].1@[t] < k + 1
            } by {
                if m < old_gs.len() {
                    if found == Some(m as usize) {
                        assert(gs@[m].1@ == old_gs[m].1@.push(k));
                        assert(gs@[m].1@.map_values(|t: usize| fv[t as int]) =~= old_gs[m].1@.map_values(
                            |t: usize| fv[t as int],
                        ).push(f));
                    } else {
                        assert(gs@[m] == old_gs[m]);
                        assert(old_gs[m].0@ != lc@);
                        assert(members(fv.take(k + 1), gs@[m].0@) == members(fv.take(k as int), gs@[m].0@));
                    }
                } else {
                    assert(gs@[m].1@ == seq![k]);
                    assert(gs@[m].0@ == lc@);
                    assert forall|j: int| 0 <= j < fv.take(k as int).len() implies finding_label(
                        #[trigger] fv.take(k as int)[j],
                    ) != lc@ by {
                        assert(fv.take(k as int)[j] == fv[j]);
                        assert(has_label(old_gs, finding_label(fv[j])));
                        let i0 = choose|i: int| 0 <= i < old_gs.len() && #[trigger] old_gs[i].0@ == finding_label(fv[j]);
                        assert(old_gs[i0].0@ != lc@);
                    }
                    lemma_members_absent(fv.take(k as int), lc@);
                    assert(gs@[m].1@.map_values(|t: usize| fv[t as int]) =~= seq![f]);
                }
            }
            assert forall|j: int| 0 <= j < k + 1 implies has_label(gs@, finding_label(#[trigger] fv[j])) by {
                if j < k {
                    assert(has_label(old_gs, finding_label(fv[j])));
                    let i0 = choose|i: int| 0 <= i < old_gs.len() && #[trigger] old_gs[i].0@ == finding_label(fv[j]);
                    assert(gs@[i0].0@ == old_gs[i0].0@);
                } else {
                    match found {
                        Some(g) => {
                            assert(gs@[g as int].0@ == lc@);
                        },
                        None => {
                            assert(gs@[old_gs.len() as int].0@ == lc@);
                        },
                    }
                }
            }
        }
        k = k + 1;
    }
    proof {
        assert(fv.take(k as int) == fv);
        assert forall|j: int| 0 <= j < fs.len() implies has_group(
            groups_view(gs@, fv),
            finding_label(#[trigger] fv[j]),
        ) by {
            assert(has_label(gs@, finding_label(fv[j])));
            let i0 = choose|i: int| 0 <= i < gs.len() && #[trigger] gs@[i].0@ == finding_label(fv[j]);
            assert(groups_view(gs@, fv)[i0].0 == gs@[i0].0@);
        }
    }
    gs
}

proof fn lemma_members_absent(fs: Seq<FindingV>, l: Seq<char>)
    requires
        forall|j: int| 0 <= j < fs.len() ==> finding_label(#[trigger] fs[j]) != l,
    ensures
        members(fs, l) == Seq::<FindingV>::empty(),
    decreases fs.len(),
{
    if fs.len() > 0 {
        assert forall|j: int| 0 <= j < fs.drop_last().len() implies finding_label(#[trigger] fs.drop_last()[j]) != l by {
            assert(fs.drop_last()[j] == fs[j]);
        }
        lemma_members_absent(fs.drop_last(), l);
    }
}

fn copy_group(g: &(Vec<char>, Vec<usize>)) -> (r: (Vec<char>, Vec<usize>))
    ensures
        r.0@ == g.0@,
        r.1@ == g.1@,
{
    let l = slice_chars(&g.0, 0, g.0.len());
    assert(g.0@.subrange(0, g.0.len() as int) == g.0@);
    let mut idx: Vec<usize> = Vec::new();
    let mut i: usize = 0;
    while i < g.1.len()
        invariant
            i <= g.1.len(),
            idx@ == g.1@.take(i as int),
        decreases g.1.len() - i,
    {
        idx.push(g.1[i]);
        assert(g.1@.take(i + 1) == g.1@.take(i as int).push(g.1@[i as int]));
        i = i + 1;
    }
    assert(g.1@.take(g.1.len() as int) == g.1@);
    (l, idx)
}

/// Groups the findings by provenance label, `unattributed` last.
fn grouped(fs: &Vec<Finding>) -> (gs: Vec<(Vec<char>, Vec<usize>)>)
    ensures
        is_grouping(findings_view(fs@), groups_view(gs@, findings_view(fs@))),
        forall|i: int, t: int|
            0 <= i < gs.len() && 0 <= t < gs@[i].1.len() ==> #[trigger] gs@[i].1@[t] < fs.len(),
{
    let ghost fv = findings_view(fs@);
    let g1 = first_appearance(fs);
    let ghost v1 = groups_view(g1@, fv);
    let mut keys: Vec<Vec<char>> = Vec::new();
    let mut k: usize = 0;
    while k < g1.len()
        invariant
            k <= g1.len(),
            keys.len() == k,
            forall|m: int| 0 <= m < k ==> (#[trigger] keys@[m])@ == group_key(g1@[m].0@),
        decreases g1.len() - k,
    {
        let mut key: Vec<char> = Vec::new();
        let un = crate::text::eq_lit(&g1[k].0, "unattributed");
        key.push(if un { 'b' } else { 'a' });
        let mut i: usize = 0;
        while i < g1[k].0.len()
            invariant
                i <= g1@[k as int].0.len(),
                k < g1.len(),
                key@ == seq![if un { 'b' } else { 'a' }] + g1@[k as int].0@.take(i as int),
            decreases g1@[k as int].0.len() - i,
        {
            key.push(g1[k].0[i]);
            assert(g1@[k as int].0@.take(i + 1) == g1@[k as int].0@.take(i as int).push(g1@[k as int].0@[i as int]));
            i = i + 1;
        }
        assert(g1@[k as int].0@.take(g1@[k as int].0.len() as int) == g1@[k as int].0@);
        keys.push(key);
        k = k + 1;
    }
    let order = sort_order(&keys);
    let ghost kv = vv(keys@);
    let mut gs: Vec<(Vec<char>, Vec<usize>)> = Vec::new();
    let mut m: usize = 0;
    while m < order.len()
        invariant
            m <= order.len(),
            order.len() == g1.len(),
            is_perm(order@, keys.len() as nat),
            keys.len() == g1.len(),
            gs.len() == m,
            forall|t: int| 0 <= t < m ==> (#[trigger] gs@[t]).0@ == g1@[order@[t] as int].0@ && gs@[t].1@
                == g1@[order@[t] as int].1@,
        decreases order.len() - m,
    {
        let g = copy_group(&g1[order[m]]);
        gs.push(g);
        m = m + 1;
    }
    proof {
        let v2 = groups_view(gs@, fv);
        assert forall|i: int| 0 <= i < v2.len() implies (#[trigger] v2[i]).1 == members(fv, v2[i].0)
            && v2[i].1.len() > 0 by {
            let o = order@[i] as int;
            assert(v1[o].1 == members(fv, g1@[o].0@));
            assert(v2[i].1 =~= v1[o].1);
        }
        assert forall|j: int| 0 <= j < fv.len() implies has_group(v2, finding_label(#[trigger] fv[j])) by {
            assert(has_group(v1, finding_label(fv[j])));
            let i1 = choose|i: int| 0 <= i < v1.len() && v1[i].0 == finding_label(fv[j]);
            assert(order@.contains(i1 as usize));
            let t = choose|t: int| 0 <= t < order@.len() && order@[t] == i1 as usize;
            assert(v2[t].0 == v1[i1].0);
        }
        assert forall|i: int, j: int| 0 <= i < j < v2.len() implies group_before(
            #[trigger] v2[i].0,
            #[trigger] v2[j].0,
        ) by {
            let oi = order@[i] as int;
            let oj = order@[j] as int;
            assert(kv[oi] == group_key(g1@[oi].0@));
            assert(kv[oj] == group_key(g1@[oj].0@));
            if kv[oi] == kv[oj] {
                assert(kv[oi].drop_first() == g1@[oi].0@);
                assert(kv[oj].drop_first() == g1@[oj].0@);
                assert(oi != oj);
            }
            assert(lex_lt(kv[oi], kv[oj]));
            lemma_group_key(g1@[oi].0@, g1@[oj].0@);
        }
        assert forall|i: int, t: int|
            0 <= i < gs.len() && 0 <= t < gs@[i].1.len() implies #[trigger] gs@[i].1@[t] < fs.len() by {
            let o = order@[i] as int;
            assert(v1[o] == group_view(g1@[o], fv));
            assert(gs@[i].1@[t] == g1@[o].1@[t]);
            assert(g1@[o].1@[t] < fs.len());
        }
    }
    gs
}

// ---------------------------------------------------------------------
// Scan report
// ---------------------------------------------------------------------

/// The column titles of a group's table.
pub open spec fn header_row() -> Seq<Seq<char>> {
    seq!["KIND"@, "FORMAT"@, "ARCH"@, "SIZE"@, "ENTROPY"@, "PATH"@]
}

/// A finding's table row; the path is the one inside the package when
/// known.
pub open spec fn finding_row(f: FindingV) -> Seq<Seq<char>> {
    seq![
        kind_str(f.kind),
        f.format,
        match f.arch {
            Some(a) => a,
            None => "-"@,
        },
        human_size_spec(f.size as nat),
        f.entropy.0,
        match f.inner {
            Some(i) => i,
            None => f.rel,
        },
    ]
}

/// The rows of a group's table: titles, then one row per finding.
pub open spec fn group_rows(ms: Seq<FindingV>) -> Seq<Seq<Seq<char>>> {
    seq![header_row()] + ms.map_values(|f: FindingV| finding_row(f))
}

/// A group's block: `label — N findings`, its table, a blank line.
pub open spec fn group_text(g: (Seq<char>, Seq<FindingV>)) -> Seq<char> {
    g.0 + " — "@ + count_noun_spec(g.1.len(), "finding"@) + "\n"@ + table_spec(group_rows(g.1)) + "\n"@
}

/// The blocks of all groups, in order.
pub open spec fn groups_text(gs: Seq<(Seq<char>, Seq<FindingV>)>) -> Seq<char>
    decreases gs.len(),
{
    if gs.len() == 0 {
        Seq::empty()
    } else {
        groups_text(gs.drop_last()) + group_text(gs.last())
    }
}

/// `warning: …` lines.
pub open spec fn warning_lines(ws: Seq<Seq<char>>) -> Seq<char>
    decreases ws.len(),
{
    if ws.len() == 0 {
        Seq::empty()
    } else {
        warning_lines(ws.drop_last()) + "warning: "@ + ws.last() + "\n"@
    }
}

/// How many groups name a package.
pub open spec fn packages(gs: Seq<(Seq<char>, Seq<FindingV>)>) -> nat
    decreases gs.len(),
{
    if gs.len() == 0 {
        0
    } else {
        packages(gs.drop_last()) + if gs.last().0 != "unattributed"@ {
            1nat
        } else {
            0nat
        }
    }
}

/// The closing summary line.
pub open spec fn summary_line(c: CensusV, gs: Seq<(Seq<char>, Seq<FindingV>)>) -> Seq<char> {
    "summary: "@ + count_noun_spec(c.files_scanned as nat, "file"@) + " scanned · "@ + dec(
        count_kind(c.findings, Kind::Native),
    ) + " native · "@ + count_noun_spec(count_kind(c.findings, Kind::Archive), "archive"@) + " · "@
        + count_noun_spec(count_kind(c.findings, Kind::Opaque), "opaque blob"@) + " · "@
        + count_noun_spec(packages(gs), "package"@) + " affected\n"@
}

/// The scan report for a census whose findings are grouped as `gs`.
pub open spec fn scan_report_text(c: CensusV, gs: Seq<(Seq<char>, Seq<FindingV>)>) -> Seq<char> {
    groups_text(gs) + warning_lines(c.warnings) + (if c.warnings.len() > 0 {
        "\n"@
    } else {
        Seq::empty()
    }) + summary_line(c, gs)
}

fn finding_row_exec(f: &Finding) -> (r: Vec<String>)
    ensures
        strs_view(r@) == finding_row(f@),
{
    let mut r: Vec<String> = Vec::new();
    r.push(String::from_str(f.kind.as_str()));
    r.push(f.format.clone());
    r.push(
        match &f.arch {
            Some(a) => a.clone(),
            None => String::from_str("-"),
        },
    );
    r.push(human_size(f.size));
    r.push(f.entropy.two_places.clone());
    r.push(
        match &f.inner {
            Some(i) => i.clone(),
            None => f.rel.clone(),
        },
    );
    assert(strs_view(r@) =~= finding_row(f@));
    r
}

fn header_row_exec() -> (r: Vec<String>)
    ensures
        strs_view(r@) == header_row(),
{
    let mut r: Vec<String> = Vec::new();
    r.push(String::from_str("KIND"));
    r.push(String::from_str("FORMAT"));
    r.push(String::from_str("ARCH"));
    r.push(String::from_str("SIZE"));
    r.push(String::from_str("ENTROPY"));
    r.push(String::from_str("PATH"));
    assert(strs_view(r@) =~= header_row());
    r
}

fn push_group(out: &mut String, fs: &Vec<Finding>, g: &(Vec<char>, Vec<usize>))
    requires
        forall|t: int| 0 <= t < g.1.len() ==> #[trigger] g.1@[t] < fs.len(),
    ensures
        final(out)@ == old(out)@ + group_text(group_view(*g, findings_view(fs@))),
{
    let ghost fv = findings_view(fs@);
    let ghost ms = group_view(*g, fv).1;
    let ghost start = out@;
    push_chars(out, &g.0);
    push_str(out, " — ");
    let c = count_noun(g.1.len() as u64, "finding");
    push_str(out, c.as_str());
    push_str(out, "\n");
    let mut rows: Vec<Vec<String>> = Vec::new();
    rows.push(header_row_exec());
    let mut t: usize = 0;
    while t < g.1.len()
        invariant
            t <= g.1.len(),
            fv == findings_view(fs@),
            ms == g.1@.map_values(|i: usize| fv[i as int]),
            forall|u: int| 0 <= u < g.1.len() ==> #[trigger] g.1@[u] < fs.len(),
            rows_view(rows@) == group_rows(ms.take(t as int)),
        decreases g.1.len() - t,
    {
        let row = finding_row_exec(&fs[g.1[t]]);
        let ghost before = rows@;
        rows.push(row);
        assert(ms[t as int] == fs@[g.1@[t as int] as int]@);
        assert(rows_view(rows@) =~= rows_view(before).push(finding_row(ms[t as int])));
        assert(ms.take(t + 1) == ms.take(t as int).push(ms[t as int]));
        assert(group_rows(ms.take(t + 1)) =~= group_rows(ms.take(t as int)).push(finding_row(ms[t as int])));
        t = t + 1;
    }
    assert(ms.take(g.1.len() as int) == ms);
    let table = render_table(&rows);
    push_str(out, table.as_str());
    push_str(out, "\n");
    assert(out@ =~= start + group_text(group_view(*g, fv)));
}

fn push_warnings(out: &mut String, ws: &Vec<String>)
    ensures
        final(out)@ == old(out)@ + warning_lines(strs_view(ws@)),
{
    let ghost start = out@;
    let ghost all = strs_view(ws@);
    let mut i: usize = 0;
    while i < ws.len()
        invariant
            i <= ws.len(),
            all == strs_view(ws@),
            out@ == start + warning_lines(all.take(i as int)),
        decreases ws.len() - i,
    {
        let ghost next = all.take(i + 1);
        assert(next.drop_last() == all.take(i as int));
        assert(next.last() == ws@[i as int]@);
        push_str(out, "warning: ");
        push_str(out, ws[i].as_str());
        push_str(out, "\n");
        assert(out@ =~= start + warning_lines(next));
        i = i + 1;
    }
    assert(all.take(ws.len() as int) == all);
}

fn push_summary(out: &mut String, census: &Census, packages_n: u64)
    ensures
        forall|gs: Seq<(Seq<char>, Seq<FindingV>)>| packages(gs) == packages_n ==> final(out)@ == old(out)@
            + summary_line(census@, gs),
{
    let ghost start = out@;
    push_str(out, "summary: ");
    let a = count_noun(census.files_scanned, "file");
    push_str(out, a.as_str());
    push_str(out, " scanned · ");
    let nn = count_of(&census.findings, Kind::Native);
    push_dec(out, nn as u64);
    push_str(out, " native · ");
    let na = count_of(&census.findings, Kind::Archive);
    let b = count_noun(na as u64, "archive");
    push_str(out, b.as_str());
    push_str(out, " · ");
    let no = count_of(&census.findings, Kind::Opaque);
    let c = count_noun(no as u64, "opaque blob");
    push_str(out, c.as_str());
    push_str(out, " · ");
    let d = count_noun(packages_n, "package");
    push_str(out, d.as_str());
    push_str(out, " affected\n");
    assert forall|gs: Seq<(Seq<char>, Seq<FindingV>)>| packages(gs) == packages_n implies out@ == start
        + summary_line(census@, gs) by {
        assert(out@ =~= start + summary_line(census@, gs));
    }
}

/// The full `blobfind scan` report: one block per package (the
/// unattributed findings last), the warnings, and a summary line.
pub fn scan_report(census: &Census) -> (r: String)
    ensures
        exists|gs: Seq<(Seq<char>, Seq<FindingV>)>|
            is_grouping(census@.findings, gs) && r@ == scan_report_text(census@, gs),
{
    let gs = grouped(&census.findings);
    let ghost fv = findings_view(census.findings@);
    let ghost gv = groups_view(gs@, fv);
    let mut out = String::new();
    let mut pk: u64 = 0;
    let mut i: usize = 0;
    while i < gs.len()
        invariant
            i <= gs.len(),
            fv == findings_view(census.findings@),
            gv == groups_view(gs@, fv),
            forall|a: int, t: int|
                0 <= a < gs.len() && 0 <= t < gs@[a].1.len() ==> #[trigger] gs@[a].1@[t] < census.findings.len(),
            out@ == groups_text(gv.take(i as int)),
            pk == packages(gv.take(i as int)),
            pk <= i,
        decreases gs.len() - i,
    {
        assert(gv.take(i + 1).drop_last() == gv.take(i as int));
        assert(gv.take(i + 1).last() == group_view(gs@[i as int], fv));
        push_group(&mut out, &census.findings, &gs[i]);
        if !crate::text::eq_lit(&gs[i].0, "unattributed") {
            pk = pk + 1;
        }
        i = i + 1;
    }
    assert(gv.take(gs.len() as int) == gv);
    push_warnings(&mut out, &census.warnings);
    if census.warnings.len() > 0 {
        push_str(&mut out, "\n");
    }
    let ghost mid = out@;
    push_summary(&mut out, census, pk);
    assert(out@ =~= scan_report_text(census@, gv));
    out
}

// ---------------------------------------------------------------------
// The grouping is unique
// ---------------------------------------------------------------------

proof fn lemma_group_before_irrefl(a: Seq<char>)
    ensures
        !group_before(a, a),
{
    crate::order::lemma_lex_irrefl(a);
}

proof fn lemma_group_before_trans(a: Seq<char>, b: Seq<char>, c: Seq<char>)
    requires
        group_before(a, b),
        group_before(b, c),
    ensures
        group_before(a, c),
{
    let u = "unattributed"@;
    if b == u {
        crate::order::lemma_lex_irrefl(u);
    } else if a != u && c != u {
        crate::order::lemma_lex_trans(a, b, c);
    } else if a == u {
        crate::order::lemma_lex_irrefl(u);
    }
}

/// Strictly increasing in group order.
pub open spec fn strictly_ordered(s: Seq<Seq<char>>) -> bool {
    forall|i: int, j: int| 0 <= i < j < s.len() ==> group_before(#[trigger] s[i], #[trigger] s[j])
}

proof fn lemma_ordered_unique(s1: Seq<Seq<char>>, s2: Seq<Seq<char>>)
    requires
        strictly_ordered(s1),
        strictly_ordered(s2),
        forall|x: Seq<char>| s1.contains(x) <==> s2.contains(x),
    ensures
        s1 == s2,
    decreases s1.len() + s2.len(),
{
    if s1.len() == 0 {
        if s2.len() > 0 {
            assert(s2.contains(s2[0]));
        }
        assert(s2.len() == 0);
    } else if s2.len() == 0 {
        assert(s1.contains(s1[0]));
    } else {
        assert(s1.contains(s1[0]));
        let k = choose|k: int| 0 <= k < s2.len() && s2[k] == s1[0];
        assert(s2.contains(s2[0]));
        let m = choose|m: int| 0 <= m < s1.len() && s1[m] == s2[0];
        if k > 0 {
            assert(group_before(s2[0], s2[k]));
            if m > 0 {
                assert(group_before(s1[0], s1[m]));
                lemma_group_before_trans(s1[0], s2[0], s1[0]);
                lemma_group_before_irrefl(s1[0]);
            } else {
                lemma_group_before_irrefl(s1[0]);
            }
        }
        assert(s1[0] == s2[0]);
        let t1 = s1.drop_first();
        let t2 = s2.drop_first();
        assert forall|x: Seq<char>| t1.contains(x) implies t2.contains(x) by {
            let i = choose|i: int| 0 <= i < t1.len() && t1[i] == x;
            assert(s1.contains(x));
            let j = choose|j: int| 0 <= j < s2.len() && s2[j] == x;
            if j == 0 {
                assert(group_before(s1[0], s1[i + 1]));
                lemma_group_before_irrefl(x);
            }
            assert(t2[j - 1] == x);
        }
        assert forall|x: Seq<char>| t2.contains(x) implies t1.contains(x) by {
            let i = choose|i: int| 0 <= i < t2.len() && t2[i] == x;
            assert(s2.contains(x));
            let j = choose|j: int| 0 <= j < s1.len() && s1[j] == x;
            if j == 0 {
                assert(group_before(s2[0], s2[i + 1]));
                lemma_group_before_irrefl(x);
            }
            assert(t1[j - 1] == x);
        }
        assert forall|i: int, j: int| 0 <= i < j < t1.len() implies group_before(#[trigger] t1[i], #[trigger] t1[j]) by {
            assert(group_before(s1[i + 1], s1[j + 1]));
        }
        assert forall|i: int, j: int| 0 <= i < j < t2.len() implies group_before(#[trigger] t2[i], #[trigger] t2[j]) by {
            assert(group_before(s2[i + 1], s2[j + 1]));
        }
        lemma_ordered_unique(t1, t2);
        assert(s1 == seq![s1[0]] + t1);
        assert(s2 == seq![s2[0]] + t2);
    }
}

proof fn lemma_member_label(fs: Seq<FindingV>, l: Seq<char>)
    requires
        members(fs, l).len() > 0,
    ensures
        exists|j: int| 0 <= j < fs.len() && finding_label(#[trigger] fs[j]) == l,
    decreases fs.len(),
{
    if finding_label(fs.last()) != l {
        lemma_member_label(fs.drop_last(), l);
        let j = choose|j: int| 0 <= j < fs.drop_last().len() && finding_label(#[trigger] fs.drop_last()[j]) == l;
        assert(fs[j] == fs.drop_last()[j]);
    } else {
        assert(finding_label(fs[fs.len() - 1]) == l);
    }
}

/// The labels of a grouping.
pub open spec fn group_labels(gs: Seq<(Seq<char>, Seq<FindingV>)>) -> Seq<Seq<char>> {
    gs.map_values(|g: (Seq<char>, Seq<FindingV>)| g.0)
}

proof fn lemma_labels_of_grouping(fs: Seq<FindingV>, gs: Seq<(Seq<char>, Seq<FindingV>)>)
    requires
        is_grouping(fs, gs),
    ensures
        strictly_ordered(group_labels(gs)),
        forall|x: Seq<char>|
            group_labels(gs).contains(x) <==> exists|j: int|
                0 <= j < fs.len() && finding_label(#[trigger] fs[j]) == x,
{
    let ls = group_labels(gs);
    assert forall|i: int, j: int| 0 <= i < j < ls.len() implies group_before(#[trigger] ls[i], #[trigger] ls[j]) by {
        assert(group_before(gs[i].0, gs[j].0));
    }
    assert forall|x: Seq<char>| ls.contains(x) implies exists|j: int|
        0 <= j < fs.len() && finding_label(#[trigger] fs[j]) == x by {
        let i = choose|i: int| 0 <= i < ls.len() && ls[i] == x;
        assert(gs[i].1 == members(fs, gs[i].0) && gs[i].1.len() > 0);
        lemma_member_label(fs, x);
    }
    assert forall|x: Seq<char>| (exists|j: int| 0 <= j < fs.len() && finding_label(#[trigger] fs[j]) == x)
        implies ls.contains(x) by {
        let j = choose|j: int| 0 <= j < fs.len() && finding_label(#[trigger] fs[j]) == x;
        assert(has_group(gs, finding_label(fs[j])));
        let i = choose|i: int| 0 <= i < gs.len() && gs[i].0 == x;
        assert(ls[i] == x);
    }
}

/// A census's findings have exactly one grouping, so the scan report is
/// determined by the census.
pub proof fn law_grouping_is_unique(
    fs: Seq<FindingV>,
    g1: Seq<(Seq<char>, Seq<FindingV>)>,
    g2: Seq<(Seq<char>, Seq<FindingV>)>,
)
    requires
        is_grouping(fs, g1),
        is_grouping(fs, g2),
    ensures
        g1 == g2,
{
    lemma_labels_of_grouping(fs, g1);
    lemma_labels_of_grouping(fs, g2);
    lemma_ordered_unique(group_labels(g1), group_labels(g2));
    assert(g1.len() == group_labels(g1).len());
    assert forall|i: int| 0 <= i < g1.len() implies g1[i] == g2[i] by {
        assert(group_labels(g1)[i] == group_labels(g2)[i]);
        assert(g1[i].1 == members(fs, g1[i].0));
        assert(g2[i].1 == members(fs, g2[i].0));
    }
    assert(g1 =~= g2);
}

// ---------------------------------------------------------------------
// Laws on the diff report
// ---------------------------------------------------------------------

proof fn lemma_added_text_first(s: Seq<EntryV>)
    ensures
        s.len() == 0 ==> added_text(s).len() == 0,
        s.len() > 0 ==> added_text(s).len() > 0 && added_text(s)[0] == '+',
    decreases s.len(),
{
    reveal_strlit("+ added    ");
    if s.len() > 0 {
        lemma_added_text_first(s.drop_last());
        let line = added_line(s.last());
        assert(line[0] == '+');
    }
}

proof fn lemma_removed_text_first(s: Seq<EntryV>)
    ensures
        s.len() == 0 ==> removed_text(s).len() == 0,
        s.len() > 0 ==> removed_text(s).len() > 0 && removed_text(s)[0] == '-',
    decreases s.len(),
{
    reveal_strlit("- removed  ");
    if s.len() > 0 {
        lemma_removed_text_first(s.drop_last());
        let line = removed_line(s.last());
        assert(line[0] == '-');
    }
}

proof fn lemma_changed_text_first(s: Seq<(EntryV, EntryV)>)
    ensures
        s.len() == 0 ==> changed_text(s).len() == 0,
        s.len() > 0 ==> changed_text(s).len() > 0 && changed_text(s)[0] == '~',
    decreases s.len(),
{
    reveal_strlit("~ changed  ");
    if s.len() > 0 {
        lemma_changed_text_first(s.drop_last());
        let line = changed_line(s.last().0, s.last().1);
        assert(line[0] == '~');
    }
}

proof fn lemma_removed_text_holds(s: Seq<EntryV>, i: int)
    requires
        0 <= i < s.len(),
    ensures
        exists|pre: Seq<char>, post: Seq<char>| removed_text(s) == pre + removed_line(s[i]) + post,
    decreases s.len(),
{
    if i == s.len() - 1 {
        let pre = removed_text(s.drop_last());
        assert(removed_text(s) == pre + removed_line(s[i]) + Seq::<char>::empty());
    } else {
        lemma_removed_text_holds(s.drop_last(), i);
        let (pre, post) = choose|pre: Seq<char>, post: Seq<char>|
            removed_text(s.drop_last()) == pre + removed_line(s.drop_last()[i]) + post;
        assert(s.drop_last()[i] == s[i]);
        let post2 = post + removed_line(s.last());
        assert(removed_text(s) == pre + removed_line(s[i]) + post2);
    }
}

proof fn lemma_report_clean(d: DriftV, baseline_len: nat)
    requires
        d.added.len() == 0 && d.removed.len() == 0 && d.changed.len() == 0,
    ensures
        diff_report_spec(d, baseline_len).len() >= 11,
        diff_report_spec(d, baseline_len).take(11) == "baseline OK"@,
{
    reveal_strlit("baseline OK");
    reveal_strlit("baseline OK — ");
    let rest = count_noun_spec(baseline_len, "blob"@) + ", no drift\n"@;
    let text = diff_report_spec(d, baseline_len);
    assert(text == "baseline OK — "@ + rest);
    assert(text.take(11) =~= "baseline OK"@);
}

proof fn lemma_report_dirty(d: DriftV, baseline_len: nat)
    requires
        !(d.added.len() == 0 && d.removed.len() == 0 && d.changed.len() == 0),
    ensures
        diff_report_spec(d, baseline_len) == added_text(d.added) + removed_text(d.removed)
            + changed_text(d.changed) + drift_summary(d, baseline_len),
        diff_report_spec(d, baseline_len).len() > 0,
        diff_report_spec(d, baseline_len)[0] != 'b',
{
    let a = added_text(d.added);
    let r = removed_text(d.removed);
    let c = changed_text(d.changed);
    let t = drift_summary(d, baseline_len);
    lemma_added_text_first(d.added);
    lemma_removed_text_first(d.removed);
    lemma_changed_text_first(d.changed);
    let text = a + r + c + t;
    if d.added.len() > 0 {
        assert(text[0] == a[0]);
    } else if d.removed.len() > 0 {
        assert(text =~= r + (c + t));
        assert(text[0] == r[0]);
    } else {
        assert(text =~= c + t);
        assert(text[0] == c[0]);
    }
}

/// `piece` occurs in `text`.
pub open spec fn has_piece(text: Seq<char>, piece: Seq<char>) -> bool {
    exists|pre: Seq<char>, post: Seq<char>| text == pre + piece + post
}

proof fn lemma_report_has_removed(d: DriftV, baseline_len: nat, i: int)
    requires
        0 <= i < d.removed.len(),
    ensures
        has_piece(diff_report_spec(d, baseline_len), removed_line(d.removed[i])),
{
    lemma_report_dirty(d, baseline_len);
    let a = added_text(d.added);
    let r = removed_text(d.removed);
    let c = changed_text(d.changed);
    let t = drift_summary(d, baseline_len);
    lemma_removed_text_holds(d.removed, i);
    let (pre, post) = choose|pre: Seq<char>, post: Seq<char>|
        r == pre + removed_line(d.removed[i]) + post;
    assert(a + r + c + t =~= (a + pre) + removed_line(d.removed[i]) + (post + c + t));
    assert(diff_report_spec(d, baseline_len) == (a + pre) + removed_line(d.removed[i]) + (post + c + t));
}

proof fn lemma_report_opening(d: DriftV, baseline_len: nat)
    ensures
        ({
            let text = diff_report_spec(d, baseline_len);
            (text.len() >= 11 && text.take(11) == "baseline OK"@) <==> (d.added.len() == 0
                && d.removed.len() == 0 && d.changed.len() == 0)
        }),
{
    reveal_strlit("baseline OK");
    let text = diff_report_spec(d, baseline_len);
    if d.added.len() == 0 && d.removed.len() == 0 && d.changed.len() == 0 {
        lemma_report_clean(d, baseline_len);
    } else {
        lemma_report_dirty(d, baseline_len);
        if text.len() >= 11 && text.take(11) == "baseline OK"@ {
            assert(text.take(11)[0] == text[0]);
            assert("baseline OK"@[0] == 'b');
        }
    }
}

/// The diff report says `baseline OK` exactly when nothing was added,
/// removed or changed; otherwise it opens with the first drift line, and
/// every removed entry has its `- removed` line in it.
pub proof fn law_diff_report_ok_exactly_when_clean(d: DriftV, baseline_len: nat)
    ensures
        ({
            let text = diff_report_spec(d, baseline_len);
            &&& (text.len() >= 11 && text.take(11) == "baseline OK"@) <==> (d.added.len() == 0
                && d.removed.len() == 0 && d.changed.len() == 0)
            &&& forall|i: int|
                0 <= i < d.removed.len() ==> has_piece(text, removed_line(#[trigger] d.removed[i]))
        }),
{
    lemma_report_opening(d, baseline_len);
    assert forall|i: int| 0 <= i < d.removed.len() implies has_piece(
        diff_report_spec(d, baseline_len),
        removed_line(#[trigger] d.removed[i]),
    ) by {
        lemma_report_has_removed(d, baseline_len, i);
    }
}

} // verus!
