//! JSON emission for `--json` output: string escaping and the document
//! layout. Only emission; nothing here reads JSON back.

use vstd::prelude::*;
use crate::text::{chars_of, dec, hex4, push_char, push_dec, push_hex4, push_str};
use crate::inventory::{findings_view, kind_str, Census, CensusV, Finding, FindingV, Kind};
use crate::provenance::strs_view;

verus! {

/// The escaped form of one character, per RFC 8259.
pub open spec fn escape_char(c: char) -> Seq<char> {
    if c == '"' {
        "\\\""@
    } else if c == '\\' {
        "\\\\"@
    } else if c == '\n' {
        "\\n"@
    } else if c == '\r' {
        "\\r"@
    } else if c == '\t' {
        "\\t"@
    } else if (c as u32) < 0x20 {
        "\\u"@ + hex4(c as nat)
    } else {
        seq![c]
    }
}

/// Every character of `s` escaped, in order.
pub open spec fn escape_spec(s: Seq<char>) -> Seq<char>
    decreases s.len(),
{
    if s.len() == 0 {
        Seq::<char>::empty()
    } else {
        escape_spec(s.drop_last()) + escape_char(s.last())
    }
}

/// Appends the escaped form of `c`.
fn push_escaped(out: &mut String, c: char)
    ensures
        final(out)@ == old(out)@ + escape_char(c),
{
    let ghost before = out@;
    if c == '"' {
        push_str(out, "\\\"");
    } else if c == '\\' {
        push_str(out, "\\\\");
    } else if c == '\n' {
        push_str(out, "\\n");
    } else if c == '\r' {
        push_str(out, "\\r");
    } else if c == '\t' {
        push_str(out, "\\t");
    } else if (c as u32) < 0x20 {
        push_str(out, "\\u");
        push_hex4(out, c as u32);
        assert(out@ == before + ("\\u"@ + hex4(c as nat)));
    } else {
        push_char(out, c);
        assert(out@ == before + seq![c]);
    }
}

/// Escape a string per RFC 8259.
pub fn escape(s: &str) -> (r: String)
    ensures
        r@ == escape_spec(s@),
{
    let v = chars_of(s);
    let mut out = String::new();
    let mut i: usize = 0;
    while i < v.len()
        invariant
            0 <= i <= v.len(),
            out@ == escape_spec(v@.take(i as int)),
        decreases v.len() - i,
    {
        let c = v[i];
        proof {
            let t = v@.take(i + 1);
            assert(t.drop_last() == v@.take(i as int));
            assert(t.last() == c);
        }
        push_escaped(&mut out, c);
        i = i + 1;
    }
    assert(v@.take(v.len() as int) == v@);
    out
}

/// A JSON string literal: `s` escaped, between double quotes.
pub open spec fn string_spec(s: Seq<char>) -> Seq<char> {
    "\""@ + escape_spec(s) + "\""@
}

/// `null`, or the JSON string for the value.
pub open spec fn opt_string_spec(s: Option<Seq<char>>) -> Seq<char> {
    match s {
        Some(v) => string_spec(v),
        None => "null"@,
    }
}

/// Appends `s` as a JSON string literal.
pub fn push_string(out: &mut String, s: &str)
    ensures
        final(out)@ == old(out)@ + string_spec(s@),
{
    let ghost start = out@;
    push_str(out, "\"");
    let e = escape(s);
    push_str(out, e.as_str());
    push_str(out, "\"");
    assert(out@ == start + string_spec(s@));
}

/// Appends `null`, or `s` as a JSON string literal.
pub fn push_opt_string(out: &mut String, s: &Option<String>)
    ensures
        final(out)@ == old(out)@ + opt_string_spec(match s {
            Some(v) => Some(v@),
            None => None,
        }),
{
    match s {
        Some(v) => push_string(out, v.as_str()),
        None => push_str(out, "null"),
    }
}

// ---------------------------------------------------------------------
// Documents
// ---------------------------------------------------------------------

/// The items joined with `sep` between them.
pub open spec fn join(items: Seq<Seq<char>>, sep: Seq<char>) -> Seq<char>
    decreases items.len(),
{
    if items.len() == 0 {
        Seq::empty()
    } else if items.len() == 1 {
        items[0]
    } else {
        join(items.drop_last(), sep) + sep + items.last()
    }
}

/// Each string as a JSON string literal.
pub open spec fn strings(items: Seq<Seq<char>>) -> Seq<Seq<char>> {
    items.map_values(|s: Seq<char>| string_spec(s))
}

/// Appends the items joined with `sep`, each item rendered by `string_spec`.
fn push_string_list(out: &mut String, items: &Vec<String>, sep: &str)
    ensures
        final(out)@ == old(out)@ + join(strings(strs_view(items@)), sep@),
{
    let ghost start = out@;
    let ghost all = strings(strs_view(items@));
    let mut i: usize = 0;
    while i < items.len()
        invariant
            i <= items.len(),
            all == strings(strs_view(items@)),
            out@ == start + join(all.take(i as int), sep@),
        decreases items.len() - i,
    {
        let ghost pre = all.take(i as int);
        let ghost next = all.take(i + 1);
        assert(next.drop_last() == pre);
        assert(next.last() == string_spec(items@[i as int]@));
        if i > 0 {
            push_str(out, sep);
        }
        push_string(out, items[i].as_str());
        assert(out@ =~= start + join(next, sep@));
        i = i + 1;
    }
    assert(all.take(items.len() as int) == all);
}

/// One `"name": value,` line of an object, after `indent`.
pub open spec fn field_line(indent: Seq<char>, name: Seq<char>, value: Seq<char>) -> Seq<char> {
    indent + "  \""@ + name + "\": "@ + value + ",\n"@
}

/// The opening brace and the fields up to the size.
pub open spec fn finding_json_head(f: FindingV, indent: Seq<char>) -> Seq<char> {
    indent + "{\n"@ + field_line(indent, "path"@, string_spec(f.rel)) + field_line(
        indent,
        "kind"@,
        string_spec(kind_str(f.kind)),
    ) + field_line(indent, "format"@, string_spec(f.format)) + field_line(
        indent,
        "arch"@,
        opt_string_spec(f.arch),
    ) + field_line(indent, "size"@, dec(f.size as nat))
}

/// The fields from the entropy to the inner path.
pub open spec fn finding_json_mid(f: FindingV, indent: Seq<char>) -> Seq<char> {
    field_line(indent, "entropy"@, f.entropy.1) + field_line(indent, "sha256"@, string_spec(f.sha256))
        + field_line(indent, "ecosystem"@, opt_string_spec(f.provenance.ecosystem)) + field_line(
        indent,
        "package"@,
        opt_string_spec(f.provenance.package),
    ) + field_line(indent, "version"@, opt_string_spec(f.provenance.version)) + field_line(
        indent,
        "inner_path"@,
        opt_string_spec(f.inner),
    )
}

/// The hints and the closing brace.
pub open spec fn finding_json_tail(f: FindingV, indent: Seq<char>) -> Seq<char> {
    indent + "  \"hints\": ["@ + join(strings(f.hints), ", "@) + "]\n"@ + indent + "}"@
}

/// The JSON object for one finding, each line after `indent`.
#[verifier::opaque]
pub open spec fn finding_json_spec(f: FindingV, indent: Seq<char>) -> Seq<char> {
    finding_json_head(f, indent) + finding_json_mid(f, indent) + finding_json_tail(f, indent)
}

fn push_field(out: &mut String, indent: &str, name: &str, value: &str)
    ensures
        final(out)@ == old(out)@ + field_line(indent@, name@, value@),
{
    let ghost start = out@;
    push_str(out, indent);
    push_str(out, "  \"");
    push_str(out, name);
    push_str(out, "\": ");
    push_str(out, value);
    push_str(out, ",\n");
    assert(out@ =~= start + field_line(indent@, name@, value@));
}

/// A JSON string literal for `s`.
fn json_string(s: &str) -> (r: String)
    ensures
        r@ == string_spec(s@),
{
    let mut out = String::new();
    push_string(&mut out, s);
    assert(out@ =~= string_spec(s@));
    out
}

/// `null` or a JSON string literal.
fn json_opt_string(s: &Option<String>) -> (r: String)
    ensures
        r@ == opt_string_spec(
            match s {
                Some(v) => Some(v@),
                None => None,
            },
        ),
{
    let mut out = String::new();
    push_opt_string(&mut out, s);
    assert(out@ =~= opt_string_spec(
        match s {
            Some(v) => Some(v@),
            None => None,
        },
    ));
    out
}

fn json_dec(n: u64) -> (r: String)
    ensures
        r@ == dec(n as nat),
{
    let mut out = String::new();
    push_dec(&mut out, n);
    assert(out@ =~= dec(n as nat));
    out
}

fn push_finding_head(out: &mut String, f: &Finding, indent: &str)
    ensures
        final(out)@ == old(out)@ + finding_json_head(f@, indent@),
{
    let ghost start = out@;
    push_str(out, indent);
    push_str(out, "{\n");
    push_field(out, indent, "path", json_string(f.rel.as_str()).as_str());
    push_field(out, indent, "kind", json_string(f.kind.as_str()).as_str());
    push_field(out, indent, "format", json_string(f.format.as_str()).as_str());
    push_field(out, indent, "arch", json_opt_string(&f.arch).as_str());
    push_field(out, indent, "size", json_dec(f.size).as_str());
    assert(out@ =~= start + finding_json_head(f@, indent@));
}

fn push_finding_mid(out: &mut String, f: &Finding, indent: &str)
    ensures
        final(out)@ == old(out)@ + finding_json_mid(f@, indent@),
{
    let ghost start = out@;
    push_field(out, indent, "entropy", f.entropy.four_places.as_str());
    push_field(out, indent, "sha256", json_string(f.sha256.as_str()).as_str());
    let eco = match f.provenance.ecosystem {
        Some(e) => json_string(e),
        None => String::from_str("null"),
    };
    push_field(out, indent, "ecosystem", eco.as_str());
    push_field(out, indent, "package", json_opt_string(&f.provenance.package).as_str());
    push_field(out, indent, "version", json_opt_string(&f.provenance.version).as_str());
    push_field(out, indent, "inner_path", json_opt_string(&f.inner).as_str());
    assert(out@ =~= start + finding_json_mid(f@, indent@));
}

fn push_finding_tail(out: &mut String, f: &Finding, indent: &str)
    ensures
        final(out)@ == old(out)@ + finding_json_tail(f@, indent@),
{
    let ghost start = out@;
    push_str(out, indent);
    push_str(out, "  \"hints\": [");
    push_string_list(out, &f.hints, ", ");
    push_str(out, "]\n");
    push_str(out, indent);
    push_str(out, "}");
    assert(out@ =~= start + finding_json_tail(f@, indent@));
}

fn push_finding_json(out: &mut String, f: &Finding, indent: &str)
    ensures
        final(out)@ == old(out)@ + finding_json_spec(f@, indent@),
{
    let ghost start = out@;
    push_finding_head(out, f, indent);
    push_finding_mid(out, f, indent);
    push_finding_tail(out, f, indent);
    proof {
        reveal(finding_json_spec);
    }
    assert(out@ =~= start + finding_json_spec(f@, indent@));
}

/// How many findings are of `kind`.
pub open spec fn count_kind(fs: Seq<FindingV>, kind: Kind) -> nat
    decreases fs.len(),
{
    if fs.len() == 0 {
        0
    } else {
        count_kind(fs.drop_last(), kind) + if fs.last().kind == kind {
            1nat
        } else {
            0nat
        }
    }
}

/// How many findings are of `kind`.
pub fn count_of(fs: &Vec<Finding>, kind: Kind) -> (n: usize)
    ensures
        n == count_kind(findings_view(fs@), kind),
{
    let ghost fv = findings_view(fs@);
    let mut n: usize = 0;
    let mut i: usize = 0;
    while i < fs.len()
        invariant
            i <= fs.len(),
            fv == findings_view(fs@),
            n == count_kind(fv.take(i as int), kind),
            n <= i,
        decreases fs.len() - i,
    {
        assert(fv.take(i + 1).drop_last() == fv.take(i as int));
        if fs[i].kind == kind {
            n = n + 1;
        }
        i = i + 1;
    }
    assert(fv.take(fs.len() as int) == fv);
    n
}

/// The JSON objects of the findings, four spaces in.
pub open spec fn findings_json(fs: Seq<FindingV>) -> Seq<Seq<char>> {
    fs.map_values(|f: FindingV| finding_json_spec(f, "    "@))
}

/// The full `blobfind scan --json` document; `version` is the tool's.
pub open spec fn census_json_spec(c: CensusV, version: Seq<char>) -> Seq<char> {
    "{\n  \"blobfind\": "@ + string_spec(version) + ",\n  \"root\": "@ + string_spec(c.root)
        + ",\n  \"files_scanned\": "@ + dec(c.files_scanned as nat)
        + ",\n  \"summary\": { \"native\": "@ + dec(count_kind(c.findings, Kind::Native))
        + ", \"archive\": "@ + dec(count_kind(c.findings, Kind::Archive)) + ", \"opaque\": "@ + dec(
        count_kind(c.findings, Kind::Opaque),
    ) + " },\n  \"findings\": [\n"@ + join(findings_json(c.findings), ",\n"@)
        + "\n  ],\n  \"warnings\": ["@ + join(strings(c.warnings), ", "@) + "]\n}\n"@
}

/// The full `blobfind scan --json` document.
pub fn census_json(census: &Census, version: &str) -> (r: String)
    ensures
        r@ == census_json_spec(census@, version@),
{
    let mut out = String::new();
    push_str(&mut out, "{\n  \"blobfind\": ");
    push_string(&mut out, version);
    push_str(&mut out, ",\n  \"root\": ");
    push_string(&mut out, census.root.as_str());
    push_str(&mut out, ",\n  \"files_scanned\": ");
    push_dec(&mut out, census.files_scanned);
    push_str(&mut out, ",\n  \"summary\": { \"native\": ");
    let nn = count_of(&census.findings, Kind::Native);
    push_dec(&mut out, nn as u64);
    push_str(&mut out, ", \"archive\": ");
    let na = count_of(&census.findings, Kind::Archive);
    push_dec(&mut out, na as u64);
    push_str(&mut out, ", \"opaque\": ");
    let no = count_of(&census.findings, Kind::Opaque);
    push_dec(&mut out, no as u64);
    push_str(&mut out, " },\n  \"findings\": [\n");
    let ghost start = out@;
    let ghost all = findings_json(census@.findings);
    let mut i: usize = 0;
    while i < census.findings.len()
        invariant
            i <= census.findings.len(),
            all == findings_json(census@.findings),
            out@ == start + join(all.take(i as int), ",\n"@),
        decreases census.findings.len() - i,
    {
        let ghost pre = all.take(i as int);
        let ghost next = all.take(i + 1);
        assert(next.drop_last() == pre);
        assert(next.last() == finding_json_spec(census.findings@[i as int]@, "    "@));
        if i > 0 {
            push_str(&mut out, ",\n");
        }
        push_finding_json(&mut out, &census.findings[i], "    ");
        assert(out@ =~= start + join(next, ",\n"@));
        i = i + 1;
    }
    assert(all.take(census.findings.len() as int) == all);
    push_str(&mut out, "\n  ],\n  \"warnings\": [");
    push_string_list(&mut out, &census.warnings, ", ");
    push_str(&mut out, "]\n}\n");
    out
}

/// Single finding document for `blobfind explain --json`.
pub fn finding_doc(f: &Finding) -> (r: String)
    ensures
        r@ == finding_json_spec(f@, ""@) + "\n"@,
{
    let mut out = String::new();
    push_finding_json(&mut out, f, "");
    push_str(&mut out, "\n");
    assert(out@ =~= finding_json_spec(f@, ""@) + "\n"@);
    out
}

} // verus!
