//! Small shared helpers: human-readable sizes, size parsing for flags,
//! plural nouns, and slash-normalized relative paths so reports and lock
//! files are identical across platforms.

use vstd::prelude::*;
use vstd::string::StringExecFns;
use crate::text::{
    chars_of, dec, is_digit, push_char, push_chars, push_dec, push_str, skip_ws, to_upper, trim,
    trim_end_index, upper,
};


use crate::paths::{extension_chars, extension_spec, rel_slash_chars, rel_slash_spec};

verus! {

// ---------------------------------------------------------------------
// Sizes
// ---------------------------------------------------------------------

/// 2^53: integers below it convert to `f64` exactly.
pub open spec fn two53() -> nat {
    0x20_0000_0000_0000
}

/// 2^k.
pub open spec fn p2(k: nat) -> nat
    decreases k,
{
    if k == 0 {
        1
    } else {
        2 * p2((k - 1) as nat)
    }
}

/// How many low bits are dropped when `b` (below 2^64) becomes an `f64`.
pub open spec fn drop_bits(b: nat, k: nat) -> nat
    decreases 11 - k,
{
    if k >= 11 || b / p2(k) < two53() {
        k
    } else {
        drop_bits(b, k + 1)
    }
}

/// `num / den` rounded to the nearest integer, ties to even.
pub open spec fn round_half_even(num: nat, den: nat) -> nat {
    let q = num / den;
    let r = num % den;
    if 2 * r > den || (2 * r == den && q % 2 == 1) {
        q + 1
    } else {
        q
    }
}

/// The value of `b as f64` for a `u64` `b`: round to a 53-bit significand,
/// ties to even.
pub open spec fn as_f64(b: nat) -> nat {
    let p = p2(drop_bits(b, 0));
    round_half_even(b, p) * p
}

/// `{value:.0}{suffix}` / `{value:.1}{suffix}` of `value = f / unit`.
pub open spec fn scaled(f: nat, unit: nat, suffix: char) -> Seq<char> {
    if f >= 10 * unit {
        dec(round_half_even(f, unit)).push(suffix)
    } else {
        let tenths = round_half_even(10 * f, unit);
        (dec(tenths / 10).push('.') + dec(tenths % 10)).push(suffix)
    }
}

/// `ls -lh` style size: the first binary unit (G, M, K) not larger than
/// `bytes`, printed with one decimal below ten units and none above; plain
/// bytes below 1 KiB.
pub open spec fn human_size_spec(bytes: nat) -> Seq<char> {
    if bytes >= 0x4000_0000 {
        scaled(as_f64(bytes), 0x4000_0000, 'G')
    } else if bytes >= 0x10_0000 {
        scaled(as_f64(bytes), 0x10_0000, 'M')
    } else if bytes >= 0x400 {
        scaled(as_f64(bytes), 0x400, 'K')
    } else {
        dec(bytes).push('B')
    }
}

proof fn lemma_p2_values()
    ensures
        p2(0) == 1,
        p2(1) == 2,
        p2(2) == 4,
        p2(3) == 8,
        p2(4) == 16,
        p2(5) == 32,
        p2(6) == 64,
        p2(7) == 128,
        p2(8) == 256,
        p2(9) == 512,
        p2(10) == 1024,
        p2(11) == 2048,
{
    reveal_with_fuel(p2, 12);
}

fn round_half_even_exec(num: u128, den: u128) -> (r: u128)
    requires
        den > 0,
        den <= 0x1_0000_0000_0000_0000,
        num < 0x1_0000_0000_0000_0000_0000,
    ensures
        r == round_half_even(num as nat, den as nat),
{
    let q = num / den;
    let r = num % den;
    if 2 * r > den || (2 * r == den && q % 2 == 1) {
        q + 1
    } else {
        q
    }
}

/// The exact value of `bytes as f64`.
fn as_f64_exec(bytes: u64) -> (f: u128)
    ensures
        f == as_f64(bytes as nat),
        f <= 0x1_0000_0000_0000_0000,
{
    proof {
        lemma_p2_values();
    }
    let mut k: u32 = 0;
    let mut p: u64 = 1;
    while k < 11 && bytes / p >= 0x20_0000_0000_0000
        invariant
            k <= 11,
            0 < p <= 2048,
            p as nat == p2(k as nat),
            drop_bits(bytes as nat, 0) == drop_bits(bytes as nat, k as nat),
        decreases 11 - k,
    {
        proof {
            lemma_p2_values();
        }
        p = p * 2;
        k = k + 1;
    }
    assert(drop_bits(bytes as nat, k as nat) == k);
    let q = round_half_even_exec(bytes as u128, p as u128);
    proof {
        let qq = round_half_even(bytes as nat, p as nat);
        assert(qq <= bytes as nat / p as nat + 1);
        assert(bytes as nat / p as nat * (p as nat) <= bytes as nat) by (nonlinear_arith)
            requires p > 0;
        assert((bytes as nat / p as nat + 1) * (p as nat) <= bytes as nat + p) by (nonlinear_arith)
            requires p > 0, bytes as nat / p as nat * (p as nat) <= bytes as nat;
        assert(p < 2048 || bytes as nat / (p as nat) <= bytes as nat / 2048) by (nonlinear_arith)
            requires p <= 2048;
        assert((bytes as nat / (p as nat)) < two53());
        assert(qq <= two53());
        assert(qq * (p as nat) <= two53() * 2048) by (nonlinear_arith)
            requires qq <= two53(), p <= 2048;
    }
    q * (p as u128)
}

/// Appends `scaled(f, unit, suffix)`.
fn push_scaled(s: &mut String, f: u128, unit: u64, suffix: char)
    requires
        unit == 0x400 || unit == 0x10_0000 || unit == 0x4000_0000,
        f <= 0x1_0000_0000_0000_0000,
    ensures
        final(s)@ == old(s)@ + scaled(f as nat, unit as nat, suffix),
{
    let u = unit as u128;
    if f >= 10 * u {
        let n = round_half_even_exec(f, u);
        assert(n <= f / u + 1);
        assert(f / u <= f) by (nonlinear_arith) requires u > 0;
        push_dec(s, n as u64);
        push_char(s, suffix);
    } else {
        let tenths = round_half_even_exec(10 * f, u);
        assert(tenths as nat <= (10 * f) as nat / u as nat + 1);
        assert((10 * f) as nat / u as nat <= (10 * f) as nat) by (nonlinear_arith) requires u > 0;
        push_dec(s, (tenths / 10) as u64);
        push_char(s, '.');
        push_dec(s, (tenths % 10) as u64);
        push_char(s, suffix);
        assert(final(s)@ == old(s)@ + scaled(f as nat, unit as nat, suffix)) by {
            assert(final(s)@ =~= old(s)@ + (dec(tenths as nat / 10).push('.') + dec(tenths as nat % 10)).push(suffix));
        }
    }
}

/// Format a byte count the way `ls -lh` would: `973B`, `4.0K`, `5.2M`, `1.1G`.
pub fn human_size(bytes: u64) -> (r: String)
    ensures
        r@ == human_size_spec(bytes as nat),
{
    let mut s = String::new();
    if bytes >= 0x4000_0000 {
        let f = as_f64_exec(bytes);
        push_scaled(&mut s, f, 0x4000_0000, 'G');
    } else if bytes >= 0x10_0000 {
        let f = as_f64_exec(bytes);
        push_scaled(&mut s, f, 0x10_0000, 'M');
    } else if bytes >= 0x400 {
        let f = as_f64_exec(bytes);
        push_scaled(&mut s, f, 0x400, 'K');
    } else {
        push_dec(&mut s, bytes);
        push_char(&mut s, 'B');
    }
    s
}


// ---------------------------------------------------------------------
// Parsing sizes
// ---------------------------------------------------------------------

/// Every character is an ASCII digit.
pub open spec fn all_digits(d: Seq<char>) -> bool {
    forall|i: int| 0 <= i < d.len() ==> is_digit(#[trigger] d[i])
}

/// The number an all-digit string denotes.
pub open spec fn digits_value(d: Seq<char>) -> nat
    decreases d.len(),
{
    if d.len() == 0 {
        0
    } else {
        digits_value(d.drop_last()) * 10 + ((d.last() as nat) - 48) as nat
    }
}

/// `u64::from_str`: an optional `+`, then at least one digit, and a value
/// that fits.
pub open spec fn parse_u64_spec(d: Seq<char>) -> Option<u64> {
    let body = if d.len() > 0 && d[0] == '+' {
        d.drop_first()
    } else {
        d
    };
    if body.len() > 0 && all_digits(body) && digits_value(body) <= u64::MAX {
        Some(digits_value(body) as u64)
    } else {
        None
    }
}

/// Decimal `u64` held in `d[from..to]`, as `u64::from_str` reads it.
pub fn parse_u64(d: &[char], from: usize, to: usize) -> (r: Option<u64>)
    requires
        from <= to <= d.len(),
    ensures
        r == parse_u64_spec(d@.subrange(from as int, to as int)),
{
    let ghost whole = d@.subrange(from as int, to as int);
    let mut i = from;
    if i < to && d[i] == '+' {
        i = i + 1;
    }
    let ghost body = if whole.len() > 0 && whole[0] == '+' {
        whole.drop_first()
    } else {
        whole
    };
    assert(body == d@.subrange(i as int, to as int));
    if i == to {
        return None;
    }
    let start = i;
    let mut acc: u64 = 0;
    let mut over = false;
    while i < to
        invariant
            from <= start <= i <= to <= d.len(),
            whole == d@.subrange(from as int, to as int),
            body == (if whole.len() > 0 && whole[0] == '+' { whole.drop_first() } else { whole }),
            body.len() > 0,
            body == d@.subrange(start as int, to as int),
            all_digits(d@.subrange(start as int, i as int)),
            !over ==> acc as nat == digits_value(d@.subrange(start as int, i as int)),
            over ==> digits_value(d@.subrange(start as int, i as int)) > u64::MAX,
        decreases to - i,
    {
        let c = d[i];
        let ghost pre = d@.subrange(start as int, i as int);
        let ghost next = d@.subrange(start as int, i + 1);
        assert(next.drop_last() == pre);
        assert(next.last() == c);
        if !('0' <= c && c <= '9') {
            assert(!all_digits(body)) by {
                assert(body[i - start] == c);
                assert(!is_digit(body[i - start]));
            }
            return None;
        }
        let v: u64 = (c as u64) - 48;
        if !over {
            if acc > (u64::MAX - v) / 10 {
                assert(acc * 10 + v > u64::MAX) by (nonlinear_arith)
                    requires acc > (u64::MAX - v) / 10, v < 10;
                over = true;
            } else {
                assert(acc * 10 + v <= u64::MAX) by (nonlinear_arith)
                    requires acc <= (u64::MAX - v) / 10, v < 10;
                acc = acc * 10 + v;
            }
        }
        assert(all_digits(next)) by {
            assert forall|j: int| 0 <= j < next.len() implies is_digit(#[trigger] next[j]) by {
                if j < pre.len() {
                    assert(next[j] == pre[j]);
                }
            }
        }
        i = i + 1;
    }
    assert(d@.subrange(start as int, i as int) == body);
    if over {
        None
    } else {
        Some(acc)
    }
}

/// Error-or-value view of a `Result<u64, String>`.
pub open spec fn size_result(r: Result<u64, String>) -> Result<u64, Seq<char>> {
    match r {
        Ok(n) => Ok(n),
        Err(e) => Err(e@),
    }
}

/// What `parse_size` answers for a flag value: trimmed, then a plain
/// integer in bytes or an integer with a `K`/`M`/`G` suffix (either case)
/// that multiplies by the binary unit; each rejection has its message.
pub open spec fn parse_size_spec(s: Seq<char>) -> Result<u64, Seq<char>> {
    let t = trim(s);
    if t.len() == 0 {
        Err("empty size"@)
    } else {
        let c = upper(t.last());
        let (digits, mult) = if c == 'K' {
            (t.drop_last(), 0x400nat)
        } else if c == 'M' {
            (t.drop_last(), 0x10_0000nat)
        } else if c == 'G' {
            (t.drop_last(), 0x4000_0000nat)
        } else {
            (t, 1nat)
        };
        if c != 'K' && c != 'M' && c != 'G' && !is_digit(c) {
            Err("unknown size suffix '"@ + seq![c] + "' (use K, M or G)"@)
        } else {
            match parse_u64_spec(digits) {
                None => Err("invalid size '"@ + t + "'"@),
                Some(n) => if n * mult > u64::MAX {
                    Err("size '"@ + t + "' overflows"@)
                } else {
                    Ok((n * mult) as u64)
                },
            }
        }
    }
}

/// Parse a size flag value: a plain integer is bytes; `K`, `M`, `G` suffixes
/// (case-insensitive) multiply by binary units. Used by `--min-blob`.
pub fn parse_size(s: &str) -> (r: Result<u64, String>)
    ensures
        size_result(r) == parse_size_spec(s@),
{
    let v = chars_of(s);
    let a = skip_ws(&v, 0);
    let b = trim_end_index(&v, v.len());
    let ghost t = trim(s@);
    proof {
        assert(v@.skip(0) == v@);
        assert(v@.take(v.len() as int) == v@);
    }
    if b <= a {
        assert(t.len() == 0) by {
            crate::text::lemma_trim_window(v@, a as int, b as int);
        }
        return Err(String::from_str("empty size"));
    }
    assert(t == v@.subrange(a as int, b as int)) by {
        crate::text::lemma_trim_window(v@, a as int, b as int);
    }
    assert(t.last() == v@[b - 1]);
    let c = to_upper(v[b - 1]);
    let mut end = b;
    let mut mult: u64 = 1;
    if c == 'K' {
        end = b - 1;
        mult = 0x400;
    } else if c == 'M' {
        end = b - 1;
        mult = 0x10_0000;
    } else if c == 'G' {
        end = b - 1;
        mult = 0x4000_0000;
    } else if !('0' <= c && c <= '9') {
        let mut e = String::from_str("unknown size suffix '");
        push_char(&mut e, c);
        push_str(&mut e, "' (use K, M or G)");
        assert(e@ =~= "unknown size suffix '"@ + seq![c] + "' (use K, M or G)"@);
        return Err(e);
    }
    assert(t.drop_last() == v@.subrange(a as int, b - 1));
    match parse_u64(&v, a, end) {
        None => {
            let mut e = String::from_str("invalid size '");
            push_chars(&mut e, &v[a..b]);
            push_str(&mut e, "'");
            Err(e)
        },
        Some(n) => {
            match n.checked_mul(mult) {
                None => {
                    let mut e = String::from_str("size '");
                    push_chars(&mut e, &v[a..b]);
                    push_str(&mut e, "' overflows");
                    Err(e)
                },
                Some(m) => Ok(m),
            }
        },
    }
}

// ---------------------------------------------------------------------
// Counting
// ---------------------------------------------------------------------

/// `1 finding`, `2 findings`: the count, a space and the noun, with a plain
/// plural `s` for every count but one.
pub open spec fn count_noun_spec(n: nat, noun: Seq<char>) -> Seq<char> {
    if n == 1 {
        "1 "@ + noun
    } else {
        dec(n) + " "@ + noun + "s"@
    }
}

/// Count plus noun with a plain plural `s`: `1 finding`, `2 findings`.
pub fn count_noun(n: u64, noun: &str) -> (r: String)
    ensures
        r@ == count_noun_spec(n as nat, noun@),
{
    if n == 1 {
        let mut s = String::from_str("1 ");
        push_str(&mut s, noun);
        s
    } else {
        let mut s = String::new();
        push_dec(&mut s, n);
        push_str(&mut s, " ");
        push_str(&mut s, noun);
        push_str(&mut s, "s");
        s
    }
}

// ---------------------------------------------------------------------
// Paths
// ---------------------------------------------------------------------

/// Relative path from `root` to `path`, `/`-separated regardless of host OS.
/// Falls back to the full path when `path` is not under `root`.
pub fn rel_slash(root: &str, path: &str) -> (r: String)
    ensures
        r@ == rel_slash_spec(root@, path@),
{
    let rc = chars_of(root);
    let pc = chars_of(path);
    rel_slash_chars(&rc, &pc)
}

/// The view of an optional string.
pub open spec fn opt_view(o: Option<String>) -> Option<Seq<char>> {
    match o {
        Some(s) => Some(s@),
        None => None,
    }
}

/// Lowercased file extension, if any.
pub fn extension(path: &str) -> (r: Option<String>)
    ensures
        opt_view(r) == extension_spec(path@),
{
    let pc = chars_of(path);
    match extension_chars(&pc) {
        Some(e) => Some(crate::text::string_of(&e)),
        None => None,
    }
}

} // verus!
