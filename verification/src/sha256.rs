//! SHA-256 (FIPS 180-4) over a stream of bytes: the digest that names
//! every blob in reports and lock files.

use vstd::prelude::*;
use crate::text::{hex_digit, push_char};

verus! {

// ---------------------------------------------------------------------
// The function
// ---------------------------------------------------------------------

/// Addition modulo 2^32.
pub open spec fn add32(x: u32, y: u32) -> u32 {
    ((x as int + y as int) % 0x1_0000_0000) as u32
}

/// Rotation right by `n` bits, `0 < n < 32`.
pub open spec fn rotr(x: u32, n: u32) -> u32 {
    (x >> n) | (x << ((32 - n) as u32))
}

pub open spec fn ch(x: u32, y: u32, z: u32) -> u32 {
    (x & y) ^ (!x & z)
}

pub open spec fn maj(x: u32, y: u32, z: u32) -> u32 {
    (x & y) ^ (x & z) ^ (y & z)
}

pub open spec fn big_sigma0(x: u32) -> u32 {
    rotr(x, 2) ^ rotr(x, 13) ^ rotr(x, 22)
}

pub open spec fn big_sigma1(x: u32) -> u32 {
    rotr(x, 6) ^ rotr(x, 11) ^ rotr(x, 25)
}

pub open spec fn small_sigma0(x: u32) -> u32 {
    rotr(x, 7) ^ rotr(x, 18) ^ (x >> 3u32)
}

pub open spec fn small_sigma1(x: u32) -> u32 {
    rotr(x, 17) ^ rotr(x, 19) ^ (x >> 10u32)
}

/// The round constants.
pub open spec fn round_constant(t: usize) -> u32 {
    match t {
        0 => 0x428a2f98,
        1 => 0x71374491,
        2 => 0xb5c0fbcf,
        3 => 0xe9b5dba5,
        4 => 0x3956c25b,
        5 => 0x59f111f1,
        6 => 0x923f82a4,
        7 => 0xab1c5ed5,
        8 => 0xd807aa98,
        9 => 0x12835b01,
        10 => 0x243185be,
        11 => 0x550c7dc3,
        12 => 0x72be5d74,
        13 => 0x80deb1fe,
        14 => 0x9bdc06a7,
        15 => 0xc19bf174,
        16 => 0xe49b69c1,
        17 => 0xefbe4786,
        18 => 0x0fc19dc6,
        19 => 0x240ca1cc,
        20 => 0x2de92c6f,
        21 => 0x4a7484aa,
        22 => 0x5cb0a9dc,
        23 => 0x76f988da,
        24 => 0x983e5152,
        25 => 0xa831c66d,
        26 => 0xb00327c8,
        27 => 0xbf597fc7,
        28 => 0xc6e00bf3,
        29 => 0xd5a79147,
        30 => 0x06ca6351,
        31 => 0x14292967,
        32 => 0x27b70a85,
        33 => 0x2e1b2138,
        34 => 0x4d2c6dfc,
        35 => 0x53380d13,
        36 => 0x650a7354,
        37 => 0x766a0abb,
        38 => 0x81c2c92e,
        39 => 0x92722c85,
        40 => 0xa2bfe8a1,
        41 => 0xa81a664b,
        42 => 0xc24b8b70,
        43 => 0xc76c51a3,
        44 => 0xd192e819,
        45 => 0xd6990624,
        46 => 0xf40e3585,
        47 => 0x106aa070,
        48 => 0x19a4c116,
        49 => 0x1e376c08,
        50 => 0x2748774c,
        51 => 0x34b0bcb5,
        52 => 0x391c0cb3,
        53 => 0x4ed8aa4a,
        54 => 0x5b9cca4f,
        55 => 0x682e6ff3,
        56 => 0x748f82ee,
        57 => 0x78a5636f,
        58 => 0x84c87814,
        59 => 0x8cc70208,
        60 => 0x90befffa,
        61 => 0xa4506ceb,
        62 => 0xbef9a3f7,
        _ => 0xc67178f2,
    }
}

/// The initial hash value.
pub open spec fn initial_hash() -> Seq<u32> {
    seq![0x6a09e667, 0xbb67ae85, 0x3c6ef372, 0xa54ff53a, 0x510e527f, 0x9b05688c, 0x1f83d9ab, 0x5be0cd19]
}

/// The big-endian word at bytes `4i..4i+4` of a block.
pub open spec fn block_word(b: Seq<u8>, i: int) -> u32 {
    ((b[4 * i] as u32) << 24u32) | ((b[4 * i + 1] as u32) << 16u32) | ((b[4 * i + 2] as u32) << 8u32)
        | (b[4 * i + 3] as u32)
}

/// The message schedule of a block.
pub open spec fn schedule(b: Seq<u8>, t: nat) -> u32
    decreases t,
{
    if t < 16 {
        block_word(b, t as int)
    } else {
        add32(
            add32(
                add32(small_sigma1(schedule(b, (t - 2) as nat)), schedule(b, (t - 7) as nat)),
                small_sigma0(schedule(b, (t - 15) as nat)),
            ),
            schedule(b, (t - 16) as nat),
        )
    }
}

/// One round on the working variables `a..h`.
pub open spec fn round(s: Seq<u32>, k: u32, w: u32) -> Seq<u32> {
    let t1 = add32(add32(add32(add32(s[7], big_sigma1(s[4])), ch(s[4], s[5], s[6])), k), w);
    let t2 = add32(big_sigma0(s[0]), maj(s[0], s[1], s[2]));
    seq![add32(t1, t2), s[0], s[1], s[2], add32(s[3], t1), s[4], s[5], s[6]]
}

/// The working variables after the first `t` rounds over block `b`.
pub open spec fn rounds(h: Seq<u32>, b: Seq<u8>, t: nat) -> Seq<u32>
    decreases t,
{
    if t == 0 {
        h
    } else {
        round(rounds(h, b, (t - 1) as nat), round_constant((t - 1) as usize), schedule(b, (t - 1) as nat))
    }
}

/// The hash value after one more block.
#[verifier::opaque]
pub open spec fn compress(h: Seq<u32>, b: Seq<u8>) -> Seq<u32> {
    let r = rounds(h, b, 64);
    Seq::new(8, |i: int| add32(h[i], r[i]))
}

/// The hash value after every whole 64-byte block of `data`.
pub open spec fn fold_blocks(h: Seq<u32>, data: Seq<u8>) -> Seq<u32>
    decreases data.len(),
{
    if data.len() < 64 {
        h
    } else {
        fold_blocks(compress(h, data.take(64)), data.skip(64))
    }
}

/// The eight big-endian bytes of `x`.
pub open spec fn be64(x: u64) -> Seq<u8> {
    Seq::new(8, |i: int| ((x >> ((56 - 8 * i) as u64)) & 0xff) as u8)
}

/// How many zero bytes the padding holds for a message of `len` bytes.
pub open spec fn zero_count(len: nat) -> nat {
    if len % 64 < 56 {
        (55 - len % 64) as nat
    } else {
        (119 - len % 64) as nat
    }
}

/// The padding after a message of `len` bytes: `0x80`, zeros, and the
/// length in bits as a big-endian 64-bit number.
pub open spec fn padding(len: nat) -> Seq<u8> {
    seq![0x80u8] + Seq::new(zero_count(len), |i: int| 0u8) + be64((len * 8) as u64)
}

/// The 32 bytes of a hash value, each word big-endian.
pub open spec fn digest_bytes(h: Seq<u32>) -> Seq<u8> {
    Seq::new(32, |i: int| ((h[i / 4] >> ((24 - 8 * (i % 4)) as u32)) & 0xff) as u8)
}

/// The SHA-256 digest of `msg`.
pub open spec fn sha256(msg: Seq<u8>) -> Seq<u8> {
    digest_bytes(fold_blocks(initial_hash(), msg + padding(msg.len())))
}

/// Lowercase hexadecimal, two digits per byte.
pub open spec fn hex_bytes(d: Seq<u8>) -> Seq<char>
    decreases d.len(),
{
    if d.len() == 0 {
        Seq::empty()
    } else {
        hex_bytes(d.drop_last()) + seq![hex_digit((d.last() / 16) as nat), hex_digit((d.last() % 16) as nat)]
    }
}

// ---------------------------------------------------------------------
// One block
// ---------------------------------------------------------------------

fn wadd(x: u32, y: u32) -> (r: u32)
    ensures
        r == add32(x, y),
{
    x.wrapping_add(y)
}

fn rotr_exec(x: u32, n: u32) -> (r: u32)
    requires
        0 < n < 32,
    ensures
        r == rotr(x, n),
{
    (x >> n) | (x << (32 - n))
}

fn round_constant_exec(t: usize) -> (r: u32)
    requires
        t < 64,
    ensures
        r == round_constant(t),
{
    match t {
        0 => 0x428a2f98,
        1 => 0x71374491,
        2 => 0xb5c0fbcf,
        3 => 0xe9b5dba5,
        4 => 0x3956c25b,
        5 => 0x59f111f1,
        6 => 0x923f82a4,
        7 => 0xab1c5ed5,
        8 => 0xd807aa98,
        9 => 0x12835b01,
        10 => 0x243185be,
        11 => 0x550c7dc3,
        12 => 0x72be5d74,
        13 => 0x80deb1fe,
        14 => 0x9bdc06a7,
        15 => 0xc19bf174,
        16 => 0xe49b69c1,
        17 => 0xefbe4786,
        18 => 0x0fc19dc6,
        19 => 0x240ca1cc,
        20 => 0x2de92c6f,
        21 => 0x4a7484aa,
        22 => 0x5cb0a9dc,
        23 => 0x76f988da,
        24 => 0x983e5152,
        25 => 0xa831c66d,
        26 => 0xb00327c8,
        27 => 0xbf597fc7,
        28 => 0xc6e00bf3,
        29 => 0xd5a79147,
        30 => 0x06ca6351,
        31 => 0x14292967,
        32 => 0x27b70a85,
        33 => 0x2e1b2138,
        34 => 0x4d2c6dfc,
        35 => 0x53380d13,
        36 => 0x650a7354,
        37 => 0x766a0abb,
        38 => 0x81c2c92e,
        39 => 0x92722c85,
        40 => 0xa2bfe8a1,
        41 => 0xa81a664b,
        42 => 0xc24b8b70,
        43 => 0xc76c51a3,
        44 => 0xd192e819,
        45 => 0xd6990624,
        46 => 0xf40e3585,
        47 => 0x106aa070,
        48 => 0x19a4c116,
        49 => 0x1e376c08,
        50 => 0x2748774c,
        51 => 0x34b0bcb5,
        52 => 0x391c0cb3,
        53 => 0x4ed8aa4a,
        54 => 0x5b9cca4f,
        55 => 0x682e6ff3,
        56 => 0x748f82ee,
        57 => 0x78a5636f,
        58 => 0x84c87814,
        59 => 0x8cc70208,
        60 => 0x90befffa,
        61 => 0xa4506ceb,
        62 => 0xbef9a3f7,
        _ => 0xc67178f2,
    }
}

fn block_word_exec(b: &[u8], i: usize) -> (r: u32)
    requires
        4 * i + 3 < b.len(),
    ensures
        r == block_word(b@, i as int),
{
    ((b[4 * i] as u32) << 24u32) | ((b[4 * i + 1] as u32) << 16u32) | ((b[4 * i + 2] as u32) << 8u32)
        | (b[4 * i + 3] as u32)
}

fn schedule_exec(b: &[u8]) -> (w: Vec<u32>)
    requires
        b.len() == 64,
    ensures
        w.len() == 64,
        forall|t: int| 0 <= t < 64 ==> #[trigger] w@[t] == schedule(b@, t as nat),
{
    let mut w: Vec<u32> = Vec::new();
    let mut t: usize = 0;
    while t < 64
        invariant
            t <= 64,
            b.len() == 64,
            w.len() == t,
            forall|j: int| 0 <= j < t ==> #[trigger] w@[j] == schedule(b@, j as nat),
        decreases 64 - t,
    {
        if t < 16 {
            w.push(block_word_exec(b, t));
        } else {
            let x = w[t - 2];
            let s1 = rotr_exec(x, 17) ^ rotr_exec(x, 19) ^ (x >> 10u32);
            let y = w[t - 15];
            let s0 = rotr_exec(y, 7) ^ rotr_exec(y, 18) ^ (y >> 3u32);
            let v = wadd(wadd(wadd(s1, w[t - 7]), s0), w[t - 16]);
            w.push(v);
        }
        t = t + 1;
    }
    w
}

/// The hash value after one more block.
fn compress_exec(h: &Vec<u32>, b: &[u8]) -> (r: Vec<u32>)
    requires
        h.len() == 8,
        b.len() == 64,
    ensures
        r@ == compress(h@, b@),
        r.len() == 8,
{
    let w = schedule_exec(b);
    let mut a = h[0];
    let mut bb = h[1];
    let mut c = h[2];
    let mut d = h[3];
    let mut e = h[4];
    let mut f = h[5];
    let mut g = h[6];
    let mut hh = h[7];
    assert(seq![a, bb, c, d, e, f, g, hh] =~= rounds(h@, b@, 0));
    let mut t: usize = 0;
    while t < 64
        invariant
            t <= 64,
            h.len() == 8,
            b.len() == 64,
            w.len() == 64,
            forall|j: int| 0 <= j < 64 ==> #[trigger] w@[j] == schedule(b@, j as nat),
            seq![a, bb, c, d, e, f, g, hh] == rounds(h@, b@, t as nat),
        decreases 64 - t,
    {
        let s1 = rotr_exec(e, 6) ^ rotr_exec(e, 11) ^ rotr_exec(e, 25);
        let chv = (e & f) ^ (!e & g);
        let t1 = wadd(wadd(wadd(wadd(hh, s1), chv), round_constant_exec(t)), w[t]);
        let s0 = rotr_exec(a, 2) ^ rotr_exec(a, 13) ^ rotr_exec(a, 22);
        let mj = (a & bb) ^ (a & c) ^ (bb & c);
        let t2 = wadd(s0, mj);
        let ghost prev = seq![a, bb, c, d, e, f, g, hh];
        hh = g;
        g = f;
        f = e;
        e = wadd(d, t1);
        d = c;
        c = bb;
        bb = a;
        a = wadd(t1, t2);
        assert(seq![a, bb, c, d, e, f, g, hh] =~= round(prev, round_constant(t), schedule(b@, t as nat)));
        t = t + 1;
    }
    let mut out: Vec<u32> = Vec::new();
    out.push(wadd(h[0], a));
    out.push(wadd(h[1], bb));
    out.push(wadd(h[2], c));
    out.push(wadd(h[3], d));
    out.push(wadd(h[4], e));
    out.push(wadd(h[5], f));
    out.push(wadd(h[6], g));
    out.push(wadd(h[7], hh));
    proof {
        reveal(compress);
    }
    assert(out@ =~= compress(h@, b@));
    out
}

// ---------------------------------------------------------------------
// Streaming
// ---------------------------------------------------------------------

proof fn lemma_fold_append(h: Seq<u32>, a: Seq<u8>, c: Seq<u8>)
    requires
        a.len() % 64 == 0,
    ensures
        fold_blocks(h, a + c) == fold_blocks(fold_blocks(h, a), c),
    decreases a.len(),
{
    if a.len() == 0 {
        assert(a + c == c);
    } else {
        assert((a + c).take(64) == a.take(64));
        assert((a + c).skip(64) == a.skip(64) + c);
        lemma_fold_append(compress(h, a.take(64)), a.skip(64), c);
    }
}

proof fn lemma_fold_one_block(h: Seq<u32>, b: Seq<u8>)
    requires
        b.len() == 64,
    ensures
        fold_blocks(h, b) == compress(h, b),
{
    assert(b.take(64) == b);
    assert(b.skip(64).len() == 0);
    assert(fold_blocks(compress(h, b), b.skip(64)) == compress(h, b));
}

/// A SHA-256 computation in progress.
pub struct Sha256 {
    h: Vec<u32>,
    buf: Vec<u8>,
    len: u64,
    seen: Ghost<Seq<u8>>,
}

impl View for Sha256 {
    type V = Seq<u8>;

    /// The bytes hashed so far.
    closed spec fn view(&self) -> Seq<u8> {
        self.seen@
    }
}

impl Sha256 {
    /// The hasher's internal state agrees with the bytes seen so far.
    pub closed spec fn wf(&self) -> bool {
        let m = self.seen@;
        let done = (m.len() - self.buf.len()) as int;
        &&& self.h.len() == 8
        &&& self.buf.len() < 64
        &&& self.len == m.len()
        &&& m.len() < 0x2000_0000_0000_0000
        &&& done % 64 == 0
        &&& self.buf@ == m.skip(done)
        &&& self.h@ == fold_blocks(initial_hash(), m.take(done))
    }

    /// A hasher that has seen nothing.
    pub fn new() -> (s: Sha256)
        ensures
            s.wf(),
            s@ == Seq::<u8>::empty(),
    {
        let mut h: Vec<u32> = Vec::new();
        h.push(0x6a09e667);
        h.push(0xbb67ae85);
        h.push(0x3c6ef372);
        h.push(0xa54ff53a);
        h.push(0x510e527f);
        h.push(0x9b05688c);
        h.push(0x1f83d9ab);
        h.push(0x5be0cd19);
        let s = Sha256 { h, buf: Vec::new(), len: 0, seen: Ghost(Seq::empty()) };
        assert(s.h@ =~= initial_hash());
        assert(s.seen@.take(0) =~= Seq::<u8>::empty());
        assert(s.buf@ =~= s.seen@.skip(0));
        s
    }

    /// How many bytes have been hashed.
    pub fn bytes_hashed(&self) -> (n: u64)
        requires
            self.wf(),
        ensures
            n == self@.len(),
    {
        self.len
    }

    /// Hashes `data` after what came before.
    pub fn update(&mut self, data: &[u8])
        requires
            old(self).wf(),
            old(self)@.len() + data.len() < 0x2000_0000_0000_0000,
        ensures
            final(self).wf(),
            final(self)@ == old(self)@ + data@,
    {
        let ghost start = self.seen@;
        let mut i: usize = 0;
        while i < data.len()
            invariant
                i <= data.len(),
                self.wf(),
                start.len() + data.len() < 0x2000_0000_0000_0000,
                self.seen@ == start + data@.take(i as int),
            decreases data.len() - i,
        {
            let ghost m0 = self.seen@;
            let ghost done0 = (m0.len() - self.buf.len()) as int;
            let b = data[i];
            self.buf.push(b);
            self.len = self.len + 1;
            self.seen = Ghost(m0.push(b));
            let ghost m = self.seen@;
            assert(m.take(done0) == m0.take(done0));
            assert(self.buf@ == m.skip(done0));
            if self.buf.len() == 64 {
                let nh = compress_exec(&self.h, &self.buf);
                proof {
                    assert(m.take(done0 + 64) == m.take(done0) + self.buf@);
                    lemma_fold_append(initial_hash(), m.take(done0), self.buf@);
                    lemma_fold_one_block(fold_blocks(initial_hash(), m.take(done0)), self.buf@);
                    assert(m.skip(done0 + 64) =~= Seq::<u8>::empty());
                }
                self.h = nh;
                self.buf.clear();
                assert(self.buf@ =~= m.skip(done0 + 64));
            }
            assert(data@.take(i + 1) == data@.take(i as int).push(b));
            i = i + 1;
        }
        assert(data@.take(data.len() as int) == data@);
    }

    /// The digest of everything hashed, as 64 lowercase hexadecimal digits.
    pub fn finish_hex(self) -> (r: String)
        requires
            self.wf(),
        ensures
            r@ == hex_bytes(sha256(self@)),
    {
        let ghost m = self.seen@;
        let ghost done = (m.len() - self.buf.len()) as int;
        let mut tail: Vec<u8> = Vec::new();
        let mut i: usize = 0;
        while i < self.buf.len()
            invariant
                i <= self.buf.len(),
                tail@ == self.buf@.take(i as int),
            decreases self.buf.len() - i,
        {
            tail.push(self.buf[i]);
            assert(self.buf@.take(i + 1) == self.buf@.take(i as int).push(self.buf@[i as int]));
            i = i + 1;
        }
        assert(self.buf@.take(self.buf.len() as int) == self.buf@);
        let pad = padding_exec(self.len);
        let mut j: usize = 0;
        let ghost t0 = tail@;
        while j < pad.len()
            invariant
                j <= pad.len(),
                tail@ == t0 + pad@.take(j as int),
            decreases pad.len() - j,
        {
            tail.push(pad[j]);
            assert(pad@.take(j + 1) == pad@.take(j as int).push(pad@[j as int]));
            j = j + 1;
        }
        assert(pad@.take(pad.len() as int) == pad@);
        proof {
            assert(m + padding(m.len()) == m.take(done) + tail@);
            lemma_fold_append(initial_hash(), m.take(done), tail@);
        }
        let ghost hq = self.h@;
        assert(self.buf.len() == m.len() % 64);
        assert(tail@.len() == 64 || tail@.len() == 128);
        let first = compress_exec(&self.h, &tail[0..64]);
        let h = if tail.len() == 128 {
            let second = compress_exec(&first, &tail[64..128]);
            proof {
                let t = tail@;
                assert(t.take(64) == t.subrange(0, 64));
                assert(t.skip(64) == t.subrange(64, 128));
                lemma_fold_one_block(compress(hq, t.take(64)), t.skip(64));
                assert(fold_blocks(hq, t) == fold_blocks(compress(hq, t.take(64)), t.skip(64)));
            }
            second
        } else {
            proof {
                let t = tail@;
                assert(t.subrange(0, 64) == t);
                lemma_fold_one_block(hq, t);
            }
            first
        };
        assert(h@ == fold_blocks(initial_hash(), m + padding(m.len())));
        state_hex(&h)
    }
}

/// The padding for a message of `len` bytes.
fn padding_exec(len: u64) -> (p: Vec<u8>)
    requires
        len < 0x2000_0000_0000_0000,
    ensures
        p@ == padding(len as nat),
        (len as nat + p@.len()) % 64 == 0,
        p@.len() == 64 - len % 64 + if len % 64 < 56 { 0int } else { 64int },
{
    let mut p: Vec<u8> = Vec::new();
    p.push(0x80);
    let r = len % 64;
    let zeros: u64 = if r < 56 {
        55 - r
    } else {
        119 - r
    };
    let mut i: u64 = 0;
    while i < zeros
        invariant
            i <= zeros,
            p@ == seq![0x80u8] + Seq::new(i as nat, |k: int| 0u8),
        decreases zeros - i,
    {
        p.push(0);
        assert(seq![0x80u8] + Seq::new((i + 1) as nat, |k: int| 0u8) =~= (seq![0x80u8] + Seq::new(i as nat, |k: int| 0u8)).push(0u8));
        i = i + 1;
    }
    let bits: u64 = len * 8;
    let ghost before = p@;
    let mut k: u64 = 0;
    while k < 8
        invariant
            k <= 8,
            p@ == before + be64(bits).take(k as int),
        decreases 8 - k,
    {
        let byte = ((bits >> (56 - 8 * k)) & 0xff) as u8;
        p.push(byte);
        assert(be64(bits).take(k + 1) == be64(bits).take(k as int).push(byte));
        k = k + 1;
    }
    assert(be64(bits).take(8) == be64(bits));
    assert(zeros == zero_count(len as nat));
    assert(p@ =~= padding(len as nat));
    p
}

/// The hexadecimal digest of a final hash value.
fn state_hex(h: &Vec<u32>) -> (r: String)
    requires
        h.len() == 8,
    ensures
        r@ == hex_bytes(digest_bytes(h@)),
{
    let ghost d = digest_bytes(h@);
    let mut s = String::new();
    let mut i: usize = 0;
    while i < 32
        invariant
            i <= 32,
            h.len() == 8,
            d == digest_bytes(h@),
            s@ == hex_bytes(d.take(i as int)),
        decreases 32 - i,
    {
        let word = h[i / 4];
        let shift: u32 = (24 - 8 * (i % 4)) as u32;
        let byte: u8 = ((word >> shift) & 0xff) as u8;
        assert(byte == d[i as int]);
        let hi = byte / 16;
        let lo = byte % 16;
        push_char(&mut s, if hi < 10 { (hi + 48) as char } else { (hi + 87) as char });
        push_char(&mut s, if lo < 10 { (lo + 48) as char } else { (lo + 87) as char });
        assert(d.take(i + 1).drop_last() == d.take(i as int));
        assert(s@ =~= hex_bytes(d.take(i + 1)));
        i = i + 1;
    }
    assert(d.take(32) == d);
    s
}

/// The SHA-256 digest of `data`, as 64 lowercase hexadecimal digits.
pub fn hex_digest(data: &[u8]) -> (r: String)
    requires
        data.len() < 0x2000_0000_0000_0000,
    ensures
        r@ == hex_bytes(sha256(data@)),
{
    let mut h = Sha256::new();
    h.update(data);
    assert(Seq::<u8>::empty() + data@ == data@);
    h.finish_hex()
}

} // verus!
