//! Byte-frequency counting, the input to Shannon entropy. High entropy
//! (close to 8 bits per byte) is the signature of compressed, packed or
//! encrypted data — the blobs nobody can read as source.

use vstd::prelude::*;

verus! {

/// How many times `x` occurs in `s`.
pub open spec fn occurrences(s: Seq<u8>, x: u8) -> nat
    decreases s.len(),
{
    if s.len() == 0 {
        0
    } else {
        occurrences(s.drop_last(), x) + if s.last() == x {
            1nat
        } else {
            0nat
        }
    }
}

/// The mathematical state of a [`Counter`]: one count per byte value and
/// the number of bytes seen.
pub struct CounterV {
    pub counts: Seq<nat>,
    pub total: nat,
}

/// The state after feeding `data` to a counter in state `c`.
pub open spec fn fed(c: CounterV, data: Seq<u8>) -> CounterV {
    CounterV {
        counts: Seq::new(256, |b: int| c.counts[b] + occurrences(data, b as u8)),
        total: c.total + data.len(),
    }
}

/// Streaming byte-frequency counter; feed chunks, then ask for entropy.
pub struct Counter {
    counts: [u64; 256],
    total: u64,
}

impl View for Counter {
    type V = CounterV;

    closed spec fn view(&self) -> CounterV {
        CounterV { counts: Seq::new(256, |b: int| self.counts@[b] as nat), total: self.total as nat }
    }
}

impl Default for Counter {
    /// A counter that has seen nothing.
    fn default() -> (c: Counter)
        ensures
            c@.total == 0,
            c@.counts.len() == 256,
            forall|b: int| 0 <= b < 256 ==> c@.counts[b] == 0,
    {
        Counter::new()
    }
}

impl Counter {
    /// No count exceeds the number of bytes seen.
    #[verifier::type_invariant]
    spec fn counts_bounded(&self) -> bool {
        forall|b: int| 0 <= b < 256 ==> self.counts@[b] <= self.total
    }

    /// A counter that has seen nothing.
    pub fn new() -> (c: Counter)
        ensures
            c@.total == 0,
            c@.counts.len() == 256,
            forall|b: int| 0 <= b < 256 ==> c@.counts[b] == 0,
    {
        Counter { counts: [0u64; 256], total: 0 }
    }

    /// Feed a chunk of bytes.
    pub fn update(&mut self, data: &[u8])
        requires
            old(self)@.total + data.len() <= u64::MAX,
        ensures
            final(self)@ == fed(old(self)@, data@),
    {
        proof {
            use_type_invariant(&*self);
        }
        let ghost start_counts = self.counts@;
        let ghost start_total = self.total;
        let mut counts = self.counts;
        let mut i: usize = 0;
        while i < data.len()
            invariant
                0 <= i <= data.len(),
                start_total + data.len() <= u64::MAX,
                forall|b: int| 0 <= b < 256 ==> start_counts[b] <= start_total,
                forall|b: int|
                    0 <= b < 256 ==> counts@[b] == start_counts[b] + occurrences(
                        data@.take(i as int),
                        b as u8,
                    ),
            decreases data.len() - i,
        {
            let x = data[i];
            let ghost pre = data@.take(i as int);
            let ghost next = data@.take(i + 1);
            assert(next.drop_last() == pre);
            proof {
                lemma_occurrences_bound(pre, x);
            }
            let old_count = counts[x as usize];
            counts[x as usize] = old_count + 1;
            assert forall|b: int|
                0 <= b < 256 implies counts@[b] == start_counts[b] + occurrences(next, b as u8) by {
                if b == x as int {
                    assert((b as u8) == x);
                } else {
                    assert((b as u8) != x);
                }
            }
            i = i + 1;
        }
        assert(data@.take(data.len() as int) == data@);
        let new_total = self.total + data.len() as u64;
        assert forall|b: int| 0 <= b < 256 implies counts@[b] <= new_total by {
            lemma_occurrences_bound(data@, b as u8);
        }
        *self = Counter { counts, total: new_total };
        assert(self@.counts =~= fed(old(self)@, data@).counts);
    }

    /// Number of bytes fed so far.
    pub fn bytes_seen(&self) -> (n: u64)
        ensures
            n == self@.total,
    {
        self.total
    }

    /// How many times `byte` has been seen.
    pub fn count(&self, byte: u8) -> (n: u64)
        ensures
            n == self@.counts[byte as int],
    {
        self.counts[byte as usize]
    }
}

proof fn lemma_occurrences_bound(s: Seq<u8>, x: u8)
    ensures
        occurrences(s, x) <= s.len(),
    decreases s.len(),
{
    if s.len() > 0 {
        lemma_occurrences_bound(s.drop_last(), x);
    }
}

/// Occurrences in a concatenation add up.
pub proof fn lemma_occurrences_concat(a: Seq<u8>, b: Seq<u8>, x: u8)
    ensures
        occurrences(a + b, x) == occurrences(a, x) + occurrences(b, x),
    decreases b.len(),
{
    if b.len() == 0 {
        assert(a + b == a);
    } else {
        lemma_occurrences_concat(a, b.drop_last(), x);
        assert((a + b).drop_last() == a + b.drop_last());
    }
}

/// Streaming equals one-shot: feeding `a` and then `b` leaves a counter in
/// the same state as feeding `a + b` at once.
pub proof fn law_streaming_equals_one_shot(c: CounterV, a: Seq<u8>, b: Seq<u8>)
    requires
        c.counts.len() == 256,
    ensures
        fed(fed(c, a), b) == fed(c, a + b),
{
    assert forall|x: int| 0 <= x < 256 implies #[trigger] fed(fed(c, a), b).counts[x] == fed(
        c,
        a + b,
    ).counts[x] by {
        lemma_occurrences_concat(a, b, x as u8);
    }
    assert(fed(fed(c, a), b).counts =~= fed(c, a + b).counts);
}

/// Every counter holds one count per byte value.
pub proof fn lemma_counter_has_256_counts(c: &Counter)
    ensures
        c@.counts.len() == 256,
{
}

/// Streaming equals one-shot for any counter: feeding `a` and then `b`
/// leaves it in the same state as feeding `a + b` at once.
pub proof fn law_counter_streaming_equals_one_shot(c: &Counter, a: Seq<u8>, b: Seq<u8>)
    ensures
        fed(fed(c@, a), b) == fed(c@, a + b),
{
    lemma_counter_has_256_counts(c);
    law_streaming_equals_one_shot(c@, a, b);
}

} // verus!
