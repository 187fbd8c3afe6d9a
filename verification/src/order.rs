//! Lexicographic order on character sequences — the order `str`'s `Ord`
//! gives, since UTF-8 byte order is code-point order — and a stable sort
//! of indices by string keys.

use vstd::prelude::*;
use crate::text::vv;

verus! {

/// `a` sorts strictly before `b`.
pub open spec fn lex_lt(a: Seq<char>, b: Seq<char>) -> bool
    decreases a.len(),
{
    if a.len() == 0 {
        b.len() > 0
    } else if b.len() == 0 {
        false
    } else if a[0] != b[0] {
        a[0] < b[0]
    } else {
        lex_lt(a.drop_first(), b.drop_first())
    }
}

/// `a` sorts before or equal to `b`.
pub open spec fn lex_le(a: Seq<char>, b: Seq<char>) -> bool {
    a == b || lex_lt(a, b)
}

pub proof fn lemma_lex_irrefl(a: Seq<char>)
    ensures
        !lex_lt(a, a),
    decreases a.len(),
{
    if a.len() > 0 {
        lemma_lex_irrefl(a.drop_first());
    }
}

pub proof fn lemma_lex_trans(a: Seq<char>, b: Seq<char>, c: Seq<char>)
    requires
        lex_lt(a, b),
        lex_lt(b, c),
    ensures
        lex_lt(a, c),
    decreases a.len(),
{
    if a.len() > 0 && b.len() > 0 && c.len() > 0 {
        if a[0] == b[0] && b[0] == c[0] {
            lemma_lex_trans(a.drop_first(), b.drop_first(), c.drop_first());
        }
    }
}

pub proof fn lemma_lex_total(a: Seq<char>, b: Seq<char>)
    ensures
        a == b || lex_lt(a, b) || lex_lt(b, a),
    decreases a.len(),
{
    if a.len() > 0 && b.len() > 0 {
        if a[0] == b[0] {
            lemma_lex_total(a.drop_first(), b.drop_first());
            if a.drop_first() == b.drop_first() {
                assert(a == seq![a[0]] + a.drop_first());
                assert(b == seq![b[0]] + b.drop_first());
            }
        } else {
        }
    } else if a.len() == 0 && b.len() == 0 {
        assert(a == b);
    }
}

pub proof fn lemma_lex_asym(a: Seq<char>, b: Seq<char>)
    requires
        lex_lt(a, b),
    ensures
        !lex_lt(b, a),
{
    if lex_lt(b, a) {
        lemma_lex_trans(a, b, a);
        lemma_lex_irrefl(a);
    }
}

proof fn lemma_lex_skip(a: Seq<char>, b: Seq<char>, i: int)
    requires
        0 <= i <= a.len(),
        i <= b.len(),
        a.take(i) == b.take(i),
    ensures
        lex_lt(a, b) == lex_lt(a.skip(i), b.skip(i)),
    decreases i,
{
    if i > 0 {
        assert(a[0] == a.take(i)[0]);
        assert(b[0] == b.take(i)[0]);
        assert(a.drop_first().take(i - 1) == a.take(i).drop_first());
        assert(b.drop_first().take(i - 1) == b.take(i).drop_first());
        lemma_lex_skip(a.drop_first(), b.drop_first(), i - 1);
        assert(a.drop_first().skip(i - 1) == a.skip(i));
        assert(b.drop_first().skip(i - 1) == b.skip(i));
    } else {
        assert(a.skip(0) == a);
        assert(b.skip(0) == b);
    }
}

/// Strictly ascending.
pub open spec fn lex_ascending(s: Seq<Seq<char>>) -> bool {
    forall|i: int, j: int| 0 <= i < j < s.len() ==> lex_lt(#[trigger] s[i], #[trigger] s[j])
}

/// Two strictly ascending lists with the same elements are equal.
pub proof fn lemma_lex_ascending_unique(s1: Seq<Seq<char>>, s2: Seq<Seq<char>>)
    requires
        lex_ascending(s1),
        lex_ascending(s2),
        forall|x: Seq<char>| s1.contains(x) <==> s2.contains(x),
    ensures
        s1 == s2,
    decreases s1.len() + s2.len(),
{
    if s1.len() == 0 {
        if s2.len() > 0 {
            assert(s2.contains(s2[0]));
        }
        assert(s2.len() == 0);
    } else if s2.len() == 0 {
        assert(s1.contains(s1[0]));
    } else {
        assert(s1.contains(s1[0]));
        let k = choose|k: int| 0 <= k < s2.len() && s2[k] == s1[0];
        assert(s2.contains(s2[0]));
        let m = choose|m: int| 0 <= m < s1.len() && s1[m] == s2[0];
        if k > 0 {
            assert(lex_lt(s2[0], s2[k]));
            if m > 0 {
                assert(lex_lt(s1[0], s1[m]));
                lemma_lex_trans(s1[0], s2[0], s1[0]);
            }
            lemma_lex_irrefl(s1[0]);
        }
        assert(s1[0] == s2[0]);
        let t1 = s1.drop_first();
        let t2 = s2.drop_first();
        assert forall|x: Seq<char>| t1.contains(x) implies t2.contains(x) by {
            let i = choose|i: int| 0 <= i < t1.len() && t1[i] == x;
            assert(s1.contains(x));
            let j = choose|j: int| 0 <= j < s2.len() && s2[j] == x;
            if j == 0 {
                assert(lex_lt(s1[0], s1[i + 1]));
                lemma_lex_irrefl(x);
            }
            assert(t2[j - 1] == x);
        }
        assert forall|x: Seq<char>| t2.contains(x) implies t1.contains(x) by {
            let i = choose|i: int| 0 <= i < t2.len() && t2[i] == x;
            assert(s2.contains(x));
            let j = choose|j: int| 0 <= j < s1.len() && s1[j] == x;
            if j == 0 {
                assert(lex_lt(s2[0], s2[i + 1]));
                lemma_lex_irrefl(x);
            }
            assert(t1[j - 1] == x);
        }
        assert forall|i: int, j: int| 0 <= i < j < t1.len() implies lex_lt(#[trigger] t1[i], #[trigger] t1[j]) by {
            assert(lex_lt(s1[i + 1], s1[j + 1]));
        }
        assert forall|i: int, j: int| 0 <= i < j < t2.len() implies lex_lt(#[trigger] t2[i], #[trigger] t2[j]) by {
            assert(lex_lt(s2[i + 1], s2[j + 1]));
        }
        lemma_lex_ascending_unique(t1, t2);
        assert(s1 == seq![s1[0]] + t1);
        assert(s2 == seq![s2[0]] + t2);
    }
}

/// Whether `a` sorts strictly before `b`.
pub fn lex_less(a: &[char], b: &[char]) -> (r: bool)
    ensures
        r == lex_lt(a@, b@),
{
    let mut i: usize = 0;
    while i < a.len() && i < b.len() && a[i] == b[i]
        invariant
            i <= a.len(),
            i <= b.len(),
            a@.take(i as int) == b@.take(i as int),
        decreases a.len() - i,
    {
        assert(a@.take(i + 1) == a@.take(i as int).push(a@[i as int]));
        assert(b@.take(i + 1) == b@.take(i as int).push(b@[i as int]));
        i = i + 1;
    }
    proof {
        lemma_lex_skip(a@, b@, i as int);
    }
    if i == a.len() {
        i < b.len()
    } else if i == b.len() {
        false
    } else {
        assert(a@.skip(i as int)[0] == a@[i as int]);
        assert(b@.skip(i as int)[0] == b@[i as int]);
        a[i] < b[i]
    }
}

/// `p` lists each of `0..n` exactly once.
pub open spec fn is_perm(p: Seq<usize>, n: nat) -> bool {
    &&& p.len() == n
    &&& forall|i: int| 0 <= i < p.len() ==> #[trigger] p[i] < n
    &&& forall|i: int, j: int| 0 <= i < j < p.len() ==> p[i] != p[j]
    &&& forall|x: usize| x < n ==> p.contains(x)
}

/// `p` orders `keys` ascending, keeping equal keys in their original order.
pub open spec fn sorted_stable(keys: Seq<Seq<char>>, p: Seq<usize>) -> bool {
    forall|i: int, j: int|
        #![trigger p[i], p[j]]
        0 <= i < j < p.len() ==> lex_lt(keys[p[i] as int], keys[p[j] as int]) || (keys[p[i] as int]
            == keys[p[j] as int] && p[i] < p[j])
}

/// The index order that sorts `keys` ascending, stably.
pub fn sort_order(keys: &Vec<Vec<char>>) -> (p: Vec<usize>)
    ensures
        is_perm(p@, keys.len() as nat),
        sorted_stable(vv(keys@), p@),
{
    let ghost kv = vv(keys@);
    let mut p: Vec<usize> = Vec::new();
    let mut k: usize = 0;
    while k < keys.len()
        invariant
            0 <= k <= keys.len(),
            kv == vv(keys@),
            is_perm(p@, k as nat),
            sorted_stable(kv, p@),
        decreases keys.len() - k,
    {
        let mut pos: usize = 0;
        while pos < p.len() && !lex_less(keys[k].as_slice(), keys[p[pos]].as_slice())
            invariant
                0 <= pos <= p.len(),
                k < keys.len(),
                kv == vv(keys@),
                is_perm(p@, k as nat),
                forall|j: int| 0 <= j < pos ==> !lex_lt(kv[k as int], #[trigger] kv[p@[j] as int]),
            decreases p.len() - pos,
        {
            assert(keys@[p@[pos as int] as int]@ == kv[p@[pos as int] as int]);
            assert(keys@[k as int]@ == kv[k as int]);
            pos = pos + 1;
        }
        if pos < p.len() {
            assert(keys@[p@[pos as int] as int]@ == kv[p@[pos as int] as int]);
        }
        assert(keys@[k as int]@ == kv[k as int]);
        let ghost old_p = p@;
        p.insert(pos, k);
        assert(p@ == old_p.take(pos as int).push(k) + old_p.skip(pos as int));
        assert forall|i: int| 0 <= i < p@.len() implies #[trigger] p@[i] < k + 1 by {
            if i < pos {
                assert(p@[i] == old_p[i]);
            } else if i > pos {
                assert(p@[i] == old_p[i - 1]);
            }
        }
        assert forall|x: usize| x < k + 1 implies p@.contains(x) by {
            if x == k {
                assert(p@[pos as int] == k);
            } else {
                assert(old_p.contains(x));
                let i = choose|i: int| 0 <= i < old_p.len() && old_p[i] == x;
                if i < pos {
                    assert(p@[i] == x);
                } else {
                    assert(p@[i + 1] == x);
                }
            }
        }
        assert forall|i: int, j: int| 0 <= i < j < p@.len() implies p@[i] != p@[j] by {
            if i < pos {
                assert(p@[i] == old_p[i]);
            } else if i > pos {
                assert(p@[i] == old_p[i - 1]);
            }
            if j < pos {
                assert(p@[j] == old_p[j]);
            } else if j > pos {
                assert(p@[j] == old_p[j - 1]);
            }
        }
        assert forall|i: int, j: int|
            #![trigger p@[i], p@[j]]
            0 <= i < j < p@.len() implies lex_lt(kv[p@[i] as int], kv[p@[j] as int]) || (kv[p@[i] as int]
                == kv[p@[j] as int] && p@[i] < p@[j]) by {
            if j < pos {
                assert(p@[i] == old_p[i] && p@[j] == old_p[j]);
            } else if j == pos {
                assert(p@[i] == old_p[i]);
                assert(!lex_lt(kv[k as int], kv[old_p[i] as int]));
                lemma_lex_total(kv[k as int], kv[old_p[i] as int]);
            } else if i > pos {
                assert(p@[i] == old_p[i - 1] && p@[j] == old_p[j - 1]);
            } else if i == pos {
                assert(p@[j] == old_p[j - 1]);
                assert(lex_lt(kv[k as int], kv[old_p[pos as int] as int]));
                if j - 1 > pos {
                    let a = old_p[pos as int];
                    let b = old_p[j - 1];
                    assert(lex_lt(kv[a as int], kv[b as int]) || kv[a as int] == kv[b as int]);
                    if lex_lt(kv[a as int], kv[b as int]) {
                        lemma_lex_trans(kv[k as int], kv[a as int], kv[b as int]);
                    }
                }
            } else {
                assert(p@[i] == old_p[i] && p@[j] == old_p[j - 1]);
            }
        }
        k = k + 1;
    }
    p
}

} // verus!
