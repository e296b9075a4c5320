//! Nullifiers, pools and the two total orders on 32-byte values.
//!
//! Sapling compares nullifiers byte by byte from the first byte (lexicographic
//! order). Orchard reads them as little-endian field elements, so the
//! comparison starts at the last byte. Both are expressed through one notion:
//! the `k`-th significant digit of a nullifier under a pool.
use vstd::prelude::*;

verus! {

/// Width in bytes of one nullifier.
pub const NULLIFIER_SIZE: usize = 32;

/// A nullifier: exactly 32 bytes, equal iff byte-equal.
pub type Nullifier = [u8; 32];

/// Zcash shielded pools.
#[derive(Debug, Clone, Copy, PartialEq, Eq, Structural)]
pub enum Pool {
    /// Sapling pool: byte-lexicographic order.
    Sapling,
    /// Orchard pool: little-endian field order.
    Orchard,
}

/// Which byte holds the `k`-th most significant digit under `pool`.
pub open spec fn digit_index(pool: Pool, k: int) -> int {
    match pool {
        Pool::Sapling => k,
        Pool::Orchard => 31 - k,
    }
}

/// The `k`-th most significant digit of `a` under `pool`.
pub open spec fn digit(pool: Pool, a: Seq<u8>, k: int) -> u8 {
    a[digit_index(pool, k)]
}

/// `a` and `b` agree on their `k` most significant digits and `a` is smaller
/// at digit `k`.
pub open spec fn smaller_at(pool: Pool, a: Seq<u8>, b: Seq<u8>, k: int) -> bool {
    &&& 0 <= k < 32
    &&& digit(pool, a, k) < digit(pool, b, k)
    &&& forall|j: int| 0 <= j < k ==> #[trigger] digit(pool, a, j) == digit(pool, b, j)
}

/// Strict order of the pool on 32-byte values.
pub open spec fn nf_lt(pool: Pool, a: Seq<u8>, b: Seq<u8>) -> bool {
    exists|k: int| #[trigger] smaller_at(pool, a, b, k)
}

/// Every pair of distinct positions of `s` is in strictly increasing pool order.
pub open spec fn strictly_sorted(pool: Pool, s: Seq<Nullifier>) -> bool {
    forall|i: int, j: int| 0 <= i < j < s.len() ==> nf_lt(pool, #[trigger] s[i]@, #[trigger] s[j]@)
}

/// Non-strict order of the pool.
pub open spec fn nf_le(pool: Pool, a: Seq<u8>, b: Seq<u8>) -> bool {
    nf_lt(pool, a, b) || a == b
}

proof fn lemma_digit_index_bijective(pool: Pool, i: int)
    requires
        0 <= i < 32,
    ensures
        0 <= digit_index(pool, i) < 32,
        digit_index(pool, digit_index(pool, i)) == i,
{
}

/// No value is smaller than itself.
pub proof fn lemma_lt_irreflexive(pool: Pool, a: Seq<u8>)
    ensures
        !nf_lt(pool, a, a),
{
}

/// The order is asymmetric.
pub proof fn lemma_lt_asymmetric(pool: Pool, a: Seq<u8>, b: Seq<u8>)
    requires
        nf_lt(pool, a, b),
    ensures
        !nf_lt(pool, b, a),
        a != b,
{
    let k1 = choose|k: int| smaller_at(pool, a, b, k);
    if nf_lt(pool, b, a) {
        let k2 = choose|k: int| smaller_at(pool, b, a, k);
        if k1 < k2 {
            assert(digit(pool, b, k1) == digit(pool, a, k1));
        } else if k2 < k1 {
            assert(digit(pool, a, k2) == digit(pool, b, k2));
        }
    }
}

/// The order is transitive.
pub proof fn lemma_lt_transitive(pool: Pool, a: Seq<u8>, b: Seq<u8>, c: Seq<u8>)
    requires
        nf_lt(pool, a, b),
        nf_lt(pool, b, c),
    ensures
        nf_lt(pool, a, c),
{
    let k1 = choose|k: int| smaller_at(pool, a, b, k);
    let k2 = choose|k: int| smaller_at(pool, b, c, k);
    let k = if k1 < k2 { k1 } else { k2 };
    assert forall|j: int| 0 <= j < k implies #[trigger] digit(pool, a, j) == digit(pool, c, j) by {
        assert(digit(pool, a, j) == digit(pool, b, j));
        assert(digit(pool, b, j) == digit(pool, c, j));
    }
    if k1 == k2 {
    } else if k1 < k2 {
        assert(digit(pool, b, k1) == digit(pool, c, k1));
    } else {
        assert(digit(pool, a, k2) == digit(pool, b, k2));
    }
    assert(smaller_at(pool, a, c, k));
}

proof fn lemma_first_difference(pool: Pool, a: Seq<u8>, b: Seq<u8>, k: int)
    requires
        a.len() == 32,
        b.len() == 32,
        a != b,
        0 <= k <= 32,
        forall|j: int| 0 <= j < k ==> #[trigger] digit(pool, a, j) == digit(pool, b, j),
    ensures
        nf_lt(pool, a, b) || nf_lt(pool, b, a),
    decreases 32 - k,
{
    if k == 32 {
        assert forall|i: int| 0 <= i < 32 implies a[i] == b[i] by {
            lemma_digit_index_bijective(pool, i);
            assert(digit(pool, a, digit_index(pool, i)) == digit(pool, b, digit_index(pool, i)));
        }
        assert(a =~= b);
    } else if digit(pool, a, k) < digit(pool, b, k) {
        assert(smaller_at(pool, a, b, k));
    } else if digit(pool, b, k) < digit(pool, a, k) {
        assert(smaller_at(pool, b, a, k));
    } else {
        lemma_first_difference(pool, a, b, k + 1);
    }
}

/// Any two distinct 32-byte values are comparable.
pub proof fn lemma_lt_total(pool: Pool, a: Seq<u8>, b: Seq<u8>)
    requires
        a.len() == 32,
        b.len() == 32,
        a != b,
    ensures
        nf_lt(pool, a, b) || nf_lt(pool, b, a),
{
    lemma_first_difference(pool, a, b, 0);
}

/// Two strictly sorted sequences with the same elements are equal.
pub proof fn lemma_sorted_unique(pool: Pool, s: Seq<Nullifier>, t: Seq<Nullifier>)
    requires
        strictly_sorted(pool, s),
        strictly_sorted(pool, t),
        forall|x: Nullifier| s.contains(x) <==> t.contains(x),
    ensures
        s == t,
    decreases s.len(),
{
    if s.len() == 0 {
        if t.len() > 0 {
            assert(t.contains(t[0]));
        }
        assert(s =~= t);
    } else {
        assert(s.contains(s[0]));
        assert(t.len() > 0);
        assert(t.contains(t[0]));
        let i = choose|i: int| 0 <= i < s.len() && s[i] == t[0];
        let j = choose|j: int| 0 <= j < t.len() && t[j] == s[0];
        if s[0] != t[0] {
            assert(i > 0);
            assert(j > 0);
            assert(nf_lt(pool, s[0]@, s[i]@));
            assert(nf_lt(pool, t[0]@, t[j]@));
            lemma_lt_asymmetric(pool, s[0]@, t[0]@);
        }
        let s1 = s.drop_first();
        let t1 = t.drop_first();
        assert forall|x: Nullifier| s1.contains(x) <==> t1.contains(x) by {
            if s1.contains(x) {
                let p = choose|p: int| 0 <= p < s1.len() && s1[p] == x;
                assert(s[p + 1] == x);
                assert(nf_lt(pool, s[0]@, s[p + 1]@));
                lemma_lt_irreflexive(pool, x@);
                assert(t.contains(x));
                let q = choose|q: int| 0 <= q < t.len() && t[q] == x;
                assert(q != 0);
                assert(t1[q - 1] == x);
            }
            if t1.contains(x) {
                let p = choose|p: int| 0 <= p < t1.len() && t1[p] == x;
                assert(t[p + 1] == x);
                assert(nf_lt(pool, t[0]@, t[p + 1]@));
                lemma_lt_irreflexive(pool, x@);
                assert(s.contains(x));
                let q = choose|q: int| 0 <= q < s.len() && s[q] == x;
                assert(q != 0);
                assert(s1[q - 1] == x);
            }
        }
        lemma_sorted_unique(pool, s1, t1);
        assert(s =~= t1.insert(0, t[0]));
        assert(t =~= t1.insert(0, t[0]));
    }
}

/// A sequence whose neighbours are in strict order is strictly sorted.
pub proof fn lemma_adjacent_sorted(pool: Pool, s: Seq<Nullifier>)
    requires
        forall|i: int| 0 <= i < s.len() - 1 ==> nf_lt(pool, #[trigger] s[i]@, s[i + 1]@),
    ensures
        strictly_sorted(pool, s),
    decreases s.len(),
{
    if s.len() > 1 {
        let p = s.drop_last();
        assert forall|i: int| 0 <= i < p.len() - 1 implies nf_lt(pool, #[trigger] p[i]@, p[i + 1]@) by {
            assert(p[i] == s[i] && p[i + 1] == s[i + 1]);
        }
        lemma_adjacent_sorted(pool, p);
        assert forall|i: int, j: int| 0 <= i < j < s.len() implies nf_lt(pool, #[trigger] s[i]@, #[trigger] s[j]@) by {
            if j < s.len() - 1 {
                assert(p[i] == s[i] && p[j] == s[j]);
            } else if i < j - 1 {
                assert(p[i] == s[i] && p[j - 1] == s[j - 1]);
                assert(nf_lt(pool, s[i]@, s[j - 1]@));
                assert(nf_lt(pool, s[j - 1]@, s[j]@));
                lemma_lt_transitive(pool, s[i]@, s[j - 1]@, s[j]@);
            }
        }
    }
}

/// A sequence whose neighbours are in non-strict order is sorted: every
/// pair is in non-strict order.
pub proof fn lemma_adjacent_le(pool: Pool, s: Seq<Nullifier>)
    requires
        forall|i: int| 0 <= i < s.len() - 1 ==> nf_le(pool, #[trigger] s[i]@, s[i + 1]@),
    ensures
        forall|i: int, j: int| 0 <= i < j < s.len() ==> nf_le(pool, #[trigger] s[i]@, #[trigger] s[j]@),
    decreases s.len(),
{
    if s.len() > 1 {
        let p = s.drop_last();
        assert forall|i: int| 0 <= i < p.len() - 1 implies nf_le(pool, #[trigger] p[i]@, p[i + 1]@) by {
            assert(p[i] == s[i] && p[i + 1] == s[i + 1]);
        }
        lemma_adjacent_le(pool, p);
        assert forall|i: int, j: int| 0 <= i < j < s.len() implies nf_le(pool, #[trigger] s[i]@, #[trigger] s[j]@) by {
            if j < s.len() - 1 {
                assert(p[i] == s[i] && p[j] == s[j]);
            } else if i < j - 1 {
                assert(p[i] == s[i] && p[j - 1] == s[j - 1]);
                assert(nf_le(pool, s[i]@, s[j - 1]@));
                assert(nf_le(pool, s[j - 1]@, s[j]@));
                if nf_lt(pool, s[i]@, s[j - 1]@) && nf_lt(pool, s[j - 1]@, s[j]@) {
                    lemma_lt_transitive(pool, s[i]@, s[j - 1]@, s[j]@);
                }
            }
        }
    }
}

/// Three-way comparison of two nullifiers under the pool's order.
pub fn nf_cmp(pool: Pool, a: &Nullifier, b: &Nullifier) -> (r: core::cmp::Ordering)
    ensures
        (r == core::cmp::Ordering::Less) <==> nf_lt(pool, a@, b@),
        (r == core::cmp::Ordering::Greater) <==> nf_lt(pool, b@, a@),
        (r == core::cmp::Ordering::Equal) <==> a@ == b@,
{
    let mut k: usize = 0;
    while k < 32
        invariant
            0 <= k <= 32,
            forall|j: int| 0 <= j < k ==> #[trigger] digit(pool, a@, j) == digit(pool, b@, j),
        decreases 32 - k,
    {
        let idx: usize = match pool {
            Pool::Sapling => k,
            Pool::Orchard => 31 - k,
        };
        if a[idx] < b[idx] {
            assert(smaller_at(pool, a@, b@, k as int));
            proof {
                lemma_lt_asymmetric(pool, a@, b@);
            }
            return core::cmp::Ordering::Less;
        } else if a[idx] > b[idx] {
            assert(smaller_at(pool, b@, a@, k as int));
            proof {
                lemma_lt_asymmetric(pool, b@, a@);
            }
            return core::cmp::Ordering::Greater;
        }
        k = k + 1;
    }
    assert forall|i: int| 0 <= i < 32 implies a@[i] == b@[i] by {
        lemma_digit_index_bijective(pool, i);
        assert(digit(pool, a@, digit_index(pool, i)) == digit(pool, b@, digit_index(pool, i)));
    }
    assert(a@ =~= b@);
    proof {
        lemma_lt_irreflexive(pool, a@);
    }
    core::cmp::Ordering::Equal
}

/// Copies a slice of nullifiers into a new vector.
pub fn copy_nullifiers(s: &[Nullifier]) -> (r: Vec<Nullifier>)
    ensures
        r@ == s@,
{
    let mut out: Vec<Nullifier> = Vec::with_capacity(s.len());
    let mut i: usize = 0;
    while i < s.len()
        invariant
            0 <= i <= s@.len(),
            out@ == s@.take(i as int),
        decreases s@.len() - i,
    {
        out.push(s[i]);
        i = i + 1;
        assert(out@ =~= s@.take(i as int));
    }
    assert(s@.take(s@.len() as int) =~= s@);
    out
}

/// Byte-equality of two nullifiers.
pub fn nf_eq(a: &Nullifier, b: &Nullifier) -> (r: bool)
    ensures
        r <==> a@ == b@,
{
    let mut k: usize = 0;
    while k < 32
        invariant
            0 <= k <= 32,
            forall|j: int| 0 <= j < k ==> a@[j] == b@[j],
        decreases 32 - k,
    {
        if a[k] != b[k] {
            return false;
        }
        k = k + 1;
    }
    assert(a@ =~= b@);
    true
}

} // verus!
