//! Canonicalisation of nullifier sets: sort under the pool's order, then drop
//! duplicates.
use vstd::prelude::*;

use crate::order::{lemma_lt_asymmetric, lemma_lt_irreflexive, lemma_lt_transitive, lemma_sorted_unique, nf_cmp, nf_eq, nf_le, nf_lt, strictly_sorted, Nullifier, Pool};

verus! {

broadcast use vstd::seq_lib::group_to_multiset_ensures;

/// `r` is the canonical form of `xs` under `pool`: strictly sorted, with
/// exactly the elements of `xs`.
pub open spec fn is_sanitised(pool: Pool, xs: Seq<Nullifier>, r: Seq<Nullifier>) -> bool {
    &&& strictly_sorted(pool, r)
    &&& forall|x: Nullifier| r.contains(x) <==> xs.contains(x)
}

/// Relies on `slice::sort_unstable_by`: the slice is permuted into the order
/// that the comparator gives, here the pool's total order.
#[verifier::external_body]
fn sort_by_pool(v: &mut Vec<Nullifier>, pool: Pool)
    ensures
        final(v)@.to_multiset() == old(v)@.to_multiset(),
        forall|i: int, j: int|
            0 <= i < j < final(v)@.len() ==> nf_le(pool, #[trigger] final(v)@[i]@, #[trigger] final(v)@[j]@),
{
    v.sort_unstable_by(|a, b| nf_cmp(pool, a, b));
}

/// Keeps the first of each run of equal values in a sorted sequence.
pub(crate) fn dedup_sorted(pool: Pool, v: &Vec<Nullifier>) -> (r: Vec<Nullifier>)
    requires
        forall|i: int, j: int| 0 <= i < j < v@.len() ==> nf_le(pool, #[trigger] v@[i]@, #[trigger] v@[j]@),
    ensures
        is_sanitised(pool, v@, r@),
{
    let mut out: Vec<Nullifier> = Vec::new();
    let mut i: usize = 0;
    while i < v.len()
        invariant
            0 <= i <= v@.len(),
            forall|a: int, b: int| 0 <= a < b < v@.len() ==> nf_le(pool, #[trigger] v@[a]@, #[trigger] v@[b]@),
            strictly_sorted(pool, out@),
            forall|x: Nullifier| out@.contains(x) <==> v@.take(i as int).contains(x),
            i > 0 ==> out@.len() > 0 && out@.last() == v@[i - 1],
            i == 0 ==> out@.len() == 0,
        decreases v@.len() - i,
    {
        let x = v[i];
        let fresh = out.len() == 0 || !nf_eq(&out[out.len() - 1], &x);
        proof {
            assert(v@.take(i + 1) =~= v@.take(i as int).push(x));
        }
        if fresh {
            proof {
                if out@.len() > 0 {
                    let last = out@.last();
                    assert(nf_le(pool, v@[i - 1]@, v@[i as int]@));
                    assert(last@ != x@);
                    assert(last != x);
                    assert(nf_lt(pool, last@, x@));
                    assert forall|a: int| 0 <= a < out@.len() - 1 implies nf_lt(pool, #[trigger] out@[a]@, x@) by {
                        assert(nf_lt(pool, out@[a]@, out@[out@.len() - 1]@));
                        lemma_lt_transitive(pool, out@[a]@, last@, x@);
                    }
                }
            }
            let ghost before = out@;
            out.push(x);
            proof {
                assert(out@ == before.push(x));
                assert forall|a: int, b: int| 0 <= a < b < out@.len() implies nf_lt(pool, #[trigger] out@[a]@, #[trigger] out@[b]@) by {
                    if b < out@.len() - 1 {
                        assert(out@[a] == before[a]);
                        assert(out@[b] == before[b]);
                    }
                }
                assert forall|y: Nullifier| out@.contains(y) <==> v@.take(i + 1).contains(y) by {
                    if out@.contains(y) && y != x {
                        let p = choose|p: int| 0 <= p < out@.len() && out@[p] == y;
                        assert(before[p] == y);
                        assert(before.contains(y));
                    }
                    if before.contains(y) {
                        let p = choose|p: int| 0 <= p < before.len() && before[p] == y;
                        assert(out@[p] == y);
                    }
                    if y == x {
                        assert(out@[out@.len() - 1] == x);
                    }
                    let t = v@.take(i as int);
                    assert(before.contains(y) <==> t.contains(y));
                    assert(v@.take(i + 1) == t.push(x));
                    if t.push(x).contains(y) && y != x {
                        let p = choose|p: int| 0 <= p < t.push(x).len() && t.push(x)[p] == y;
                        assert(t[p] == y);
                        assert(t.contains(y));
                    }
                    if t.contains(y) {
                        let p = choose|p: int| 0 <= p < t.len() && t[p] == y;
                        assert(t.push(x)[p] == y);
                    }
                    if y == x {
                        assert(t.push(x)[i as int] == x);
                    }
                }
            }
        } else {
            proof {
                assert(out@.last() == x);
                assert(out@.contains(x));
            }
        }
        i = i + 1;
    }
    proof {
        assert(v@.take(v@.len() as int) =~= v@);
    }
    out
}

/// Sorts `xs` under the pool's order and removes duplicates.
pub fn sanitise(pool: Pool, xs: Vec<Nullifier>) -> (r: Vec<Nullifier>)
    ensures
        is_sanitised(pool, xs@, r@),
{
    let mut v = xs;
    sort_by_pool(&mut v, pool);
    proof {
        assert forall|x: Nullifier| v@.contains(x) <==> xs@.contains(x) by {
            assert(v@.to_multiset().count(x) == xs@.to_multiset().count(x));
        }
    }
    dedup_sorted(pool, &v)
}

/// Canonicalising never lengthens: the result has at most as many
/// elements as the input.
pub proof fn lemma_sanitised_len(pool: Pool, xs: Seq<Nullifier>, r: Seq<Nullifier>)
    requires
        is_sanitised(pool, xs, r),
    ensures
        r.len() <= xs.len(),
{
    assert forall|i: int, j: int| 0 <= i < r.len() && 0 <= j < r.len() && i != j implies r[i] != r[j] by {
        if i < j {
            lemma_lt_asymmetric(pool, r[i]@, r[j]@);
        } else {
            lemma_lt_asymmetric(pool, r[j]@, r[i]@);
        }
    }
    r.unique_seq_to_set();
    xs.lemma_cardinality_of_set();
    assert(r.to_set() =~= xs.to_set());
}

/// Canonicalising twice gives what canonicalising once gives.
pub proof fn lemma_sanitise_idempotent(pool: Pool, xs: Seq<Nullifier>, once: Seq<Nullifier>, twice: Seq<Nullifier>)
    requires
        is_sanitised(pool, xs, once),
        is_sanitised(pool, once, twice),
    ensures
        twice == once,
{
    lemma_sorted_unique(pool, twice, once);
}

/// Inputs with the same elements canonicalise to the same sequence.
pub proof fn lemma_sanitise_deterministic(
    pool: Pool,
    xs: Seq<Nullifier>,
    ys: Seq<Nullifier>,
    a: Seq<Nullifier>,
    b: Seq<Nullifier>,
)
    requires
        forall|x: Nullifier| xs.contains(x) <==> ys.contains(x),
        is_sanitised(pool, xs, a),
        is_sanitised(pool, ys, b),
    ensures
        a == b,
{
    lemma_sorted_unique(pool, a, b);
}

/// A canonicalised nullifier set: strictly sorted under its pool's order.
/// It cannot be changed after construction.
pub struct SanitisedNullifierSet {
    pool: Pool,
    items: Vec<Nullifier>,
}

impl View for SanitisedNullifierSet {
    type V = Seq<Nullifier>;

    closed spec fn view(&self) -> Seq<Nullifier> {
        self.items@
    }
}

impl SanitisedNullifierSet {
    /// The pool whose order the set follows.
    pub closed spec fn pool_spec(&self) -> Pool {
        self.pool
    }

    #[verifier::type_invariant]
    closed spec fn inv(&self) -> bool {
        strictly_sorted(self.pool, self.items@)
    }

    /// Copies `xs` in, sorts it under `pool`'s order and drops duplicates.
    pub fn new(xs: Vec<Nullifier>, pool: Pool) -> (r: Self)
        ensures
            r.pool_spec() == pool,
            is_sanitised(pool, xs@, r@),
    {
        let items = sanitise(pool, xs);
        SanitisedNullifierSet { pool, items }
    }

    /// The pool whose order the set follows.
    pub fn pool(&self) -> (r: Pool)
        ensures
            r == self.pool_spec(),
    {
        self.pool
    }

    /// Number of distinct nullifiers.
    pub fn len(&self) -> (r: usize)
        ensures
            r == self@.len(),
    {
        self.items.len()
    }

    /// Whether the set holds no nullifier.
    pub fn is_empty(&self) -> (r: bool)
        ensures
            r <==> self@.len() == 0,
    {
        self.items.len() == 0
    }

    /// Read-only access to the sorted elements.
    pub fn as_slice(&self) -> (r: &[Nullifier])
        ensures
            r@ == self@,
            strictly_sorted(self.pool_spec(), r@),
    {
        proof {
            use_type_invariant(self);
        }
        self.items.as_slice()
    }

    /// Finds `needle`: `Ok(i)` where it stands, else `Err(i)` with `i` the
    /// gap index at which it would be inserted.
    pub fn binary_search(&self, needle: &Nullifier) -> (r: Result<usize, usize>)
        ensures
            search_result(self.pool_spec(), self@, *needle, r),
    {
        proof {
            use_type_invariant(self);
        }
        binary_search_sorted(self.pool, self.items.as_slice(), needle)
    }
}

/// What a search of `x` in the strictly sorted `s` returns.
pub open spec fn search_result(pool: Pool, s: Seq<Nullifier>, x: Nullifier, r: Result<usize, usize>) -> bool {
    match r {
        Ok(i) => i < s.len() && s[i as int] == x,
        Err(i) => gap_index_of(pool, s, x, i as int),
    }
}

/// `i` is the gap of `s` into which `x` falls, strictly between neighbours.
pub open spec fn gap_index_of(pool: Pool, s: Seq<Nullifier>, x: Nullifier, i: int) -> bool {
    &&& 0 <= i <= s.len()
    &&& forall|j: int| 0 <= j < i ==> nf_lt(pool, #[trigger] s[j]@, x@)
    &&& forall|j: int| i <= j < s.len() ==> nf_lt(pool, x@, #[trigger] s[j]@)
}

/// A gap index excludes membership.
pub proof fn lemma_gap_excludes_member(pool: Pool, s: Seq<Nullifier>, x: Nullifier, i: int)
    requires
        gap_index_of(pool, s, x, i),
    ensures
        !s.contains(x),
{
    if s.contains(x) {
        let j = choose|j: int| 0 <= j < s.len() && s[j] == x;
        lemma_lt_irreflexive(pool, x@);
        if j < i {
            assert(nf_lt(pool, s[j]@, x@));
        } else {
            assert(nf_lt(pool, x@, s[j]@));
        }
    }
}

/// Binary search of `x` in a strictly sorted slice.
pub fn binary_search_sorted(pool: Pool, s: &[Nullifier], x: &Nullifier) -> (r: Result<usize, usize>)
    requires
        strictly_sorted(pool, s@),
    ensures
        search_result(pool, s@, *x, r),
        r is Ok <==> s@.contains(*x),
{
    let mut lo: usize = 0;
    let mut hi: usize = s.len();
    while lo < hi
        invariant
            0 <= lo <= hi <= s@.len(),
            strictly_sorted(pool, s@),
            forall|j: int| 0 <= j < lo ==> nf_lt(pool, #[trigger] s@[j]@, x@),
            forall|j: int| hi <= j < s@.len() ==> nf_lt(pool, x@, #[trigger] s@[j]@),
        decreases hi - lo,
    {
        let mid = lo + (hi - lo) / 2;
        let c = nf_cmp(pool, &s[mid], x);
        match c {
            core::cmp::Ordering::Equal => {
                proof {
                    assert(s@[mid as int] =~= *x);
                    assert(s@[mid as int] == *x);
                }
                return Ok(mid);
            },
            core::cmp::Ordering::Less => {
                proof {
                    assert forall|j: int| 0 <= j < mid + 1 implies nf_lt(pool, #[trigger] s@[j]@, x@) by {
                        if j < mid {
                            assert(nf_lt(pool, s@[j]@, s@[mid as int]@));
                            lemma_lt_transitive(pool, s@[j]@, s@[mid as int]@, x@);
                        }
                    }
                }
                lo = mid + 1;
            },
            core::cmp::Ordering::Greater => {
                proof {
                    assert forall|j: int| mid <= j < s@.len() implies nf_lt(pool, x@, #[trigger] s@[j]@) by {
                        if j > mid {
                            assert(nf_lt(pool, s@[mid as int]@, s@[j]@));
                            lemma_lt_transitive(pool, x@, s@[mid as int]@, s@[j]@);
                        }
                    }
                }
                hi = mid;
            },
        }
    }
    proof {
        lemma_gap_excludes_member(pool, s@, *x, lo as int);
    }
    Err(lo)
}

} // verus!
