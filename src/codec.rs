//! Byte layouts: packed 32-byte nodes, little-endian `u64` headers, and the
//! snapshot file of a nullifier set (nullifiers back to back, no header).
use vstd::prelude::*;

use crate::order::Nullifier;

verus! {

/// `bytes` is the concatenation of the 32-byte values `xs`.
pub open spec fn packed(bytes: Seq<u8>, xs: Seq<Seq<u8>>) -> bool {
    &&& bytes.len() == 32 * xs.len()
    &&& forall|k: int| 0 <= k < xs.len() ==> (#[trigger] xs[k]).len() == 32
    &&& forall|k: int, j: int| 0 <= k < xs.len() && 0 <= j < 32 ==> bytes[32 * k + j] == #[trigger] xs[k][j]
}

/// The views of a sequence of nullifiers.
pub open spec fn views(xs: Seq<Nullifier>) -> Seq<Seq<u8>> {
    xs.map_values(|x: Nullifier| x@)
}

/// One byte string packs at most one sequence of 32-byte values.
pub proof fn lemma_packed_unique(bytes: Seq<u8>, xs: Seq<Seq<u8>>, ys: Seq<Seq<u8>>)
    requires
        packed(bytes, xs),
        packed(bytes, ys),
    ensures
        xs == ys,
{
    assert(xs.len() == ys.len());
    assert forall|k: int| 0 <= k < xs.len() implies xs[k] == ys[k] by {
        assert forall|j: int| 0 <= j < 32 implies xs[k][j] == ys[k][j] by {
            assert(bytes[32 * k + j] == xs[k][j]);
            assert(bytes[32 * k + j] == ys[k][j]);
        }
        assert(xs[k] =~= ys[k]);
    }
    assert(xs =~= ys);
}

/// Packing distributes over concatenation.
pub proof fn lemma_packed_concat(x: Seq<u8>, xs: Seq<Seq<u8>>, y: Seq<u8>, ys: Seq<Seq<u8>>)
    requires
        packed(x, xs),
        packed(y, ys),
    ensures
        packed(x + y, xs + ys),
{
    let b = x + y;
    let vs = xs + ys;
    assert forall|k: int| 0 <= k < vs.len() implies (#[trigger] vs[k]).len() == 32 by {
        if k >= xs.len() {
            assert(vs[k] == ys[k - xs.len()]);
        }
    }
    assert forall|k: int, j: int| 0 <= k < vs.len() && 0 <= j < 32 implies b[32 * k + j] == #[trigger] vs[k][j] by {
        if k < xs.len() {
            assert(b[32 * k + j] == x[32 * k + j]);
        } else {
            let k2 = k - xs.len();
            assert(vs[k] == ys[k2]);
            assert(32 * k + j == x.len() + 32 * k2 + j);
            assert(b[32 * k + j] == y[32 * k2 + j]);
        }
    }
}

/// Nullifiers are equal when their views are.
pub proof fn lemma_views_injective(xs: Seq<Nullifier>, ys: Seq<Nullifier>)
    requires
        views(xs) == views(ys),
    ensures
        xs == ys,
{
    assert(xs.len() == views(xs).len());
    assert(ys.len() == views(ys).len());
    assert forall|k: int| 0 <= k < xs.len() implies xs[k] == ys[k] by {
        assert(views(xs)[k] == xs[k]@);
        assert(views(ys)[k] == ys[k]@);
        assert(xs[k]@ =~= ys[k]@);
    }
    assert(xs =~= ys);
}

/// Appends the 32 bytes of each value to `out`, in order.
pub fn pack_into(xs: &[Nullifier], out: &mut Vec<u8>)
    requires
        old(out)@.len() + 32 * xs@.len() <= usize::MAX,
    ensures
        final(out)@.len() == old(out)@.len() + 32 * xs@.len(),
        final(out)@.take(old(out)@.len() as int) == old(out)@,
        packed(final(out)@.skip(old(out)@.len() as int), views(xs@)),
{
    let ghost start = out@.len();
    let ghost prefix = out@;
    let mut k: usize = 0;
    while k < xs.len()
        invariant
            0 <= k <= xs@.len(),
            start + 32 * xs@.len() <= usize::MAX,
            out@.len() == start + 32 * k,
            out@.take(start as int) == prefix,
            forall|m: int, j: int| 0 <= m < k && 0 <= j < 32 ==> out@[start + 32 * m + j] == #[trigger] xs@[m]@[j],
        decreases xs@.len() - k,
    {
        let x = xs[k];
        let mut j: usize = 0;
        while j < 32
            invariant
                0 <= j <= 32,
                k < xs@.len(),
                x == xs@[k as int],
                start + 32 * xs@.len() <= usize::MAX,
                out@.len() == start + 32 * k + j,
                out@.take(start as int) == prefix,
                forall|m: int, i: int| 0 <= m < k && 0 <= i < 32 ==> out@[start + 32 * m + i] == #[trigger] xs@[m]@[i],
                forall|i: int| 0 <= i < j ==> out@[start + 32 * k + i] == x@[i],
            decreases 32 - j,
        {
            let ghost before = out@;
            out.push(x[j]);
            proof {
                assert(out@.take(start as int) =~= before.take(start as int));
                assert forall|m: int, i: int| 0 <= m < k && 0 <= i < 32 implies out@[start + 32 * m + i] == #[trigger] xs@[m]@[i] by {
                    assert(out@[start + 32 * m + i] == before[start + 32 * m + i]);
                }
            }
            j = j + 1;
        }
        k = k + 1;
    }
    proof {
        let tail = out@.skip(start as int);
        let vs = views(xs@);
        assert forall|m: int, j: int| 0 <= m < vs.len() && 0 <= j < 32 implies tail[32 * m + j] == #[trigger] vs[m][j] by {
            assert(vs[m] == xs@[m]@);
            assert(out@[start + 32 * m + j] == xs@[m]@[j]);
        }
    }
}

/// Reads `count` 32-byte values starting at byte `start`.
pub fn unpack_from(bytes: &[u8], start: usize, count: usize) -> (r: Vec<Nullifier>)
    requires
        start + 32 * count <= bytes@.len(),
    ensures
        packed(bytes@.subrange(start as int, start + 32 * count), views(r@)),
        r@.len() == count,
{
    let total = bytes.len();
    let mut out: Vec<Nullifier> = Vec::with_capacity(count);
    let mut k: usize = 0;
    while k < count
        invariant
            0 <= k <= count,
            total == bytes@.len(),
            start + 32 * count <= bytes@.len(),
            out@.len() == k,
            forall|m: int, j: int| 0 <= m < k && 0 <= j < 32 ==> #[trigger] out@[m]@[j] == bytes@[start + 32 * m + j],
        decreases count - k,
    {
        let mut node = [0u8; 32];
        let mut j: usize = 0;
        while j < 32
            invariant
                0 <= j <= 32,
                k < count,
                total == bytes@.len(),
                start + 32 * count <= bytes@.len(),
                forall|i: int| 0 <= i < j ==> node@[i] == bytes@[start + 32 * k + i],
            decreases 32 - j,
        {
            node[j] = bytes[start + 32 * k + j];
            j = j + 1;
        }
        out.push(node);
        k = k + 1;
    }
    proof {
        let tail = bytes@.subrange(start as int, start + 32 * count);
        let vs = views(out@);
        assert forall|m: int, j: int| 0 <= m < vs.len() && 0 <= j < 32 implies tail[32 * m + j] == #[trigger] vs[m][j] by {
            assert(vs[m] == out@[m]@);
            assert(out@[m]@[j] == bytes@[start + 32 * m + j]);
        }
    }
    out
}

/// Appends the snapshot bytes of `nullifiers` to `out`: their 32 bytes each,
/// back to back, with no header.
pub fn write_nullifiers(nullifiers: &[Nullifier], out: &mut Vec<u8>)
    requires
        old(out)@.len() + 32 * nullifiers@.len() <= usize::MAX,
    ensures
        final(out)@.len() == old(out)@.len() + 32 * nullifiers@.len(),
        final(out)@.take(old(out)@.len() as int) == old(out)@,
        packed(final(out)@.skip(old(out)@.len() as int), views(nullifiers@)),
{
    pack_into(nullifiers, out);
}

/// A snapshot file whose length is not a multiple of 32 bytes.
#[derive(Debug, Clone, Copy, PartialEq, Eq, Structural)]
pub struct InvalidLength {
    /// The length that was found.
    pub len: usize,
}

/// Reads a snapshot file: the bytes as 32-byte nullifiers, with no
/// per-element parsing.
pub fn read_nullifiers(bytes: &[u8]) -> (r: Result<Vec<Nullifier>, InvalidLength>)
    ensures
        bytes@.len() % 32 != 0 ==> r == Err::<Vec<Nullifier>, InvalidLength>(InvalidLength { len: bytes@.len() as usize }),
        bytes@.len() % 32 == 0 ==> (r matches Ok(v) && packed(bytes@, views(v@))),
{
    if bytes.len() % 32 != 0 {
        return Err(InvalidLength { len: bytes.len() });
    }
    let v = unpack_from(bytes, 0, bytes.len() / 32);
    assert(bytes@.subrange(0, 32 * (bytes@.len() / 32) as int) =~= bytes@);
    Ok(v)
}

/// Round trip of the snapshot file: reading what was written gives the
/// nullifiers back.
pub proof fn lemma_nullifiers_round_trip(xs: Seq<Nullifier>, bytes: Seq<u8>, ys: Seq<Nullifier>)
    requires
        packed(bytes, views(xs)),
        packed(bytes, views(ys)),
    ensures
        ys == xs,
{
    lemma_packed_unique(bytes, views(xs), views(ys));
    lemma_views_injective(xs, ys);
}

/// The eight little-endian bytes of `n`.
pub open spec fn le_bytes(n: u64) -> Seq<u8> {
    seq![
        (n & 0xff) as u8,
        ((n >> 8u64) & 0xff) as u8,
        ((n >> 16u64) & 0xff) as u8,
        ((n >> 24u64) & 0xff) as u8,
        ((n >> 32u64) & 0xff) as u8,
        ((n >> 40u64) & 0xff) as u8,
        ((n >> 48u64) & 0xff) as u8,
        ((n >> 56u64) & 0xff) as u8,
    ]
}

/// The `u64` whose little-endian bytes open `h`.
pub open spec fn le_value(h: Seq<u8>) -> u64 {
    le_value_of(h[0], h[1], h[2], h[3], h[4], h[5], h[6], h[7])
}

/// The `u64` with little-endian bytes `b0` to `b7`.
pub open spec fn le_value_of(b0: u8, b1: u8, b2: u8, b3: u8, b4: u8, b5: u8, b6: u8, b7: u8) -> u64 {
    (b0 as u64) | ((b1 as u64) << 8u64) | ((b2 as u64) << 16u64) | ((b3 as u64) << 24u64) | ((b4 as u64) << 32u64)
        | ((b5 as u64) << 40u64) | ((b6 as u64) << 48u64) | ((b7 as u64) << 56u64)
}

/// Decoding the little-endian bytes of `n` gives `n`.
pub proof fn lemma_le_round_trip(n: u64)
    ensures
        le_value(le_bytes(n)) == n,
{
    let b = le_bytes(n);
    assert(le_value_of(
        (n & 0xff) as u8,
        ((n >> 8u64) & 0xff) as u8,
        ((n >> 16u64) & 0xff) as u8,
        ((n >> 24u64) & 0xff) as u8,
        ((n >> 32u64) & 0xff) as u8,
        ((n >> 40u64) & 0xff) as u8,
        ((n >> 48u64) & 0xff) as u8,
        ((n >> 56u64) & 0xff) as u8,
    ) == n) by (bit_vector);
}

/// Appends the little-endian bytes of `n`.
pub fn push_le_u64(n: u64, out: &mut Vec<u8>)
    ensures
        final(out)@ == old(out)@ + le_bytes(n),
{
    out.push((n & 0xff) as u8);
    out.push(((n >> 8) & 0xff) as u8);
    out.push(((n >> 16) & 0xff) as u8);
    out.push(((n >> 24) & 0xff) as u8);
    out.push(((n >> 32) & 0xff) as u8);
    out.push(((n >> 40) & 0xff) as u8);
    out.push(((n >> 48) & 0xff) as u8);
    out.push(((n >> 56) & 0xff) as u8);
    assert(final(out)@ =~= old(out)@ + le_bytes(n));
}

/// Reads a little-endian `u64` from the first eight bytes.
pub fn read_le_u64(bytes: &[u8]) -> (r: u64)
    requires
        bytes@.len() >= 8,
    ensures
        r == le_value(bytes@),
{
    (bytes[0] as u64) | ((bytes[1] as u64) << 8) | ((bytes[2] as u64) << 16) | ((bytes[3] as u64) << 24) | ((
    bytes[4] as u64) << 32) | ((bytes[5] as u64) << 40) | ((bytes[6] as u64) << 48) | ((bytes[7] as u64) << 56)
}

} // verus!
