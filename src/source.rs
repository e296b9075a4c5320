//! Where chain nullifiers come from: tagged items of a source, split by pool,
//! and snapshot files read in chunks of any size.
use vstd::prelude::*;

use crate::codec::{lemma_packed_concat, packed, unpack_from, views};
use crate::order::{Nullifier, Pool};

verus! {

/// Buffer size of a file source, in bytes: 1024 nullifiers.
pub const BUF_SIZE: usize = 32 * 1024;

/// A nullifier tagged with its pool.
#[derive(Debug, Clone, Copy, PartialEq, Eq)]
pub struct PoolNullifier {
    /// The pool of the nullifier.
    pub pool: Pool,
    /// The nullifier.
    pub nullifier: Nullifier,
}

/// The nullifiers of `pool` among `items`, in order.
pub open spec fn of_pool(items: Seq<PoolNullifier>, pool: Pool) -> Seq<Nullifier>
    decreases items.len(),
{
    if items.len() == 0 {
        seq![]
    } else if items.last().pool == pool {
        of_pool(items.drop_last(), pool).push(items.last().nullifier)
    } else {
        of_pool(items.drop_last(), pool)
    }
}

/// Splits tagged nullifiers into the Sapling ones and the Orchard ones,
/// each in the order of `items`.
pub fn partition_by_pool(items: &[PoolNullifier]) -> (r: (Vec<Nullifier>, Vec<Nullifier>))
    ensures
        r.0@ == of_pool(items@, Pool::Sapling),
        r.1@ == of_pool(items@, Pool::Orchard),
{
    let mut sapling: Vec<Nullifier> = Vec::new();
    let mut orchard: Vec<Nullifier> = Vec::new();
    let mut i: usize = 0;
    while i < items.len()
        invariant
            0 <= i <= items@.len(),
            sapling@ == of_pool(items@.take(i as int), Pool::Sapling),
            orchard@ == of_pool(items@.take(i as int), Pool::Orchard),
        decreases items@.len() - i,
    {
        let item = items[i];
        proof {
            assert(items@.take(i + 1).drop_last() =~= items@.take(i as int));
            assert(items@.take(i + 1).last() == item);
        }
        match item.pool {
            Pool::Sapling => sapling.push(item.nullifier),
            Pool::Orchard => orchard.push(item.nullifier),
        }
        i = i + 1;
    }
    assert(items@.take(items@.len() as int) =~= items@);
    (sapling, orchard)
}

/// The nullifiers of one compact transaction, as a light node sends them.
#[derive(Debug, Clone, PartialEq, Eq)]
pub struct CompactTx {
    /// Nullifiers of the Sapling spends.
    pub spends: Vec<Vec<u8>>,
    /// Nullifiers of the Orchard actions.
    pub actions: Vec<Vec<u8>>,
}

/// A nullifier from the source whose length is not 32 bytes.
#[derive(Debug, Clone, Copy, PartialEq, Eq, Structural)]
pub struct InvalidNullifierLength {
    /// The length that was found.
    pub len: usize,
}

/// The tagged raw nullifiers of the transactions, in order: each
/// transaction's spends as Sapling, then its actions as Orchard.
pub open spec fn raw_items(txs: Seq<CompactTx>) -> Seq<(Pool, Seq<u8>)>
    decreases txs.len(),
{
    if txs.len() == 0 {
        seq![]
    } else {
        let tx = txs.last();
        raw_items(txs.drop_last()) + tagged(tx.spends@, Pool::Sapling) + tagged(tx.actions@, Pool::Orchard)
    }
}

/// Each byte string of `items`, tagged with `pool`.
pub open spec fn tagged(items: Seq<Vec<u8>>, pool: Pool) -> Seq<(Pool, Seq<u8>)> {
    Seq::new(items.len(), |i: int| (pool, items[i]@))
}

/// `out` tags exactly the items of `raw`, all of which are 32 bytes long.
pub open spec fn tags_all(raw: Seq<(Pool, Seq<u8>)>, out: Seq<PoolNullifier>) -> bool {
    &&& out.len() == raw.len()
    &&& forall|i: int| 0 <= i < raw.len() ==> (#[trigger] out[i]).pool == raw[i].0 && out[i].nullifier@ == raw[i].1
}

/// The first item of `raw` that is not 32 bytes long has length `len`.
pub open spec fn first_bad_length(raw: Seq<(Pool, Seq<u8>)>, len: int) -> bool {
    exists|i: int|
        0 <= i < raw.len() && (forall|j: int| 0 <= j < i ==> (#[trigger] raw[j]).1.len() == 32) && (#[trigger] raw[i]).1.len()
            != 32 && raw[i].1.len() == len
}

/// A byte string of exactly 32 bytes as a nullifier.
fn nullifier_from_bytes(b: &Vec<u8>) -> (r: Result<Nullifier, InvalidNullifierLength>)
    ensures
        b@.len() == 32 ==> (r matches Ok(n) && n@ == b@),
        b@.len() != 32 ==> (r matches Err(e) && e.len == b@.len()),
{
    if b.len() != 32 {
        return Err(InvalidNullifierLength { len: b.len() });
    }
    let mut n = [0u8; 32];
    let mut i: usize = 0;
    while i < 32
        invariant
            0 <= i <= 32,
            b@.len() == 32,
            forall|k: int| 0 <= k < i ==> n@[k] == b@[k],
        decreases 32 - i,
    {
        n[i] = b[i];
        i = i + 1;
    }
    assert(n@ =~= b@);
    Ok(n)
}

/// Appends the nullifiers of `items`, tagged with `pool`, stopping at the
/// first one that is not 32 bytes long.
fn push_tagged(pool: Pool, items: &Vec<Vec<u8>>, out: &mut Vec<PoolNullifier>) -> (r: Result<(), InvalidNullifierLength>)
    ensures
        ({
            let raw = tagged(items@, pool);
            &&& r is Ok ==> (forall|i: int| 0 <= i < raw.len() ==> (#[trigger] raw[i]).1.len() == 32) && final(out)@.len()
                == old(out)@.len() + raw.len() && final(out)@.take(old(out)@.len() as int) == old(out)@ && tags_all(
                raw,
                final(out)@.skip(old(out)@.len() as int),
            )
            &&& r matches Err(e) ==> first_bad_length(raw, e.len as int)
        }),
{
    let ghost start = out@.len();
    let ghost before = out@;
    let ghost raw = tagged(items@, pool);
    let mut i: usize = 0;
    while i < items.len()
        invariant
            0 <= i <= items@.len(),
            raw == tagged(items@, pool),
            out@.len() == start + i,
            out@.take(start as int) == before,
            forall|j: int| 0 <= j < i ==> (#[trigger] raw[j]).1.len() == 32,
            forall|j: int| 0 <= j < i ==> (#[trigger] out@[start + j]).pool == raw[j].0 && out@[start + j].nullifier@ == raw[j].1,
        decreases items@.len() - i,
    {
        match nullifier_from_bytes(&items[i]) {
            Ok(nullifier) => {
                let ghost prev = out@;
                out.push(PoolNullifier { pool, nullifier });
                proof {
                    assert(out@.take(start as int) =~= prev.take(start as int));
                    assert forall|j: int| 0 <= j < i + 1 implies (#[trigger] out@[start + j]).pool == raw[j].0
                        && out@[start + j].nullifier@ == raw[j].1 by {
                        if j < i {
                            assert(out@[start + j] == prev[start + j]);
                        }
                    }
                }
            },
            Err(e) => {
                assert(raw[i as int].1.len() != 32);
                assert(raw[i as int].1.len() == e.len);
                assert(0 <= i < raw.len() && (forall|j: int| 0 <= j < i ==> (#[trigger] raw[j]).1.len() == 32)
                    && (#[trigger] raw[i as int]).1.len() != 32 && raw[i as int].1.len() == e.len as int);
                return Err(e);
            },
        }
        i = i + 1;
    }
    proof {
        let tail = out@.skip(start as int);
        assert forall|j: int| 0 <= j < raw.len() implies (#[trigger] tail[j]).pool == raw[j].0 && tail[j].nullifier@ == raw[j].1 by {
            assert(tail[j] == out@[start + j]);
        }
    }
    Ok(())
}

/// The tagged nullifiers of a block's transactions: spends as Sapling,
/// actions as Orchard. A nullifier that is not 32 bytes long is an error
/// for the whole block.
pub fn block_nullifiers(txs: &[CompactTx]) -> (r: Result<Vec<PoolNullifier>, InvalidNullifierLength>)
    ensures
        r matches Ok(v) ==> tags_all(raw_items(txs@), v@),
        r matches Err(e) ==> first_bad_length(raw_items(txs@), e.len as int),
        (forall|i: int| 0 <= i < raw_items(txs@).len() ==> (#[trigger] raw_items(txs@)[i]).1.len() == 32) ==> r is Ok,
{
    let mut out: Vec<PoolNullifier> = Vec::new();
    let mut t: usize = 0;
    while t < txs.len()
        invariant
            0 <= t <= txs@.len(),
            tags_all(raw_items(txs@.take(t as int)), out@),
            forall|i: int| 0 <= i < raw_items(txs@.take(t as int)).len() ==> (#[trigger] raw_items(txs@.take(t as int))[i]).1.len() == 32,
        decreases txs@.len() - t,
    {
        let tx = &txs[t];
        let ghost prefix = raw_items(txs@.take(t as int));
        let ghost spends = tagged(tx.spends@, Pool::Sapling);
        let ghost actions = tagged(tx.actions@, Pool::Orchard);
        proof {
            assert(txs@.take(t + 1).drop_last() =~= txs@.take(t as int));
            assert(txs@.take(t + 1).last() == *tx);
            assert(raw_items(txs@.take(t + 1)) == prefix + spends + actions);
        }
        let ghost out0 = out@;
        match push_tagged(Pool::Sapling, &tx.spends, &mut out) {
            Ok(()) => {},
            Err(e) => {
                proof {
                    lemma_bad_extends(prefix, spends, actions, txs@, t as int, e.len as int);
                }
                return Err(e);
            },
        }
        let ghost out1 = out@;
        match push_tagged(Pool::Orchard, &tx.actions, &mut out) {
            Ok(()) => {},
            Err(e) => {
                proof {
                    lemma_bad_extends(prefix + spends, actions, seq![], txs@, t as int, e.len as int);
                    assert(prefix + spends + actions + seq![] =~= prefix + spends + actions);
                }
                return Err(e);
            },
        }
        proof {
            let all = prefix + spends + actions;
            assert(out@.len() == all.len());
            assert forall|i: int| 0 <= i < all.len() implies (#[trigger] out@[i]).pool == all[i].0 && out@[i].nullifier@ == all[i].1 by {
                if i < prefix.len() {
                    assert(out@[i] == out1[i]);
                    assert(out1[i] == out0[i]);
                } else if i < prefix.len() + spends.len() {
                    assert(out@[i] == out1[i]);
                    assert(out1.skip(out0.len() as int)[i - prefix.len()] == out1[i]);
                } else {
                    assert(out@.skip(out1.len() as int)[i - prefix.len() - spends.len()] == out@[i]);
                }
            }
            assert forall|i: int| 0 <= i < all.len() implies (#[trigger] all[i]).1.len() == 32 by {
                if i < prefix.len() {
                } else if i < prefix.len() + spends.len() {
                    assert(all[i] == spends[i - prefix.len()]);
                } else {
                    assert(all[i] == actions[i - prefix.len() - spends.len()]);
                }
            }
        }
        t = t + 1;
    }
    proof {
        assert(txs@.take(txs@.len() as int) =~= txs@);
    }
    Ok(out)
}

proof fn lemma_bad_extends(
    prefix: Seq<(Pool, Seq<u8>)>,
    part: Seq<(Pool, Seq<u8>)>,
    rest: Seq<(Pool, Seq<u8>)>,
    txs: Seq<CompactTx>,
    t: int,
    len: int,
)
    requires
        forall|i: int| 0 <= i < prefix.len() ==> (#[trigger] prefix[i]).1.len() == 32,
        first_bad_length(part, len),
        0 <= t < txs.len(),
        raw_items(txs.take(t + 1)) == prefix + part + rest,
    ensures
        first_bad_length(raw_items(txs), len),
{
    let k = choose|k: int|
        0 <= k < part.len() && (forall|j: int| 0 <= j < k ==> (#[trigger] part[j]).1.len() == 32) && (#[trigger] part[k]).1.len()
            != 32 && part[k].1.len() == len;
    let all = prefix + part + rest;
    let i = prefix.len() + k;
    lemma_raw_items_prefix(txs, t + 1);
    let whole = raw_items(txs);
    assert(whole.take(all.len() as int) == all);
    assert(whole[i] == all[i]);
    assert(all[i] == part[k]);
    assert forall|j: int| 0 <= j < i implies (#[trigger] whole[j]).1.len() == 32 by {
        assert(whole[j] == all[j]);
        if j >= prefix.len() {
            assert(all[j] == part[j - prefix.len()]);
        }
    }
}

proof fn lemma_raw_items_prefix(txs: Seq<CompactTx>, t: int)
    requires
        0 <= t <= txs.len(),
    ensures
        raw_items(txs).len() >= raw_items(txs.take(t)).len(),
        raw_items(txs).take(raw_items(txs.take(t)).len() as int) == raw_items(txs.take(t)),
    decreases txs.len(),
{
    if t == txs.len() {
        assert(txs.take(t) =~= txs);
    } else {
        let p = txs.drop_last();
        assert(p.take(t) =~= txs.take(t));
        lemma_raw_items_prefix(p, t);
        let a = raw_items(p);
        let b = raw_items(txs);
        let n = raw_items(txs.take(t)).len() as int;
        assert(b.take(n) =~= a.take(n));
    }
}

/// Trailing bytes at the end of a snapshot stream: fewer than 32.
#[derive(Debug, Clone, Copy, PartialEq, Eq, Structural)]
pub struct TrailingBytes {
    /// How many bytes were left over.
    pub len: usize,
}

/// Cuts a byte stream that arrives in pieces of any size into nullifiers,
/// carrying the bytes of an unfinished nullifier to the next piece.
pub struct NullifierChunker {
    leftover: Vec<u8>,
}

impl View for NullifierChunker {
    type V = Seq<u8>;

    closed spec fn view(&self) -> Seq<u8> {
        self.leftover@
    }
}

impl NullifierChunker {
    /// A chunker with nothing carried over.
    pub fn new() -> (r: Self)
        ensures
            r@.len() == 0,
    {
        NullifierChunker { leftover: Vec::new() }
    }

    /// Takes the next piece of the stream and returns every nullifier that
    /// is now complete; the rest is carried over.
    pub fn feed(&mut self, bytes: &[u8]) -> (r: Vec<Nullifier>)
        requires
            old(self)@.len() + bytes@.len() <= usize::MAX,
        ensures
            feed_result(old(self)@, bytes@, r@, final(self)@),
    {
        let mut all: Vec<u8> = Vec::new();
        let mut i: usize = 0;
        while i < self.leftover.len()
            invariant
                0 <= i <= self.leftover@.len(),
                all@ == self.leftover@.take(i as int),
            decreases self.leftover@.len() - i,
        {
            all.push(self.leftover[i]);
            i = i + 1;
            assert(all@ =~= self.leftover@.take(i as int));
        }
        let mut j: usize = 0;
        while j < bytes.len()
            invariant
                0 <= j <= bytes@.len(),
                self.leftover@.len() + bytes@.len() <= usize::MAX,
                all@ == self.leftover@ + bytes@.take(j as int),
            decreases bytes@.len() - j,
        {
            all.push(bytes[j]);
            j = j + 1;
            assert(all@ =~= self.leftover@ + bytes@.take(j as int));
        }
        assert(self.leftover@.take(self.leftover@.len() as int) =~= self.leftover@);
        assert(bytes@.take(bytes@.len() as int) =~= bytes@);
        let count = all.len() / 32;
        let complete = unpack_from(all.as_slice(), 0, count);
        let mut rest: Vec<u8> = Vec::new();
        let mut k: usize = 32 * count;
        while k < all.len()
            invariant
                32 * count <= k <= all@.len(),
                rest@ == all@.subrange(32 * count, k as int),
            decreases all@.len() - k,
        {
            rest.push(all[k]);
            k = k + 1;
            assert(rest@ =~= all@.subrange(32 * count, k as int));
        }
        proof {
            assert(all@.subrange(0, 32 * count as int) =~= all@.take(32 * count as int));
            assert(all@.subrange(32 * count as int, all@.len() as int) =~= all@.skip(32 * count as int));
        }
        self.leftover = rest;
        complete
    }

    /// Ends the stream: an error if bytes of an unfinished nullifier remain.
    pub fn finish(&self) -> (r: Result<(), TrailingBytes>)
        ensures
            self@.len() == 0 ==> r is Ok,
            self@.len() > 0 ==> r == Err::<(), TrailingBytes>(TrailingBytes { len: self@.len() as usize }),
    {
        if self.leftover.len() == 0 {
            Ok(())
        } else {
            Err(TrailingBytes { len: self.leftover.len() })
        }
    }
}

/// What one feed does: from the bytes carried over and the new piece, the
/// complete nullifiers and the new carry.
pub open spec fn feed_result(carry: Seq<u8>, piece: Seq<u8>, out: Seq<Nullifier>, next: Seq<u8>) -> bool {
    let all = carry + piece;
    &&& out.len() == all.len() / 32
    &&& packed(all.take(32 * out.len() as int), views(out))
    &&& next == all.skip(32 * out.len() as int)
}

/// Reading in pieces: two consecutive feeds give what one feed of both
/// pieces together gives, so a stream may be cut anywhere.
pub proof fn lemma_feeds_compose(
    carry: Seq<u8>,
    first: Seq<u8>,
    out1: Seq<Nullifier>,
    mid: Seq<u8>,
    second: Seq<u8>,
    out2: Seq<Nullifier>,
    last: Seq<u8>,
)
    requires
        feed_result(carry, first, out1, mid),
        feed_result(mid, second, out2, last),
    ensures
        feed_result(carry, first + second, out1 + out2, last),
{
    let all1 = carry + first;
    let k1 = out1.len() as int;
    let all2 = mid + second;
    let k2 = out2.len() as int;
    let all = carry + (first + second);
    assert(all1 =~= all1.take(32 * k1) + mid);
    assert(all =~= all1.take(32 * k1) + all2);
    assert(all2 =~= all2.take(32 * k2) + last);
    assert(all.take(32 * (k1 + k2)) =~= all1.take(32 * k1) + all2.take(32 * k2));
    assert(all.skip(32 * (k1 + k2)) =~= last);
    lemma_packed_concat(all1.take(32 * k1), views(out1), all2.take(32 * k2), views(out2));
    assert(views(out1 + out2) =~= views(out1) + views(out2));
    assert(all.len() == 32 * k1 + all2.len());
    assert((32 * k1 + all2.len()) / 32 == k1 + all2.len() / 32) by (nonlinear_arith)
        requires
            k1 >= 0,
            all2.len() >= 0,
    ;
}

/// Snapshot files of the two pools, each optional.
#[derive(Debug, Clone, PartialEq, Eq)]
pub struct FileSource {
    /// File of Sapling nullifiers.
    pub sapling_path: Option<String>,
    /// File of Orchard nullifiers.
    pub orchard_path: Option<String>,
    /// Read buffer size in bytes.
    pub buf_size: usize,
}

impl FileSource {
    /// A source over the given files, with the default buffer size.
    pub fn new(sapling_path: Option<String>, orchard_path: Option<String>) -> (r: Self)
        ensures
            r.sapling_path == sapling_path,
            r.orchard_path == orchard_path,
            r.buf_size == BUF_SIZE,
    {
        FileSource { sapling_path, orchard_path, buf_size: BUF_SIZE }
    }

    /// A source over the given files with a chosen buffer size.
    pub fn with_buf_size(sapling_path: Option<String>, orchard_path: Option<String>, buf_size: usize) -> (r: Self)
        ensures
            r.sapling_path == sapling_path,
            r.orchard_path == orchard_path,
            r.buf_size == buf_size,
    {
        FileSource { sapling_path, orchard_path, buf_size }
    }

    /// The buffer actually used: large enough for one nullifier.
    pub fn read_buffer_size(&self) -> (r: usize)
        ensures
            r == if self.buf_size < 32 { 32 } else { self.buf_size },
    {
        if self.buf_size < 32 {
            32
        } else {
            self.buf_size
        }
    }

    /// The files to read, each with its pool, Sapling first.
    pub fn files(&self) -> (r: Vec<(Pool, String)>)
        ensures
            r@.len() == (if self.sapling_path is Some { 1int } else { 0 }) + (if self.orchard_path is Some { 1int } else { 0 }),
            self.sapling_path is Some ==> r@[0].0 == Pool::Sapling && r@[0].1@ == self.sapling_path->Some_0@,
            self.orchard_path is Some ==> r@.last().0 == Pool::Orchard && r@.last().1@ == self.orchard_path->Some_0@,
    {
        let mut files: Vec<(Pool, String)> = Vec::new();
        match &self.sapling_path {
            Some(p) => files.push((Pool::Sapling, p.clone())),
            None => {},
        }
        match &self.orchard_path {
            Some(p) => files.push((Pool::Orchard, p.clone())),
            None => {},
        }
        files
    }
}

} // verus!
