//! Canonical encodings of Pallas base-field elements, as Orchard nullifiers use them.
use vstd::prelude::*;

use crate::order::{nf_lt, Nullifier, Pool};
use ff::PrimeField;
use pasta_curves::pallas;

verus! {

/// The Pallas base-field modulus `p`, little-endian.
pub open spec fn pallas_modulus() -> Seq<u8> {
    seq![
        0x01u8, 0x00, 0x00, 0x00, 0xed, 0x30, 0x2d, 0x99,
        0x1b, 0xf9, 0x4c, 0x09, 0xfc, 0x98, 0x46, 0x22,
        0x00, 0x00, 0x00, 0x00, 0x00, 0x00, 0x00, 0x00,
        0x00, 0x00, 0x00, 0x00, 0x00, 0x00, 0x00, 0x40,
    ]
}

/// The largest field element `p - 1`, little-endian.
pub open spec fn pallas_max() -> Seq<u8> {
    pallas_modulus().update(0, 0x00u8)
}

/// `a` is the little-endian encoding of a value below the modulus.
pub open spec fn is_canonical_orchard(a: Seq<u8>) -> bool {
    a.len() == 32 && nf_lt(Pool::Orchard, a, pallas_modulus())
}

/// Relies on `PrimeField::from_repr` of pasta_curves' `pallas::Base`: it
/// succeeds exactly on little-endian encodings of values below the modulus.
#[verifier::external_body]
fn pallas_repr_is_canonical(bytes: &Nullifier) -> (r: bool)
    ensures
        r == is_canonical_orchard(bytes@),
{
    bool::from(pallas::Base::from_repr(*bytes).is_some())
}

/// Relies on pasta_curves' field arithmetic and `to_repr`: `0 - 1` in
/// `pallas::Base` is `p - 1`, encoded little-endian.
#[verifier::external_body]
fn pallas_minus_one_repr() -> (r: Nullifier)
    ensures
        r@ == pallas_max(),
{
    (pallas::Base::from(0u64) - pallas::Base::from(1u64)).to_repr()
}

/// The all-zero nullifier is the field element zero.
pub proof fn lemma_zero_is_canonical()
    ensures
        is_canonical_orchard(Seq::new(32, |i: int| 0u8)),
{
    let z = Seq::new(32, |i: int| 0u8);
    assert(crate::order::smaller_at(Pool::Orchard, z, pallas_modulus(), 0));
}

/// `p - 1` is canonical.
pub proof fn lemma_max_is_canonical()
    ensures
        is_canonical_orchard(pallas_max()),
{
    let m = pallas_max();
    assert forall|j: int| 0 <= j < 31 implies #[trigger] crate::order::digit(Pool::Orchard, m, j)
        == crate::order::digit(Pool::Orchard, pallas_modulus(), j) by {}
    assert(crate::order::smaller_at(Pool::Orchard, m, pallas_modulus(), 31));
}

/// Parses nullifier bytes as a canonical Orchard tree node: `Some` with the
/// same bytes exactly when they encode a field element.
pub fn orchard_node_from_bytes(bytes: Nullifier) -> (r: Option<Nullifier>)
    ensures
        r.is_some() <==> is_canonical_orchard(bytes@),
        r.is_some() ==> r.unwrap() == bytes,
{
    if pallas_repr_is_canonical(&bytes) {
        Some(bytes)
    } else {
        None
    }
}

/// The Orchard upper sentinel: `p - 1` in canonical little-endian form.
pub fn orchard_max_nullifier() -> (r: Nullifier)
    ensures
        r@ == pallas_max(),
        is_canonical_orchard(r@),
{
    proof {
        lemma_max_is_canonical();
    }
    pallas_minus_one_repr()
}

} // verus!
