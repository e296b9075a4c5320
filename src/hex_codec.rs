//! Lower-case hex, forward and byte-reversed (the Sapling display order).
use vstd::prelude::*;

verus! {

/// The lower-case hex digit of a value below 16.
pub open spec fn hex_digit(v: int) -> char {
    seq!['0', '1', '2', '3', '4', '5', '6', '7', '8', '9', 'a', 'b', 'c', 'd', 'e', 'f'][v]
}

/// Lower-case hex of `b`: two digits per byte, high nibble first.
pub open spec fn hex_of(b: Seq<u8>) -> Seq<char> {
    Seq::new(
        2 * b.len(),
        |i: int|
            if i % 2 == 0 {
                hex_digit(b[i / 2] as int / 16)
            } else {
                hex_digit(b[i / 2] as int % 16)
            },
    )
}

/// Relies on `hex::encode`: two lower-case digits per byte, high nibble
/// first, in byte order.
#[verifier::external_body]
fn hex_encode(b: &[u8]) -> (r: String)
    ensures
        r@ == hex_of(b@),
{
    hex::encode(b)
}

/// Lower-case hex of the bytes in their own order.
pub fn encode_forward(b: &[u8; 32]) -> (r: String)
    ensures
        r@ == hex_of(b@),
{
    hex_encode(b.as_slice())
}

/// Lower-case hex of the bytes in reverse order, as Sapling displays them.
pub fn encode_reversed(b: &[u8; 32]) -> (r: String)
    ensures
        r@ == hex_of(b@.reverse()),
{
    let mut rev: Vec<u8> = Vec::with_capacity(32);
    let mut i: usize = 32;
    while i > 0
        invariant
            0 <= i <= 32,
            rev@.len() == 32 - i,
            forall|k: int| 0 <= k < 32 - i ==> rev@[k] == b@[31 - k],
        decreases i,
    {
        i = i - 1;
        rev.push(b[i]);
    }
    assert(rev@ =~= b@.reverse());
    hex_encode(rev.as_slice())
}

} // verus!
