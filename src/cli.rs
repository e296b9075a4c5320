//! Values of command-line options: pools, networks, target ids and schemes.
use vstd::prelude::*;

use crate::config::{SnapshotRange, ValueCommitmentScheme};
use vstd::string::StringSliceAdditionalSpecFns;

verus! {

/// Which pools a command works on.
#[derive(Debug, Clone, Copy, PartialEq, Eq, Structural)]
pub enum PoolSelection {
    /// Sapling only.
    Sapling,
    /// Orchard only.
    Orchard,
    /// Both pools.
    Both,
}

/// The Zcash network.
#[derive(Debug, Clone, Copy, PartialEq, Eq, Structural)]
pub enum Network {
    /// Mainnet.
    MainNetwork,
    /// Testnet.
    TestNetwork,
}

/// Why an option value is refused.
#[derive(Debug, Clone, Copy, PartialEq, Eq, Structural)]
pub enum OptionError {
    /// Not `sapling`, `orchard` or `both`.
    InvalidPool,
    /// Not `mainnet` or `testnet`.
    InvalidNetwork,
    /// Not `native` or `sha256`.
    InvalidScheme,
    /// A Sapling target id must be exactly 8 bytes.
    SaplingTargetIdLength,
    /// An Orchard target id must be at most 32 bytes.
    OrchardTargetIdLength,
    /// Not `START..=END` with decimal `u64` bounds and `START <= END`.
    InvalidRange,
}

/// Byte-wise equality of two byte strings.
pub fn bytes_equal(a: &[u8], b: &[u8]) -> (r: bool)
    ensures
        r == (a@ == b@),
{
    if a.len() != b.len() {
        return false;
    }
    let mut i: usize = 0;
    while i < a.len()
        invariant
            0 <= i <= a@.len(),
            a@.len() == b@.len(),
            forall|k: int| 0 <= k < i ==> a@[k] == b@[k],
        decreases a@.len() - i,
    {
        if a[i] != b[i] {
            return false;
        }
        i = i + 1;
    }
    assert(a@ =~= b@);
    true
}

/// `s` is the word `w`, byte for byte.
pub open spec fn is_word(s: &str, w: &str) -> bool {
    s.spec_bytes() == w.spec_bytes()
}

/// Whether `s` is the word `w`.
fn word_is(s: &str, w: &str) -> (r: bool)
    ensures
        r == is_word(s, w),
{
    bytes_equal(s.as_bytes(), w.as_bytes())
}

/// Parses `sapling`, `orchard` or `both`.
pub fn parse_pool_selection(s: &str) -> (r: Result<PoolSelection, OptionError>)
    ensures
        is_word(s, "sapling") ==> r == Ok::<PoolSelection, OptionError>(PoolSelection::Sapling),
        !is_word(s, "sapling") && is_word(s, "orchard") ==> r == Ok::<PoolSelection, OptionError>(PoolSelection::Orchard),
        !is_word(s, "sapling") && !is_word(s, "orchard") && is_word(s, "both") ==> r == Ok::<PoolSelection, OptionError>(
            PoolSelection::Both,
        ),
        !is_word(s, "sapling") && !is_word(s, "orchard") && !is_word(s, "both") ==> r == Err::<PoolSelection, OptionError>(
            OptionError::InvalidPool,
        ),
{
    if word_is(s, "sapling") {
        Ok(PoolSelection::Sapling)
    } else if word_is(s, "orchard") {
        Ok(PoolSelection::Orchard)
    } else if word_is(s, "both") {
        Ok(PoolSelection::Both)
    } else {
        Err(OptionError::InvalidPool)
    }
}

/// Parses `mainnet` or `testnet` (case-sensitive).
pub fn parse_network(s: &str) -> (r: Result<Network, OptionError>)
    ensures
        is_word(s, "mainnet") ==> r == Ok::<Network, OptionError>(Network::MainNetwork),
        !is_word(s, "mainnet") && is_word(s, "testnet") ==> r == Ok::<Network, OptionError>(Network::TestNetwork),
        !is_word(s, "mainnet") && !is_word(s, "testnet") ==> r == Err::<Network, OptionError>(OptionError::InvalidNetwork),
{
    if word_is(s, "mainnet") {
        Ok(Network::MainNetwork)
    } else if word_is(s, "testnet") {
        Ok(Network::TestNetwork)
    } else {
        Err(OptionError::InvalidNetwork)
    }
}

/// Parses `native` or `sha256`.
pub fn parse_value_commitment_scheme(s: &str) -> (r: Result<ValueCommitmentScheme, OptionError>)
    ensures
        is_word(s, "native") ==> r == Ok::<ValueCommitmentScheme, OptionError>(ValueCommitmentScheme::Native),
        !is_word(s, "native") && is_word(s, "sha256") ==> r == Ok::<ValueCommitmentScheme, OptionError>(
            ValueCommitmentScheme::Sha256,
        ),
        !is_word(s, "native") && !is_word(s, "sha256") ==> r == Err::<ValueCommitmentScheme, OptionError>(
            OptionError::InvalidScheme,
        ),
{
    if word_is(s, "native") {
        Ok(ValueCommitmentScheme::Native)
    } else if word_is(s, "sha256") {
        Ok(ValueCommitmentScheme::Sha256)
    } else {
        Err(OptionError::InvalidScheme)
    }
}

/// A Sapling target id: exactly 8 bytes.
pub fn parse_sapling_target_id(s: &str) -> (r: Result<String, OptionError>)
    ensures
        s.spec_bytes().len() == 8 ==> (r matches Ok(t) && t@ == s@),
        s.spec_bytes().len() != 8 ==> r == Err::<String, OptionError>(OptionError::SaplingTargetIdLength),
{
    if s.as_bytes().len() == 8 {
        Ok(s.to_owned())
    } else {
        Err(OptionError::SaplingTargetIdLength)
    }
}

/// An Orchard target id: at most 32 bytes.
pub fn parse_orchard_target_id(s: &str) -> (r: Result<String, OptionError>)
    ensures
        s.spec_bytes().len() <= 32 ==> (r matches Ok(t) && t@ == s@),
        s.spec_bytes().len() > 32 ==> r == Err::<String, OptionError>(OptionError::OrchardTargetIdLength),
{
    if s.as_bytes().len() <= 32 {
        Ok(s.to_owned())
    } else {
        Err(OptionError::OrchardTargetIdLength)
    }
}

/// An ASCII decimal digit.
pub open spec fn is_digit(b: u8) -> bool {
    48 <= b <= 57
}

/// A non-empty run of decimal digits.
pub open spec fn is_decimal(d: Seq<u8>) -> bool {
    d.len() > 0 && forall|i: int| 0 <= i < d.len() ==> is_digit(#[trigger] d[i])
}

/// The value of a run of decimal digits.
pub open spec fn decimal_value(d: Seq<u8>) -> int
    decreases d.len(),
{
    if d.len() == 0 {
        0
    } else {
        decimal_value(d.drop_last()) * 10 + (d.last() - 48)
    }
}

/// `s` reads `START..=END` with these bounds.
pub open spec fn range_text(s: Seq<u8>, start: int, end: int) -> bool {
    exists|i: int|
        0 <= i && i + 3 <= s.len() && #[trigger] s[i] == 46 && s[i + 1] == 46 && s[i + 2] == 61 && is_decimal(s.take(i))
            && is_decimal(s.skip(i + 3)) && decimal_value(s.take(i)) == start && decimal_value(s.skip(i + 3)) == end
}

proof fn lemma_decimal_grows(d: Seq<u8>, k: int)
    requires
        0 <= k <= d.len(),
        forall|i: int| 0 <= i < d.len() ==> is_digit(#[trigger] d[i]),
    ensures
        decimal_value(d) >= decimal_value(d.take(k)),
        decimal_value(d.take(k)) >= 0,
    decreases d.len(),
{
    if d.len() == k {
        assert(d.take(k) =~= d);
        lemma_decimal_nonneg(d);
    } else {
        let p = d.drop_last();
        assert(p.take(k) =~= d.take(k));
        lemma_decimal_grows(p, k);
        lemma_decimal_nonneg(p);
    }
}

proof fn lemma_decimal_nonneg(d: Seq<u8>)
    requires
        forall|i: int| 0 <= i < d.len() ==> is_digit(#[trigger] d[i]),
    ensures
        decimal_value(d) >= 0,
    decreases d.len(),
{
    if d.len() > 0 {
        lemma_decimal_nonneg(d.drop_last());
    }
}

/// Parses a non-empty run of decimal digits that fits in `u64`.
fn parse_decimal(d: &[u8], from: usize, to: usize) -> (r: Option<u64>)
    requires
        from <= to <= d@.len(),
    ensures
        r matches Some(v) ==> is_decimal(d@.subrange(from as int, to as int)) && v == decimal_value(d@.subrange(from as int, to as int)),
        r is None ==> !is_decimal(d@.subrange(from as int, to as int)) || decimal_value(d@.subrange(from as int, to as int)) > u64::MAX,
{
    let ghost s = d@.subrange(from as int, to as int);
    if from == to {
        return None;
    }
    let mut acc: u64 = 0;
    let mut k: usize = from;
    while k < to
        invariant
            from <= k <= to <= d@.len(),
            s == d@.subrange(from as int, to as int),
            forall|i: int| 0 <= i < k - from ==> is_digit(#[trigger] s[i]),
            acc == decimal_value(s.take(k - from)),
        decreases to - k,
    {
        let b = d[k];
        proof {
            assert(s.take(k - from + 1).drop_last() =~= s.take(k - from));
            assert(s.take(k - from + 1).last() == b);
        }
        if b < 48 || b > 57 {
            assert(!is_digit(s[k - from]));
            return None;
        }
        let digit = (b - 48) as u64;
        if acc > (u64::MAX - digit) / 10 {
            proof {
                assert(acc * 10 + digit > u64::MAX) by (nonlinear_arith)
                    requires
                        acc > (u64::MAX - digit) / 10,
                        digit <= 9,
                ;
                if is_decimal(s) {
                    lemma_decimal_grows(s, k - from + 1);
                }
            }
            return None;
        }
        acc = acc * 10 + digit;
        k = k + 1;
    }
    assert(s.take(s.len() as int) =~= s);
    Some(acc)
}

/// Parses a snapshot range `START..=END`: decimal `u64` bounds, both
/// inclusive, with `START <= END`.
pub fn parse_range(s: &str) -> (r: Result<SnapshotRange, OptionError>)
    ensures
        r matches Ok(range) ==> range_text(s.spec_bytes(), range.start as int, range.end as int) && range.start <= range.end,
        r is Err ==> r == Err::<SnapshotRange, OptionError>(OptionError::InvalidRange) && forall|a: int, b: int|
            #![trigger range_text(s.spec_bytes(), a, b)]
            range_text(s.spec_bytes(), a, b) && a <= b ==> !(0 <= a <= u64::MAX && 0 <= b <= u64::MAX),
{
    let bytes = s.as_bytes();
    let ghost t = bytes@;
    let mut i: usize = 0;
    while i < bytes.len() && bytes[i] != 46
        invariant
            0 <= i <= bytes@.len(),
            t == bytes@,
            forall|j: int| 0 <= j < i ==> t[j] != 46,
        decreases bytes@.len() - i,
    {
        i = i + 1;
    }
    proof {
        assert forall|a: int, b: int| #![trigger range_text(t, a, b)] range_text(t, a, b) implies {
            let j = choose|j: int|
                0 <= j && j + 3 <= t.len() && #[trigger] t[j] == 46 && t[j + 1] == 46 && t[j + 2] == 61 && is_decimal(t.take(j))
                    && is_decimal(t.skip(j + 3)) && decimal_value(t.take(j)) == a && decimal_value(t.skip(j + 3)) == b;
            j == i
        } by {
            let j = choose|j: int|
                0 <= j && j + 3 <= t.len() && #[trigger] t[j] == 46 && t[j + 1] == 46 && t[j + 2] == 61 && is_decimal(t.take(j))
                    && is_decimal(t.skip(j + 3)) && decimal_value(t.take(j)) == a && decimal_value(t.skip(j + 3)) == b;
            if j < i {
                assert(t[j] != 46);
            } else if j > i {
                assert(is_digit(t.take(j)[i as int]));
            }
        }
    }
    if bytes.len() - i < 3 || bytes[i + 1] != 46 || bytes[i + 2] != 61 {
        return Err(OptionError::InvalidRange);
    }
    let start = parse_decimal(bytes, 0, i);
    let end = parse_decimal(bytes, i + 3, bytes.len());
    proof {
        assert(t.subrange(0, i as int) =~= t.take(i as int));
        assert(t.subrange(i + 3, t.len() as int) =~= t.skip(i + 3));
    }
    match (start, end) {
        (Some(a), Some(b)) => {
            if a <= b {
                assert(t[i as int] == 46);
                Ok(SnapshotRange { start: a, end: b })
            } else {
                Err(OptionError::InvalidRange)
            }
        },
        _ => Err(OptionError::InvalidRange),
    }
}

} // verus!
