//! The sealed airdrop configuration and the values that command-line
//! options carry into it.
use vstd::prelude::*;

use crate::order::Pool;
use vstd::string::StringSliceAdditionalSpecFns;

verus! {

/// Inclusive range of block heights of a snapshot.
#[derive(Debug, Clone, Copy, PartialEq, Eq, Structural)]
pub struct SnapshotRange {
    /// First height, inclusive.
    pub start: u64,
    /// Last height, inclusive.
    pub end: u64,
}

/// Sapling hiding factor.
#[derive(Debug, Clone, PartialEq, Eq)]
pub struct SaplingHidingFactor {
    /// Personalization bytes used to derive the hiding Sapling nullifier.
    pub personalization: Vec<u8>,
}

/// Orchard hiding factor.
#[derive(Debug, Clone, PartialEq, Eq)]
pub struct OrchardHidingFactor {
    /// Domain separator for the hiding Orchard nullifier.
    pub domain: String,
    /// Tag bytes used to derive the hiding Orchard nullifier.
    pub tag: Vec<u8>,
}

/// Hiding factors of both pools.
#[derive(Debug, Clone, PartialEq, Eq)]
pub struct HidingFactor {
    /// Sapling hiding factor.
    pub sapling: SaplingHidingFactor,
    /// Orchard hiding factor.
    pub orchard: OrchardHidingFactor,
}

impl Default for HidingFactor {
    fn default() -> (r: Self)
        ensures
            r.sapling.personalization@.len() == 0,
            r.orchard.domain@.len() == 0,
            r.orchard.tag@.len() == 0,
    {
        HidingFactor {
            sapling: SaplingHidingFactor { personalization: Vec::new() },
            orchard: OrchardHidingFactor { domain: String::new(), tag: Vec::new() },
        }
    }
}

/// Value commitment scheme, which selects the matching circuit.
#[derive(Debug, Clone, Copy, PartialEq, Eq, Structural)]
pub enum ValueCommitmentScheme {
    /// The pool's native value commitment.
    Native,
    /// SHA-256 value commitment.
    Sha256,
}

/// Configuration of an airdrop: snapshot range, gap-tree roots and hiding
/// factors. Written once when the snapshot is sealed.
#[derive(Debug, Clone, PartialEq, Eq)]
pub struct AirdropConfiguration {
    /// The inclusive range of block heights of the snapshot.
    pub snapshot_range: SnapshotRange,
    /// Lower-case hex root of the Sapling gap tree.
    pub sapling_merkle_root: Option<String>,
    /// Lower-case hex root of the Orchard gap tree.
    pub orchard_merkle_root: Option<String>,
    /// Hiding factors of the hiding-nullifier derivations.
    pub hiding_factor: HidingFactor,
}

/// Why a configuration is refused.
#[derive(Debug, Clone, Copy, PartialEq, Eq, Structural)]
pub enum ConfigError {
    /// The snapshot range ends before it starts.
    RangeInvalid,
    /// Neither pool has a root.
    NoRoot,
    /// The Sapling personalization is not exactly 8 bytes.
    SaplingPersonalizationLength,
    /// The Orchard domain is longer than 32 bytes.
    OrchardDomainLength,
}

impl AirdropConfiguration {
    /// Creates a configuration from its parts.
    pub fn new(
        snapshot_range: SnapshotRange,
        sapling_merkle_root: Option<String>,
        orchard_merkle_root: Option<String>,
        hiding_factor: HidingFactor,
    ) -> (r: Self)
        ensures
            r.snapshot_range == snapshot_range,
            r.sapling_merkle_root == sapling_merkle_root,
            r.orchard_merkle_root == orchard_merkle_root,
            r.hiding_factor == hiding_factor,
    {
        AirdropConfiguration { snapshot_range, sapling_merkle_root, orchard_merkle_root, hiding_factor }
    }

    /// The root recorded for `pool`.
    pub fn merkle_root(&self, pool: Pool) -> (r: &Option<String>)
        ensures
            pool == Pool::Sapling ==> *r == self.sapling_merkle_root,
            pool == Pool::Orchard ==> *r == self.orchard_merkle_root,
    {
        match pool {
            Pool::Sapling => &self.sapling_merkle_root,
            Pool::Orchard => &self.orchard_merkle_root,
        }
    }

    /// Checks what a sealed configuration must hold: `start <= end`, and at
    /// least one root.
    pub fn validate(&self) -> (r: Result<(), ConfigError>)
        ensures
            self.snapshot_range.start > self.snapshot_range.end ==> r == Err::<(), ConfigError>(ConfigError::RangeInvalid),
            self.snapshot_range.start <= self.snapshot_range.end && self.sapling_merkle_root is None
                && self.orchard_merkle_root is None ==> r == Err::<(), ConfigError>(ConfigError::NoRoot),
            self.snapshot_range.start <= self.snapshot_range.end && !(self.sapling_merkle_root is None
                && self.orchard_merkle_root is None) ==> r is Ok,
    {
        if self.snapshot_range.start > self.snapshot_range.end {
            return Err(ConfigError::RangeInvalid);
        }
        if self.sapling_merkle_root.is_none() && self.orchard_merkle_root.is_none() {
            return Err(ConfigError::NoRoot);
        }
        Ok(())
    }

    /// Checks that the hiding factor of `pool` can drive its derivation: a
    /// Sapling personalization of exactly 8 bytes, an Orchard domain of at
    /// most 32 bytes.
    pub fn check_hiding_factor(&self, pool: Pool) -> (r: Result<(), ConfigError>)
        ensures
            pool == Pool::Sapling ==> (r is Ok <==> self.hiding_factor.sapling.personalization@.len() == 8),
            pool == Pool::Sapling && r is Err ==> r == Err::<(), ConfigError>(ConfigError::SaplingPersonalizationLength),
            pool == Pool::Orchard ==> (r is Ok <==> (vstd::utf8::encode_utf8(self.hiding_factor.orchard.domain@).len() as usize) <= 32),
            pool == Pool::Orchard && r is Err ==> r == Err::<(), ConfigError>(ConfigError::OrchardDomainLength),
    {
        match pool {
            Pool::Sapling => {
                if self.hiding_factor.sapling.personalization.len() == 8 {
                    Ok(())
                } else {
                    Err(ConfigError::SaplingPersonalizationLength)
                }
            },
            Pool::Orchard => {
                let domain = self.hiding_factor.orchard.domain.as_str();
                proof {
                    assert(domain.spec_bytes() == vstd::utf8::encode_utf8(domain@));
                }
                if domain.len() <= 32 {
                    Ok(())
                } else {
                    Err(ConfigError::OrchardDomainLength)
                }
            },
        }
    }
}

/// Reports progress every ten percentage points: true when `current` of
/// `total` has reached at least ten points beyond `last_pct`, which is then
/// moved to the current percentage.
pub fn should_report_progress(current: usize, total: usize, last_pct: &mut usize) -> (r: bool)
    ensures
        total == 0 ==> !r && *final(last_pct) == *old(last_pct),
        total > 0 ==> ({
            let pct = if current * 100 > usize::MAX { usize::MAX / total } else { (current * 100) as usize / total };
            let threshold = if *old(last_pct) + 10 > usize::MAX { usize::MAX as int } else { *old(last_pct) + 10 };
            &&& r == (pct >= threshold)
            &&& r ==> *final(last_pct) == pct
            &&& !r ==> *final(last_pct) == *old(last_pct)
        }),
{
    if total == 0 {
        return false;
    }
    let scaled: usize = if current > usize::MAX / 100 {
        usize::MAX
    } else {
        current * 100
    };
    let pct = scaled / total;
    let threshold: usize = if *last_pct > usize::MAX - 10 {
        usize::MAX
    } else {
        *last_pct + 10
    };
    if pct >= threshold {
        *last_pct = pct;
        true
    } else {
        false
    }
}

} // verus!
