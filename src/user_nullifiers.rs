//! Borrowed hiding-factor parameters, as the hiding-nullifier derivations
//! take them from a configuration.
use vstd::prelude::*;

use crate::config;

verus! {

/// Sapling derivation parameters borrowed from a configuration.
#[derive(Debug, Clone, Copy, PartialEq, Eq)]
pub struct SaplingHidingFactor<'a> {
    /// Personalization bytes.
    pub personalization: &'a [u8],
}

/// Orchard derivation parameters borrowed from a configuration.
#[derive(Debug, Clone, Copy, PartialEq, Eq)]
pub struct OrchardHidingFactor<'a> {
    /// Domain separator.
    pub domain: &'a str,
    /// Tag bytes.
    pub tag: &'a [u8],
}

impl<'a> From<&'a config::SaplingHidingFactor> for SaplingHidingFactor<'a> {
    fn from(owned: &'a config::SaplingHidingFactor) -> (r: Self)
        ensures
            r.personalization@ == owned.personalization@,
    {
        sapling_params(owned)
    }
}

impl<'a> vstd::std_specs::convert::FromSpecImpl<&'a config::SaplingHidingFactor> for SaplingHidingFactor<'a> {
    open spec fn obeys_from_spec() -> bool {
        false
    }

    open spec fn from_spec(owned: &'a config::SaplingHidingFactor) -> Self {
        choose|r: Self| r.personalization@ == owned.personalization@
    }
}

impl<'a> From<&'a config::OrchardHidingFactor> for OrchardHidingFactor<'a> {
    fn from(owned: &'a config::OrchardHidingFactor) -> (r: Self)
        ensures
            r.domain@ == owned.domain@,
            r.tag@ == owned.tag@,
    {
        orchard_params(owned)
    }
}

impl<'a> vstd::std_specs::convert::FromSpecImpl<&'a config::OrchardHidingFactor> for OrchardHidingFactor<'a> {
    open spec fn obeys_from_spec() -> bool {
        false
    }

    open spec fn from_spec(owned: &'a config::OrchardHidingFactor) -> Self {
        choose|r: Self| r.domain@ == owned.domain@ && r.tag@ == owned.tag@
    }
}

/// Borrows the Sapling parameters of a configuration.
pub fn sapling_params<'a>(owned: &'a config::SaplingHidingFactor) -> (r: SaplingHidingFactor<'a>)
    ensures
        r.personalization@ == owned.personalization@,
{
    SaplingHidingFactor { personalization: owned.personalization.as_slice() }
}

/// Borrows the Orchard parameters of a configuration.
pub fn orchard_params<'a>(owned: &'a config::OrchardHidingFactor) -> (r: OrchardHidingFactor<'a>)
    ensures
        r.domain@ == owned.domain@,
        r.tag@ == owned.tag@,
{
    OrchardHidingFactor { domain: owned.domain.as_str(), tag: owned.tag.as_slice() }
}

} // verus!
