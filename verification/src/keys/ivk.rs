//! Incoming viewing keys: what was received.

use vstd::prelude::*;

use crate::upstream::orchard_notes::OrchardIvk;
use crate::upstream::sapling_notes::SaplingIvk;
use crate::upstream::unified_keys::UnifiedIncomingViewingKey;

verus! {

/// The keys of an incoming viewing key: they find notes and can do nothing else.
#[derive(Debug)]
pub struct IvkKeys {
    /// Finds Orchard notes.
    pub orchard: Option<OrchardIvk>,
    /// Finds Sapling notes.
    pub sapling: Option<SaplingIvk>,
}

/// The keys of an incoming viewing key.
pub type Keys = IvkKeys;

impl IvkKeys {
    /// The keys of a unified incoming viewing key.
    pub fn from_uivk(uivk: &UnifiedIncomingViewingKey) -> (keys: Self)
        ensures
            keys.sapling is Some == uivk@.0 is Some,
            keys.sapling matches Some(k) ==> uivk@.0 == Some(k@),
            keys.orchard is Some == uivk@.1 is Some,
            keys.orchard matches Some(k) ==> uivk@.1 == Some(k@),
    {
        let orchard = match &uivk.orchard {
            Some(ivk) => Some(ivk.duplicate()),
            None => None,
        };
        let sapling = match &uivk.sapling {
            Some(ivk) => Some(ivk.duplicate()),
            None => None,
        };
        IvkKeys { orchard, sapling }
    }

    /// Whether there is no key, so that scanning finds nothing.
    pub fn is_empty(&self) -> (empty: bool)
        ensures
            empty == (self.orchard is None && self.sapling is None),
    {
        self.orchard.is_none() && self.sapling.is_none()
    }
}

} // verus!
