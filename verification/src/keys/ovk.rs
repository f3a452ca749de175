//! Outgoing viewing keys: what was sent.

use vstd::prelude::*;

use crate::keys::fvk::FvkKeys;

verus! {

/// Keys that recover the notes that an account sent, from full transactions.
#[derive(Debug)]
pub struct OvkKeys {
    /// Recovers Orchard notes.
    pub orchard: Option<[u8; 32]>,
    /// Recovers Sapling notes.
    pub sapling: Option<[u8; 32]>,
}

impl OvkKeys {
    /// The two keys given.
    pub fn new(orchard: Option<[u8; 32]>, sapling: Option<[u8; 32]>) -> (keys: Self)
        ensures
            keys.orchard == orchard,
            keys.sapling == sapling,
    {
        OvkKeys { orchard, sapling }
    }

    /// The outgoing viewing keys of a full viewing key.
    pub fn from_fvk_keys(fvk: &FvkKeys) -> (keys: Self)
        ensures
            keys.orchard == fvk.orchard_ovk,
            keys.sapling == fvk.sapling_ovk,
    {
        OvkKeys { orchard: fvk.orchard_ovk, sapling: fvk.sapling_ovk }
    }

    /// Whether there is no key.
    pub fn is_empty(&self) -> (empty: bool)
        ensures
            empty == (self.orchard is None && self.sapling is None),
    {
        self.orchard.is_none() && self.sapling.is_none()
    }
}

} // verus!
