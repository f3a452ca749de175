//! Full viewing keys: what was received, what was spent and what was sent.

use vstd::prelude::*;

use crate::primitives::Scope;
use crate::upstream::orchard_notes::{
    orchard_ivk_of, orchard_ovk_of, orchard_to_ivk, orchard_to_ovk, OrchardFvk, OrchardIvk,
};
use crate::upstream::sapling_notes::{
    sapling_ivk_of, sapling_ovk_of, sapling_to_ivk, sapling_to_ovk, SaplingDfvk, SaplingIvk,
};
use crate::upstream::transparent_keys::TransparentAccountKey;
use crate::upstream::unified_keys::UnifiedFullViewingKey;

verus! {

/// The external-scope keys of a full viewing key: they find notes, derive nullifiers and
/// recover what was sent.
#[derive(Debug)]
pub struct FvkKeys {
    /// Finds Orchard notes.
    pub orchard_ivk: Option<OrchardIvk>,
    /// Finds Sapling notes.
    pub sapling_ivk: Option<SaplingIvk>,
    /// Derives Orchard nullifiers.
    pub orchard_fvk: Option<OrchardFvk>,
    /// Derives Sapling nullifiers.
    pub sapling_dfvk: Option<SaplingDfvk>,
    /// Recovers Orchard notes that were sent.
    pub orchard_ovk: Option<[u8; 32]>,
    /// Recovers Sapling notes that were sent.
    pub sapling_ovk: Option<[u8; 32]>,
    /// Derives transparent addresses.
    pub transparent: Option<TransparentAccountKey>,
}

/// Whether the Sapling keys belong together.
pub open spec fn sapling_keys_match(keys: FvkKeys, dfvk: Option<Seq<u8>>) -> bool {
    match dfvk {
        Some(bytes) => {
            &&& keys.sapling_dfvk matches Some(k) && k@ == bytes
            &&& keys.sapling_ivk matches Some(k) && k@ == sapling_ivk_of(bytes, Scope::External)
            &&& keys.sapling_ovk matches Some(k) && k@ == sapling_ovk_of(bytes, Scope::External)
        },
        None => keys.sapling_dfvk is None && keys.sapling_ivk is None && keys.sapling_ovk is None,
    }
}

/// Whether the Orchard keys belong together.
pub open spec fn orchard_keys_match(keys: FvkKeys, fvk: Option<Seq<u8>>) -> bool {
    match fvk {
        Some(bytes) => {
            &&& keys.orchard_fvk matches Some(k) && k@ == bytes
            &&& keys.orchard_ivk matches Some(k) && k@ == orchard_ivk_of(bytes, Scope::External)
            &&& keys.orchard_ovk matches Some(k) && k@ == orchard_ovk_of(bytes, Scope::External)
        },
        None => keys.orchard_fvk is None && keys.orchard_ivk is None && keys.orchard_ovk is None,
    }
}

impl FvkKeys {
    /// The keys of a unified full viewing key.
    pub fn from_ufvk(ufvk: &UnifiedFullViewingKey) -> (keys: Self)
        ensures
            sapling_keys_match(keys, ufvk@.0),
            orchard_keys_match(keys, ufvk@.1),
            keys.transparent is Some == ufvk@.2 is Some,
            keys.transparent matches Some(k) ==> ufvk@.2 == Some(k@),
    {
        let mut keys = FvkKeys {
            orchard_ivk: None,
            sapling_ivk: None,
            orchard_fvk: None,
            sapling_dfvk: None,
            orchard_ovk: None,
            sapling_ovk: None,
            transparent: None,
        };
        if let Some(fvk) = &ufvk.orchard {
            keys.orchard_ivk = Some(orchard_to_ivk(fvk, Scope::External));
            keys.orchard_ovk = Some(orchard_to_ovk(fvk, Scope::External));
            keys.orchard_fvk = Some(fvk.duplicate());
        }
        if let Some(dfvk) = &ufvk.sapling {
            keys.sapling_ivk = Some(sapling_to_ivk(dfvk, Scope::External));
            keys.sapling_ovk = Some(sapling_to_ovk(dfvk, Scope::External));
            keys.sapling_dfvk = Some(dfvk.duplicate());
        }
        if let Some(account) = &ufvk.transparent {
            keys.transparent = Some(account.duplicate());
        }
        keys
    }

    /// Whether there is no shielded full viewing key.
    pub fn is_empty(&self) -> (empty: bool)
        ensures
            empty == (self.orchard_fvk is None && self.sapling_dfvk is None),
    {
        self.orchard_fvk.is_none() && self.sapling_dfvk.is_none()
    }

    /// The Orchard full viewing key.
    pub fn orchard_fvk(&self) -> (key: Option<&OrchardFvk>)
        ensures
            key == match self.orchard_fvk {
                Some(k) => Some(&k),
                None => None,
            },
    {
        self.orchard_fvk.as_ref()
    }

    /// The Sapling diversifiable full viewing key.
    pub fn sapling_dfvk(&self) -> (key: Option<&SaplingDfvk>)
        ensures
            key == match self.sapling_dfvk {
                Some(k) => Some(&k),
                None => None,
            },
    {
        self.sapling_dfvk.as_ref()
    }

    /// The transparent account key.
    pub fn transparent(&self) -> (key: Option<&TransparentAccountKey>)
        ensures
            key == match self.transparent {
                Some(k) => Some(&k),
                None => None,
            },
    {
        self.transparent.as_ref()
    }
}

/// The keys of a full viewing key are those of its external scope, for each pool that it has.
pub proof fn law_full_keys_are_of_the_external_scope(
    keys: FvkKeys,
    dfvk: Option<Seq<u8>>,
    fvk: Option<Seq<u8>>,
)
    ensures
        sapling_keys_match(keys, dfvk) ==> {
            &&& keys.sapling_dfvk is Some == dfvk is Some
            &&& keys.sapling_ivk is Some == dfvk is Some
            &&& keys.sapling_ovk is Some == dfvk is Some
            &&& dfvk matches Some(bytes) ==> keys.sapling_dfvk->0@ == bytes
                && keys.sapling_ivk->0@ == sapling_ivk_of(bytes, Scope::External)
                && keys.sapling_ovk->0@ == sapling_ovk_of(bytes, Scope::External)
        },
        orchard_keys_match(keys, fvk) ==> {
            &&& keys.orchard_fvk is Some == fvk is Some
            &&& keys.orchard_ivk is Some == fvk is Some
            &&& keys.orchard_ovk is Some == fvk is Some
            &&& fvk matches Some(bytes) ==> keys.orchard_fvk->0@ == bytes
                && keys.orchard_ivk->0@ == orchard_ivk_of(bytes, Scope::External)
                && keys.orchard_ovk->0@ == orchard_ovk_of(bytes, Scope::External)
        },
{
}

} // verus!
