//! A viewing key with everything that scanning needs derived from it.

use vstd::prelude::*;
use vstd::string::*;

use crate::primitives::{Network, Scope, TransparentAddress};
use crate::seqs::{collect_some, lemma_collect_push};
use crate::sync::decrypt::scope_at;
use crate::upstream::orchard_notes::{
    orchard_ivk_of, orchard_ovk_of, orchard_to_ivk, orchard_to_ovk, OrchardFvk, OrchardIvk,
};
use crate::upstream::sapling_notes::{
    sapling_ivk_of, sapling_ovk_of, sapling_to_ivk, sapling_to_nk, sapling_to_ovk, SaplingDfvk,
    SaplingIvk, SaplingNk,
};
use crate::upstream::transparent_keys::{
    address_text, address_text_of, derive_external_key, derive_internal_key, external_address,
    external_address_of, external_key_of, internal_address, internal_address_of, internal_key_of,
    TransparentExternalKey, TransparentInternalKey, CHILD_INDEX_END,
};
use crate::upstream::unified_keys::{
    decode_ufvk, decode_uivk, orchard_ua, orchard_ua_of, sapling_ua, sapling_ua_of, ufvk_of,
    uivk_of, KeyParts, UnifiedFullViewingKey, UnifiedIncomingViewingKey,
};

verus! {

/// A viewing key, decoded: the keys of each pool.
#[derive(Debug)]
pub struct ViewKey {
    /// The keys tried on Sapling outputs.
    pub sapling: Vec<SaplingIncoming>,
    /// The keys tried on Orchard actions.
    pub orchard: Vec<OrchardIncoming>,
    /// The keys that recover Sapling notes that were sent.
    pub sapling_ovks: Vec<[u8; 32]>,
    /// The keys that recover Orchard notes that were sent.
    pub orchard_ovks: Vec<[u8; 32]>,
    /// The keys of the transparent addresses.
    pub transparent: Option<TransparentIncoming>,
}

/// The keys of an account's transparent addresses.
#[derive(Debug)]
pub struct TransparentIncoming {
    /// The key of the addresses that are handed out.
    pub external: TransparentExternalKey,
    /// The key of the change addresses.
    pub internal: Option<TransparentInternalKey>,
}

/// A key that is tried on Sapling outputs.
#[derive(Debug)]
pub struct SaplingIncoming {
    /// Finds notes.
    pub ivk: SaplingIvk,
    /// Derives their nullifiers.
    pub nk: Option<SaplingNk>,
}

/// A key that is tried on Orchard actions.
#[derive(Debug)]
pub struct OrchardIncoming {
    /// Finds notes.
    pub ivk: OrchardIvk,
    /// Derives their nullifiers.
    pub fvk: Option<OrchardFvk>,
}

/// Why a string is no viewing key: what each of the two decoders says.
#[derive(Debug, Clone, PartialEq, Eq)]
pub struct KeyError {
    /// Why it is no unified full viewing key.
    pub ufvk: String,
    /// Why it is no unified incoming viewing key.
    pub uivk: String,
}

impl KeyError {
    /// The error as one sentence.
    pub fn to_text(&self) -> (text: String)
        ensures
            text@ == "not a recognized unified viewing key (as UFVK: "@ + self.ufvk@ + "; as UIVK: "@
                + self.uivk@ + ")"@,
    {
        let mut text = "not a recognized unified viewing key (as UFVK: ".to_owned();
        text.append(self.ufvk.as_str());
        text.append("; as UIVK: ");
        text.append(self.uivk.as_str());
        text.append(")");
        text
    }
}

/// The address at an index of one scope, where there is a key for the scope, the index
/// is not hardened and the address can be derived.
pub open spec fn scoped_address(
    external: Seq<u8>,
    internal: Option<Seq<u8>>,
    is_internal: bool,
    index: u32,
) -> Option<TransparentAddress> {
    if index >= CHILD_INDEX_END {
        None
    } else if !is_internal {
        external_address_of(external, index)
    } else {
        match internal {
            Some(key) => internal_address_of(key, index),
            None => None,
        }
    }
}

/// The encoded address and its index, where there is one.
pub open spec fn listed_address(
    external: Seq<u8>,
    internal: Option<Seq<u8>>,
    network: Network,
    is_internal: bool,
    index: u32,
) -> Option<(Seq<char>, u32)> {
    match scoped_address(external, internal, is_internal, index) {
        Some(address) => Some((address_text_of(network, address), index)),
        None => None,
    }
}

impl TransparentIncoming {
    /// The encodings of the two keys.
    pub open spec fn view(&self) -> (Seq<u8>, Option<Seq<u8>>) {
        (
            self.external@,
            match self.internal {
                Some(key) => Some(key@),
                None => None,
            },
        )
    }

    /// Derives the address at an index of one scope.
    pub fn derive(&self, internal: bool, index: u32) -> (address: Option<TransparentAddress>)
        ensures
            address == scoped_address(self@.0, self@.1, internal, index),
    {
        if index >= CHILD_INDEX_END {
            return None;
        }
        if !internal {
            external_address(&self.external, index)
        } else {
            match &self.internal {
                Some(key) => internal_address(key, index),
                None => None,
            }
        }
    }

    /// The encoded addresses of one scope below an index, each with its index. An index
    /// whose address cannot be derived is skipped.
    pub fn scoped_addresses(&self, network: Network, internal: bool, upto: u32) -> (addresses: Vec<
        (String, u32),
    >)
        ensures
            addresses@.map_values(|a: (String, u32)| (a.0@, a.1)) == collect_some(
                Seq::new(
                    upto as nat,
                    |i: int| listed_address(self@.0, self@.1, network, internal, i as u32),
                ),
            ),
    {
        let ghost all = Seq::new(
            upto as nat,
            |i: int| listed_address(self@.0, self@.1, network, internal, i as u32),
        );
        let mut addresses: Vec<(String, u32)> = Vec::new();
        let mut i: u32 = 0;
        assert(all.take(0) =~= Seq::empty());
        assert(addresses@.map_values(|a: (String, u32)| (a.0@, a.1)) =~= Seq::empty());
        while i < upto
            invariant
                0 <= i <= upto,
                all == Seq::new(
                    upto as nat,
                    |i: int| listed_address(self@.0, self@.1, network, internal, i as u32),
                ),
                addresses@.map_values(|a: (String, u32)| (a.0@, a.1)) == collect_some(
                    all.take(i as int),
                ),
            decreases upto - i,
        {
            proof {
                lemma_collect_push(all.take(i as int), all[i as int]);
                assert(all.take(i as int + 1) =~= all.take(i as int).push(all[i as int]));
            }
            if let Some(address) = self.derive(internal, i) {
                let text = address_text(network, &address);
                let ghost before = addresses@;
                addresses.push((text, i));
                assert(addresses@.map_values(|a: (String, u32)| (a.0@, a.1)) =~= before.map_values(
                    |a: (String, u32)| (a.0@, a.1),
                ).push((text@, i)));
            }
            i = i + 1;
        }
        assert(all.take(i as int) =~= all);
        addresses
    }
}

/// `key` finds Sapling notes of one scope of a full viewing key and derives their
/// nullifiers.
pub open spec fn is_sapling_incoming(key: SaplingIncoming, dfvk: Seq<u8>, scope: Scope) -> bool {
    &&& key.ivk@ == sapling_ivk_of(dfvk, scope)
    &&& key.nk matches Some(nk) && nk@ == (dfvk, scope)
}

/// `key` finds Orchard notes of one scope of a full viewing key and derives their
/// nullifiers.
pub open spec fn is_orchard_incoming(key: OrchardIncoming, fvk: Seq<u8>, scope: Scope) -> bool {
    &&& key.ivk@ == orchard_ivk_of(fvk, scope)
    &&& key.fvk matches Some(k) && k@ == fvk
}

/// Whether a key has full capability: external and internal keys of each component that
/// find notes, derive nullifiers and recover what was sent.
pub open spec fn is_full_view(key: ViewKey, parts: KeyParts) -> bool {
    &&& match parts.0 {
        Some(dfvk) => {
            &&& key.sapling.len() == 2
            &&& key.sapling_ovks.len() == 2
            &&& forall|i: int|
                0 <= i < 2 ==> is_sapling_incoming(#[trigger] key.sapling[i], dfvk, scope_at(i))
            &&& forall|i: int|
                0 <= i < 2 ==> (#[trigger] key.sapling_ovks[i])@ == sapling_ovk_of(dfvk, scope_at(i))
        },
        None => key.sapling.len() == 0 && key.sapling_ovks.len() == 0,
    }
    &&& match parts.1 {
        Some(fvk) => {
            &&& key.orchard.len() == 2
            &&& key.orchard_ovks.len() == 2
            &&& forall|i: int|
                0 <= i < 2 ==> is_orchard_incoming(#[trigger] key.orchard[i], fvk, scope_at(i))
            &&& forall|i: int|
                0 <= i < 2 ==> (#[trigger] key.orchard_ovks[i])@ == orchard_ovk_of(fvk, scope_at(i))
        },
        None => key.orchard.len() == 0 && key.orchard_ovks.len() == 0,
    }
    &&& match parts.2 {
        Some(account) => match external_key_of(account) {
            Some(external) => key.transparent matches Some(t) && t@ == (
                external,
                internal_key_of(account),
            ),
            None => key.transparent is None,
        },
        None => key.transparent is None,
    }
}

/// Whether a key is incoming only: one key for each component, which finds notes and can
/// do nothing else.
pub open spec fn is_incoming_view(key: ViewKey, parts: KeyParts) -> bool {
    &&& match parts.0 {
        Some(ivk) => key.sapling.len() == 1 && key.sapling[0].ivk@ == ivk && key.sapling[0].nk is None,
        None => key.sapling.len() == 0,
    }
    &&& match parts.1 {
        Some(ivk) => key.orchard.len() == 1 && key.orchard[0].ivk@ == ivk && key.orchard[0].fvk is None,
        None => key.orchard.len() == 0,
    }
    &&& key.sapling_ovks.len() == 0
    &&& key.orchard_ovks.len() == 0
    &&& match parts.2 {
        Some(external) => key.transparent matches Some(t) && t@ == (external, None::<Seq<u8>>),
        None => key.transparent is None,
    }
}

/// Whether some key derives nullifiers.
pub open spec fn derives_nullifiers(key: ViewKey) -> bool {
    ||| exists|i: int| 0 <= i < key.sapling.len() && (#[trigger] key.sapling[i]).nk is Some
    ||| exists|i: int| 0 <= i < key.orchard.len() && (#[trigger] key.orchard[i]).fvk is Some
}

impl ViewKey {
    /// Decodes a unified full viewing key or, where the string is none, a unified
    /// incoming viewing key. Where it is neither, the error holds what both decoders
    /// say.
    pub fn decode(network: Network, encoding: &str) -> (key: Result<Self, KeyError>)
        ensures
            match (ufvk_of(network, encoding@), uivk_of(network, encoding@)) {
                (Ok(parts), _) => key matches Ok(k) && is_full_view(k, parts),
                (Err(_), Ok(parts)) => key matches Ok(k) && is_incoming_view(k, parts),
                (Err(ufvk), Err(uivk)) => key matches Err(e) && e.ufvk@ == ufvk && e.uivk@ == uivk,
            },
    {
        match decode_ufvk(network, encoding) {
            Ok(ufvk) => Ok(Self::from_ufvk(&ufvk)),
            Err(ufvk) => match decode_uivk(network, encoding) {
                Ok(uivk) => Ok(Self::from_uivk(&uivk)),
                Err(uivk) => Err(KeyError { ufvk, uivk }),
            },
        }
    }

    /// The keys of a unified full viewing key, of both scopes.
    pub fn from_ufvk(ufvk: &UnifiedFullViewingKey) -> (key: Self)
        ensures
            is_full_view(key, ufvk@),
    {
        let mut key = ViewKey {
            sapling: Vec::new(),
            orchard: Vec::new(),
            sapling_ovks: Vec::new(),
            orchard_ovks: Vec::new(),
            transparent: None,
        };
        if let Some(dfvk) = &ufvk.sapling {
            key.sapling.push(sapling_incoming(dfvk, Scope::External));
            key.sapling.push(sapling_incoming(dfvk, Scope::Internal));
            key.sapling_ovks.push(sapling_to_ovk(dfvk, Scope::External));
            key.sapling_ovks.push(sapling_to_ovk(dfvk, Scope::Internal));
        }
        if let Some(fvk) = &ufvk.orchard {
            key.orchard.push(orchard_incoming(fvk, Scope::External));
            key.orchard.push(orchard_incoming(fvk, Scope::Internal));
            key.orchard_ovks.push(orchard_to_ovk(fvk, Scope::External));
            key.orchard_ovks.push(orchard_to_ovk(fvk, Scope::Internal));
        }
        if let Some(account) = &ufvk.transparent {
            if let Some(external) = derive_external_key(account) {
                let internal = derive_internal_key(account);
                key.transparent = Some(TransparentIncoming { external, internal });
            }
        }
        key
    }

    /// The keys of a unified incoming viewing key.
    pub fn from_uivk(uivk: &UnifiedIncomingViewingKey) -> (key: Self)
        ensures
            is_incoming_view(key, uivk@),
    {
        let mut key = ViewKey {
            sapling: Vec::new(),
            orchard: Vec::new(),
            sapling_ovks: Vec::new(),
            orchard_ovks: Vec::new(),
            transparent: None,
        };
        if let Some(ivk) = &uivk.sapling {
            key.sapling.push(SaplingIncoming { ivk: ivk.duplicate(), nk: None });
        }
        if let Some(ivk) = &uivk.orchard {
            key.orchard.push(OrchardIncoming { ivk: ivk.duplicate(), fvk: None });
        }
        if let Some(external) = &uivk.transparent {
            key.transparent =
                Some(TransparentIncoming { external: external.duplicate(), internal: None });
        }
        key
    }

    /// Whether some key derives nullifiers, so that spends can be detected.
    pub fn can_derive_nullifiers(&self) -> (can: bool)
        ensures
            can == derives_nullifiers(*self),
    {
        let mut i: usize = 0;
        while i < self.sapling.len()
            invariant
                0 <= i <= self.sapling.len(),
                forall|j: int| 0 <= j < i ==> (#[trigger] self.sapling[j]).nk is None,
            decreases self.sapling.len() - i,
        {
            if self.sapling[i].nk.is_some() {
                assert(self.sapling[i as int].nk is Some);
                return true;
            }
            i = i + 1;
        }
        let mut k: usize = 0;
        while k < self.orchard.len()
            invariant
                0 <= k <= self.orchard.len(),
                forall|j: int| 0 <= j < self.sapling.len() ==> (#[trigger] self.sapling[j]).nk is None,
                forall|j: int| 0 <= j < k ==> (#[trigger] self.orchard[j]).fvk is None,
            decreases self.orchard.len() - k,
        {
            if self.orchard[k].fvk.is_some() {
                assert(self.orchard[k as int].fvk is Some);
                return true;
            }
            k = k + 1;
        }
        false
    }
}

/// The key that finds Sapling notes of one scope.
fn sapling_incoming(dfvk: &SaplingDfvk, scope: Scope) -> (key: SaplingIncoming)
    ensures
        is_sapling_incoming(key, dfvk@, scope),
{
    SaplingIncoming { ivk: sapling_to_ivk(dfvk, scope), nk: Some(sapling_to_nk(dfvk, scope)) }
}

/// The key that finds Orchard notes of one scope.
fn orchard_incoming(fvk: &OrchardFvk, scope: Scope) -> (key: OrchardIncoming)
    ensures
        is_orchard_incoming(key, fvk@, scope),
{
    OrchardIncoming { ivk: orchard_to_ivk(fvk, scope), fvk: Some(fvk.duplicate()) }
}

/// The unified address of a Sapling recipient, where the bytes are a payment address.
pub fn encode_sapling_recipient(network: Network, addr: &[u8; 43]) -> (text: Option<String>)
    ensures
        text is Some == sapling_ua_of(network, addr@) is Some,
        text is Some ==> sapling_ua_of(network, addr@) == Some((text->0)@),
{
    sapling_ua(network, addr)
}

/// The unified address of an Orchard recipient, where the bytes are an address.
pub fn encode_orchard_recipient(network: Network, addr: &[u8; 43]) -> (text: Option<String>)
    ensures
        text is Some == orchard_ua_of(network, addr@) is Some,
        text is Some ==> orchard_ua_of(network, addr@) == Some((text->0)@),
{
    orchard_ua(network, addr)
}

/// A full viewing key derives nullifiers exactly where it has a shielded component, and
/// an incoming viewing key never does.
pub proof fn law_nullifiers_need_full_key(key: ViewKey, parts: KeyParts)
    ensures
        is_full_view(key, parts) ==> derives_nullifiers(key) == (parts.0 is Some || parts.1 is Some),
        is_incoming_view(key, parts) ==> !derives_nullifiers(key),
{
    if is_full_view(key, parts) {
        if parts.0 is Some {
            assert(key.sapling[0].nk is Some);
        }
        if parts.1 is Some {
            assert(key.orchard[0].fvk is Some);
        }
    }
}

/// A full viewing key is tried in both scopes of each shielded pool, with everything that the
/// scope can do, and has the keys of its handed-out and its change addresses.
pub proof fn law_full_key_is_tried_in_both_scopes(key: ViewKey, parts: KeyParts)
    requires
        is_full_view(key, parts),
    ensures
        parts.0 is None ==> key.sapling.len() == 0 && key.sapling_ovks.len() == 0,
        parts.0 matches Some(dfvk) ==> {
            &&& key.sapling.len() == 2
            &&& key.sapling[0].ivk@ == sapling_ivk_of(dfvk, Scope::External)
            &&& key.sapling[1].ivk@ == sapling_ivk_of(dfvk, Scope::Internal)
            &&& key.sapling[0].nk is Some
            &&& key.sapling[0].nk->0@ == (dfvk, Scope::External)
            &&& key.sapling[1].nk is Some
            &&& key.sapling[1].nk->0@ == (dfvk, Scope::Internal)
            &&& key.sapling_ovks.len() == 2
            &&& key.sapling_ovks[0]@ == sapling_ovk_of(dfvk, Scope::External)
            &&& key.sapling_ovks[1]@ == sapling_ovk_of(dfvk, Scope::Internal)
        },
        parts.1 is None ==> key.orchard.len() == 0 && key.orchard_ovks.len() == 0,
        parts.1 matches Some(fvk) ==> {
            &&& key.orchard.len() == 2
            &&& key.orchard[0].ivk@ == orchard_ivk_of(fvk, Scope::External)
            &&& key.orchard[1].ivk@ == orchard_ivk_of(fvk, Scope::Internal)
            &&& key.orchard[0].fvk is Some
            &&& key.orchard[0].fvk->0@ == fvk
            &&& key.orchard[1].fvk is Some
            &&& key.orchard[1].fvk->0@ == fvk
            &&& key.orchard_ovks.len() == 2
            &&& key.orchard_ovks[0]@ == orchard_ovk_of(fvk, Scope::External)
            &&& key.orchard_ovks[1]@ == orchard_ovk_of(fvk, Scope::Internal)
        },
        parts.2 is None ==> key.transparent is None,
        parts.2 matches Some(account) ==> key.transparent is Some == external_key_of(
            account,
        ) is Some,
        parts.2 matches Some(account) ==> (key.transparent matches Some(t) ==> t@ == (
            external_key_of(account)->0,
            internal_key_of(account),
        )),
{
    if parts.0 is Some {
        assert(is_sapling_incoming(key.sapling[0], parts.0->0, scope_at(0)));
        assert(is_sapling_incoming(key.sapling[1], parts.0->0, scope_at(1)));
        assert(key.sapling_ovks[0]@ == sapling_ovk_of(parts.0->0, scope_at(0)));
        assert(key.sapling_ovks[1]@ == sapling_ovk_of(parts.0->0, scope_at(1)));
    }
    if parts.1 is Some {
        assert(is_orchard_incoming(key.orchard[0], parts.1->0, scope_at(0)));
        assert(is_orchard_incoming(key.orchard[1], parts.1->0, scope_at(1)));
        assert(key.orchard_ovks[0]@ == orchard_ovk_of(parts.1->0, scope_at(0)));
        assert(key.orchard_ovks[1]@ == orchard_ovk_of(parts.1->0, scope_at(1)));
    }
}

/// An incoming viewing key is tried once in each shielded pool, and finds notes and handed-out
/// addresses only.
pub proof fn law_incoming_key_finds_notes_only(key: ViewKey, parts: KeyParts)
    requires
        is_incoming_view(key, parts),
    ensures
        parts.0 is None ==> key.sapling.len() == 0,
        parts.0 matches Some(ivk) ==> key.sapling.len() == 1 && key.sapling[0].ivk@ == ivk
            && key.sapling[0].nk is None,
        parts.1 is None ==> key.orchard.len() == 0,
        parts.1 matches Some(ivk) ==> key.orchard.len() == 1 && key.orchard[0].ivk@ == ivk
            && key.orchard[0].fvk is None,
        key.sapling_ovks.len() == 0,
        key.orchard_ovks.len() == 0,
        key.transparent is Some == parts.2 is Some,
        key.transparent matches Some(t) ==> t@ == (parts.2->0, None::<Seq<u8>>),
{
}

/// An address is derived with the key of its own scope, at its own index, and its encoding is
/// listed with that index.
pub proof fn law_address_is_derived_in_its_scope(
    external: Seq<u8>,
    internal: Option<Seq<u8>>,
    network: Network,
    index: u32,
)
    ensures
        index < 0x8000_0000 ==> scoped_address(external, internal, false, index)
            == external_address_of(external, index),
        index < 0x8000_0000 ==> (internal matches Some(key) ==> scoped_address(
            external,
            internal,
            true,
            index,
        ) == internal_address_of(key, index)),
        internal is None ==> scoped_address(external, internal, true, index) is None,
        index >= 0x8000_0000 ==> scoped_address(external, internal, false, index) is None
            && scoped_address(external, internal, true, index) is None,
        forall|scope: bool|
            #![trigger scoped_address(external, internal, scope, index)]
            listed_address(external, internal, network, scope, index) == (match scoped_address(
                external,
                internal,
                scope,
                index,
            ) {
                Some(address) => Some((address_text_of(network, address), index)),
                None => None,
            }),
{
}

/// A key derives nullifiers exactly where one of its keys can.
pub proof fn law_nullifiers_are_derived_by_some_key(key: ViewKey)
    ensures
        derives_nullifiers(key) <==> {
            ||| exists|i: int| 0 <= i < key.sapling.len() && (#[trigger] key.sapling[i]).nk is Some
            ||| exists|i: int| 0 <= i < key.orchard.len() && (#[trigger] key.orchard[i]).fvk is Some
        },
{
}

} // verus!
