//! Transparent keys: address derivation, locking scripts and address encodings.

use vstd::prelude::*;
use zcash_keys::encoding::AddressCodec;
use zcash_script::script::Evaluable;
use zcash_transparent::keys::{IncomingViewingKey, NonHardenedChildIndex};

use crate::primitives::{Network, TransparentAddress};

verus! {

#[verifier::external_type_specification]
#[verifier::external_body]
pub struct ExAccountPubKey(zcash_transparent::keys::AccountPubKey);

#[verifier::external_type_specification]
#[verifier::external_body]
pub struct ExExternalIvk(zcash_transparent::keys::ExternalIvk);

#[verifier::external_type_specification]
#[verifier::external_body]
pub struct ExInternalIvk(zcash_transparent::keys::InternalIvk);

/// The transparent public key of an account.
#[derive(Debug)]
pub struct TransparentAccountKey {
    pub(crate) bytes: [u8; 65],
    pub(crate) inner: zcash_transparent::keys::AccountPubKey,
}

impl TransparentAccountKey {
    /// The key's encoding: chain code, then compressed public key.
    pub closed spec fn view(&self) -> Seq<u8> {
        self.bytes@
    }

    /// The same key again: a clone of the `AccountPubKey` with its encoding.
    #[verifier::external_body]
    pub(crate) fn duplicate(&self) -> (key: TransparentAccountKey)
        ensures
            key@ == self@,
    {
        TransparentAccountKey { bytes: self.bytes, inner: self.inner.clone() }
    }
}

/// The key of the transparent addresses that are handed out.
#[derive(Debug)]
pub struct TransparentExternalKey {
    pub(crate) bytes: [u8; 65],
    pub(crate) inner: zcash_transparent::keys::ExternalIvk,
}

impl TransparentExternalKey {
    /// The key's encoding: chain code, then compressed public key.
    pub closed spec fn view(&self) -> Seq<u8> {
        self.bytes@
    }

    /// The same key again: a clone of the `ExternalIvk` with its encoding.
    #[verifier::external_body]
    pub(crate) fn duplicate(&self) -> (key: TransparentExternalKey)
        ensures
            key@ == self@,
    {
        TransparentExternalKey { bytes: self.bytes, inner: self.inner.clone() }
    }
}

/// The key of the transparent change addresses.
#[derive(Debug)]
pub struct TransparentInternalKey {
    pub(crate) bytes: [u8; 65],
    pub(crate) inner: zcash_transparent::keys::InternalIvk,
}

impl TransparentInternalKey {
    /// The key's encoding: chain code, then compressed public key.
    pub closed spec fn view(&self) -> Seq<u8> {
        self.bytes@
    }
}

/// The external key of an account, where it can be derived.
pub uninterp spec fn external_key_of(account: Seq<u8>) -> Option<Seq<u8>>;

/// `AccountPubKey::derive_external_ivk`: the account's external key, a function of the
/// account's key.
#[verifier::external_body]
pub(crate) fn derive_external_key(account: &TransparentAccountKey) -> (key: Option<TransparentExternalKey>)
    ensures
        key is Some == external_key_of(account@) is Some,
        key is Some ==> external_key_of(account@) == Some((key->0)@),
{
    let inner = account.inner.derive_external_ivk().ok()?;
    Some(TransparentExternalKey { bytes: inner.serialize().try_into().unwrap(), inner })
}

/// The internal key of an account, where it can be derived.
pub uninterp spec fn internal_key_of(account: Seq<u8>) -> Option<Seq<u8>>;

/// `AccountPubKey::derive_internal_ivk`: the account's internal key, a function of the
/// account's key.
#[verifier::external_body]
pub(crate) fn derive_internal_key(account: &TransparentAccountKey) -> (key: Option<TransparentInternalKey>)
    ensures
        key is Some == internal_key_of(account@) is Some,
        key is Some ==> internal_key_of(account@) == Some((key->0)@),
{
    let inner = account.inner.derive_internal_ivk().ok()?;
    Some(TransparentInternalKey { bytes: inner.serialize().try_into().unwrap(), inner })
}

/// One past the largest child index that an address key derives without hardening.
pub const CHILD_INDEX_END: u32 = 0x8000_0000;

/// The external address at a child index, where it can be derived.
pub uninterp spec fn external_address_of(key: Seq<u8>, index: u32) -> Option<TransparentAddress>;

/// `derive_address` of the external key at a non-hardened child index: a function of
/// the key and the index. `NonHardenedChildIndex::from_index` accepts the indices
/// below `CHILD_INDEX_END`.
#[verifier::external_body]
pub(crate) fn external_address(key: &TransparentExternalKey, index: u32) -> (address: Option<TransparentAddress>)
    requires
        index < CHILD_INDEX_END,
    ensures
        address == external_address_of(key@, index),
{
    let child = NonHardenedChildIndex::from_index(index).unwrap();
    match key.inner.derive_address(child).ok()? {
        zcash_transparent::address::TransparentAddress::PublicKeyHash(h) => Some(TransparentAddress::PublicKeyHash(h)),
        zcash_transparent::address::TransparentAddress::ScriptHash(h) => Some(TransparentAddress::ScriptHash(h)),
    }
}

/// The internal address at a child index, where it can be derived.
pub uninterp spec fn internal_address_of(key: Seq<u8>, index: u32) -> Option<TransparentAddress>;

/// `derive_address` of the internal key at a non-hardened child index: a function of
/// the key and the index.
#[verifier::external_body]
pub(crate) fn internal_address(key: &TransparentInternalKey, index: u32) -> (address: Option<TransparentAddress>)
    requires
        index < CHILD_INDEX_END,
    ensures
        address == internal_address_of(key@, index),
{
    let child = NonHardenedChildIndex::from_index(index).unwrap();
    match key.inner.derive_address(child).ok()? {
        zcash_transparent::address::TransparentAddress::PublicKeyHash(h) => Some(TransparentAddress::PublicKeyHash(h)),
        zcash_transparent::address::TransparentAddress::ScriptHash(h) => Some(TransparentAddress::ScriptHash(h)),
    }
}

/// The locking script of an address.
pub open spec fn script_of(address: TransparentAddress) -> Seq<u8> {
    match address {
        TransparentAddress::PublicKeyHash(hash) => seq![0x76u8, 0xa9, 0x14] + hash@ + seq![0x88u8, 0xac],
        TransparentAddress::ScriptHash(hash) => seq![0xa9u8, 0x14] + hash@ + seq![0x87u8],
    }
}

/// `TransparentAddress::script`, as bytes: the pay-to-public-key-hash or
/// pay-to-script-hash script with the address's hash in it.
#[verifier::external_body]
pub(crate) fn address_script(address: &TransparentAddress) -> (script: Vec<u8>)
    ensures
        script@ == script_of(*address),
{
    let address = match address {
        TransparentAddress::PublicKeyHash(h) => zcash_transparent::address::TransparentAddress::PublicKeyHash(*h),
        TransparentAddress::ScriptHash(h) => zcash_transparent::address::TransparentAddress::ScriptHash(*h),
    };
    address.script().to_bytes()
}

/// The Base58Check encoding of an address.
pub uninterp spec fn address_text_of(network: Network, address: TransparentAddress) -> Seq<char>;

/// `AddressCodec::encode` of a transparent address: a function of the network and the
/// address.
#[verifier::external_body]
pub(crate) fn address_text(network: Network, address: &TransparentAddress) -> (text: String)
    ensures
        text@ == address_text_of(network, *address),
{
    let network = match network {
        Network::MainNetwork => zcash_protocol::consensus::Network::MainNetwork,
        Network::TestNetwork => zcash_protocol::consensus::Network::TestNetwork,
    };
    let address = match address {
        TransparentAddress::PublicKeyHash(h) => zcash_transparent::address::TransparentAddress::PublicKeyHash(*h),
        TransparentAddress::ScriptHash(h) => zcash_transparent::address::TransparentAddress::ScriptHash(*h),
    };
    address.encode(&network)
}

} // verus!
