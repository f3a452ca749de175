//! Unified viewing keys and unified addresses.

use vstd::prelude::*;
use zcash_keys::address::UnifiedAddress;

use super::orchard_notes::{OrchardFvk, OrchardIvk};
use super::sapling_notes::{SaplingDfvk, SaplingIvk};
use super::transparent_keys::{TransparentAccountKey, TransparentExternalKey};
use crate::primitives::Network;

verus! {

/// A unified full viewing key: the full viewing key of each pool that it covers.
#[derive(Debug)]
pub struct UnifiedFullViewingKey {
    /// The Sapling key.
    pub sapling: Option<SaplingDfvk>,
    /// The Orchard key, which the Ironwood pool shares.
    pub orchard: Option<OrchardFvk>,
    /// The transparent account key.
    pub transparent: Option<TransparentAccountKey>,
}

/// A unified incoming viewing key: the incoming viewing key of each pool that it
/// covers.
#[derive(Debug)]
pub struct UnifiedIncomingViewingKey {
    /// The Sapling key.
    pub sapling: Option<SaplingIvk>,
    /// The Orchard key, which the Ironwood pool shares.
    pub orchard: Option<OrchardIvk>,
    /// The transparent external key.
    pub transparent: Option<TransparentExternalKey>,
}

/// The encodings of a unified viewing key's components: Sapling, Orchard, transparent.
pub type KeyParts = (Option<Seq<u8>>, Option<Seq<u8>>, Option<Seq<u8>>);

impl UnifiedFullViewingKey {
    /// The encodings of the components.
    pub open spec fn view(&self) -> KeyParts {
        (
            match self.sapling {
                Some(k) => Some(k@),
                None => None,
            },
            match self.orchard {
                Some(k) => Some(k@),
                None => None,
            },
            match self.transparent {
                Some(k) => Some(k@),
                None => None,
            },
        )
    }
}

impl UnifiedIncomingViewingKey {
    /// The encodings of the components.
    pub open spec fn view(&self) -> KeyParts {
        (
            match self.sapling {
                Some(k) => Some(k@),
                None => None,
            },
            match self.orchard {
                Some(k) => Some(k@),
                None => None,
            },
            match self.transparent {
                Some(k) => Some(k@),
                None => None,
            },
        )
    }
}

/// The components of a unified full viewing key, or the message that says why a
/// string is none.
pub uninterp spec fn ufvk_of(network: Network, encoding: Seq<char>) -> Result<KeyParts, Seq<char>>;

/// `UnifiedFullViewingKey::decode` of `zcash_keys`: a function of the network and the
/// string. Of an error, only its text is kept; of a transparent component, only a
/// pay-to-public-key-hash one.
#[verifier::external_body]
pub(crate) fn decode_ufvk(network: Network, encoding: &str) -> (key: Result<UnifiedFullViewingKey, String>)
    ensures
        key is Ok == ufvk_of(network, encoding@) is Ok,
        key is Ok ==> ufvk_of(network, encoding@) == Ok::<KeyParts, Seq<char>>((key->Ok_0)@),
        key is Err ==> ufvk_of(network, encoding@) == Err::<KeyParts, Seq<char>>((key->Err_0)@),
{
    let network = match network {
        Network::MainNetwork => zcash_protocol::consensus::Network::MainNetwork,
        Network::TestNetwork => zcash_protocol::consensus::Network::TestNetwork,
    };
    let key = zcash_keys::keys::UnifiedFullViewingKey::decode(&network, encoding).map_err(|e| e.to_string())?;
    Ok(UnifiedFullViewingKey {
        sapling: key.sapling().map(|k| SaplingDfvk { bytes: k.to_bytes(), inner: k.clone() }),
        orchard: key.orchard().map(|k| OrchardFvk { bytes: k.to_bytes(), inner: k.clone() }),
        transparent: key.p2pkh().map(|k| TransparentAccountKey { bytes: k.serialize().try_into().unwrap(), inner: k.clone() }),
    })
}

/// The components of a unified incoming viewing key, or the message that says why a
/// string is none.
pub uninterp spec fn uivk_of(network: Network, encoding: Seq<char>) -> Result<KeyParts, Seq<char>>;

/// `UnifiedIncomingViewingKey::decode` of `zcash_keys`: a function of the network and
/// the string. Of an error, only its text is kept; of a transparent component, only a
/// pay-to-public-key-hash one; of the Sapling component, only the key without its
/// diversifier key.
#[verifier::external_body]
pub(crate) fn decode_uivk(network: Network, encoding: &str) -> (key: Result<UnifiedIncomingViewingKey, String>)
    ensures
        key is Ok == uivk_of(network, encoding@) is Ok,
        key is Ok ==> uivk_of(network, encoding@) == Ok::<KeyParts, Seq<char>>((key->Ok_0)@),
        key is Err ==> uivk_of(network, encoding@) == Err::<KeyParts, Seq<char>>((key->Err_0)@),
{
    let network = match network {
        Network::MainNetwork => zcash_protocol::consensus::Network::MainNetwork,
        Network::TestNetwork => zcash_protocol::consensus::Network::TestNetwork,
    };
    let key = zcash_keys::keys::UnifiedIncomingViewingKey::decode(&network, encoding).map_err(|e| e.to_string())?;
    Ok(UnifiedIncomingViewingKey {
        sapling: key.sapling().as_ref().map(|k| SaplingIvk { bytes: k.to_bytes()[32..].try_into().unwrap(), inner: k.prepare() }),
        orchard: key.orchard().as_ref().map(|k| OrchardIvk { bytes: k.to_bytes(), inner: k.prepare() }),
        transparent: key.p2pkh().map(|k| TransparentExternalKey {
            bytes: zcash_transparent::keys::IncomingViewingKey::serialize(k).try_into().unwrap(), inner: k.clone() }),
    })
}

/// The unified address that holds one Sapling receiver, where the bytes are one.
pub uninterp spec fn sapling_ua_of(network: Network, recipient: Seq<u8>) -> Option<Seq<char>>;

/// `UnifiedAddress::from_receivers` with one Sapling receiver, and `encode`: a function
/// of the network and the raw payment address. Nothing where the bytes are no address.
#[verifier::external_body]
pub(crate) fn sapling_ua(network: Network, recipient: &[u8; 43]) -> (text: Option<String>)
    ensures
        text is Some == sapling_ua_of(network, recipient@) is Some,
        text is Some ==> sapling_ua_of(network, recipient@) == Some((text->0)@),
{
    let network = match network {
        Network::MainNetwork => zcash_protocol::consensus::Network::MainNetwork,
        Network::TestNetwork => zcash_protocol::consensus::Network::TestNetwork,
    };
    let address = sapling_crypto::PaymentAddress::from_bytes(recipient)?;
    UnifiedAddress::from_receivers(None, Some(address), None, None, None).map(|ua| ua.encode(&network))
}

/// The unified address that holds one Orchard receiver, where the bytes are one.
pub uninterp spec fn orchard_ua_of(network: Network, recipient: Seq<u8>) -> Option<Seq<char>>;

/// `UnifiedAddress::from_receivers` with one Orchard receiver, and `encode`: a function
/// of the network and the raw address. Nothing where the bytes are no address.
#[verifier::external_body]
pub(crate) fn orchard_ua(network: Network, recipient: &[u8; 43]) -> (text: Option<String>)
    ensures
        text is Some == orchard_ua_of(network, recipient@) is Some,
        text is Some ==> orchard_ua_of(network, recipient@) == Some((text->0)@),
{
    let network = match network {
        Network::MainNetwork => zcash_protocol::consensus::Network::MainNetwork,
        Network::TestNetwork => zcash_protocol::consensus::Network::TestNetwork,
    };
    let address = orchard::Address::from_raw_address_bytes(recipient).into_option()?;
    UnifiedAddress::from_receivers(Some(address), None, None, None, None).map(|ua| ua.encode(&network))
}

} // verus!
