//! Consensus parameters: activation heights, ZIP 212 and the bound on money.

use vstd::prelude::*;
use zcash_protocol::consensus::{BlockHeight, Parameters};
use zcash_protocol::value::Zatoshis;

use crate::primitives::{Network, NetworkUpgrade, Zip212Enforcement};

verus! {

/// The largest amount of money that can exist, in zatoshis.
pub const MAX_MONEY: u64 = 2_100_000_000_000_000;

/// How many blocks after Canopy both Sapling plaintext forms stay valid.
pub const ZIP212_GRACE_PERIOD: u32 = 32_256;

/// The height at which a network upgrade activates.
pub open spec fn activation_of(network: Network, upgrade: NetworkUpgrade) -> u32 {
    match (network, upgrade) {
        (Network::MainNetwork, NetworkUpgrade::Sapling) => 419_200,
        (Network::MainNetwork, NetworkUpgrade::Canopy) => 1_046_400,
        (Network::MainNetwork, NetworkUpgrade::Nu5) => 1_687_104,
        (Network::MainNetwork, NetworkUpgrade::Nu6_3) => 3_428_143,
        (Network::TestNetwork, NetworkUpgrade::Sapling) => 280_000,
        (Network::TestNetwork, NetworkUpgrade::Canopy) => 1_028_500,
        (Network::TestNetwork, NetworkUpgrade::Nu5) => 1_842_420,
        (Network::TestNetwork, NetworkUpgrade::Nu6_3) => 4_134_000,
    }
}

/// `Parameters::activation_height` of `zcash_protocol`: each of these upgrades has an
/// activation height on both networks.
#[verifier::external_body]
pub(crate) fn activation_height(network: Network, upgrade: NetworkUpgrade) -> (height: Option<u32>)
    ensures
        height == Some(activation_of(network, upgrade)),
{
    let network = match network {
        Network::MainNetwork => zcash_protocol::consensus::Network::MainNetwork,
        Network::TestNetwork => zcash_protocol::consensus::Network::TestNetwork,
    };
    let upgrade = match upgrade {
        NetworkUpgrade::Sapling => zcash_protocol::consensus::NetworkUpgrade::Sapling,
        NetworkUpgrade::Canopy => zcash_protocol::consensus::NetworkUpgrade::Canopy,
        NetworkUpgrade::Nu5 => zcash_protocol::consensus::NetworkUpgrade::Nu5,
        NetworkUpgrade::Nu6_3 => zcash_protocol::consensus::NetworkUpgrade::Nu6_3,
    };
    network.activation_height(upgrade).map(u32::from)
}

/// The ZIP 212 rule at a height: off before Canopy, a grace period after it, then on.
pub open spec fn zip212_at(network: Network, height: u32) -> Zip212Enforcement {
    let canopy = activation_of(network, NetworkUpgrade::Canopy);
    if height < canopy {
        Zip212Enforcement::Off
    } else if height < canopy + ZIP212_GRACE_PERIOD {
        Zip212Enforcement::GracePeriod
    } else {
        Zip212Enforcement::On
    }
}

/// `zip212_enforcement` of `zcash_primitives`: the ZIP 212 rule at `height`.
#[verifier::external_body]
pub(crate) fn zip212_enforcement(network: Network, height: u32) -> (rule: Zip212Enforcement)
    ensures
        rule == zip212_at(network, height),
{
    let network = match network {
        Network::MainNetwork => zcash_protocol::consensus::Network::MainNetwork,
        Network::TestNetwork => zcash_protocol::consensus::Network::TestNetwork,
    };
    let height = BlockHeight::from_u32(height);
    match zcash_primitives::transaction::components::sapling::zip212_enforcement(&network, height) {
        sapling_crypto::note_encryption::Zip212Enforcement::Off => Zip212Enforcement::Off,
        sapling_crypto::note_encryption::Zip212Enforcement::GracePeriod => Zip212Enforcement::GracePeriod,
        sapling_crypto::note_encryption::Zip212Enforcement::On => Zip212Enforcement::On,
    }
}

/// `Zatoshis::from_u64`: an amount is accepted up to `MAX_MONEY`.
#[verifier::external_body]
pub(crate) fn zatoshis(amount: u64) -> (value: Option<u64>)
    ensures
        value == if amount <= MAX_MONEY {
            Some(amount)
        } else {
            None
        },
{
    Zatoshis::from_u64(amount).ok().map(u64::from)
}

/// `Zatoshis + Zatoshis`: the sum of two amounts, where it is within `MAX_MONEY`.
#[verifier::external_body]
pub(crate) fn zatoshis_sum(a: u64, b: u64) -> (sum: Option<u64>)
    requires
        a <= MAX_MONEY,
        b <= MAX_MONEY,
    ensures
        sum == if a + b <= MAX_MONEY {
            Some((a + b) as u64)
        } else {
            None
        },
{
    (Zatoshis::from_u64(a).unwrap() + Zatoshis::from_u64(b).unwrap()).map(u64::from)
}

} // verus!
