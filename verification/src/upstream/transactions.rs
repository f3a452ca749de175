//! Full transactions.

use vstd::prelude::*;
use zcash_protocol::consensus::{BlockHeight, BranchId};

use super::orchard_notes::OrchardFullAction;
use super::sapling_notes::SaplingFullOutput;
use crate::primitives::{FullActionParts, FullParts, Network, OutPoint};

verus! {

#[verifier::external_type_specification]
#[verifier::external_body]
pub struct ExTransaction(zcash_primitives::transaction::Transaction);

/// A full transaction, read by the rules of the height at which it was mined.
#[derive(Debug)]
pub struct FullTransaction {
    pub(crate) data: Vec<u8>,
    pub(crate) network: Network,
    pub(crate) height: u32,
    pub(crate) inner: zcash_primitives::transaction::Transaction,
}

impl FullTransaction {
    /// The serialized transaction, and the network and height whose rules it was read
    /// by.
    pub closed spec fn view(&self) -> (Seq<u8>, Network, u32) {
        (self.data@, self.network, self.height)
    }
}

/// The message that says why bytes are no transaction, where they are none.
pub uninterp spec fn transaction_error_of(data: Seq<u8>, network: Network, height: u32) -> Option<Seq<char>>;

/// `Transaction::read` with the branch that `BranchId::for_height` gives: a function of
/// the bytes, the network and the height. Of an error, only its text is kept.
#[verifier::external_body]
pub(crate) fn read_transaction(data: &Vec<u8>, network: Network, height: u32) -> (tx: Result<FullTransaction, String>)
    ensures
        tx is Ok ==> transaction_error_of(data@, network, height) is None && (tx->Ok_0)@ == (
            data@,
            network,
            height,
        ),
        tx is Err ==> transaction_error_of(data@, network, height) == Some((tx->Err_0)@),
{
    let rules = match network {
        Network::MainNetwork => zcash_protocol::consensus::Network::MainNetwork,
        Network::TestNetwork => zcash_protocol::consensus::Network::TestNetwork,
    };
    let branch = BranchId::for_height(&rules, BlockHeight::from_u32(height));
    let inner = zcash_primitives::transaction::Transaction::read(data.as_slice(), branch).map_err(|e| e.to_string())?;
    Ok(FullTransaction { data: data.clone(), network, height, inner })
}

/// The id of a transaction.
pub uninterp spec fn txid_of(tx: (Seq<u8>, Network, u32)) -> [u8; 32];

/// `Transaction::txid`: a function of what the transaction was read from.
#[verifier::external_body]
pub(crate) fn transaction_id(tx: &FullTransaction) -> (txid: [u8; 32])
    ensures
        txid == txid_of(tx@),
{
    *tx.inner.txid().as_ref()
}

/// The outputs that the transparent inputs of a transaction spend, where it has a
/// transparent bundle.
pub uninterp spec fn transparent_inputs_of(tx: (Seq<u8>, Network, u32)) -> Option<Seq<OutPoint>>;

/// `transparent_bundle` and the `prevout` of each `vin`: a function of what the
/// transaction was read from.
#[verifier::external_body]
pub(crate) fn transparent_inputs(tx: &FullTransaction) -> (inputs: Option<Vec<OutPoint>>)
    ensures
        inputs is Some == transparent_inputs_of(tx@) is Some,
        inputs is Some ==> transparent_inputs_of(tx@) == Some((inputs->0)@),
{
    Some(tx.inner.transparent_bundle()?.vin.iter().map(|i| OutPoint {
        hash: *i.prevout().hash(),
        n: i.prevout().n(),
    }).collect())
}

/// The values and locking scripts of the transparent outputs of a transaction, where it has
/// a transparent bundle.
pub uninterp spec fn transparent_outputs_of(tx: (Seq<u8>, Network, u32)) -> Option<Seq<(u64, Seq<u8>)>>;

/// `transparent_bundle` and the `value` and `script_pubkey` of each `vout`: a function of
/// what the transaction was read from.
#[verifier::external_body]
pub(crate) fn transparent_outputs(tx: &FullTransaction) -> (outputs: Option<Vec<(u64, Vec<u8>)>>)
    ensures
        outputs is Some == transparent_outputs_of(tx@) is Some,
        outputs is Some ==> transparent_outputs_of(tx@) == Some(
            (outputs->0)@.map_values(|o: (u64, Vec<u8>)| (o.0, o.1@)),
        ),
{
    Some(tx.inner.transparent_bundle()?.vout.iter().map(|o| (
        o.value().into_u64(),
        o.script_pubkey().0.0.clone(),
    )).collect())
}

/// The Sapling outputs of a transaction, where it has a Sapling bundle.
pub uninterp spec fn sapling_outputs_of(tx: (Seq<u8>, Network, u32)) -> Option<Seq<FullParts>>;

/// `sapling_bundle` and its `shielded_outputs`: a function of what the transaction was
/// read from.
#[verifier::external_body]
pub(crate) fn sapling_outputs(tx: &FullTransaction) -> (outputs: Option<Vec<SaplingFullOutput>>)
    ensures
        outputs is Some == sapling_outputs_of(tx@) is Some,
        outputs is Some ==> sapling_outputs_of(tx@) == Some(
            (outputs->0)@.map_values(|o: SaplingFullOutput| o@),
        ),
{
    Some(tx.inner.sapling_bundle()?.shielded_outputs().iter().map(|o| SaplingFullOutput {
        cv: o.cv().to_bytes(),
        cmu: o.cmu().to_bytes(),
        ephemeral_key: o.ephemeral_key().0,
        enc_ciphertext: *o.enc_ciphertext(),
        out_ciphertext: *o.out_ciphertext(),
        inner: o.clone(),
    }).collect())
}

/// The Orchard actions of a transaction, where it has an Orchard bundle.
pub uninterp spec fn orchard_actions_of(tx: (Seq<u8>, Network, u32)) -> Option<Seq<FullActionParts>>;

/// `orchard_bundle` and its `actions`: a function of what the transaction was read
/// from.
#[verifier::external_body]
pub(crate) fn orchard_actions(tx: &FullTransaction) -> (actions: Option<Vec<OrchardFullAction>>)
    ensures
        actions is Some == orchard_actions_of(tx@) is Some,
        actions is Some ==> orchard_actions_of(tx@) == Some(
            (actions->0)@.map_values(|a: OrchardFullAction| a@),
        ),
{
    Some(tx.inner.orchard_bundle()?.actions().iter().map(|a| OrchardFullAction {
        nullifier: a.nullifier().to_bytes(),
        cmx: a.cmx().to_bytes(),
        cv_net: a.cv_net().to_bytes(),
        ephemeral_key: a.encrypted_note().epk_bytes,
        enc_ciphertext: a.encrypted_note().enc_ciphertext.0,
        out_ciphertext: a.encrypted_note().out_ciphertext,
        inner: a.clone().map(|_| ()),
    }).collect())
}

/// The Ironwood actions of a transaction, where it has an Ironwood bundle.
pub uninterp spec fn ironwood_actions_of(tx: (Seq<u8>, Network, u32)) -> Option<Seq<FullActionParts>>;

/// `ironwood_bundle` and its `actions`: a function of what the transaction was read
/// from.
#[verifier::external_body]
pub(crate) fn ironwood_actions(tx: &FullTransaction) -> (actions: Option<Vec<OrchardFullAction>>)
    ensures
        actions is Some == ironwood_actions_of(tx@) is Some,
        actions is Some ==> ironwood_actions_of(tx@) == Some(
            (actions->0)@.map_values(|a: OrchardFullAction| a@),
        ),
{
    Some(tx.inner.ironwood_bundle()?.actions().iter().map(|a| OrchardFullAction {
        nullifier: a.nullifier().to_bytes(),
        cmx: a.cmx().to_bytes(),
        cv_net: a.cv_net().to_bytes(),
        ephemeral_key: a.encrypted_note().epk_bytes,
        enc_ciphertext: a.encrypted_note().enc_ciphertext.0,
        out_ciphertext: a.encrypted_note().out_ciphertext,
        inner: a.clone().map(|_| ()),
    }).collect())
}

} // verus!
