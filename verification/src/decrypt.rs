//! Decryption of received and of sent notes with one key.

use vstd::prelude::*;

use crate::primitives::{
    FullActionParts, FullParts, Network, OrchardNote, SaplingNote, Zip212Enforcement,
};
use crate::sync::enrich::{actions_view, outputs_view};
use crate::upstream::orchard_notes::{
    orchard_full_note, orchard_recover, orchard_sent_note, OrchardFullAction, OrchardIvk,
};
use crate::upstream::sapling_notes::{
    sapling_full_note, sapling_recover, sapling_sent_note, SaplingFullOutput, SaplingIvk,
};
use crate::upstream::transactions::{
    ironwood_actions, ironwood_actions_of, orchard_actions, orchard_actions_of, read_transaction,
    sapling_outputs, sapling_outputs_of, transaction_error_of,
};

verus! {

/// Trial-decrypts one full Orchard action with a key.
pub fn try_decrypt_orchard(action: &OrchardFullAction, ivk: &OrchardIvk) -> (found: Option<
    (OrchardNote, [u8; 43], [u8; 512]),
>)
    ensures
        found == match orchard_full_note(ivk@, action@) {
            Some((note, memo)) => Some((note, note.recipient, memo)),
            None => None,
        },
{
    crate::note::decrypt::try_decrypt_orchard(action, ivk)
}

/// Trial-decrypts one full Sapling output with a key.
pub fn try_decrypt_sapling(
    output: &SaplingFullOutput,
    ivk: &SaplingIvk,
    zip212: Zip212Enforcement,
) -> (found: Option<(SaplingNote, [u8; 43], [u8; 512])>)
    ensures
        found == match sapling_full_note(ivk@, zip212, output@) {
            Some((note, memo)) => Some((note, note.recipient, memo)),
            None => None,
        },
{
    crate::note::decrypt::try_decrypt_sapling(output, ivk, zip212)
}

/// Recovers the note that one full Orchard action sent, with an outgoing viewing key.
pub fn try_decrypt_orchard_sent(action: &OrchardFullAction, ovk: &[u8; 32]) -> (sent: Option<
    (OrchardNote, [u8; 43], [u8; 512]),
>)
    ensures
        sent == match orchard_sent_note(ovk@, action@) {
            Some((note, memo)) => Some((note, note.recipient, memo)),
            None => None,
        },
{
    match orchard_recover(ovk, action) {
        Some((note, memo)) => Some((note, note.recipient, memo)),
        None => None,
    }
}

/// Recovers the note that one full Sapling output sent, with an outgoing viewing key.
pub fn try_decrypt_sapling_sent(
    output: &SaplingFullOutput,
    ovk: &[u8; 32],
    zip212: Zip212Enforcement,
) -> (sent: Option<(SaplingNote, [u8; 43], [u8; 512])>)
    ensures
        sent == match sapling_sent_note(ovk@, zip212, output@) {
            Some((note, memo)) => Some((note, note.recipient, memo)),
            None => None,
        },
{
    match sapling_recover(ovk, zip212, output) {
        Some((note, memo)) => Some((note, note.recipient, memo)),
        None => None,
    }
}

/// The shielded outputs of a full transaction, where it has them.
pub struct FullOutputs {
    /// The Sapling outputs.
    pub sapling: Option<Vec<SaplingFullOutput>>,
    /// The Orchard actions.
    pub orchard: Option<Vec<OrchardFullAction>>,
    /// The Ironwood actions.
    pub ironwood: Option<Vec<OrchardFullAction>>,
}

impl FullOutputs {
    /// What the outputs hold.
    pub open spec fn view(&self) -> (
        Option<Seq<FullParts>>,
        Option<Seq<FullActionParts>>,
        Option<Seq<FullActionParts>>,
    ) {
        (outputs_view(self.sapling), actions_view(self.orchard), actions_view(self.ironwood))
    }
}

/// Reads the shielded outputs of a serialized transaction, by the rules of the height at
/// which it was mined, or tells why the bytes are no transaction.
pub fn read_outputs(data: &Vec<u8>, network: Network, height: u32) -> (result: Result<
    FullOutputs,
    String,
>)
    ensures
        match result {
            Ok(outputs) => transaction_error_of(data@, network, height) is None && outputs@ == (
                sapling_outputs_of((data@, network, height)),
                orchard_actions_of((data@, network, height)),
                ironwood_actions_of((data@, network, height)),
            ),
            Err(e) => transaction_error_of(data@, network, height) == Some(e@),
        },
{
    let tx = match read_transaction(data, network, height) {
        Ok(tx) => tx,
        Err(e) => return Err(e),
    };
    Ok(
        FullOutputs {
            sapling: sapling_outputs(&tx),
            orchard: orchard_actions(&tx),
            ironwood: ironwood_actions(&tx),
        },
    )
}

} // verus!
