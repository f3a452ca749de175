//! The messages of the lightwalletd protocol, as plain structs.

use vstd::prelude::*;

verus! {

/// A compact block.
#[derive(Debug, Clone, Default, PartialEq, Eq)]
pub struct CompactBlock {
    /// The version of this message.
    pub proto_version: u32,
    /// The block's height.
    pub height: u64,
    /// The block's hash.
    pub hash: Vec<u8>,
    /// The hash of the block before it.
    pub prev_hash: Vec<u8>,
    /// Unix time at which the block was mined.
    pub time: u32,
    /// The block's header.
    pub header: Vec<u8>,
    /// The transactions that matter to a light client.
    pub vtx: Vec<CompactTx>,
    /// What the server knows of the chain up to this block.
    pub chain_metadata: Option<ChainMetadata>,
}

/// The sizes of the note commitment trees after a block.
#[derive(Debug, Clone, Copy, Default, PartialEq, Eq)]
pub struct ChainMetadata {
    /// The size of the Sapling tree.
    pub sapling_commitment_tree_size: u32,
    /// The size of the Orchard tree.
    pub orchard_commitment_tree_size: u32,
    /// The size of the Ironwood tree.
    pub ironwood_commitment_tree_size: u32,
}

/// A compact transaction.
#[derive(Debug, Clone, Default, PartialEq, Eq)]
pub struct CompactTx {
    /// The transaction's index in the block.
    pub index: u64,
    /// The transaction's id.
    pub txid: Vec<u8>,
    /// The fee, in zatoshis.
    pub fee: u32,
    /// Sapling spends.
    pub spends: Vec<CompactSaplingSpend>,
    /// Sapling outputs.
    pub outputs: Vec<CompactSaplingOutput>,
    /// Orchard actions.
    pub actions: Vec<CompactOrchardAction>,
    /// Transparent inputs.
    pub vin: Vec<CompactTxIn>,
    /// Transparent outputs.
    pub vout: Vec<TxOut>,
    /// Ironwood actions.
    pub ironwood_actions: Vec<CompactOrchardAction>,
}

/// A Sapling spend.
#[derive(Debug, Clone, Default, PartialEq, Eq)]
pub struct CompactSaplingSpend {
    /// The nullifier of the note that is spent.
    pub nf: Vec<u8>,
}

/// A Sapling output, with the start of its ciphertext.
#[derive(Debug, Clone, Default, PartialEq, Eq)]
pub struct CompactSaplingOutput {
    /// The note commitment.
    pub cmu: Vec<u8>,
    /// The ephemeral public key.
    pub ephemeral_key: Vec<u8>,
    /// The first 52 bytes of the ciphertext.
    pub ciphertext: Vec<u8>,
}

/// An Orchard or Ironwood action, with the start of its ciphertext.
#[derive(Debug, Clone, Default, PartialEq, Eq)]
pub struct CompactOrchardAction {
    /// The nullifier of the note that is spent.
    pub nullifier: Vec<u8>,
    /// The commitment of the note that is made.
    pub cmx: Vec<u8>,
    /// The ephemeral public key.
    pub ephemeral_key: Vec<u8>,
    /// The first 52 bytes of the ciphertext.
    pub ciphertext: Vec<u8>,
}

/// A transparent input.
#[derive(Debug, Clone, Default, PartialEq, Eq)]
pub struct CompactTxIn {
    /// The transaction whose output is spent.
    pub prevout_txid: Vec<u8>,
    /// The index of that output.
    pub prevout_index: u32,
}

/// A transparent output.
#[derive(Debug, Clone, Default, PartialEq, Eq)]
pub struct TxOut {
    /// Value in zatoshis.
    pub value: u64,
    /// The locking script.
    pub script_pub_key: Vec<u8>,
}

/// A serialized transaction, and the height at which it was mined.
#[derive(Debug, Clone, Default, PartialEq, Eq)]
pub struct RawTransaction {
    /// The serialized transaction.
    pub data: Vec<u8>,
    /// The height.
    pub height: u64,
}

/// An unspent transparent output, as the server reports it.
#[derive(Debug, Clone, Default, PartialEq, Eq)]
pub struct GetAddressUtxosReply {
    /// The address that the output pays.
    pub address: String,
    /// The transaction that made the output.
    pub txid: Vec<u8>,
    /// The output's index.
    pub index: i32,
    /// The locking script.
    pub script: Vec<u8>,
    /// Value in zatoshis.
    pub value_zat: i64,
    /// The height at which the output was made.
    pub height: u64,
}

/// The note commitment tree frontiers at a height.
#[derive(Debug, Clone, Default, PartialEq, Eq)]
pub struct TreeState {
    /// The network's name.
    pub network: String,
    /// The block's height.
    pub height: u64,
    /// The block's hash, in hexadecimal.
    pub hash: String,
    /// Unix time at which the block was mined.
    pub time: u32,
    /// The Sapling frontier, in hexadecimal.
    pub sapling_tree: String,
    /// The Orchard frontier, in hexadecimal.
    pub orchard_tree: String,
}

} // verus!
