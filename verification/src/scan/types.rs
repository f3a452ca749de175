//! What scanning finds.

use vstd::prelude::*;

verus! {

/// The pool of a note.
#[derive(Debug, Clone, Copy, PartialEq, Eq, Structural)]
pub enum ShieldedPool {
    /// The Sapling pool.
    Sapling,
    /// The Orchard pool.
    Orchard,
}

/// The recipient of a note, as a raw address.
#[derive(Debug, Clone, Copy, PartialEq, Eq)]
pub enum Recipient {
    /// An Orchard address.
    Orchard([u8; 43]),
    /// A Sapling payment address.
    Sapling([u8; 43]),
}

/// An incoming note.
#[derive(Debug, Clone, Copy, PartialEq, Eq)]
pub struct IncomingNoteView {
    /// The height of its block.
    pub height: u32,
    /// The transaction that made it.
    pub tx_id: [u8; 32],
    /// The output's or action's index in that transaction.
    pub output_index: usize,
    /// Its pool.
    pub pool: ShieldedPool,
    /// Value in zatoshis.
    pub value_zat: u64,
    /// Its recipient.
    pub recipient: Recipient,
    /// Its randomness.
    pub rseed: [u8; 32],
    /// The nullifier that its action revealed, in the Orchard pool.
    pub rho: Option<[u8; 32]>,
    /// Its position in the commitment tree, in the Sapling pool and with a full key.
    pub sapling_leaf_pos: Option<u64>,
    /// Its nullifier, with a full key.
    pub nullifier: Option<[u8; 32]>,
}

/// A note that was sent.
#[derive(Debug, Clone)]
pub struct SentNoteView {
    /// The height of its block.
    pub height: u32,
    /// The transaction that made it.
    pub tx_id: [u8; 32],
    /// The output's or action's index in that transaction.
    pub output_index: usize,
    /// Its pool.
    pub pool: ShieldedPool,
    /// Value in zatoshis.
    pub value_zat: u64,
    /// The encoding of its recipient's address.
    pub recipient: String,
    /// Its memo.
    pub memo: Box<[u8; 512]>,
}

/// What a scan with a full viewing key finds.
#[derive(Debug, Clone, Copy, PartialEq, Eq)]
pub enum ScanEvent {
    /// A note was received.
    Incoming(IncomingNoteView),
    /// A watched nullifier was seen spent.
    Spent {
        /// The nullifier.
        nullifier: [u8; 32],
        /// The height of the block in which it was seen.
        height: u32,
    },
}

/// A transparent output.
#[derive(Debug, Clone, PartialEq, Eq)]
pub struct TransparentReceived {
    /// The height of its block.
    pub height: u32,
    /// The transaction that made it.
    pub tx_id: [u8; 32],
    /// The output's index in that transaction.
    pub output_index: u32,
    /// Value in zatoshis.
    pub value_zat: u64,
    /// The locking script.
    pub script: Vec<u8>,
}

/// What a transparent output holds.
pub struct ReceivedView {
    /// The height of its block.
    pub height: u32,
    /// The transaction that made it.
    pub tx_id: [u8; 32],
    /// The output's index in that transaction.
    pub output_index: u32,
    /// Value in zatoshis.
    pub value_zat: u64,
    /// The locking script.
    pub script: Seq<u8>,
}

impl TransparentReceived {
    /// What the output holds.
    pub open spec fn view(&self) -> ReceivedView {
        ReceivedView {
            height: self.height,
            tx_id: self.tx_id,
            output_index: self.output_index,
            value_zat: self.value_zat,
            script: self.script@,
        }
    }
}

/// What transparent outputs hold.
pub open spec fn received_views(list: Seq<TransparentReceived>) -> Seq<ReceivedView> {
    list.map_values(|r: TransparentReceived| r@)
}

/// A transparent input.
#[derive(Debug, Clone, Copy, PartialEq, Eq)]
pub struct TransparentSpend {
    /// The height of its block.
    pub height: u32,
    /// The spending transaction.
    pub tx_id: [u8; 32],
    /// The transaction whose output is spent.
    pub prevout_txid: [u8; 32],
    /// The index of that output.
    pub prevout_index: u32,
}

/// All that a scan with a full viewing key finds.
#[derive(Debug)]
pub struct FvkScanResult {
    /// Notes received, then notes spent.
    pub events: Vec<ScanEvent>,
    /// The size of the Sapling commitment tree after the blocks.
    pub sapling_leaf_count: u64,
    /// Every transparent output.
    pub transparent_received: Vec<TransparentReceived>,
    /// Every transparent input.
    pub transparent_spends: Vec<TransparentSpend>,
}

} // verus!
