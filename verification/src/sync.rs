//! The sync engine: what a sync pass decides, block by block, and what it computes for
//! each batch of blocks.
//!
//! A pass streams blocks from just after the account's checkpoint to the chain tip. Each
//! block must connect to the one before it; where one does not, the account is rewound
//! and the pass starts over. Blocks that connect are collected into batches, and each
//! batch is scanned, enriched from full transactions and handed to the account.

pub mod batch_laws;
pub mod chain;
pub mod commitments;
pub mod decrypt;
pub mod decrypt_laws;
pub mod engine;
pub mod engine_laws;
pub mod engine_row_laws;
pub mod enrich;
pub mod found_laws;
pub mod laws;
pub mod memo_laws;
pub mod pass_laws;
pub mod relaxed;
pub mod run_laws;
pub mod scan;
pub mod scan_laws;
pub mod transparent;
pub mod transparent_scan;
pub mod walk_laws;
pub mod watch;
pub mod watch_laws;

use vstd::prelude::*;
use vstd::string::*;

use crate::bytes::{array32, byte_strings, lemma_array32, lemma_array32_bytes, to_array};
use crate::primitives::{Network, OutPoint};
use crate::proto::{CompactBlock, RawTransaction};
use crate::seqs::{collect_some, lemma_collect_push};
use crate::sync::batch_laws::{
    law_full_transactions_keep_nullifiers, law_transparent_outputs_keep_nullifiers,
};
use crate::sync::chain::{detect_reorg, fork_at, RpcError};
use crate::sync::decrypt::ScanningKeys;
use crate::sync::scan::{
    all_nullifiers_valid, blocks_fit, blocks_valid, counts, enriched_by_all, full_entries, lemma_counts_grow, scan_full, tx_views,
    watch_of, Found, FullEntry, Nullifiers, ScanError, WalletTx, WalletTxView,
};
use crate::sync::transparent_scan::{
    due_targets, due_with, outpoints_gone, points_without, scan_transparent, update_outpoints,
    with_transparent,
};
use crate::sync::watch::{
    ironwood_born, ironwood_gone, orchard_born, orchard_gone, outpoints_born, sapling_born,
    sapling_gone, scan_batch, scanned_batch, without,
};
use crate::text::{append_hex_reversed, hex_reversed};
use crate::upstream::transactions::{read_transaction, transaction_error_of, FullTransaction};

verus! {

/// How many shielded outputs a batch holds at most, unless a single block holds more.
pub const OUTPUTS_PER_BATCH: usize = 100_000;

/// How many blocks a batch holds at most.
pub const BLOCKS_PER_BATCH: usize = 1_000;

/// How many transport faults in a row are retried.
pub const MAX_TRANSPORT_RETRIES: u32 = 4;

/// A position in the chain that has been fully scanned and persisted.
#[derive(Debug, Clone, Copy, PartialEq, Eq)]
pub struct Cursor {
    /// The block's height.
    pub height: u32,
    /// The block's hash.
    pub hash: [u8; 32],
}

/// What is needed to resume syncing an account.
#[derive(Debug)]
pub struct Resume {
    /// The earliest height that the account cares about.
    pub birthday: u32,
    /// The last fully synced position, if there is one.
    pub checkpoint: Option<Cursor>,
    /// The nullifiers of the account's unspent notes.
    pub nullifiers: Nullifiers,
}

/// Why a sync stopped.
#[derive(Debug)]
pub enum SyncError {
    /// The server failed.
    Chain(RpcError),
    /// A block could not be scanned.
    Scan(ScanError),
    /// A full transaction could not be read.
    Transaction {
        /// The transaction's id.
        txid: [u8; 32],
        /// Why not.
        source: String,
    },
    /// The account's storage failed.
    Account {
        /// Why.
        source: String,
    },
}

impl SyncError {
    /// The error in words.
    pub open spec fn text(self) -> Seq<char> {
        match self {
            SyncError::Chain(e) => e.text(),
            SyncError::Scan(e) => e.text(),
            SyncError::Transaction { txid, source } => "failed to parse transaction "@
                + hex_reversed(txid@) + ": "@ + source@,
            SyncError::Account { source } => "account storage error"@,
        }
    }

    /// The error in words.
    pub fn to_text(&self) -> (text: String)
        ensures
            text@ == self.text(),
    {
        match self {
            SyncError::Chain(e) => e.to_text(),
            SyncError::Scan(e) => e.to_text(),
            SyncError::Transaction { txid, source } => {
                let mut text = "failed to parse transaction ".to_owned();
                append_hex_reversed(&mut text, txid.as_slice());
                text.append(": ");
                text.append(source.as_str());
                text
            },
            SyncError::Account { source: _ } => "account storage error".to_owned(),
        }
    }
}

/// How many shielded outputs and actions a block holds.
pub open spec fn block_outputs(block: CompactBlock) -> nat {
    let n = counts(block.vtx@);
    n.0 + n.1 + n.2
}

/// How many shielded outputs and actions the blocks hold.
pub open spec fn total_outputs(blocks: Seq<CompactBlock>) -> nat
    decreases blocks.len(),
{
    if blocks.len() == 0 {
        0
    } else {
        total_outputs(blocks.drop_last()) + block_outputs(blocks.last())
    }
}

/// A count, or the largest number where it is larger.
pub open spec fn capped(count: nat) -> usize {
    if count <= usize::MAX {
        count as usize
    } else {
        usize::MAX
    }
}

/// Counts the shielded outputs and actions of a block, as far as a number can.
fn count_block(block: &CompactBlock) -> (n: usize)
    ensures
        n == capped(block_outputs(*block)),
{
    let mut n: usize = 0;
    let mut j: usize = 0;
    assert(block.vtx@.take(0) =~= Seq::empty());
    while j < block.vtx.len()
        invariant
            0 <= j <= block.vtx.len(),
            ({
                let c = counts(block.vtx@.take(j as int));
                n == capped(c.0 + c.1 + c.2)
            }),
        decreases block.vtx.len() - j,
    {
        proof {
            lemma_counts_grow(block.vtx@, j as int);
        }
        let tx = &block.vtx[j];
        n = n.saturating_add(tx.outputs.len()).saturating_add(tx.actions.len()).saturating_add(
            tx.ironwood_actions.len(),
        );
        j = j + 1;
    }
    assert(block.vtx@.take(j as int) =~= block.vtx@);
    n
}

/// The state of a sync: how far to rewind at the next fork, how many transport faults
/// there were in a row, and the pass under way.
#[derive(Debug)]
pub struct SyncRun {
    rewind_by: u32,
    faults: u32,
    birthday: u32,
    prior: Option<(u32, [u8; 32])>,
    last: Option<Cursor>,
    progressed: bool,
    streaming: bool,
    blocks: Vec<CompactBlock>,
    output_count: usize,
}

/// The state of a sync, as plain values.
pub struct RunView {
    /// How many blocks the next rewind goes back.
    pub rewind_by: u32,
    /// How many failures of the server there were since the last batch.
    pub faults: u32,
    /// The account's birthday.
    pub birthday: u32,
    /// The block that the next one must connect to.
    pub prior: Option<(u32, [u8; 32])>,
    /// The position that the account is synced to, as far as the run tells it.
    pub last: Option<Cursor>,
    /// Whether the run has applied a batch.
    pub progressed: bool,
    /// Whether a pass is under way. A fork, a fault and the end of the stream end it.
    pub streaming: bool,
    /// The blocks of the batch under way.
    pub blocks: Seq<CompactBlock>,
}

/// Whether each block names the one before it as its predecessor.
pub open spec fn chained(blocks: Seq<CompactBlock>) -> bool {
    forall|i: int| 0 < i < blocks.len() ==> (#[trigger] blocks[i]).prev_hash@ == blocks[i - 1].hash@
}

/// The height and hash of a block.
pub open spec fn position_of(block: CompactBlock) -> (u32, [u8; 32]) {
    (block.height as u32, array32(block.hash@))
}

/// Whether a batch under way is within bounds: not too many blocks, and not too many
/// outputs unless it is a single block.
pub open spec fn batch_bounded(blocks: Seq<CompactBlock>) -> bool {
    blocks.len() <= BLOCKS_PER_BATCH && (blocks.len() <= 1 || total_outputs(blocks)
        <= OUTPUTS_PER_BATCH)
}

impl RunView {
    /// A rewind goes back by at least one block. The batch is within bounds, its blocks
    /// connect, and the last of them is the one that the next block must connect to.
    pub open spec fn wf(self) -> bool {
        &&& self.rewind_by >= 1
        &&& batch_bounded(self.blocks)
        &&& chained(self.blocks)
        &&& forall|i: int|
            0 <= i < self.blocks.len() ==> (#[trigger] self.blocks[i]).hash@.len() == 32
        &&& self.blocks.len() > 0 ==> self.prior == Some(position_of(self.blocks.last()))
    }
}

/// What to do after a block arrived.
#[derive(Debug)]
pub enum BlockStep {
    /// The chain has forked: rewind the account to this height and start over.
    Rewind(u32),
    /// Apply these blocks as a batch, then go on.
    Flush(Vec<CompactBlock>),
    /// Go on.
    Kept,
    /// The block is malformed: the sync stops with this error.
    Invalid(ScanError),
}

/// What to do after a block arrived, as plain values.
pub enum StepView {
    /// The chain has forked: rewind the account to this height and start over.
    Rewind(u32),
    /// Apply these blocks as a batch, then go on.
    Flush(Seq<CompactBlock>),
    /// Go on.
    Kept,
    /// The block is malformed: the sync stops with this error.
    Invalid(ScanError),
}

impl BlockStep {
    /// The step, as plain values.
    pub open spec fn view(&self) -> StepView {
        match *self {
            BlockStep::Rewind(to) => StepView::Rewind(to),
            BlockStep::Flush(blocks) => StepView::Flush(blocks@),
            BlockStep::Kept => StepView::Kept,
            BlockStep::Invalid(e) => StepView::Invalid(e),
        }
    }
}

/// The height to rewind to, so that `by` blocks go, counted from the one at `at` that the
/// chain no longer holds. A rewind discards its own height too, and never goes below the
/// birthday.
pub open spec fn rewind_target(birthday: u32, at: u32, by: u32) -> u32 {
    let to = at + 1 - by;
    if to < birthday {
        birthday
    } else {
        to as u32
    }
}

/// Twice the distance, or the largest one.
pub open spec fn doubled(by: u32) -> u32 {
    if by <= u32::MAX / 2 {
        (2 * by) as u32
    } else {
        u32::MAX
    }
}

/// Whether it can be told where a block stands: its height fits, and the hash of its
/// predecessor has 32 bytes.
pub open spec fn is_placed(block: CompactBlock) -> bool {
    block.height <= u32::MAX && block.prev_hash@.len() == 32
}

/// What a block does to a pass: rewinds at a fork, and else joins the batch, after the
/// batch was flushed where it is full. A malformed block ends the pass.
pub open spec fn on_block_of(run: RunView, block: CompactBlock) -> (RunView, StepView) {
    if !is_placed(block) {
        (
            RunView { streaming: false, ..run },
            StepView::Invalid(
                ScanError::InvalidCompactBlock(
                    if block.height <= u32::MAX {
                        block.height as u32
                    } else {
                        0
                    },
                ),
            ),
        )
    } else {
        match fork_at(run.prior, array32(block.prev_hash@)) {
            Some(at) => (
                RunView { rewind_by: doubled(run.rewind_by), streaming: false, ..run },
                StepView::Rewind(rewind_target(run.birthday, at, run.rewind_by)),
            ),
            None => if block.hash@.len() != 32 {
                (
                    RunView { streaming: false, ..run },
                    StepView::Invalid(ScanError::InvalidCompactBlock(block.height as u32)),
                )
            } else if run.blocks.len() > 0 && (run.blocks.len() == BLOCKS_PER_BATCH
                || total_outputs(run.blocks) + block_outputs(block) > OUTPUTS_PER_BATCH) {
                (
                    RunView { prior: Some(position_of(block)), blocks: seq![block], ..run },
                    StepView::Flush(run.blocks),
                )
            } else {
                (
                    RunView { prior: Some(position_of(block)), blocks: run.blocks.push(block), ..run },
                    StepView::Kept,
                )
            },
        }
    }
}

/// The first height that a pass asks for: one past the checkpoint, or the birthday.
pub open spec fn start_of(birthday: u32, checkpoint: Option<Cursor>) -> u32 {
    match checkpoint {
        Some(cursor) => if cursor.height < u32::MAX {
            (cursor.height + 1) as u32
        } else {
            u32::MAX
        },
        None => birthday,
    }
}

/// The range of heights that a pass streams; none where the account is synced to the tip.
pub open spec fn range_of(birthday: u32, checkpoint: Option<Cursor>, tip: u32) -> Option<(u32, u32)> {
    if start_of(birthday, checkpoint) > tip {
        None
    } else {
        Some((start_of(birthday, checkpoint), tip))
    }
}

/// What the beginning of a pass makes of a state. An account that is synced to the tip is told
/// its position only where the run brought it there.
pub open spec fn begun(run: RunView, birthday: u32, checkpoint: Option<Cursor>, tip: u32) -> RunView {
    RunView {
        birthday,
        prior: match checkpoint {
            Some(cursor) => Some((cursor.height, cursor.hash)),
            None => None,
        },
        last: if range_of(birthday, checkpoint, tip) is Some || run.progressed {
            checkpoint
        } else {
            None
        },
        streaming: range_of(birthday, checkpoint, tip) is Some,
        blocks: Seq::empty(),
        ..run
    }
}

/// What a recorded batch makes of a state.
pub open spec fn applied_of(run: RunView, cursor: Cursor) -> RunView {
    RunView { rewind_by: 1, faults: 0, last: Some(cursor), progressed: true, ..run }
}

/// What the end of the stream makes of a state.
pub open spec fn ended(run: RunView) -> RunView {
    RunView { streaming: false, blocks: Seq::empty(), ..run }
}

/// Whether a pass is to be started over after a failure: the server failed, and not too often
/// in a row.
pub open spec fn may_retry(run: RunView, e: SyncError) -> bool {
    e is Chain && run.faults < MAX_TRANSPORT_RETRIES
}

/// What a failure makes of a state.
pub open spec fn failed(run: RunView, e: SyncError) -> RunView {
    RunView {
        faults: if may_retry(run, e) {
            (run.faults + 1) as u32
        } else {
            run.faults
        },
        streaming: false,
        ..run
    }
}

/// The state before the first pass.
pub open spec fn fresh_run() -> RunView {
    RunView {
        rewind_by: 1,
        faults: 0,
        birthday: 0,
        prior: None,
        last: None,
        progressed: false,
        streaming: false,
        blocks: Seq::empty(),
    }
}

impl SyncRun {
    /// The state, as plain values.
    pub closed spec fn view(&self) -> RunView {
        RunView {
            rewind_by: self.rewind_by,
            faults: self.faults,
            birthday: self.birthday,
            prior: self.prior,
            last: self.last,
            progressed: self.progressed,
            streaming: self.streaming,
            blocks: self.blocks@,
        }
    }

    /// The state is well formed, and the outputs of the batch under way are counted.
    pub closed spec fn wf(&self) -> bool {
        self@.wf() && self.output_count == capped(total_outputs(self.blocks@))
    }

    /// The batch under way is within bounds, its blocks connect, and the next block must
    /// connect to the last of them.
    pub proof fn law_batch_under_way_connects(&self)
        requires
            self.wf(),
        ensures
            self@.wf(),
    {
    }

    /// The state before the first pass.
    pub fn new() -> (run: Self)
        ensures
            run.wf(),
            run@ == fresh_run(),
    {
        let run = SyncRun {
            rewind_by: 1,
            faults: 0,
            birthday: 0,
            prior: None,
            last: None,
            progressed: false,
            streaming: false,
            blocks: Vec::new(),
            output_count: 0,
        };
        assert(run@.blocks =~= Seq::empty());
        run
    }

    /// Begins a pass from the account's state: the range of heights to stream, or
    /// nothing where the account is synced to the tip.
    pub fn begin(&mut self, birthday: u32, checkpoint: Option<Cursor>, tip: u32) -> (range: Option<
        (u32, u32),
    >)
        requires
            old(self).wf(),
        ensures
            range == range_of(birthday, checkpoint, tip),
            final(self).wf(),
            final(self)@ == begun(old(self)@, birthday, checkpoint, tip),
    {
        self.birthday = birthday;
        self.prior = match checkpoint {
            Some(cursor) => Some((cursor.height, cursor.hash)),
            None => None,
        };
        self.blocks = Vec::new();
        self.output_count = 0;
        assert(self@.blocks =~= Seq::empty());
        let start: u32 = match checkpoint {
            Some(cursor) => cursor.height.saturating_add(1),
            None => birthday,
        };
        self.streaming = start <= tip;
        self.last = if start <= tip || self.progressed {
            checkpoint
        } else {
            None
        };
        if start > tip {
            None
        } else {
            Some((start, tip))
        }
    }

    /// Takes the next block of the stream. A malformed hash is an error, and never taken for
    /// another hash.
    pub fn on_block(&mut self, block: CompactBlock) -> (step: BlockStep)
        requires
            old(self).wf(),
            old(self)@.streaming,
        ensures
            final(self).wf(),
            (final(self)@, step@) == on_block_of(old(self)@, block),
    {
        if block.height > u32::MAX as u64 {
            self.streaming = false;
            return BlockStep::Invalid(ScanError::InvalidCompactBlock(0));
        }
        let height: u32 = block.height as u32;
        let prev_hash: [u8; 32] = match to_array(block.prev_hash.as_slice()) {
            Some(hash) => hash,
            None => {
                self.streaming = false;
                return BlockStep::Invalid(ScanError::InvalidCompactBlock(height));
            },
        };
        proof {
            lemma_array32(prev_hash);
        }
        if let Some(at) = detect_reorg(self.prior, prev_hash) {
            let to: u32 = at.saturating_sub(self.rewind_by - 1);
            let to: u32 = if to < self.birthday {
                self.birthday
            } else {
                to
            };
            self.rewind_by = if self.rewind_by <= u32::MAX / 2 {
                2 * self.rewind_by
            } else {
                u32::MAX
            };
            self.streaming = false;
            return BlockStep::Rewind(to);
        }
        let hash: [u8; 32] = match to_array(block.hash.as_slice()) {
            Some(hash) => hash,
            None => {
                self.streaming = false;
                return BlockStep::Invalid(ScanError::InvalidCompactBlock(height));
            },
        };
        proof {
            lemma_array32(hash);
        }
        let count = count_block(&block);
        let ghost before = self.blocks@;
        let ghost prior = self.prior;
        proof {
            if before.len() > 0 {
                assert(prior == Some(position_of(before.last())));
                let h = before.last().hash@;
                assert(before[before.len() - 1].hash@.len() == 32);
            }
        }
        self.prior = Some((height, hash));
        if self.blocks.len() > 0 && (self.blocks.len() == BLOCKS_PER_BATCH || self.output_count
            > OUTPUTS_PER_BATCH || count > OUTPUTS_PER_BATCH - self.output_count) {
            let mut full: Vec<CompactBlock> = Vec::new();
            core::mem::swap(&mut full, &mut self.blocks);
            self.blocks.push(block);
            self.output_count = count;
            assert(self.blocks@ =~= seq![block]);
            assert(seq![block].drop_last() =~= Seq::empty());
            assert(total_outputs(seq![block]) == block_outputs(block)) by {
                assert(total_outputs(Seq::<CompactBlock>::empty()) == 0);
            }
            BlockStep::Flush(full)
        } else {
            self.output_count = self.output_count.saturating_add(count);
            self.blocks.push(block);
            proof {
                let now = self.blocks@;
                assert(now.drop_last() =~= before);
                assert forall|i: int| 0 < i < now.len() implies (#[trigger] now[i]).prev_hash@
                    == now[i - 1].hash@ by {
                    if i < before.len() {
                        assert(now[i] == before[i]);
                        assert(now[i - 1] == before[i - 1]);
                    } else {
                        assert(array32(now[i - 1].hash@) == prev_hash);
                        lemma_array32_bytes(now[i - 1].hash@);
                    }
                }
            }
            BlockStep::Kept
        }
    }

    /// Records that a batch was applied up to `cursor`: the next rewind starts over
    /// from one block, and so does the count of faults.
    pub fn applied(&mut self, cursor: Cursor)
        requires
            old(self).wf(),
        ensures
            final(self).wf(),
            final(self)@ == applied_of(old(self)@, cursor),
    {
        self.rewind_by = 1;
        self.faults = 0;
        self.last = Some(cursor);
        self.progressed = true;
    }

    /// Ends the stream: the blocks that are still to be applied, which are none where
    /// the list is empty.
    pub fn on_end(&mut self) -> (blocks: Vec<CompactBlock>)
        requires
            old(self).wf(),
            old(self)@.streaming,
        ensures
            final(self).wf(),
            blocks@ == old(self)@.blocks,
            final(self)@ == ended(old(self)@),
    {
        let mut blocks: Vec<CompactBlock> = Vec::new();
        core::mem::swap(&mut blocks, &mut self.blocks);
        self.output_count = 0;
        self.streaming = false;
        assert(self@.blocks =~= Seq::empty());
        blocks
    }

    /// Records a failure, and tells whether the pass is to be started over from the
    /// account's checkpoint. Only a failure of the server is worth another try: a block that
    /// cannot be scanned and an account that cannot be written stop the sync.
    pub fn on_failure(&mut self, e: &SyncError) -> (retry: bool)
        requires
            old(self).wf(),
        ensures
            final(self).wf(),
            retry == may_retry(old(self)@, *e),
            final(self)@ == failed(old(self)@, *e),
    {
        self.streaming = false;
        match e {
            SyncError::Chain(_) => {
                if self.faults < MAX_TRANSPORT_RETRIES {
                    self.faults = self.faults + 1;
                    true
                } else {
                    false
                }
            },
            _ => false,
        }
    }

    /// What a sync returns: the position that the account is synced to, or nothing where it
    /// was at the tip already. That is the last position applied, or else the checkpoint
    /// where the server had no block above it to give.
    pub fn result(&self) -> (last: Option<Cursor>)
        ensures
            last == self@.last,
    {
        self.last
    }
}

/// The ids, heights and block indices of the transactions whose full form is to be
/// fetched.
pub open spec fn fetch_list_of(txs: Seq<WalletTxView>) -> Seq<([u8; 32], u32, u32)> {
    txs.map_values(|t: WalletTxView| (t.txid, t.height, t.tx_index))
}

/// What a batch leaves of the watched nullifiers.
pub open spec fn refreshed(
    sapling: Seq<[u8; 32]>,
    orchard: Seq<[u8; 32]>,
    ironwood: Seq<[u8; 32]>,
    txs: Seq<WalletTxView>,
) -> (Seq<[u8; 32]>, Seq<[u8; 32]>, Seq<[u8; 32]>) {
    (
        without(sapling + sapling_born(txs), sapling_gone(txs)),
        without(orchard + orchard_born(txs), orchard_gone(txs)),
        without(ironwood + ironwood_born(txs), ironwood_gone(txs)),
    )
}

/// The transparent side of an account: what is watched for, and which transactions are to
/// be looked at.
#[derive(Debug)]
pub struct TransparentWatch {
    /// The locking scripts of the account's addresses.
    pub scripts: Vec<Vec<u8>>,
    /// The transactions that touch those addresses, with their heights.
    pub targets: Vec<([u8; 32], u32)>,
    /// The outputs that the account holds.
    pub outpoints: Vec<OutPoint>,
}

/// Scans a batch of blocks, brings the watched nullifiers up to date, and lists the
/// transactions whose full form is to be fetched: those found, and the targets at the
/// heights of the batch. Where scanning fails, the watched nullifiers stay as they are.
pub fn scan_blocks(
    blocks: &Vec<CompactBlock>,
    keys: &ScanningKeys,
    network: Network,
    nullifiers: &mut Nullifiers,
    transparent: &TransparentWatch,
) -> (result: Result<(Vec<WalletTx>, Vec<([u8; 32], u32, u32)>), ScanError>)
    requires
        blocks_fit(blocks@),
        blocks_valid(Some(byte_strings(transparent.scripts@)), blocks@),
    ensures
        match result {
            Ok((txs, fetch)) => {
                let found = scanned_batch(
                    watch_of(
                        *keys,
                        Some(byte_strings(transparent.scripts@)),
                        *old(nullifiers),
                        transparent.outpoints@,
                    ),
                    network,
                    blocks@,
                    None,
                );
                &&& found matches Ok(f) && f.0 == tx_views(txs@)
                &&& fetch@ == fetch_list_of(tx_views(txs@)) + due_with(
                    transparent.targets@,
                    blocks@,
                    tx_views(txs@),
                )
                &&& (
                    final(nullifiers).sapling@,
                    final(nullifiers).orchard@,
                    final(nullifiers).ironwood@,
                ) == refreshed(
                    old(nullifiers).sapling@,
                    old(nullifiers).orchard@,
                    old(nullifiers).ironwood@,
                    tx_views(txs@),
                )
            },
            Err(e) => {
                &&& scanned_batch(
                    watch_of(
                        *keys,
                        Some(byte_strings(transparent.scripts@)),
                        *old(nullifiers),
                        transparent.outpoints@,
                    ),
                    network,
                    blocks@,
                    None,
                ) == Err::<Found, ScanError>(e)
                &&& *final(nullifiers) == *old(nullifiers)
            },
        },
        result matches Ok(found) ==> all_nullifiers_valid(tx_views(found.0@)),
{
    let txs = match scan_batch(
        blocks,
        keys,
        Some(&transparent.scripts),
        network,
        nullifiers,
        &transparent.outpoints,
        None,
    ) {
        Ok((txs, _)) => txs,
        Err(e) => return Err(e),
    };
    nullifiers.update_with(&txs);
    let ghost list = fetch_list_of(tx_views(txs@));
    let mut fetch: Vec<([u8; 32], u32, u32)> = Vec::new();
    let mut i: usize = 0;
    while i < txs.len()
        invariant
            0 <= i <= txs.len(),
            list == fetch_list_of(tx_views(txs@)),
            fetch@ == list.take(i as int),
        decreases txs.len() - i,
    {
        fetch.push((txs[i].txid, txs[i].height, txs[i].tx_index));
        assert(fetch@ =~= list.take(i as int + 1));
        i = i + 1;
    }
    assert(list.take(i as int) =~= list);
    let mut due = due_targets(&transparent.targets, blocks, &txs);
    fetch.append(&mut due);
    Ok((txs, fetch))
}

/// A fetched transaction: its id, its height, its index in its block, and its bytes.
pub type Fetched = ([u8; 32], u32, u32, RawTransaction);

/// Whether a fetched transaction can be read by the rules of its height.
pub open spec fn readable(fetched: Fetched, network: Network) -> bool {
    transaction_error_of(fetched.3.data@, network, fetched.1) is None
}

/// Reads a fetched transaction by the rules of its height.
pub fn parse_transaction(fetched: &Fetched, network: Network) -> (result: Result<
    FullTransaction,
    SyncError,
>)
    ensures
        match result {
            Ok(tx) => readable(*fetched, network) && tx@ == (fetched.3.data@, network, fetched.1),
            Err(e) => e matches SyncError::Transaction { txid, source } && txid == fetched.0
                && transaction_error_of(fetched.3.data@, network, fetched.1) == Some(source@),
        },
{
    match read_transaction(&fetched.3.data, network, fetched.1) {
        Ok(tx) => Ok(tx),
        Err(source) => Err(SyncError::Transaction { txid: fetched.0, source }),
    }
}

/// The position of the last block of a batch, where it is well formed.
pub open spec fn cursor_of(block: CompactBlock) -> Result<Cursor, ScanError> {
    if block.height > u32::MAX {
        Err(ScanError::InvalidCompactBlock(0))
    } else if block.hash@.len() != 32 {
        Err(ScanError::InvalidCompactBlock(block.height as u32))
    } else {
        Ok(Cursor { height: block.height as u32, hash: array32(block.hash@) })
    }
}

/// The position that a batch is applied at: that of its last block. A malformed hash is
/// an error, and never taken for another hash.
pub fn batch_cursor(blocks: &Vec<CompactBlock>) -> (cursor: Result<Cursor, ScanError>)
    requires
        blocks.len() > 0,
    ensures
        cursor == cursor_of(blocks@.last()),
{
    let block = &blocks[blocks.len() - 1];
    if block.height > u32::MAX as u64 {
        return Err(ScanError::InvalidCompactBlock(0));
    }
    let height: u32 = block.height as u32;
    match to_array(block.hash.as_slice()) {
        Some(hash) => {
            proof {
                lemma_array32(hash);
            }
            Ok(Cursor { height, hash })
        },
        None => Err(ScanError::InvalidCompactBlock(height)),
    }
}

/// The entry that a fetched transaction is read into, where it can be read.
pub open spec fn readable_entry(fetched: Fetched, network: Network) -> Option<FullEntry> {
    if readable(fetched, network) {
        Some((fetched.0, fetched.1, fetched.2, (fetched.3.data@, network, fetched.1)))
    } else {
        None
    }
}

/// The entries that those fetched transactions that can be read are read into.
pub open spec fn readable_entries(fetched: Seq<Fetched>, network: Network) -> Seq<FullEntry> {
    collect_some(fetched.map_values(|f: Fetched| readable_entry(f, network)))
}

/// Reads the fetched transactions, each by the rules of its height, and leaves out those
/// that cannot be read.
pub fn readable_transactions(fetched: &Vec<Fetched>, network: Network) -> (full: Vec<
    ([u8; 32], u32, u32, FullTransaction),
>)
    ensures
        full_entries(full@) == readable_entries(fetched@, network),
{
    let ghost all = fetched@.map_values(|f: Fetched| readable_entry(f, network));
    let mut full: Vec<([u8; 32], u32, u32, FullTransaction)> = Vec::new();
    let mut i: usize = 0;
    assert(full_entries(full@) =~= collect_some(all.take(0)));
    while i < fetched.len()
        invariant
            0 <= i <= fetched.len(),
            all == fetched@.map_values(|f: Fetched| readable_entry(f, network)),
            full_entries(full@) == collect_some(all.take(i as int)),
        decreases fetched.len() - i,
    {
        proof {
            lemma_collect_push(all.take(i as int), all[i as int]);
            assert(all.take(i as int + 1) =~= all.take(i as int).push(all[i as int]));
        }
        let item = &fetched[i];
        if let Ok(tx) = parse_transaction(item, network) {
            let ghost before = full@;
            let ghost entry = (item.0, item.1, item.2, tx@);
            full.push((item.0, item.1, item.2, tx));
            assert(full_entries(full@) =~= full_entries(before).push(entry));
        }
        i = i + 1;
    }
    assert(all.take(i as int) =~= all);
    full
}

/// The transactions of a batch once its full transactions were read: with memos and the
/// notes sent, and with what they pay to the account's scripts and spend of its outputs.
pub open spec fn finished_txs(
    txs: Seq<WalletTxView>,
    keys: ScanningKeys,
    network: Network,
    scripts: Seq<Seq<u8>>,
    outpoints: Seq<OutPoint>,
    full: Seq<FullEntry>,
) -> Seq<WalletTxView> {
    with_transparent(
        enriched_by_all(txs, keys.sapling@, keys.orchard@, network, full),
        scripts,
        outpoints,
        full,
    )
}

/// Completes a batch once its full transactions were fetched: adds what they tell to the
/// scanned transactions, brings the account's transparent outputs up to date, and gives the
/// position that the batch is applied at. The notes and spends are known from the compact
/// blocks, so a transaction that cannot be read only leaves its notes without memos.
pub fn finish_batch(
    blocks: &Vec<CompactBlock>,
    txs: &mut Vec<WalletTx>,
    fetched: &Vec<Fetched>,
    keys: &ScanningKeys,
    network: Network,
    transparent: &mut TransparentWatch,
) -> (result: Result<Cursor, SyncError>)
    requires
        blocks.len() > 0,
    ensures
        tx_views(final(txs)@) == finished_txs(
            tx_views(old(txs)@),
            *keys,
            network,
            byte_strings(old(transparent).scripts@),
            old(transparent).outpoints@,
            readable_entries(fetched@, network),
        ),
        *final(transparent) == (TransparentWatch {
            outpoints: final(transparent).outpoints,
            ..*old(transparent)
        }),
        final(transparent).outpoints@ == points_without(
            old(transparent).outpoints@ + outpoints_born(tx_views(final(txs)@)),
            outpoints_gone(tx_views(final(txs)@)),
        ),
        all_nullifiers_valid(tx_views(old(txs)@)) ==> all_nullifiers_valid(tx_views(final(txs)@)),
        match result {
            Ok(cursor) => cursor_of(blocks@.last()) == Ok::<Cursor, ScanError>(cursor),
            Err(e) => e matches SyncError::Scan(scan) && cursor_of(blocks@.last()) == Err::<
                Cursor,
                ScanError,
            >(scan),
        },
{
    let full = readable_transactions(fetched, network);
    proof {
        let before = tx_views(txs@);
        if all_nullifiers_valid(before) {
            let entries = readable_entries(fetched@, network);
            law_full_transactions_keep_nullifiers(
                before,
                keys.sapling@,
                keys.orchard@,
                network,
                entries,
            );
            law_transparent_outputs_keep_nullifiers(
                enriched_by_all(before, keys.sapling@, keys.orchard@, network, entries),
                byte_strings(transparent.scripts@),
                transparent.outpoints@,
                entries,
            );
        }
    }
    let _ = scan_full(txs, &full, keys, network);
    scan_transparent(txs, &full, &transparent.scripts, &transparent.outpoints);
    update_outpoints(&mut transparent.outpoints, txs);
    match batch_cursor(blocks) {
        Ok(cursor) => Ok(cursor),
        Err(e) => Err(SyncError::Scan(e)),
    }
}

} // verus!
