//! What the persistence engine decides and writes.
//!
//! A pass resumes from the stored cursor, or from the account's birthday, and writes each
//! batch in order: block headers, received notes, spends, then the cursor. A block that
//! does not connect to the stored chain is a fork: the wallet walks back, twice as far
//! each time, until its history reconnects.

use vstd::prelude::*;

use crate::bytes::{array32, lemma_array32, to_array};
use crate::db::account::{Note, Spend};
use crate::db::store::{
    lemma_upsert_row, max_row, records_spent, rewound_store, upserted_tx, Db, Pool, StoreError,
    StoreView, SyncState,
};
use crate::db::sync::{note_stored, store_note};
use crate::proto::CompactBlock;
use crate::sync::scan::{orchard_count, sapling_count};
use crate::tree::{orchard_in_block, sapling_in_block};

verus! {

/// How many transport faults in a row are retried.
pub const MAX_TRANSPORT_RETRIES: u32 = 4;

/// What is kept of a block.
#[derive(Debug, Clone, Copy, PartialEq, Eq)]
pub struct BlockMeta {
    /// The block's height.
    pub height: u32,
    /// The block's hash, where it has 32 bytes.
    pub hash: Option<[u8; 32]>,
    /// Unix time at which the block was mined.
    pub time: u32,
    /// The size of the Sapling tree after the block, where it is told.
    pub sapling_tree_size: Option<u64>,
    /// The size of the Orchard tree after the block, where it is told.
    pub orchard_tree_size: Option<u64>,
    /// How many Sapling outputs the block holds.
    pub sapling_output_count: Option<u32>,
    /// How many Orchard actions the block holds.
    pub orchard_action_count: Option<u32>,
}

/// What is kept of a block.
pub open spec fn meta_of(block: CompactBlock) -> BlockMeta {
    BlockMeta {
        height: block.height as u32,
        hash: if block.hash@.len() == 32 {
            Some(array32(block.hash@))
        } else {
            None
        },
        time: block.time,
        sapling_tree_size: match block.chain_metadata {
            Some(m) => Some(m.sapling_commitment_tree_size as u64),
            None => None,
        },
        orchard_tree_size: match block.chain_metadata {
            Some(m) => Some(m.orchard_commitment_tree_size as u64),
            None => None,
        },
        sapling_output_count: Some(sapling_count(block.vtx@) as u32),
        orchard_action_count: Some(orchard_count(block.vtx@) as u32),
    }
}

/// What is kept of a block: tree sizes from its metadata, and its outputs and actions
/// counted. A hash that has not 32 bytes is not kept.
pub fn block_meta_of(block: &CompactBlock) -> (meta: BlockMeta)
    requires
        sapling_count(block.vtx@) <= u64::MAX,
        orchard_count(block.vtx@) <= u64::MAX,
    ensures
        meta == meta_of(*block),
{
    let hash: Option<[u8; 32]> = to_array(block.hash.as_slice());
    if let Some(hash) = hash {
        proof {
            lemma_array32(hash);
        }
    }
    let (sapling_tree_size, orchard_tree_size) = match &block.chain_metadata {
        Some(m) => (
            Some(m.sapling_commitment_tree_size as u64),
            Some(m.orchard_commitment_tree_size as u64),
        ),
        None => (None, None),
    };
    let outputs: u64 = sapling_in_block(block);
    let actions: u64 = orchard_in_block(block);
    #[verifier::truncate]
    let sapling_output_count: u32 = outputs as u32;
    #[verifier::truncate]
    let orchard_action_count: u32 = actions as u32;
    #[verifier::truncate]
    let height: u32 = block.height as u32;
    BlockMeta {
        height,
        hash,
        time: block.time,
        sapling_tree_size,
        orchard_tree_size,
        sapling_output_count: Some(sapling_output_count),
        orchard_action_count: Some(orchard_action_count),
    }
}

/// A note that a scan found, with its position in the commitment tree where it is known.
#[derive(Debug, Clone, PartialEq, Eq)]
pub struct ScannedNote {
    /// The note.
    pub note: Note,
    /// Its position in the commitment tree.
    pub position: Option<u64>,
}

/// A spend that a scan found, with the index of its transaction.
#[derive(Debug, Clone, Copy, PartialEq, Eq)]
pub struct ScannedSpend {
    /// The spend.
    pub spend: Spend,
    /// The index of the spending transaction in its block.
    pub tx_index: u32,
}

/// What a scan of some blocks found.
#[derive(Debug)]
pub struct Scanned {
    /// Sapling notes received.
    pub sapling: Vec<ScannedNote>,
    /// Orchard notes received.
    pub orchard: Vec<ScannedNote>,
    /// Notes spent.
    pub spends: Vec<ScannedSpend>,
}

impl Default for Scanned {
    fn default() -> (scanned: Self)
        ensures
            scanned.sapling@.len() == 0,
            scanned.orchard@.len() == 0,
            scanned.spends@.len() == 0,
    {
        Scanned { sapling: Vec::new(), orchard: Vec::new(), spends: Vec::new() }
    }
}

/// The store with the blocks that it was built from.
#[derive(Debug)]
pub struct EngineDb {
    /// The wallet store.
    pub store: Db,
    /// What is kept of the blocks, at most one at each height.
    pub blocks: Vec<BlockMeta>,
    /// The size of the Sapling tree at the cursor.
    pub sapling_pos: u64,
    /// The size of the Orchard tree at the cursor.
    pub orchard_pos: u64,
}

/// What the store and its blocks hold.
pub struct EngineView {
    /// The wallet store.
    pub store: StoreView,
    /// What is kept of the blocks.
    pub blocks: Seq<BlockMeta>,
    /// The size of the Sapling tree at the cursor.
    pub sapling_pos: u64,
    /// The size of the Orchard tree at the cursor.
    pub orchard_pos: u64,
}

/// The height of the cursor: 0 where there is none.
pub open spec fn cursor_height(store: StoreView) -> u32 {
    match store.sync {
        Some((height, _)) => height,
        None => 0,
    }
}

/// The blocks with one put in, in place of the one at its height.
pub open spec fn with_block(blocks: Seq<BlockMeta>, meta: BlockMeta) -> Seq<BlockMeta> {
    if exists|i: int| 0 <= i < blocks.len() && (#[trigger] blocks[i]).height == meta.height {
        let k = choose|i: int|
            0 <= i < blocks.len() && (#[trigger] blocks[i]).height == meta.height;
        blocks.update(k, meta)
    } else {
        blocks.push(meta)
    }
}

/// The blocks with some put in, one after the other.
pub open spec fn with_blocks(metas: Seq<BlockMeta>, blocks: Seq<CompactBlock>) -> Seq<BlockMeta>
    decreases blocks.len(),
{
    if blocks.len() == 0 {
        metas
    } else {
        with_block(with_blocks(metas, blocks.drop_last()), meta_of(blocks.last()))
    }
}

/// Whether no height occurs twice.
pub open spec fn heights_differ(blocks: Seq<BlockMeta>) -> bool {
    forall|i: int, j: int|
        0 <= i < j < blocks.len() ==> (#[trigger] blocks[i]).height != (#[trigger] blocks[j]).height
}

/// The hash of the block at a height, where it is known.
pub open spec fn hash_at_height(blocks: Seq<BlockMeta>, height: u32) -> Option<[u8; 32]> {
    if exists|i: int| 0 <= i < blocks.len() && (#[trigger] blocks[i]).height == height {
        blocks[choose|i: int| 0 <= i < blocks.len() && (#[trigger] blocks[i]).height == height].hash
    } else {
        None
    }
}

/// The store after some notes, up to the first that was refused.
pub open spec fn scanned_stored(store: StoreView, notes: Seq<ScannedNote>) -> (
    StoreView,
    Option<StoreError>,
)
    decreases notes.len(),
{
    if notes.len() == 0 {
        (store, None)
    } else {
        let (before, error) = scanned_stored(store, notes.drop_last());
        if error is Some {
            (before, error)
        } else {
            note_stored(before, notes.last().note, notes.last().position)
        }
    }
}

/// The store after a spend and its transaction were recorded.
pub open spec fn spend_stored(store: StoreView, s: ScannedSpend) -> StoreView {
    let (transactions, _) = upserted_tx(
        store.transactions,
        s.spend.txid,
        Some(s.spend.height),
        Some(s.tx_index),
    );
    let given = StoreView { transactions, ..store };
    match s.spend.pool {
        Pool::Sapling => StoreView {
            sapling: records_spent(given.sapling, s.spend.nf@, s.spend.height, s.spend.txid),
            ..given
        },
        Pool::Orchard => StoreView {
            orchard: records_spent(given.orchard, s.spend.nf@, s.spend.height, s.spend.txid),
            ..given
        },
    }
}

/// The store after some spends.
pub open spec fn spends_stored(store: StoreView, spends: Seq<ScannedSpend>) -> StoreView
    decreases spends.len(),
{
    if spends.len() == 0 {
        store
    } else {
        spend_stored(spends_stored(store, spends.drop_last()), spends.last())
    }
}

/// The store with its cursor at the last block, where there is one.
pub open spec fn cursor_moved(view: EngineView, blocks: Seq<CompactBlock>) -> EngineView {
    if blocks.len() == 0 {
        view
    } else {
        let meta = meta_of(blocks.last());
        EngineView {
            store: StoreView {
                sync: Some(
                    (
                        meta.height,
                        match meta.hash {
                            Some(hash) => Some(hash@),
                            None => None,
                        },
                    ),
                ),
                ..view.store
            },
            sapling_pos: match meta.sapling_tree_size {
                Some(size) => size,
                None => view.sapling_pos,
            },
            orchard_pos: match meta.orchard_tree_size {
                Some(size) => size,
                None => view.orchard_pos,
            },
            ..view
        }
    }
}

/// The store after a batch, and the error, where a note was refused: block headers, then
/// Sapling notes, Orchard notes, spends and the cursor.
pub open spec fn engine_applied(
    view: EngineView,
    blocks: Seq<CompactBlock>,
    sapling: Seq<ScannedNote>,
    orchard: Seq<ScannedNote>,
    spends: Seq<ScannedSpend>,
) -> (EngineView, Option<StoreError>) {
    let headed = EngineView { blocks: with_blocks(view.blocks, blocks), ..view };
    let (store, error) = scanned_stored(headed.store, sapling);
    if error is Some {
        (EngineView { store, ..headed }, error)
    } else {
        let (store, error) = scanned_stored(store, orchard);
        if error is Some {
            (EngineView { store, ..headed }, error)
        } else {
            let store = spends_stored(store, spends);
            (cursor_moved(EngineView { store, ..headed }, blocks), None)
        }
    }
}

/// What is refused among the first notes is refused among all.
proof fn lemma_scanned_refused(store: StoreView, notes: Seq<ScannedNote>, n: int)
    requires
        0 <= n <= notes.len(),
        scanned_stored(store, notes.take(n)).1 is Some,
    ensures
        scanned_stored(store, notes) == scanned_stored(store, notes.take(n)),
    decreases notes.len(),
{
    if n == notes.len() {
        assert(notes.take(n) =~= notes);
    } else {
        assert(notes.drop_last().take(n) =~= notes.take(n));
        lemma_scanned_refused(store, notes.drop_last(), n);
    }
}

/// Stores notes, up to the first that is refused.
fn store_notes(db: &mut Db, notes: &Vec<ScannedNote>) -> (result: Result<(), StoreError>)
    requires
        max_row(old(db)@.transactions) + notes.len() < i64::MAX,
    ensures
        final(db)@ == scanned_stored(old(db)@, notes@).0,
        result == (match scanned_stored(old(db)@, notes@).1 {
            None => Ok::<(), StoreError>(()),
            Some(e) => Err(e),
        }),
        max_row(final(db)@.transactions) <= max_row(old(db)@.transactions) + notes.len(),
        old(db)@.wf() ==> final(db)@.wf(),
{
    let ghost start = db@;
    let mut i: usize = 0;
    assert(notes@.take(0) =~= Seq::empty());
    while i < notes.len()
        invariant
            0 <= i <= notes.len(),
            start == old(db)@,
            max_row(start.transactions) + notes.len() < i64::MAX,
            max_row(db@.transactions) <= max_row(start.transactions) + i,
            scanned_stored(start, notes@.take(i as int)) == (db@, None::<StoreError>),
            start.wf() ==> db@.wf(),
        decreases notes.len() - i,
    {
        proof {
            assert(notes@.take(i as int + 1).drop_last() =~= notes@.take(i as int));
        }
        if let Err(e) = store_note(db, &notes[i].note, notes[i].position) {
            proof {
                lemma_scanned_refused(start, notes@, i as int + 1);
            }
            return Err(e);
        }
        i = i + 1;
    }
    assert(notes@.take(i as int) =~= notes@);
    Ok(())
}

/// Records spends.
fn store_spends(db: &mut Db, spends: &Vec<ScannedSpend>)
    requires
        max_row(old(db)@.transactions) + spends.len() < i64::MAX,
    ensures
        final(db)@ == spends_stored(old(db)@, spends@),
        old(db)@.wf() ==> final(db)@.wf(),
{
    let ghost start = db@;
    let mut i: usize = 0;
    assert(spends@.take(0) =~= Seq::empty());
    while i < spends.len()
        invariant
            0 <= i <= spends.len(),
            start == old(db)@,
            max_row(start.transactions) + spends.len() < i64::MAX,
            max_row(db@.transactions) <= max_row(start.transactions) + i,
            spends_stored(start, spends@.take(i as int)) == db@,
            start.wf() ==> db@.wf(),
        decreases spends.len() - i,
    {
        let s = &spends[i];
        proof {
            assert(spends@.take(i as int + 1).drop_last() =~= spends@.take(i as int));
            lemma_upsert_row(
                db@.transactions,
                s.spend.txid,
                Some(s.spend.height),
                Some(s.tx_index),
            );
        }
        let _ = db.upsert_transaction(&s.spend.txid, Some(s.spend.height), Some(s.tx_index));
        let _ = db.mark_spent(s.spend.pool, s.spend.nf.as_slice(), s.spend.height, &s.spend.txid);
        i = i + 1;
    }
    assert(spends@.take(i as int) =~= spends@);
}

/// Whether every block's outputs can be counted.
pub open spec fn countable(blocks: Seq<CompactBlock>) -> bool {
    forall|i: int|
        0 <= i < blocks.len() ==> sapling_count((#[trigger] blocks[i]).vtx@) <= u64::MAX
            && orchard_count(blocks[i].vtx@) <= u64::MAX
}

impl EngineDb {
    /// What the store and its blocks hold.
    pub open spec fn view(&self) -> EngineView {
        EngineView {
            store: self.store@,
            blocks: self.blocks@,
            sapling_pos: self.sapling_pos,
            orchard_pos: self.orchard_pos,
        }
    }

    /// An empty store.
    pub fn open_in_memory() -> (db: Self)
        ensures
            db@.store.wf(),
            db@.store.sync is None,
            db@.store.birthday is None,
            db@.store.transactions.len() == 0,
            db@.store.sapling.len() == 0,
            db@.store.orchard.len() == 0,
            db@.store.outputs.len() == 0,
            db@.blocks.len() == 0,
            db@.sapling_pos == 0,
            db@.orchard_pos == 0,
    {
        EngineDb { store: Db::open_in_memory(), blocks: Vec::new(), sapling_pos: 0, orchard_pos: 0 }
    }

    /// Keeps a block's header, in place of the one at its height.
    pub fn insert_block(&mut self, meta: &BlockMeta)
        requires
            heights_differ(old(self)@.blocks),
        ensures
            final(self)@ == (EngineView {
                blocks: with_block(old(self)@.blocks, *meta),
                ..old(self)@
            }),
            heights_differ(final(self)@.blocks),
    {
        let ghost before = self.blocks@;
        let mut i: usize = 0;
        while i < self.blocks.len()
            invariant
                0 <= i <= self.blocks.len(),
                *self == *old(self),
                before == self.blocks@,
                heights_differ(before),
                forall|j: int| 0 <= j < i ==> (#[trigger] before[j]).height != meta.height,
            decreases self.blocks.len() - i,
        {
            if self.blocks[i].height == meta.height {
                proof {
                    assert(before[i as int].height == meta.height);
                    let k = choose|k: int|
                        0 <= k < before.len() && (#[trigger] before[k]).height == meta.height;
                    if k > i {
                        assert(before[i as int].height != before[k].height);
                    }
                    assert(k == i);
                }
                self.blocks.set(i, *meta);
                proof {
                    let after = self.blocks@;
                    assert forall|a: int, b: int| 0 <= a < b < after.len() implies (
                    #[trigger] after[a]).height != (#[trigger] after[b]).height by {
                        assert(before[a].height != before[b].height);
                    }
                }
                return ;
            }
            i = i + 1;
        }
        self.blocks.push(*meta);
        proof {
            let after = self.blocks@;
            assert forall|a: int, b: int| 0 <= a < b < after.len() implies (#[trigger] after[a]).height
                != (#[trigger] after[b]).height by {
                assert(after[a] == before[a]);
                if b < before.len() {
                    assert(after[b] == before[b]);
                }
            }
        }
    }

    /// The hash of the block at a height, where it is known.
    pub fn get_block_hash(&self, height: u32) -> (hash: Option<[u8; 32]>)
        requires
            heights_differ(self@.blocks),
        ensures
            hash == hash_at_height(self@.blocks, height),
    {
        let mut i: usize = 0;
        while i < self.blocks.len()
            invariant
                0 <= i <= self.blocks.len(),
                heights_differ(self.blocks@),
                forall|j: int| 0 <= j < i ==> (#[trigger] self.blocks@[j]).height != height,
            decreases self.blocks.len() - i,
        {
            if self.blocks[i].height == height {
                proof {
                    let blocks = self.blocks@;
                    assert(blocks[i as int].height == height);
                    let k = choose|k: int|
                        0 <= k < blocks.len() && (#[trigger] blocks[k]).height == height;
                    if k > i {
                        assert(blocks[i as int].height != blocks[k].height);
                    }
                    assert(k == i);
                }
                return self.blocks[i].hash;
            }
            i = i + 1;
        }
        None
    }

    /// Writes a batch: block headers, then received notes, since a note must be there
    /// before its spend is recorded, then spends, then the cursor. A note that is refused
    /// ends the writing, and the cursor is not moved.
    pub fn apply(&mut self, blocks: &Vec<CompactBlock>, scanned: &Scanned) -> (result: Result<
        (),
        StoreError,
    >)
        requires
            heights_differ(old(self)@.blocks),
            countable(blocks@),
            max_row(old(self)@.store.transactions) + scanned.sapling.len() + scanned.orchard.len()
                + scanned.spends.len() < i64::MAX,
        ensures
            ({
                let (after, error) = engine_applied(
                    old(self)@,
                    blocks@,
                    scanned.sapling@,
                    scanned.orchard@,
                    scanned.spends@,
                );
                &&& final(self)@ == after
                &&& result == (match error {
                    None => Ok::<(), StoreError>(()),
                    Some(e) => Err(e),
                })
            }),
            heights_differ(final(self)@.blocks),
            old(self)@.store.wf() ==> final(self)@.store.wf(),
    {
        let mut i: usize = 0;
        assert(blocks@.take(0) =~= Seq::empty());
        while i < blocks.len()
            invariant
                0 <= i <= blocks.len(),
                countable(blocks@),
                heights_differ(self@.blocks),
                self@ == (EngineView {
                    blocks: with_blocks(old(self)@.blocks, blocks@.take(i as int)),
                    ..old(self)@
                }),
            decreases blocks.len() - i,
        {
            proof {
                assert(blocks@.take(i as int + 1).drop_last() =~= blocks@.take(i as int));
            }
            let meta = block_meta_of(&blocks[i]);
            self.insert_block(&meta);
            i = i + 1;
        }
        assert(blocks@.take(i as int) =~= blocks@);
        if let Err(e) = store_notes(&mut self.store, &scanned.sapling) {
            return Err(e);
        }
        if let Err(e) = store_notes(&mut self.store, &scanned.orchard) {
            return Err(e);
        }
        store_spends(&mut self.store, &scanned.spends);
        let n: usize = blocks.len();
        if n > 0 {
            assert(blocks@.last() == blocks@[n - 1]);
            let meta = block_meta_of(&blocks[n - 1]);
            self.store.set_sync_state(&SyncState { height: meta.height, hash: meta.hash });
            if let Some(size) = meta.sapling_tree_size {
                self.sapling_pos = size;
            }
            if let Some(size) = meta.orchard_tree_size {
                self.orchard_pos = size;
            }
        }
        Ok(())
    }

    /// Undoes everything above a height, and forgets the blocks above it.
    pub fn rewind_to_height(&mut self, height: u32)
        requires
            heights_differ(old(self)@.blocks),
        ensures
            final(self)@ == (EngineView {
                store: rewound_store(old(self)@.store, height),
                blocks: old(self)@.blocks.filter(|m: BlockMeta| m.height <= height),
                ..old(self)@
            }),
            heights_differ(final(self)@.blocks),
            old(self)@.store.wf() ==> final(self)@.store.wf(),
    {
        self.store.rewind_to_height(height);
        let ghost before = self.blocks@;
        let ghost kept_if = |m: BlockMeta| m.height <= height;
        let mut kept: Vec<BlockMeta> = Vec::new();
        let mut i: usize = 0;
        proof {
            reveal(Seq::filter);
        }
        assert(before.take(0).filter(kept_if) =~= Seq::empty());
        while i < self.blocks.len()
            invariant
                0 <= i <= self.blocks.len(),
                before == self.blocks@,
                before == old(self)@.blocks,
                heights_differ(before),
                self@ == (EngineView {
                    store: rewound_store(old(self)@.store, height),
                    ..old(self)@
                }),
                old(self)@.store.wf() ==> self@.store.wf(),
                kept_if == (|m: BlockMeta| m.height <= height),
                kept@ == before.take(i as int).filter(kept_if),
                heights_differ(kept@),
                forall|j: int, k: int|
                    0 <= j < kept@.len() && i <= k < before.len() ==> (#[trigger] kept@[j]).height
                        != (#[trigger] before[k]).height,
            decreases self.blocks.len() - i,
        {
            proof {
                reveal(Seq::filter);
                assert(before.take(i as int + 1).drop_last() =~= before.take(i as int));
            }
            let ghost so_far = kept@;
            if self.blocks[i].height <= height {
                kept.push(self.blocks[i]);
                proof {
                    let after = kept@;
                    assert forall|a: int, b: int| 0 <= a < b < after.len() implies (
                    #[trigger] after[a]).height != (#[trigger] after[b]).height by {
                        assert(after[a] == so_far[a]);
                        if b < so_far.len() {
                            assert(after[b] == so_far[b]);
                        } else {
                            assert(after[b] == before[i as int]);
                        }
                    }
                    assert forall|j: int, k: int|
                        0 <= j < after.len() && i + 1 <= k < before.len() implies (
                    #[trigger] after[j]).height != (#[trigger] before[k]).height by {
                        if j < so_far.len() {
                            assert(after[j] == so_far[j]);
                        } else {
                            assert(after[j] == before[i as int]);
                            assert(before[i as int].height != before[k].height);
                        }
                    }
                }
            }
            i = i + 1;
        }
        assert(before.take(i as int) =~= before);
        self.blocks = kept;
    }
}

/// The first height to ask for: the one after the cursor, or the birthday where nothing
/// was synced.
pub open spec fn first_height(store: StoreView) -> int {
    if cursor_height(store) == 0 {
        match store.birthday {
            Some(birthday) => birthday as int,
            None => 0,
        }
    } else {
        cursor_height(store) + 1
    }
}

/// The first height to ask for.
pub fn start_height(db: &EngineDb) -> (from: u32)
    requires
        cursor_height(db@.store) < u32::MAX,
    ensures
        from == first_height(db@.store),
{
    let cursor = db.store.get_sync_state();
    if cursor.height == 0 {
        match db.store.birthday {
            Some(birthday) => birthday,
            None => 0,
        }
    } else {
        cursor.height + 1
    }
}

/// How a pass over a range of blocks ended.
#[derive(Debug, Clone, Copy, PartialEq, Eq, Structural)]
pub enum RangeOutcome {
    /// The range was streamed and written.
    Done,
    /// A block did not connect, at the seam with the stored chain or in the stream.
    Reorg,
}

/// The state of a sync to the tip.
#[derive(Debug, Clone, Copy, PartialEq, Eq)]
pub struct EngineRun {
    /// How far the next walk back goes.
    pub rewind: u32,
    /// The height of the cursor before the pass under way.
    pub before: u32,
    /// How many transport faults the pass under way had.
    pub attempt: u32,
}

/// What to do next.
#[derive(Debug, Clone, Copy, PartialEq, Eq)]
pub enum EngineStep {
    /// The store is synced to this height.
    Synced(u32),
    /// Stream from a height to the tip; the first block must connect to the hash, where
    /// there is one.
    Stream {
        /// The first height.
        from: u32,
        /// The hash of the block before it.
        seam: Option<[u8; 32]>,
    },
}

/// The smaller number, or zero.
pub open spec fn back_by(height: u32, by: u32) -> u32 {
    if height >= by {
        (height - by) as u32
    } else {
        0
    }
}

/// Twice a number, or the largest number.
pub open spec fn twice(by: u32) -> u32 {
    if by * 2 <= u32::MAX {
        (by * 2) as u32
    } else {
        u32::MAX
    }
}

impl EngineRun {
    /// Before the first pass.
    pub fn new() -> (run: Self)
        ensures
            run.rewind == 1,
            run.before == 0,
            run.attempt == 0,
    {
        EngineRun { rewind: 1, before: 0, attempt: 0 }
    }

    /// Starts a pass: from the cursor to the tip, or nowhere where the cursor is there.
    pub fn next(&mut self, db: &EngineDb, tip: u32) -> (step: EngineStep)
        requires
            heights_differ(db@.blocks),
            cursor_height(db@.store) < u32::MAX,
        ensures
            step == (if first_height(db@.store) > tip {
                EngineStep::Synced(cursor_height(db@.store))
            } else {
                EngineStep::Stream {
                    from: first_height(db@.store) as u32,
                    seam: hash_at_height(
                        db@.blocks,
                        back_by(first_height(db@.store) as u32, 1),
                    ),
                }
            }),
            *final(self) == (EngineRun {
                rewind: old(self).rewind,
                before: cursor_height(db@.store),
                attempt: 0,
            }),
    {
        self.before = db.store.get_sync_state().height;
        self.attempt = 0;
        let from = start_height(db);
        if from > tip {
            return EngineStep::Synced(self.before);
        }
        let seam = db.get_block_hash(from.saturating_sub(1));
        EngineStep::Stream { from, seam }
    }

    /// Whether a pass that failed on the transport is tried again: at most four times.
    pub fn on_fault(&mut self) -> (retry: bool)
        ensures
            retry == (old(self).attempt < MAX_TRANSPORT_RETRIES),
            *final(self) == (if retry {
                EngineRun { attempt: (old(self).attempt + 1) as u32, ..*old(self) }
            } else {
                *old(self)
            }),
    {
        if self.attempt < MAX_TRANSPORT_RETRIES {
            self.attempt = self.attempt + 1;
            true
        } else {
            false
        }
    }

    /// After a pass. One that moved the cursor on makes the next walk back short again,
    /// and one that moved nothing ends the sync, at the height returned. After a fork the
    /// store is rewound, twice as far each time.
    pub fn on_outcome(&mut self, db: &mut EngineDb, outcome: RangeOutcome) -> (synced: Option<u32>)
        requires
            heights_differ(old(db)@.blocks),
        ensures
            match outcome {
                RangeOutcome::Done => final(db)@ == old(db)@ && (if cursor_height(old(db)@.store)
                    <= old(self).before {
                    synced == Some(old(self).before) && *final(self) == *old(self)
                } else {
                    synced is None && *final(self) == (EngineRun { rewind: 1, ..*old(self) })
                }),
                RangeOutcome::Reorg => {
                    let to = back_by(cursor_height(old(db)@.store), old(self).rewind);
                    &&& synced is None
                    &&& *final(self) == (EngineRun {
                        rewind: twice(old(self).rewind),
                        ..*old(self)
                    })
                    &&& final(db)@ == (EngineView {
                        store: rewound_store(old(db)@.store, to),
                        blocks: old(db)@.blocks.filter(|m: BlockMeta| m.height <= to),
                        ..old(db)@
                    })
                },
            },
            heights_differ(final(db)@.blocks),
            old(db)@.store.wf() ==> final(db)@.store.wf(),
    {
        let height = db.store.get_sync_state().height;
        match outcome {
            RangeOutcome::Done => {
                if height <= self.before {
                    return Some(self.before);
                }
                self.rewind = 1;
                None
            },
            RangeOutcome::Reorg => {
                db.rewind_to_height(height.saturating_sub(self.rewind));
                self.rewind = if self.rewind <= u32::MAX / 2 {
                    self.rewind * 2
                } else {
                    u32::MAX
                };
                None
            },
        }
    }
}

} // verus!
