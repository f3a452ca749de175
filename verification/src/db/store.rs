//! The wallet store: transactions, the notes and transparent outputs that they made,
//! and the position up to which the chain was synced.
//!
//! The tables are held in memory; whoever persists them reads and writes the rows.

use vstd::prelude::*;

use crate::bytes::{copy_bytes, same32, same_bytes, slice_bytes, to_array};
use crate::chain::{utxo_views, TransparentUtxo, UtxoView};
use crate::seqs::{
    collect_some, lemma_collect_from, lemma_collect_has, lemma_collect_order, lemma_collect_push,
};
use crate::upstream::consensus_rules::{zatoshis, zatoshis_sum, MAX_MONEY};

verus! {

/// A shielded pool of the store.
#[derive(Debug, Clone, Copy, PartialEq, Eq, Structural)]
pub enum Pool {
    /// The Sapling pool.
    Sapling,
    /// The Orchard pool.
    Orchard,
}

/// The position up to which the chain was synced.
#[derive(Debug, Clone, Copy, Default, PartialEq, Eq)]
pub struct SyncState {
    /// The block's height.
    pub height: u32,
    /// The block's hash, where it is known.
    pub hash: Option<[u8; 32]>,
}

/// The unspent value in each pool, in zatoshis.
#[derive(Debug, Clone, Copy, PartialEq, Eq)]
pub struct PoolBalance {
    /// In the Orchard pool.
    pub orchard: u64,
    /// In the Sapling pool.
    pub sapling: u64,
    /// In transparent outputs.
    pub transparent: u64,
}

impl Default for PoolBalance {
    fn default() -> (balance: Self)
        ensures
            balance == (PoolBalance { orchard: 0, sapling: 0, transparent: 0 }),
    {
        PoolBalance { orchard: 0, sapling: 0, transparent: 0 }
    }
}

impl PoolBalance {
    /// The unspent value of all pools together.
    pub fn total(&self) -> (total: u64)
        requires
            self.orchard + self.sapling + self.transparent <= MAX_MONEY,
        ensures
            total == self.orchard + self.sapling + self.transparent,
    {
        let shielded: u64 = zatoshis_sum(self.orchard, self.sapling).unwrap();
        zatoshis_sum(shielded, self.transparent).unwrap()
    }
}

/// A Sapling note to insert.
#[derive(Debug, Clone)]
pub struct SaplingNoteInsert<'a> {
    /// The row of the note's transaction.
    pub transaction_id: i64,
    /// The output's index in the transaction.
    pub output_index: u32,
    /// The diversifier of the recipient.
    pub diversifier: &'a [u8],
    /// Value in zatoshis.
    pub value: u64,
    /// The commitment trapdoor.
    pub rcm: &'a [u8],
    /// The nullifier.
    pub nf: Option<&'a [u8]>,
    /// The memo.
    pub memo: Option<&'a [u8]>,
    /// The position in the commitment tree.
    pub commitment_tree_position: Option<u64>,
    /// Whether the account sent the note.
    pub is_sent: bool,
    /// The address that the note was sent to.
    pub recipient_address: Option<&'a str>,
}

/// An Orchard note to insert.
#[derive(Debug, Clone)]
pub struct OrchardNoteInsert<'a> {
    /// The row of the note's transaction.
    pub transaction_id: i64,
    /// The action's index in the transaction.
    pub action_index: u32,
    /// The diversifier of the recipient.
    pub diversifier: &'a [u8],
    /// Value in zatoshis.
    pub value: u64,
    /// The nullifier of the note that the action spent.
    pub rho: &'a [u8],
    /// The note's seed.
    pub rseed: &'a [u8],
    /// The nullifier.
    pub nf: Option<&'a [u8]>,
    /// The memo.
    pub memo: Option<&'a [u8]>,
    /// The position in the commitment tree.
    pub commitment_tree_position: Option<u64>,
    /// Whether the account sent the note.
    pub is_sent: bool,
    /// The address that the note was sent to.
    pub recipient_address: Option<&'a str>,
}

/// Why the store refused an insertion.
#[derive(Debug, Clone, Copy, PartialEq, Eq, Structural)]
pub enum StoreError {
    /// There is no transaction with the given row.
    MissingTransaction,
    /// Another note has the nullifier.
    DuplicateNullifier,
    /// The parts are no note.
    InvalidNote,
}

/// A row of the transaction table.
#[derive(Debug, Clone, Copy, PartialEq, Eq)]
pub struct TxRecord {
    /// The row.
    pub id: i64,
    /// The transaction's id.
    pub txid: [u8; 32],
    /// The height at which it was mined, once it was.
    pub mined_height: Option<u32>,
    /// Its index in the block, where it is known.
    pub tx_index: Option<u32>,
}

/// A row of a note table.
#[derive(Debug, Clone, PartialEq, Eq)]
pub struct NoteRecord {
    /// The row of the note's transaction.
    pub transaction_id: i64,
    /// The output's or action's index in the transaction.
    pub index: u32,
    /// The diversifier of the recipient.
    pub diversifier: Vec<u8>,
    /// Value in zatoshis.
    pub value: u64,
    /// The nullifier of the note that the action spent; empty in the Sapling pool.
    pub rho: Vec<u8>,
    /// The commitment trapdoor or, in the Orchard pool, the seed.
    pub rseed: Vec<u8>,
    /// The nullifier.
    pub nf: Option<Vec<u8>>,
    /// The memo.
    pub memo: Option<Vec<u8>>,
    /// The position in the commitment tree.
    pub position: Option<u64>,
    /// The height at which the note was spent.
    pub spent_height: Option<u32>,
    /// The transaction that spent it.
    pub spent_txid: Option<[u8; 32]>,
    /// Whether the account sent the note.
    pub is_sent: bool,
    /// The address that the note was sent to.
    pub recipient: Option<String>,
}

/// A row of the transparent output table.
#[derive(Debug, Clone, PartialEq, Eq)]
pub struct OutputRecord {
    /// The row of the output's transaction.
    pub transaction_id: i64,
    /// The output's index in the transaction.
    pub output_index: u32,
    /// The address that it pays.
    pub address: String,
    /// The locking script.
    pub script: Vec<u8>,
    /// Value in zatoshis.
    pub value: u64,
    /// The height at which it was spent, or by which it was seen to be.
    pub spent_height: Option<u32>,
    /// The transaction that spent it, where it is known.
    pub spent_txid: Option<[u8; 32]>,
}

/// What a row of a note table holds.
pub struct NoteRecordView {
    /// The row of the note's transaction.
    pub transaction_id: i64,
    /// The output's or action's index in the transaction.
    pub index: u32,
    /// The diversifier of the recipient.
    pub diversifier: Seq<u8>,
    /// Value in zatoshis.
    pub value: u64,
    /// The nullifier of the note that the action spent; empty in the Sapling pool.
    pub rho: Seq<u8>,
    /// The commitment trapdoor or, in the Orchard pool, the seed.
    pub rseed: Seq<u8>,
    /// The nullifier.
    pub nf: Option<Seq<u8>>,
    /// The memo.
    pub memo: Option<Seq<u8>>,
    /// The position in the commitment tree.
    pub position: Option<u64>,
    /// The height at which the note was spent.
    pub spent_height: Option<u32>,
    /// The transaction that spent it.
    pub spent_txid: Option<[u8; 32]>,
    /// Whether the account sent the note.
    pub is_sent: bool,
    /// The address that the note was sent to.
    pub recipient: Option<Seq<char>>,
}

/// What a row of the transparent output table holds.
pub struct OutputRecordView {
    /// The row of the output's transaction.
    pub transaction_id: i64,
    /// The output's index in the transaction.
    pub output_index: u32,
    /// The address that it pays.
    pub address: Seq<char>,
    /// The locking script.
    pub script: Seq<u8>,
    /// Value in zatoshis.
    pub value: u64,
    /// The height at which it was spent, or by which it was seen to be.
    pub spent_height: Option<u32>,
    /// The transaction that spent it, where it is known.
    pub spent_txid: Option<[u8; 32]>,
}

/// The bytes of an optional blob.
pub open spec fn opt_bytes(blob: Option<Vec<u8>>) -> Option<Seq<u8>> {
    match blob {
        Some(bytes) => Some(bytes@),
        None => None,
    }
}

/// The bytes of an optional slice.
pub open spec fn opt_slice(slice: Option<&[u8]>) -> Option<Seq<u8>> {
    match slice {
        Some(bytes) => Some(bytes@),
        None => None,
    }
}

/// The characters of an optional string.
pub open spec fn opt_string(text: Option<String>) -> Option<Seq<char>> {
    match text {
        Some(text) => Some(text@),
        None => None,
    }
}

/// The characters of an optional string slice.
pub open spec fn opt_str(text: Option<&str>) -> Option<Seq<char>> {
    match text {
        Some(text) => Some(text@),
        None => None,
    }
}

/// A copy of an optional slice.
fn copy_opt(slice: &Option<&[u8]>) -> (copy: Option<Vec<u8>>)
    ensures
        opt_bytes(copy) == opt_slice(*slice),
{
    match slice {
        Some(bytes) => Some(slice_bytes(bytes)),
        None => None,
    }
}

/// A copy of an optional blob.
pub(crate) fn copy_blob(blob: &Option<Vec<u8>>) -> (copy: Option<Vec<u8>>)
    ensures
        opt_bytes(copy) == opt_bytes(*blob),
{
    match blob {
        Some(bytes) => Some(copy_bytes(bytes)),
        None => None,
    }
}

/// A copy of an optional string slice.
fn copy_str(text: &Option<&str>) -> (copy: Option<String>)
    ensures
        opt_string(copy) == opt_str(*text),
{
    match text {
        Some(text) => Some((*text).to_owned()),
        None => None,
    }
}

/// A copy of an optional string.
pub(crate) fn copy_string(text: &Option<String>) -> (copy: Option<String>)
    ensures
        opt_string(copy) == opt_string(*text),
{
    match text {
        Some(text) => Some(text.clone()),
        None => None,
    }
}

impl NoteRecord {
    /// What the row holds.
    pub open spec fn view(&self) -> NoteRecordView {
        NoteRecordView {
            transaction_id: self.transaction_id,
            index: self.index,
            diversifier: self.diversifier@,
            value: self.value,
            rho: self.rho@,
            rseed: self.rseed@,
            nf: opt_bytes(self.nf),
            memo: opt_bytes(self.memo),
            position: self.position,
            spent_height: self.spent_height,
            spent_txid: self.spent_txid,
            is_sent: self.is_sent,
            recipient: opt_string(self.recipient),
        }
    }
}

impl OutputRecord {
    /// What the row holds.
    pub open spec fn view(&self) -> OutputRecordView {
        OutputRecordView {
            transaction_id: self.transaction_id,
            output_index: self.output_index,
            address: self.address@,
            script: self.script@,
            value: self.value,
            spent_height: self.spent_height,
            spent_txid: self.spent_txid,
        }
    }
}

/// What the rows of a note table hold.
pub open spec fn record_views(rows: Seq<NoteRecord>) -> Seq<NoteRecordView> {
    rows.map_values(|r: NoteRecord| r@)
}

/// What the rows of the transparent output table hold.
pub open spec fn output_views(rows: Seq<OutputRecord>) -> Seq<OutputRecordView> {
    rows.map_values(|r: OutputRecord| r@)
}

/// The row of the sync state.
#[derive(Debug, Clone, PartialEq, Eq)]
pub struct SyncRow {
    /// The block's height.
    pub height: u32,
    /// The block's hash.
    pub hash: Option<Vec<u8>>,
}

/// The tables of the store.
#[derive(Debug)]
pub struct Db {
    /// The account's birthday, once it is set.
    pub birthday: Option<u32>,
    /// The sync state, once it is set.
    pub sync: Option<SyncRow>,
    /// The transactions.
    pub transactions: Vec<TxRecord>,
    /// The Sapling notes.
    pub sapling: Vec<NoteRecord>,
    /// The Orchard notes.
    pub orchard: Vec<NoteRecord>,
    /// The transparent outputs.
    pub outputs: Vec<OutputRecord>,
}

/// What the tables hold.
pub struct StoreView {
    /// The account's birthday, once it is set.
    pub birthday: Option<u32>,
    /// The sync state, once it is set.
    pub sync: Option<(u32, Option<Seq<u8>>)>,
    /// The transactions.
    pub transactions: Seq<TxRecord>,
    /// The Sapling notes.
    pub sapling: Seq<NoteRecordView>,
    /// The Orchard notes.
    pub orchard: Seq<NoteRecordView>,
    /// The transparent outputs.
    pub outputs: Seq<OutputRecordView>,
}

impl Db {
    /// What the tables hold.
    pub open spec fn view(&self) -> StoreView {
        StoreView {
            birthday: self.birthday,
            sync: match self.sync {
                Some(row) => Some((row.height, opt_bytes(row.hash))),
                None => None,
            },
            transactions: self.transactions@,
            sapling: record_views(self.sapling@),
            orchard: record_views(self.orchard@),
            outputs: output_views(self.outputs@),
        }
    }
}

/// The transaction with the given row.
pub open spec fn has_row(txs: Seq<TxRecord>, id: i64) -> bool {
    exists|i: int| 0 <= i < txs.len() && (#[trigger] txs[i]).id == id
}

/// Whether rows and transaction ids are unique, and every row is positive.
pub open spec fn transactions_wf(txs: Seq<TxRecord>) -> bool {
    &&& forall|i: int, j: int|
        0 <= i < j < txs.len() ==> (#[trigger] txs[i]).id != (#[trigger] txs[j]).id && txs[i].txid
            != txs[j].txid
    &&& forall|i: int| 0 <= i < txs.len() ==> (#[trigger] txs[i]).id >= 1
}

/// Whether every note belongs to a transaction, and neither outputs nor nullifiers occur
/// twice.
pub open spec fn records_wf(notes: Seq<NoteRecordView>, txs: Seq<TxRecord>) -> bool {
    &&& forall|i: int| 0 <= i < notes.len() ==> has_row(txs, (#[trigger] notes[i]).transaction_id)
    &&& forall|i: int, j: int|
        0 <= i < j < notes.len() ==> !same_output(#[trigger] notes[i], #[trigger] notes[j]) && (
        notes[i].nf is Some ==> notes[i].nf != notes[j].nf)
}

/// Whether two notes are the same output of the same transaction.
pub open spec fn same_output(a: NoteRecordView, b: NoteRecordView) -> bool {
    a.transaction_id == b.transaction_id && a.index == b.index
}

/// Whether every transparent output belongs to a transaction, and none occurs twice.
pub open spec fn outputs_wf(outputs: Seq<OutputRecordView>, txs: Seq<TxRecord>) -> bool {
    &&& forall|i: int|
        0 <= i < outputs.len() ==> has_row(txs, (#[trigger] outputs[i]).transaction_id)
    &&& forall|i: int, j: int|
        0 <= i < j < outputs.len() ==> !((#[trigger] outputs[i]).transaction_id == (
        #[trigger] outputs[j]).transaction_id && outputs[i].output_index == outputs[j].output_index)
}

impl StoreView {
    /// Rows, ids, outputs and nullifiers are unique, and what refers to a transaction
    /// refers to one that is there.
    pub open spec fn wf(self) -> bool {
        &&& transactions_wf(self.transactions)
        &&& records_wf(self.sapling, self.transactions)
        &&& records_wf(self.orchard, self.transactions)
        &&& outputs_wf(self.outputs, self.transactions)
    }

    /// The notes of a pool.
    pub open spec fn notes_in(self, pool: Pool) -> Seq<NoteRecordView> {
        match pool {
            Pool::Sapling => self.sapling,
            Pool::Orchard => self.orchard,
        }
    }
}

/// The table that holds a pool's notes.
pub fn note_table(pool: Pool) -> (name: &'static str)
    ensures
        name@ == match pool {
            Pool::Sapling => "sapling_received_notes"@,
            Pool::Orchard => "orchard_received_notes"@,
        },
{
    match pool {
        Pool::Sapling => "sapling_received_notes",
        Pool::Orchard => "orchard_received_notes",
    }
}

/// The column that holds a note's index in its transaction.
pub fn index_col(pool: Pool) -> (name: &'static str)
    ensures
        name@ == match pool {
            Pool::Sapling => "output_index"@,
            Pool::Orchard => "action_index"@,
        },
{
    match pool {
        Pool::Sapling => "output_index",
        Pool::Orchard => "action_index",
    }
}

impl Db {
    /// Empty tables.
    pub fn open_in_memory() -> (db: Self)
        ensures
            db@.wf(),
            db@ == (StoreView {
                birthday: None,
                sync: None,
                transactions: Seq::empty(),
                sapling: Seq::empty(),
                orchard: Seq::empty(),
                outputs: Seq::empty(),
            }),
    {
        let db = Db {
            birthday: None,
            sync: None,
            transactions: Vec::new(),
            sapling: Vec::new(),
            orchard: Vec::new(),
            outputs: Vec::new(),
        };
        assert(db@.transactions =~= Seq::empty());
        assert(db@.sapling =~= Seq::empty());
        assert(db@.orchard =~= Seq::empty());
        assert(db@.outputs =~= Seq::empty());
        db
    }

    /// Records the position up to which the chain was synced.
    pub fn set_sync_state(&mut self, state: &SyncState)
        ensures
            final(self)@ == (StoreView {
                sync: Some(
                    (
                        state.height,
                        match state.hash {
                            Some(hash) => Some(hash@),
                            None => None,
                        },
                    ),
                ),
                ..old(self)@
            }),
    {
        let hash = match &state.hash {
            Some(hash) => Some(slice_bytes(hash)),
            None => None,
        };
        self.sync = Some(SyncRow { height: state.height, hash });
    }

    /// The position up to which the chain was synced: height 0 where none was recorded,
    /// and no hash where the recorded one has not 32 bytes.
    pub fn get_sync_state(&self) -> (state: SyncState)
        ensures
            match self@.sync {
                Some((height, hash)) => {
                    &&& state.height == height
                    &&& state.hash is Some == (hash matches Some(bytes) && bytes.len() == 32)
                    &&& state.hash matches Some(h) ==> hash == Some(h@)
                },
                None => state.height == 0 && state.hash is None,
            },
    {
        match &self.sync {
            Some(row) => {
                let hash = match &row.hash {
                    Some(bytes) => to_array(bytes.as_slice()),
                    None => None,
                };
                SyncState { height: row.height, hash }
            },
            None => SyncState { height: 0, hash: None },
        }
    }
}

/// The largest row of the transactions, or 0.
pub open spec fn max_row(txs: Seq<TxRecord>) -> int
    decreases txs.len(),
{
    if txs.len() == 0 {
        0
    } else {
        let before = max_row(txs.drop_last());
        if txs.last().id > before {
            txs.last().id as int
        } else {
            before
        }
    }
}

/// No row is larger than the largest.
proof fn lemma_max_row(txs: Seq<TxRecord>)
    ensures
        max_row(txs) >= 0,
        forall|i: int| 0 <= i < txs.len() ==> (#[trigger] txs[i]).id <= max_row(txs),
    decreases txs.len(),
{
    if txs.len() > 0 {
        lemma_max_row(txs.drop_last());
        assert forall|i: int| 0 <= i < txs.len() implies (#[trigger] txs[i]).id <= max_row(txs) by {
            if i < txs.len() - 1 {
                assert(txs.drop_last()[i] == txs[i]);
            }
        }
    }
}

/// The first transaction with the given id.
pub open spec fn find_tx(txs: Seq<TxRecord>, txid: [u8; 32]) -> Option<int>
    decreases txs.len(),
{
    if txs.len() == 0 {
        None
    } else {
        match find_tx(txs.drop_last(), txid) {
            Some(k) => Some(k),
            None => if txs.last().txid == txid {
                Some(txs.len() - 1)
            } else {
                None
            },
        }
    }
}

/// The search finds the first transaction with the id.
pub proof fn lemma_find_tx(txs: Seq<TxRecord>, txid: [u8; 32], k: int)
    requires
        0 <= k <= txs.len(),
        forall|j: int| 0 <= j < k ==> (#[trigger] txs[j]).txid != txid,
        k < txs.len() ==> txs[k].txid == txid,
    ensures
        find_tx(txs, txid) == if k < txs.len() {
            Some(k)
        } else {
            None
        },
    decreases txs.len(),
{
    if txs.len() > 0 {
        let init = txs.drop_last();
        assert forall|j: int| 0 <= j < k && j < init.len() implies (#[trigger] init[j]).txid != txid by {
            assert(init[j] == txs[j]);
        }
        if k == txs.len() {
            lemma_find_tx(init, txid, k - 1);
        } else {
            lemma_find_tx(init, txid, k);
        }
    }
}

/// The first that is present of two values.
pub open spec fn or_else(a: Option<u32>, b: Option<u32>) -> Option<u32> {
    if a is Some {
        a
    } else {
        b
    }
}

/// The transactions after one was recorded, and its row. What is newly known of a
/// transaction takes the place of what was known, and a new one gets the next row.
pub open spec fn upserted_tx(
    txs: Seq<TxRecord>,
    txid: [u8; 32],
    height: Option<u32>,
    tx_index: Option<u32>,
) -> (Seq<TxRecord>, i64) {
    match find_tx(txs, txid) {
        Some(k) => (
            txs.update(
                k,
                TxRecord {
                    mined_height: or_else(height, txs[k].mined_height),
                    tx_index: or_else(tx_index, txs[k].tx_index),
                    ..txs[k]
                },
            ),
            txs[k].id,
        ),
        None => {
            let id = (max_row(txs) + 1) as i64;
            (txs.push(TxRecord { id, txid, mined_height: height, tx_index }), id)
        },
    }
}

/// Recording a transaction keeps rows and ids unique, and loses no row.
pub proof fn lemma_upserted_tx(
    txs: Seq<TxRecord>,
    txid: [u8; 32],
    height: Option<u32>,
    tx_index: Option<u32>,
)
    requires
        transactions_wf(txs),
        max_row(txs) < i64::MAX,
    ensures
        ({
            let (after, id) = upserted_tx(txs, txid, height, tx_index);
            &&& transactions_wf(after)
            &&& has_row(after, id)
            &&& forall|r: i64| has_row(txs, r) ==> #[trigger] has_row(after, r)
        }),
{
    let (after, id) = upserted_tx(txs, txid, height, tx_index);
    lemma_max_row(txs);
    let n = find_position(txs, txid);
    lemma_find_tx(txs, txid, n);
    if n < txs.len() {
        assert(after[n].id == id);
        assert forall|i: int, j: int| 0 <= i < j < after.len() implies (#[trigger] after[i]).id != (
        #[trigger] after[j]).id && after[i].txid != after[j].txid by {
            assert(txs[i].id != txs[j].id && txs[i].txid != txs[j].txid);
        }
        assert forall|i: int| 0 <= i < after.len() implies (#[trigger] after[i]).id >= 1 by {
            assert(txs[i].id >= 1);
        }
        assert forall|r: i64| has_row(txs, r) implies #[trigger] has_row(after, r) by {
            let i = choose|i: int| 0 <= i < txs.len() && (#[trigger] txs[i]).id == r;
            assert(after[i].id == r);
        }
    } else {
        assert(after[txs.len() as int].id == id);
        assert forall|i: int, j: int| 0 <= i < j < after.len() implies (#[trigger] after[i]).id != (
        #[trigger] after[j]).id && after[i].txid != after[j].txid by {
            if j < txs.len() {
                assert(txs[i].id != txs[j].id && txs[i].txid != txs[j].txid);
            } else {
                assert(txs[i].id <= max_row(txs));
            }
        }
        assert forall|i: int| 0 <= i < after.len() implies (#[trigger] after[i]).id >= 1 by {
            if i < txs.len() {
                assert(txs[i].id >= 1);
            }
        }
        assert forall|r: i64| has_row(txs, r) implies #[trigger] has_row(after, r) by {
            let i = choose|i: int| 0 <= i < txs.len() && (#[trigger] txs[i]).id == r;
            assert(after[i].id == r);
        }
    }
}

/// Recording a transaction keeps the store well formed.
proof fn lemma_store_upsert(
    store: StoreView,
    txid: [u8; 32],
    height: Option<u32>,
    tx_index: Option<u32>,
)
    requires
        store.wf(),
        max_row(store.transactions) < i64::MAX,
    ensures
        ({
            let (after, id) = upserted_tx(store.transactions, txid, height, tx_index);
            &&& (StoreView { transactions: after, ..store }).wf()
            &&& has_row(after, id)
        }),
{
    lemma_upserted_tx(store.transactions, txid, height, tx_index);
    let (after, id) = upserted_tx(store.transactions, txid, height, tx_index);
    assert forall|i: int| 0 <= i < store.sapling.len() implies has_row(
        after,
        (#[trigger] store.sapling[i]).transaction_id,
    ) by {
        assert(has_row(store.transactions, store.sapling[i].transaction_id));
    }
    assert forall|i: int| 0 <= i < store.orchard.len() implies has_row(
        after,
        (#[trigger] store.orchard[i]).transaction_id,
    ) by {
        assert(has_row(store.transactions, store.orchard[i].transaction_id));
    }
    assert forall|i: int| 0 <= i < store.outputs.len() implies has_row(
        after,
        (#[trigger] store.outputs[i]).transaction_id,
    ) by {
        assert(has_row(store.transactions, store.outputs[i].transaction_id));
    }
}

/// The position of the first transaction with the id, or the length.
spec fn find_position(txs: Seq<TxRecord>, txid: [u8; 32]) -> int {
    if exists|k: int| 0 <= k < txs.len() && (#[trigger] txs[k]).txid == txid {
        choose|k: int|
            0 <= k < txs.len() && (#[trigger] txs[k]).txid == txid && forall|j: int|
                0 <= j < k ==> (#[trigger] txs[j]).txid != txid
    } else {
        txs.len() as int
    }
}

impl Db {
    /// Records a transaction, and gives its row. A height or index that is not given
    /// leaves the one that is known.
    pub fn upsert_transaction(
        &mut self,
        txid: &[u8; 32],
        height: Option<u32>,
        tx_index: Option<u32>,
    ) -> (id: i64)
        requires
            max_row(old(self)@.transactions) < i64::MAX,
        ensures
            (final(self)@.transactions, id) == upserted_tx(
                old(self)@.transactions,
                *txid,
                height,
                tx_index,
            ),
            final(self)@ == (StoreView { transactions: final(self)@.transactions, ..old(self)@ }),
            old(self)@.wf() ==> final(self)@.wf() && has_row(final(self)@.transactions, id),
    {
        proof {
            if self@.wf() {
                lemma_store_upsert(self@, *txid, height, tx_index);
            }
        }
        let mut k: usize = 0;
        let mut top: i64 = 0;
        assert(self.transactions@.take(0) =~= Seq::empty());
        while k < self.transactions.len()
            invariant
                0 <= k <= self.transactions.len(),
                *self == *old(self),
                max_row(old(self)@.transactions) < i64::MAX,
                top == max_row(self.transactions@.take(k as int)),
                forall|j: int| 0 <= j < k ==> (#[trigger] self.transactions@[j]).txid != *txid,
            decreases self.transactions.len() - k,
        {
            proof {
                assert(self.transactions@.take(k as int + 1).drop_last() =~= self.transactions@.take(
                    k as int,
                ));
            }
            let known = self.transactions[k];
            if same32(&known.txid, txid) {
                proof {
                    lemma_find_tx(self.transactions@, *txid, k as int);
                    if old(self)@.wf() {
                        lemma_store_upsert(old(self)@, *txid, height, tx_index);
                    }
                }
                let mined_height = if height.is_some() {
                    height
                } else {
                    known.mined_height
                };
                let tx_index = if tx_index.is_some() {
                    tx_index
                } else {
                    known.tx_index
                };
                self.transactions.set(
                    k,
                    TxRecord { id: known.id, txid: known.txid, mined_height, tx_index },
                );
                return known.id;
            }
            if known.id > top {
                top = known.id;
            }
            k = k + 1;
        }
        proof {
            assert(self.transactions@.take(k as int) =~= self.transactions@);
            lemma_find_tx(self.transactions@, *txid, k as int);
        }
        let id: i64 = top + 1;
        self.transactions.push(TxRecord { id, txid: *txid, mined_height: height, tx_index });
        id
    }
}

/// Whether a note table holds the output of a row.
pub open spec fn has_output(notes: Seq<NoteRecordView>, row: NoteRecordView) -> bool {
    exists|i: int| 0 <= i < notes.len() && same_output(#[trigger] notes[i], row)
}

/// Whether a note table holds a nullifier.
pub open spec fn has_nullifier(notes: Seq<NoteRecordView>, nf: Seq<u8>) -> bool {
    exists|i: int| 0 <= i < notes.len() && (#[trigger] notes[i]).nf == Some(nf)
}

/// What inserting a row into a note table comes to: nothing where the table holds the
/// output, an error where another note has the nullifier or the transaction is not
/// there, and else the row at the end.
pub open spec fn insertion(
    notes: Seq<NoteRecordView>,
    txs: Seq<TxRecord>,
    row: NoteRecordView,
) -> Result<Seq<NoteRecordView>, StoreError> {
    if has_output(notes, row) {
        Ok(notes)
    } else if row.nf matches Some(nf) && has_nullifier(notes, nf) {
        Err(StoreError::DuplicateNullifier)
    } else if !has_row(txs, row.transaction_id) {
        Err(StoreError::MissingTransaction)
    } else {
        Ok(notes.push(row))
    }
}

/// The table after an insertion: unchanged where it failed.
pub open spec fn after_insertion(
    notes: Seq<NoteRecordView>,
    result: Result<Seq<NoteRecordView>, StoreError>,
) -> Seq<NoteRecordView> {
    match result {
        Ok(after) => after,
        Err(_) => notes,
    }
}

/// Inserting keeps a note table well formed.
proof fn lemma_insertion_wf(notes: Seq<NoteRecordView>, txs: Seq<TxRecord>, row: NoteRecordView)
    requires
        records_wf(notes, txs),
    ensures
        records_wf(after_insertion(notes, insertion(notes, txs, row)), txs),
{
    let after = after_insertion(notes, insertion(notes, txs, row));
    if after != notes {
        assert forall|i: int| 0 <= i < after.len() implies has_row(
            txs,
            (#[trigger] after[i]).transaction_id,
        ) by {
            if i < notes.len() {
                assert(has_row(txs, notes[i].transaction_id));
            }
        }
        assert forall|i: int, j: int| 0 <= i < j < after.len() implies !same_output(
            #[trigger] after[i],
            #[trigger] after[j],
        ) && (after[i].nf is Some ==> after[i].nf != after[j].nf) by {
            if j < notes.len() {
                assert(!same_output(notes[i], notes[j]));
            } else {
                assert(!same_output(notes[i], row));
                if after[i].nf is Some && after[i].nf == row.nf {
                    assert(has_nullifier(notes, row.nf->0));
                }
            }
        }
    }
}

/// Whether there is a transaction with the given row.
fn row_exists(txs: &Vec<TxRecord>, id: i64) -> (found: bool)
    ensures
        found == has_row(txs@, id),
{
    let mut i: usize = 0;
    while i < txs.len()
        invariant
            0 <= i <= txs.len(),
            forall|j: int| 0 <= j < i ==> (#[trigger] txs@[j]).id != id,
        decreases txs.len() - i,
    {
        if txs[i].id == id {
            assert(txs@[i as int].id == id);
            return true;
        }
        i = i + 1;
    }
    false
}

/// Inserts a row into a note table.
fn insert_record(table: &mut Vec<NoteRecord>, txs: &Vec<TxRecord>, row: NoteRecord) -> (result: Result<
    (),
    StoreError,
>)
    ensures
        record_views(final(table)@) == after_insertion(
            record_views(old(table)@),
            insertion(record_views(old(table)@), txs@, row@),
        ),
        result is Ok == insertion(record_views(old(table)@), txs@, row@) is Ok,
        result matches Err(e) ==> insertion(record_views(old(table)@), txs@, row@) == Err::<
            Seq<NoteRecordView>,
            StoreError,
        >(e),
{
    let ghost notes = record_views(table@);
    let mut duplicate = false;
    let mut i: usize = 0;
    while i < table.len()
        invariant
            0 <= i <= table.len(),
            table@ == old(table)@,
            notes == record_views(table@),
            forall|j: int| 0 <= j < i ==> !same_output(#[trigger] notes[j], row@),
            duplicate == (row@.nf is Some && exists|j: int|
                0 <= j < i && (#[trigger] notes[j]).nf == row@.nf),
        decreases table.len() - i,
    {
        if table[i].transaction_id == row.transaction_id && table[i].index == row.index {
            assert(same_output(notes[i as int], row@));
            return Ok(());
        }
        if let (Some(known), Some(nf)) = (&table[i].nf, &row.nf) {
            if same_bytes(known.as_slice(), nf.as_slice()) {
                assert(notes[i as int].nf == row@.nf);
                duplicate = true;
            }
        }
        i = i + 1;
    }
    assert(!has_output(notes, row@));
    if duplicate {
        assert(has_nullifier(notes, row@.nf->0));
        return Err(StoreError::DuplicateNullifier);
    }
    assert(!(row@.nf matches Some(nf) && has_nullifier(notes, nf)));
    if !row_exists(txs, row.transaction_id) {
        return Err(StoreError::MissingTransaction);
    }
    table.push(row);
    assert(record_views(table@) =~= notes.push(row@));
    Ok(())
}

/// The row that a Sapling note is stored as.
pub open spec fn sapling_record(n: SaplingNoteInsert<'_>) -> NoteRecordView {
    NoteRecordView {
        transaction_id: n.transaction_id,
        index: n.output_index,
        diversifier: n.diversifier@,
        value: n.value,
        rho: Seq::empty(),
        rseed: n.rcm@,
        nf: opt_slice(n.nf),
        memo: opt_slice(n.memo),
        position: n.commitment_tree_position,
        spent_height: None,
        spent_txid: None,
        is_sent: n.is_sent,
        recipient: opt_str(n.recipient_address),
    }
}

/// The row that an Orchard note is stored as.
pub open spec fn orchard_record(n: OrchardNoteInsert<'_>) -> NoteRecordView {
    NoteRecordView {
        transaction_id: n.transaction_id,
        index: n.action_index,
        diversifier: n.diversifier@,
        value: n.value,
        rho: n.rho@,
        rseed: n.rseed@,
        nf: opt_slice(n.nf),
        memo: opt_slice(n.memo),
        position: n.commitment_tree_position,
        spent_height: None,
        spent_txid: None,
        is_sent: n.is_sent,
        recipient: opt_str(n.recipient_address),
    }
}

/// A note row after its nullifier was seen spent.
pub open spec fn record_spent(
    note: NoteRecordView,
    nf: Seq<u8>,
    height: u32,
    txid: [u8; 32],
) -> NoteRecordView {
    if note.nf == Some(nf) {
        NoteRecordView { spent_height: Some(height), spent_txid: Some(txid), ..note }
    } else {
        note
    }
}

/// A note table after a nullifier was seen spent.
pub open spec fn records_spent(
    notes: Seq<NoteRecordView>,
    nf: Seq<u8>,
    height: u32,
    txid: [u8; 32],
) -> Seq<NoteRecordView> {
    notes.map_values(|n: NoteRecordView| record_spent(n, nf, height, txid))
}

/// How many notes have the nullifier.
pub open spec fn count_nullifier(notes: Seq<NoteRecordView>, nf: Seq<u8>) -> nat
    decreases notes.len(),
{
    if notes.len() == 0 {
        0
    } else {
        count_nullifier(notes.drop_last(), nf) + if notes.last().nf == Some(nf) {
            1nat
        } else {
            0
        }
    }
}

/// No more notes have the nullifier than there are.
proof fn lemma_count_bound(notes: Seq<NoteRecordView>, nf: Seq<u8>)
    ensures
        count_nullifier(notes, nf) <= notes.len(),
    decreases notes.len(),
{
    if notes.len() > 0 {
        lemma_count_bound(notes.drop_last(), nf);
    }
}

/// Marks the notes with a nullifier as spent, and tells how many they are.
fn mark_records(table: &mut Vec<NoteRecord>, nf: &[u8], height: u32, txid: &[u8; 32]) -> (count: usize)
    ensures
        record_views(final(table)@) == records_spent(record_views(old(table)@), nf@, height, *txid),
        count == count_nullifier(record_views(old(table)@), nf@),
{
    let ghost notes = record_views(table@);
    let mut count: usize = 0;
    let mut i: usize = 0;
    assert(notes.take(0) =~= Seq::empty());
    while i < table.len()
        invariant
            0 <= i <= table.len(),
            table.len() == notes.len(),
            notes == record_views(old(table)@),
            count == count_nullifier(notes.take(i as int), nf@),
            count <= i,
            forall|j: int|
                0 <= j < i ==> (#[trigger] table[j])@ == record_spent(notes[j], nf@, height, *txid),
            forall|j: int| i <= j < table.len() ==> (#[trigger] table[j])@ == notes[j],
        decreases table.len() - i,
    {
        proof {
            assert(notes.take(i as int + 1).drop_last() =~= notes.take(i as int));
        }
        let hit = match &table[i].nf {
            Some(known) => same_bytes(known.as_slice(), nf),
            None => false,
        };
        assert(table[i as int]@ == notes[i as int]);
        if hit {
            let row = &mut table[i];
            row.spent_height = Some(height);
            row.spent_txid = Some(*txid);
            count = count + 1;
        }
        i = i + 1;
    }
    assert(notes.take(i as int) =~= notes);
    assert(record_views(table@) =~= records_spent(notes, nf@, height, *txid));
    count
}

/// Whether a note table holds a nullifier.
fn owns_record(table: &Vec<NoteRecord>, nf: &[u8]) -> (owned: bool)
    ensures
        owned == has_nullifier(record_views(table@), nf@),
{
    let ghost notes = record_views(table@);
    let mut i: usize = 0;
    while i < table.len()
        invariant
            0 <= i <= table.len(),
            notes == record_views(table@),
            forall|j: int| 0 <= j < i ==> (#[trigger] notes[j]).nf != Some(nf@),
        decreases table.len() - i,
    {
        if let Some(known) = &table[i].nf {
            if same_bytes(known.as_slice(), nf) {
                assert(notes[i as int].nf == Some(nf@));
                return true;
            }
        }
        i = i + 1;
    }
    false
}

/// The value of the notes that are the account's and unspent.
pub open spec fn unspent_notes_value(notes: Seq<NoteRecordView>) -> nat
    decreases notes.len(),
{
    if notes.len() == 0 {
        0
    } else {
        unspent_notes_value(notes.drop_last()) + if notes.last().spent_height is None
            && !notes.last().is_sent {
            notes.last().value as nat
        } else {
            0
        }
    }
}

/// The value of the transparent outputs that are unspent.
pub open spec fn unspent_outputs_value(outputs: Seq<OutputRecordView>) -> nat
    decreases outputs.len(),
{
    if outputs.len() == 0 {
        0
    } else {
        unspent_outputs_value(outputs.drop_last()) + if outputs.last().spent_height is None {
            outputs.last().value as nat
        } else {
            0
        }
    }
}

/// Some of the notes are worth no more than all.
proof fn lemma_unspent_notes(notes: Seq<NoteRecordView>, n: int)
    requires
        0 <= n < notes.len(),
    ensures
        unspent_notes_value(notes.take(n + 1)) == unspent_notes_value(notes.take(n)) + if notes[n].spent_height is None
            && !notes[n].is_sent {
            notes[n].value as nat
        } else {
            0
        },
        unspent_notes_value(notes.take(n + 1)) <= unspent_notes_value(notes),
    decreases notes.len() - n,
{
    assert(notes.take(n + 1).drop_last() =~= notes.take(n));
    if n + 1 < notes.len() {
        lemma_unspent_notes(notes, n + 1);
    } else {
        assert(notes.take(n + 1) =~= notes);
    }
}

/// Some of the outputs are worth no more than all.
proof fn lemma_unspent_outputs(outputs: Seq<OutputRecordView>, n: int)
    requires
        0 <= n < outputs.len(),
    ensures
        unspent_outputs_value(outputs.take(n + 1)) == unspent_outputs_value(outputs.take(n))
            + if outputs[n].spent_height is None {
            outputs[n].value as nat
        } else {
            0
        },
        unspent_outputs_value(outputs.take(n + 1)) <= unspent_outputs_value(outputs),
    decreases outputs.len() - n,
{
    assert(outputs.take(n + 1).drop_last() =~= outputs.take(n));
    if n + 1 < outputs.len() {
        lemma_unspent_outputs(outputs, n + 1);
    } else {
        assert(outputs.take(n + 1) =~= outputs);
    }
}

/// Adds up the notes that are the account's and unspent.
fn sum_notes(table: &Vec<NoteRecord>) -> (total: u64)
    requires
        unspent_notes_value(record_views(table@)) <= MAX_MONEY,
    ensures
        total == unspent_notes_value(record_views(table@)),
{
    let ghost notes = record_views(table@);
    let mut total: u64 = 0;
    let mut i: usize = 0;
    assert(notes.take(0) =~= Seq::empty());
    while i < table.len()
        invariant
            0 <= i <= table.len(),
            notes == record_views(table@),
            unspent_notes_value(notes) <= MAX_MONEY,
            total == unspent_notes_value(notes.take(i as int)),
        decreases table.len() - i,
    {
        proof {
            lemma_unspent_notes(notes, i as int);
        }
        if table[i].spent_height.is_none() && !table[i].is_sent {
            total = total + table[i].value;
        }
        i = i + 1;
    }
    assert(notes.take(i as int) =~= notes);
    zatoshis(total).unwrap()
}

/// Adds up the transparent outputs that are unspent.
fn sum_outputs(table: &Vec<OutputRecord>) -> (total: u64)
    requires
        unspent_outputs_value(output_views(table@)) <= MAX_MONEY,
    ensures
        total == unspent_outputs_value(output_views(table@)),
{
    let ghost outputs = output_views(table@);
    let mut total: u64 = 0;
    let mut i: usize = 0;
    assert(outputs.take(0) =~= Seq::empty());
    while i < table.len()
        invariant
            0 <= i <= table.len(),
            outputs == output_views(table@),
            unspent_outputs_value(outputs) <= MAX_MONEY,
            total == unspent_outputs_value(outputs.take(i as int)),
        decreases table.len() - i,
    {
        proof {
            lemma_unspent_outputs(outputs, i as int);
        }
        if table[i].spent_height.is_none() {
            total = total + table[i].value;
        }
        i = i + 1;
    }
    assert(outputs.take(i as int) =~= outputs);
    zatoshis(total).unwrap()
}

impl Db {
    /// Inserts a Sapling note, unless the store holds that output already.
    pub fn insert_sapling_note(&mut self, n: &SaplingNoteInsert<'_>) -> (result: Result<(), StoreError>)
        ensures
            ({
                let outcome = insertion(
                    old(self)@.sapling,
                    old(self)@.transactions,
                    sapling_record(*n),
                );
                &&& final(self)@ == (StoreView {
                    sapling: after_insertion(old(self)@.sapling, outcome),
                    ..old(self)@
                })
                &&& result is Ok == outcome is Ok
                &&& result matches Err(e) ==> outcome == Err::<Seq<NoteRecordView>, StoreError>(e)
            }),
            old(self)@.wf() ==> final(self)@.wf(),
    {
        let row = NoteRecord {
            transaction_id: n.transaction_id,
            index: n.output_index,
            diversifier: slice_bytes(n.diversifier),
            value: n.value,
            rho: Vec::new(),
            rseed: slice_bytes(n.rcm),
            nf: copy_opt(&n.nf),
            memo: copy_opt(&n.memo),
            position: n.commitment_tree_position,
            spent_height: None,
            spent_txid: None,
            is_sent: n.is_sent,
            recipient: copy_str(&n.recipient_address),
        };
        proof {
            assert(row@.rho =~= Seq::empty());
            if self@.wf() {
                lemma_insertion_wf(self@.sapling, self@.transactions, sapling_record(*n));
            }
        }
        insert_record(&mut self.sapling, &self.transactions, row)
    }

    /// Inserts an Orchard note, unless the store holds that action already.
    pub fn insert_orchard_note(&mut self, n: &OrchardNoteInsert<'_>) -> (result: Result<(), StoreError>)
        ensures
            ({
                let outcome = insertion(
                    old(self)@.orchard,
                    old(self)@.transactions,
                    orchard_record(*n),
                );
                &&& final(self)@ == (StoreView {
                    orchard: after_insertion(old(self)@.orchard, outcome),
                    ..old(self)@
                })
                &&& result is Ok == outcome is Ok
                &&& result matches Err(e) ==> outcome == Err::<Seq<NoteRecordView>, StoreError>(e)
            }),
            old(self)@.wf() ==> final(self)@.wf(),
    {
        let row = NoteRecord {
            transaction_id: n.transaction_id,
            index: n.action_index,
            diversifier: slice_bytes(n.diversifier),
            value: n.value,
            rho: slice_bytes(n.rho),
            rseed: slice_bytes(n.rseed),
            nf: copy_opt(&n.nf),
            memo: copy_opt(&n.memo),
            position: n.commitment_tree_position,
            spent_height: None,
            spent_txid: None,
            is_sent: n.is_sent,
            recipient: copy_str(&n.recipient_address),
        };
        proof {
            if self@.wf() {
                lemma_insertion_wf(self@.orchard, self@.transactions, orchard_record(*n));
            }
        }
        insert_record(&mut self.orchard, &self.transactions, row)
    }

    /// Records that a nullifier was seen spent: every note of the pool that has it is
    /// spent by the transaction. Tells how many they are.
    pub fn mark_spent(&mut self, pool: Pool, nf: &[u8], height: u32, txid: &[u8; 32]) -> (count: usize)
        ensures
            count == count_nullifier(old(self)@.notes_in(pool), nf@),
            final(self)@ == match pool {
                Pool::Sapling => StoreView {
                    sapling: records_spent(old(self)@.sapling, nf@, height, *txid),
                    ..old(self)@
                },
                Pool::Orchard => StoreView {
                    orchard: records_spent(old(self)@.orchard, nf@, height, *txid),
                    ..old(self)@
                },
            },
            old(self)@.wf() ==> final(self)@.wf(),
    {
        proof {
            if self@.wf() {
                lemma_spent_wf(self@.sapling, self@.transactions, nf@, height, *txid);
                lemma_spent_wf(self@.orchard, self@.transactions, nf@, height, *txid);
            }
        }
        match pool {
            Pool::Sapling => mark_records(&mut self.sapling, nf, height, txid),
            Pool::Orchard => mark_records(&mut self.orchard, nf, height, txid),
        }
    }

    /// Whether a note of the pool has the nullifier.
    pub fn owns_nf(&self, pool: Pool, nf: &[u8]) -> (owned: bool)
        ensures
            owned == has_nullifier(self@.notes_in(pool), nf@),
    {
        match pool {
            Pool::Sapling => owns_record(&self.sapling, nf),
            Pool::Orchard => owns_record(&self.orchard, nf),
        }
    }

    /// The unspent value in each pool. Notes that were sent to others do not count.
    pub fn balance(&self) -> (balance: PoolBalance)
        requires
            unspent_notes_value(self@.sapling) <= MAX_MONEY,
            unspent_notes_value(self@.orchard) <= MAX_MONEY,
            unspent_outputs_value(self@.outputs) <= MAX_MONEY,
        ensures
            balance.sapling == unspent_notes_value(self@.sapling),
            balance.orchard == unspent_notes_value(self@.orchard),
            balance.transparent == unspent_outputs_value(self@.outputs),
    {
        PoolBalance {
            orchard: sum_notes(&self.orchard),
            sapling: sum_notes(&self.sapling),
            transparent: sum_outputs(&self.outputs),
        }
    }
}

/// Marking keeps a note table well formed.
proof fn lemma_spent_wf(
    notes: Seq<NoteRecordView>,
    txs: Seq<TxRecord>,
    nf: Seq<u8>,
    height: u32,
    txid: [u8; 32],
)
    requires
        records_wf(notes, txs),
    ensures
        records_wf(records_spent(notes, nf, height, txid), txs),
{
    let after = records_spent(notes, nf, height, txid);
    assert forall|i: int| 0 <= i < after.len() implies has_row(
        txs,
        (#[trigger] after[i]).transaction_id,
    ) by {
        assert(has_row(txs, notes[i].transaction_id));
    }
    assert forall|i: int, j: int| 0 <= i < j < after.len() implies !same_output(
        #[trigger] after[i],
        #[trigger] after[j],
    ) && (after[i].nf is Some ==> after[i].nf != after[j].nf) by {
        assert(!same_output(notes[i], notes[j]));
    }
}

/// Whether two rows are the same transparent output.
pub open spec fn same_place(a: OutputRecordView, b: OutputRecordView) -> bool {
    a.transaction_id == b.transaction_id && a.output_index == b.output_index
}

/// The transparent outputs after one was seen unspent: it is added, or its spend is
/// undone.
pub open spec fn revived(outputs: Seq<OutputRecordView>, row: OutputRecordView) -> Seq<OutputRecordView> {
    if exists|i: int| 0 <= i < outputs.len() && same_place(#[trigger] outputs[i], row) {
        outputs.map_values(
            |o: OutputRecordView|
                if same_place(o, row) {
                    OutputRecordView { spent_height: None, ..o }
                } else {
                    o
                },
        )
    } else {
        outputs.push(row)
    }
}

/// Adds a transparent output, or undoes its spend.
fn revive_output(table: &mut Vec<OutputRecord>, row: OutputRecord)
    ensures
        output_views(final(table)@) == revived(output_views(old(table)@), row@),
{
    let ghost outputs = output_views(table@);
    let mut found = false;
    let mut i: usize = 0;
    while i < table.len()
        invariant
            0 <= i <= table.len(),
            table.len() == outputs.len(),
            found == exists|j: int| 0 <= j < i && same_place(#[trigger] outputs[j], row@),
            forall|j: int|
                0 <= j < i ==> (#[trigger] table[j])@ == (if same_place(outputs[j], row@) {
                    OutputRecordView { spent_height: None, ..outputs[j] }
                } else {
                    outputs[j]
                }),
            forall|j: int| i <= j < table.len() ==> (#[trigger] table[j])@ == outputs[j],
        decreases table.len() - i,
    {
        assert(table[i as int]@ == outputs[i as int]);
        if table[i].transaction_id == row.transaction_id && table[i].output_index == row.output_index {
            assert(same_place(outputs[i as int], row@));
            let known = &mut table[i];
            known.spent_height = None;
            found = true;
        }
        i = i + 1;
    }
    if found {
        assert(output_views(table@) =~= revived(outputs, row@));
    } else {
        assert(output_views(table@) =~= outputs);
        let ghost rows = table@;
        table.push(row);
        assert(output_views(table@) =~= output_views(rows).push(row@));
    }
}

/// The row that an unspent transparent output is stored as.
pub open spec fn utxo_record(id: i64, u: UtxoView) -> OutputRecordView {
    OutputRecordView {
        transaction_id: id,
        output_index: u.index,
        address: u.address,
        script: u.script,
        value: u.value_zat,
        spent_height: None,
        spent_txid: None,
    }
}

/// The store after one transparent output was seen unspent.
pub open spec fn utxo_seen(store: StoreView, u: UtxoView) -> StoreView {
    let (transactions, id) = upserted_tx(store.transactions, u.txid, Some(u.height), None);
    StoreView { transactions, outputs: revived(store.outputs, utxo_record(id, u)), ..store }
}

/// The store after several transparent outputs were seen unspent.
pub open spec fn utxos_seen(store: StoreView, utxos: Seq<UtxoView>) -> StoreView
    decreases utxos.len(),
{
    if utxos.len() == 0 {
        store
    } else {
        utxo_seen(utxos_seen(store, utxos.drop_last()), utxos.last())
    }
}

/// Each output seen takes at most one new row.
pub proof fn lemma_rows_grow(store: StoreView, utxos: Seq<UtxoView>)
    ensures
        max_row(utxos_seen(store, utxos).transactions) <= max_row(store.transactions) + utxos.len(),
    decreases utxos.len(),
{
    if utxos.len() > 0 {
        lemma_rows_grow(store, utxos.drop_last());
        let before = utxos_seen(store, utxos.drop_last()).transactions;
        let u = utxos.last();
        lemma_upsert_row(before, u.txid, Some(u.height), None);
    }
}

/// Recording a transaction takes at most one new row.
pub proof fn lemma_upsert_row(
    txs: Seq<TxRecord>,
    txid: [u8; 32],
    height: Option<u32>,
    tx_index: Option<u32>,
)
    ensures
        max_row(upserted_tx(txs, txid, height, tx_index).0) <= max_row(txs) + 1,
{
    lemma_max_row(txs);
    let after = upserted_tx(txs, txid, height, tx_index).0;
    match find_tx(txs, txid) {
        Some(k) => {
            lemma_find_bound(txs, txid);
            lemma_same_rows(txs, after);
        },
        None => {
            assert(after.drop_last() =~= txs);
        },
    }
}

/// The position that a search finds is one.
proof fn lemma_find_bound(txs: Seq<TxRecord>, txid: [u8; 32])
    ensures
        find_tx(txs, txid) matches Some(k) ==> 0 <= k < txs.len() && txs[k].txid == txid,
    decreases txs.len(),
{
    if txs.len() > 0 {
        lemma_find_bound(txs.drop_last(), txid);
    }
}

/// Transactions with the same rows have the same largest row.
proof fn lemma_same_rows(a: Seq<TxRecord>, b: Seq<TxRecord>)
    requires
        a.len() == b.len(),
        forall|i: int| 0 <= i < a.len() ==> (#[trigger] a[i]).id == b[i].id,
    ensures
        max_row(a) == max_row(b),
    decreases a.len(),
{
    if a.len() > 0 {
        assert forall|i: int| 0 <= i < a.len() - 1 implies (#[trigger] a.drop_last()[i]).id
            == b.drop_last()[i].id by {
            assert(a[i].id == b[i].id);
        }
        lemma_same_rows(a.drop_last(), b.drop_last());
        assert(a[a.len() - 1].id == b[a.len() - 1].id);
    }
}

/// The transaction with the given row.
pub open spec fn tx_by_row(txs: Seq<TxRecord>, id: i64) -> Option<TxRecord>
    decreases txs.len(),
{
    if txs.len() == 0 {
        None
    } else {
        match tx_by_row(txs.drop_last(), id) {
            Some(tx) => Some(tx),
            None => if txs.last().id == id {
                Some(txs.last())
            } else {
                None
            },
        }
    }
}

/// The lookup finds the first transaction with the row.
pub proof fn lemma_tx_by_row(txs: Seq<TxRecord>, id: i64, k: int)
    requires
        0 <= k <= txs.len(),
        forall|j: int| 0 <= j < k ==> (#[trigger] txs[j]).id != id,
        k < txs.len() ==> txs[k].id == id,
    ensures
        tx_by_row(txs, id) == if k < txs.len() {
            Some(txs[k])
        } else {
            None
        },
    decreases txs.len(),
{
    if txs.len() > 0 {
        let init = txs.drop_last();
        assert forall|j: int| 0 <= j < k && j < init.len() implies (#[trigger] init[j]).id != id by {
            assert(init[j] == txs[j]);
        }
        if k == txs.len() {
            lemma_tx_by_row(init, id, k - 1);
        } else {
            lemma_tx_by_row(init, id, k);
        }
    }
}

/// Looks up the transaction with the given row.
pub(crate) fn lookup_tx(txs: &Vec<TxRecord>, id: i64) -> (tx: Option<TxRecord>)
    ensures
        tx == tx_by_row(txs@, id),
{
    let mut k: usize = 0;
    while k < txs.len()
        invariant
            0 <= k <= txs.len(),
            forall|j: int| 0 <= j < k ==> (#[trigger] txs@[j]).id != id,
        decreases txs.len() - k,
    {
        if txs[k].id == id {
            proof {
                lemma_tx_by_row(txs@, id, k as int);
            }
            return Some(txs[k]);
        }
        k = k + 1;
    }
    proof {
        lemma_tx_by_row(txs@, id, k as int);
    }
    None
}

/// Whether the outputs hold the one at an index of a transaction.
pub open spec fn in_snapshot(utxos: Seq<UtxoView>, txid: [u8; 32], index: u32) -> bool {
    exists|i: int|
        0 <= i < utxos.len() && (#[trigger] utxos[i]).txid == txid && utxos[i].index == index
}

/// Whether the outputs hold the one at an index of a transaction.
fn snapshot_holds(utxos: &Vec<TransparentUtxo>, txid: &[u8; 32], index: u32) -> (found: bool)
    ensures
        found == in_snapshot(utxo_views(utxos@), *txid, index),
{
    let ghost views = utxo_views(utxos@);
    let mut i: usize = 0;
    while i < utxos.len()
        invariant
            0 <= i <= utxos.len(),
            views == utxo_views(utxos@),
            forall|j: int|
                0 <= j < i ==> !((#[trigger] views[j]).txid == *txid && views[j].index == index),
        decreases utxos.len() - i,
    {
        if utxos[i].index == index && same32(&utxos[i].txid, txid) {
            assert(views[i as int].txid == *txid);
            return true;
        }
        i = i + 1;
    }
    false
}

/// A transparent output after a snapshot of all unspent ones: where it was unspent and is
/// not among them, it was spent by then.
pub open spec fn reconciled(
    o: OutputRecordView,
    txs: Seq<TxRecord>,
    utxos: Seq<UtxoView>,
    as_of: u32,
) -> OutputRecordView {
    match tx_by_row(txs, o.transaction_id) {
        Some(tx) => if o.spent_height is None && !in_snapshot(utxos, tx.txid, o.output_index) {
            OutputRecordView { spent_height: Some(as_of), ..o }
        } else {
            o
        },
        None => o,
    }
}

/// The store after a snapshot of all unspent transparent outputs.
pub open spec fn snapshot_applied(store: StoreView, utxos: Seq<UtxoView>, as_of: u32) -> StoreView {
    let seen = utxos_seen(store, utxos);
    StoreView {
        outputs: seen.outputs.map_values(
            |o: OutputRecordView| reconciled(o, seen.transactions, utxos, as_of),
        ),
        ..seen
    }
}

/// Seeing outputs unspent keeps the store well formed.
pub proof fn lemma_seen_wf(store: StoreView, utxos: Seq<UtxoView>)
    requires
        store.wf(),
        max_row(store.transactions) + utxos.len() < i64::MAX,
    ensures
        utxos_seen(store, utxos).wf(),
    decreases utxos.len(),
{
    if utxos.len() > 0 {
        let init = utxos.drop_last();
        let u = utxos.last();
        lemma_seen_wf(store, init);
        lemma_rows_grow(store, init);
        let before = utxos_seen(store, init);
        lemma_store_upsert(before, u.txid, Some(u.height), None);
        let (txs, id) = upserted_tx(before.transactions, u.txid, Some(u.height), None);
        let row = utxo_record(id, u);
        let after = revived(before.outputs, row);
        assert forall|i: int| 0 <= i < after.len() implies has_row(
            txs,
            (#[trigger] after[i]).transaction_id,
        ) by {
            if i < before.outputs.len() {
                assert(has_row(txs, before.outputs[i].transaction_id));
            }
        }
        assert forall|i: int, j: int| 0 <= i < j < after.len() implies !((
        #[trigger] after[i]).transaction_id == (#[trigger] after[j]).transaction_id
            && after[i].output_index == after[j].output_index) by {
            if j < before.outputs.len() {
                assert(!(before.outputs[i].transaction_id == before.outputs[j].transaction_id
                    && before.outputs[i].output_index == before.outputs[j].output_index));
            } else {
                assert(!same_place(before.outputs[i], row));
            }
        }
    }
}

impl Db {
    /// Records one transparent output as unspent.
    fn see_utxo(&mut self, u: &TransparentUtxo)
        requires
            max_row(old(self)@.transactions) < i64::MAX,
        ensures
            final(self)@ == utxo_seen(
                old(self)@,
                UtxoView {
                    address: u.address@,
                    txid: u.txid,
                    index: u.index,
                    script: u.script@,
                    value_zat: u.value_zat,
                    height: u.height,
                },
            ),
    {
        let id = self.upsert_transaction(&u.txid, Some(u.height), None);
        revive_output(
            &mut self.outputs,
            OutputRecord {
                transaction_id: id,
                output_index: u.index,
                address: u.address.clone(),
                script: copy_bytes(&u.script),
                value: u.value_zat,
                spent_height: None,
                spent_txid: None,
            },
        );
    }

    /// Reconciles the transparent outputs with a snapshot of all unspent ones. Those in it
    /// are recorded as unspent; one that was unspent and is not in it was spent, and is
    /// recorded as spent at `as_of`, the height of the snapshot.
    pub fn apply_transparent_snapshot(&mut self, utxos: &Vec<TransparentUtxo>, as_of: u32)
        requires
            max_row(old(self)@.transactions) + utxos.len() < i64::MAX,
        ensures
            final(self)@ == snapshot_applied(old(self)@, utxo_views(utxos@), as_of),
            old(self)@.wf() ==> final(self)@.wf(),
    {
        let ghost views = utxo_views(utxos@);
        let mut i: usize = 0;
        assert(views.take(0) =~= Seq::empty());
        while i < utxos.len()
            invariant
                0 <= i <= utxos.len(),
                views == utxo_views(utxos@),
                max_row(old(self)@.transactions) + utxos.len() < i64::MAX,
                self@ == utxos_seen(old(self)@, views.take(i as int)),
            decreases utxos.len() - i,
        {
            proof {
                assert(views.take(i as int + 1).drop_last() =~= views.take(i as int));
                lemma_rows_grow(old(self)@, views.take(i as int));
            }
            self.see_utxo(&utxos[i]);
            i = i + 1;
        }
        assert(views.take(i as int) =~= views);
        let ghost seen = self@;
        let mut k: usize = 0;
        while k < self.outputs.len()
            invariant
                0 <= k <= self.outputs.len(),
                views == utxo_views(utxos@),
                self@ == (StoreView { outputs: self@.outputs, ..seen }),
                self.outputs.len() == seen.outputs.len(),
                forall|j: int|
                    0 <= j < k ==> (#[trigger] self.outputs[j])@ == reconciled(
                        seen.outputs[j],
                        seen.transactions,
                        views,
                        as_of,
                    ),
                forall|j: int|
                    k <= j < self.outputs.len() ==> (#[trigger] self.outputs[j])@ == seen.outputs[j],
            decreases self.outputs.len() - k,
        {
            assert(self.outputs[k as int]@ == seen.outputs[k as int]);
            if self.outputs[k].spent_height.is_none() {
                if let Some(tx) = lookup_tx(&self.transactions, self.outputs[k].transaction_id) {
                    if !snapshot_holds(utxos, &tx.txid, self.outputs[k].output_index) {
                        let row = &mut self.outputs[k];
                        row.spent_height = Some(as_of);
                    }
                }
            }
            k = k + 1;
        }
        proof {
            assert(self@.outputs =~= snapshot_applied(old(self)@, views, as_of).outputs);
            if old(self)@.wf() {
                lemma_seen_wf(old(self)@, views);
                lemma_reconciled_wf(seen, views, as_of);
            }
        }
    }
}

/// Reconciling keeps the transparent outputs well formed.
proof fn lemma_reconciled_wf(seen: StoreView, utxos: Seq<UtxoView>, as_of: u32)
    requires
        seen.wf(),
    ensures
        outputs_wf(
            seen.outputs.map_values(
                |o: OutputRecordView| reconciled(o, seen.transactions, utxos, as_of),
            ),
            seen.transactions,
        ),
{
    let after = seen.outputs.map_values(
        |o: OutputRecordView| reconciled(o, seen.transactions, utxos, as_of),
    );
    assert forall|i: int| 0 <= i < after.len() implies has_row(
        seen.transactions,
        (#[trigger] after[i]).transaction_id,
    ) by {
        assert(has_row(seen.transactions, seen.outputs[i].transaction_id));
    }
    assert forall|i: int, j: int| 0 <= i < j < after.len() implies !((
    #[trigger] after[i]).transaction_id == (#[trigger] after[j]).transaction_id
        && after[i].output_index == after[j].output_index) by {
        assert(!(seen.outputs[i].transaction_id == seen.outputs[j].transaction_id
            && seen.outputs[i].output_index == seen.outputs[j].output_index));
    }
}

/// Whether a transaction is undone by a rewind to a height.
pub open spec fn tx_undone(tx: TxRecord, height: u32) -> bool {
    tx.mined_height matches Some(h) && h > height
}

/// Whether a row belongs to a transaction that is undone by a rewind to a height.
pub open spec fn row_undone(txs: Seq<TxRecord>, id: i64, height: u32) -> bool {
    exists|i: int| 0 <= i < txs.len() && (#[trigger] txs[i]).id == id && tx_undone(txs[i], height)
}

/// Whether a height lies above another.
pub open spec fn lies_above(at: Option<u32>, height: u32) -> bool {
    at matches Some(h) && h > height
}

/// A note after a rewind: gone with its transaction, and unspent again where it was spent
/// above the height.
pub open spec fn rewound_record(n: NoteRecordView, txs: Seq<TxRecord>, height: u32) -> Option<
    NoteRecordView,
> {
    if row_undone(txs, n.transaction_id, height) {
        None
    } else if lies_above(n.spent_height, height) {
        Some(NoteRecordView { spent_height: None, spent_txid: None, ..n })
    } else {
        Some(n)
    }
}

/// A transparent output after a rewind.
pub open spec fn rewound_output(o: OutputRecordView, txs: Seq<TxRecord>, height: u32) -> Option<
    OutputRecordView,
> {
    if row_undone(txs, o.transaction_id, height) {
        None
    } else if lies_above(o.spent_height, height) {
        Some(OutputRecordView { spent_height: None, ..o })
    } else {
        Some(o)
    }
}

/// The store after a rewind: the transactions mined above the height are gone with all
/// that they made, what was spent above it is unspent, and the chain is synced up to it
/// with no hash known.
pub open spec fn rewound_store(store: StoreView, height: u32) -> StoreView {
    StoreView {
        birthday: store.birthday,
        sync: Some((height, None)),
        transactions: collect_some(
            store.transactions.map_values(
                |t: TxRecord|
                    if tx_undone(t, height) {
                        None
                    } else {
                        Some(t)
                    },
            ),
        ),
        sapling: collect_some(
            store.sapling.map_values(
                |n: NoteRecordView| rewound_record(n, store.transactions, height),
            ),
        ),
        orchard: collect_some(
            store.orchard.map_values(
                |n: NoteRecordView| rewound_record(n, store.transactions, height),
            ),
        ),
        outputs: collect_some(
            store.outputs.map_values(
                |o: OutputRecordView| rewound_output(o, store.transactions, height),
            ),
        ),
    }
}

/// Whether a row belongs to a transaction that is undone by a rewind to a height.
fn is_row_undone(txs: &Vec<TxRecord>, id: i64, height: u32) -> (undone: bool)
    ensures
        undone == row_undone(txs@, id, height),
{
    let mut i: usize = 0;
    while i < txs.len()
        invariant
            0 <= i <= txs.len(),
            forall|j: int| 0 <= j < i ==> !((#[trigger] txs@[j]).id == id && tx_undone(txs@[j], height)),
        decreases txs.len() - i,
    {
        if txs[i].id == id {
            if let Some(h) = txs[i].mined_height {
                if h > height {
                    assert(txs@[i as int].id == id && tx_undone(txs@[i as int], height));
                    return true;
                }
            }
        }
        i = i + 1;
    }
    false
}

/// Undoes what a note table records above a height.
fn rewind_records(table: &mut Vec<NoteRecord>, txs: &Vec<TxRecord>, height: u32)
    ensures
        record_views(final(table)@) == collect_some(
            record_views(old(table)@).map_values(
                |n: NoteRecordView| rewound_record(n, txs@, height),
            ),
        ),
{
    let ghost notes = record_views(table@);
    let ghost all = notes.map_values(|n: NoteRecordView| rewound_record(n, txs@, height));
    let mut rows: Vec<NoteRecord> = Vec::new();
    core::mem::swap(&mut rows, table);
    let mut kept: Vec<NoteRecord> = Vec::new();
    let ghost mut i: int = 0;
    assert(all.take(0) =~= Seq::empty());
    assert(record_views(kept@) =~= Seq::empty());
    assert(rows@ =~= old(table)@.skip(0));
    while rows.len() > 0
        invariant
            notes == record_views(old(table)@),
            all == notes.map_values(|n: NoteRecordView| rewound_record(n, txs@, height)),
            0 <= i,
            i + rows.len() == notes.len(),
            rows@ == old(table)@.skip(i),
            record_views(kept@) == collect_some(all.take(i)),
        decreases rows.len(),
    {
        let mut row = rows.remove(0);
        assert(rows@ =~= old(table)@.skip(i + 1));
        assert(row@ == notes[i]);
        proof {
            lemma_collect_push(all.take(i), all[i]);
            assert(all.take(i + 1) =~= all.take(i).push(all[i]));
        }
        if !is_row_undone(txs, row.transaction_id, height) {
            let undo = match row.spent_height {
                Some(h) => h > height,
                None => false,
            };
            if undo {
                row.spent_height = None;
                row.spent_txid = None;
            }
            assert(Some(row@) == all[i]);
            let ghost before = kept@;
            kept.push(row);
            assert(record_views(kept@) =~= record_views(before).push(row@));
        }
        proof {
            i = i + 1;
        }
    }
    assert(all.take(i) =~= all);
    *table = kept;
}

/// Undoes what the transparent outputs record above a height.
fn rewind_outputs(table: &mut Vec<OutputRecord>, txs: &Vec<TxRecord>, height: u32)
    ensures
        output_views(final(table)@) == collect_some(
            output_views(old(table)@).map_values(
                |o: OutputRecordView| rewound_output(o, txs@, height),
            ),
        ),
{
    let ghost outputs = output_views(table@);
    let ghost all = outputs.map_values(|o: OutputRecordView| rewound_output(o, txs@, height));
    let mut rows: Vec<OutputRecord> = Vec::new();
    core::mem::swap(&mut rows, table);
    let mut kept: Vec<OutputRecord> = Vec::new();
    let ghost mut i: int = 0;
    assert(all.take(0) =~= Seq::empty());
    assert(output_views(kept@) =~= Seq::empty());
    assert(rows@ =~= old(table)@.skip(0));
    while rows.len() > 0
        invariant
            outputs == output_views(old(table)@),
            all == outputs.map_values(|o: OutputRecordView| rewound_output(o, txs@, height)),
            0 <= i,
            i + rows.len() == outputs.len(),
            rows@ == old(table)@.skip(i),
            output_views(kept@) == collect_some(all.take(i)),
        decreases rows.len(),
    {
        let mut row = rows.remove(0);
        assert(rows@ =~= old(table)@.skip(i + 1));
        assert(row@ == outputs[i]);
        proof {
            lemma_collect_push(all.take(i), all[i]);
            assert(all.take(i + 1) =~= all.take(i).push(all[i]));
        }
        if !is_row_undone(txs, row.transaction_id, height) {
            let undo = match row.spent_height {
                Some(h) => h > height,
                None => false,
            };
            if undo {
                row.spent_height = None;
            }
            assert(Some(row@) == all[i]);
            let ghost before = kept@;
            kept.push(row);
            assert(output_views(kept@) =~= output_views(before).push(row@));
        }
        proof {
            i = i + 1;
        }
    }
    assert(all.take(i) =~= all);
    *table = kept;
}

/// A row that is not undone is still there after a rewind.
proof fn lemma_row_kept(txs: Seq<TxRecord>, id: i64, height: u32)
    requires
        has_row(txs, id),
        !row_undone(txs, id, height),
    ensures
        has_row(
            collect_some(
                txs.map_values(
                    |t: TxRecord|
                        if tx_undone(t, height) {
                            None
                        } else {
                            Some(t)
                        },
                ),
            ),
            id,
        ),
{
    let f = |t: TxRecord|
        if tx_undone(t, height) {
            None
        } else {
            Some(t)
        };
    let i = choose|i: int| 0 <= i < txs.len() && (#[trigger] txs[i]).id == id;
    assert(txs.map_values(f)[i] == Some(txs[i]));
    lemma_collect_has(txs.map_values(f), i);
    let kept = collect_some(txs.map_values(f));
    let k = choose|k: int| 0 <= k < kept.len() && kept[k] == txs[i];
    assert(kept[k].id == id);
}

/// Rewinding keeps a note table well formed.
proof fn lemma_rewound_records_wf(notes: Seq<NoteRecordView>, txs: Seq<TxRecord>, height: u32)
    requires
        records_wf(notes, txs),
    ensures
        records_wf(
            collect_some(
                notes.map_values(|n: NoteRecordView| rewound_record(n, txs, height)),
            ),
            collect_some(
                txs.map_values(
                    |t: TxRecord|
                        if tx_undone(t, height) {
                            None
                        } else {
                            Some(t)
                        },
                ),
            ),
        ),
{
    let f = |n: NoteRecordView| rewound_record(n, txs, height);
    let entries = notes.map_values(f);
    let after = collect_some(entries);
    let kept = collect_some(
        txs.map_values(
            |t: TxRecord|
                if tx_undone(t, height) {
                    None
                } else {
                    Some(t)
                },
        ),
    );
    assert forall|i: int| 0 <= i < after.len() implies has_row(
        kept,
        (#[trigger] after[i]).transaction_id,
    ) by {
        lemma_collect_from(entries, i);
        let p = choose|p: int| 0 <= p < entries.len() && #[trigger] entries[p] == Some(after[i]);
        assert(rewound_record(notes[p], txs, height) == Some(after[i]));
        assert(has_row(txs, notes[p].transaction_id));
        lemma_row_kept(txs, notes[p].transaction_id, height);
    }
    assert forall|i: int, j: int| 0 <= i < j < after.len() implies !same_output(
        #[trigger] after[i],
        #[trigger] after[j],
    ) && (after[i].nf is Some ==> after[i].nf != after[j].nf) by {
        lemma_collect_order(entries, i, j);
        let (p, q) = choose|p: int, q: int|
            0 <= p < q < entries.len() && #[trigger] entries[p] == Some(after[i])
                && #[trigger] entries[q] == Some(after[j]);
        assert(rewound_record(notes[p], txs, height) == Some(after[i]));
        assert(rewound_record(notes[q], txs, height) == Some(after[j]));
        assert(!same_output(notes[p], notes[q]));
    }
}

/// Rewinding keeps the store well formed.
proof fn lemma_rewound_store_wf(store: StoreView, height: u32)
    requires
        store.wf(),
    ensures
        rewound_store(store, height).wf(),
{
    let txs = store.transactions;
    lemma_rewound_records_wf(store.sapling, txs, height);
    lemma_rewound_records_wf(store.orchard, txs, height);
    let f = |t: TxRecord|
        if tx_undone(t, height) {
            None
        } else {
            Some(t)
        };
    let entries = txs.map_values(f);
    let kept = collect_some(entries);
    assert forall|i: int, j: int| 0 <= i < j < kept.len() implies (#[trigger] kept[i]).id != (
    #[trigger] kept[j]).id && kept[i].txid != kept[j].txid by {
        lemma_collect_order(entries, i, j);
        let (p, q) = choose|p: int, q: int|
            0 <= p < q < entries.len() && #[trigger] entries[p] == Some(kept[i])
                && #[trigger] entries[q] == Some(kept[j]);
        assert(txs[p] == kept[i] && txs[q] == kept[j]);
        assert(txs[p].id != txs[q].id);
    }
    assert forall|i: int| 0 <= i < kept.len() implies (#[trigger] kept[i]).id >= 1 by {
        lemma_collect_from(entries, i);
        let p = choose|p: int| 0 <= p < entries.len() && #[trigger] entries[p] == Some(kept[i]);
        assert(txs[p].id >= 1);
    }
    let g = |o: OutputRecordView| rewound_output(o, txs, height);
    let places = store.outputs.map_values(g);
    let outputs = collect_some(places);
    assert forall|i: int| 0 <= i < outputs.len() implies has_row(
        kept,
        (#[trigger] outputs[i]).transaction_id,
    ) by {
        lemma_collect_from(places, i);
        let p = choose|p: int| 0 <= p < places.len() && #[trigger] places[p] == Some(outputs[i]);
        assert(rewound_output(store.outputs[p], txs, height) == Some(outputs[i]));
        assert(has_row(txs, store.outputs[p].transaction_id));
        lemma_row_kept(txs, store.outputs[p].transaction_id, height);
    }
    assert forall|i: int, j: int| 0 <= i < j < outputs.len() implies !((
    #[trigger] outputs[i]).transaction_id == (#[trigger] outputs[j]).transaction_id
        && outputs[i].output_index == outputs[j].output_index) by {
        lemma_collect_order(places, i, j);
        let (p, q) = choose|p: int, q: int|
            0 <= p < q < places.len() && #[trigger] places[p] == Some(outputs[i])
                && #[trigger] places[q] == Some(outputs[j]);
        assert(rewound_output(store.outputs[p], txs, height) == Some(outputs[i]));
        assert(rewound_output(store.outputs[q], txs, height) == Some(outputs[j]));
        assert(!(store.outputs[p].transaction_id == store.outputs[q].transaction_id
            && store.outputs[p].output_index == store.outputs[q].output_index));
    }
}

impl Db {
    /// Undoes everything above a height: the transactions mined above it go with the notes
    /// and outputs that they made, and what was spent above it is unspent again.
    pub fn rewind_to_height(&mut self, height: u32)
        ensures
            final(self)@ == rewound_store(old(self)@, height),
            old(self)@.wf() ==> final(self)@.wf(),
    {
        proof {
            if self@.wf() {
                lemma_rewound_store_wf(self@, height);
            }
        }
        rewind_records(&mut self.sapling, &self.transactions, height);
        rewind_records(&mut self.orchard, &self.transactions, height);
        rewind_outputs(&mut self.outputs, &self.transactions, height);
        let ghost txs = self.transactions@;
        let ghost all = txs.map_values(
            |t: TxRecord|
                if tx_undone(t, height) {
                    None
                } else {
                    Some(t)
                },
        );
        let mut kept: Vec<TxRecord> = Vec::new();
        let mut i: usize = 0;
        assert(all.take(0) =~= Seq::empty());
        assert(kept@ =~= Seq::empty());
        while i < self.transactions.len()
            invariant
                0 <= i <= self.transactions.len(),
                txs == self.transactions@,
                all == txs.map_values(
                    |t: TxRecord|
                        if tx_undone(t, height) {
                            None
                        } else {
                            Some(t)
                        },
                ),
                kept@ == collect_some(all.take(i as int)),
            decreases self.transactions.len() - i,
        {
            proof {
                lemma_collect_push(all.take(i as int), all[i as int]);
                assert(all.take(i as int + 1) =~= all.take(i as int).push(all[i as int]));
            }
            let undone = match self.transactions[i].mined_height {
                Some(h) => h > height,
                None => false,
            };
            if !undone {
                kept.push(self.transactions[i]);
            }
            i = i + 1;
        }
        assert(all.take(i as int) =~= all);
        self.transactions = kept;
        self.sync = Some(SyncRow { height, hash: None });
    }
}

} // verus!
