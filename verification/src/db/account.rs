//! The store as an account that a sync runs against: where to resume, and what a batch
//! of findings does.

use vstd::prelude::*;

use crate::bytes::{copy_bytes, same32, to_array};
use crate::db::store::{
    copy_blob, copy_string, has_row, insertion, lemma_upsert_row, lemma_upserted_tx, lookup_tx,
    max_row, opt_string, orchard_record, output_views, outputs_wf, record_views, records_spent,
    same_place, sapling_record, tx_by_row, upserted_tx, Db, NoteRecord, NoteRecordView,
    OrchardNoteInsert, OutputRecord, OutputRecordView, Pool, SaplingNoteInsert, StoreError,
    StoreView, SyncRow, SyncState, TxRecord,
};
use crate::primitives::{OrchardNote, OutPoint, SaplingNote};
use crate::seqs::{collect_some, lemma_collect_has, lemma_collect_push};
use crate::upstream::sapling_notes::{sapling_rcm, sapling_rcm_of};

verus! {

/// A note of either pool.
#[derive(Debug, Clone, Copy, PartialEq, Eq)]
pub enum ShieldedNote {
    /// A Sapling note.
    Sapling(SaplingNote),
    /// An Orchard note.
    Orchard(OrchardNote),
}

/// A note that a scan found.
#[derive(Debug, Clone, PartialEq, Eq)]
pub struct Note {
    /// The transaction that made it.
    pub txid: [u8; 32],
    /// The height of that transaction's block.
    pub height: u32,
    /// That transaction's index in the block.
    pub tx_index: u32,
    /// The output's or action's index in that transaction.
    pub output_index: u32,
    /// The note.
    pub note: ShieldedNote,
    /// Its nullifier, where a full viewing key found it.
    pub nullifier: Option<[u8; 32]>,
    /// Its memo.
    pub memo: Option<[u8; 512]>,
    /// Whether the account sent it.
    pub is_sent: bool,
    /// The address that it was sent to.
    pub recipient: Option<String>,
}

/// A spend of one of the account's notes.
#[derive(Debug, Clone, Copy, PartialEq, Eq)]
pub struct Spend {
    /// The note's pool.
    pub pool: Pool,
    /// The note's nullifier.
    pub nf: [u8; 32],
    /// The spending transaction.
    pub txid: [u8; 32],
    /// The height of that transaction's block.
    pub height: u32,
}

/// A transparent output that pays the account.
#[derive(Debug, Clone, PartialEq, Eq)]
pub struct FoundOutput {
    /// The transaction that made it.
    pub txid: [u8; 32],
    /// The output's index in that transaction.
    pub output_index: u32,
    /// The address that it pays.
    pub address: String,
    /// The locking script.
    pub script: Vec<u8>,
    /// Value in zatoshis.
    pub value_zat: u64,
    /// The height of that transaction's block.
    pub height: u32,
}

/// A spend of one of the account's transparent outputs.
#[derive(Debug, Clone, Copy, PartialEq, Eq)]
pub struct FoundSpend {
    /// The spending transaction.
    pub txid: [u8; 32],
    /// The output that is spent.
    pub outpoint: OutPoint,
    /// The height of the spending transaction's block.
    pub height: u32,
}

/// What a scan of some blocks found.
#[derive(Debug)]
pub struct Batch {
    /// Notes received and sent.
    pub notes: Vec<Note>,
    /// Notes spent.
    pub spends: Vec<Spend>,
    /// Transparent outputs received.
    pub transparent_outputs: Vec<FoundOutput>,
    /// Transparent outputs spent.
    pub transparent_spends: Vec<FoundSpend>,
}

/// Where a sync of the store resumes.
#[derive(Debug)]
pub struct StoreResume {
    /// The earliest height that the account cares about.
    pub birthday: u32,
    /// The last position synced, if there is one.
    pub checkpoint: Option<SyncState>,
    /// The nullifiers of the unspent notes, with their pools.
    pub nullifiers: Vec<(Pool, [u8; 32])>,
    /// The unspent transparent outputs.
    pub outpoints: Vec<OutPoint>,
}

/// The row that a transaction of the batch has already been given.
pub open spec fn row_given(ids: Seq<([u8; 32], i64)>, txid: [u8; 32]) -> Option<i64>
    decreases ids.len(),
{
    if ids.len() == 0 {
        None
    } else {
        match row_given(ids.drop_last(), txid) {
            Some(id) => Some(id),
            None => if ids.last().0 == txid {
                Some(ids.last().1)
            } else {
                None
            },
        }
    }
}

/// The lookup finds the first entry.
proof fn lemma_row_given(ids: Seq<([u8; 32], i64)>, txid: [u8; 32], k: int)
    requires
        0 <= k <= ids.len(),
        forall|j: int| 0 <= j < k ==> (#[trigger] ids[j]).0 != txid,
        k < ids.len() ==> ids[k].0 == txid,
    ensures
        row_given(ids, txid) == if k < ids.len() {
            Some(ids[k].1)
        } else {
            None
        },
    decreases ids.len(),
{
    if ids.len() > 0 {
        let init = ids.drop_last();
        assert forall|j: int| 0 <= j < k && j < init.len() implies (#[trigger] init[j]).0 != txid by {
            assert(init[j] == ids[j]);
        }
        if k == ids.len() {
            lemma_row_given(init, txid, k - 1);
        } else {
            lemma_row_given(init, txid, k);
        }
    }
}

/// The state while a batch is applied: the store, and the rows given so far.
pub struct ApplyState {
    /// The store.
    pub store: StoreView,
    /// The rows given so far.
    pub ids: Seq<([u8; 32], i64)>,
}

/// The row of a transaction: the one given before, or else the one that recording it
/// gives.
pub open spec fn with_row(
    state: ApplyState,
    txid: [u8; 32],
    height: u32,
    tx_index: Option<u32>,
) -> (ApplyState, i64) {
    match row_given(state.ids, txid) {
        Some(id) => (state, id),
        None => {
            let (transactions, id) = upserted_tx(
                state.store.transactions,
                txid,
                Some(height),
                tx_index,
            );
            (
                ApplyState {
                    store: StoreView { transactions, ..state.store },
                    ids: state.ids.push((txid, id)),
                },
                id,
            )
        },
    }
}

/// The row that a note is stored as, where its parts are a note.
pub open spec fn note_record(note: Note, id: i64, position: Option<u64>) -> Option<NoteRecordView> {
    let nf = match note.nullifier {
        Some(nf) => Some(nf@),
        None => None,
    };
    let memo = match note.memo {
        Some(memo) => Some(memo@),
        None => None,
    };
    match note.note {
        ShieldedNote::Orchard(n) => Some(
            NoteRecordView {
                transaction_id: id,
                index: note.output_index,
                diversifier: n.recipient@.take(11),
                value: n.value,
                rho: n.rho@,
                rseed: n.rseed@,
                nf,
                memo,
                position,
                spent_height: None,
                spent_txid: None,
                is_sent: note.is_sent,
                recipient: opt_string(note.recipient),
            },
        ),
        ShieldedNote::Sapling(n) => match sapling_rcm_of(n) {
            Some(rcm) => Some(
                NoteRecordView {
                    transaction_id: id,
                    index: note.output_index,
                    diversifier: n.recipient@.take(11),
                    value: n.value,
                    rho: Seq::empty(),
                    rseed: rcm@,
                    nf,
                    memo,
                    position,
                    spent_height: None,
                    spent_txid: None,
                    is_sent: note.is_sent,
                    recipient: opt_string(note.recipient),
                },
            ),
            None => None,
        },
    }
}

/// The store after a note was stored as an output of the transaction with a row.
pub open spec fn note_inserted(
    store: StoreView,
    note: Note,
    id: i64,
    position: Option<u64>,
) -> Result<StoreView, StoreError> {
    match note_record(note, id, position) {
        None => Err(StoreError::InvalidNote),
        Some(row) => match note.note {
            ShieldedNote::Sapling(_) => match insertion(store.sapling, store.transactions, row) {
                Ok(sapling) => Ok(StoreView { sapling, ..store }),
                Err(e) => Err(e),
            },
            ShieldedNote::Orchard(_) => match insertion(store.orchard, store.transactions, row) {
                Ok(orchard) => Ok(StoreView { orchard, ..store }),
                Err(e) => Err(e),
            },
        },
    }
}

/// The state after a note of a batch was stored.
pub open spec fn note_applied(state: ApplyState, note: Note) -> Result<ApplyState, StoreError> {
    let (given, id) = with_row(state, note.txid, note.height, Some(note.tx_index));
    match note_inserted(given.store, note, id, None) {
        Ok(store) => Ok(ApplyState { store, ids: given.ids }),
        Err(e) => Err(e),
    }
}

/// The state after the notes of a batch were stored, up to the first error.
pub open spec fn notes_applied(state: ApplyState, notes: Seq<Note>) -> Result<ApplyState, StoreError>
    decreases notes.len(),
{
    if notes.len() == 0 {
        Ok(state)
    } else {
        match notes_applied(state, notes.drop_last()) {
            Ok(before) => note_applied(before, notes.last()),
            Err(e) => Err(e),
        }
    }
}

/// The state after a spend of a batch was recorded.
pub open spec fn spend_applied(state: ApplyState, spend: Spend) -> ApplyState {
    let (given, _) = with_row(state, spend.txid, spend.height, None);
    let store = match spend.pool {
        Pool::Sapling => StoreView {
            sapling: records_spent(given.store.sapling, spend.nf@, spend.height, spend.txid),
            ..given.store
        },
        Pool::Orchard => StoreView {
            orchard: records_spent(given.store.orchard, spend.nf@, spend.height, spend.txid),
            ..given.store
        },
    };
    ApplyState { store, ids: given.ids }
}

/// The state after the spends of a batch were recorded.
pub open spec fn spends_applied(state: ApplyState, spends: Seq<Spend>) -> ApplyState
    decreases spends.len(),
{
    if spends.len() == 0 {
        state
    } else {
        spend_applied(spends_applied(state, spends.drop_last()), spends.last())
    }
}

/// The transparent outputs after one was received: unchanged where it is there already.
pub open spec fn received(outputs: Seq<OutputRecordView>, row: OutputRecordView) -> Seq<OutputRecordView> {
    if exists|i: int| 0 <= i < outputs.len() && same_place(#[trigger] outputs[i], row) {
        outputs
    } else {
        outputs.push(row)
    }
}

/// The state after a transparent output of a batch was recorded.
pub open spec fn output_applied(state: ApplyState, output: FoundOutput) -> ApplyState {
    let (given, id) = with_row(state, output.txid, output.height, None);
    ApplyState {
        store: StoreView {
            outputs: received(
                given.store.outputs,
                OutputRecordView {
                    transaction_id: id,
                    output_index: output.output_index,
                    address: output.address@,
                    script: output.script@,
                    value: output.value_zat,
                    spent_height: None,
                    spent_txid: None,
                },
            ),
            ..given.store
        },
        ids: given.ids,
    }
}

/// The state after the transparent outputs of a batch were recorded.
pub open spec fn outputs_applied(state: ApplyState, outputs: Seq<FoundOutput>) -> ApplyState
    decreases outputs.len(),
{
    if outputs.len() == 0 {
        state
    } else {
        output_applied(outputs_applied(state, outputs.drop_last()), outputs.last())
    }
}

/// A transparent output after a spend was seen: spent where it is the one.
pub open spec fn output_spent(
    o: OutputRecordView,
    txs: Seq<TxRecord>,
    spend: FoundSpend,
) -> OutputRecordView {
    match tx_by_row(txs, o.transaction_id) {
        Some(tx) => if tx.txid == spend.outpoint.hash && o.output_index == spend.outpoint.n {
            OutputRecordView {
                spent_height: Some(spend.height),
                spent_txid: Some(spend.txid),
                ..o
            }
        } else {
            o
        },
        None => o,
    }
}

/// The state after a transparent spend of a batch was recorded.
pub open spec fn transparent_spend_applied(state: ApplyState, spend: FoundSpend) -> ApplyState {
    let (given, _) = with_row(state, spend.txid, spend.height, None);
    ApplyState {
        store: StoreView {
            outputs: given.store.outputs.map_values(
                |o: OutputRecordView| output_spent(o, given.store.transactions, spend),
            ),
            ..given.store
        },
        ids: given.ids,
    }
}

/// The state after the transparent spends of a batch were recorded.
pub open spec fn transparent_spends_applied(state: ApplyState, spends: Seq<FoundSpend>) -> ApplyState
    decreases spends.len(),
{
    if spends.len() == 0 {
        state
    } else {
        transparent_spend_applied(
            transparent_spends_applied(state, spends.drop_last()),
            spends.last(),
        )
    }
}

/// The store after a batch: notes first, so that a note received and spent in the batch
/// is there when its spend is recorded; then spends, transparent outputs, transparent
/// spends and the position.
pub open spec fn batch_applied(
    store: StoreView,
    at: SyncState,
    notes: Seq<Note>,
    spends: Seq<Spend>,
    outputs: Seq<FoundOutput>,
    transparent_spends: Seq<FoundSpend>,
) -> Result<StoreView, StoreError> {
    match notes_applied(ApplyState { store, ids: Seq::empty() }, notes) {
        Err(e) => Err(e),
        Ok(state) => {
            let state = spends_applied(state, spends);
            let state = outputs_applied(state, outputs);
            let state = transparent_spends_applied(state, transparent_spends);
            Ok(
                StoreView {
                    sync: Some(
                        (
                            at.height,
                            match at.hash {
                                Some(hash) => Some(hash@),
                                None => None,
                            },
                        ),
                    ),
                    ..state.store
                },
            )
        },
    }
}

/// The store is well formed, and the rows given so far are there.
pub open spec fn state_wf(state: ApplyState) -> bool {
    &&& state.store.wf()
    &&& forall|k: int|
        0 <= k < state.ids.len() ==> has_row(state.store.transactions, (#[trigger] state.ids[k]).1)
}

/// Finds or gives the row of a transaction.
fn row_for(
    db: &mut Db,
    ids: &mut Vec<([u8; 32], i64)>,
    txid: &[u8; 32],
    height: u32,
    tx_index: Option<u32>,
) -> (id: i64)
    requires
        max_row(old(db)@.transactions) < i64::MAX,
    ensures
        (ApplyState { store: final(db)@, ids: final(ids)@ }, id) == with_row(
            ApplyState { store: old(db)@, ids: old(ids)@ },
            *txid,
            height,
            tx_index,
        ),
        max_row(final(db)@.transactions) <= max_row(old(db)@.transactions) + 1,
        state_wf(ApplyState { store: old(db)@, ids: old(ids)@ }) ==> state_wf(
            ApplyState { store: final(db)@, ids: final(ids)@ },
        ) && has_row(final(db)@.transactions, id),
{
    let mut k: usize = 0;
    while k < ids.len()
        invariant
            0 <= k <= ids.len(),
            ids@ == old(ids)@,
            *db == *old(db),
            forall|j: int| 0 <= j < k ==> (#[trigger] ids@[j]).0 != *txid,
        decreases ids.len() - k,
    {
        if same32(&ids[k].0, txid) {
            proof {
                lemma_row_given(ids@, *txid, k as int);
                if state_wf(ApplyState { store: db@, ids: ids@ }) {
                    let state = ApplyState { store: db@, ids: ids@ };
                    assert(has_row(state.store.transactions, state.ids[k as int].1));
                }
            }
            return ids[k].1;
        }
        k = k + 1;
    }
    proof {
        lemma_row_given(ids@, *txid, k as int);
        lemma_upsert_row(db@.transactions, *txid, Some(height), tx_index);
    }
    let ghost before = db@.transactions;
    let ghost given = ids@;
    let id = db.upsert_transaction(txid, Some(height), tx_index);
    ids.push((*txid, id));
    proof {
        if state_wf(ApplyState { store: old(db)@, ids: old(ids)@ }) {
            lemma_upserted_tx(before, *txid, Some(height), tx_index);
            assert forall|j: int| 0 <= j < ids@.len() implies has_row(
                db@.transactions,
                (#[trigger] ids@[j]).1,
            ) by {
                if j < given.len() {
                    let state = ApplyState { store: old(db)@, ids: old(ids)@ };
                    assert(has_row(state.store.transactions, state.ids[j].1));
                }
            }
        }
    }
    id
}

/// Stores a note as an output of the transaction with a row.
pub(crate) fn insert_note(db: &mut Db, note: &Note, id: i64, position: Option<u64>) -> (result: Result<
    (),
    StoreError,
>)
    ensures
        match note_inserted(old(db)@, *note, id, position) {
            Ok(store) => result is Ok && final(db)@ == store,
            Err(e) => result == Err::<(), StoreError>(e) && final(db)@ == old(db)@,
        },
        old(db)@.wf() ==> final(db)@.wf(),
{
    let nf: Option<&[u8]> = match &note.nullifier {
        Some(nf) => Some(nf.as_slice()),
        None => None,
    };
    let memo: Option<&[u8]> = match &note.memo {
        Some(memo) => Some(memo.as_slice()),
        None => None,
    };
    let recipient_address: Option<&str> = match &note.recipient {
        Some(text) => Some(text.as_str()),
        None => None,
    };
    match &note.note {
        ShieldedNote::Orchard(n) => {
            let row = OrchardNoteInsert {
                transaction_id: id,
                action_index: note.output_index,
                diversifier: vstd::slice::slice_subrange(n.recipient.as_slice(), 0, 11),
                value: n.value,
                rho: n.rho.as_slice(),
                rseed: n.rseed.as_slice(),
                nf,
                memo,
                commitment_tree_position: position,
                is_sent: note.is_sent,
                recipient_address,
            };
            assert(row.diversifier@ =~= n.recipient@.take(11));
            assert(note_record(*note, id, position) == Some(orchard_record(row)));
            db.insert_orchard_note(&row)
        },
        ShieldedNote::Sapling(n) => {
            let rcm = match sapling_rcm(n) {
                Some(rcm) => rcm,
                None => return Err(StoreError::InvalidNote),
            };
            let row = SaplingNoteInsert {
                transaction_id: id,
                output_index: note.output_index,
                diversifier: vstd::slice::slice_subrange(n.recipient.as_slice(), 0, 11),
                value: n.value,
                rcm: rcm.as_slice(),
                nf,
                memo,
                commitment_tree_position: position,
                is_sent: note.is_sent,
                recipient_address,
            };
            assert(row.diversifier@ =~= n.recipient@.take(11));
            assert(note_record(*note, id, position) == Some(sapling_record(row)));
            db.insert_sapling_note(&row)
        },
    }
}

/// Stores a note of a batch.
fn apply_note(db: &mut Db, ids: &mut Vec<([u8; 32], i64)>, note: &Note) -> (result: Result<
    (),
    StoreError,
>)
    requires
        max_row(old(db)@.transactions) < i64::MAX,
    ensures
        match note_applied(ApplyState { store: old(db)@, ids: old(ids)@ }, *note) {
            Ok(state) => result is Ok && state == (ApplyState {
                store: final(db)@,
                ids: final(ids)@,
            }),
            Err(e) => result == Err::<(), StoreError>(e),
        },
        max_row(final(db)@.transactions) <= max_row(old(db)@.transactions) + 1,
        state_wf(ApplyState { store: old(db)@, ids: old(ids)@ }) ==> state_wf(
            ApplyState { store: final(db)@, ids: final(ids)@ },
        ),
{
    let id = row_for(db, ids, &note.txid, note.height, Some(note.tx_index));
    insert_note(db, note, id, None)
}

/// Records a spend of a batch.
fn apply_spend(db: &mut Db, ids: &mut Vec<([u8; 32], i64)>, spend: &Spend)
    requires
        max_row(old(db)@.transactions) < i64::MAX,
    ensures
        (ApplyState { store: final(db)@, ids: final(ids)@ }) == spend_applied(
            ApplyState { store: old(db)@, ids: old(ids)@ },
            *spend,
        ),
        max_row(final(db)@.transactions) <= max_row(old(db)@.transactions) + 1,
        state_wf(ApplyState { store: old(db)@, ids: old(ids)@ }) ==> state_wf(
            ApplyState { store: final(db)@, ids: final(ids)@ },
        ),
{
    let _ = row_for(db, ids, &spend.txid, spend.height, None);
    let _ = db.mark_spent(spend.pool, spend.nf.as_slice(), spend.height, &spend.txid);
}

/// Adds a transparent output, unless it is there already.
fn receive_output(table: &mut Vec<OutputRecord>, row: OutputRecord)
    ensures
        output_views(final(table)@) == received(output_views(old(table)@), row@),
{
    let ghost outputs = output_views(table@);
    let mut i: usize = 0;
    while i < table.len()
        invariant
            0 <= i <= table.len(),
            table@ == old(table)@,
            outputs == output_views(table@),
            forall|j: int| 0 <= j < i ==> !same_place(#[trigger] outputs[j], row@),
        decreases table.len() - i,
    {
        if table[i].transaction_id == row.transaction_id && table[i].output_index == row.output_index {
            assert(same_place(outputs[i as int], row@));
            return ;
        }
        i = i + 1;
    }
    table.push(row);
    assert(output_views(table@) =~= outputs.push(row@));
}

/// Receiving an output keeps the transparent outputs well formed.
proof fn lemma_received_wf(
    outputs: Seq<OutputRecordView>,
    txs: Seq<TxRecord>,
    row: OutputRecordView,
)
    requires
        outputs_wf(outputs, txs),
        has_row(txs, row.transaction_id),
    ensures
        outputs_wf(received(outputs, row), txs),
{
    let after = received(outputs, row);
    assert forall|i: int| 0 <= i < after.len() implies has_row(
        txs,
        (#[trigger] after[i]).transaction_id,
    ) by {
        if i < outputs.len() {
            assert(has_row(txs, outputs[i].transaction_id));
        }
    }
    assert forall|i: int, j: int| 0 <= i < j < after.len() implies !((
    #[trigger] after[i]).transaction_id == (#[trigger] after[j]).transaction_id
        && after[i].output_index == after[j].output_index) by {
        if j < outputs.len() {
            assert(!(outputs[i].transaction_id == outputs[j].transaction_id
                && outputs[i].output_index == outputs[j].output_index));
        } else {
            assert(!same_place(outputs[i], row));
        }
    }
}

/// Recording a spend keeps the transparent outputs well formed.
proof fn lemma_output_spent_wf(
    outputs: Seq<OutputRecordView>,
    txs: Seq<TxRecord>,
    spend: FoundSpend,
)
    requires
        outputs_wf(outputs, txs),
    ensures
        outputs_wf(
            outputs.map_values(|o: OutputRecordView| output_spent(o, txs, spend)),
            txs,
        ),
{
    let after = outputs.map_values(|o: OutputRecordView| output_spent(o, txs, spend));
    assert forall|i: int| 0 <= i < after.len() implies has_row(
        txs,
        (#[trigger] after[i]).transaction_id,
    ) by {
        assert(has_row(txs, outputs[i].transaction_id));
    }
    assert forall|i: int, j: int| 0 <= i < j < after.len() implies !((
    #[trigger] after[i]).transaction_id == (#[trigger] after[j]).transaction_id
        && after[i].output_index == after[j].output_index) by {
        assert(!(outputs[i].transaction_id == outputs[j].transaction_id && outputs[i].output_index
            == outputs[j].output_index));
    }
}

/// Records a transparent output of a batch.
fn apply_output(db: &mut Db, ids: &mut Vec<([u8; 32], i64)>, output: &FoundOutput)
    requires
        max_row(old(db)@.transactions) < i64::MAX,
    ensures
        (ApplyState { store: final(db)@, ids: final(ids)@ }) == output_applied(
            ApplyState { store: old(db)@, ids: old(ids)@ },
            *output,
        ),
        max_row(final(db)@.transactions) <= max_row(old(db)@.transactions) + 1,
        state_wf(ApplyState { store: old(db)@, ids: old(ids)@ }) ==> state_wf(
            ApplyState { store: final(db)@, ids: final(ids)@ },
        ),
{
    let id = row_for(db, ids, &output.txid, output.height, None);
    let row = OutputRecord {
        transaction_id: id,
        output_index: output.output_index,
        address: output.address.clone(),
        script: copy_bytes(&output.script),
        value: output.value_zat,
        spent_height: None,
        spent_txid: None,
    };
    proof {
        if db@.wf() && has_row(db@.transactions, id) {
            lemma_received_wf(db@.outputs, db@.transactions, row@);
        }
    }
    receive_output(&mut db.outputs, row);
}

/// Records a transparent spend of a batch.
fn apply_transparent_spend(db: &mut Db, ids: &mut Vec<([u8; 32], i64)>, spend: &FoundSpend)
    requires
        max_row(old(db)@.transactions) < i64::MAX,
    ensures
        (ApplyState { store: final(db)@, ids: final(ids)@ }) == transparent_spend_applied(
            ApplyState { store: old(db)@, ids: old(ids)@ },
            *spend,
        ),
        max_row(final(db)@.transactions) <= max_row(old(db)@.transactions) + 1,
        state_wf(ApplyState { store: old(db)@, ids: old(ids)@ }) ==> state_wf(
            ApplyState { store: final(db)@, ids: final(ids)@ },
        ),
{
    let _ = row_for(db, ids, &spend.txid, spend.height, None);
    let ghost given = db@;
    let mut k: usize = 0;
    while k < db.outputs.len()
        invariant
            0 <= k <= db.outputs.len(),
            db@ == (StoreView { outputs: db@.outputs, ..given }),
            db.outputs.len() == given.outputs.len(),
            forall|j: int|
                0 <= j < k ==> (#[trigger] db.outputs[j])@ == output_spent(
                    given.outputs[j],
                    given.transactions,
                    *spend,
                ),
            forall|j: int|
                k <= j < db.outputs.len() ==> (#[trigger] db.outputs[j])@ == given.outputs[j],
        decreases db.outputs.len() - k,
    {
        assert(db.outputs[k as int]@ == given.outputs[k as int]);
        if let Some(tx) = lookup_tx(&db.transactions, db.outputs[k].transaction_id) {
            if db.outputs[k].output_index == spend.outpoint.n && same32(
                &tx.txid,
                &spend.outpoint.hash,
            ) {
                let row = &mut db.outputs[k];
                row.spent_height = Some(spend.height);
                row.spent_txid = Some(spend.txid);
            }
        }
        k = k + 1;
    }
    proof {
        assert(db@.outputs =~= given.outputs.map_values(
            |o: OutputRecordView| output_spent(o, given.transactions, *spend),
        ));
        if given.wf() {
            lemma_output_spent_wf(given.outputs, given.transactions, *spend);
        }
    }
}

impl NoteRecord {
    /// A copy of the row.
    fn duplicate(&self) -> (row: Self)
        ensures
            row@ == self@,
    {
        NoteRecord {
            transaction_id: self.transaction_id,
            index: self.index,
            diversifier: copy_bytes(&self.diversifier),
            value: self.value,
            rho: copy_bytes(&self.rho),
            rseed: copy_bytes(&self.rseed),
            nf: copy_blob(&self.nf),
            memo: copy_blob(&self.memo),
            position: self.position,
            spent_height: self.spent_height,
            spent_txid: self.spent_txid,
            is_sent: self.is_sent,
            recipient: copy_string(&self.recipient),
        }
    }
}

/// A copy of a note table.
fn copy_records(table: &Vec<NoteRecord>) -> (copy: Vec<NoteRecord>)
    ensures
        record_views(copy@) == record_views(table@),
{
    let mut copy: Vec<NoteRecord> = Vec::new();
    let mut i: usize = 0;
    while i < table.len()
        invariant
            0 <= i <= table.len(),
            copy.len() == i,
            forall|j: int| 0 <= j < i ==> (#[trigger] copy[j])@ == table[j]@,
        decreases table.len() - i,
    {
        copy.push(table[i].duplicate());
        i = i + 1;
    }
    assert(record_views(copy@) =~= record_views(table@));
    copy
}

/// A copy of the transparent outputs.
fn copy_outputs(table: &Vec<OutputRecord>) -> (copy: Vec<OutputRecord>)
    ensures
        output_views(copy@) == output_views(table@),
{
    let mut copy: Vec<OutputRecord> = Vec::new();
    let mut i: usize = 0;
    while i < table.len()
        invariant
            0 <= i <= table.len(),
            copy.len() == i,
            forall|j: int| 0 <= j < i ==> (#[trigger] copy[j])@ == table[j]@,
        decreases table.len() - i,
    {
        let row = &table[i];
        copy.push(
            OutputRecord {
                transaction_id: row.transaction_id,
                output_index: row.output_index,
                address: row.address.clone(),
                script: copy_bytes(&row.script),
                value: row.value,
                spent_height: row.spent_height,
                spent_txid: row.spent_txid,
            },
        );
        i = i + 1;
    }
    assert(output_views(copy@) =~= output_views(table@));
    copy
}

impl Db {
    /// A copy of the store.
    pub fn duplicate(&self) -> (db: Self)
        ensures
            db@ == self@,
    {
        let mut transactions: Vec<TxRecord> = Vec::new();
        let mut i: usize = 0;
        while i < self.transactions.len()
            invariant
                0 <= i <= self.transactions.len(),
                transactions@ == self.transactions@.take(i as int),
            decreases self.transactions.len() - i,
        {
            transactions.push(self.transactions[i]);
            assert(transactions@ =~= self.transactions@.take(i as int + 1));
            i = i + 1;
        }
        assert(transactions@ =~= self.transactions@);
        let sync = match &self.sync {
            Some(row) => Some(SyncRow { height: row.height, hash: copy_blob(&row.hash) }),
            None => None,
        };
        Db {
            birthday: self.birthday,
            sync,
            transactions,
            sapling: copy_records(&self.sapling),
            orchard: copy_records(&self.orchard),
            outputs: copy_outputs(&self.outputs),
        }
    }

    /// Sets the earliest height that the account cares about.
    pub fn set_birthday(&mut self, birthday: u32)
        ensures
            final(self)@ == (StoreView { birthday: Some(birthday), ..old(self)@ }),
    {
        self.birthday = Some(birthday);
    }

    /// Applies what a scan found, up to the position `at`: all of it or, where a note is
    /// refused, nothing.
    pub fn apply(&mut self, at: &SyncState, batch: &Batch) -> (result: Result<(), StoreError>)
        requires
            max_row(old(self)@.transactions) + batch.notes.len() + batch.spends.len()
                + batch.transparent_outputs.len() + batch.transparent_spends.len() < i64::MAX,
        ensures
            match batch_applied(
                old(self)@,
                *at,
                batch.notes@,
                batch.spends@,
                batch.transparent_outputs@,
                batch.transparent_spends@,
            ) {
                Ok(store) => result is Ok && final(self)@ == store,
                Err(e) => result == Err::<(), StoreError>(e) && final(self)@ == old(self)@,
            },
            old(self)@.wf() ==> final(self)@.wf(),
    {
        let mut work = self.duplicate();
        let mut ids: Vec<([u8; 32], i64)> = Vec::new();
        let ghost start = ApplyState { store: self@, ids: Seq::empty() };
        let ghost rows = max_row(self@.transactions);
        let ghost limit = rows + batch.notes.len() + batch.spends.len()
            + batch.transparent_outputs.len() + batch.transparent_spends.len();
        assert(ids@ =~= Seq::empty());
        let mut i: usize = 0;
        assert(batch.notes@.take(0) =~= Seq::empty());
        while i < batch.notes.len()
            invariant
                0 <= i <= batch.notes.len(),
                *self == *old(self),
                start == (ApplyState { store: old(self)@, ids: Seq::empty() }),
                limit < i64::MAX,
                limit == rows + batch.notes.len() + batch.spends.len()
                    + batch.transparent_outputs.len() + batch.transparent_spends.len(),
                max_row(work@.transactions) <= rows + i,
                old(self)@.wf() ==> state_wf(ApplyState { store: work@, ids: ids@ }),
                notes_applied(start, batch.notes@.take(i as int)) == Ok::<ApplyState, StoreError>(
                    ApplyState { store: work@, ids: ids@ },
                ),
            decreases batch.notes.len() - i,
        {
            proof {
                assert(batch.notes@.take(i as int + 1).drop_last() =~= batch.notes@.take(i as int));
            }
            match apply_note(&mut work, &mut ids, &batch.notes[i]) {
                Ok(()) => {},
                Err(e) => {
                    proof {
                        lemma_notes_error(start, batch.notes@, i as int + 1);
                    }
                    return Err(e);
                },
            }
            i = i + 1;
        }
        assert(batch.notes@.take(i as int) =~= batch.notes@);
        let ghost noted = ApplyState { store: work@, ids: ids@ };
        let mut j: usize = 0;
        assert(batch.spends@.take(0) =~= Seq::empty());
        while j < batch.spends.len()
            invariant
                0 <= j <= batch.spends.len(),
                limit < i64::MAX,
                limit == rows + batch.notes.len() + batch.spends.len()
                    + batch.transparent_outputs.len() + batch.transparent_spends.len(),
                max_row(work@.transactions) <= rows + batch.notes.len() + j,
                old(self)@.wf() ==> state_wf(ApplyState { store: work@, ids: ids@ }),
                spends_applied(noted, batch.spends@.take(j as int)) == (ApplyState {
                    store: work@,
                    ids: ids@,
                }),
            decreases batch.spends.len() - j,
        {
            proof {
                assert(batch.spends@.take(j as int + 1).drop_last() =~= batch.spends@.take(j as int));
            }
            apply_spend(&mut work, &mut ids, &batch.spends[j]);
            j = j + 1;
        }
        assert(batch.spends@.take(j as int) =~= batch.spends@);
        let ghost spent = ApplyState { store: work@, ids: ids@ };
        let mut k: usize = 0;
        assert(batch.transparent_outputs@.take(0) =~= Seq::empty());
        while k < batch.transparent_outputs.len()
            invariant
                0 <= k <= batch.transparent_outputs.len(),
                limit < i64::MAX,
                limit == rows + batch.notes.len() + batch.spends.len()
                    + batch.transparent_outputs.len() + batch.transparent_spends.len(),
                max_row(work@.transactions) <= rows + batch.notes.len() + batch.spends.len() + k,
                old(self)@.wf() ==> state_wf(ApplyState { store: work@, ids: ids@ }),
                outputs_applied(spent, batch.transparent_outputs@.take(k as int)) == (ApplyState {
                    store: work@,
                    ids: ids@,
                }),
            decreases batch.transparent_outputs.len() - k,
        {
            proof {
                assert(batch.transparent_outputs@.take(k as int + 1).drop_last()
                    =~= batch.transparent_outputs@.take(k as int));
            }
            apply_output(&mut work, &mut ids, &batch.transparent_outputs[k]);
            k = k + 1;
        }
        assert(batch.transparent_outputs@.take(k as int) =~= batch.transparent_outputs@);
        let ghost paid = ApplyState { store: work@, ids: ids@ };
        let mut m: usize = 0;
        assert(batch.transparent_spends@.take(0) =~= Seq::empty());
        while m < batch.transparent_spends.len()
            invariant
                0 <= m <= batch.transparent_spends.len(),
                limit < i64::MAX,
                limit == rows + batch.notes.len() + batch.spends.len()
                    + batch.transparent_outputs.len() + batch.transparent_spends.len(),
                max_row(work@.transactions) <= rows + batch.notes.len() + batch.spends.len()
                    + batch.transparent_outputs.len() + m,
                old(self)@.wf() ==> state_wf(ApplyState { store: work@, ids: ids@ }),
                transparent_spends_applied(paid, batch.transparent_spends@.take(m as int)) == (
                ApplyState { store: work@, ids: ids@ }),
            decreases batch.transparent_spends.len() - m,
        {
            proof {
                assert(batch.transparent_spends@.take(m as int + 1).drop_last()
                    =~= batch.transparent_spends@.take(m as int));
            }
            apply_transparent_spend(&mut work, &mut ids, &batch.transparent_spends[m]);
            m = m + 1;
        }
        assert(batch.transparent_spends@.take(m as int) =~= batch.transparent_spends@);
        work.set_sync_state(at);
        *self = work;
        Ok(())
    }
}

/// An error among the first notes is the error of all.
proof fn lemma_notes_error(state: ApplyState, notes: Seq<Note>, n: int)
    requires
        0 <= n <= notes.len(),
        notes_applied(state, notes.take(n)) is Err,
    ensures
        notes_applied(state, notes) == notes_applied(state, notes.take(n)),
    decreases notes.len(),
{
    if n == notes.len() {
        assert(notes.take(n) =~= notes);
    } else {
        assert(notes.drop_last().take(n) =~= notes.take(n));
        lemma_notes_error(state, notes.drop_last(), n);
    }
}

/// Why a sync of the store cannot resume.
#[derive(Debug, Clone, Copy, PartialEq, Eq, Structural)]
pub enum ResumeError {
    /// The account's birthday was never set.
    NoBirthday,
    /// The nullifier of an unspent note has not 32 bytes.
    BadNullifier,
}

/// The nullifiers of the unspent notes, in order.
pub open spec fn unspent_nullifiers_of(notes: Seq<NoteRecordView>) -> Seq<Seq<u8>> {
    collect_some(
        notes.map_values(
            |n: NoteRecordView|
                if n.spent_height is None {
                    n.nf
                } else {
                    None
                },
        ),
    )
}

/// Whether every entry has 32 bytes.
pub open spec fn all_32(blobs: Seq<Seq<u8>>) -> bool {
    forall|i: int| 0 <= i < blobs.len() ==> (#[trigger] blobs[i]).len() == 32
}

/// The nullifiers, each with its pool.
pub open spec fn in_pool(pool: Pool, blobs: Seq<Seq<u8>>) -> Seq<(Pool, Seq<u8>)> {
    blobs.map_values(|b: Seq<u8>| (pool, b))
}

/// The bytes of nullifiers with their pools.
pub open spec fn pool_views(nfs: Seq<(Pool, [u8; 32])>) -> Seq<(Pool, Seq<u8>)> {
    nfs.map_values(|n: (Pool, [u8; 32])| (n.0, n.1@))
}

/// Appends the nullifiers of a pool's unspent notes. Tells whether each has 32 bytes.
fn list_unspent(nfs: &mut Vec<(Pool, [u8; 32])>, table: &Vec<NoteRecord>, pool: Pool) -> (valid: bool)
    ensures
        valid == all_32(unspent_nullifiers_of(record_views(table@))),
        valid ==> pool_views(final(nfs)@) == pool_views(old(nfs)@) + in_pool(
            pool,
            unspent_nullifiers_of(record_views(table@)),
        ),
{
    let ghost notes = record_views(table@);
    let ghost all = notes.map_values(
        |n: NoteRecordView|
            if n.spent_height is None {
                n.nf
            } else {
                None
            },
    );
    let ghost start = pool_views(nfs@);
    let mut i: usize = 0;
    assert(all.take(0) =~= Seq::empty());
    assert(start =~= start + in_pool(pool, collect_some(all.take(0))));
    while i < table.len()
        invariant
            0 <= i <= table.len(),
            notes == record_views(table@),
            all == notes.map_values(
                |n: NoteRecordView|
                    if n.spent_height is None {
                        n.nf
                    } else {
                        None
                    },
            ),
            all_32(collect_some(all.take(i as int))),
            pool_views(nfs@) == start + in_pool(pool, collect_some(all.take(i as int))),
        decreases table.len() - i,
    {
        proof {
            lemma_collect_push(all.take(i as int), all[i as int]);
            assert(all.take(i as int + 1) =~= all.take(i as int).push(all[i as int]));
        }
        if table[i].spent_height.is_none() {
            if let Some(bytes) = &table[i].nf {
                match to_array(bytes.as_slice()) {
                    Some(nf) => {
                        let ghost before = nfs@;
                        let ghost shown = collect_some(all.take(i as int));
                        nfs.push((pool, nf));
                        proof {
                            assert(pool_views(nfs@) =~= pool_views(before).push((pool, bytes@)));
                            assert(in_pool(pool, shown.push(bytes@)) =~= in_pool(pool, shown).push(
                                (pool, bytes@),
                            ));
                            assert(pool_views(nfs@) =~= start + in_pool(pool, shown.push(bytes@)));
                        }
                    },
                    None => {
                        proof {
                            lemma_collect_has(all, i as int);
                            let blobs = unspent_nullifiers_of(notes);
                            let k = choose|k: int| 0 <= k < blobs.len() && blobs[k] == bytes@;
                            assert(blobs[k].len() != 32);
                        }
                        return false;
                    },
                }
            }
        }
        i = i + 1;
    }
    assert(all.take(i as int) =~= all);
    true
}

/// The unspent transparent outputs whose transaction is there.
pub open spec fn unspent_outpoints_of(outputs: Seq<OutputRecordView>, txs: Seq<TxRecord>) -> Seq<OutPoint> {
    collect_some(outputs.map_values(|o: OutputRecordView| unspent_outpoint(o, txs)))
}

/// Where a transparent output stands, where it is unspent and its transaction is there.
pub open spec fn unspent_outpoint(o: OutputRecordView, txs: Seq<TxRecord>) -> Option<OutPoint> {
    if o.spent_height is None {
        match tx_by_row(txs, o.transaction_id) {
            Some(tx) => Some(OutPoint { hash: tx.txid, n: o.output_index }),
            None => None,
        }
    } else {
        None
    }
}

impl Db {
    /// Where a sync resumes. It cannot where the birthday was never set, nor where a
    /// nullifier of an unspent note has not 32 bytes.
    pub fn resume(&self) -> (result: Result<StoreResume, ResumeError>)
        ensures
            result == Err::<StoreResume, ResumeError>(ResumeError::NoBirthday) <==> self@.birthday is None,
            result == Err::<StoreResume, ResumeError>(ResumeError::BadNullifier) <==> self@.birthday is Some
                && !(all_32(unspent_nullifiers_of(self@.sapling)) && all_32(
                unspent_nullifiers_of(self@.orchard),
            )),
            result matches Ok(resume) ==> {
                &&& self@.birthday == Some(resume.birthday)
                &&& resume.checkpoint is Some == self@.sync is Some
                &&& resume.checkpoint matches Some(state) ==> {
                    let (height, hash) = self@.sync->0;
                    &&& state.height == height
                    &&& state.hash is Some == (hash matches Some(bytes) && bytes.len() == 32)
                    &&& state.hash matches Some(h) ==> hash == Some(h@)
                }
                &&& pool_views(resume.nullifiers@) == in_pool(
                    Pool::Sapling,
                    unspent_nullifiers_of(self@.sapling),
                ) + in_pool(Pool::Orchard, unspent_nullifiers_of(self@.orchard))
                &&& resume.outpoints@ == unspent_outpoints_of(self@.outputs, self@.transactions)
            },
    {
        let birthday: u32 = match self.birthday {
            Some(birthday) => birthday,
            None => return Err(ResumeError::NoBirthday),
        };
        let checkpoint = match &self.sync {
            Some(_) => Some(self.get_sync_state()),
            None => None,
        };
        let mut nullifiers: Vec<(Pool, [u8; 32])> = Vec::new();
        assert(pool_views(nullifiers@) =~= Seq::empty());
        if !list_unspent(&mut nullifiers, &self.sapling, Pool::Sapling) {
            return Err(ResumeError::BadNullifier);
        }
        assert(pool_views(nullifiers@) =~= in_pool(
            Pool::Sapling,
            unspent_nullifiers_of(self@.sapling),
        ));
        if !list_unspent(&mut nullifiers, &self.orchard, Pool::Orchard) {
            return Err(ResumeError::BadNullifier);
        }
        let ghost all = self@.outputs.map_values(
            |o: OutputRecordView| unspent_outpoint(o, self@.transactions),
        );
        let mut outpoints: Vec<OutPoint> = Vec::new();
        let mut i: usize = 0;
        assert(all.take(0) =~= Seq::empty());
        assert(outpoints@ =~= Seq::empty());
        while i < self.outputs.len()
            invariant
                0 <= i <= self.outputs.len(),
                all == self@.outputs.map_values(
                    |o: OutputRecordView| unspent_outpoint(o, self@.transactions),
                ),
                outpoints@ == collect_some(all.take(i as int)),
            decreases self.outputs.len() - i,
        {
            proof {
                lemma_collect_push(all.take(i as int), all[i as int]);
                assert(all.take(i as int + 1) =~= all.take(i as int).push(all[i as int]));
            }
            if self.outputs[i].spent_height.is_none() {
                if let Some(tx) = lookup_tx(&self.transactions, self.outputs[i].transaction_id) {
                    outpoints.push(OutPoint { hash: tx.txid, n: self.outputs[i].output_index });
                }
            }
            i = i + 1;
        }
        assert(all.take(i as int) =~= all);
        Ok(StoreResume { birthday, checkpoint, nullifiers, outpoints })
    }
}

} // verus!
