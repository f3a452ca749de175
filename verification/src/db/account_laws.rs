//! Laws of what a batch of findings does to the store, finding by finding.

use vstd::prelude::*;

use crate::db::account::{
    all_32, batch_applied, in_pool, note_inserted, note_record, notes_applied, outputs_applied,
    received, row_given, spends_applied, transparent_spends_applied, unspent_nullifiers_of,
    unspent_outpoint, unspent_outpoints_of, with_row, ApplyState, FoundOutput, FoundSpend, Note,
    ShieldedNote, Spend,
};
use crate::db::store::{
    insertion, records_spent, same_place, tx_by_row, upserted_tx, NoteRecordView,
    OutputRecordView, Pool, StoreError, StoreView, SyncState, TxRecord,
};
use crate::db::sync::{note_stored, notes_stored};
use crate::primitives::OutPoint;
use crate::seqs::{collect_some, lemma_collect_from, lemma_collect_has};
use crate::upstream::sapling_notes::sapling_rcm_of;

verus! {

/// A transaction of a batch has the row that it was given first in the batch.
pub proof fn law_batch_remembers_rows(ids: Seq<([u8; 32], i64)>, txid: [u8; 32])
    ensures
        row_given(ids, txid) is None <==> forall|i: int|
            0 <= i < ids.len() ==> (#[trigger] ids[i]).0 != txid,
        forall|i: int|
            0 <= i < ids.len() && (#[trigger] ids[i]).0 == txid && (forall|j: int|
                0 <= j < i ==> (#[trigger] ids[j]).0 != txid) ==> row_given(ids, txid) == Some(
                ids[i].1,
            ),
    decreases ids.len(),
{
    if ids.len() > 0 {
        let init = ids.drop_last();
        law_batch_remembers_rows(init, txid);
        assert forall|i: int| 0 <= i < init.len() implies (#[trigger] ids[i]) == init[i] by {}
        if row_given(init, txid) is None {
            assert forall|i: int| 0 <= i < init.len() implies (#[trigger] ids[i]).0 != txid by {
                assert(init[i].0 != txid);
            }
        } else {
            let k = choose|k: int| 0 <= k < init.len() && (#[trigger] init[k]).0 == txid;
            assert(ids[k].0 == txid);
            assert forall|i: int|
                0 <= i < ids.len() && (#[trigger] ids[i]).0 == txid && (forall|j: int|
                    0 <= j < i ==> (#[trigger] ids[j]).0 != txid) implies row_given(ids, txid)
                == Some(ids[i].1) by {
                assert(i <= k);
                assert(init[i].0 == txid);
                assert forall|j: int| 0 <= j < i implies (#[trigger] init[j]).0 != txid by {
                    assert(ids[j].0 != txid);
                }
            }
        }
    }
}

/// A transaction that a batch names for the first time is recorded at the height told, and any
/// further finding of it goes under the same row.
pub proof fn law_batch_records_a_transaction_once(
    state: ApplyState,
    txid: [u8; 32],
    height: u32,
    tx_index: Option<u32>,
)
    ensures
        ({
            let (after, id) = with_row(state, txid, height, tx_index);
            let (transactions, row) = upserted_tx(
                state.store.transactions,
                txid,
                Some(height),
                tx_index,
            );
            &&& row_given(state.ids, txid) matches Some(known) ==> after == state && id == known
            &&& row_given(state.ids, txid) is None ==> {
                &&& id == row
                &&& after.store == (StoreView { transactions, ..state.store })
                &&& after.ids == state.ids.push((txid, row))
            }
        }),
{
}

/// A note that was found is stored whole: with its diversifier, value and randomness, its
/// nullifier and memo, and where it was sent. A Sapling note without a trapdoor is no note.
pub proof fn law_found_note_is_stored_whole(note: Note, id: i64, position: Option<u64>)
    ensures
        ({
            let record = note_record(note, id, position);
            &&& note.note matches ShieldedNote::Orchard(n) ==> record is Some && {
                let r = record->0;
                &&& r.diversifier == n.recipient@.take(11)
                &&& r.value == n.value
                &&& r.rho == n.rho@
                &&& r.rseed == n.rseed@
            }
            &&& note.note matches ShieldedNote::Sapling(n) ==> record is Some == sapling_rcm_of(
                n,
            ) is Some
            &&& note.note matches ShieldedNote::Sapling(n) ==> (record is Some ==> {
                let r = record->0;
                &&& r.diversifier == n.recipient@.take(11)
                &&& r.value == n.value
                &&& r.rho.len() == 0
                &&& r.rseed == (sapling_rcm_of(n)->0)@
            })
            &&& record matches Some(r) ==> {
                &&& r.transaction_id == id
                &&& r.index == note.output_index
                &&& r.position == position
                &&& r.nf is Some == note.nullifier is Some
                &&& note.nullifier matches Some(nf) ==> r.nf == Some(nf@)
                &&& r.memo is Some == note.memo is Some
                &&& note.memo matches Some(memo) ==> r.memo == Some(memo@)
                &&& r.is_sent == note.is_sent
                &&& r.recipient is Some == note.recipient is Some
                &&& note.recipient matches Some(text) ==> r.recipient == Some(text@)
                &&& r.spent_height is None
                &&& r.spent_txid is None
            }
        }),
{
}

/// A note goes into the table of its own pool, and nothing else changes.
pub proof fn law_found_note_goes_into_its_pool(
    store: StoreView,
    note: Note,
    id: i64,
    position: Option<u64>,
)
    ensures
        ({
            let result = note_inserted(store, note, id, position);
            match note_record(note, id, position) {
                None => result == Err::<StoreView, StoreError>(StoreError::InvalidNote),
                Some(row) => if note.note is Sapling {
                    match insertion(store.sapling, store.transactions, row) {
                        Ok(sapling) => result == Ok::<StoreView, StoreError>(
                            StoreView { sapling, ..store },
                        ),
                        Err(e) => result == Err::<StoreView, StoreError>(e),
                    }
                } else {
                    match insertion(store.orchard, store.transactions, row) {
                        Ok(orchard) => result == Ok::<StoreView, StoreError>(
                            StoreView { orchard, ..store },
                        ),
                        Err(e) => result == Err::<StoreView, StoreError>(e),
                    }
                },
            }
        }),
{
}

/// The notes of a batch are stored in turn, each under the row of its transaction at its own
/// height and index; the first that is refused ends it.
pub proof fn law_notes_of_a_batch_are_stored_in_turn(
    state: ApplyState,
    notes: Seq<Note>,
    note: Note,
)
    ensures
        notes_applied(state, Seq::<Note>::empty()) == Ok::<ApplyState, StoreError>(state),
        notes_applied(state, notes) matches Err(e) ==> notes_applied(state, notes.push(note)) == Err::<
            ApplyState,
            StoreError,
        >(e),
        notes_applied(state, notes) matches Ok(before) ==> {
            let (given, id) = with_row(before, note.txid, note.height, Some(note.tx_index));
            notes_applied(state, notes.push(note)) == match note_inserted(
                given.store,
                note,
                id,
                None,
            ) {
                Ok(store) => Ok::<ApplyState, StoreError>(ApplyState { store, ids: given.ids }),
                Err(e) => Err(e),
            }
        },
{
    assert(notes.push(note).drop_last() =~= notes);
}

/// The spends of a batch are marked in turn, each in its own pool, at its height and by its
/// transaction, which is recorded.
pub proof fn law_spends_of_a_batch_are_marked_in_turn(
    state: ApplyState,
    spends: Seq<Spend>,
    spend: Spend,
)
    ensures
        spends_applied(state, Seq::<Spend>::empty()) == state,
        ({
            let before = spends_applied(state, spends);
            let (given, _) = with_row(before, spend.txid, spend.height, None);
            let after = spends_applied(state, spends.push(spend));
            &&& after.ids == given.ids
            &&& spend.pool == Pool::Sapling ==> after.store == (StoreView {
                sapling: records_spent(
                    given.store.sapling,
                    spend.nf@,
                    spend.height,
                    spend.txid,
                ),
                ..given.store
            })
            &&& spend.pool == Pool::Orchard ==> after.store == (StoreView {
                orchard: records_spent(
                    given.store.orchard,
                    spend.nf@,
                    spend.height,
                    spend.txid,
                ),
                ..given.store
            })
        }),
{
    assert(spends.push(spend).drop_last() =~= spends);
}

/// A transparent output is stored at the end unless it is stored already, and no stored output
/// changes.
pub proof fn law_received_output_is_stored_once(
    outputs: Seq<OutputRecordView>,
    row: OutputRecordView,
)
    ensures
        (exists|i: int|
            0 <= i < outputs.len() && (#[trigger] outputs[i]).transaction_id == row.transaction_id
                && outputs[i].output_index == row.output_index) ==> received(outputs, row) == outputs,
        (forall|i: int|
            0 <= i < outputs.len() ==> (#[trigger] outputs[i]).transaction_id != row.transaction_id
                || outputs[i].output_index != row.output_index) ==> received(outputs, row)
            == outputs.push(row),
{
    if exists|i: int|
        0 <= i < outputs.len() && (#[trigger] outputs[i]).transaction_id == row.transaction_id
            && outputs[i].output_index == row.output_index {
        let i = choose|i: int|
            0 <= i < outputs.len() && (#[trigger] outputs[i]).transaction_id == row.transaction_id
                && outputs[i].output_index == row.output_index;
        assert(same_place(outputs[i], row));
    }
}

/// The transparent outputs of a batch are stored in turn, each under the row of its transaction
/// and with its own address, script and value, unspent.
pub proof fn law_outputs_of_a_batch_are_stored_in_turn(
    state: ApplyState,
    outputs: Seq<FoundOutput>,
    output: FoundOutput,
)
    ensures
        outputs_applied(state, Seq::<FoundOutput>::empty()) == state,
        ({
            let before = outputs_applied(state, outputs);
            let (given, id) = with_row(before, output.txid, output.height, None);
            let after = outputs_applied(state, outputs.push(output));
            &&& after.ids == given.ids
            &&& after.store == (StoreView {
                outputs: received(
                    given.store.outputs,
                    OutputRecordView {
                        transaction_id: id,
                        output_index: output.output_index,
                        address: output.address@,
                        script: output.script@,
                        value: output.value_zat,
                        spent_height: None,
                        spent_txid: None,
                    },
                ),
                ..given.store
            })
        }),
{
    assert(outputs.push(output).drop_last() =~= outputs);
}

/// The transparent spends of a batch mark exactly the outputs that they name, by the id of
/// their transaction and their index, each at the spend's height and by its transaction.
pub proof fn law_transparent_spends_of_a_batch_mark_their_outputs(
    state: ApplyState,
    spends: Seq<FoundSpend>,
    spend: FoundSpend,
)
    ensures
        transparent_spends_applied(state, Seq::<FoundSpend>::empty()) == state,
        ({
            let before = transparent_spends_applied(state, spends);
            let (given, _) = with_row(before, spend.txid, spend.height, None);
            let after = transparent_spends_applied(state, spends.push(spend));
            &&& after.ids == given.ids
            &&& after.store == (StoreView { outputs: after.store.outputs, ..given.store })
            &&& after.store.outputs.len() == given.store.outputs.len()
            &&& forall|i: int|
                0 <= i < given.store.outputs.len() ==> {
                    let o = given.store.outputs[i];
                    let tx = tx_by_row(given.store.transactions, o.transaction_id);
                    #[trigger] after.store.outputs[i] == (if tx is Some && (tx->0).txid
                        == spend.outpoint.hash && o.output_index == spend.outpoint.n {
                        OutputRecordView {
                            spent_height: Some(spend.height),
                            spent_txid: Some(spend.txid),
                            ..o
                        }
                    } else {
                        o
                    })
                }
        }),
{
    assert(spends.push(spend).drop_last() =~= spends);
}

/// A batch stores its notes, then marks their spends, then stores the transparent outputs and
/// marks theirs, so that a note or output that it both makes and spends ends up spent; and it
/// moves the cursor to its position. Where a note is refused, nothing is stored.
pub proof fn law_batch_is_applied_in_order(
    store: StoreView,
    at: SyncState,
    notes: Seq<Note>,
    spends: Seq<Spend>,
    outputs: Seq<FoundOutput>,
    transparent_spends: Seq<FoundSpend>,
)
    ensures
        ({
            let result = batch_applied(store, at, notes, spends, outputs, transparent_spends);
            match notes_applied(ApplyState { store, ids: Seq::empty() }, notes) {
                Err(e) => result == Err::<StoreView, StoreError>(e),
                Ok(noted) => {
                    let told = transparent_spends_applied(
                        outputs_applied(spends_applied(noted, spends), outputs),
                        transparent_spends,
                    ).store;
                    &&& result is Ok
                    &&& result->Ok_0 == (StoreView { sync: (result->Ok_0).sync, ..told })
                    &&& (result->Ok_0).sync is Some
                    &&& ((result->Ok_0).sync->0).0 == at.height
                    &&& ((result->Ok_0).sync->0).1 is Some == at.hash is Some
                    &&& at.hash matches Some(hash) ==> ((result->Ok_0).sync->0).1 == Some(hash@)
                },
            }
        }),
{
}

/// Exactly the nullifiers of the unspent notes are watched.
pub proof fn law_unspent_nullifiers_are_watched(notes: Seq<NoteRecordView>, nf: Seq<u8>)
    ensures
        unspent_nullifiers_of(notes).contains(nf) <==> exists|i: int|
            0 <= i < notes.len() && (#[trigger] notes[i]).spent_height is None && notes[i].nf == Some(
                nf,
            ),
{
    let all = notes.map_values(
        |n: NoteRecordView|
            if n.spent_height is None {
                n.nf
            } else {
                None
            },
    );
    if exists|i: int|
        0 <= i < notes.len() && (#[trigger] notes[i]).spent_height is None && notes[i].nf == Some(nf) {
        let i = choose|i: int|
            0 <= i < notes.len() && (#[trigger] notes[i]).spent_height is None && notes[i].nf == Some(
                nf,
            );
        assert(all[i] == Some(nf));
        lemma_collect_has(all, i);
    }
    if unspent_nullifiers_of(notes).contains(nf) {
        let k = choose|k: int| 0 <= k < collect_some(all).len() && collect_some(all)[k] == nf;
        lemma_collect_from(all, k);
        let j = choose|j: int| 0 <= j < all.len() && #[trigger] all[j] == Some(collect_some(all)[k]);
        assert(notes[j].nf == Some(nf));
    }
}

/// Exactly the unspent transparent outputs of known transactions are watched.
pub proof fn law_unspent_outputs_are_watched(
    outputs: Seq<OutputRecordView>,
    txs: Seq<TxRecord>,
    o: OutPoint,
)
    ensures
        unspent_outpoints_of(outputs, txs).contains(o) <==> exists|i: int|
            0 <= i < outputs.len() && (#[trigger] outputs[i]).spent_height is None
                && outputs[i].output_index == o.n && (tx_by_row(
                txs,
                outputs[i].transaction_id,
            ) matches Some(tx) && tx.txid == o.hash),
{
    let all = outputs.map_values(|r: OutputRecordView| unspent_outpoint(r, txs));
    if exists|i: int|
        0 <= i < outputs.len() && (#[trigger] outputs[i]).spent_height is None
            && outputs[i].output_index == o.n && (tx_by_row(
            txs,
            outputs[i].transaction_id,
        ) matches Some(tx) && tx.txid == o.hash) {
        let i = choose|i: int|
            0 <= i < outputs.len() && (#[trigger] outputs[i]).spent_height is None
                && outputs[i].output_index == o.n && (tx_by_row(
                txs,
                outputs[i].transaction_id,
            ) matches Some(tx) && tx.txid == o.hash);
        assert(all[i] == Some(o));
        lemma_collect_has(all, i);
    }
    if unspent_outpoints_of(outputs, txs).contains(o) {
        let k = choose|k: int| 0 <= k < collect_some(all).len() && collect_some(all)[k] == o;
        lemma_collect_from(all, k);
        let j = choose|j: int| 0 <= j < all.len() && #[trigger] all[j] == Some(collect_some(all)[k]);
        assert(outputs[j].spent_height is None);
    }
}

/// A single note is stored under the row of its transaction, which is recorded even where the
/// note is refused; several are stored in turn, up to the first that is refused.
pub proof fn law_notes_are_stored_one_by_one(
    store: StoreView,
    notes: Seq<Note>,
    note: Note,
    position: Option<u64>,
)
    ensures
        ({
            let (transactions, id) = upserted_tx(
                store.transactions,
                note.txid,
                Some(note.height),
                Some(note.tx_index),
            );
            let given = StoreView { transactions, ..store };
            note_stored(store, note, position) == match note_inserted(given, note, id, position) {
                Ok(after) => (after, None::<StoreError>),
                Err(e) => (given, Some(e)),
            }
        }),
        notes_stored(store, Seq::<Note>::empty()) == (store, None::<StoreError>),
        ({
            let before = notes_stored(store, notes);
            notes_stored(store, notes.push(note)) == if before.1 is Some {
                before
            } else {
                note_stored(before.0, note, None)
            }
        }),
{
    assert(notes.push(note).drop_last() =~= notes);
}

/// Nullifiers are told with their pool, and can be read where each has 32 bytes.
pub proof fn law_nullifiers_are_told_with_their_pool(pool: Pool, blobs: Seq<Seq<u8>>)
    ensures
        in_pool(pool, blobs).len() == blobs.len(),
        forall|i: int| 0 <= i < blobs.len() ==> #[trigger] in_pool(pool, blobs)[i] == (pool, blobs[i]),
        all_32(blobs) <==> forall|i: int| 0 <= i < blobs.len() ==> (#[trigger] blobs[i]).len() == 32,
{
}

} // verus!
