//! Laws of the wallet store, row by row.

use vstd::prelude::*;

use crate::chain::UtxoView;
use crate::db::order::{in_order, key_le, Keyed};
use crate::db::rows::{
    consumed_value, made_value, paid_value, shown_note, shown_notes, shown_output, shown_outputs,
    shown_tx, NoteRow, TxRow, UtxoRow,
};
use crate::db::store::{
    after_insertion, count_nullifier, find_tx, has_nullifier, has_output, insertion, max_row,
    orchard_record, records_spent, revived, rewound_output, rewound_record, rewound_store,
    same_output, same_place, sapling_record, snapshot_applied, tx_by_row, unspent_notes_value,
    unspent_outputs_value, upserted_tx, utxo_seen, utxos_seen, NoteRecordView, OrchardNoteInsert,
    OutputRecordView, Pool, SaplingNoteInsert, StoreError, StoreView, TxRecord,
};
use crate::seqs::{collect_some, lemma_collect_picks, picks};

verus! {

/// A transaction's id is found where the first row with it stands.
proof fn lemma_found(txs: Seq<TxRecord>, txid: [u8; 32])
    ensures
        match find_tx(txs, txid) {
            Some(k) => 0 <= k < txs.len() && txs[k].txid == txid && forall|j: int|
                0 <= j < k ==> (#[trigger] txs[j]).txid != txid,
            None => forall|j: int| 0 <= j < txs.len() ==> (#[trigger] txs[j]).txid != txid,
        },
    decreases txs.len(),
{
    if txs.len() > 0 {
        let init = txs.drop_last();
        lemma_found(init, txid);
        assert forall|j: int| 0 <= j < init.len() implies (#[trigger] txs[j]) == init[j] by {}
    }
}

/// The largest row is one of the rows, or none is above 0.
proof fn lemma_largest(txs: Seq<TxRecord>)
    ensures
        max_row(txs) >= 0,
        forall|i: int| 0 <= i < txs.len() ==> (#[trigger] txs[i]).id <= max_row(txs),
        max_row(txs) > 0 ==> exists|i: int|
            0 <= i < txs.len() && (#[trigger] txs[i]).id == max_row(txs),
    decreases txs.len(),
{
    if txs.len() > 0 {
        let init = txs.drop_last();
        lemma_largest(init);
        assert forall|i: int| 0 <= i < txs.len() implies (#[trigger] txs[i]).id <= max_row(txs) by {
            if i < init.len() {
                assert(init[i] == txs[i]);
            }
        }
        if max_row(txs) > 0 {
            if txs.last().id > max_row(init) {
                assert(txs[txs.len() - 1].id == max_row(txs));
            } else {
                let i = choose|i: int| 0 <= i < init.len() && (#[trigger] init[i]).id == max_row(init);
                assert(txs[i].id == max_row(txs));
            }
        }
    }
}

/// A transaction that has a row keeps it: what is told of its height and index takes the place
/// of what was known, and what is not told stays. A transaction that has none takes a row that
/// no other has, after the others. No other row changes.
pub proof fn law_transaction_is_recorded_under_its_id(
    txs: Seq<TxRecord>,
    txid: [u8; 32],
    height: Option<u32>,
    tx_index: Option<u32>,
)
    requires
        forall|i: int| 0 <= i < txs.len() ==> (#[trigger] txs[i]).id < i64::MAX,
    ensures
        ({
            let (after, id) = upserted_tx(txs, txid, height, tx_index);
            &&& forall|k: int|
                0 <= k < txs.len() && (#[trigger] txs[k]).txid == txid && (forall|j: int|
                    0 <= j < k ==> (#[trigger] txs[j]).txid != txid) ==> id == txs[k].id && after
                    == txs.update(
                    k,
                    TxRecord {
                        id: txs[k].id,
                        txid,
                        mined_height: match height {
                            Some(h) => Some(h),
                            None => txs[k].mined_height,
                        },
                        tx_index: match tx_index {
                            Some(i) => Some(i),
                            None => txs[k].tx_index,
                        },
                    },
                )
            &&& (forall|k: int| 0 <= k < txs.len() ==> (#[trigger] txs[k]).txid != txid) ==> {
                &&& after == txs.push(TxRecord { id, txid, mined_height: height, tx_index })
                &&& id >= 1
                &&& forall|k: int| 0 <= k < txs.len() ==> (#[trigger] txs[k]).id < id
                &&& id > 1 ==> exists|k: int| 0 <= k < txs.len() && (#[trigger] txs[k]).id == id - 1
            }
        }),
{
    lemma_found(txs, txid);
    lemma_largest(txs);
    if max_row(txs) > 0 {
        let i = choose|i: int| 0 <= i < txs.len() && (#[trigger] txs[i]).id == max_row(txs);
        assert(txs[i].id < i64::MAX);
    }
}

/// A note is stored at the end unless its output is stored already; it is refused where another
/// note has its nullifier, and where its transaction has no row. No stored note changes.
pub proof fn law_note_is_inserted_or_refused(
    notes: Seq<NoteRecordView>,
    txs: Seq<TxRecord>,
    row: NoteRecordView,
)
    ensures
        ({
            let result = insertion(notes, txs, row);
            let stored = exists|i: int|
                0 <= i < notes.len() && (#[trigger] notes[i]).transaction_id == row.transaction_id
                    && notes[i].index == row.index;
            let clash = row.nf is Some && exists|i: int|
                0 <= i < notes.len() && (#[trigger] notes[i]).nf == row.nf;
            let known = exists|i: int| 0 <= i < txs.len() && (#[trigger] txs[i]).id == row.transaction_id;
            &&& stored ==> result == Ok::<Seq<NoteRecordView>, StoreError>(notes)
            &&& !stored && clash ==> result == Err::<Seq<NoteRecordView>, StoreError>(
                StoreError::DuplicateNullifier,
            )
            &&& !stored && !clash && !known ==> result == Err::<Seq<NoteRecordView>, StoreError>(
                StoreError::MissingTransaction,
            )
            &&& !stored && !clash && known ==> result == Ok::<Seq<NoteRecordView>, StoreError>(
                notes.push(row),
            )
        }),
{
    let stored = exists|i: int|
        0 <= i < notes.len() && (#[trigger] notes[i]).transaction_id == row.transaction_id
            && notes[i].index == row.index;
    if stored {
        let i = choose|i: int|
            0 <= i < notes.len() && (#[trigger] notes[i]).transaction_id == row.transaction_id
                && notes[i].index == row.index;
        assert(same_output(notes[i], row));
    }
    if has_output(notes, row) {
        let i = choose|i: int| 0 <= i < notes.len() && same_output(#[trigger] notes[i], row);
        assert(notes[i].transaction_id == row.transaction_id);
    }
}

/// A note to insert is stored with every part that it tells, and unspent.
pub proof fn law_inserted_note_is_stored_whole(
    sapling: SaplingNoteInsert<'_>,
    orchard: OrchardNoteInsert<'_>,
)
    ensures
        ({
            let s = sapling_record(sapling);
            &&& s.transaction_id == sapling.transaction_id
            &&& s.index == sapling.output_index
            &&& s.diversifier == sapling.diversifier@
            &&& s.value == sapling.value
            &&& s.rseed == sapling.rcm@
            &&& s.rho.len() == 0
            &&& s.nf is Some == sapling.nf is Some
            &&& sapling.nf matches Some(nf) ==> s.nf == Some(nf@)
            &&& s.memo is Some == sapling.memo is Some
            &&& sapling.memo matches Some(memo) ==> s.memo == Some(memo@)
            &&& s.position == sapling.commitment_tree_position
            &&& s.is_sent == sapling.is_sent
            &&& s.recipient is Some == sapling.recipient_address is Some
            &&& sapling.recipient_address matches Some(text) ==> s.recipient == Some(text@)
            &&& s.spent_height is None
            &&& s.spent_txid is None
        }),
        ({
            let o = orchard_record(orchard);
            &&& o.transaction_id == orchard.transaction_id
            &&& o.index == orchard.action_index
            &&& o.diversifier == orchard.diversifier@
            &&& o.value == orchard.value
            &&& o.rho == orchard.rho@
            &&& o.rseed == orchard.rseed@
            &&& o.nf is Some == orchard.nf is Some
            &&& orchard.nf matches Some(nf) ==> o.nf == Some(nf@)
            &&& o.memo is Some == orchard.memo is Some
            &&& orchard.memo matches Some(memo) ==> o.memo == Some(memo@)
            &&& o.position == orchard.commitment_tree_position
            &&& o.is_sent == orchard.is_sent
            &&& o.recipient is Some == orchard.recipient_address is Some
            &&& orchard.recipient_address matches Some(text) ==> o.recipient == Some(text@)
            &&& o.spent_height is None
            &&& o.spent_txid is None
        }),
{
}

/// A spend marks exactly the notes with its nullifier, with its height and transaction, and
/// leaves every other as it is; what is told is how many those are.
pub proof fn law_spend_marks_its_notes(
    notes: Seq<NoteRecordView>,
    row: NoteRecordView,
    nf: Seq<u8>,
    height: u32,
    txid: [u8; 32],
    i: int,
)
    ensures
        records_spent(notes, nf, height, txid).len() == notes.len(),
        0 <= i < notes.len() ==> records_spent(notes, nf, height, txid)[i] == (if notes[i].nf == Some(
            nf,
        ) {
            NoteRecordView { spent_height: Some(height), spent_txid: Some(txid), ..notes[i] }
        } else {
            notes[i]
        }),
        count_nullifier(Seq::<NoteRecordView>::empty(), nf) == 0,
        count_nullifier(notes.push(row), nf) == count_nullifier(notes, nf) + (if row.nf == Some(nf) {
            1nat
        } else {
            0
        }),
{
    assert(notes.push(row).drop_last() =~= notes);
}

/// The value of a table is additive: each note counts by itself, while it is unspent and was
/// not sent, and each transparent output while it is unspent.
pub proof fn law_store_value_is_additive(
    notes: Seq<NoteRecordView>,
    note: NoteRecordView,
    outputs: Seq<OutputRecordView>,
    output: OutputRecordView,
)
    ensures
        unspent_notes_value(Seq::<NoteRecordView>::empty()) == 0,
        unspent_notes_value(notes.push(note)) == unspent_notes_value(notes) + (if note.spent_height
            is None && !note.is_sent {
            note.value as nat
        } else {
            0
        }),
        unspent_outputs_value(Seq::<OutputRecordView>::empty()) == 0,
        unspent_outputs_value(outputs.push(output)) == unspent_outputs_value(outputs) + (
        if output.spent_height is None {
            output.value as nat
        } else {
            0
        }),
{
    assert(notes.push(note).drop_last() =~= notes);
    assert(outputs.push(output).drop_last() =~= outputs);
}

/// An output that is seen unspent is stored, or unspent again where it is stored; no other
/// output changes.
pub proof fn law_seen_output_is_unspent(outputs: Seq<OutputRecordView>, row: OutputRecordView)
    ensures
        ({
            let after = revived(outputs, row);
            let stored = exists|i: int|
                0 <= i < outputs.len() && (#[trigger] outputs[i]).transaction_id
                    == row.transaction_id && outputs[i].output_index == row.output_index;
            &&& !stored ==> after == outputs.push(row)
            &&& stored ==> after.len() == outputs.len() && forall|i: int|
                0 <= i < outputs.len() ==> #[trigger] after[i] == (if outputs[i].transaction_id
                    == row.transaction_id && outputs[i].output_index == row.output_index {
                    OutputRecordView { spent_height: None, ..outputs[i] }
                } else {
                    outputs[i]
                })
        }),
{
    let stored = exists|i: int|
        0 <= i < outputs.len() && (#[trigger] outputs[i]).transaction_id == row.transaction_id
            && outputs[i].output_index == row.output_index;
    if stored {
        let i = choose|i: int|
            0 <= i < outputs.len() && (#[trigger] outputs[i]).transaction_id == row.transaction_id
                && outputs[i].output_index == row.output_index;
        assert(same_place(outputs[i], row));
    }
    if exists|i: int| 0 <= i < outputs.len() && same_place(#[trigger] outputs[i], row) {
        let i = choose|i: int| 0 <= i < outputs.len() && same_place(#[trigger] outputs[i], row);
        assert(outputs[i].transaction_id == row.transaction_id);
    }
}

/// Outputs are seen in turn: each under the row of its transaction, at its height, with its own
/// address, script and value.
pub proof fn law_outputs_are_seen_in_turn(store: StoreView, utxos: Seq<UtxoView>, u: UtxoView)
    ensures
        utxos_seen(store, Seq::<UtxoView>::empty()) == store,
        utxos_seen(store, utxos.push(u)) == utxo_seen(utxos_seen(store, utxos), u),
        ({
            let (transactions, id) = upserted_tx(store.transactions, u.txid, Some(u.height), None);
            utxo_seen(store, u) == (StoreView {
                transactions,
                outputs: revived(
                    store.outputs,
                    OutputRecordView {
                        transaction_id: id,
                        output_index: u.index,
                        address: u.address,
                        script: u.script,
                        value: u.value_zat,
                        spent_height: None,
                        spent_txid: None,
                    },
                ),
                ..store
            })
        }),
{
    assert(utxos.push(u).drop_last() =~= utxos);
}

/// A row is looked up among the transactions: the first with it.
proof fn lemma_row(txs: Seq<TxRecord>, id: i64)
    ensures
        match tx_by_row(txs, id) {
            Some(tx) => exists|k: int|
                0 <= k < txs.len() && #[trigger] txs[k] == tx && tx.id == id && forall|j: int|
                    0 <= j < k ==> (#[trigger] txs[j]).id != id,
            None => forall|j: int| 0 <= j < txs.len() ==> (#[trigger] txs[j]).id != id,
        },
    decreases txs.len(),
{
    if txs.len() > 0 {
        let init = txs.drop_last();
        lemma_row(init, id);
        assert forall|j: int| 0 <= j < init.len() implies (#[trigger] txs[j]) == init[j] by {}
        match tx_by_row(init, id) {
            Some(tx) => {
                let k = choose|k: int|
                    0 <= k < init.len() && #[trigger] init[k] == tx && tx.id == id && forall|j: int|
                        0 <= j < k ==> (#[trigger] init[j]).id != id;
                assert(txs[k] == tx);
                assert forall|j: int| 0 <= j < k implies (#[trigger] txs[j]).id != id by {
                    assert(init[j].id != id);
                }
            },
            None => {
                if txs.last().id == id {
                    assert(txs[txs.len() - 1] == txs.last());
                }
            },
        }
    }
}

/// A row is that of the first transaction with it.
pub proof fn law_row_names_its_transaction(txs: Seq<TxRecord>, id: i64)
    ensures
        tx_by_row(txs, id) is None <==> forall|j: int|
            0 <= j < txs.len() ==> (#[trigger] txs[j]).id != id,
        forall|k: int|
            0 <= k < txs.len() && (#[trigger] txs[k]).id == id && (forall|j: int|
                0 <= j < k ==> (#[trigger] txs[j]).id != id) ==> tx_by_row(txs, id) == Some(txs[k]),
{
    lemma_row(txs, id);
    if let Some(tx) = tx_by_row(txs, id) {
        let k = choose|k: int|
            0 <= k < txs.len() && #[trigger] txs[k] == tx && tx.id == id && forall|j: int|
                0 <= j < k ==> (#[trigger] txs[j]).id != id;
        assert(txs[k].id == id);
        assert forall|m: int|
            0 <= m < txs.len() && (#[trigger] txs[m]).id == id && (forall|j: int|
                0 <= j < m ==> (#[trigger] txs[j]).id != id) implies m == k by {
            if m < k {
                assert(txs[m].id != id);
            }
            if k < m {
                assert(txs[k].id != id);
            }
        }
    }
}

/// A snapshot makes spent, as of its height, exactly those unspent outputs of known
/// transactions that it does not list, and changes nothing else of what was seen.
pub proof fn law_snapshot_spends_what_it_does_not_list(
    store: StoreView,
    utxos: Seq<UtxoView>,
    as_of: u32,
)
    ensures
        ({
            let seen = utxos_seen(store, utxos);
            let after = snapshot_applied(store, utxos, as_of);
            &&& after == (StoreView { outputs: after.outputs, ..seen })
            &&& after.outputs.len() == seen.outputs.len()
            &&& forall|i: int|
                0 <= i < seen.outputs.len() ==> {
                    let o = seen.outputs[i];
                    let tx = tx_by_row(seen.transactions, o.transaction_id);
                    let listed = exists|n: int|
                        0 <= n < utxos.len() && (#[trigger] utxos[n]).txid == (tx->0).txid
                            && utxos[n].index == o.output_index;
                    #[trigger] after.outputs[i] == (if tx is Some && o.spent_height is None
                        && !listed {
                        OutputRecordView { spent_height: Some(as_of), ..o }
                    } else {
                        o
                    })
                }
        }),
{
}

/// A rewind of the store keeps exactly the rows of the sapling table whose transactions are not
/// mined above the height, in order, and undoes exactly the spends above it: `at` holds where
/// they stood.
pub proof fn law_rewind_keeps_sapling_rows(store: StoreView, height: u32) -> (at: Seq<int>)
    ensures
        ({
            let before = store.sapling;
            let after = rewound_store(store, height).sapling;
            let undone = |i: int|
                exists|k: int|
                    0 <= k < store.transactions.len() && (#[trigger] store.transactions[k]).id
                        == before[i].transaction_id && (
                    store.transactions[k].mined_height matches Some(h) && h > height);
            &&& at.len() == after.len()
            &&& forall|k: int, m: int| 0 <= k < m < at.len() ==> #[trigger] at[k] < #[trigger] at[m]
            &&& forall|k: int|
                0 <= k < at.len() ==> 0 <= #[trigger] at[k] < before.len() && !undone(at[k])
                    && after[k] == (if before[at[k]].spent_height matches Some(h) && h > height {
                    NoteRecordView { spent_height: None, spent_txid: None, ..before[at[k]] }
                } else {
                    before[at[k]]
                })
            &&& forall|i: int| 0 <= i < before.len() && !(#[trigger] undone(i)) ==> at.contains(i)
        }),
{
    let before = store.sapling;
    let all = before.map_values(|n: NoteRecordView| rewound_record(n, store.transactions, height));
    let undone = |i: int|
        exists|k: int|
            0 <= k < store.transactions.len() && (#[trigger] store.transactions[k]).id
                == before[i].transaction_id && (store.transactions[k].mined_height matches Some(h)
                && h > height);
    lemma_collect_picks(all);
    let at = choose|at: Seq<int>| #[trigger] picks(collect_some(all), all, at);
    assert forall|i: int| 0 <= i < before.len() implies (all[i] is None) == #[trigger] undone(i) by {
        if undone(i) {
            let k = choose|k: int|
                0 <= k < store.transactions.len() && (#[trigger] store.transactions[k]).id
                    == before[i].transaction_id && (
                store.transactions[k].mined_height matches Some(h) && h > height);
            assert(store.transactions[k].id == before[i].transaction_id);
        }
    }
    assert forall|k: int| 0 <= k < at.len() implies 0 <= #[trigger] at[k] < before.len() && !undone(
        at[k],
    ) by {
        assert(all[at[k]] is Some);
        assert((all[at[k]] is None) == undone(at[k]));
    }
    at
}

/// A rewind of the store keeps exactly the rows of the orchard table whose transactions are not
/// mined above the height, in order, and undoes exactly the spends above it: `at` holds where
/// they stood.
pub proof fn law_rewind_keeps_orchard_rows(store: StoreView, height: u32) -> (at: Seq<int>)
    ensures
        ({
            let before = store.orchard;
            let after = rewound_store(store, height).orchard;
            let undone = |i: int|
                exists|k: int|
                    0 <= k < store.transactions.len() && (#[trigger] store.transactions[k]).id
                        == before[i].transaction_id && (
                    store.transactions[k].mined_height matches Some(h) && h > height);
            &&& at.len() == after.len()
            &&& forall|k: int, m: int| 0 <= k < m < at.len() ==> #[trigger] at[k] < #[trigger] at[m]
            &&& forall|k: int|
                0 <= k < at.len() ==> 0 <= #[trigger] at[k] < before.len() && !undone(at[k])
                    && after[k] == (if before[at[k]].spent_height matches Some(h) && h > height {
                    NoteRecordView { spent_height: None, spent_txid: None, ..before[at[k]] }
                } else {
                    before[at[k]]
                })
            &&& forall|i: int| 0 <= i < before.len() && !(#[trigger] undone(i)) ==> at.contains(i)
        }),
{
    let before = store.orchard;
    let all = before.map_values(|n: NoteRecordView| rewound_record(n, store.transactions, height));
    let undone = |i: int|
        exists|k: int|
            0 <= k < store.transactions.len() && (#[trigger] store.transactions[k]).id
                == before[i].transaction_id && (store.transactions[k].mined_height matches Some(h)
                && h > height);
    lemma_collect_picks(all);
    let at = choose|at: Seq<int>| #[trigger] picks(collect_some(all), all, at);
    assert forall|i: int| 0 <= i < before.len() implies (all[i] is None) == #[trigger] undone(i) by {
        if undone(i) {
            let k = choose|k: int|
                0 <= k < store.transactions.len() && (#[trigger] store.transactions[k]).id
                    == before[i].transaction_id && (
                store.transactions[k].mined_height matches Some(h) && h > height);
            assert(store.transactions[k].id == before[i].transaction_id);
        }
    }
    assert forall|k: int| 0 <= k < at.len() implies 0 <= #[trigger] at[k] < before.len() && !undone(
        at[k],
    ) by {
        assert(all[at[k]] is Some);
        assert((all[at[k]] is None) == undone(at[k]));
    }
    at
}

/// A rewind of the store keeps exactly the rows of the outputs table whose transactions are not
/// mined above the height, in order, and undoes exactly the spends above it: `at` holds where
/// they stood.
pub proof fn law_rewind_keeps_outputs_rows(store: StoreView, height: u32) -> (at: Seq<int>)
    ensures
        ({
            let before = store.outputs;
            let after = rewound_store(store, height).outputs;
            let undone = |i: int|
                exists|k: int|
                    0 <= k < store.transactions.len() && (#[trigger] store.transactions[k]).id
                        == before[i].transaction_id && (
                    store.transactions[k].mined_height matches Some(h) && h > height);
            &&& at.len() == after.len()
            &&& forall|k: int, m: int| 0 <= k < m < at.len() ==> #[trigger] at[k] < #[trigger] at[m]
            &&& forall|k: int|
                0 <= k < at.len() ==> 0 <= #[trigger] at[k] < before.len() && !undone(at[k])
                    && after[k] == (if before[at[k]].spent_height matches Some(h) && h > height {
                    OutputRecordView { spent_height: None, ..before[at[k]] }
                } else {
                    before[at[k]]
                })
            &&& forall|i: int| 0 <= i < before.len() && !(#[trigger] undone(i)) ==> at.contains(i)
        }),
{
    let before = store.outputs;
    let all = before.map_values(|n: OutputRecordView| rewound_output(n, store.transactions, height));
    let undone = |i: int|
        exists|k: int|
            0 <= k < store.transactions.len() && (#[trigger] store.transactions[k]).id
                == before[i].transaction_id && (store.transactions[k].mined_height matches Some(h)
                && h > height);
    lemma_collect_picks(all);
    let at = choose|at: Seq<int>| #[trigger] picks(collect_some(all), all, at);
    assert forall|i: int| 0 <= i < before.len() implies (all[i] is None) == #[trigger] undone(i) by {
        if undone(i) {
            let k = choose|k: int|
                0 <= k < store.transactions.len() && (#[trigger] store.transactions[k]).id
                    == before[i].transaction_id && (
                store.transactions[k].mined_height matches Some(h) && h > height);
            assert(store.transactions[k].id == before[i].transaction_id);
        }
    }
    assert forall|k: int| 0 <= k < at.len() implies 0 <= #[trigger] at[k] < before.len() && !undone(
        at[k],
    ) by {
        assert(all[at[k]] is Some);
        assert((all[at[k]] is None) == undone(at[k]));
    }
    at
}

/// A rewind of the store keeps exactly the transactions that are not mined above the height, in
/// order, keeps the birthday, and takes the cursor to the height: `at` holds where they stood.
pub proof fn law_rewind_keeps_transactions(store: StoreView, height: u32) -> (at: Seq<int>)
    ensures
        ({
            let before = store.transactions;
            let after = rewound_store(store, height).transactions;
            let undone = |i: int| before[i].mined_height matches Some(h) && h > height;
            &&& rewound_store(store, height).birthday == store.birthday
            &&& rewound_store(store, height).sync == Some((height, None::<Seq<u8>>))
            &&& at.len() == after.len()
            &&& forall|k: int, m: int| 0 <= k < m < at.len() ==> #[trigger] at[k] < #[trigger] at[m]
            &&& forall|k: int|
                0 <= k < at.len() ==> 0 <= #[trigger] at[k] < before.len() && !undone(at[k])
                    && after[k] == before[at[k]]
            &&& forall|i: int| 0 <= i < before.len() && !(#[trigger] undone(i)) ==> at.contains(i)
        }),
{
    let before = store.transactions;
    let after = rewound_store(store, height).transactions;
    let all = before.map_values(
        |t: TxRecord|
            if crate::db::store::tx_undone(t, height) {
                None
            } else {
                Some(t)
            },
    );
    let undone = |i: int| before[i].mined_height matches Some(h) && h > height;
    assert(after == collect_some(all));
    lemma_collect_picks(all);
    let at = choose|at: Seq<int>| #[trigger] picks(collect_some(all), all, at);
    assert forall|i: int| 0 <= i < before.len() && !(#[trigger] undone(i)) implies at.contains(i) by {
        assert(all[i] is Some);
    }
    at
}

/// Every note is shown with the id and height of its transaction and its own parts, where its
/// transaction has a row.
pub proof fn law_note_is_shown_with_its_transaction(
    n: NoteRecordView,
    pool: Pool,
    txs: Seq<TxRecord>,
)
    ensures
        ({
            let shown = shown_note(n, pool, txs);
            match tx_by_row(txs, n.transaction_id) {
                None => shown is None,
                Some(tx) => {
                    &&& shown is Some
                    &&& (shown->0).pool == pool
                    &&& (shown->0).txid == tx.txid
                    &&& (shown->0).height == tx.mined_height
                    &&& (shown->0).output_index == n.index
                    &&& (shown->0).value == n.value
                    &&& (shown->0).memo == n.memo
                    &&& (shown->0).spent_height == n.spent_height
                    &&& (shown->0).is_sent == n.is_sent
                    &&& (shown->0).recipient == n.recipient
                },
            }
        }),
{
}

/// Every transparent output is shown with the id and height of its transaction and its own
/// parts, where its transaction has a row.
pub proof fn law_output_is_shown_with_its_transaction(o: OutputRecordView, txs: Seq<TxRecord>)
    ensures
        ({
            let shown = shown_output(o, txs);
            match tx_by_row(txs, o.transaction_id) {
                None => shown is None,
                Some(tx) => {
                    &&& shown is Some
                    &&& (shown->0).address == o.address
                    &&& (shown->0).txid == tx.txid
                    &&& (shown->0).height == tx.mined_height
                    &&& (shown->0).output_index == o.output_index
                    &&& (shown->0).value == o.value
                    &&& (shown->0).spent_height == o.spent_height
                },
            }
        }),
{
}

/// No note and no output is left out of what is shown, and none is shown twice: one more row
/// shows one more, where its transaction has a row.
pub proof fn law_rows_are_shown_one_by_one(
    notes: Seq<NoteRecordView>,
    n: NoteRecordView,
    pool: Pool,
    outputs: Seq<OutputRecordView>,
    o: OutputRecordView,
    txs: Seq<TxRecord>,
)
    ensures
        shown_notes(Seq::<NoteRecordView>::empty(), pool, txs).len() == 0,
        shown_notes(notes.push(n), pool, txs) == match shown_note(n, pool, txs) {
            Some(row) => shown_notes(notes, pool, txs).push(row),
            None => shown_notes(notes, pool, txs),
        },
        shown_outputs(Seq::<OutputRecordView>::empty(), txs).len() == 0,
        shown_outputs(outputs.push(o), txs) == match shown_output(o, txs) {
            Some(row) => shown_outputs(outputs, txs).push(row),
            None => shown_outputs(outputs, txs),
        },
{
    let f = |n: NoteRecordView| shown_note(n, pool, txs);
    let g = |o: OutputRecordView| shown_output(o, txs);
    crate::seqs::lemma_collect_push(notes.map_values(f), f(n));
    crate::seqs::lemma_collect_push(outputs.map_values(g), g(o));
    assert(notes.push(n).map_values(f) =~= notes.map_values(f).push(f(n)));
    assert(outputs.push(o).map_values(g) =~= outputs.map_values(g).push(g(o)));
    assert(Seq::<NoteRecordView>::empty().map_values(f) =~= Seq::empty());
    assert(Seq::<OutputRecordView>::empty().map_values(g) =~= Seq::empty());
}

/// What a transaction made, sent and consumed adds up row by row.
pub proof fn law_moves_add_up_row_by_row(
    notes: Seq<NoteRecordView>,
    n: NoteRecordView,
    outputs: Seq<OutputRecordView>,
    o: OutputRecordView,
    id: i64,
    sent: bool,
    txid: [u8; 32],
)
    ensures
        made_value(Seq::<NoteRecordView>::empty(), id, sent) == 0,
        made_value(notes.push(n), id, sent) == made_value(notes, id, sent) + (if n.transaction_id
            == id && n.is_sent == sent {
            n.value as nat
        } else {
            0
        }),
        consumed_value(Seq::<NoteRecordView>::empty(), txid) == 0,
        consumed_value(notes.push(n), txid) == consumed_value(notes, txid) + (if n.spent_txid
            == Some(txid) {
            n.value as nat
        } else {
            0
        }),
        paid_value(Seq::<OutputRecordView>::empty(), id) == 0,
        paid_value(outputs.push(o), id) == paid_value(outputs, id) + (if o.transaction_id == id {
            o.value as nat
        } else {
            0
        }),
{
    assert(notes.push(n).drop_last() =~= notes);
    assert(outputs.push(o).drop_last() =~= outputs);
}

/// A transaction is shown with what it brought in of both pools and the transparent side, what
/// it sent, and what it consumed.
pub proof fn law_transaction_is_shown_with_its_moves(store: StoreView, tx: TxRecord)
    ensures
        ({
            let shown = shown_tx(store, tx);
            let received = made_value(store.sapling, tx.id, false) + made_value(
                store.orchard,
                tx.id,
                false,
            ) + paid_value(store.outputs, tx.id);
            let sent = made_value(store.sapling, tx.id, true) + made_value(
                store.orchard,
                tx.id,
                true,
            );
            let spent = consumed_value(store.sapling, tx.txid) + consumed_value(
                store.orchard,
                tx.txid,
            );
            &&& shown.txid == tx.txid
            &&& shown.height == tx.mined_height
            &&& shown.tx_index == tx.tx_index
            &&& received <= u64::MAX ==> shown.received == received
            &&& sent <= u64::MAX ==> shown.sent == sent
            &&& spent <= u64::MAX ==> shown.spent == spent
        }),
{
}

/// Keys are ordered by their first difference.
pub proof fn lemma_key_le(a: Seq<u64>, b: Seq<u64>)
    requires
        a.len() == b.len(),
    ensures
        key_le(a, b) <==> (a == b || exists|i: int|
            #![trigger a[i]]
            0 <= i < a.len() && a[i] < b[i] && forall|j: int| 0 <= j < i ==> #[trigger] a[j] == b[j]),
    decreases a.len(),
{
    if a.len() == 0 {
        assert(a =~= b);
    } else {
        let x = a.drop_first();
        let y = b.drop_first();
        lemma_key_le(x, y);
        assert forall|j: int| 0 <= j < x.len() implies #[trigger] x[j] == a[j + 1] && y[j] == b[j + 1] by {}
        if a[0] < b[0] {
            assert(a[0] < b[0]);
        } else if a[0] == b[0] {
            if x == y {
                assert forall|j: int| 0 <= j < a.len() implies a[j] == b[j] by {
                    if j > 0 {
                        assert(x[j - 1] == y[j - 1]);
                    }
                }
                assert(a =~= b);
            }
            if a == b {
                assert(x =~= y);
            }
            if exists|i: int|
                #![trigger x[i]]
                0 <= i < x.len() && x[i] < y[i] && forall|j: int|
                    0 <= j < i ==> #[trigger] x[j] == y[j] {
                let i = choose|i: int|
                    #![trigger x[i]]
                    0 <= i < x.len() && x[i] < y[i] && forall|j: int|
                        0 <= j < i ==> #[trigger] x[j] == y[j];
                assert(a[i + 1] < b[i + 1]);
                assert forall|j: int| 0 <= j < i + 1 implies #[trigger] a[j] == b[j] by {
                    if j > 0 {
                        assert(x[j - 1] == y[j - 1]);
                    }
                }
            }
            if exists|i: int|
                #![trigger a[i]]
                0 <= i < a.len() && a[i] < b[i] && forall|j: int|
                    0 <= j < i ==> #[trigger] a[j] == b[j] {
                let i = choose|i: int|
                    #![trigger a[i]]
                    0 <= i < a.len() && a[i] < b[i] && forall|j: int|
                        0 <= j < i ==> #[trigger] a[j] == b[j];
                assert(i > 0);
                assert(x[i - 1] < y[i - 1]);
                assert forall|j: int| 0 <= j < i - 1 implies #[trigger] x[j] == y[j] by {
                    assert(a[j + 1] == b[j + 1]);
                }
            }
        } else {
            assert(a != b) by {
                assert(a[0] != b[0]);
            }
            if exists|i: int|
                #![trigger a[i]]
                0 <= i < a.len() && a[i] < b[i] && forall|j: int|
                    0 <= j < i ==> #[trigger] a[j] == b[j] {
                let i = choose|i: int|
                    #![trigger a[i]]
                    0 <= i < a.len() && a[i] < b[i] && forall|j: int|
                        0 <= j < i ==> #[trigger] a[j] == b[j];
                assert(a[0] == b[0]);
            }
        }
    }
}

/// Keys that are in order are so in their first two places.
proof fn lemma_first_two(a: Seq<u64>, b: Seq<u64>)
    requires
        a.len() == b.len(),
        a.len() >= 2,
        key_le(a, b),
    ensures
        a[0] <= b[0],
        a[0] == b[0] ==> a[1] <= b[1],
{
    lemma_key_le(a, b);
    if a != b {
        let i = choose|i: int|
            #![trigger a[i]]
            0 <= i < a.len() && a[i] < b[i] && forall|j: int| 0 <= j < i ==> #[trigger] a[j] == b[j];
        if i > 0 {
            assert(a[0] == b[0]);
        }
        if i > 1 {
            assert(a[1] == b[1]);
        }
    }
}

/// What is listed is listed by height, and what was not mined comes last.
pub proof fn law_listed_rows_go_by_height(
    notes: Seq<NoteRow>,
    outputs: Seq<UtxoRow>,
    txs: Seq<TxRow>,
    i: int,
    j: int,
)
    requires
        in_order(notes),
        in_order(outputs),
        in_order(txs),
        0 <= i < j,
    ensures
        j < notes.len() ==> not_after(notes[i].height, notes[j].height),
        j < outputs.len() ==> not_after(outputs[i].height, outputs[j].height),
        j < txs.len() ==> not_after(txs[i].height, txs[j].height),
{
    if j < notes.len() {
        let a = notes[i].key();
        let b = notes[j].key();
        assert(key_le(a, b));
        lemma_first_two(a, b);
    }
    if j < outputs.len() {
        let a = outputs[i].key();
        let b = outputs[j].key();
        assert(key_le(a, b));
        lemma_first_two(a, b);
    }
    if j < txs.len() {
        let a = txs[i].key();
        let b = txs[j].key();
        assert(key_le(a, b));
        lemma_first_two(a, b);
    }
}

/// Transactions of one height are listed by their index, those without one first.
pub proof fn law_listed_transactions_go_by_index(txs: Seq<TxRow>, i: int, j: int)
    requires
        in_order(txs),
        0 <= i < j < txs.len(),
        txs[i].height == txs[j].height,
    ensures
        match (txs[i].tx_index, txs[j].tx_index) {
            (Some(x), Some(y)) => x <= y,
            (Some(_), None) => false,
            (None, _) => true,
        },
{
    let a = txs[i].key();
    let b = txs[j].key();
    assert(key_le(a, b));
    lemma_key_le(a, b);
    if a != b {
        let k = choose|k: int|
            #![trigger a[k]]
            0 <= k < a.len() && a[k] < b[k] && forall|m: int| 0 <= m < k ==> #[trigger] a[m] == b[m];
        assert(a[0] == b[0] && a[1] == b[1]);
        if k == 3 {
            assert(a[2] == b[2]);
        }
    }
    assert(a[2] == (if txs[i].tx_index is Some { 1u64 } else { 0u64 }));
    assert(b[2] == (if txs[j].tx_index is Some { 1u64 } else { 0u64 }));
    if a == b {
        assert(a[3] == b[3]);
    }
}

/// Whether a height is not after another, where what was not mined comes last.
pub open spec fn not_after(a: Option<u32>, b: Option<u32>) -> bool {
    match (a, b) {
        (Some(x), Some(y)) => x <= y,
        (Some(_), None) => true,
        (None, Some(_)) => false,
        (None, None) => true,
    }
}

/// Notes of one height are listed by the bytes of their transactions' ids, then by index, and
/// then Sapling before Orchard; outputs by the bytes of the ids and then by index.
pub proof fn law_listed_rows_go_by_transaction_and_index(
    notes: Seq<NoteRow>,
    outputs: Seq<UtxoRow>,
    i: int,
    j: int,
)
    requires
        in_order(notes),
        in_order(outputs),
        0 <= i < j,
    ensures
        j < notes.len() && notes[i].height == notes[j].height ==> id_not_after(
            notes[i].txid,
            notes[j].txid,
        ) && (notes[i].txid == notes[j].txid ==> notes[i].output_index <= notes[j].output_index && (
        notes[i].output_index == notes[j].output_index ==> notes[i].pool == Pool::Sapling
            || notes[j].pool == Pool::Orchard)),
        j < outputs.len() && outputs[i].height == outputs[j].height ==> id_not_after(
            outputs[i].txid,
            outputs[j].txid,
        ) && (outputs[i].txid == outputs[j].txid ==> outputs[i].output_index
            <= outputs[j].output_index),
{
    if j < notes.len() && notes[i].height == notes[j].height {
        let a = notes[i].key();
        let b = notes[j].key();
        assert(key_le(a, b));
        lemma_key_le(a, b);
        lemma_by_id(a, b, notes[i].txid, notes[j].txid);
        if a != b {
            let k = choose|k: int|
                #![trigger a[k]]
                0 <= k < a.len() && a[k] < b[k] && forall|m: int|
                    0 <= m < k ==> #[trigger] a[m] == b[m];
            if notes[i].txid == notes[j].txid {
                assert(k >= 34);
                if k == 35 {
                    assert(a[34] == b[34]);
                }
            }
        } else {
            assert(a[34] == b[34]);
            assert(a[35] == b[35]);
        }
        assert(a[34] == notes[i].output_index && b[34] == notes[j].output_index);
    }
    if j < outputs.len() && outputs[i].height == outputs[j].height {
        let a = outputs[i].key();
        let b = outputs[j].key();
        assert(key_le(a, b));
        lemma_key_le(a, b);
        lemma_by_id(a, b, outputs[i].txid, outputs[j].txid);
        if a != b {
            let k = choose|k: int|
                #![trigger a[k]]
                0 <= k < a.len() && a[k] < b[k] && forall|m: int|
                    0 <= m < k ==> #[trigger] a[m] == b[m];
            if outputs[i].txid == outputs[j].txid {
                assert(k >= 34);
            }
        } else {
            assert(a[34] == b[34]);
        }
        assert(a[34] == outputs[i].output_index && b[34] == outputs[j].output_index);
    }
}

/// Whether an id is not after another by their bytes.
pub open spec fn id_not_after(a: [u8; 32], b: [u8; 32]) -> bool {
    a == b || exists|i: int|
        #![trigger a@[i]]
        0 <= i < 32 && a@[i] < b@[i] && forall|j: int| 0 <= j < i ==> #[trigger] a@[j] == b@[j]
}

/// Keys in order whose heights are the same have their ids in order.
proof fn lemma_by_id(a: Seq<u64>, b: Seq<u64>, x: [u8; 32], y: [u8; 32])
    requires
        a.len() == b.len() >= 34,
        key_le(a, b),
        a[0] == b[0],
        a[1] == b[1],
        forall|i: int| 0 <= i < 32 ==> a[i + 2] == #[trigger] x@[i] && b[i + 2] == y@[i],
    ensures
        id_not_after(x, y),
        x == y ==> forall|i: int| 0 <= i < 34 ==> a[i] == b[i],
{
    lemma_key_le(a, b);
    if a == b {
        assert forall|i: int| 0 <= i < 32 implies x@[i] == y@[i] by {
            assert(a[i + 2] == b[i + 2]);
        }
        assert(x =~= y);
    } else {
        let k = choose|k: int|
            #![trigger a[k]]
            0 <= k < a.len() && a[k] < b[k] && forall|m: int|
                0 <= m < k ==> #[trigger] a[m] == b[m];
        if k < 34 {
            assert(k >= 2);
            assert(x@[k - 2] < y@[k - 2]);
            assert forall|j: int| 0 <= j < k - 2 implies #[trigger] x@[j] == y@[j] by {
                assert(a[j + 2] == b[j + 2]);
            }
        } else {
            assert forall|i: int| 0 <= i < 32 implies x@[i] == y@[i] by {
                assert(a[i + 2] == b[i + 2]);
            }
            assert(x =~= y);
        }
    }
    if x == y {
        assert forall|i: int| 0 <= i < 34 implies a[i] == b[i] by {
            if i >= 2 {
                assert(x@[i - 2] == y@[i - 2]);
            }
        }
    }
}

/// The notes of a pool are those of its own table, and a nullifier is owned exactly where one of
/// them has it. A refused insertion leaves the table as it was.
pub proof fn law_pools_are_kept_apart(
    store: StoreView,
    notes: Seq<NoteRecordView>,
    nf: Seq<u8>,
    after: Seq<NoteRecordView>,
    e: StoreError,
)
    ensures
        store.notes_in(Pool::Sapling) == store.sapling,
        store.notes_in(Pool::Orchard) == store.orchard,
        has_nullifier(notes, nf) <==> exists|i: int|
            0 <= i < notes.len() && (#[trigger] notes[i]).nf == Some(nf),
        after_insertion(notes, Ok(after)) == after,
        after_insertion(notes, Err(e)) == notes,
{
}

} // verus!
