//! Laws of the wallet store: what a rewind undoes, what counts towards the balance, and
//! what a snapshot of the unspent transparent outputs decides.

use vstd::prelude::*;

use crate::chain::UtxoView;
use crate::db::store::{
    has_output, insertion, lemma_find_tx, lemma_seen_wf, lemma_tx_by_row, lies_above, max_row,
    in_snapshot, reconciled, record_spent, records_spent, rewound_output, rewound_record,
    rewound_store, row_undone, same_output, same_place, snapshot_applied, tx_by_row, tx_undone,
    unspent_notes_value, upserted_tx, utxo_record, utxo_seen, utxos_seen, NoteRecordView,
    OutputRecordView, StoreView, TxRecord,
};
use crate::seqs::{collect_some, lemma_collect_compose, lemma_collect_from, lemma_collect_has};

verus! {

/// A transaction after a rewind: gone where it was mined above the height.
pub open spec fn rewound_tx(t: TxRecord, height: u32) -> Option<TxRecord> {
    if tx_undone(t, height) {
        None
    } else {
        Some(t)
    }
}

/// The transactions after a rewind.
pub open spec fn rewound_transactions(txs: Seq<TxRecord>, height: u32) -> Seq<TxRecord> {
    collect_some(txs.map_values(|t: TxRecord| rewound_tx(t, height)))
}

/// The transactions of a rewound store.
proof fn lemma_rewound_transactions(store: StoreView, height: u32)
    ensures
        rewound_store(store, height).transactions == rewound_transactions(
            store.transactions,
            height,
        ),
{
    assert(store.transactions.map_values(
        |t: TxRecord|
            if tx_undone(t, height) {
                None
            } else {
                Some(t)
            },
    ) =~= store.transactions.map_values(|t: TxRecord| rewound_tx(t, height)));
}

/// What a rewind to a lower height undoes after one to a higher height, it undoes at once.
proof fn lemma_row_undone_twice(txs: Seq<TxRecord>, id: i64, first: u32, second: u32)
    requires
        second <= first,
    ensures
        row_undone(txs, id, second) == (row_undone(txs, id, first) || row_undone(
            rewound_transactions(txs, first),
            id,
            second,
        )),
{
    let all = txs.map_values(|t: TxRecord| rewound_tx(t, first));
    let kept = rewound_transactions(txs, first);
    if row_undone(txs, id, second) && !row_undone(txs, id, first) {
        let i = choose|i: int|
            0 <= i < txs.len() && (#[trigger] txs[i]).id == id && tx_undone(txs[i], second);
        assert(!tx_undone(txs[i], first));
        assert(all[i] == Some(txs[i]));
        lemma_collect_has(all, i);
        let k = choose|k: int| 0 <= k < kept.len() && kept[k] == txs[i];
        assert(kept[k].id == id && tx_undone(kept[k], second));
    }
    if row_undone(txs, id, first) {
        let i = choose|i: int|
            0 <= i < txs.len() && (#[trigger] txs[i]).id == id && tx_undone(txs[i], first);
        assert(txs[i].id == id && tx_undone(txs[i], second));
    }
    if row_undone(kept, id, second) {
        let k = choose|k: int|
            0 <= k < kept.len() && (#[trigger] kept[k]).id == id && tx_undone(kept[k], second);
        lemma_collect_from(all, k);
        let i = choose|i: int| 0 <= i < all.len() && #[trigger] all[i] == Some(kept[k]);
        assert(txs[i] == kept[k]);
        assert(txs[i].id == id && tx_undone(txs[i], second));
    }
}

/// Rewinding to a height and then to one that is not above it is the same as rewinding to
/// the second at once. Rewinding to a height again changes nothing.
pub proof fn law_rewinds_compose(store: StoreView, first: u32, second: u32)
    requires
        second <= first,
    ensures
        rewound_store(rewound_store(store, first), second) == rewound_store(store, second),
{
    let once = rewound_store(store, first);
    let txs = store.transactions;
    lemma_rewound_transactions(store, first);
    lemma_rewound_transactions(once, second);
    lemma_rewound_transactions(store, second);
    let tf = |t: TxRecord| rewound_tx(t, first);
    let tg = |t: TxRecord| rewound_tx(t, second);
    assert forall|i: int| 0 <= i < txs.len() implies tg(#[trigger] txs[i]) == (match tf(txs[i]) {
        Some(x) => tg(x),
        None => None,
    }) by {}
    lemma_collect_compose(txs, tf, tg, tg);
    let nf = |n: NoteRecordView| rewound_record(n, txs, first);
    let ng = |n: NoteRecordView| rewound_record(n, once.transactions, second);
    let nh = |n: NoteRecordView| rewound_record(n, txs, second);
    assert forall|i: int| 0 <= i < store.sapling.len() implies nh(#[trigger] store.sapling[i]) == (
    match nf(store.sapling[i]) {
        Some(x) => ng(x),
        None => None,
    }) by {
        lemma_row_undone_twice(txs, store.sapling[i].transaction_id, first, second);
    }
    lemma_collect_compose(store.sapling, nf, ng, nh);
    assert forall|i: int| 0 <= i < store.orchard.len() implies nh(#[trigger] store.orchard[i]) == (
    match nf(store.orchard[i]) {
        Some(x) => ng(x),
        None => None,
    }) by {
        lemma_row_undone_twice(txs, store.orchard[i].transaction_id, first, second);
    }
    lemma_collect_compose(store.orchard, nf, ng, nh);
    let of = |o: OutputRecordView| rewound_output(o, txs, first);
    let og = |o: OutputRecordView| rewound_output(o, once.transactions, second);
    let oh = |o: OutputRecordView| rewound_output(o, txs, second);
    assert forall|i: int| 0 <= i < store.outputs.len() implies oh(#[trigger] store.outputs[i]) == (
    match of(store.outputs[i]) {
        Some(x) => og(x),
        None => None,
    }) by {
        lemma_row_undone_twice(txs, store.outputs[i].transaction_id, first, second);
    }
    lemma_collect_compose(store.outputs, of, og, oh);
}

/// After a rewind no transaction is mined above the height, and nothing is spent above it.
pub proof fn law_rewind_leaves_nothing_above(store: StoreView, height: u32)
    ensures
        ({
            let after = rewound_store(store, height);
            &&& forall|i: int|
                0 <= i < after.transactions.len() ==> !tx_undone(
                    #[trigger] after.transactions[i],
                    height,
                )
            &&& forall|i: int|
                0 <= i < after.sapling.len() ==> !lies_above(
                    (#[trigger] after.sapling[i]).spent_height,
                    height,
                )
            &&& forall|i: int|
                0 <= i < after.orchard.len() ==> !lies_above(
                    (#[trigger] after.orchard[i]).spent_height,
                    height,
                )
            &&& forall|i: int|
                0 <= i < after.outputs.len() ==> !lies_above(
                    (#[trigger] after.outputs[i]).spent_height,
                    height,
                )
        }),
{
    let after = rewound_store(store, height);
    lemma_rewound_transactions(store, height);
    let txs = store.transactions.map_values(|t: TxRecord| rewound_tx(t, height));
    assert forall|i: int| 0 <= i < after.transactions.len() implies !tx_undone(
        #[trigger] after.transactions[i],
        height,
    ) by {
        lemma_collect_from(txs, i);
        let j = choose|j: int| 0 <= j < txs.len() && #[trigger] txs[j] == Some(after.transactions[i]);
        assert(rewound_tx(store.transactions[j], height) == txs[j]);
    }
    let nf = |n: NoteRecordView| rewound_record(n, store.transactions, height);
    assert forall|i: int| 0 <= i < after.sapling.len() implies !lies_above(
        (#[trigger] after.sapling[i]).spent_height,
        height,
    ) by {
        lemma_collect_from(store.sapling.map_values(nf), i);
    }
    assert forall|i: int| 0 <= i < after.orchard.len() implies !lies_above(
        (#[trigger] after.orchard[i]).spent_height,
        height,
    ) by {
        lemma_collect_from(store.orchard.map_values(nf), i);
    }
    let of = |o: OutputRecordView| rewound_output(o, store.transactions, height);
    assert forall|i: int| 0 <= i < after.outputs.len() implies !lies_above(
        (#[trigger] after.outputs[i]).spent_height,
        height,
    ) by {
        lemma_collect_from(store.outputs.map_values(of), i);
    }
}

/// A note whose transaction is not undone is still there after a rewind: as it was, or
/// unspent again where it was spent above the height.
pub proof fn law_rewind_keeps_what_is_below(store: StoreView, height: u32, i: int)
    ensures
        0 <= i < store.sapling.len() && !row_undone(
            store.transactions,
            store.sapling[i].transaction_id,
            height,
        ) ==> rewound_store(store, height).sapling.contains(
            if lies_above(store.sapling[i].spent_height, height) {
                NoteRecordView { spent_height: None, spent_txid: None, ..store.sapling[i] }
            } else {
                store.sapling[i]
            },
        ),
        0 <= i < store.orchard.len() && !row_undone(
            store.transactions,
            store.orchard[i].transaction_id,
            height,
        ) ==> rewound_store(store, height).orchard.contains(
            if lies_above(store.orchard[i].spent_height, height) {
                NoteRecordView { spent_height: None, spent_txid: None, ..store.orchard[i] }
            } else {
                store.orchard[i]
            },
        ),
{
    let nf = |n: NoteRecordView| rewound_record(n, store.transactions, height);
    if 0 <= i < store.sapling.len() && !row_undone(
        store.transactions,
        store.sapling[i].transaction_id,
        height,
    ) {
        lemma_collect_has(store.sapling.map_values(nf), i);
    }
    if 0 <= i < store.orchard.len() && !row_undone(
        store.transactions,
        store.orchard[i].transaction_id,
        height,
    ) {
        lemma_collect_has(store.orchard.map_values(nf), i);
    }
}

/// A rewind undoes a spend that was recorded above its height.
pub proof fn law_rewind_undoes_spends(
    notes: Seq<NoteRecordView>,
    txs: Seq<TxRecord>,
    nf: Seq<u8>,
    spent_at: u32,
    txid: [u8; 32],
    height: u32,
    i: int,
)
    requires
        spent_at > height,
        0 <= i < notes.len(),
        notes[i].spent_height is None,
        notes[i].spent_txid is None,
    ensures
        rewound_record(records_spent(notes, nf, spent_at, txid)[i], txs, height) == rewound_record(
            notes[i],
            txs,
            height,
        ),
{
}

/// A note counts towards the balance exactly where it is unspent and was not sent.
pub proof fn law_note_counts_while_unspent(notes: Seq<NoteRecordView>, row: NoteRecordView)
    ensures
        unspent_notes_value(notes.push(row)) == unspent_notes_value(notes) + (if row.spent_height
            is None && !row.is_sent {
            row.value as nat
        } else {
            0
        }),
{
    assert(notes.push(row).drop_last() =~= notes);
}

/// A note that was seen spent counts nothing.
pub proof fn law_spent_note_counts_nothing(
    notes: Seq<NoteRecordView>,
    nf: Seq<u8>,
    height: u32,
    txid: [u8; 32],
)
    requires
        forall|i: int| 0 <= i < notes.len() ==> (#[trigger] notes[i]).nf == Some(nf),
    ensures
        unspent_notes_value(records_spent(notes, nf, height, txid)) == 0,
    decreases notes.len(),
{
    if notes.len() > 0 {
        let init = notes.drop_last();
        assert forall|i: int| 0 <= i < init.len() implies (#[trigger] init[i]).nf == Some(nf) by {
            assert(init[i] == notes[i]);
        }
        law_spent_note_counts_nothing(init, nf, height, txid);
        let spent = records_spent(notes, nf, height, txid);
        assert(spent.drop_last() =~= records_spent(init, nf, height, txid));
        assert(spent.last() == record_spent(notes.last(), nf, height, txid));
        assert(notes[notes.len() - 1].nf == Some(nf));
    }
}

/// Inserting a note again changes nothing.
pub proof fn law_insertion_is_idempotent(
    notes: Seq<NoteRecordView>,
    txs: Seq<TxRecord>,
    row: NoteRecordView,
)
    requires
        insertion(notes, txs, row) is Ok,
    ensures
        insertion(insertion(notes, txs, row)->Ok_0, txs, row) == insertion(notes, txs, row),
{
    let after = insertion(notes, txs, row)->Ok_0;
    if !has_output(notes, row) {
        assert(same_output(after[notes.len() as int], row));
        assert(has_output(after, row));
    }
}

/// Whether a transparent output is stored and unspent.
pub open spec fn listed_unspent(store: StoreView, u: UtxoView) -> bool {
    exists|i: int, k: int|
        0 <= i < store.outputs.len() && 0 <= k < store.transactions.len() && (
        #[trigger] store.outputs[i]).output_index == u.index && store.outputs[i].spent_height is None
            && (#[trigger] store.transactions[k]).id == store.outputs[i].transaction_id
            && store.transactions[k].txid == u.txid
}

/// Recording a transaction keeps every transaction's row and id, and gives the recorded
/// one its row.
proof fn lemma_upsert_keeps(
    txs: Seq<TxRecord>,
    txid: [u8; 32],
    height: Option<u32>,
    tx_index: Option<u32>,
)
    ensures
        ({
            let (after, id) = upserted_tx(txs, txid, height, tx_index);
            &&& after.len() >= txs.len()
            &&& forall|k: int|
                0 <= k < txs.len() ==> (#[trigger] after[k]).id == txs[k].id && after[k].txid
                    == txs[k].txid
            &&& exists|k: int|
                0 <= k < after.len() && (#[trigger] after[k]).id == id && after[k].txid == txid
        }),
{
    let (after, id) = upserted_tx(txs, txid, height, tx_index);
    let n = lemma_first_tx(txs, txid);
    lemma_find_tx(txs, txid, n);
    if n < txs.len() {
        assert(after[n].id == id && after[n].txid == txid);
    } else {
        assert(after[txs.len() as int].id == id && after[txs.len() as int].txid == txid);
    }
}

/// There is a first transaction with an id, or none.
pub proof fn lemma_first_tx(txs: Seq<TxRecord>, txid: [u8; 32]) -> (n: int)
    ensures
        0 <= n <= txs.len(),
        forall|j: int| 0 <= j < n ==> (#[trigger] txs[j]).txid != txid,
        n < txs.len() ==> txs[n].txid == txid,
    decreases txs.len(),
{
    if txs.len() == 0 {
        0
    } else {
        let init = txs.drop_last();
        let n = lemma_first_tx(init, txid);
        assert forall|j: int| 0 <= j < n implies (#[trigger] txs[j]).txid != txid by {
            assert(init[j].txid != txid);
        }
        if n < init.len() {
            n
        } else if txs.last().txid == txid {
            n
        } else {
            n + 1
        }
    }
}

/// An output that was seen unspent is stored and unspent, and seeing another leaves it so.
proof fn lemma_seen_listed(store: StoreView, u: UtxoView, v: UtxoView)
    ensures
        listed_unspent(utxo_seen(store, u), u),
        listed_unspent(store, v) ==> listed_unspent(utxo_seen(store, u), v),
{
    let after = utxo_seen(store, u);
    let (txs, id) = upserted_tx(store.transactions, u.txid, Some(u.height), None);
    lemma_upsert_keeps(store.transactions, u.txid, Some(u.height), None);
    let row = utxo_record(id, u);
    let k = choose|k: int| 0 <= k < txs.len() && (#[trigger] txs[k]).id == id && txs[k].txid == u.txid;
    if exists|i: int| 0 <= i < store.outputs.len() && same_place(#[trigger] store.outputs[i], row) {
        let i = choose|i: int|
            0 <= i < store.outputs.len() && same_place(#[trigger] store.outputs[i], row);
        assert(after.outputs[i].spent_height is None);
        assert(after.outputs[i].output_index == u.index);
        assert(after.transactions[k].id == after.outputs[i].transaction_id);
    } else {
        let i = store.outputs.len() as int;
        assert(after.outputs[i] == row);
        assert(after.outputs[i].output_index == u.index);
        assert(after.transactions[k].id == after.outputs[i].transaction_id);
    }
    if listed_unspent(store, v) {
        let (i, k) = choose|i: int, k: int|
            0 <= i < store.outputs.len() && 0 <= k < store.transactions.len() && (
            #[trigger] store.outputs[i]).output_index == v.index && store.outputs[i].spent_height
                is None && (#[trigger] store.transactions[k]).id == store.outputs[i].transaction_id
                && store.transactions[k].txid == v.txid;
        assert(after.outputs[i].output_index == v.index);
        assert(after.outputs[i].spent_height is None);
        assert(after.transactions[k].id == after.outputs[i].transaction_id);
        assert(after.transactions[k].txid == v.txid);
    }
}

/// Every output of a snapshot that was seen is stored and unspent.
proof fn lemma_all_listed(store: StoreView, utxos: Seq<UtxoView>, n: int)
    requires
        0 <= n < utxos.len(),
    ensures
        listed_unspent(utxos_seen(store, utxos), utxos[n]),
    decreases utxos.len(),
{
    let init = utxos.drop_last();
    let before = utxos_seen(store, init);
    lemma_seen_listed(before, utxos.last(), utxos[n]);
    if n < init.len() {
        lemma_all_listed(store, init, n);
        assert(init[n] == utxos[n]);
    }
}

/// After a snapshot exactly the outputs in it are unspent: each of them is stored and
/// unspent, whatever was recorded of it before, and an output that is not among them is
/// spent.
pub proof fn law_snapshot_decides_what_is_unspent(
    store: StoreView,
    utxos: Seq<UtxoView>,
    as_of: u32,
)
    requires
        store.wf(),
        max_row(store.transactions) + utxos.len() < i64::MAX,
    ensures
        forall|n: int|
            0 <= n < utxos.len() ==> listed_unspent(
                snapshot_applied(store, utxos, as_of),
                #[trigger] utxos[n],
            ),
        forall|i: int|
            #![trigger snapshot_applied(store, utxos, as_of).outputs[i]]
            0 <= i < snapshot_applied(store, utxos, as_of).outputs.len() ==> {
                let after = snapshot_applied(store, utxos, as_of);
                after.outputs[i].spent_height is None ==> (tx_by_row(
                    after.transactions,
                    after.outputs[i].transaction_id,
                ) matches Some(tx) ==> in_snapshot(utxos, tx.txid, after.outputs[i].output_index))
            },
{
    let seen = utxos_seen(store, utxos);
    let after = snapshot_applied(store, utxos, as_of);
    lemma_seen_wf(store, utxos);
    assert forall|n: int| 0 <= n < utxos.len() implies listed_unspent(after, #[trigger] utxos[n]) by {
        let u = utxos[n];
        lemma_all_listed(store, utxos, n);
        let (i, k) = choose|i: int, k: int|
            0 <= i < seen.outputs.len() && 0 <= k < seen.transactions.len() && (
            #[trigger] seen.outputs[i]).output_index == u.index && seen.outputs[i].spent_height
                is None && (#[trigger] seen.transactions[k]).id == seen.outputs[i].transaction_id
                && seen.transactions[k].txid == u.txid;
        let id = seen.outputs[i].transaction_id;
        assert forall|j: int| 0 <= j < k implies (#[trigger] seen.transactions[j]).id != id by {
            assert(seen.transactions[j].id != seen.transactions[k].id);
        }
        lemma_tx_by_row(seen.transactions, id, k);
        assert(in_snapshot(utxos, u.txid, u.index));
        assert(after.outputs[i] == reconciled(seen.outputs[i], seen.transactions, utxos, as_of));
        assert(after.outputs[i] == seen.outputs[i]);
        assert(after.transactions[k] == seen.transactions[k]);
    }
}

} // verus!
