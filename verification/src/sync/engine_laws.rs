//! Laws of the persistence engine: writing a batch again changes nothing, so a pass that
//! was cut short can be repeated.

use vstd::prelude::*;

use crate::db::account::{note_record, Note, ShieldedNote};
use crate::db::store::{
    has_output, insertion, lemma_find_tx, lemma_upsert_row, lemma_upserted_tx, max_row, same_output,
    transactions_wf, upserted_tx, NoteRecordView, Pool, StoreError, StoreView, TxRecord,
};
use crate::db::store_laws::lemma_first_tx;
use crate::db::sync::note_stored;
use crate::proto::CompactBlock;
use crate::sync::engine::{
    engine_applied, heights_differ, meta_of, scanned_stored, spend_stored,
    spends_stored, with_block, with_blocks, BlockMeta, EngineView, ScannedNote, ScannedSpend,
};

verus! {

/// Where each transaction was mined: its height and its index in the block.
pub type Mined = spec_fn([u8; 32]) -> (u32, u32);

/// Whether a transaction is recorded where it was mined.
pub open spec fn recorded(tx: TxRecord, mined: Mined) -> bool {
    tx.mined_height == Some(mined(tx.txid).0) && tx.tx_index == Some(mined(tx.txid).1)
}

/// Whether the transactions hold one, recorded where it was mined.
pub open spec fn holds_recorded(txs: Seq<TxRecord>, txid: [u8; 32], mined: Mined) -> bool {
    exists|k: int|
        0 <= k < txs.len() && (#[trigger] txs[k]).txid == txid && recorded(txs[k], mined)
}

/// Whether a store goes on from another: no transaction and no note is lost or moved, and
/// what is recorded where it was mined stays so.
pub open spec fn goes_on(before: StoreView, after: StoreView, mined: Mined) -> bool {
    &&& before.transactions.len() <= after.transactions.len()
    &&& forall|k: int|
        0 <= k < before.transactions.len() ==> (#[trigger] after.transactions[k]).id
            == before.transactions[k].id && after.transactions[k].txid
            == before.transactions[k].txid && (recorded(before.transactions[k], mined) ==> recorded(
            after.transactions[k],
            mined,
        ))
    &&& before.sapling.len() <= after.sapling.len()
    &&& forall|i: int|
        0 <= i < before.sapling.len() ==> same_output(
            #[trigger] after.sapling[i],
            before.sapling[i],
        )
    &&& before.orchard.len() <= after.orchard.len()
    &&& forall|i: int|
        0 <= i < before.orchard.len() ==> same_output(
            #[trigger] after.orchard[i],
            before.orchard[i],
        )
}

/// Going on is transitive.
proof fn lemma_goes_on(a: StoreView, b: StoreView, c: StoreView, mined: Mined)
    requires
        goes_on(a, b, mined),
        goes_on(b, c, mined),
    ensures
        goes_on(a, c, mined),
{
    assert forall|k: int| 0 <= k < a.transactions.len() implies (#[trigger] c.transactions[k]).id
        == a.transactions[k].id && c.transactions[k].txid == a.transactions[k].txid && (recorded(
        a.transactions[k],
        mined,
    ) ==> recorded(c.transactions[k], mined)) by {
        assert(b.transactions[k].id == a.transactions[k].id);
    }
    assert forall|i: int| 0 <= i < a.sapling.len() implies same_output(
        #[trigger] c.sapling[i],
        a.sapling[i],
    ) by {
        assert(same_output(b.sapling[i], a.sapling[i]));
    }
    assert forall|i: int| 0 <= i < a.orchard.len() implies same_output(
        #[trigger] c.orchard[i],
        a.orchard[i],
    ) by {
        assert(same_output(b.orchard[i], a.orchard[i]));
    }
}

/// Recording a transaction where it was mined goes on from what was there, and leaves it
/// recorded there.
proof fn lemma_upsert_recorded(store: StoreView, txid: [u8; 32], mined: Mined)
    ensures
        ({
            let (txs, id) = upserted_tx(
                store.transactions,
                txid,
                Some(mined(txid).0),
                Some(mined(txid).1),
            );
            &&& goes_on(store, StoreView { transactions: txs, ..store }, mined)
            &&& exists|k: int|
                0 <= k < txs.len() && (#[trigger] txs[k]).txid == txid && txs[k].id == id && recorded(
                    txs[k],
                    mined,
                )
        }),
{
    let before = store.transactions;
    let (txs, id) = upserted_tx(before, txid, Some(mined(txid).0), Some(mined(txid).1));
    let n = lemma_first_tx(before, txid);
    lemma_find_tx(before, txid, n);
    if n < before.len() {
        assert(txs[n].txid == txid && txs[n].id == id && recorded(txs[n], mined));
    } else {
        let k = before.len() as int;
        assert(txs[k].txid == txid && txs[k].id == id && recorded(txs[k], mined));
    }
}

/// Recording a transaction again where it was mined changes nothing.
proof fn lemma_upsert_again(txs: Seq<TxRecord>, txid: [u8; 32], mined: Mined)
    requires
        transactions_wf(txs),
        holds_recorded(txs, txid, mined),
    ensures
        ({
            let again = upserted_tx(txs, txid, Some(mined(txid).0), Some(mined(txid).1));
            &&& again.0 == txs
            &&& exists|k: int|
                0 <= k < txs.len() && (#[trigger] txs[k]).txid == txid && txs[k].id == again.1
        }),
{
    let k = choose|k: int|
        0 <= k < txs.len() && (#[trigger] txs[k]).txid == txid && recorded(txs[k], mined);
    assert forall|j: int| 0 <= j < k implies (#[trigger] txs[j]).txid != txid by {
        assert(txs[j].txid != txs[k].txid);
    }
    lemma_find_tx(txs, txid, k);
    let again = upserted_tx(txs, txid, Some(mined(txid).0), Some(mined(txid).1));
    assert(again.0 =~= txs);
    assert(txs[k].id == again.1);
}

/// The notes of the pool of a note.
pub open spec fn pool_of(store: StoreView, note: Note) -> Seq<NoteRecordView> {
    match note.note {
        ShieldedNote::Sapling(_) => store.sapling,
        ShieldedNote::Orchard(_) => store.orchard,
    }
}

/// Whether the store holds the output of a note, and its transaction where it was mined.
pub open spec fn holds_note(store: StoreView, note: Note, mined: Mined) -> bool {
    exists|k: int, i: int|
        0 <= k < store.transactions.len() && 0 <= i < pool_of(store, note).len() && (
        #[trigger] store.transactions[k]).txid == note.txid && recorded(
            store.transactions[k],
            mined,
        ) && (#[trigger] pool_of(store, note)[i]).transaction_id == store.transactions[k].id
            && pool_of(store, note)[i].index == note.output_index
}

/// What a store holds, a store that goes on from it holds.
proof fn lemma_still_held(before: StoreView, after: StoreView, note: Note, mined: Mined)
    requires
        goes_on(before, after, mined),
        holds_note(before, note, mined),
    ensures
        holds_note(after, note, mined),
{
    let (k, i) = choose|k: int, i: int|
        0 <= k < before.transactions.len() && 0 <= i < pool_of(before, note).len() && (
        #[trigger] before.transactions[k]).txid == note.txid && recorded(
            before.transactions[k],
            mined,
        ) && (#[trigger] pool_of(before, note)[i]).transaction_id == before.transactions[k].id
            && pool_of(before, note)[i].index == note.output_index;
    assert(after.transactions[k].id == before.transactions[k].id);
    assert(same_output(pool_of(after, note)[i], pool_of(before, note)[i]));
    assert(pool_of(after, note)[i].transaction_id == after.transactions[k].id);
}

/// What transactions hold, a store that goes on from them holds.
proof fn lemma_still_recorded(before: StoreView, after: StoreView, txid: [u8; 32], mined: Mined)
    requires
        goes_on(before, after, mined),
        holds_recorded(before.transactions, txid, mined),
    ensures
        holds_recorded(after.transactions, txid, mined),
{
    let k = choose|k: int|
        0 <= k < before.transactions.len() && (#[trigger] before.transactions[k]).txid == txid
            && recorded(before.transactions[k], mined);
    assert(after.transactions[k].txid == txid);
}

/// Storing a note goes on from what was there, and the store holds it then.
proof fn lemma_note_stored(store: StoreView, note: Note, position: Option<u64>, mined: Mined)
    requires
        (note.height, note.tx_index) == mined(note.txid),
        note_stored(store, note, position).1 is None,
    ensures
        goes_on(store, note_stored(store, note, position).0, mined),
        holds_note(note_stored(store, note, position).0, note, mined),
        note_record(note, 0, position) is Some,
{
    let (txs, id) = upserted_tx(
        store.transactions,
        note.txid,
        Some(note.height),
        Some(note.tx_index),
    );
    let given = StoreView { transactions: txs, ..store };
    let after = note_stored(store, note, position).0;
    lemma_upsert_recorded(store, note.txid, mined);
    let k = choose|k: int|
        0 <= k < txs.len() && (#[trigger] txs[k]).txid == note.txid && txs[k].id == id && recorded(
            txs[k],
            mined,
        );
    let row = note_record(note, id, position)->0;
    let table = pool_of(given, note);
    let now = pool_of(after, note);
    assert(insertion(table, txs, row) == Ok::<Seq<NoteRecordView>, StoreError>(now));
    if has_output(table, row) {
        let i = choose|i: int| 0 <= i < table.len() && same_output(#[trigger] table[i], row);
        assert(now[i].transaction_id == after.transactions[k].id);
        assert(now[i].index == note.output_index);
    } else {
        let i = table.len() as int;
        assert(now[i].transaction_id == after.transactions[k].id);
        assert(now[i].index == note.output_index);
    }
    assert(goes_on(given, after, mined));
    lemma_goes_on(store, given, after, mined);
    assert(after.transactions[k].txid == note.txid);
}

/// Storing a note that is held changes nothing.
proof fn lemma_note_again(store: StoreView, note: Note, position: Option<u64>, mined: Mined)
    requires
        transactions_wf(store.transactions),
        (note.height, note.tx_index) == mined(note.txid),
        holds_note(store, note, mined),
        note_record(note, 0, position) is Some,
    ensures
        note_stored(store, note, position) == (store, None::<StoreError>),
{
    let (k, i) = choose|k: int, i: int|
        0 <= k < store.transactions.len() && 0 <= i < pool_of(store, note).len() && (
        #[trigger] store.transactions[k]).txid == note.txid && recorded(
            store.transactions[k],
            mined,
        ) && (#[trigger] pool_of(store, note)[i]).transaction_id == store.transactions[k].id
            && pool_of(store, note)[i].index == note.output_index;
    assert(holds_recorded(store.transactions, note.txid, mined));
    lemma_upsert_again(store.transactions, note.txid, mined);
    let (txs, id) = upserted_tx(
        store.transactions,
        note.txid,
        Some(note.height),
        Some(note.tx_index),
    );
    let j = choose|j: int|
        0 <= j < store.transactions.len() && (#[trigger] store.transactions[j]).txid == note.txid
            && store.transactions[j].id == id;
    if j < k {
        assert(store.transactions[j].txid != store.transactions[k].txid);
    } else if k < j {
        assert(store.transactions[k].txid != store.transactions[j].txid);
    }
    let row = note_record(note, id, position)->0;
    let table = pool_of(store, note);
    assert(same_output(table[i], row));
    assert(has_output(table, row));
    assert(StoreView { transactions: txs, ..store } == store);
}

/// Whether notes are found where their transactions were mined.
pub open spec fn notes_mined(notes: Seq<ScannedNote>, mined: Mined) -> bool {
    forall|j: int|
        0 <= j < notes.len() ==> ((#[trigger] notes[j]).note.height, notes[j].note.tx_index)
            == mined(notes[j].note.txid)
}

/// Whether spends are found where their transactions were mined.
pub open spec fn spends_mined(spends: Seq<ScannedSpend>, mined: Mined) -> bool {
    forall|j: int|
        0 <= j < spends.len() ==> ((#[trigger] spends[j]).spend.height, spends[j].tx_index)
            == mined(spends[j].spend.txid)
}

/// Whether the store holds every note.
pub open spec fn holds_notes(store: StoreView, notes: Seq<ScannedNote>, mined: Mined) -> bool {
    forall|j: int|
        0 <= j < notes.len() ==> holds_note(
            store,
            (#[trigger] notes[j]).note,
            mined,
        ) && note_record(
            notes[j].note,
            0,
            notes[j].position,
        ) is Some
}

/// Storing notes goes on from what was there, and the store holds them all then.
proof fn lemma_notes_stored(store: StoreView, notes: Seq<ScannedNote>, mined: Mined)
    requires
        notes_mined(notes, mined),
        scanned_stored(store, notes).1 is None,
        transactions_wf(store.transactions),
        max_row(store.transactions) + notes.len() < i64::MAX,
    ensures
        goes_on(store, scanned_stored(store, notes).0, mined),
        holds_notes(scanned_stored(store, notes).0, notes, mined),
        transactions_wf(scanned_stored(store, notes).0.transactions),
        max_row(scanned_stored(store, notes).0.transactions) <= max_row(store.transactions)
            + notes.len(),
    decreases notes.len(),
{
    if notes.len() > 0 {
        let init = notes.drop_last();
        let last = notes.last();
        assert forall|j: int| 0 <= j < init.len() implies ((#[trigger] init[j]).note.height, init[j].note.tx_index)
            == mined(init[j].note.txid) by {
            assert(init[j] == notes[j]);
        }
        assert(last == notes[notes.len() - 1]);
        lemma_notes_stored(store, init, mined);
        let before = scanned_stored(store, init).0;
        let after = scanned_stored(store, notes).0;
        lemma_note_stored(before, last.note, last.position, mined);
        lemma_goes_on(store, before, after, mined);
        lemma_upserted_tx(
            before.transactions,
            last.note.txid,
            Some(last.note.height),
            Some(last.note.tx_index),
        );
        lemma_upsert_row(
            before.transactions,
            last.note.txid,
            Some(last.note.height),
            Some(last.note.tx_index),
        );
        assert forall|j: int| 0 <= j < notes.len() implies holds_note(
            after,
            (#[trigger] notes[j]).note,
            mined,
        ) && note_record(notes[j].note, 0, notes[j].position) is Some by {
            if j < init.len() {
                assert(init[j] == notes[j]);
                lemma_still_held(before, after, notes[j].note, mined);
            }
        }
    }
}

/// Storing notes that are held changes nothing.
proof fn lemma_notes_again(store: StoreView, notes: Seq<ScannedNote>, mined: Mined)
    requires
        transactions_wf(store.transactions),
        notes_mined(notes, mined),
        holds_notes(store, notes, mined),
    ensures
        scanned_stored(store, notes) == (store, None::<StoreError>),
    decreases notes.len(),
{
    if notes.len() > 0 {
        let init = notes.drop_last();
        assert forall|j: int| 0 <= j < init.len() implies ((#[trigger] init[j]).note.height, init[j].note.tx_index)
            == mined(init[j].note.txid) by {
            assert(init[j] == notes[j]);
        }
        assert forall|j: int| 0 <= j < init.len() implies holds_note(
            store,
            (#[trigger] init[j]).note,
            mined,
        ) && note_record(init[j].note, 0, init[j].position) is Some by {
            assert(init[j] == notes[j]);
        }
        lemma_notes_again(store, init, mined);
        assert(notes.last() == notes[notes.len() - 1]);
        lemma_note_again(store, notes.last().note, notes.last().position, mined);
    }
}

/// The last spend of a nullifier: the height and the transaction.
pub open spec fn last_spend(spends: Seq<ScannedSpend>, pool: Pool, nf: Option<Seq<u8>>) -> Option<
    (u32, [u8; 32]),
>
    decreases spends.len(),
{
    if spends.len() == 0 {
        None
    } else if spends.last().spend.pool == pool && nf == Some(spends.last().spend.nf@) {
        Some((spends.last().spend.height, spends.last().spend.txid))
    } else {
        last_spend(spends.drop_last(), pool, nf)
    }
}

/// A note after some spends.
pub open spec fn spent_by_all(
    spends: Seq<ScannedSpend>,
    pool: Pool,
    note: NoteRecordView,
) -> NoteRecordView {
    match last_spend(spends, pool, note.nf) {
        Some((height, txid)) => NoteRecordView {
            spent_height: Some(height),
            spent_txid: Some(txid),
            ..note
        },
        None => note,
    }
}

/// A note table after some spends.
pub open spec fn table_spent(
    notes: Seq<NoteRecordView>,
    spends: Seq<ScannedSpend>,
    pool: Pool,
) -> Seq<
    NoteRecordView,
> {
    notes.map_values(|n: NoteRecordView| spent_by_all(spends, pool, n))
}

/// Spends change only the notes that they spend, and the last spend of a note stands.
proof fn lemma_spends_tables(store: StoreView, spends: Seq<ScannedSpend>)
    ensures
        ({
            let after = spends_stored(store, spends);
            &&& after.sapling == table_spent(store.sapling, spends, Pool::Sapling)
            &&& after.orchard == table_spent(store.orchard, spends, Pool::Orchard)
            &&& after.outputs == store.outputs
            &&& after.birthday == store.birthday
            &&& after.sync == store.sync
        }),
    decreases spends.len(),
{
    if spends.len() > 0 {
        lemma_spends_tables(store, spends.drop_last());
        let before = spends_stored(store, spends.drop_last());
        let after = spends_stored(store, spends);
        assert(after == spend_stored(before, spends.last()));
    }
    let after = spends_stored(store, spends);
    assert(after.sapling =~= table_spent(store.sapling, spends, Pool::Sapling));
    assert(after.orchard =~= table_spent(store.orchard, spends, Pool::Orchard));
}

/// Whether every spending transaction is recorded where it was mined.
pub open spec fn holds_spends(txs: Seq<TxRecord>, spends: Seq<ScannedSpend>, mined: Mined) -> bool {
    forall|j: int|
        0 <= j < spends.len() ==> holds_recorded(txs, (#[trigger] spends[j]).spend.txid, mined)
}

/// Recording spends goes on from what was there, and leaves their transactions recorded.
proof fn lemma_spends_stored(store: StoreView, spends: Seq<ScannedSpend>, mined: Mined)
    requires
        spends_mined(spends, mined),
        transactions_wf(store.transactions),
        max_row(store.transactions) + spends.len() < i64::MAX,
    ensures
        goes_on(store, spends_stored(store, spends), mined),
        holds_spends(spends_stored(store, spends).transactions, spends, mined),
        transactions_wf(spends_stored(store, spends).transactions),
        max_row(spends_stored(store, spends).transactions) <= max_row(store.transactions)
            + spends.len(),
    decreases spends.len(),
{
    if spends.len() > 0 {
        let init = spends.drop_last();
        let last = spends.last();
        assert forall|j: int| 0 <= j < init.len() implies ((#[trigger] init[j]).spend.height, init[j].tx_index)
            == mined(init[j].spend.txid) by {
            assert(init[j] == spends[j]);
        }
        assert(last == spends[spends.len() - 1]);
        lemma_spends_stored(store, init, mined);
        let before = spends_stored(store, init);
        let after = spends_stored(store, spends);
        lemma_upsert_recorded(before, last.spend.txid, mined);
        let (txs, id) = upserted_tx(
            before.transactions,
            last.spend.txid,
            Some(last.spend.height),
            Some(last.tx_index),
        );
        let given = StoreView { transactions: txs, ..before };
        assert(after.transactions == txs);
        assert(goes_on(given, after, mined));
        lemma_goes_on(before, given, after, mined);
        lemma_goes_on(store, before, after, mined);
        lemma_upserted_tx(
            before.transactions,
            last.spend.txid,
            Some(last.spend.height),
            Some(last.tx_index),
        );
        lemma_upsert_row(
            before.transactions,
            last.spend.txid,
            Some(last.spend.height),
            Some(last.tx_index),
        );
        assert(holds_recorded(txs, last.spend.txid, mined));
        assert forall|j: int| 0 <= j < spends.len() implies holds_recorded(
            after.transactions,
            (#[trigger] spends[j]).spend.txid,
            mined,
        ) by {
            if j < init.len() {
                assert(init[j] == spends[j]);
                lemma_still_recorded(before, after, spends[j].spend.txid, mined);
            }
        }
    }
}

/// Recording spends again records no transaction anew.
proof fn lemma_spends_again(store: StoreView, spends: Seq<ScannedSpend>, mined: Mined)
    requires
        transactions_wf(store.transactions),
        spends_mined(spends, mined),
        holds_spends(store.transactions, spends, mined),
    ensures
        spends_stored(store, spends).transactions == store.transactions,
    decreases spends.len(),
{
    if spends.len() > 0 {
        let init = spends.drop_last();
        let last = spends.last();
        assert forall|j: int| 0 <= j < init.len() implies ((#[trigger] init[j]).spend.height, init[j].tx_index)
            == mined(init[j].spend.txid) by {
            assert(init[j] == spends[j]);
        }
        assert forall|j: int| 0 <= j < init.len() implies holds_recorded(
            store.transactions,
            (#[trigger] init[j]).spend.txid,
            mined,
        ) by {
            assert(init[j] == spends[j]);
        }
        lemma_spends_again(store, init, mined);
        assert(last == spends[spends.len() - 1]);
        lemma_upsert_again(store.transactions, last.spend.txid, mined);
    }
}

/// Whether no two blocks have the same height.
pub open spec fn block_heights_differ(blocks: Seq<CompactBlock>) -> bool {
    forall|i: int, j: int|
        0 <= i < j < blocks.len() ==> (#[trigger] blocks[i]).height as u32 != (
        #[trigger] blocks[j]).height as u32
}

/// Whether a list of headers holds those of the blocks.
pub open spec fn holds_blocks(metas: Seq<BlockMeta>, blocks: Seq<CompactBlock>) -> bool {
    forall|j: int| 0 <= j < blocks.len() ==> metas.contains(meta_of(#[trigger] blocks[j]))
}

/// Putting headers in keeps them apart, and the list holds them then.
proof fn lemma_blocks_put(metas: Seq<BlockMeta>, blocks: Seq<CompactBlock>)
    requires
        heights_differ(metas),
        block_heights_differ(blocks),
    ensures
        heights_differ(with_blocks(metas, blocks)),
        holds_blocks(with_blocks(metas, blocks), blocks),
    decreases blocks.len(),
{
    if blocks.len() > 0 {
        let init = blocks.drop_last();
        assert forall|i: int, j: int| 0 <= i < j < init.len() implies (#[trigger] init[i]).height as u32
            != (#[trigger] init[j]).height as u32 by {
            assert(init[i] == blocks[i] && init[j] == blocks[j]);
        }
        lemma_blocks_put(metas, init);
        let before = with_blocks(metas, init);
        let meta = meta_of(blocks.last());
        let after = with_block(before, meta);
        lemma_block_put(before, meta);
        assert forall|j: int| 0 <= j < blocks.len() implies after.contains(
            meta_of(#[trigger] blocks[j]),
        ) by {
            if j < init.len() {
                let other = meta_of(blocks[j]);
                assert(init[j] == blocks[j]);
                assert(before.contains(other));
                let i = choose|i: int| 0 <= i < before.len() && before[i] == other;
                assert(blocks[j].height as u32 != blocks[blocks.len() - 1].height as u32);
                assert(after[i] == other);
            }
        }
    }
}

/// Putting a header in keeps the headers apart and changes none at another height.
proof fn lemma_block_put(metas: Seq<BlockMeta>, meta: BlockMeta)
    requires
        heights_differ(metas),
    ensures
        heights_differ(with_block(metas, meta)),
        with_block(metas, meta).contains(meta),
        metas.len() <= with_block(metas, meta).len(),
        forall|i: int|
            0 <= i < metas.len() && (#[trigger] metas[i]).height != meta.height ==> with_block(
                metas,
                meta,
            )[i] == metas[i],
{
    let after = with_block(metas, meta);
    if exists|i: int| 0 <= i < metas.len() && (#[trigger] metas[i]).height == meta.height {
        let k = choose|i: int| 0 <= i < metas.len() && (#[trigger] metas[i]).height == meta.height;
        assert(after[k] == meta);
        assert forall|i: int, j: int| 0 <= i < j < after.len() implies (#[trigger] after[i]).height
            != (#[trigger] after[j]).height by {
            assert(metas[i].height != metas[j].height);
        }
    } else {
        assert(after[metas.len() as int] == meta);
        assert forall|i: int, j: int| 0 <= i < j < after.len() implies (#[trigger] after[i]).height
            != (#[trigger] after[j]).height by {
            assert(after[i] == metas[i]);
            if j < metas.len() {
                assert(after[j] == metas[j]);
                assert(metas[i].height != metas[j].height);
            }
        }
    }
}

/// Putting headers in that are there changes nothing.
proof fn lemma_blocks_again(metas: Seq<BlockMeta>, blocks: Seq<CompactBlock>)
    requires
        heights_differ(metas),
        holds_blocks(metas, blocks),
    ensures
        with_blocks(metas, blocks) == metas,
    decreases blocks.len(),
{
    if blocks.len() > 0 {
        let init = blocks.drop_last();
        assert forall|j: int| 0 <= j < init.len() implies metas.contains(
            meta_of(#[trigger] init[j]),
        ) by {
            assert(init[j] == blocks[j]);
        }
        lemma_blocks_again(metas, init);
        let meta = meta_of(blocks.last());
        assert(metas.contains(meta_of(blocks[blocks.len() - 1])));
        let i = choose|i: int| 0 <= i < metas.len() && metas[i] == meta;
        assert(metas[i].height == meta.height);
        let k = choose|k: int| 0 <= k < metas.len() && (#[trigger] metas[k]).height == meta.height;
        if i < k {
            assert(metas[i].height != metas[k].height);
        } else if k < i {
            assert(metas[k].height != metas[i].height);
        }
        assert(with_block(metas, meta) =~= metas);
    }
}

/// Writing a batch again changes nothing, as long as each transaction of the batch was
/// mined in one place and no two blocks have the same height: a pass that was cut short can
/// be repeated.
pub proof fn law_applying_again_changes_nothing(
    view: EngineView,
    blocks: Seq<CompactBlock>,
    sapling: Seq<ScannedNote>,
    orchard: Seq<ScannedNote>,
    spends: Seq<ScannedSpend>,
    mined: Mined,
)
    requires
        view.store.wf(),
        heights_differ(view.blocks),
        block_heights_differ(blocks),
        notes_mined(sapling, mined),
        notes_mined(orchard, mined),
        spends_mined(spends, mined),
        max_row(view.store.transactions) + sapling.len() + orchard.len() + spends.len() < i64::MAX,
        engine_applied(view, blocks, sapling, orchard, spends).1 is None,
    ensures
        ({
            let once = engine_applied(view, blocks, sapling, orchard, spends).0;
            engine_applied(once, blocks, sapling, orchard, spends) == (once, None::<StoreError>)
        }),
{
    let once = engine_applied(view, blocks, sapling, orchard, spends).0;
    let first = scanned_stored(view.store, sapling).0;
    let second = scanned_stored(first, orchard).0;
    let third = spends_stored(second, spends);
    lemma_notes_stored(view.store, sapling, mined);
    lemma_notes_stored(first, orchard, mined);
    lemma_spends_stored(second, spends, mined);
    lemma_goes_on(first, second, third, mined);
    assert forall|j: int| 0 <= j < sapling.len() implies holds_note(
        third,
        (#[trigger] sapling[j]).note,
        mined,
    ) && note_record(sapling[j].note, 0, sapling[j].position) is Some by {
        lemma_still_held(first, third, sapling[j].note, mined);
    }
    assert forall|j: int| 0 <= j < orchard.len() implies holds_note(
        third,
        (#[trigger] orchard[j]).note,
        mined,
    ) && note_record(orchard[j].note, 0, orchard[j].position) is Some by {
        lemma_still_held(second, third, orchard[j].note, mined);
    }
    lemma_blocks_put(view.blocks, blocks);
    let metas = with_blocks(view.blocks, blocks);
    lemma_blocks_again(metas, blocks);
    assert(once.blocks == metas);
    let store = once.store;
    assert(store.transactions == third.transactions);
    assert(store.sapling == third.sapling);
    assert(store.orchard == third.orchard);
    assert(holds_notes(store, sapling, mined)) by {
        assert forall|j: int| 0 <= j < sapling.len() implies holds_note(
            store,
            (#[trigger] sapling[j]).note,
            mined,
        ) && note_record(sapling[j].note, 0, sapling[j].position) is Some by {
            assert(goes_on(third, store, mined));
            lemma_still_held(third, store, sapling[j].note, mined);
        }
    }
    assert(holds_notes(store, orchard, mined)) by {
        assert forall|j: int| 0 <= j < orchard.len() implies holds_note(
            store,
            (#[trigger] orchard[j]).note,
            mined,
        ) && note_record(orchard[j].note, 0, orchard[j].position) is Some by {
            assert(goes_on(third, store, mined));
            lemma_still_held(third, store, orchard[j].note, mined);
        }
    }
    lemma_notes_again(store, sapling, mined);
    lemma_notes_again(store, orchard, mined);
    lemma_spends_again(store, spends, mined);
    lemma_spends_tables(second, spends);
    lemma_spends_tables(store, spends);
    assert(table_spent(store.sapling, spends, Pool::Sapling) =~= store.sapling);
    assert(table_spent(store.orchard, spends, Pool::Orchard) =~= store.orchard);
    assert(spends_stored(store, spends) == store);
}

} // verus!
