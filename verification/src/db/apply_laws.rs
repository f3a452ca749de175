//! Laws of recording a batch: what of it is stored, and that recording it again changes
//! nothing.

use vstd::prelude::*;

use crate::db::{
    applied_at, applied_txs, has_key, inserted, inserted_all, last_kept, marked, marked_all,
    orchard_marks, orchard_rows, positions_below, recorded, same_key, sapling_marks, sapling_rows,
    spent_by, tx_row, upserted, DbView, NoteView, TxRow,
};
use crate::seqs::{lemma_collect_from, lemma_collect_push};
use crate::sync::scan::WalletTxView;
use crate::sync::Cursor;

verus! {

/// What a transaction does to one note table.
pub struct Changes {
    /// The rows of the notes that it makes.
    pub rows: Seq<NoteView>,
    /// The nullifiers and indices of its spends.
    pub marks: Seq<([u8; 32], u32)>,
    /// The height of its block.
    pub height: u32,
    /// Its id.
    pub txid: [u8; 32],
}

/// A note table after one transaction.
pub open spec fn changed(notes: Seq<NoteView>, by: Changes) -> Seq<NoteView> {
    marked_all(inserted_all(notes, by.rows), by.marks, by.height, by.txid)
}

/// A note table after several transactions in turn.
pub open spec fn changed_all(notes: Seq<NoteView>, batch: Seq<Changes>) -> Seq<NoteView>
    decreases batch.len(),
{
    if batch.len() == 0 {
        notes
    } else {
        changed(changed_all(notes, batch.drop_last()), batch.last())
    }
}

/// What a transaction does to the Sapling notes.
pub open spec fn sapling_change(wtx: WalletTxView) -> Changes {
    Changes {
        rows: sapling_rows(wtx),
        marks: sapling_marks(wtx.sapling_spends),
        height: wtx.height,
        txid: wtx.txid,
    }
}

/// What a transaction does to the Orchard notes.
pub open spec fn orchard_change(wtx: WalletTxView) -> Changes {
    Changes {
        rows: orchard_rows(wtx, wtx.orchard_outputs),
        marks: orchard_marks(wtx.orchard_spends),
        height: wtx.height,
        txid: wtx.txid,
    }
}

/// What a transaction does to the Ironwood notes.
pub open spec fn ironwood_change(wtx: WalletTxView) -> Changes {
    Changes {
        rows: orchard_rows(wtx, wtx.ironwood_outputs),
        marks: orchard_marks(wtx.ironwood_spends),
        height: wtx.height,
        txid: wtx.txid,
    }
}

/// What the transactions do to the Sapling notes.
pub open spec fn sapling_changes(txs: Seq<WalletTxView>) -> Seq<Changes> {
    txs.map_values(|t: WalletTxView| sapling_change(t))
}

/// What the transactions do to the Orchard notes.
pub open spec fn orchard_changes(txs: Seq<WalletTxView>) -> Seq<Changes> {
    txs.map_values(|t: WalletTxView| orchard_change(t))
}

/// What the transactions do to the Ironwood notes.
pub open spec fn ironwood_changes(txs: Seq<WalletTxView>) -> Seq<Changes> {
    txs.map_values(|t: WalletTxView| ironwood_change(t))
}

/// Whether no transaction spends a note that only a later one makes.
pub open spec fn made_before_spent(batch: Seq<Changes>) -> bool {
    forall|i: int, j: int, k: int, m: int|
        #![trigger batch[i].marks[k], batch[j].rows[m]]
        0 <= i < j < batch.len() && 0 <= k < batch[i].marks.len() && 0 <= m < batch[j].rows.len()
            ==> batch[j].rows[m].nf != Some(batch[i].marks[k].0@)
}

/// Whether the transactions stand in the order of the chain: a note is made before it is
/// spent.
pub open spec fn in_chain_order(txs: Seq<WalletTxView>) -> bool {
    &&& made_before_spent(sapling_changes(txs))
    &&& made_before_spent(orchard_changes(txs))
    &&& made_before_spent(ironwood_changes(txs))
}

/// The tables are those that each transaction leaves in turn.
proof fn lemma_applied_tables(db: DbView, txs: Seq<WalletTxView>)
    ensures
        applied_txs(db, txs).sapling_notes == changed_all(db.sapling_notes, sapling_changes(txs)),
        applied_txs(db, txs).orchard_notes == changed_all(db.orchard_notes, orchard_changes(txs)),
        applied_txs(db, txs).ironwood_notes == changed_all(db.ironwood_notes, ironwood_changes(txs)),
        applied_txs(db, txs).txs == written(db.txs, txs),
    decreases txs.len(),
{
    if txs.len() > 0 {
        let init = txs.drop_last();
        lemma_applied_tables(db, init);
        assert(sapling_changes(txs).drop_last() =~= sapling_changes(init));
        assert(orchard_changes(txs).drop_last() =~= orchard_changes(init));
        assert(ironwood_changes(txs).drop_last() =~= ironwood_changes(init));
    }
}

/// Inserting keeps what is stored where it is, adds only the rows, and leaves each of them
/// stored.
proof fn lemma_inserted_all(notes: Seq<NoteView>, rows: Seq<NoteView>)
    ensures
        notes.len() <= inserted_all(notes, rows).len(),
        forall|i: int| 0 <= i < notes.len() ==> #[trigger] inserted_all(notes, rows)[i] == notes[i],
        forall|i: int|
            notes.len() <= i < inserted_all(notes, rows).len() ==> exists|m: int|
                0 <= m < rows.len() && #[trigger] inserted_all(notes, rows)[i] == #[trigger] rows[m],
        forall|m: int|
            0 <= m < rows.len() ==> has_key(inserted_all(notes, rows), #[trigger] rows[m]),
    decreases rows.len(),
{
    if rows.len() > 0 {
        let init = rows.drop_last();
        let row = rows.last();
        lemma_inserted_all(notes, init);
        let before = inserted_all(notes, init);
        let after = inserted_all(notes, rows);
        assert(after == inserted(before, row));
        assert forall|i: int| notes.len() <= i < after.len() implies exists|m: int|
            0 <= m < rows.len() && #[trigger] after[i] == #[trigger] rows[m] by {
            if i < before.len() {
                assert(before[i] == after[i]);
                let m = choose|m: int| 0 <= m < init.len() && before[i] == #[trigger] init[m];
                assert(rows[m] == init[m]);
            } else {
                assert(after[i] == rows[rows.len() - 1]);
            }
        }
        assert forall|m: int| 0 <= m < rows.len() implies has_key(after, #[trigger] rows[m]) by {
            if m < init.len() {
                assert(has_key(before, init[m]));
                lemma_key_kept(before, after, rows[m]);
            } else if has_key(before, row) {
                lemma_key_kept(before, after, row);
            } else {
                assert(same_key(after[before.len() as int], row));
            }
        }
    }
}

/// A note stays stored while its row keeps its key.
proof fn lemma_key_kept(before: Seq<NoteView>, after: Seq<NoteView>, row: NoteView)
    requires
        has_key(before, row),
        before.len() <= after.len(),
        forall|i: int| 0 <= i < before.len() ==> same_key(#[trigger] after[i], before[i]),
    ensures
        has_key(after, row),
{
    let i = choose|i: int| 0 <= i < before.len() && same_key(#[trigger] before[i], row);
    assert(same_key(after[i], before[i]));
}

/// Inserting rows that are stored changes nothing.
proof fn lemma_nothing_inserted(notes: Seq<NoteView>, rows: Seq<NoteView>)
    requires
        forall|m: int| 0 <= m < rows.len() ==> has_key(notes, #[trigger] rows[m]),
    ensures
        inserted_all(notes, rows) == notes,
    decreases rows.len(),
{
    if rows.len() > 0 {
        let init = rows.drop_last();
        assert forall|m: int| 0 <= m < init.len() implies has_key(notes, #[trigger] init[m]) by {
            assert(init[m] == rows[m]);
        }
        lemma_nothing_inserted(notes, init);
        assert(rows.last() == rows[rows.len() - 1]);
    }
}

/// Marking spends moves no note and leaves a spent one as it is. Afterwards no note with
/// one of the nullifiers is unspent.
proof fn lemma_marked_all(
    notes: Seq<NoteView>,
    marks: Seq<([u8; 32], u32)>,
    height: u32,
    txid: [u8; 32],
)
    ensures
        marked_all(notes, marks, height, txid).len() == notes.len(),
        forall|i: int|
            #![trigger marked_all(notes, marks, height, txid)[i]]
            0 <= i < notes.len() ==> {
                let after = marked_all(notes, marks, height, txid)[i];
                &&& same_key(after, notes[i])
                &&& after.nf == notes[i].nf
                &&& notes[i].spent ==> after == notes[i]
                &&& !notes[i].spent && after.spent ==> after.spent_height == Some(height)
                    && after.spent_txid == Some(txid)
                &&& !after.spent ==> after == notes[i]
            },
        forall|i: int, k: int|
            #![trigger marked_all(notes, marks, height, txid)[i], marks[k]]
            0 <= i < notes.len() && 0 <= k < marks.len() && notes[i].nf == Some(marks[k].0@)
                ==> marked_all(notes, marks, height, txid)[i].spent,
        forall|i: int|
            #![trigger marked_all(notes, marks, height, txid)[i]]
            0 <= i < notes.len() && (forall|k: int|
                0 <= k < marks.len() ==> notes[i].nf != Some((#[trigger] marks[k]).0@))
                ==> marked_all(notes, marks, height, txid)[i] == notes[i],
    decreases marks.len(),
{
    if marks.len() > 0 {
        let init = marks.drop_last();
        lemma_marked_all(notes, init, height, txid);
        let before = marked_all(notes, init, height, txid);
        let after = marked_all(notes, marks, height, txid);
        let last = marks.last();
        assert(after == marked(before, last.0@, height, txid, last.1));
        assert forall|i: int, k: int|
            #![trigger after[i], marks[k]]
            0 <= i < notes.len() && 0 <= k < marks.len() && notes[i].nf == Some(
                marks[k].0@,
            ) implies after[i].spent by {
            assert(after[i] == spent_by(before[i], last.0@, height, txid, last.1));
            if k < init.len() {
                assert(init[k] == marks[k]);
            }
        }
        assert forall|i: int|
            #![trigger after[i]]
            0 <= i < notes.len() && (forall|k: int|
                0 <= k < marks.len() ==> notes[i].nf != Some(
                    (#[trigger] marks[k]).0@,
                )) implies after[i] == notes[i] by {
            assert forall|k: int| 0 <= k < init.len() implies notes[i].nf != Some(
                (#[trigger] init[k]).0@,
            ) by {
                assert(init[k] == marks[k]);
            }
            assert(before[i] == notes[i]);
            assert(marks[marks.len() - 1] == last);
        }
    }
}

/// Marking spends of notes that are all spent changes nothing.
proof fn lemma_nothing_marked(
    notes: Seq<NoteView>,
    marks: Seq<([u8; 32], u32)>,
    height: u32,
    txid: [u8; 32],
)
    requires
        forall|i: int, k: int|
            #![trigger notes[i], marks[k]]
            0 <= i < notes.len() && 0 <= k < marks.len() && notes[i].nf == Some(marks[k].0@)
                ==> notes[i].spent,
    ensures
        marked_all(notes, marks, height, txid) == notes,
{
    lemma_marked_all(notes, marks, height, txid);
    let after = marked_all(notes, marks, height, txid);
    assert forall|i: int| 0 <= i < notes.len() implies after[i] == notes[i] by {
        if exists|k: int| 0 <= k < marks.len() && notes[i].nf == Some((#[trigger] marks[k]).0@) {
            let k = choose|k: int|
                0 <= k < marks.len() && notes[i].nf == Some((#[trigger] marks[k]).0@);
            assert(notes[i].spent);
        }
    }
    assert(after =~= notes);
}

/// Whether a table holds every note of a batch, and none with a nullifier that the batch
/// spends is unspent.
pub open spec fn holds_batch(notes: Seq<NoteView>, batch: Seq<Changes>) -> bool {
    &&& forall|j: int, m: int|
        #![trigger batch[j].rows[m]]
        0 <= j < batch.len() && 0 <= m < batch[j].rows.len() ==> has_key(notes, batch[j].rows[m])
    &&& forall|i: int, j: int, k: int|
        #![trigger notes[i], batch[j].marks[k]]
        0 <= i < notes.len() && 0 <= j < batch.len() && 0 <= k < batch[j].marks.len()
            && notes[i].nf == Some(batch[j].marks[k].0@) ==> notes[i].spent
}

/// After a batch a table holds it.
proof fn lemma_batch_held(notes: Seq<NoteView>, batch: Seq<Changes>)
    requires
        made_before_spent(batch),
    ensures
        holds_batch(changed_all(notes, batch), batch),
    decreases batch.len(),
{
    if batch.len() > 0 {
        let init = batch.drop_last();
        let by = batch.last();
        assert(by == batch[batch.len() - 1]);
        assert(made_before_spent(init)) by {
            assert forall|i: int, j: int, k: int, m: int|
                #![trigger init[i].marks[k], init[j].rows[m]]
                0 <= i < j < init.len() && 0 <= k < init[i].marks.len() && 0 <= m
                    < init[j].rows.len() implies init[j].rows[m].nf != Some(
                init[i].marks[k].0@,
            ) by {
                assert(batch[i].marks[k] == init[i].marks[k]);
                assert(batch[j].rows[m] == init[j].rows[m]);
            }
        }
        lemma_batch_held(notes, init);
        let before = changed_all(notes, init);
        let middle = inserted_all(before, by.rows);
        let after = changed_all(notes, batch);
        lemma_inserted_all(before, by.rows);
        lemma_marked_all(middle, by.marks, by.height, by.txid);
        assert(after == marked_all(middle, by.marks, by.height, by.txid));
        assert forall|j: int, m: int|
            #![trigger batch[j].rows[m]]
            0 <= j < batch.len() && 0 <= m < batch[j].rows.len() implies has_key(
            after,
            batch[j].rows[m],
        ) by {
            if j < init.len() {
                assert(init[j].rows[m] == batch[j].rows[m]);
                assert(has_key(before, init[j].rows[m]));
                lemma_key_kept(before, middle, batch[j].rows[m]);
            } else {
                assert(has_key(middle, by.rows[m]));
            }
            lemma_key_kept(middle, after, batch[j].rows[m]);
        }
        assert forall|i: int, j: int, k: int|
            #![trigger after[i], batch[j].marks[k]]
            0 <= i < after.len() && 0 <= j < batch.len() && 0 <= k < batch[j].marks.len()
                && after[i].nf == Some(batch[j].marks[k].0@) implies after[i].spent by {
            if j < init.len() {
                assert(init[j].marks[k] == batch[j].marks[k]);
                if i < before.len() {
                    assert(middle[i] == before[i]);
                    assert(before[i].spent);
                } else {
                    let m = choose|m: int|
                        0 <= m < by.rows.len() && middle[i] == #[trigger] by.rows[m];
                    assert(batch[batch.len() - 1].rows[m] == by.rows[m]);
                }
            } else {
                assert(by.marks[k] == batch[j].marks[k]);
            }
        }
    }
}

/// A batch changes nothing in a table that holds it.
proof fn lemma_nothing_changed(notes: Seq<NoteView>, batch: Seq<Changes>)
    requires
        holds_batch(notes, batch),
    ensures
        changed_all(notes, batch) == notes,
    decreases batch.len(),
{
    if batch.len() > 0 {
        let init = batch.drop_last();
        let by = batch.last();
        assert(by == batch[batch.len() - 1]);
        assert forall|j: int, m: int|
            #![trigger init[j].rows[m]]
            0 <= j < init.len() && 0 <= m < init[j].rows.len() implies has_key(
            notes,
            init[j].rows[m],
        ) by {
            assert(batch[j].rows[m] == init[j].rows[m]);
        }
        assert forall|i: int, j: int, k: int|
            #![trigger notes[i], init[j].marks[k]]
            0 <= i < notes.len() && 0 <= j < init.len() && 0 <= k < init[j].marks.len()
                && notes[i].nf == Some(init[j].marks[k].0@) implies notes[i].spent by {
            assert(batch[j].marks[k] == init[j].marks[k]);
        }
        lemma_nothing_changed(notes, init);
        assert forall|m: int| 0 <= m < by.rows.len() implies has_key(
            notes,
            #[trigger] by.rows[m],
        ) by {
            assert(batch[batch.len() - 1].rows[m] == by.rows[m]);
        }
        lemma_nothing_inserted(notes, by.rows);
        assert forall|i: int, k: int|
            #![trigger notes[i], by.marks[k]]
            0 <= i < notes.len() && 0 <= k < by.marks.len() && notes[i].nf == Some(
                by.marks[k].0@,
            ) implies notes[i].spent by {
            assert(batch[batch.len() - 1].marks[k] == by.marks[k]);
        }
        lemma_nothing_marked(notes, by.marks, by.height, by.txid);
    }
}

/// The transaction table after several transactions in turn.
pub open spec fn written(rows: Seq<TxRow>, txs: Seq<WalletTxView>) -> Seq<TxRow>
    decreases txs.len(),
{
    if txs.len() == 0 {
        rows
    } else {
        upserted(written(rows, txs.drop_last()), tx_row(txs.last()))
    }
}

/// The row of the last of the transactions with an id.
pub open spec fn last_row(txs: Seq<WalletTxView>, txid: [u8; 32]) -> Option<TxRow>
    decreases txs.len(),
{
    if txs.len() == 0 {
        None
    } else if txs.last().txid == txid {
        Some(tx_row(txs.last()))
    } else {
        last_row(txs.drop_last(), txid)
    }
}

/// Whether a transaction table holds a row with an id.
pub open spec fn holds_txid(rows: Seq<TxRow>, txid: [u8; 32]) -> bool {
    exists|i: int| 0 <= i < rows.len() && (#[trigger] rows[i]).txid == txid
}

/// The rows of the transactions are those that came last, and the others stay.
proof fn lemma_written(rows: Seq<TxRow>, txs: Seq<WalletTxView>)
    ensures
        rows.len() <= written(rows, txs).len(),
        forall|i: int|
            #![trigger written(rows, txs)[i]]
            0 <= i < rows.len() ==> written(rows, txs)[i].txid == rows[i].txid,
        forall|i: int|
            #![trigger written(rows, txs)[i]]
            0 <= i < written(rows, txs).len() ==> match last_row(txs, written(rows, txs)[i].txid) {
                Some(row) => written(rows, txs)[i] == row,
                None => i < rows.len() && written(rows, txs)[i] == rows[i],
            },
        forall|j: int| 0 <= j < txs.len() ==> holds_txid(written(rows, txs), (#[trigger] txs[j]).txid),
    decreases txs.len(),
{
    if txs.len() > 0 {
        let init = txs.drop_last();
        let row = tx_row(txs.last());
        lemma_written(rows, init);
        let before = written(rows, init);
        let after = written(rows, txs);
        assert(after == upserted(before, row));
        assert forall|j: int| 0 <= j < txs.len() implies holds_txid(
            after,
            (#[trigger] txs[j]).txid,
        ) by {
            if j < init.len() {
                assert(holds_txid(before, init[j].txid));
                let i = choose|i: int| 0 <= i < before.len() && (#[trigger] before[i]).txid == init[j].txid;
                assert(after[i].txid == txs[j].txid);
            } else if holds_txid(before, row.txid) {
                let i = choose|i: int| 0 <= i < before.len() && (#[trigger] before[i]).txid == row.txid;
                assert(after[i].txid == row.txid);
            } else {
                assert(after[before.len() as int].txid == row.txid);
            }
        }
    }
}

/// Writing rows for ids that a table holds adds none.
proof fn lemma_nothing_added(rows: Seq<TxRow>, txs: Seq<WalletTxView>)
    requires
        forall|j: int| 0 <= j < txs.len() ==> holds_txid(rows, (#[trigger] txs[j]).txid),
    ensures
        written(rows, txs).len() == rows.len(),
    decreases txs.len(),
{
    if txs.len() > 0 {
        let init = txs.drop_last();
        assert forall|j: int| 0 <= j < init.len() implies holds_txid(
            rows,
            (#[trigger] init[j]).txid,
        ) by {
            assert(init[j] == txs[j]);
        }
        lemma_nothing_added(rows, init);
        lemma_written(rows, init);
        let before = written(rows, init);
        assert(holds_txid(rows, txs[txs.len() - 1].txid));
        let i = choose|i: int| 0 <= i < rows.len() && (#[trigger] rows[i]).txid == txs.last().txid;
        assert(before[i].txid == rows[i].txid);
    }
}

/// Writing the rows of transactions again changes nothing.
proof fn lemma_written_again(rows: Seq<TxRow>, txs: Seq<WalletTxView>)
    ensures
        written(written(rows, txs), txs) == written(rows, txs),
{
    let once = written(rows, txs);
    let twice = written(once, txs);
    lemma_written(rows, txs);
    lemma_nothing_added(once, txs);
    lemma_written(once, txs);
    assert forall|i: int| 0 <= i < once.len() implies twice[i] == once[i] by {
        assert(twice[i].txid == once[i].txid);
    }
    assert(twice =~= once);
}

/// Keeping the positions below a height keeps those that are all below it.
proof fn lemma_all_below(positions: Seq<Cursor>, to: u32)
    requires
        forall|i: int| 0 <= i < positions.len() ==> (#[trigger] positions[i]).height < to,
    ensures
        positions_below(positions, to) == positions,
    decreases positions.len(),
{
    let f = |c: Cursor|
        if c.height < to {
            Some(c)
        } else {
            None
        };
    if positions.len() == 0 {
        assert(positions_below(positions, to) =~= positions);
    } else {
        let init = positions.drop_last();
        lemma_all_below(init, to);
        assert(positions.map_values(f).drop_last() =~= init.map_values(f));
        assert(positions[positions.len() - 1].height < to);
        assert(positions_below(positions, to) =~= positions);
    }
}

/// Recording a position again changes nothing.
proof fn lemma_recorded_again(positions: Seq<Cursor>, at: Cursor)
    ensures
        recorded(recorded(positions, at), at) == recorded(positions, at),
{
    let f = |c: Cursor|
        if c.height < at.height {
            Some(c)
        } else {
            None
        };
    let below = positions_below(positions, at.height);
    let all = below.push(at);
    let once = last_kept(all);
    let n = all.len() - once.len();
    let init = once.drop_last();
    assert(once.last() == at);
    assert forall|i: int| 0 <= i < init.len() implies (#[trigger] init[i]).height < at.height by {
        assert(init[i] == below[i + n]);
        lemma_collect_from(positions.map_values(f), i + n);
    }
    lemma_all_below(init, at.height);
    assert(once.map_values(f) =~= init.map_values(f).push(f(at)));
    lemma_collect_push(init.map_values(f), f(at));
    assert(positions_below(once, at.height) == init);
    assert(init.push(at) =~= once);
}

/// Recording the same batch again changes no row, and so no balance.
pub proof fn law_recording_again_changes_nothing(db: DbView, at: Cursor, txs: Seq<WalletTxView>)
    requires
        in_chain_order(txs),
    ensures
        applied_at(applied_at(db, at, txs), at, txs) == applied_at(db, at, txs),
{
    let once = applied_at(db, at, txs);
    lemma_applied_tables(db, txs);
    lemma_applied_tables(once, txs);
    lemma_batch_held(db.sapling_notes, sapling_changes(txs));
    lemma_nothing_changed(once.sapling_notes, sapling_changes(txs));
    lemma_batch_held(db.orchard_notes, orchard_changes(txs));
    lemma_nothing_changed(once.orchard_notes, orchard_changes(txs));
    lemma_batch_held(db.ironwood_notes, ironwood_changes(txs));
    lemma_nothing_changed(once.ironwood_notes, ironwood_changes(txs));
    lemma_written_again(db.txs, txs);
    lemma_recorded_again(db.positions, at);
}

/// Every note that a batch makes is stored, and every note with a nullifier that the batch
/// spends is spent, also where the batch itself makes it.
pub proof fn law_recorded_batch_is_held(db: DbView, at: Cursor, txs: Seq<WalletTxView>)
    requires
        in_chain_order(txs),
    ensures
        holds_batch(applied_at(db, at, txs).sapling_notes, sapling_changes(txs)),
        holds_batch(applied_at(db, at, txs).orchard_notes, orchard_changes(txs)),
        holds_batch(applied_at(db, at, txs).ironwood_notes, ironwood_changes(txs)),
{
    lemma_applied_tables(db, txs);
    lemma_batch_held(db.sapling_notes, sapling_changes(txs));
    lemma_batch_held(db.orchard_notes, orchard_changes(txs));
    lemma_batch_held(db.ironwood_notes, ironwood_changes(txs));
}

/// Whether a note is spent by one of the transactions of a batch that has its nullifier
/// among its spends.
pub open spec fn spent_within(note: NoteView, batch: Seq<Changes>) -> bool {
    exists|j: int, k: int|
        #![trigger batch[j].marks[k]]
        0 <= j < batch.len() && 0 <= k < batch[j].marks.len() && note.nf == Some(
            batch[j].marks[k].0@,
        ) && note.spent_height == Some(batch[j].height) && note.spent_txid == Some(batch[j].txid)
}

/// A note that is spent after a batch was spent before it, or by one of its transactions, at
/// that transaction's height.
pub proof fn law_spends_have_their_height(notes: Seq<NoteView>, batch: Seq<Changes>, i: int)
    requires
        forall|j: int, m: int|
            #![trigger batch[j].rows[m]]
            0 <= j < batch.len() && 0 <= m < batch[j].rows.len() ==> !batch[j].rows[m].spent,
        0 <= i < changed_all(notes, batch).len(),
        changed_all(notes, batch)[i].spent,
    ensures
        i < notes.len() && changed_all(notes, batch)[i] == notes[i] || spent_within(
            changed_all(notes, batch)[i],
            batch,
        ),
    decreases batch.len(),
{
    if batch.len() > 0 {
        let init = batch.drop_last();
        let by = batch.last();
        assert(by == batch[batch.len() - 1]);
        let before = changed_all(notes, init);
        let middle = inserted_all(before, by.rows);
        let after = changed_all(notes, batch);
        lemma_inserted_all(before, by.rows);
        lemma_marked_all(middle, by.marks, by.height, by.txid);
        assert forall|j: int, m: int|
            #![trigger init[j].rows[m]]
            0 <= j < init.len() && 0 <= m < init[j].rows.len() implies !init[j].rows[m].spent by {
            assert(batch[j].rows[m] == init[j].rows[m]);
        }
        if middle[i].spent {
            if i >= before.len() {
                let m = choose|m: int| 0 <= m < by.rows.len() && middle[i] == #[trigger] by.rows[m];
                assert(!batch[batch.len() - 1].rows[m].spent);
            }
            law_spends_have_their_height(notes, init, i);
            if spent_within(before[i], init) {
                let (j, k) = choose|j: int, k: int|
                    #![trigger init[j].marks[k]]
                    0 <= j < init.len() && 0 <= k < init[j].marks.len() && before[i].nf == Some(
                        init[j].marks[k].0@,
                    ) && before[i].spent_height == Some(init[j].height) && before[i].spent_txid
                        == Some(init[j].txid);
                assert(batch[j].marks[k] == init[j].marks[k]);
            }
        } else {
            let k = choose|k: int|
                0 <= k < by.marks.len() && middle[i].nf == Some((#[trigger] by.marks[k]).0@);
            assert(batch[batch.len() - 1].marks[k] == by.marks[k]);
        }
    }
}

} // verus!
