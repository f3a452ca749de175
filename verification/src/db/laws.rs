//! Laws of the account's tables.

use vstd::prelude::*;

use crate::bytes::{le_bytes, le_value, lemma_le_round_trip};
use crate::db::{
    applied_txs, checkpoint_of, inserted_all, lemma_applied_wf, marked, marked_all, notes_wf,
    orchard_blob, orchard_marks, orchard_rows, position_before, positions_wf, rewound,
    rewound_account, rewound_note, rewound_notes, rewound_to_position, rewound_txs, row_of,
    sapling_blob, sapling_marks, sapling_rows, scans_from,
    spend_consistent, spent_by, tx_row, unspent_from, unspent_row_value, upserted, watched_blobs,
    AccountView, DbView, NoteView, TxRow,
};
use crate::primitives::{OrchardNote, SaplingNote};
use crate::seqs::{lemma_collect_from, lemma_collect_has, lemma_collect_push};
use crate::sync::scan::{OrchardOutput, SaplingOutput, WalletTxView};
use crate::sync::Cursor;

verus! {

/// A Sapling blob has 84 bytes, and the balance reads from it the value that was
/// serialized.
pub proof fn law_sapling_blob_holds_value(note: SaplingNote)
    ensures
        sapling_blob(note).len() == 84,
        le_value(sapling_blob(note).subrange(43, 51)) == note.value,
{
    lemma_le_round_trip(note.value);
    assert(sapling_blob(note).subrange(43, 51) =~= le_bytes(note.value));
}

/// An Orchard blob has 116 bytes, and the balance reads from it the value that was
/// serialized.
pub proof fn law_orchard_blob_holds_value(note: OrchardNote)
    ensures
        orchard_blob(note).len() == 116,
        le_value(orchard_blob(note).subrange(43, 51)) == note.value,
{
    lemma_le_round_trip(note.value);
    assert(orchard_blob(note).subrange(43, 51) =~= le_bytes(note.value));
}

/// A note that was just stored counts its value toward the balance, unless it was sent.
pub proof fn law_stored_note_counts(txid: [u8; 32], height: u32, output: SaplingOutput)
    ensures
        unspent_row_value(row_of(txid, height, output, sapling_blob(output.note)))
            == if output.is_sent {
            0
        } else {
            output.note.value as int
        },
{
    law_sapling_blob_holds_value(output.note);
}

/// An Orchard or Ironwood note that was just stored counts its value toward the balance,
/// unless it was sent.
pub proof fn law_stored_orchard_note_counts(txid: [u8; 32], height: u32, output: OrchardOutput)
    ensures
        unspent_row_value(row_of(txid, height, output, orchard_blob(output.note)))
            == if output.is_sent {
            0
        } else {
            output.note.value as int
        },
{
    law_orchard_blob_holds_value(output.note);
}

/// A spent note counts nothing toward the balance.
pub proof fn law_spent_note_counts_nothing(
    note: NoteView,
    nf: Seq<u8>,
    height: u32,
    txid: [u8; 32],
    index: u32,
)
    requires
        note.nf == Some(nf),
    ensures
        unspent_row_value(spent_by(note, nf, height, txid, index)) == 0,
{
}

/// Once a spend is marked, its nullifier is not watched any more.
pub proof fn law_spent_nullifier_unwatched(
    notes: Seq<NoteView>,
    nf: Seq<u8>,
    height: u32,
    txid: [u8; 32],
    index: u32,
)
    ensures
        !watched_blobs(marked(notes, nf, height, txid, index)).contains(nf),
{
    let after = marked(notes, nf, height, txid, index);
    let entries = after.map_values(
        |n: NoteView|
            if n.spent {
                None
            } else {
                n.nf
            },
    );
    if watched_blobs(after).contains(nf) {
        let k = choose|k: int| 0 <= k < watched_blobs(after).len() && watched_blobs(after)[k] == nf;
        lemma_collect_from(entries, k);
        let j = choose|j: int| 0 <= j < entries.len() && #[trigger] entries[j] == Some(nf);
        assert(after[j] == spent_by(notes[j], nf, height, txid, index));
    }
}

/// A spend at or above a height is undone by a rewind to it.
proof fn lemma_mark_forgotten(
    notes: Seq<NoteView>,
    nf: Seq<u8>,
    height: u32,
    txid: [u8; 32],
    index: u32,
    to: u32,
)
    requires
        height >= to,
        forall|i: int| 0 <= i < notes.len() ==> spend_consistent(#[trigger] notes[i]),
    ensures
        rewound_notes(marked(notes, nf, height, txid, index), to) == rewound_notes(notes, to),
        forall|i: int|
            0 <= i < notes.len() ==> spend_consistent(
                #[trigger] marked(notes, nf, height, txid, index)[i],
            ),
{
    let f = |n: NoteView| rewound_note(n, to);
    let after = marked(notes, nf, height, txid, index);
    assert forall|i: int| 0 <= i < notes.len() implies spend_consistent(#[trigger] after[i])
        && after.map_values(f)[i] == notes.map_values(f)[i] by {
        assert(spend_consistent(notes[i]));
    }
    assert(after.map_values(f) =~= notes.map_values(f));
}

/// Spends at or above a height are undone by a rewind to it.
proof fn lemma_marks_forgotten(
    notes: Seq<NoteView>,
    spends: Seq<([u8; 32], u32)>,
    height: u32,
    txid: [u8; 32],
    to: u32,
)
    requires
        height >= to,
        forall|i: int| 0 <= i < notes.len() ==> spend_consistent(#[trigger] notes[i]),
    ensures
        rewound_notes(marked_all(notes, spends, height, txid), to) == rewound_notes(notes, to),
        marked_all(notes, spends, height, txid).len() == notes.len(),
        forall|i: int|
            0 <= i < notes.len() ==> spend_consistent(
                #[trigger] marked_all(notes, spends, height, txid)[i],
            ),
    decreases spends.len(),
{
    if spends.len() > 0 {
        let before = marked_all(notes, spends.drop_last(), height, txid);
        lemma_marks_forgotten(notes, spends.drop_last(), height, txid, to);
        lemma_mark_forgotten(before, spends.last().0@, height, txid, spends.last().1, to);
    }
}

/// Rows received at or above a height are deleted by a rewind to it.
proof fn lemma_rows_forgotten(notes: Seq<NoteView>, rows: Seq<NoteView>, to: u32)
    requires
        forall|i: int|
            0 <= i < rows.len() ==> (#[trigger] rows[i]).block_height >= to && spend_consistent(rows[i]),
        forall|i: int| 0 <= i < notes.len() ==> spend_consistent(#[trigger] notes[i]),
    ensures
        rewound_notes(inserted_all(notes, rows), to) == rewound_notes(notes, to),
        forall|i: int|
            0 <= i < inserted_all(notes, rows).len() ==> spend_consistent(
                #[trigger] inserted_all(notes, rows)[i],
            ),
    decreases rows.len(),
{
    if rows.len() > 0 {
        let init = rows.drop_last();
        assert forall|i: int| 0 <= i < init.len() implies (#[trigger] init[i]).block_height >= to
            && spend_consistent(init[i]) by {
            assert(init[i] == rows[i]);
        }
        lemma_rows_forgotten(notes, init, to);
        let before = inserted_all(notes, init);
        let row = rows[rows.len() - 1];
        let f = |n: NoteView| rewound_note(n, to);
        lemma_collect_push(before.map_values(f), f(row));
        assert(before.push(row).map_values(f) =~= before.map_values(f).push(f(row)));
    }
}

/// What a transaction at or above a height does to a note table is undone by a rewind
/// to it.
proof fn lemma_table_forgotten(
    notes: Seq<NoteView>,
    rows: Seq<NoteView>,
    spends: Seq<([u8; 32], u32)>,
    height: u32,
    txid: [u8; 32],
    to: u32,
)
    requires
        height >= to,
        notes_wf(notes),
        forall|i: int|
            0 <= i < rows.len() ==> (#[trigger] rows[i]).block_height == height && spend_consistent(
                rows[i],
            ),
    ensures
        rewound_notes(marked_all(inserted_all(notes, rows), spends, height, txid), to)
            == rewound_notes(notes, to),
{
    lemma_rows_forgotten(notes, rows, to);
    lemma_marks_forgotten(inserted_all(notes, rows), spends, height, txid, to);
}

/// A transaction row at or above a height is deleted by a rewind to it.
proof fn lemma_upsert_forgotten(txs: Seq<TxRow>, row: TxRow, to: u32)
    requires
        row.block_height >= to,
        forall|i: int|
            0 <= i < txs.len() && (#[trigger] txs[i]).txid == row.txid ==> txs[i].block_height >= to,
    ensures
        rewound_txs(upserted(txs, row), to) == rewound_txs(txs, to),
{
    let f = |t: TxRow|
        if t.block_height >= to {
            None
        } else {
            Some(t)
        };
    let after = upserted(txs, row);
    if exists|i: int| 0 <= i < txs.len() && (#[trigger] txs[i]).txid == row.txid {
        assert(after.map_values(f) =~= txs.map_values(f));
    } else {
        lemma_collect_push(txs.map_values(f), f(row));
        assert(after.map_values(f) =~= txs.map_values(f).push(f(row)));
    }
}

/// Whether no transaction is one that the tables hold below a height.
pub open spec fn not_below(db: DbView, txs: Seq<WalletTxView>, to: u32) -> bool {
    forall|i: int, j: int|
        0 <= i < db.txs.len() && 0 <= j < txs.len() && (#[trigger] db.txs[i]).txid == (
        #[trigger] txs[j]).txid ==> db.txs[i].block_height >= to
}

/// The transaction rows that applying leaves are old ones or lie at or above the height.
proof fn lemma_applied_rows(db: DbView, txs: Seq<WalletTxView>, to: u32, i: int)
    requires
        forall|j: int| 0 <= j < txs.len() ==> (#[trigger] txs[j]).height >= to,
        0 <= i < applied_txs(db, txs).txs.len(),
    ensures
        applied_txs(db, txs).txs[i].block_height >= to || exists|k: int|
            0 <= k < db.txs.len() && #[trigger] db.txs[k] == applied_txs(db, txs).txs[i],
    decreases txs.len(),
{
    if txs.len() > 0 {
        let init = txs.drop_last();
        assert forall|j: int| 0 <= j < init.len() implies (#[trigger] init[j]).height >= to by {
            assert(init[j] == txs[j]);
        }
        let before = applied_txs(db, init);
        assert(txs.last() == txs[txs.len() - 1]);
        if i < before.txs.len() {
            lemma_applied_rows(db, init, to, i);
        }
    } else {
        assert(db.txs[i] == applied_txs(db, txs).txs[i]);
    }
}

/// A rewind forgets whatever was applied at or above its height: the tables are then the
/// same as if the transactions had never been applied. A transaction that the tables
/// hold below the height is left out: applying it again moves its row.
pub proof fn law_rewind_forgets_applied(db: DbView, txs: Seq<WalletTxView>, to: u32)
    requires
        db.wf(),
        forall|j: int| 0 <= j < txs.len() ==> (#[trigger] txs[j]).height >= to,
        not_below(db, txs, to),
    ensures
        rewound(applied_txs(db, txs), to) == rewound(db, to),
    decreases txs.len(),
{
    if txs.len() > 0 {
        let init = txs.drop_last();
        let wtx = txs.last();
        assert(wtx == txs[txs.len() - 1]);
        assert forall|j: int| 0 <= j < init.len() implies (#[trigger] init[j]).height >= to by {
            assert(init[j] == txs[j]);
        }
        assert(not_below(db, init, to)) by {
            assert forall|i: int, j: int|
                0 <= i < db.txs.len() && 0 <= j < init.len() && (#[trigger] db.txs[i]).txid == (
                #[trigger] init[j]).txid implies db.txs[i].block_height >= to by {
                assert(init[j] == txs[j]);
            }
        }
        law_rewind_forgets_applied(db, init, to);
        lemma_applied_wf(db, init);
        let before = applied_txs(db, init);
        lemma_table_forgotten(
            before.sapling_notes,
            sapling_rows(wtx),
            sapling_marks(wtx.sapling_spends),
            wtx.height,
            wtx.txid,
            to,
        );
        lemma_table_forgotten(
            before.orchard_notes,
            orchard_rows(wtx, wtx.orchard_outputs),
            orchard_marks(wtx.orchard_spends),
            wtx.height,
            wtx.txid,
            to,
        );
        lemma_table_forgotten(
            before.ironwood_notes,
            orchard_rows(wtx, wtx.ironwood_outputs),
            orchard_marks(wtx.ironwood_spends),
            wtx.height,
            wtx.txid,
            to,
        );
        assert forall|i: int|
            0 <= i < before.txs.len() && (#[trigger] before.txs[i]).txid == wtx.txid implies before.txs[i].block_height
            >= to by {
            lemma_applied_rows(db, init, to, i);
            if before.txs[i].block_height < to {
                let k = choose|k: int| 0 <= k < db.txs.len() && #[trigger] db.txs[k] == before.txs[i];
                assert(db.txs[k].txid == txs[txs.len() - 1].txid);
            }
        }
        lemma_upsert_forgotten(before.txs, tx_row(wtx), to);
    }
}

/// A note received below a height and spent at or above it is watched again after a
/// rewind to that height.
pub proof fn law_rewind_watches_again(notes: Seq<NoteView>, i: int, to: u32)
    requires
        0 <= i < notes.len(),
        notes[i].block_height < to,
        notes[i].spent_height matches Some(h) && h >= to,
        notes[i].nf is Some,
    ensures
        watched_blobs(rewound_notes(notes, to)).contains(notes[i].nf->0),
{
    let f = |n: NoteView| rewound_note(n, to);
    let g = |n: NoteView|
        if n.spent {
            None
        } else {
            n.nf
        };
    let entries = notes.map_values(f);
    assert(entries[i] == Some(unspent_from(notes[i], to)));
    lemma_collect_has(entries, i);
    let after = rewound_notes(notes, to);
    let k = choose|k: int| 0 <= k < after.len() && after[k] == unspent_from(notes[i], to);
    assert(after.map_values(g)[k] == notes[i].nf);
    lemma_collect_has(after.map_values(g), k);
}

/// After a rewind no note was received, and none spent, at or above its height.
pub proof fn law_rewind_leaves_nothing_above(notes: Seq<NoteView>, to: u32, k: int)
    requires
        0 <= k < rewound_notes(notes, to).len(),
    ensures
        rewound_notes(notes, to)[k].block_height < to,
        rewound_notes(notes, to)[k].spent_height matches Some(h) ==> h < to,
{
    let f = |n: NoteView| rewound_note(n, to);
    lemma_collect_from(notes.map_values(f), k);
    let j = choose|j: int|
        0 <= j < notes.map_values(f).len() && #[trigger] notes.map_values(f)[j] == Some(
            rewound_notes(notes, to)[k],
        );
    assert(rewound_note(notes[j], to) == Some(rewound_notes(notes, to)[k]));
}

/// Rewinding a second time to the same height changes no note.
pub proof fn law_rewind_notes_idempotent(notes: Seq<NoteView>, to: u32)
    ensures
        rewound_notes(rewound_notes(notes, to), to) == rewound_notes(notes, to),
    decreases notes.len(),
{
    let f = |n: NoteView| rewound_note(n, to);
    if notes.len() > 0 {
        let init = notes.drop_last();
        law_rewind_notes_idempotent(init, to);
        assert(notes.map_values(f).drop_last() =~= init.map_values(f));
        let once = rewound_notes(init, to);
        match f(notes.last()) {
            Some(n) => {
                assert(rewound_notes(notes, to) == once.push(n));
                assert(once.push(n).map_values(f) =~= once.map_values(f).push(f(n)));
                lemma_collect_push(once.map_values(f), f(n));
                assert(f(n) == Some(n));
            },
            None => {
                assert(rewound_notes(notes, to) == once);
            },
        }
    } else {
        assert(notes.map_values(f) =~= Seq::empty());
        assert(rewound_notes(notes, to) =~= Seq::empty());
        assert(rewound_notes(notes, to).map_values(f) =~= Seq::empty());
    }
}

/// An account that is rewound to its birthday has no checkpoint: the next pass starts over,
/// and no block of another chain is expected before its first one.
pub proof fn law_rewind_to_birthday_starts_over(
    account: AccountView,
    positions: Seq<Cursor>,
    to: u32,
)
    requires
        to <= account.birthday,
    ensures
        checkpoint_of(rewound_account(account, positions, to)) is None,
        rewound_account(account, positions, to).birthday == account.birthday,
{
}

/// The position before a height is one of the positions, below the height and not below the
/// birthday.
proof fn lemma_position_before(positions: Seq<Cursor>, birthday: u32, to: u32)
    ensures
        position_before(positions, birthday, to) matches Some(position) ==> birthday
            <= position.height < to && positions.contains(position),
        position_before(positions, birthday, to) is None ==> forall|i: int|
            0 <= i < positions.len() ==> !(birthday <= (#[trigger] positions[i]).height < to),
    decreases positions.len(),
{
    if positions.len() > 0 {
        let init = positions.drop_last();
        lemma_position_before(init, birthday, to);
        if birthday <= positions.last().height < to {
            assert(positions[positions.len() - 1] == positions.last());
        } else {
            if let Some(position) = position_before(init, birthday, to) {
                let k = choose|k: int| 0 <= k < init.len() && init[k] == position;
                assert(positions[k] == position);
            }
            assert forall|i: int|
                0 <= i < positions.len() && position_before(init, birthday, to) is None implies !(
            birthday <= (#[trigger] positions[i]).height < to) by {
                if i < init.len() {
                    assert(init[i] == positions[i]);
                }
            }
        }
    }
}

/// After a rewind the account resumes below its height, or starts over: a checkpoint that
/// lay below stays, and in place of one that lay at or above comes a position that a batch
/// was recorded at, with its own hash.
pub proof fn law_rewound_account_resumes_below(
    account: AccountView,
    positions: Seq<Cursor>,
    to: u32,
)
    ensures
        checkpoint_of(rewound_account(account, positions, to)) matches Some(at) ==> {
            &&& at.0 < to
            &&& checkpoint_of(account) == Some(at) || exists|i: int|
                0 <= i < positions.len() && (#[trigger] positions[i]).height == at.0
                    && positions[i].hash@ == at.1
        },
{
    lemma_position_before(positions, account.birthday, to);
    if let Some(position) = position_before(positions, account.birthday, to) {
        let k = choose|k: int| 0 <= k < positions.len() && positions[k] == position;
        assert(positions[k].height == position.height);
    }
}

/// A rewind goes back no further than it must: where a batch was recorded at a position
/// below its height, but not below the birthday, the account resumes there or above.
pub proof fn law_rewind_goes_back_to_a_position(
    account: AccountView,
    positions: Seq<Cursor>,
    to: u32,
    i: int,
)
    requires
        positions_wf(positions),
        0 <= i < positions.len(),
        account.birthday <= positions[i].height < to,
        account.sync_height matches Some(height) && height >= to,
    ensures
        checkpoint_of(rewound_account(account, positions, to)) matches Some(at) && at.0
            >= positions[i].height,
    decreases positions.len(),
{
    if !(account.birthday <= positions.last().height < to) {
        let init = positions.drop_last();
        assert forall|i: int, j: int| 0 <= i < j < init.len() implies (#[trigger] init[i]).height < (
        #[trigger] init[j]).height by {
            assert(positions[i].height < positions[j].height);
        }
        law_rewind_goes_back_to_a_position(account, init, to, i);
    } else if i < positions.len() - 1 {
        assert(positions[i].height < positions[positions.len() - 1].height);
    }
}

/// After a rewind to a position nothing is stored above the checkpoint, where the account
/// goes on, nor, without one, at or above the birthday. So what an abandoned chain left
/// does not stay.
pub proof fn law_nothing_stays_above_the_position(db: DbView, to: u32, k: int)
    requires
        rewound_to_position(db, to).account is Some,
    ensures
        ({
            let after = rewound_to_position(db, to);
            let from = scans_from(after.account->0);
            &&& checkpoint_of(after.account->0) is Some ==> checkpoint_of(after.account->0)
                == checkpoint_of(rewound(db, to).account->0)
            &&& 0 <= k < after.sapling_notes.len() ==> after.sapling_notes[k].block_height < from
            &&& 0 <= k < after.orchard_notes.len() ==> after.orchard_notes[k].block_height < from
            &&& 0 <= k < after.ironwood_notes.len() ==> after.ironwood_notes[k].block_height < from
        }),
{
    let once = rewound(db, to);
    let account = once.account->0;
    let from = scans_from(account);
    law_rewound_account_resumes_below((db.account)->0, db.positions, to);
    let after = rewound(once, from);
    assert(from <= scans_from(after.account->0));
    if 0 <= k < after.sapling_notes.len() {
        law_rewind_leaves_nothing_above(once.sapling_notes, from, k);
    }
    if 0 <= k < after.orchard_notes.len() {
        law_rewind_leaves_nothing_above(once.orchard_notes, from, k);
    }
    if 0 <= k < after.ironwood_notes.len() {
        law_rewind_leaves_nothing_above(once.ironwood_notes, from, k);
    }
}

} // verus!
