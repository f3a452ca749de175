//! Laws of the account's tables, row by row: what is stored, what a spend marks, what a rewind
//! keeps, and what counts toward the balance.

use vstd::prelude::*;

use crate::bytes::{le_bytes, le_value};
use crate::db::{
    applied_at, applied_tx, applied_txs, are_watched, as_signed, capped, checkpoint_of, inserted,
    inserted_all, low_bits, marked, marked_all, nullifier_error, nullifiers_readable,
    orchard_blob, orchard_blob_error, orchard_blobs_valid, orchard_marks, orchard_rows,
    orchard_value, position_before, positions_below, recorded, rewound, rewound_account,
    rewound_note, rewound_notes, rewound_to_position, rewound_txs, row_of, sapling_blob,
    sapling_marks, sapling_rows, sapling_value, tx_amount, tx_row, unspent_value, upserted,
    watched_blobs, AccountView, DbView, NoteView, TxRow,
};
use crate::primitives::{NoteVersion, OrchardNote, Rseed, SaplingNote, Scope};
use crate::seqs::{collect_some, lemma_collect_has, lemma_collect_picks, picks};
use crate::sync::Cursor;
use crate::sync::scan::{Nullifiers, OrchardOutput, SaplingOutput, WalletOutput, WalletTxView};
use crate::upstream::orchard_notes::orchard_nullifier_valid;

verus! {

/// The value of two rows of notes is that of the one and of the other: no note counts more or
/// less for the notes that stand beside it.
pub proof fn law_value_is_additive(first: Seq<NoteView>, second: Seq<NoteView>)
    ensures
        unspent_value(first + second) == unspent_value(first) + unspent_value(second),
    decreases second.len(),
{
    if second.len() == 0 {
        assert(first + second =~= first);
    } else {
        law_value_is_additive(first, second.drop_last());
        assert((first + second).drop_last() =~= first + second.drop_last());
        assert((first + second).last() == second.last());
    }
}

/// One more row raises the value of a table by the value in its blob where it is unspent and
/// was not sent, and else leaves it, whatever the other rows are. An empty table is worth
/// nothing.
pub proof fn law_each_note_counts_by_itself(notes: Seq<NoteView>, row: NoteView)
    ensures
        unspent_value(Seq::<NoteView>::empty()) == 0,
        unspent_value(notes.push(row)) == unspent_value(notes) + (if !row.spent && !row.is_sent
            && row.note.len() >= 51 {
            le_value(row.note.subrange(43, 51))
        } else {
            0
        }),
{
    assert(notes.push(row).drop_last() =~= notes);
}

/// Storing a further note raises the value of its table by the note's value, unless it was
/// sent.
pub proof fn law_stored_note_raises_the_value(
    notes: Seq<NoteView>,
    txid: [u8; 32],
    height: u32,
    sapling: SaplingOutput,
    orchard: OrchardOutput,
)
    ensures
        unspent_value(notes.push(row_of(txid, height, sapling, sapling_blob(sapling.note))))
            == unspent_value(notes) + (if sapling.is_sent {
            0
        } else {
            sapling.note.value as int
        }),
        unspent_value(notes.push(row_of(txid, height, orchard, orchard_blob(orchard.note))))
            == unspent_value(notes) + (if orchard.is_sent {
            0
        } else {
            orchard.note.value as int
        }),
{
    let a = row_of(txid, height, sapling, sapling_blob(sapling.note));
    let b = row_of(txid, height, orchard, orchard_blob(orchard.note));
    law_each_note_counts_by_itself(notes, a);
    law_each_note_counts_by_itself(notes, b);
    crate::db::laws::law_sapling_blob_holds_value(sapling.note);
    crate::db::laws::law_orchard_blob_holds_value(orchard.note);
}

/// Changing one row changes the value of a table by the difference that the row makes.
pub proof fn law_value_changes_with_one_row(notes: Seq<NoteView>, i: int, row: NoteView)
    requires
        0 <= i < notes.len(),
    ensures
        unspent_value(notes.update(i, row)) - unspent_value(notes) == unspent_value(seq![row])
            - unspent_value(seq![notes[i]]),
{
    let before = notes.take(i);
    let after = notes.skip(i + 1);
    assert(notes =~= before + seq![notes[i]] + after);
    assert(notes.update(i, row) =~= before + seq![row] + after);
    law_value_is_additive(before + seq![notes[i]], after);
    law_value_is_additive(before, seq![notes[i]]);
    law_value_is_additive(before + seq![row], after);
    law_value_is_additive(before, seq![row]);
}

/// A balance is told as it is, up to the largest number.
pub proof fn law_balance_is_capped(total: int)
    ensures
        total <= u64::MAX ==> capped(total) == total,
        total > u64::MAX ==> capped(total) == u64::MAX,
{
}

/// A value is stored in eight bytes, the lowest first.
pub proof fn law_value_is_stored_lowest_byte_first(v: u64)
    ensures
        le_bytes(v).len() == 8,
        le_bytes(v)[0] == v % 0x100,
        le_bytes(v)[1] == v / 0x100 % 0x100,
        le_bytes(v)[2] == v / 0x1_0000 % 0x100,
        le_bytes(v)[3] == v / 0x100_0000 % 0x100,
        le_bytes(v)[4] == v / 0x1_0000_0000 % 0x100,
        le_bytes(v)[5] == v / 0x100_0000_0000 % 0x100,
        le_bytes(v)[6] == v / 0x1_0000_0000_0000 % 0x100,
        le_bytes(v)[7] == v / 0x100_0000_0000_0000,
{
}

/// A blob tells every part of a Sapling note at its place.
pub proof fn law_sapling_blob_tells_the_note(note: SaplingNote)
    ensures
        sapling_blob(note).subrange(0, 43) == note.recipient@,
        sapling_blob(note).subrange(43, 51) == le_bytes(note.value),
        match note.rseed {
            Rseed::BeforeZip212(rcm) => sapling_blob(note)[51] == 0 && sapling_blob(note).subrange(
                52,
                84,
            ) == rcm@,
            Rseed::AfterZip212(seed) => sapling_blob(note)[51] == 1 && sapling_blob(note).subrange(
                52,
                84,
            ) == seed@,
        },
{
    let blob = sapling_blob(note);
    assert(blob.subrange(0, 43) =~= note.recipient@);
    assert(blob.subrange(43, 51) =~= le_bytes(note.value));
    match note.rseed {
        Rseed::BeforeZip212(rcm) => {
            assert(blob.subrange(52, 84) =~= rcm@);
        },
        Rseed::AfterZip212(seed) => {
            assert(blob.subrange(52, 84) =~= seed@);
        },
    }
}

/// A blob tells every part of an Orchard or Ironwood note at its place.
pub proof fn law_orchard_blob_tells_the_note(note: OrchardNote)
    ensures
        orchard_blob(note).subrange(0, 43) == note.recipient@,
        orchard_blob(note).subrange(43, 51) == le_bytes(note.value),
        orchard_blob(note).subrange(51, 83) == note.rho@,
        orchard_blob(note).subrange(83, 115) == note.rseed@,
        note.version == NoteVersion::V2 ==> orchard_blob(note)[115] == 0,
        note.version == NoteVersion::V3 ==> orchard_blob(note)[115] == 1,
{
    let blob = orchard_blob(note);
    assert(blob.subrange(0, 43) =~= note.recipient@);
    assert(blob.subrange(43, 51) =~= le_bytes(note.value));
    assert(blob.subrange(51, 83) =~= note.rho@);
    assert(blob.subrange(83, 115) =~= note.rseed@);
}

/// A note is stored with its transaction, its index and height, its nullifier, memo, position
/// and scope, and unspent.
pub proof fn law_note_is_stored_as_found<N>(
    txid: [u8; 32],
    height: u32,
    output: WalletOutput<N, [u8; 32], [u8; 43]>,
    blob: Seq<u8>,
)
    ensures
        ({
            let row = row_of(txid, height, output, blob);
            &&& row.txid == txid
            &&& row.output_index == output.index
            &&& row.block_height == height
            &&& row.note == blob
            &&& row.recipient == output.recipient@
            &&& row.nf is Some == output.nf is Some
            &&& output.nf matches Some(nf) ==> row.nf == Some(nf@)
            &&& row.memo is Some == output.memo is Some
            &&& output.memo matches Some(memo) ==> row.memo == Some(memo@)
            &&& row.scope == (if output.scope == Scope::External {
                0u8
            } else {
                1u8
            })
            &&& row.position == output.position
            &&& row.is_sent == output.is_sent
            &&& row.is_change == output.is_change
            &&& !row.spent
            &&& row.spent_height is None
            &&& row.spent_txid is None
            &&& row.spent_index is None
        }),
{
}

/// A note is stored at the end of its table, unless the table holds a note of the same
/// transaction and index; no stored note changes.
pub proof fn law_note_is_stored_once(notes: Seq<NoteView>, row: NoteView)
    ensures
        (exists|i: int|
            0 <= i < notes.len() && (#[trigger] notes[i]).txid == row.txid && notes[i].output_index
                == row.output_index) ==> inserted(notes, row) == notes,
        (forall|i: int|
            0 <= i < notes.len() ==> (#[trigger] notes[i]).txid != row.txid
                || notes[i].output_index != row.output_index) ==> inserted(notes, row)
            == notes.push(row),
{
}

/// Storing several notes keeps those stored before, stores each of them, and stores nothing
/// else and nothing twice.
pub proof fn law_notes_are_stored(notes: Seq<NoteView>, rows: Seq<NoteView>)
    ensures
        ({
            let after = inserted_all(notes, rows);
            let n = notes.len() as int;
            &&& after.len() >= n
            &&& after.take(n) == notes
            &&& forall|m: int|
                0 <= m < rows.len() ==> exists|k: int|
                    0 <= k < after.len() && (#[trigger] after[k]).txid == (#[trigger] rows[m]).txid
                        && after[k].output_index == rows[m].output_index
            &&& forall|k: int|
                n <= k < after.len() ==> exists|m: int|
                    0 <= m < rows.len() && #[trigger] after[k] == #[trigger] rows[m]
            &&& forall|j: int, k: int|
                0 <= j < k < after.len() && n <= k ==> (#[trigger] after[j]).txid != (
                #[trigger] after[k]).txid || after[j].output_index != after[k].output_index
        }),
    decreases rows.len(),
{
    let after = inserted_all(notes, rows);
    let n = notes.len() as int;
    if rows.len() == 0 {
        assert(after.take(n) =~= notes);
    } else {
        let init = rows.drop_last();
        let last = rows.last();
        law_notes_are_stored(notes, init);
        let before = inserted_all(notes, init);
        law_note_is_stored_once(before, last);
        assert(after.take(n) =~= before.take(n));
        let held = exists|i: int|
            0 <= i < before.len() && (#[trigger] before[i]).txid == last.txid
                && before[i].output_index == last.output_index;
        assert forall|m: int| 0 <= m < rows.len() implies exists|k: int|
            0 <= k < after.len() && (#[trigger] after[k]).txid == (#[trigger] rows[m]).txid
                && after[k].output_index == rows[m].output_index by {
            if m < init.len() {
                assert(init[m] == rows[m]);
                let k = choose|k: int|
                    0 <= k < before.len() && (#[trigger] before[k]).txid == init[m].txid
                        && before[k].output_index == init[m].output_index;
                assert(after[k] == before[k]);
            } else if held {
                let k = choose|k: int|
                    0 <= k < before.len() && (#[trigger] before[k]).txid == last.txid
                        && before[k].output_index == last.output_index;
                assert(after[k] == before[k]);
            } else {
                assert(after[before.len() as int] == last);
            }
        }
        assert forall|k: int| n <= k < after.len() implies exists|m: int|
            0 <= m < rows.len() && #[trigger] after[k] == #[trigger] rows[m] by {
            if k < before.len() {
                let m = choose|m: int|
                    0 <= m < init.len() && #[trigger] before[k] == #[trigger] init[m];
                assert(after[k] == rows[m]);
            } else {
                assert(after[k] == rows[rows.len() - 1]);
            }
        }
        assert forall|j: int, k: int| 0 <= j < k < after.len() && n <= k implies (
        #[trigger] after[j]).txid != (#[trigger] after[k]).txid || after[j].output_index
            != after[k].output_index by {
            assert(after[j] == before[j]);
            if k < before.len() {
                assert(after[k] == before[k]);
            } else {
                assert(!held);
            }
        }
    }
}

/// A spend marks exactly the unspent notes with its nullifier, with its own height,
/// transaction and index, and changes no other row.
pub proof fn law_spend_marks_its_note(
    notes: Seq<NoteView>,
    nf: Seq<u8>,
    height: u32,
    txid: [u8; 32],
    index: u32,
    i: int,
)
    requires
        0 <= i < notes.len(),
    ensures
        marked(notes, nf, height, txid, index).len() == notes.len(),
        marked(notes, nf, height, txid, index)[i] == (if notes[i].nf == Some(nf) && !notes[i].spent {
            NoteView {
                spent: true,
                spent_height: Some(height),
                spent_txid: Some(txid),
                spent_index: Some(index),
                ..notes[i]
            }
        } else {
            notes[i]
        }),
{
}

/// The spends of a transaction mark exactly the unspent notes whose nullifiers are among them:
/// each by the first spend with its nullifier, and no other row changes.
pub proof fn law_spends_mark_their_notes(
    notes: Seq<NoteView>,
    spends: Seq<([u8; 32], u32)>,
    height: u32,
    txid: [u8; 32],
)
    ensures
        ({
            let after = marked_all(notes, spends, height, txid);
            &&& after.len() == notes.len()
            &&& forall|i: int|
                0 <= i < notes.len() && (notes[i].spent || forall|j: int|
                    0 <= j < spends.len() ==> notes[i].nf != Some((#[trigger] spends[j]).0@))
                    ==> #[trigger] after[i] == notes[i]
            &&& forall|i: int, j: int|
                0 <= i < notes.len() && 0 <= j < spends.len() && !notes[i].spent && notes[i].nf
                    == Some(spends[j].0@) && (forall|k: int|
                    0 <= k < j ==> notes[i].nf != Some((#[trigger] spends[k]).0@))
                    ==> #[trigger] after[i] == (NoteView {
                    spent: true,
                    spent_height: Some(height),
                    spent_txid: Some(txid),
                    spent_index: Some((#[trigger] spends[j]).1),
                    ..notes[i]
                })
        }),
    decreases spends.len(),
{
    if spends.len() > 0 {
        let init = spends.drop_last();
        let last = spends.len() - 1;
        law_spends_mark_their_notes(notes, init, height, txid);
        let before = marked_all(notes, init, height, txid);
        let after = marked_all(notes, spends, height, txid);
        assert forall|j: int| 0 <= j < init.len() implies (#[trigger] init[j]) == spends[j] by {}
        assert forall|i: int|
            0 <= i < notes.len() && (notes[i].spent || forall|j: int|
                0 <= j < spends.len() ==> notes[i].nf != Some((#[trigger] spends[j]).0@))
            implies #[trigger] after[i] == notes[i] by {
            law_spend_marks_its_note(before, spends[last].0@, height, txid, spends[last].1, i);
            if !notes[i].spent {
                assert forall|j: int| 0 <= j < init.len() implies notes[i].nf != Some(
                    (#[trigger] init[j]).0@,
                ) by {
                    assert(notes[i].nf != Some(spends[j].0@));
                }
                assert(notes[i].nf != Some(spends[last].0@));
            }
            assert(before[i] == notes[i]);
        }
        assert forall|i: int, j: int|
            0 <= i < notes.len() && 0 <= j < spends.len() && !notes[i].spent && notes[i].nf == Some(
                spends[j].0@,
            ) && (forall|k: int| 0 <= k < j ==> notes[i].nf != Some((#[trigger] spends[k]).0@))
            implies #[trigger] after[i] == (NoteView {
            spent: true,
            spent_height: Some(height),
            spent_txid: Some(txid),
            spent_index: Some((#[trigger] spends[j]).1),
            ..notes[i]
        }) by {
            law_spend_marks_its_note(before, spends[last].0@, height, txid, spends[last].1, i);
            if j < last {
                assert(init[j] == spends[j]);
                assert forall|k: int| 0 <= k < j implies notes[i].nf != Some(
                    (#[trigger] init[k]).0@,
                ) by {
                    assert(notes[i].nf != Some(spends[k].0@));
                }
                assert(before[i].spent);
            } else {
                assert forall|k: int| 0 <= k < init.len() implies notes[i].nf != Some(
                    (#[trigger] init[k]).0@,
                ) by {
                    assert(notes[i].nf != Some(spends[k].0@));
                }
                assert(before[i] == notes[i]);
            }
        }
    }
}

/// A transaction row takes the place of the one with its id, and stands at the end where there
/// is none; no other row changes.
pub proof fn law_transaction_is_written_under_its_id(txs: Seq<TxRow>, row: TxRow)
    ensures
        (exists|i: int| 0 <= i < txs.len() && (#[trigger] txs[i]).txid == row.txid) ==> {
            &&& upserted(txs, row).len() == txs.len()
            &&& forall|i: int|
                0 <= i < txs.len() ==> #[trigger] upserted(txs, row)[i] == (if txs[i].txid == row.txid {
                    row
                } else {
                    txs[i]
                })
        },
        (forall|i: int| 0 <= i < txs.len() ==> (#[trigger] txs[i]).txid != row.txid) ==> upserted(
            txs,
            row,
        ) == txs.push(row),
{
}

/// A transaction's amount adds up the notes of each pool, one by one.
pub proof fn law_amount_adds_up_notes(
    sapling: Seq<SaplingOutput>,
    s: SaplingOutput,
    orchard: Seq<OrchardOutput>,
    o: OrchardOutput,
)
    ensures
        sapling_value(Seq::<SaplingOutput>::empty()) == 0,
        sapling_value(sapling.push(s)) == sapling_value(sapling) + s.note.value,
        orchard_value(Seq::<OrchardOutput>::empty()) == 0,
        orchard_value(orchard.push(o)) == orchard_value(orchard) + o.note.value,
{
    assert(sapling.push(s).drop_last() =~= sapling);
    assert(orchard.push(o).drop_last() =~= orchard);
}

/// A transaction row tells the transaction's own id, height and index, the value of its notes
/// in all three pools, and whether a note of any pool was sent in it.
pub proof fn law_transaction_row_tells_the_transaction(wtx: WalletTxView)
    ensures
        ({
            let row = tx_row(wtx);
            let total = sapling_value(wtx.sapling_outputs) + orchard_value(wtx.orchard_outputs)
                + orchard_value(wtx.ironwood_outputs);
            &&& row.txid == wtx.txid
            &&& row.block_height == wtx.height
            &&& row.tx_index == wtx.tx_index
            &&& total <= i64::MAX ==> row.amount == total
            &&& (total - row.amount) % 0x1_0000_0000_0000_0000 == 0
            &&& row.is_outgoing <==> {
                ||| exists|i: int|
                    0 <= i < wtx.sapling_outputs.len() && (
                    #[trigger] wtx.sapling_outputs[i]).is_sent
                ||| exists|i: int|
                    0 <= i < wtx.orchard_outputs.len() && (
                    #[trigger] wtx.orchard_outputs[i]).is_sent
                ||| exists|i: int|
                    0 <= i < wtx.ironwood_outputs.len() && (
                    #[trigger] wtx.ironwood_outputs[i]).is_sent
            }
        }),
{
    let total = sapling_value(wtx.sapling_outputs) + orchard_value(wtx.orchard_outputs)
        + orchard_value(wtx.ironwood_outputs);
    assert(tx_amount(wtx) == total);
    lemma_low_bits(total);
}

/// A sum and what the storage keeps of it differ by a multiple of the range.
proof fn lemma_low_bits(total: nat)
    ensures
        (total - as_signed(low_bits(total))) % 0x1_0000_0000_0000_0000 == 0,
        total <= i64::MAX ==> as_signed(low_bits(total)) == total,
{
    let r = 0x1_0000_0000_0000_0000int;
    let x = low_bits(total) as int;
    assert(x == total as int % r);
    vstd::arithmetic::div_mod::lemma_fundamental_div_mod(total as int, r);
    let q = total as int / r;
    assert(total == r * q + x);
    if x <= i64::MAX {
        assert(total - as_signed(low_bits(total)) == r * q);
        vstd::arithmetic::div_mod::lemma_mod_multiples_basic(q, r);
        assert(r * q == q * r) by (nonlinear_arith);
    } else {
        assert(total - as_signed(low_bits(total)) == r * q + r);
        assert(r * q + r == (q + 1) * r) by (nonlinear_arith);
        vstd::arithmetic::div_mod::lemma_mod_multiples_basic(q + 1, r);
    }
    if total <= i64::MAX {
        vstd::arithmetic::div_mod::lemma_small_mod(total, r as nat);
    }
}

/// A transaction is recorded pool by pool: each table takes the notes of its own pool, and its
/// notes are marked by the spends of its own pool, at the transaction's height and under its
/// id. The account's position stays.
pub proof fn law_transaction_is_recorded_pool_by_pool(db: DbView, wtx: WalletTxView)
    ensures
        ({
            let after = applied_tx(db, wtx);
            &&& after.account == db.account
            &&& after.positions == db.positions
            &&& after.txs == upserted(db.txs, tx_row(wtx))
            &&& after.sapling_notes == marked_all(
                inserted_all(
                    db.sapling_notes,
                    wtx.sapling_outputs.map_values(
                        |o: SaplingOutput| row_of(wtx.txid, wtx.height, o, sapling_blob(o.note)),
                    ),
                ),
                wtx.sapling_spends.map_values(
                    |s: crate::sync::scan::SaplingSpend| (s.nf, s.index),
                ),
                wtx.height,
                wtx.txid,
            )
            &&& after.orchard_notes == marked_all(
                inserted_all(
                    db.orchard_notes,
                    wtx.orchard_outputs.map_values(
                        |o: OrchardOutput| row_of(wtx.txid, wtx.height, o, orchard_blob(o.note)),
                    ),
                ),
                wtx.orchard_spends.map_values(
                    |s: crate::sync::scan::OrchardSpend| (s.nf, s.index),
                ),
                wtx.height,
                wtx.txid,
            )
            &&& after.ironwood_notes == marked_all(
                inserted_all(
                    db.ironwood_notes,
                    wtx.ironwood_outputs.map_values(
                        |o: OrchardOutput| row_of(wtx.txid, wtx.height, o, orchard_blob(o.note)),
                    ),
                ),
                wtx.ironwood_spends.map_values(
                    |s: crate::sync::scan::OrchardSpend| (s.nf, s.index),
                ),
                wtx.height,
                wtx.txid,
            )
        }),
{
    let after = applied_tx(db, wtx);
    assert(sapling_rows(wtx) =~= wtx.sapling_outputs.map_values(
        |o: SaplingOutput| row_of(wtx.txid, wtx.height, o, sapling_blob(o.note)),
    ));
    assert(orchard_rows(wtx, wtx.orchard_outputs) =~= wtx.orchard_outputs.map_values(
        |o: OrchardOutput| row_of(wtx.txid, wtx.height, o, orchard_blob(o.note)),
    ));
    assert(orchard_rows(wtx, wtx.ironwood_outputs) =~= wtx.ironwood_outputs.map_values(
        |o: OrchardOutput| row_of(wtx.txid, wtx.height, o, orchard_blob(o.note)),
    ));
    assert(sapling_marks(wtx.sapling_spends) =~= wtx.sapling_spends.map_values(
        |s: crate::sync::scan::SaplingSpend| (s.nf, s.index),
    ));
    assert(orchard_marks(wtx.orchard_spends) =~= wtx.orchard_spends.map_values(
        |s: crate::sync::scan::OrchardSpend| (s.nf, s.index),
    ));
    assert(orchard_marks(wtx.ironwood_spends) =~= wtx.ironwood_spends.map_values(
        |s: crate::sync::scan::OrchardSpend| (s.nf, s.index),
    ));
}

/// Recording transactions in two goes is recording them in one, and each is recorded in its
/// turn.
pub proof fn law_recording_is_done_in_turn(
    db: DbView,
    first: Seq<WalletTxView>,
    second: Seq<WalletTxView>,
    wtx: WalletTxView,
)
    ensures
        applied_txs(db, Seq::<WalletTxView>::empty()) == db,
        applied_txs(db, seq![wtx]) == applied_tx(db, wtx),
        applied_txs(db, first + second) == applied_txs(applied_txs(db, first), second),
    decreases second.len(),
{
    assert(seq![wtx].drop_last() =~= Seq::<WalletTxView>::empty());
    assert(applied_txs(db, Seq::<WalletTxView>::empty()) == db);
    if second.len() == 0 {
        assert(first + second =~= first);
    } else {
        law_recording_is_done_in_turn(db, first, second.drop_last(), wtx);
        assert((first + second).drop_last() =~= first + second.drop_last());
        assert((first + second).last() == second.last());
    }
}

/// A recorded batch moves the account to its position and records its transactions, and does
/// nothing else.
pub proof fn law_batch_moves_the_account(db: DbView, at: Cursor, txs: Seq<WalletTxView>)
    ensures
        ({
            let after = applied_at(db, at, txs);
            let told = applied_txs(db, txs);
            &&& after.account is Some == db.account is Some
            &&& db.account matches Some(row) ==> {
                &&& (after.account->0).birthday == row.birthday
                &&& (after.account->0).sync_height == Some(at.height)
                &&& (after.account->0).sync_hash == Some(at.hash@)
            }
            &&& after.txs == told.txs
            &&& after.sapling_notes == told.sapling_notes
            &&& after.orchard_notes == told.orchard_notes
            &&& after.ironwood_notes == told.ironwood_notes
            &&& after.positions == recorded(db.positions, at)
        }),
{
}

/// Positions below a height are exactly those, in order.
pub proof fn law_positions_below_a_height(positions: Seq<Cursor>, to: u32)
    ensures
        positions_below(positions, to) == positions.filter(|c: Cursor| c.height < to),
    decreases positions.len(),
{
    reveal(Seq::filter);
    let f = |c: Cursor|
        if c.height < to {
            Some(c)
        } else {
            None
        };
    if positions.len() == 0 {
        assert(positions.map_values(f) =~= Seq::empty());
        assert(positions_below(positions, to) =~= positions.filter(|c: Cursor| c.height < to));
    } else {
        law_positions_below_a_height(positions.drop_last(), to);
        assert(positions.map_values(f).drop_last() =~= positions.drop_last().map_values(f));
    }
}

/// A position is recorded last, after those below it; the oldest are dropped so that no more
/// than a hundred stay.
pub proof fn law_position_is_recorded_last(positions: Seq<Cursor>, at: Cursor)
    ensures
        ({
            let all = positions.filter(|c: Cursor| c.height < at.height).push(at);
            let after = recorded(positions, at);
            &&& after.last() == at
            &&& all.len() <= 100 ==> after == all
            &&& all.len() > 100 ==> after == all.skip(all.len() - 100)
        }),
{
    law_positions_below_a_height(positions, at.height);
}

/// The position that a rewind goes back to is the last one recorded below its height and not
/// below the birthday.
pub proof fn law_position_before_is_the_last(positions: Seq<Cursor>, birthday: u32, to: u32)
    ensures
        match position_before(positions, birthday, to) {
            Some(at) => birthday <= at.height < to && exists|i: int|
                0 <= i < positions.len() && #[trigger] positions[i] == at && forall|j: int|
                    i < j < positions.len() ==> !(birthday <= (#[trigger] positions[j]).height < to),
            None => forall|i: int|
                0 <= i < positions.len() ==> !(birthday <= (#[trigger] positions[i]).height < to),
        },
    decreases positions.len(),
{
    if positions.len() > 0 {
        let init = positions.drop_last();
        law_position_before_is_the_last(init, birthday, to);
        assert forall|i: int| 0 <= i < init.len() implies (#[trigger] positions[i]) == init[i] by {}
        if birthday <= positions.last().height < to {
            assert(positions[positions.len() - 1] == positions.last());
        } else if let Some(at) = position_before(init, birthday, to) {
            let i = choose|i: int|
                0 <= i < init.len() && #[trigger] init[i] == at && forall|j: int|
                    i < j < init.len() ==> !(birthday <= (#[trigger] init[j]).height < to);
            assert(positions[i] == at);
            assert forall|j: int| i < j < positions.len() implies !(birthday <= (
            #[trigger] positions[j]).height < to) by {
                if j < init.len() {
                    assert(init[j] == positions[j]);
                }
            }
        }
    }
}

/// A rewind leaves the account's position where it lies below the height, takes it back to the
/// last position recorded below where not, and takes it away where there is none or the height
/// is not above the birthday.
pub proof fn law_rewind_takes_the_account_back(
    row: AccountView,
    positions: Seq<Cursor>,
    to: u32,
)
    ensures
        ({
            let after = rewound_account(row, positions, to);
            let back = position_before(positions, row.birthday, to);
            let above = row.sync_height matches Some(h) && h >= to;
            &&& after.birthday == row.birthday
            &&& to > row.birthday && !above ==> after == row
            &&& to > row.birthday && above ==> match back {
                Some(at) => after.sync_height == Some(at.height) && after.sync_hash == Some(
                    at.hash@,
                ),
                None => after.sync_height is None && after.sync_hash is None,
            }
            &&& to <= row.birthday ==> after.sync_height is None && after.sync_hash is None
        }),
{
}

/// A note that was received below the height of a rewind, and that is unspent or was spent
/// below it, stays exactly as it was.
pub proof fn law_rewind_keeps_notes_below(notes: Seq<NoteView>, to: u32, i: int)
    requires
        0 <= i < notes.len(),
        notes[i].block_height < to,
        notes[i].spent_height matches Some(h) ==> h < to,
    ensures
        rewound_notes(notes, to).contains(notes[i]),
{
    let all = notes.map_values(|n: NoteView| rewound_note(n, to));
    assert(all[i] == Some(notes[i]));
    lemma_collect_has(all, i);
}

/// A note that was received below the height of a rewind and spent at or above it is unspent
/// again, and nothing else of it changes.
pub proof fn law_rewind_undoes_a_spend(notes: Seq<NoteView>, to: u32, i: int)
    requires
        0 <= i < notes.len(),
        notes[i].block_height < to,
        notes[i].spent_height matches Some(h) && h >= to,
    ensures
        rewound_notes(notes, to).contains(
            NoteView {
                spent: false,
                spent_height: None,
                spent_txid: None,
                spent_index: None,
                ..notes[i]
            },
        ),
{
    let all = notes.map_values(|n: NoteView| rewound_note(n, to));
    assert(all[i] is Some);
    lemma_collect_has(all, i);
}

/// A rewind keeps exactly the notes received below its height, in order, and each as it was but
/// for a spend at or above the height: `at` holds where they stood.
pub proof fn law_rewind_keeps_exactly_the_notes_below(notes: Seq<NoteView>, to: u32) -> (at: Seq<
    int,
>)
    ensures
        ({
            let after = rewound_notes(notes, to);
            &&& at.len() == after.len()
            &&& forall|k: int, m: int| 0 <= k < m < at.len() ==> #[trigger] at[k] < #[trigger] at[m]
            &&& forall|k: int|
                0 <= k < at.len() ==> 0 <= #[trigger] at[k] < notes.len() && notes[at[k]].block_height
                    < to && after[k] == (if notes[at[k]].spent_height matches Some(h) && h >= to {
                    NoteView {
                        spent: false,
                        spent_height: None,
                        spent_txid: None,
                        spent_index: None,
                        ..notes[at[k]]
                    }
                } else {
                    notes[at[k]]
                })
            &&& forall|i: int|
                0 <= i < notes.len() && (#[trigger] notes[i]).block_height < to ==> at.contains(i)
        }),
{
    let all = notes.map_values(|n: NoteView| rewound_note(n, to));
    lemma_collect_picks(all);
    let at = choose|at: Seq<int>| #[trigger] picks(collect_some(all), all, at);
    assert forall|i: int| 0 <= i < notes.len() && (#[trigger] notes[i]).block_height
        < to implies at.contains(i) by {
        assert(all[i] is Some);
    }
    at
}

/// A rewind keeps exactly the transactions below its height, in order.
pub proof fn law_rewind_keeps_transactions_below(txs: Seq<TxRow>, to: u32)
    ensures
        rewound_txs(txs, to) == txs.filter(|t: TxRow| t.block_height < to),
    decreases txs.len(),
{
    reveal(Seq::filter);
    let f = |t: TxRow|
        if t.block_height >= to {
            None
        } else {
            Some(t)
        };
    if txs.len() == 0 {
        assert(txs.map_values(f) =~= Seq::empty());
        assert(rewound_txs(txs, to) =~= txs.filter(|t: TxRow| t.block_height < to));
    } else {
        law_rewind_keeps_transactions_below(txs.drop_last(), to);
        assert(txs.map_values(f).drop_last() =~= txs.drop_last().map_values(f));
    }
}

/// A rewind reaches every table.
pub proof fn law_rewind_reaches_every_table(db: DbView, to: u32)
    ensures
        ({
            let after = rewound(db, to);
            &&& after.sapling_notes == rewound_notes(db.sapling_notes, to)
            &&& after.orchard_notes == rewound_notes(db.orchard_notes, to)
            &&& after.ironwood_notes == rewound_notes(db.ironwood_notes, to)
            &&& after.txs == rewound_txs(db.txs, to)
            &&& after.positions == positions_below(db.positions, to)
            &&& after.account is Some == db.account is Some
            &&& db.account matches Some(row) ==> after.account == Some(
                rewound_account(row, db.positions, to),
            )
        }),
{
}

/// A rewind to a position is a rewind to the height, and then to just above the position that
/// the account went back to, or to its birthday.
pub proof fn law_rewind_to_position_goes_on_to_it(db: DbView, to: u32)
    ensures
        ({
            let once = rewound(db, to);
            match once.account {
                Some(row) => rewound_to_position(db, to) == rewound(
                    once,
                    match (row.sync_height, row.sync_hash) {
                        (Some(height), Some(_)) => if height < u32::MAX {
                            (height + 1) as u32
                        } else {
                            u32::MAX
                        },
                        _ => row.birthday,
                    },
                ),
                None => rewound_to_position(db, to) == once,
            }
        }),
{
}

/// An account has a checkpoint exactly where both its height and its hash are stored.
pub proof fn law_checkpoint_is_height_and_hash(row: AccountView)
    ensures
        match (row.sync_height, row.sync_hash) {
            (Some(height), Some(hash)) => checkpoint_of(row) == Some((height, hash)),
            _ => checkpoint_of(row) is None,
        },
{
}

/// A nullifier blob of an Orchard or Ironwood note is read exactly where it has 32 bytes and is
/// the encoding of a nullifier.
pub proof fn law_nullifier_blob_is_read_where_valid(blob: Seq<u8>)
    ensures
        orchard_blob_error(blob) is None == (blob.len() == 32 && orchard_nullifier_valid(blob)),
{
}

/// The nullifiers that a sync resumes with are those of the unspent notes, pool by pool and in
/// the order of the tables. They can be read exactly where every one of them is valid.
pub proof fn law_every_pool_is_resumed(db: DbView, nullifiers: Nullifiers)
    ensures
        are_watched(db, nullifiers) <==> {
            &&& nullifiers.sapling@.map_values(|nf: [u8; 32]| nf@) == watched_blobs(
                db.sapling_notes,
            )
            &&& nullifiers.orchard@.map_values(|nf: [u8; 32]| nf@) == watched_blobs(
                db.orchard_notes,
            )
            &&& nullifiers.ironwood@.map_values(|nf: [u8; 32]| nf@) == watched_blobs(
                db.ironwood_notes,
            )
        },
        nullifiers_readable(db) <==> {
            &&& forall|i: int|
                0 <= i < watched_blobs(db.sapling_notes).len() ==> (#[trigger] watched_blobs(
                    db.sapling_notes,
                )[i]).len() == 32
            &&& forall|i: int|
                0 <= i < watched_blobs(db.orchard_notes).len() ==> (#[trigger] watched_blobs(
                    db.orchard_notes,
                )[i]).len() == 32 && orchard_nullifier_valid(watched_blobs(db.orchard_notes)[i])
            &&& forall|i: int|
                0 <= i < watched_blobs(db.ironwood_notes).len() ==> (#[trigger] watched_blobs(
                    db.ironwood_notes,
                )[i]).len() == 32 && orchard_nullifier_valid(watched_blobs(db.ironwood_notes)[i])
        },
{
    if nullifiers_readable(db) {
        assert forall|i: int| 0 <= i < watched_blobs(db.orchard_notes).len() implies (
        #[trigger] watched_blobs(db.orchard_notes)[i]).len() == 32 && orchard_nullifier_valid(
            watched_blobs(db.orchard_notes)[i],
        ) by {
            assert(orchard_blob_error(watched_blobs(db.orchard_notes)[i]) is None);
        }
        assert forall|i: int| 0 <= i < watched_blobs(db.ironwood_notes).len() implies (
        #[trigger] watched_blobs(db.ironwood_notes)[i]).len() == 32 && orchard_nullifier_valid(
            watched_blobs(db.ironwood_notes)[i],
        ) by {
            assert(orchard_blob_error(watched_blobs(db.ironwood_notes)[i]) is None);
        }
    }
}

/// The nullifiers watched are those of the unspent notes that have one, in order: `at` holds
/// which.
pub proof fn law_watched_nullifiers_come_in_order(notes: Seq<NoteView>) -> (at: Seq<int>)
    ensures
        ({
            let got = watched_blobs(notes);
            &&& at.len() == got.len()
            &&& forall|k: int, m: int| 0 <= k < m < at.len() ==> #[trigger] at[k] < #[trigger] at[m]
            &&& forall|k: int|
                0 <= k < at.len() ==> 0 <= #[trigger] at[k] < notes.len() && !notes[at[k]].spent
                    && notes[at[k]].nf == Some(got[k])
            &&& forall|i: int|
                0 <= i < notes.len() && !(#[trigger] notes[i]).spent && notes[i].nf is Some
                    ==> at.contains(i)
        }),
{
    let all = notes.map_values(
        |n: NoteView|
            if n.spent {
                None
            } else {
                n.nf
            },
    );
    lemma_collect_picks(all);
    let at = choose|at: Seq<int>| #[trigger] picks(collect_some(all), all, at);
    assert forall|i: int|
        0 <= i < notes.len() && !(#[trigger] notes[i]).spent && notes[i].nf is Some implies at.contains(
        i,
    ) by {
        assert(all[i] is Some);
    }
    at
}

/// The first pool with a nullifier that cannot be read decides the error, and in it the first
/// such nullifier.
pub proof fn law_first_unreadable_nullifier_is_told(db: DbView, text: Seq<char>)
    requires
        nullifier_error(db, text),
    ensures
        ({
            let s = watched_blobs(db.sapling_notes);
            let sapling_bad = exists|i: int| 0 <= i < s.len() && (#[trigger] s[i]).len() != 32;
            &&& sapling_bad ==> text == "Conversion error from type Blob at index: 32, corrupted data: "@
                + "sapling nf not 32 bytes"@
            &&& !sapling_bad && !orchard_blobs_valid(watched_blobs(db.orchard_notes))
                ==> exists|i: int|
                #[trigger] tells_blob(watched_blobs(db.orchard_notes), i, text)
            &&& !sapling_bad && orchard_blobs_valid(watched_blobs(db.orchard_notes))
                ==> exists|i: int|
                #[trigger] tells_blob(watched_blobs(db.ironwood_notes), i, text)
        }),
{
    let s = watched_blobs(db.sapling_notes);
    if exists|i: int| 0 <= i < s.len() && (#[trigger] s[i]).len() != 32 {
        assert(!crate::db::sapling_blobs_valid(s));
    } else {
        assert(crate::db::sapling_blobs_valid(s));
        let blobs = if !orchard_blobs_valid(watched_blobs(db.orchard_notes)) {
            watched_blobs(db.orchard_notes)
        } else {
            watched_blobs(db.ironwood_notes)
        };
        let i = choose|i: int| #[trigger] crate::db::first_blob_error(blobs, i, text);
        assert forall|j: int| 0 <= j < i implies (#[trigger] blobs[j]).len() == 32
            && orchard_nullifier_valid(blobs[j]) by {
            assert(orchard_blob_error(blobs[j]) is None);
        }
        assert(tells_blob(blobs, i, text));
    }
}

/// Whether the blob at `i` is the first that is no nullifier, and what is told of it.
pub open spec fn tells_blob(blobs: Seq<Seq<u8>>, i: int, text: Seq<char>) -> bool {
    &&& 0 <= i < blobs.len()
    &&& forall|j: int|
        0 <= j < i ==> (#[trigger] blobs[j]).len() == 32 && orchard_nullifier_valid(blobs[j])
    &&& text == "Conversion error from type Blob at index: 32, corrupted data: "@ + (
    if blobs[i].len() != 32 {
        "orchard nf not 32 bytes"@
    } else {
        "invalid orchard nullifier"@
    })
    &&& blobs[i].len() != 32 || !orchard_nullifier_valid(blobs[i])
}

} // verus!
