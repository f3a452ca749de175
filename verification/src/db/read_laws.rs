//! Laws of what the account's tables give back of what was recorded in them.

use vstd::prelude::*;

use crate::db::{
    applied_tx, applied_txs, checkpoint_of, inserted, inserted_all, marked, marked_all,
    nullifiers_readable, orchard_blob_error, orchard_blobs_valid, orchard_marks, orchard_rows,
    sapling_marks, sapling_rows, synced_to, watched_blobs, AccountView, DbView,
    NoteView,
};
use crate::seqs::{collect_some, lemma_collect_from, lemma_collect_has};
use crate::sync::scan::{all_nullifiers_valid, nullifiers_valid, OrchardOutput, WalletTxView};
use crate::sync::Cursor;

verus! {

/// The position at which a batch was recorded is where the account resumes.
pub proof fn law_recorded_position_is_resumed(account: AccountView, at: Cursor)
    ensures
        checkpoint_of(synced_to(Some(account), at)->0) == Some((at.height, at.hash@)),
        (synced_to(Some(account), at)->0).birthday == account.birthday,
{
}

/// The nullifier that a note is watched by, where it is unspent and has one.
pub open spec fn watched_by(note: NoteView) -> Option<Seq<u8>> {
    if note.spent {
        None
    } else {
        note.nf
    }
}

/// The watched nullifiers are those of the notes, in order.
proof fn lemma_watched(notes: Seq<NoteView>)
    ensures
        watched_blobs(notes) == collect_some(
            notes.map_values(|n: NoteView| watched_by(n)),
        ),
{
    assert(notes.map_values(|n: NoteView| watched_by(n)) =~= notes.map_values(
        |n: NoteView|
            if n.spent {
                None
            } else {
                n.nf
            },
    ));
}

/// Exactly the nullifiers of the unspent notes are watched.
pub proof fn law_unspent_notes_are_watched(notes: Seq<NoteView>, nf: Seq<u8>)
    ensures
        watched_blobs(notes).contains(nf) == (exists|i: int|
            0 <= i < notes.len() && watched_by(#[trigger] notes[i]) == Some(nf)),
{
    lemma_watched(notes);
    let all = notes.map_values(|n: NoteView| watched_by(n));
    if watched_blobs(notes).contains(nf) {
        let k = choose|k: int| 0 <= k < watched_blobs(notes).len() && watched_blobs(notes)[k] == nf;
        lemma_collect_from(all, k);
        let i = choose|i: int| 0 <= i < all.len() && #[trigger] all[i] == Some(nf);
        assert(watched_by(notes[i]) == Some(nf));
    }
    if exists|i: int| 0 <= i < notes.len() && watched_by(#[trigger] notes[i]) == Some(nf) {
        let i = choose|i: int| 0 <= i < notes.len() && watched_by(#[trigger] notes[i]) == Some(nf);
        assert(all[i] == Some(nf));
        lemma_collect_has(all, i);
    }
}

/// Whether the nullifier of every unspent note passes a test.
pub open spec fn all_watched(notes: Seq<NoteView>, p: spec_fn(Seq<u8>) -> bool) -> bool {
    forall|i: int|
        0 <= i < notes.len() && watched_by(#[trigger] notes[i]) is Some ==> p(
            watched_by(notes[i])->0,
        )
}

/// The watched nullifiers pass a test exactly where those of the unspent notes do.
proof fn lemma_all_watched(notes: Seq<NoteView>, p: spec_fn(Seq<u8>) -> bool)
    ensures
        all_watched(notes, p) == (forall|k: int|
            0 <= k < watched_blobs(notes).len() ==> p(#[trigger] watched_blobs(notes)[k])),
{
    lemma_watched(notes);
    let all = notes.map_values(|n: NoteView| watched_by(n));
    let blobs = watched_blobs(notes);
    if all_watched(notes, p) {
        assert forall|k: int| 0 <= k < blobs.len() implies p(#[trigger] blobs[k]) by {
            lemma_collect_from(all, k);
            let i = choose|i: int| 0 <= i < all.len() && #[trigger] all[i] == Some(blobs[k]);
            assert(watched_by(notes[i]) is Some);
        }
    }
    if forall|k: int| 0 <= k < blobs.len() ==> p(#[trigger] blobs[k]) {
        assert forall|i: int| 0 <= i < notes.len() && watched_by(#[trigger] notes[i]) is Some implies p(
            watched_by(notes[i])->0,
        ) by {
            assert(all[i] is Some);
            lemma_collect_has(all, i);
            let k = choose|k: int| 0 <= k < blobs.len() && blobs[k] == all[i]->0;
            assert(p(blobs[k]));
        }
    }
}

/// Inserting notes whose nullifiers pass a test, and marking notes as spent, keeps that all
/// watched nullifiers pass it.
proof fn lemma_table_watched(
    notes: Seq<NoteView>,
    rows: Seq<NoteView>,
    spends: Seq<([u8; 32], u32)>,
    height: u32,
    txid: [u8; 32],
    p: spec_fn(Seq<u8>) -> bool,
)
    requires
        all_watched(notes, p),
        all_watched(rows, p),
    ensures
        all_watched(marked_all(inserted_all(notes, rows), spends, height, txid), p),
    decreases rows.len(), spends.len(),
{
    if spends.len() > 0 {
        let init = spends.drop_last();
        lemma_table_watched(notes, rows, init, height, txid, p);
        let before = marked_all(inserted_all(notes, rows), init, height, txid);
        let after = marked(before, spends.last().0@, height, txid, spends.last().1);
        assert forall|i: int| 0 <= i < after.len() && watched_by(#[trigger] after[i]) is Some implies p(
            watched_by(after[i])->0,
        ) by {
            assert(watched_by(before[i]) == watched_by(after[i]));
        }
    } else if rows.len() > 0 {
        let init = rows.drop_last();
        assert forall|i: int| 0 <= i < init.len() && watched_by(#[trigger] init[i]) is Some implies p(
            watched_by(init[i])->0,
        ) by {
            assert(init[i] == rows[i]);
        }
        lemma_table_watched(notes, init, spends, height, txid, p);
        let before = inserted_all(notes, init);
        assert(marked_all(before, spends, height, txid) == before);
        let after = inserted(before, rows.last());
        assert(rows.last() == rows[rows.len() - 1]);
        assert forall|i: int| 0 <= i < after.len() && watched_by(#[trigger] after[i]) is Some implies p(
            watched_by(after[i])->0,
        ) by {
            if i < before.len() {
                assert(after[i] == before[i]);
            } else {
                assert(after[i] == rows[rows.len() - 1]);
            }
        }
    }
}

/// Whatever notes are recorded, the account can resume from them: what a scan finds, and
/// what full transactions leave of it, has nullifiers that are nullifiers.
pub proof fn law_recorded_nullifiers_can_be_read(db: DbView, txs: Seq<WalletTxView>)
    requires
        nullifiers_readable(db),
        all_nullifiers_valid(txs),
    ensures
        nullifiers_readable(applied_txs(db, txs)),
    decreases txs.len(),
{
    if txs.len() > 0 {
        let init = txs.drop_last();
        assert forall|j: int| 0 <= j < init.len() implies nullifiers_valid(
            (#[trigger] init[j]).orchard_outputs,
        ) && nullifiers_valid(init[j].ironwood_outputs) by {
            assert(init[j] == txs[j]);
        }
        law_recorded_nullifiers_can_be_read(db, init);
        let before = applied_txs(db, init);
        let wtx = txs.last();
        assert(wtx == txs[txs.len() - 1]);
        let after = applied_tx(before, wtx);
        let long = |nf: Seq<u8>| nf.len() == 32;
        lemma_all_watched(before.sapling_notes, long);
        assert(all_watched(sapling_rows(wtx), long));
        lemma_table_watched(
            before.sapling_notes,
            sapling_rows(wtx),
            sapling_marks(wtx.sapling_spends),
            wtx.height,
            wtx.txid,
            long,
        );
        lemma_all_watched(after.sapling_notes, long);
        lemma_orchard_table(
            before.orchard_notes,
            wtx,
            wtx.orchard_outputs,
            orchard_marks(wtx.orchard_spends),
        );
        lemma_orchard_table(
            before.ironwood_notes,
            wtx,
            wtx.ironwood_outputs,
            orchard_marks(wtx.ironwood_spends),
        );
    }
}

/// The nullifiers of an Orchard or Ironwood table can be read after a transaction.
proof fn lemma_orchard_table(
    notes: Seq<NoteView>,
    wtx: WalletTxView,
    outputs: Seq<OrchardOutput>,
    spends: Seq<([u8; 32], u32)>,
)
    requires
        orchard_blobs_valid(watched_blobs(notes)),
        nullifiers_valid(outputs),
    ensures
        orchard_blobs_valid(
            watched_blobs(
                marked_all(
                    inserted_all(notes, orchard_rows(wtx, outputs)),
                    spends,
                    wtx.height,
                    wtx.txid,
                ),
            ),
        ),
{
    let good = |nf: Seq<u8>| orchard_blob_error(nf) is None;
    let rows = orchard_rows(wtx, outputs);
    let after = marked_all(inserted_all(notes, rows), spends, wtx.height, wtx.txid);
    lemma_all_watched(notes, good);
    assert forall|i: int| 0 <= i < rows.len() && watched_by(#[trigger] rows[i]) is Some implies good(
        watched_by(rows[i])->0,
    ) by {
        assert(outputs[i].nf is Some);
    }
    lemma_table_watched(notes, rows, spends, wtx.height, wtx.txid, good);
    lemma_all_watched(after, good);
    assert forall|k: int| 0 <= k < watched_blobs(after).len() implies orchard_blob_error(
        #[trigger] watched_blobs(after)[k],
    ) is None by {
        assert(good(watched_blobs(after)[k]));
    }
}

} // verus!
