//! Syncing the store: where a pass resumes, on which network, and what it writes.

use vstd::prelude::*;
use vstd::string::*;

use crate::db::account::{insert_note, note_inserted, Note};
use crate::db::store::{
    lemma_upsert_row, max_row, upserted_tx, Db, StoreError, StoreView, SyncState,
};
use crate::primitives::Network;

verus! {

/// The network with a name: only `test` names the test network.
pub open spec fn network_named(name: Seq<char>) -> Network {
    if name == "test"@ {
        Network::TestNetwork
    } else {
        Network::MainNetwork
    }
}

/// The network with a name.
pub fn network_of(name: &str) -> (network: Network)
    ensures
        network == network_named(name@),
{
    proof {
        reveal_strlit("test");
    }
    if name.unicode_len() == 4 && name.get_char(0) == 't' && name.get_char(1) == 'e'
        && name.get_char(2) == 's' && name.get_char(3) == 't' {
        assert(name@ =~= "test"@);
        Network::TestNetwork
    } else {
        Network::MainNetwork
    }
}

/// The first height of a pass, and the hash that its block must connect to: the birthday
/// where nothing was synced, and else the height after the last one.
pub fn resume_point(state: &SyncState, birthday: u32) -> (point: (u32, Option<[u8; 32]>))
    requires
        state.height < u32::MAX,
    ensures
        point == (if state.height == 0 {
            (birthday, None)
        } else {
            ((state.height + 1) as u32, state.hash)
        }),
{
    if state.height == 0 {
        (birthday, None)
    } else {
        (state.height + 1, state.hash)
    }
}

/// The store after a note and its transaction were stored, and the error, where the note
/// was refused: the transaction stays.
pub open spec fn note_stored(store: StoreView, note: Note, position: Option<u64>) -> (
    StoreView,
    Option<StoreError>,
) {
    let (transactions, id) = upserted_tx(
        store.transactions,
        note.txid,
        Some(note.height),
        Some(note.tx_index),
    );
    let given = StoreView { transactions, ..store };
    match note_inserted(given, note, id, position) {
        Ok(after) => (after, None),
        Err(e) => (given, Some(e)),
    }
}

/// The store after some notes, up to the first that was refused.
pub open spec fn notes_stored(store: StoreView, notes: Seq<Note>) -> (StoreView, Option<StoreError>)
    decreases notes.len(),
{
    if notes.len() == 0 {
        (store, None)
    } else {
        let (before, error) = notes_stored(store, notes.drop_last());
        if error is Some {
            (before, error)
        } else {
            note_stored(before, notes.last(), None)
        }
    }
}

/// What is refused among the first notes is refused among all.
proof fn lemma_notes_refused(store: StoreView, notes: Seq<Note>, n: int)
    requires
        0 <= n <= notes.len(),
        notes_stored(store, notes.take(n)).1 is Some,
    ensures
        notes_stored(store, notes) == notes_stored(store, notes.take(n)),
    decreases notes.len(),
{
    if n == notes.len() {
        assert(notes.take(n) =~= notes);
    } else {
        assert(notes.drop_last().take(n) =~= notes.take(n));
        lemma_notes_refused(store, notes.drop_last(), n);
    }
}

/// Stores a note and its transaction.
pub fn store_note(db: &mut Db, note: &Note, position: Option<u64>) -> (result: Result<(), StoreError>)
    requires
        max_row(old(db)@.transactions) < i64::MAX,
    ensures
        final(db)@ == note_stored(old(db)@, *note, position).0,
        result == (match note_stored(old(db)@, *note, position).1 {
            None => Ok::<(), StoreError>(()),
            Some(e) => Err(e),
        }),
        max_row(final(db)@.transactions) <= max_row(old(db)@.transactions) + 1,
        old(db)@.wf() ==> final(db)@.wf(),
{
    proof {
        lemma_upsert_row(db@.transactions, note.txid, Some(note.height), Some(note.tx_index));
    }
    let id = db.upsert_transaction(&note.txid, Some(note.height), Some(note.tx_index));
    match insert_note(db, note, id, position) {
        Ok(()) => Ok(()),
        Err(e) => Err(e),
    }
}

/// Writes a batch of notes to the store, then the position. A note that is refused ends
/// the writing: what was written before it stays, and the position is not moved.
pub fn apply(db: &mut Db, height: u32, hash: [u8; 32], notes: &Vec<Note>) -> (result: Result<
    (),
    StoreError,
>)
    requires
        max_row(old(db)@.transactions) + notes.len() < i64::MAX,
    ensures
        result == (match notes_stored(old(db)@, notes@).1 {
            None => Ok::<(), StoreError>(()),
            Some(e) => Err(e),
        }),
        final(db)@ == (if result is Ok {
            StoreView {
                sync: Some((height, Some(hash@))),
                ..notes_stored(old(db)@, notes@).0
            }
        } else {
            notes_stored(old(db)@, notes@).0
        }),
        old(db)@.wf() ==> final(db)@.wf(),
{
    let ghost start = db@;
    let mut i: usize = 0;
    assert(notes@.take(0) =~= Seq::empty());
    while i < notes.len()
        invariant
            0 <= i <= notes.len(),
            start == old(db)@,
            max_row(start.transactions) + notes.len() < i64::MAX,
            max_row(db@.transactions) <= max_row(start.transactions) + i,
            notes_stored(start, notes@.take(i as int)) == (db@, None::<StoreError>),
            start.wf() ==> db@.wf(),
        decreases notes.len() - i,
    {
        proof {
            assert(notes@.take(i as int + 1).drop_last() =~= notes@.take(i as int));
        }
        if let Err(e) = store_note(db, &notes[i], None) {
            proof {
                lemma_notes_refused(start, notes@, i as int + 1);
            }
            return Err(e);
        }
        i = i + 1;
    }
    assert(notes@.take(i as int) =~= notes@);
    db.set_sync_state(&SyncState { height, hash: Some(hash) });
    Ok(())
}

} // verus!
