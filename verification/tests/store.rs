//! The wallet store.

use seer_sync::chain::TransparentUtxo;
use seer_sync::db::account::{
    Batch, FoundOutput, FoundSpend, Note, ResumeError, ShieldedNote, Spend,
};
use seer_sync::db::store::{
    index_col, note_table, Db, OrchardNoteInsert, Pool, PoolBalance, SaplingNoteInsert, StoreError,
    SyncState,
};
use seer_sync::primitives::{NoteVersion, OrchardNote, OutPoint, Rseed, SaplingNote};

fn mined_tx(db: &mut Db, txid: &[u8; 32], height: u32) -> i64 {
    db.upsert_transaction(txid, Some(height), Some(0))
}

fn orchard_insert<'a>(tx: i64, index: u32, value: u64, nf: Option<&'a [u8]>) -> OrchardNoteInsert<'a> {
    OrchardNoteInsert {
        transaction_id: tx,
        action_index: index,
        diversifier: &[0u8; 11],
        value,
        rho: &[1u8; 32],
        rseed: &[2u8; 32],
        nf,
        memo: None,
        commitment_tree_position: Some(7),
        is_sent: false,
        recipient_address: None,
    }
}

fn utxo() -> TransparentUtxo {
    TransparentUtxo {
        address: "t1example".into(),
        txid: [5u8; 32],
        index: 0,
        script: vec![0x76],
        value_zat: 2_000_000,
        height: 100,
    }
}

#[test]
fn sync_state_roundtrip() {
    let mut db = Db::open_in_memory();
    assert_eq!(db.get_sync_state(), SyncState::default());
    let state = SyncState {
        height: 42,
        hash: Some([7u8; 32]),
    };
    db.set_sync_state(&state);
    let got = db.get_sync_state();
    assert_eq!(got.height, 42);
    assert_eq!(got.hash, Some([7u8; 32]));
}

#[test]
fn balance_empty() {
    let db = Db::open_in_memory();
    assert_eq!(db.balance(), PoolBalance::default());
}

#[test]
fn orchard_note_received_then_spent() {
    let mut db = Db::open_in_memory();
    let tx = mined_tx(&mut db, &[1u8; 32], 100);
    db.insert_orchard_note(&OrchardNoteInsert {
        transaction_id: tx,
        action_index: 0,
        diversifier: &[0u8; 11],
        value: 5_000_000,
        rho: &[1u8; 32],
        rseed: &[2u8; 32],
        nf: Some(&[9u8; 32]),
        memo: None,
        commitment_tree_position: Some(7),
        is_sent: false,
        recipient_address: None,
    })
    .unwrap();
    assert_eq!(db.balance().orchard, 5_000_000);

    assert_eq!(
        db.mark_spent(Pool::Orchard, &[9u8; 32], 101, &[4u8; 32]),
        1
    );
    assert_eq!(db.balance().orchard, 0);
}

#[test]
fn sent_note_persists_recipient_and_is_excluded_from_balance() {
    let mut db = Db::open_in_memory();
    let tx = mined_tx(&mut db, &[2u8; 32], 200);
    db.insert_sapling_note(&SaplingNoteInsert {
        transaction_id: tx,
        output_index: 0,
        diversifier: &[0u8; 11],
        value: 3_000_000,
        rcm: &[3u8; 32],
        nf: None,
        memo: None,
        commitment_tree_position: None,
        is_sent: true,
        recipient_address: Some("u1recipientaddress"),
    })
    .unwrap();

    assert_eq!(db.balance().sapling, 0);

    let sent: Vec<_> = db.sapling.iter().filter(|n| n.is_sent).collect();
    assert_eq!(sent.len(), 1);
    assert_eq!(sent[0].recipient.as_deref(), Some("u1recipientaddress"));
}

#[test]
fn received_note_has_null_recipient() {
    let mut db = Db::open_in_memory();
    let tx = mined_tx(&mut db, &[3u8; 32], 300);
    db.insert_orchard_note(&OrchardNoteInsert {
        transaction_id: tx,
        action_index: 0,
        diversifier: &[0u8; 11],
        value: 1_000_000,
        rho: &[1u8; 32],
        rseed: &[2u8; 32],
        nf: Some(&[8u8; 32]),
        memo: None,
        commitment_tree_position: Some(1),
        is_sent: false,
        recipient_address: None,
    })
    .unwrap();
    let received: Vec<_> = db.orchard.iter().filter(|n| !n.is_sent).collect();
    assert_eq!(received.len(), 1);
    assert_eq!(received[0].recipient, None);
}

#[test]
fn notes_and_transactions_read_back() {
    let mut db = Db::open_in_memory();

    let recv = mined_tx(&mut db, &[1u8; 32], 100);
    db.insert_orchard_note(&OrchardNoteInsert {
        transaction_id: recv,
        action_index: 0,
        diversifier: &[0u8; 11],
        value: 5_000_000,
        rho: &[1u8; 32],
        rseed: &[2u8; 32],
        nf: Some(&[9u8; 32]),
        memo: Some(b"hi"),
        commitment_tree_position: None,
        is_sent: false,
        recipient_address: None,
    })
    .unwrap();

    let spend = mined_tx(&mut db, &[2u8; 32], 105);
    db.mark_spent(Pool::Orchard, &[9u8; 32], 105, &[2u8; 32]);
    db.insert_sapling_note(&SaplingNoteInsert {
        transaction_id: spend,
        output_index: 1,
        diversifier: &[0u8; 11],
        value: 3_000_000,
        rcm: &[3u8; 32],
        nf: None,
        memo: None,
        commitment_tree_position: None,
        is_sent: true,
        recipient_address: Some("u1recipient"),
    })
    .unwrap();

    let notes = db.notes();
    assert_eq!(notes.len(), 2);
    assert_eq!(notes[0].pool, Pool::Orchard);
    assert_eq!(notes[0].height, Some(100));
    assert_eq!(notes[0].value, 5_000_000);
    assert_eq!(notes[0].memo.as_deref(), Some(&b"hi"[..]));
    assert_eq!(notes[0].spent_height, Some(105));
    assert!(notes[1].is_sent);
    assert_eq!(notes[1].recipient.as_deref(), Some("u1recipient"));

    let txs = db.transactions();
    assert_eq!(txs.len(), 2);
    assert_eq!(txs[0].txid, [1u8; 32]);
    assert_eq!(txs[0].received, 5_000_000);
    assert_eq!(txs[0].spent, 0);
    assert_eq!(txs[1].txid, [2u8; 32]);
    assert_eq!(txs[1].sent, 3_000_000);
    assert_eq!(txs[1].spent, 5_000_000);
}

#[test]
fn transparent_snapshot_inserts_spends_revives_and_rewinds() {
    let mut db = Db::open_in_memory();

    db.apply_transparent_snapshot(&vec![utxo()], 110);
    let balance = db.balance();
    assert_eq!(balance.transparent, 2_000_000);
    assert_eq!(balance.total(), 2_000_000);
    let outs = db.transparent_outputs();
    assert_eq!(outs.len(), 1);
    assert_eq!(outs[0].height, Some(100));
    assert_eq!(outs[0].spent_height, None);
    let txs = db.transactions();
    assert_eq!(txs[0].received, 2_000_000);

    db.apply_transparent_snapshot(&vec![], 120);
    assert_eq!(db.balance().transparent, 0);
    assert_eq!(db.transparent_outputs()[0].spent_height, Some(120));

    db.rewind_to_height(115);
    assert_eq!(db.balance().transparent, 2_000_000);

    db.apply_transparent_snapshot(&vec![utxo()], 130);
    assert_eq!(db.transparent_outputs()[0].spent_height, None);
}

#[test]
fn rewind_undoes_notes_and_spends() {
    let mut db = Db::open_in_memory();
    let tx = mined_tx(&mut db, &[1u8; 32], 100);
    db.insert_orchard_note(&OrchardNoteInsert {
        transaction_id: tx,
        action_index: 0,
        diversifier: &[0u8; 11],
        value: 9_000_000,
        rho: &[1u8; 32],
        rseed: &[2u8; 32],
        nf: Some(&[9u8; 32]),
        memo: None,
        commitment_tree_position: Some(0),
        is_sent: false,
        recipient_address: None,
    })
    .unwrap();
    db.mark_spent(Pool::Orchard, &[9u8; 32], 105, &[4u8; 32]);
    assert_eq!(db.balance().orchard, 0);

    db.rewind_to_height(104);
    assert_eq!(db.balance().orchard, 9_000_000);
    assert_eq!(db.get_sync_state().height, 104);

    db.rewind_to_height(99);
    assert_eq!(db.balance().orchard, 0);
}

#[test]
fn tables_and_columns_are_named_by_pool() {
    assert_eq!(note_table(Pool::Sapling), "sapling_received_notes");
    assert_eq!(note_table(Pool::Orchard), "orchard_received_notes");
    assert_eq!(index_col(Pool::Sapling), "output_index");
    assert_eq!(index_col(Pool::Orchard), "action_index");
}

#[test]
fn a_hash_that_is_not_32_bytes_is_not_read() {
    let mut db = Db::open_in_memory();
    db.set_sync_state(&SyncState { height: 9, hash: Some([1u8; 32]) });
    db.sync.as_mut().unwrap().hash = Some(vec![1, 2, 3]);
    assert_eq!(db.get_sync_state(), SyncState { height: 9, hash: None });
}

#[test]
fn recording_a_transaction_again_keeps_what_is_known() {
    let mut db = Db::open_in_memory();
    let id = db.upsert_transaction(&[1u8; 32], Some(10), Some(3));
    assert_eq!(db.upsert_transaction(&[1u8; 32], None, None), id);
    assert_eq!(db.transactions[0].mined_height, Some(10));
    assert_eq!(db.transactions[0].tx_index, Some(3));
    assert_eq!(db.upsert_transaction(&[1u8; 32], Some(11), None), id);
    assert_eq!(db.transactions[0].mined_height, Some(11));
    assert_eq!(db.upsert_transaction(&[2u8; 32], None, None), id + 1);
}

#[test]
fn inserting_a_note_again_changes_nothing() {
    let mut db = Db::open_in_memory();
    let tx = mined_tx(&mut db, &[1u8; 32], 100);
    db.insert_orchard_note(&orchard_insert(tx, 0, 5, Some(&[9u8; 32]))).unwrap();
    db.insert_orchard_note(&orchard_insert(tx, 0, 6, Some(&[9u8; 32]))).unwrap();
    assert_eq!(db.orchard.len(), 1);
    assert_eq!(db.balance().orchard, 5);
}

#[test]
fn a_second_note_with_the_nullifier_is_refused() {
    let mut db = Db::open_in_memory();
    let tx = mined_tx(&mut db, &[1u8; 32], 100);
    db.insert_orchard_note(&orchard_insert(tx, 0, 5, Some(&[9u8; 32]))).unwrap();
    assert_eq!(
        db.insert_orchard_note(&orchard_insert(tx, 1, 6, Some(&[9u8; 32]))),
        Err(StoreError::DuplicateNullifier)
    );
    assert!(db.owns_nf(Pool::Orchard, &[9u8; 32]));
    assert!(!db.owns_nf(Pool::Sapling, &[9u8; 32]));
}

#[test]
fn a_note_without_its_transaction_is_refused() {
    let mut db = Db::open_in_memory();
    assert_eq!(
        db.insert_orchard_note(&orchard_insert(4, 0, 5, None)),
        Err(StoreError::MissingTransaction)
    );
}

#[test]
fn rewinding_twice_is_rewinding_to_the_lower_height() {
    let fill = || {
        let mut db = Db::open_in_memory();
        for (i, height) in [100u32, 105, 110].iter().enumerate() {
            let tx = mined_tx(&mut db, &[i as u8; 32], *height);
            let nf = [i as u8 + 10; 32];
            db.insert_orchard_note(&orchard_insert(tx, 0, 1 + i as u64, Some(&nf))).unwrap();
        }
        db.mark_spent(Pool::Orchard, &[10u8; 32], 108, &[1u8; 32]);
        db
    };
    let mut twice = fill();
    twice.rewind_to_height(107);
    assert_eq!(twice.balance().orchard, 3);
    twice.rewind_to_height(103);
    let mut once = fill();
    once.rewind_to_height(103);
    assert_eq!(twice.balance(), once.balance());
    assert_eq!(twice.notes(), once.notes());
    assert_eq!(once.balance().orchard, 1);
}

fn orchard_note(value: u64) -> OrchardNote {
    OrchardNote {
        recipient: [3u8; 43],
        value,
        rho: [4u8; 32],
        rseed: [5u8; 32],
        version: NoteVersion::V2,
    }
}

fn found(txid: u8, height: u32, index: u32, value: u64, nf: u8) -> Note {
    Note {
        txid: [txid; 32],
        height,
        tx_index: 1,
        output_index: index,
        note: ShieldedNote::Orchard(orchard_note(value)),
        nullifier: Some([nf; 32]),
        memo: Some([6u8; 512]),
        is_sent: false,
        recipient: None,
    }
}

fn batch(notes: Vec<Note>, spends: Vec<Spend>) -> Batch {
    Batch {
        notes,
        spends,
        transparent_outputs: vec![],
        transparent_spends: vec![],
    }
}

#[test]
fn a_batch_is_applied_with_its_position() {
    let mut db = Db::open_in_memory();
    let at = SyncState { height: 120, hash: Some([8u8; 32]) };
    let mut found_batch = batch(
        vec![found(1, 118, 0, 40, 21), found(1, 118, 1, 2, 22)],
        vec![Spend { pool: Pool::Orchard, nf: [22; 32], txid: [2; 32], height: 119 }],
    );
    let outpoint = OutPoint { hash: [3; 32], n: 4 };
    found_batch.transparent_outputs.push(FoundOutput {
        txid: [3; 32],
        output_index: 4,
        address: "t1mine".into(),
        script: vec![1],
        value_zat: 77,
        height: 118,
    });
    db.apply(&at, &found_batch).unwrap();
    assert_eq!(db.get_sync_state(), at);
    assert_eq!(db.balance().orchard, 40);
    assert_eq!(db.balance().transparent, 77);
    assert_eq!(db.balance().total(), 117);
    let notes = db.notes();
    assert_eq!(notes[0].memo.as_deref(), Some(&[6u8; 512][..]));
    assert_eq!(notes[1].spent_height, Some(119));
    assert_eq!(db.orchard[0].diversifier, vec![3u8; 11]);
    assert_eq!(db.orchard[0].rho, vec![4u8; 32]);
    assert_eq!(db.orchard[0].rseed, vec![5u8; 32]);

    let mut later = batch(vec![], vec![]);
    later.transparent_spends.push(FoundSpend { txid: [9; 32], outpoint, height: 121 });
    db.apply(&SyncState { height: 121, hash: None }, &later).unwrap();
    assert_eq!(db.balance().transparent, 0);
    assert_eq!(db.transparent_outputs()[0].spent_height, Some(121));
}

#[test]
fn a_batch_with_a_refused_note_changes_nothing() {
    let mut db = Db::open_in_memory();
    let at = SyncState { height: 120, hash: None };
    let bad = batch(vec![found(1, 118, 0, 40, 21), found(1, 118, 1, 2, 21)], vec![]);
    assert_eq!(db.apply(&at, &bad), Err(StoreError::DuplicateNullifier));
    assert_eq!(db.orchard.len(), 0);
    assert_eq!(db.transactions.len(), 0);
    assert_eq!(db.get_sync_state(), SyncState::default());
}

#[test]
fn a_sapling_note_whose_parts_are_no_note_is_refused() {
    let mut db = Db::open_in_memory();
    let mut note = found(1, 118, 0, 40, 21);
    note.note = ShieldedNote::Sapling(SaplingNote {
        recipient: [0xff; 43],
        value: 1,
        rseed: Rseed::AfterZip212([1; 32]),
    });
    assert_eq!(
        db.apply(&SyncState::default(), &batch(vec![note], vec![])),
        Err(StoreError::InvalidNote)
    );
}

#[test]
fn resuming_needs_a_birthday() {
    let mut db = Db::open_in_memory();
    assert_eq!(db.resume().map(|_| ()), Err(ResumeError::NoBirthday));
    db.set_birthday(50);
    let resume = db.resume().unwrap();
    assert_eq!(resume.birthday, 50);
    assert_eq!(resume.checkpoint, None);
}

#[test]
fn resuming_watches_unspent_notes_and_outputs() {
    let mut db = Db::open_in_memory();
    db.set_birthday(50);
    let at = SyncState { height: 120, hash: Some([8u8; 32]) };
    db.apply(
        &at,
        &batch(
            vec![found(1, 118, 0, 40, 21), found(1, 118, 1, 2, 22)],
            vec![Spend { pool: Pool::Orchard, nf: [22; 32], txid: [2; 32], height: 119 }],
        ),
    )
    .unwrap();
    db.apply_transparent_snapshot(&vec![utxo()], 120);
    let resume = db.resume().unwrap();
    assert_eq!(resume.checkpoint, Some(at));
    assert_eq!(resume.nullifiers, vec![(Pool::Orchard, [21u8; 32])]);
    assert_eq!(resume.outpoints, vec![OutPoint { hash: [5u8; 32], n: 0 }]);
}

#[test]
fn a_stored_nullifier_that_is_not_32_bytes_stops_resuming() {
    let mut db = Db::open_in_memory();
    db.set_birthday(50);
    let tx = mined_tx(&mut db, &[1u8; 32], 100);
    db.insert_orchard_note(&orchard_insert(tx, 0, 5, Some(&[9u8; 31]))).unwrap();
    assert_eq!(db.resume().map(|_| ()), Err(ResumeError::BadNullifier));
}
