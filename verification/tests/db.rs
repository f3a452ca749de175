//! The account's tables.

use seer_sync::db::{
    load_orchard_nullifiers, load_sapling_nullifiers, scope_to_u8, serialize_orchard_note,
    serialize_sapling_note, NoteRow,
};
use seer_sync::primitives::{NoteVersion, OrchardNote, Rseed, SaplingNote, Scope};
use seer_sync::sync::scan::{
    Nullifiers, OrchardSpend, SaplingSpend, WalletOutput, WalletTx,
};
use seer_sync::{Cursor, Db, DbError};

fn orchard_note(value: u64) -> OrchardNote {
    OrchardNote {
        recipient: [1; 43],
        value,
        rho: [2; 32],
        rseed: [3; 32],
        version: NoteVersion::V2,
    }
}

fn output<N>(index: u32, note: N, nf: Option<[u8; 32]>) -> WalletOutput<N, [u8; 32], [u8; 43]> {
    WalletOutput {
        index,
        note,
        recipient: [1; 43],
        nf,
        position: 9,
        scope: Scope::Internal,
        memo: Some([5; 512]),
        is_sent: false,
        is_change: false,
    }
}

fn empty_tx(txid: u8, height: u32) -> WalletTx {
    WalletTx {
        txid: [txid; 32],
        height,
        tx_index: 4,
        sapling_outputs: vec![],
        sapling_spends: vec![],
        orchard_outputs: vec![],
        orchard_spends: vec![],
        ironwood_outputs: vec![],
        ironwood_spends: vec![],
        transparent_outputs: vec![],
        transparent_spends: vec![],
    }
}

fn receive(txid: u8, height: u32, value: u64, nf: u8) -> WalletTx {
    let mut tx = empty_tx(txid, height);
    tx.orchard_outputs = vec![output(0, orchard_note(value), Some([nf; 32]))];
    tx
}

fn spend(txid: u8, height: u32, nf: u8) -> WalletTx {
    let mut tx = empty_tx(txid, height);
    tx.orchard_spends = vec![OrchardSpend { index: 2, nf: [nf; 32] }];
    tx
}

fn at(height: u32) -> Cursor {
    Cursor { height, hash: [height as u8; 32] }
}

fn account() -> Db {
    let mut db = Db::open_memory();
    db.init_account(10);
    db
}

#[test]
fn an_account_keeps_its_birthday() {
    let mut db = account();
    let resume = db.resume().unwrap();
    assert_eq!((resume.birthday, resume.checkpoint), (10, None));
    db.init_account(99);
    assert_eq!(db.resume().unwrap().birthday, 10);
}

#[test]
fn an_account_that_was_never_made_cannot_resume() {
    assert!(Db::open_memory().resume().is_err());
}

#[test]
fn notes_are_recorded_and_spent() {
    let mut db = account();
    db.apply(at(20), &vec![receive(1, 18, 500, 7), receive(2, 19, 30, 8)]);
    assert_eq!(db.balance(), 530);
    let row = &db.orchard_notes[0];
    assert_eq!((row.block_height, row.output_index, row.position), (18, 0, 9));
    assert_eq!(row.scope, scope_to_u8(Scope::Internal));
    assert_eq!(row.note, serialize_orchard_note(&orchard_note(500)));
    assert_eq!(row.memo.as_deref(), Some(&[5u8; 512][..]));
    assert_eq!(db.txs[0].amount, 500);
    assert!(!db.txs[0].is_outgoing);
    assert_eq!(db.resume().unwrap().checkpoint, Some(at(20)));

    db.apply(at(21), &vec![spend(3, 21, 7)]);
    assert_eq!(db.balance(), 30);
    let row = &db.orchard_notes[0];
    assert!(row.spent);
    assert_eq!(
        (row.spent_height, row.spent_txid, row.spent_index),
        (Some(21), Some([3; 32]), Some(2))
    );
    assert_eq!(
        db.load_nullifiers().unwrap(),
        Nullifiers { sapling: vec![], orchard: vec![[8; 32]], ironwood: vec![] }
    );
}

#[test]
fn a_rewind_undoes_what_is_at_or_above_its_height() {
    let mut db = account();
    db.apply(at(20), &vec![receive(1, 18, 500, 7), receive(2, 20, 30, 8)]);
    db.apply(at(22), &vec![spend(3, 22, 7)]);
    db.rewind(20);
    assert_eq!(db.balance(), 500);
    assert_eq!(db.txs.len(), 1);
    assert!(!db.orchard_notes[0].spent);
    assert_eq!(db.orchard_notes[0].spent_txid, None);
    let resume = db.resume().unwrap();
    assert_eq!(resume.checkpoint, None, "no batch was recorded below");
    assert_eq!(resume.nullifiers.orchard, vec![[7; 32]]);
    let before = db.orchard_notes.clone();
    db.rewind(20);
    assert_eq!(db.orchard_notes, before);
    db.rewind(10);
    assert_eq!(db.balance(), 0);
    assert_eq!(db.resume().unwrap().checkpoint, None, "nothing above the birthday is left");
    assert!(db.orchard_notes.is_empty() && db.txs.is_empty());
}

#[test]
fn a_rewind_goes_back_to_the_position_below() {
    let mut db = account();
    db.apply(at(20), &vec![receive(1, 18, 500, 7)]);
    db.apply(at(25), &vec![receive(2, 23, 40, 8)]);
    db.apply(at(30), &vec![receive(3, 28, 6, 9)]);
    assert_eq!(db.positions, vec![at(20), at(25), at(30)]);
    db.rewind(31);
    assert_eq!(db.resume().unwrap().checkpoint, Some(at(30)), "nothing was recorded there");
    db.rewind(27);
    assert_eq!(db.resume().unwrap().checkpoint, Some(at(25)));
    assert_eq!(db.balance(), 540);
    db.rewind(24);
    assert_eq!(db.resume().unwrap().checkpoint, Some(at(20)));
    assert_eq!(db.balance(), 540, "a note below the height stays");
    db.rewind(21);
    assert_eq!(db.resume().unwrap().checkpoint, Some(at(20)));
    assert_eq!(db.positions, vec![at(20)]);
}

#[test]
fn a_rewind_to_a_position_leaves_nothing_above_it() {
    let mut db = account();
    db.apply(at(20), &vec![receive(1, 18, 500, 7)]);
    db.apply(at(30), &vec![receive(2, 23, 40, 8), spend(3, 24, 7)]);
    db.rewind_to_position(28);
    assert_eq!(db.resume().unwrap().checkpoint, Some(at(20)));
    assert_eq!(db.balance(), 500, "the blocks from 21 on are scanned again");
    db.rewind_to_position(20);
    assert_eq!(db.resume().unwrap().checkpoint, None);
    assert!(db.orchard_notes.is_empty() && db.txs.is_empty());
}

#[test]
fn the_last_hundred_positions_are_kept() {
    let mut db = account();
    for height in 11..=130 {
        db.apply(at(height), &vec![]);
    }
    assert_eq!(db.positions.len(), 100);
    assert_eq!((db.positions[0], db.positions[99]), (at(31), at(130)));
    db.apply(at(100), &vec![]);
    assert_eq!(db.positions.len(), 70);
    assert_eq!(db.positions[69], at(100));
}

#[test]
fn recording_a_batch_again_changes_nothing() {
    let mut db = account();
    let batch = vec![receive(1, 18, 500, 7), spend(2, 19, 7), receive(3, 19, 20, 8)];
    db.apply(at(20), &batch);
    let once = (db.orchard_notes.clone(), db.txs.clone(), db.positions.clone(), db.balance());
    assert_eq!(once.3, 20);
    db.apply(at(20), &batch);
    let twice = (db.orchard_notes.clone(), db.txs.clone(), db.positions.clone(), db.balance());
    assert_eq!(once, twice);
    assert_eq!(db.resume().unwrap().checkpoint, Some(at(20)));
}

#[test]
fn a_note_that_was_sent_does_not_count() {
    let mut db = account();
    let mut tx = empty_tx(2, 200);
    tx.sapling_outputs = vec![output(
        0,
        SaplingNote {
            recipient: [1; 43],
            value: 3_000_000,
            rseed: Rseed::AfterZip212([4; 32]),
        },
        None,
    )];
    tx.sapling_outputs[0].is_sent = true;
    db.apply(at(200), &vec![tx]);
    assert_eq!(db.sapling_notes.len(), 1);
    assert_eq!(db.balance(), 0);
}

#[test]
fn recording_a_note_again_keeps_the_first() {
    let mut db = account();
    db.apply(at(20), &vec![receive(1, 18, 500, 7)]);
    db.apply(at(21), &vec![spend(3, 21, 7)]);
    db.apply(at(21), &vec![receive(1, 18, 500, 7)]);
    assert_eq!(db.orchard_notes.len(), 1);
    assert!(db.orchard_notes[0].spent);
    assert_eq!(db.txs.len(), 2);
}

#[test]
fn every_pool_has_its_table() {
    let mut db = account();
    let mut tx = empty_tx(1, 18);
    tx.sapling_outputs = vec![output(
        0,
        SaplingNote { recipient: [1; 43], value: 3, rseed: Rseed::AfterZip212([4; 32]) },
        Some([6; 32]),
    )];
    tx.ironwood_outputs = vec![output(1, orchard_note(40), Some([7; 32]))];
    db.apply(at(20), &vec![tx]);
    assert_eq!(db.balance(), 43);
    assert_eq!(
        db.load_nullifiers().unwrap(),
        Nullifiers { sapling: vec![[6; 32]], orchard: vec![], ironwood: vec![[7; 32]] }
    );
    let mut spends = empty_tx(2, 19);
    spends.sapling_spends = vec![SaplingSpend { index: 0, nf: [6; 32] }];
    spends.ironwood_spends = vec![OrchardSpend { index: 0, nf: [7; 32] }];
    db.apply(at(21), &vec![spends]);
    assert_eq!(db.balance(), 0);
}

#[test]
fn a_note_that_was_sent_makes_its_transaction_outgoing() {
    let mut db = account();
    let mut tx = receive(1, 18, 5, 7);
    tx.orchard_outputs[0].is_sent = true;
    db.apply(at(20), &vec![tx]);
    assert!(db.txs[0].is_outgoing);
    assert!(db.orchard_notes[0].is_sent);
}

#[test]
fn blobs_hold_the_parts_of_a_note() {
    let sapling = SaplingNote {
        recipient: [1; 43],
        value: 0x0102_0304,
        rseed: Rseed::BeforeZip212([9; 32]),
    };
    let blob = serialize_sapling_note(&sapling);
    assert_eq!(blob.len(), 84);
    assert_eq!(&blob[..43], &[1; 43]);
    assert_eq!(&blob[43..51], &[4, 3, 2, 1, 0, 0, 0, 0]);
    let blob = serialize_orchard_note(&orchard_note(7));
    assert_eq!(&blob[43..51], &[7, 0, 0, 0, 0, 0, 0, 0]);
    assert_eq!(&blob[51..83], &[2; 32]);
    assert_eq!(&blob[83..115], &[3; 32]);
}

fn row(nf: Option<Vec<u8>>, spent: bool) -> NoteRow {
    NoteRow {
        txid: [1; 32],
        output_index: 0,
        block_height: 1,
        nf,
        note: vec![],
        recipient: vec![],
        memo: None,
        scope: 0,
        position: 0,
        is_sent: false,
        is_change: false,
        spent,
        spent_height: None,
        spent_txid: None,
        spent_index: None,
    }
}

#[test]
fn an_amount_is_kept_in_64_bits() {
    let mut db = account();
    let mut tx = receive(1, 20, 1 << 63, 7);
    tx.ironwood_outputs = vec![output(0, orchard_note(5), None)];
    db.apply(at(20), &vec![tx]);
    assert_eq!(db.txs[0].amount, i64::MIN + 5);
    let mut tx = receive(2, 21, u64::MAX, 8);
    tx.ironwood_outputs = vec![output(0, orchard_note(5), None)];
    db.apply(at(21), &vec![tx]);
    assert_eq!(db.txs[1].amount, 4);
    assert_eq!(db.balance(), u64::MAX);
}

fn unread(why: &str) -> DbError {
    DbError::Sqlite(format!(
        "Conversion error from type Blob at index: 32, corrupted data: {why}"
    ))
}

#[test]
fn nullifiers_that_cannot_be_read_fail_the_storage() {
    let short = vec![row(Some(vec![1; 31]), false)];
    assert_eq!(
        load_sapling_nullifiers(&short),
        Err(unread("sapling nf not 32 bytes"))
    );
    assert_eq!(
        load_orchard_nullifiers(&short),
        Err(unread("orchard nf not 32 bytes"))
    );
    let invalid = vec![row(Some(vec![0xff; 32]), false)];
    assert_eq!(
        load_orchard_nullifiers(&invalid),
        Err(unread("invalid orchard nullifier"))
    );
    assert_eq!(load_sapling_nullifiers(&invalid), Ok(vec![[0xff; 32]]));
    let mut modulus = [0u8; 32];
    modulus[..16].copy_from_slice(&0x224698fc094cf91b992d30ed00000001u128.to_le_bytes());
    modulus[31] = 0x40;
    let mut below = modulus;
    below[0] = 0;
    let least = vec![row(Some(modulus.to_vec()), false)];
    assert!(load_orchard_nullifiers(&least).is_err());
    let largest = vec![row(Some(below.to_vec()), false)];
    assert_eq!(load_orchard_nullifiers(&largest), Ok(vec![below]));
    let skipped = vec![row(None, false), row(Some(vec![1; 31]), true)];
    assert_eq!(load_orchard_nullifiers(&skipped), Ok(vec![]));
}

#[test]
fn a_stored_hash_that_is_not_32_bytes_is_corrupt() {
    let mut db = account();
    db.apply(at(20), &vec![]);
    db.account.as_mut().unwrap().sync_hash = Some(vec![1; 31]);
    match db.resume() {
        Err(DbError::Corrupt(text)) => assert_eq!(text, "sync_hash is not 32 bytes"),
        _ => panic!("expected corrupt data"),
    }
}
