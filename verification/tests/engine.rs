//! What the persistence engine decides and writes.

use seer_sync::db::account::{Note, ShieldedNote, Spend};
use seer_sync::db::store::{Pool, StoreError, SyncState};
use seer_sync::db::sync::{apply, network_of, resume_point};
use seer_sync::db::{migration, store};
use seer_sync::primitives::{Network, NoteVersion, OrchardNote};
use seer_sync::proto::{
    ChainMetadata, CompactBlock, CompactOrchardAction, CompactSaplingOutput, CompactTx,
};
use seer_sync::sync::engine::{
    block_meta_of, EngineDb, EngineRun, EngineStep, RangeOutcome, Scanned, ScannedNote,
    ScannedSpend,
};

fn block(height: u64, n_outputs: usize, n_actions: usize, tree: Option<(u32, u32)>) -> CompactBlock {
    let tx = CompactTx {
        index: 0,
        txid: vec![height as u8; 32],
        fee: 0,
        spends: vec![],
        outputs: vec![CompactSaplingOutput::default(); n_outputs],
        actions: vec![CompactOrchardAction::default(); n_actions],
        ..Default::default()
    };
    CompactBlock {
        height,
        hash: vec![height as u8; 32],
        time: 1000 + height as u32,
        vtx: vec![tx],
        chain_metadata: tree.map(|(s, o)| ChainMetadata {
            sapling_commitment_tree_size: s,
            orchard_commitment_tree_size: o,
            ..Default::default()
        }),
        ..Default::default()
    }
}

fn note(txid: u8, height: u32, value: u64, nf: u8) -> Note {
    Note {
        txid: [txid; 32],
        height,
        tx_index: 2,
        output_index: 0,
        note: ShieldedNote::Orchard(OrchardNote {
            recipient: [1; 43],
            value,
            rho: [2; 32],
            rseed: [3; 32],
            version: NoteVersion::V2,
        }),
        nullifier: Some([nf; 32]),
        memo: None,
        is_sent: false,
        recipient: None,
    }
}

#[test]
fn block_meta_counts_and_sizes() {
    let m = block_meta_of(&block(100, 3, 2, Some((50, 70))));
    assert_eq!(m.height, 100);
    assert_eq!(m.sapling_output_count, Some(3));
    assert_eq!(m.orchard_action_count, Some(2));
    assert_eq!(m.sapling_tree_size, Some(50));
    assert_eq!(m.orchard_tree_size, Some(70));
}

#[test]
fn block_meta_without_chain_metadata() {
    let m = block_meta_of(&block(100, 1, 0, None));
    assert_eq!(m.sapling_tree_size, None);
    assert_eq!(m.orchard_tree_size, None);
    assert_eq!(m.sapling_output_count, Some(1));
}

#[test]
fn apply_advances_cursor_and_persists_block() {
    let mut db = EngineDb::open_in_memory();
    let blocks = vec![
        block(200, 0, 0, Some((10, 20))),
        block(201, 0, 0, Some((12, 23))),
    ];
    db.apply(&blocks, &Scanned::default()).unwrap();

    let cursor = db.store.get_sync_state();
    assert_eq!(cursor.height, 201);
    assert_eq!(db.sapling_pos, 12);
    assert_eq!(db.orchard_pos, 23);
    assert_eq!(db.get_block_hash(200), Some([200u8; 32]));
}

#[test]
fn a_malformed_hash_is_stored_as_none() {
    let mut db = EngineDb::open_in_memory();
    let mut bad = block(100, 0, 0, None);
    bad.hash = vec![1u8; 31];
    db.apply(&vec![bad], &Scanned::default()).unwrap();
    assert_eq!(db.store.get_sync_state(), SyncState { height: 100, hash: None });
    assert_eq!(db.get_block_hash(100), None);
}

#[test]
fn a_batch_without_sizes_keeps_the_running_ones() {
    let mut db = EngineDb::open_in_memory();
    db.apply(&vec![block(10, 0, 0, Some((5, 6)))], &Scanned::default()).unwrap();
    db.apply(&vec![block(11, 1, 1, None)], &Scanned::default()).unwrap();
    assert_eq!((db.sapling_pos, db.orchard_pos), (5, 6));
    assert_eq!(db.store.get_sync_state().height, 11);
}

#[test]
fn a_note_and_its_spend_in_one_batch() {
    let mut db = EngineDb::open_in_memory();
    let scanned = Scanned {
        sapling: vec![],
        orchard: vec![ScannedNote { note: note(7, 10, 500, 9), position: Some(44) }],
        spends: vec![ScannedSpend {
            spend: Spend { pool: Pool::Orchard, nf: [9; 32], txid: [8; 32], height: 11 },
            tx_index: 3,
        }],
    };
    let blocks = vec![block(10, 0, 0, None), block(11, 0, 0, None)];
    db.apply(&blocks, &scanned).unwrap();
    assert_eq!(db.store.orchard[0].position, Some(44));
    assert_eq!(db.store.orchard[0].spent_height, Some(11));
    assert_eq!(db.store.balance().orchard, 0);
    let spending = db.store.transactions.iter().find(|t| t.txid == [8; 32]).unwrap();
    assert_eq!(spending.tx_index, Some(3));
}

#[test]
fn applying_a_batch_again_changes_nothing() {
    let scanned = || Scanned {
        sapling: vec![],
        orchard: vec![ScannedNote { note: note(7, 10, 500, 9), position: Some(44) }],
        spends: vec![ScannedSpend {
            spend: Spend { pool: Pool::Orchard, nf: [9; 32], txid: [8; 32], height: 11 },
            tx_index: 3,
        }],
    };
    let blocks = vec![block(10, 0, 0, None), block(11, 0, 0, None)];
    let mut db = EngineDb::open_in_memory();
    db.apply(&blocks, &scanned()).unwrap();
    let (notes, txs, kept) = (db.store.notes(), db.store.transactions(), db.blocks.clone());
    db.apply(&blocks, &scanned()).unwrap();
    assert_eq!(db.store.notes(), notes);
    assert_eq!(db.store.transactions(), txs);
    assert_eq!(db.blocks, kept);
}

#[test]
fn a_refused_note_keeps_the_cursor() {
    let mut db = EngineDb::open_in_memory();
    let mut second = note(7, 10, 500, 9);
    second.output_index = 1;
    let scanned = Scanned {
        sapling: vec![],
        orchard: vec![
            ScannedNote { note: note(7, 10, 500, 9), position: None },
            ScannedNote { note: second, position: None },
        ],
        spends: vec![],
    };
    assert_eq!(
        db.apply(&vec![block(10, 0, 0, None)], &scanned),
        Err(StoreError::DuplicateNullifier)
    );
    assert_eq!(db.store.get_sync_state(), SyncState::default());
    assert_eq!(db.store.orchard.len(), 1);
    assert_eq!(db.get_block_hash(10), Some([10u8; 32]));
}

#[test]
fn a_cold_start_begins_at_the_birthday() {
    let mut db = EngineDb::open_in_memory();
    let mut run = EngineRun::new();
    assert_eq!(run.next(&db, 90), EngineStep::Stream { from: 0, seam: None });
    db.store.set_birthday(50);
    assert_eq!(run.next(&db, 90), EngineStep::Stream { from: 50, seam: None });
    assert_eq!(run.next(&db, 49), EngineStep::Synced(0));
}

#[test]
fn a_pass_resumes_after_the_cursor_with_the_stored_hash() {
    let mut db = EngineDb::open_in_memory();
    db.apply(&vec![block(10, 0, 0, None)], &Scanned::default()).unwrap();
    let mut run = EngineRun::new();
    assert_eq!(
        run.next(&db, 90),
        EngineStep::Stream { from: 11, seam: Some([10u8; 32]) }
    );
    assert_eq!(run.next(&db, 10), EngineStep::Synced(10));
}

#[test]
fn a_pass_that_moves_nothing_ends_the_sync() {
    let mut db = EngineDb::open_in_memory();
    db.apply(&vec![block(10, 0, 0, None)], &Scanned::default()).unwrap();
    let mut run = EngineRun::new();
    run.next(&db, 90);
    assert_eq!(run.on_outcome(&mut db, RangeOutcome::Done), Some(10));
    run.next(&db, 90);
    db.apply(&vec![block(11, 0, 0, None)], &Scanned::default()).unwrap();
    assert_eq!(run.on_outcome(&mut db, RangeOutcome::Done), None);
    assert_eq!(run.rewind, 1);
}

#[test]
fn forks_walk_back_twice_as_far_each_time() {
    let mut db = EngineDb::open_in_memory();
    let blocks: Vec<_> = (1..=20).map(|h| block(h, 0, 0, None)).collect();
    db.apply(&blocks, &Scanned::default()).unwrap();
    let mut run = EngineRun::new();
    let mut heights = vec![];
    for _ in 0..4 {
        run.next(&db, 90);
        assert_eq!(run.on_outcome(&mut db, RangeOutcome::Reorg), None);
        heights.push(db.store.get_sync_state().height);
    }
    assert_eq!(heights, vec![19, 17, 13, 5]);
    assert_eq!(db.get_block_hash(5), Some([5u8; 32]));
    assert_eq!(db.get_block_hash(6), None);
    run.next(&db, 90);
    run.on_outcome(&mut db, RangeOutcome::Reorg);
    assert_eq!(db.store.get_sync_state().height, 0);
    assert_eq!(run.rewind, 32);
}

#[test]
fn four_faults_are_retried() {
    let mut run = EngineRun::new();
    let tries: Vec<bool> = (0..5).map(|_| run.on_fault()).collect();
    assert_eq!(tries, vec![true, true, true, true, false]);
}

#[test]
fn networks_by_name() {
    assert_eq!(network_of("test"), Network::TestNetwork);
    assert_eq!(network_of("main"), Network::MainNetwork);
    assert_eq!(network_of("testnet"), Network::MainNetwork);
}

#[test]
fn the_store_resumes_after_its_last_height() {
    assert_eq!(resume_point(&SyncState::default(), 77), (77, None));
    let state = SyncState { height: 9, hash: Some([4; 32]) };
    assert_eq!(resume_point(&state, 77), (10, Some([4; 32])));
}

#[test]
fn notes_are_written_with_the_position() {
    let mut db = store::Db::open_in_memory();
    apply(&mut db, 12, [5; 32], &vec![note(7, 10, 500, 9)]).unwrap();
    assert_eq!(db.get_sync_state(), SyncState { height: 12, hash: Some([5; 32]) });
    assert_eq!(db.balance().orchard, 500);
    assert_eq!(db.orchard[0].position, None);
}

#[test]
fn a_refused_note_leaves_what_was_written_before_it() {
    let mut db = store::Db::open_in_memory();
    let mut second = note(8, 10, 1, 9);
    second.output_index = 1;
    assert_eq!(
        apply(&mut db, 12, [5; 32], &vec![note(7, 10, 500, 9), second]),
        Err(StoreError::DuplicateNullifier)
    );
    assert_eq!(db.get_sync_state(), SyncState::default());
    assert_eq!(db.orchard.len(), 1);
    assert_eq!(db.transactions.len(), 2);
}

#[test]
fn tables_are_made_once() {
    let first = migration::migrate(None);
    assert!(first.create);
    assert_eq!(first.record, Some(migration::SCHEMA_VERSION));
    let second = migration::migrate(first.record);
    assert!(!second.create);
    assert_eq!(second.record, None);
    let newer = migration::migrate(Some(7));
    assert!(!newer.create);
    assert_eq!(newer.record, Some(1));
}
