//! Sizes of the note commitment trees.

use seer_sync::proto::{
    ChainMetadata, CompactBlock, CompactOrchardAction, CompactSaplingOutput, CompactTx, TreeState,
};
use seer_sync::tree::{LwdTreeState, TreeSize};

fn make_block(sapling_size: u32, orchard_size: u32) -> CompactBlock {
    CompactBlock {
        chain_metadata: Some(ChainMetadata {
            sapling_commitment_tree_size: sapling_size,
            orchard_commitment_tree_size: orchard_size,
            ..Default::default()
        }),
        ..Default::default()
    }
}

fn tx_with(outputs: usize, actions: usize) -> CompactTx {
    CompactTx {
        outputs: vec![CompactSaplingOutput::default(); outputs],
        actions: vec![CompactOrchardAction::default(); actions],
        ..Default::default()
    }
}

#[test]
fn from_block_reads_metadata() {
    let block = make_block(100, 50);
    let size = TreeSize::from_block(&block).unwrap();
    assert_eq!(size.sapling, 100);
    assert_eq!(size.orchard, 50);
}

#[test]
fn before_block_subtracts_outputs() {
    let mut block = make_block(10, 5);
    block.vtx = vec![tx_with(3, 2)];

    let before = TreeSize::before_block(&block).unwrap();
    assert_eq!(before.sapling, 7);
    assert_eq!(before.orchard, 3);
}

#[test]
fn before_block_stops_at_zero() {
    let mut block = make_block(2, 1);
    block.vtx = vec![tx_with(3, 2)];
    assert_eq!(TreeSize::before_block(&block), Some(TreeSize::default()));
}

#[test]
fn a_block_without_metadata_tells_no_size() {
    let block = CompactBlock::default();
    assert_eq!(TreeSize::from_block(&block), None);
    assert_eq!(TreeSize::before_block(&block), None);
}

#[test]
fn outputs_are_counted_where_there_is_no_metadata() {
    let prior = TreeSize { sapling: 40, orchard: 7 };
    let mut block = CompactBlock::default();
    block.vtx = vec![tx_with(3, 2), tx_with(1, 0)];
    assert_eq!(
        TreeSize::from_block_or_count(&block, prior),
        TreeSize { sapling: 44, orchard: 9 }
    );
    let mut told = make_block(100, 50);
    told.vtx = block.vtx.clone();
    assert_eq!(
        TreeSize::from_block_or_count(&told, prior),
        TreeSize { sapling: 100, orchard: 50 }
    );
}

#[test]
fn counting_from_before_a_block_gives_its_size() {
    let mut block = make_block(10, 5);
    block.vtx = vec![tx_with(3, 2)];
    let before = TreeSize::before_block(&block).unwrap();
    let mut unlabelled = block.clone();
    unlabelled.chain_metadata = None;
    assert_eq!(
        Some(TreeSize::from_block_or_count(&unlabelled, before)),
        TreeSize::from_block(&block)
    );
}

#[test]
fn a_tree_state_keeps_its_frontiers() {
    let state = TreeState {
        network: "main".into(),
        height: 2_000_000,
        hash: "00ff".into(),
        time: 3,
        sapling_tree: "01".into(),
        orchard_tree: "02".into(),
    };
    let got = LwdTreeState::from_state(state);
    assert_eq!(got.height, 2_000_000);
    assert_eq!(got.hash, "00ff");
    assert_eq!(got.sapling_tree, "01");
    assert_eq!(got.orchard_tree, "02");
}
