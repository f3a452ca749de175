//! Chunks of blocks, unspent outputs, servers and errors.

use seer_sync::chain::{readable_utxos, utxos_by_height, BlockChunks, ChainError, TransparentUtxo, ZEC_ROCKS};
use seer_sync::db::DbError;
use seer_sync::error::SeerError;
use seer_sync::primitives::{Network, ShieldedPool};
use seer_sync::proto::{
    CompactBlock, CompactOrchardAction, CompactSaplingOutput, CompactTx, GetAddressUtxosReply,
};
use seer_sync::sync::chain::{chain_tip, detect_reorg, servers, NoServer, RpcError};
use seer_sync::sync::scan::ScanError;
use seer_sync::SyncError;

fn block(height: u64, outputs: usize, actions: usize) -> CompactBlock {
    CompactBlock {
        height,
        hash: vec![height as u8; 32],
        prev_hash: vec![height as u8 - 1; 32],
        vtx: vec![CompactTx {
            outputs: vec![CompactSaplingOutput::default(); outputs],
            actions: vec![CompactOrchardAction::default(); actions],
            ..Default::default()
        }],
        ..Default::default()
    }
}

fn heights(chunks: &[Vec<CompactBlock>]) -> Vec<Vec<u64>> {
    chunks
        .iter()
        .map(|c| c.iter().map(|b| b.height).collect())
        .collect()
}

#[test]
fn chunks_hold_at_most_the_limit() {
    let mut chunks = BlockChunks::new(5);
    for b in [block(1, 2, 1), block(2, 1, 1), block(3, 0, 1), block(4, 7, 0), block(5, 0, 0)] {
        chunks.push(b).unwrap();
    }
    assert_eq!(
        heights(&chunks.finish()),
        vec![vec![1, 2], vec![3], vec![4], vec![5]]
    );
}

#[test]
fn no_chunk_is_closed_early() {
    let mut chunks = BlockChunks::new(6);
    for b in [block(1, 3, 0), block(2, 0, 3), block(3, 1, 0), block(4, 5, 0), block(5, 0, 1)] {
        chunks.push(b).unwrap();
    }
    assert_eq!(heights(&chunks.finish()), vec![vec![1, 2], vec![3, 4], vec![5]]);
    let mut unbounded = BlockChunks::new(usize::MAX);
    for b in [block(1, 3, 0), block(2, 0, 3)] {
        unbounded.push(b).unwrap();
    }
    assert_eq!(heights(&unbounded.finish()), vec![vec![1, 2]]);
}

#[test]
fn no_blocks_make_no_chunks() {
    assert!(BlockChunks::new(5).finish().is_empty());
}

#[test]
fn a_block_that_does_not_connect_is_refused() {
    let mut chunks = BlockChunks::new(100);
    chunks.push(block(1, 0, 0)).unwrap();
    let mut fork = block(2, 0, 0);
    fork.prev_hash = vec![0xff; 32];
    assert_eq!(chunks.push(fork), Err(ChainError::Reorg { height: 2 }));
    let mut silent = block(2, 0, 0);
    silent.prev_hash = vec![];
    assert_eq!(chunks.push(silent), Err(ChainError::Reorg { height: 2 }));
    chunks.push(block(2, 0, 0)).unwrap();
    assert_eq!(heights(&chunks.finish()), vec![vec![1, 2]]);
}

fn reply(txid: usize, height: u64, index: i32) -> GetAddressUtxosReply {
    GetAddressUtxosReply {
        address: "t1".into(),
        txid: vec![height as u8; txid],
        index,
        script: vec![1, 2],
        value_zat: 5,
        height,
    }
}

#[test]
fn a_reply_becomes_an_output() {
    let utxo = TransparentUtxo::try_from(reply(32, 9, 3)).unwrap();
    assert_eq!(
        utxo,
        TransparentUtxo {
            address: "t1".into(),
            txid: [9; 32],
            index: 3,
            script: vec![1, 2],
            value_zat: 5,
            height: 9,
        }
    );
    assert_eq!(TransparentUtxo::try_from(reply(31, 9, 3)), Err(ChainError::Txid));
}

#[test]
fn negative_numbers_wrap_around() {
    let mut r = reply(32, 9, -1);
    r.value_zat = -1;
    r.height = (1 << 32) + 7;
    let utxo = TransparentUtxo::try_from(r).unwrap();
    assert_eq!(utxo.index, u32::MAX);
    assert_eq!(utxo.value_zat, u64::MAX);
    assert_eq!(utxo.height, 7);
}

#[test]
fn outputs_are_ordered_by_height() {
    let replies = vec![reply(32, 9, 0), reply(32, 3, 1), reply(32, 9, 2), reply(32, 1, 3)];
    let utxos = utxos_by_height(replies).unwrap();
    let order: Vec<(u32, u32)> = utxos.iter().map(|u| (u.height, u.index)).collect();
    assert_eq!(order, vec![(1, 3), (3, 1), (9, 0), (9, 2)]);
}

#[test]
fn one_bad_output_fails_a_list_but_not_a_stream() {
    let replies = || vec![reply(32, 9, 0), reply(30, 3, 1), reply(32, 2, 2)];
    assert_eq!(utxos_by_height(replies()), Err(ChainError::Txid));
    let order: Vec<u32> = readable_utxos(replies()).iter().map(|u| u.index).collect();
    assert_eq!(order, vec![0, 2]);
}

#[test]
fn bundled_servers() {
    assert_eq!(servers(Network::MainNetwork)[0], ZEC_ROCKS);
    assert_eq!(servers(Network::MainNetwork).len(), 4);
    assert_eq!(servers(Network::TestNetwork), vec!["https://testnet.zec.rocks:443"]);
}

#[test]
fn a_fork_is_told_at_the_last_trusted_block() {
    assert_eq!(detect_reorg(None, [1; 32]), None);
    assert_eq!(detect_reorg(Some((7, [1; 32])), [1; 32]), None);
    assert_eq!(detect_reorg(Some((7, [2; 32])), [1; 32]), Some(7));
}

#[test]
fn errors_in_words() {
    let rpc = RpcError { code: "Unavailable".into(), message: "gone".into() };
    assert_eq!(rpc.to_text(), "lightwalletd RPC Unavailable: gone");
    assert_eq!(NoServer.to_text(), "no bundled lightwalletd server is available");
    assert_eq!(ChainError::Reorg { height: 2_400_001 }.to_text(), "chain reorganization at height 2400001");
    assert_eq!(ChainError::Txid.to_text(), "txid not 32 bytes");
    assert_eq!(DbError::Corrupt("x".into()).to_text(), "corrupted data: x");
    assert_eq!(DbError::Sqlite("y".into()).to_text(), "sqlite: y");
    assert_eq!(SyncError::Chain(rpc).to_text(), "lightwalletd RPC Unavailable: gone");
    assert_eq!(
        SyncError::Account { source: "disk".into() }.to_text(),
        "account storage error"
    );
    let mut txid = [0u8; 32];
    txid[0] = 0x1f;
    txid[31] = 0xa0;
    let text = SyncError::Transaction { txid, source: "short".into() }.to_text();
    assert_eq!(
        text,
        format!("failed to parse transaction a0{}1f: short", "00".repeat(30))
    );
}

#[test]
fn scan_errors_in_words() {
    assert_eq!(
        SyncError::Scan(ScanError::InvalidCompactBlock(5)).to_text(),
        "invalid compact block at height 5"
    );
    assert_eq!(
        ScanError::BlockHeightDiscontinuity { prev_height: 9, new_height: 12 }.to_text(),
        "block height discontinuity: expected 9 + 1, got 12"
    );
    assert_eq!(
        ScanError::PrevHashMismatch(1_000).to_text(),
        "previous hash mismatch at height 1000"
    );
    assert_eq!(
        ScanError::TreeSizeUnknown(ShieldedPool::Orchard, 3).to_text(),
        "note commitment tree size unknown for Orchard at height 3"
    );
    assert_eq!(
        ScanError::TreeSizeMismatch {
            pool: ShieldedPool::Ironwood,
            at_height: 1,
            given: 20,
            computed: 19
        }
        .to_text(),
        "note commitment tree size mismatch for Ironwood at height 1: given 20, computed 19"
    );
}

#[test]
fn public_errors_in_words() {
    let e = |s: &str| s.to_string();
    assert_eq!(SeerError::Grpc(e("a")).to_text(), "gRPC transport error: a");
    assert_eq!(
        SeerError::Reorg { height: 10 }.to_text(),
        "chain reorganization detected at height 10"
    );
    assert_eq!(SeerError::Proto(e("b")).to_text(), "protobuf field is malformed: b");
    assert_eq!(SeerError::Key(e("c")).to_text(), "key decode failed: c");
    assert_eq!(SeerError::Address(e("d")).to_text(), "address decode failed: d");
    assert_eq!(SeerError::Anyhow(e("f")).to_text(), "f");
    assert_eq!(SeerError::Db(e("g")).to_text(), "database error: g");
}

#[test]
fn chunks_are_handed_over_as_they_fill() {
    let mut chunks = BlockChunks::after(3, vec![0; 32]);
    chunks.push(block(1, 2, 0)).unwrap();
    assert!(chunks.take_full().is_empty());
    chunks.push(block(2, 2, 0)).unwrap();
    assert_eq!(heights(&chunks.take_full()), vec![vec![1]]);
    assert!(chunks.take_full().is_empty());
    assert_eq!(heights(&chunks.finish()), vec![vec![2]]);
    let mut seam = BlockChunks::after(3, vec![9; 32]);
    assert_eq!(seam.push(block(1, 0, 0)), Err(ChainError::Reorg { height: 1 }));
}

#[test]
fn tips_that_fit() {
    assert_eq!(chain_tip(7, &vec![1; 32]), Some((7, [1; 32])));
    assert_eq!(chain_tip(1 << 32, &vec![1; 32]), None);
    assert_eq!(chain_tip(7, &vec![1; 31]), None);
}
