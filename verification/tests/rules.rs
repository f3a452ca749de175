//! Consensus rules by height, and parts of notes.

use seer_sync::db::account::{Batch, Note, ShieldedNote};
use seer_sync::db::store::{Db, PoolBalance, SyncState};
use seer_sync::primitives::{Network, Rseed, SaplingNote, ShieldedPool};
use seer_sync::proto::{
    ChainMetadata, CompactBlock, CompactOrchardAction, CompactSaplingOutput, CompactTx,
};
use seer_sync::sync::decrypt::{
    decrypt_compact_sapling, parse_compact_orchard, parse_compact_sapling, ScanningKeys,
};
use seer_sync::sync::scan::{final_tree_sizes, initial_tree_sizes, scan_compact, Nullifiers, ScanError};
use seer_sync::primitives::Zip212Enforcement;
use seer_sync::UnifiedFullViewingKey;
use zcash_keys::keys::UnifiedSpendingKey;
use zcash_note_encryption::{Domain, NoteEncryption};
use zip32::AccountId;

const CHAIN: zcash_protocol::consensus::Network = zcash_protocol::consensus::Network::MainNetwork;

fn unknown(pool: ShieldedPool, height: u32) -> Result<(u32, u32, u32), ScanError> {
    Err(ScanError::TreeSizeUnknown(pool, height))
}

#[test]
fn trees_are_empty_before_their_pools_activate() {
    let sizes = |network, height, sapling, orchard| {
        let block = CompactBlock {
            chain_metadata: Some(ChainMetadata {
                sapling_commitment_tree_size: sapling,
                orchard_commitment_tree_size: orchard,
                ironwood_commitment_tree_size: 0,
            }),
            ..Default::default()
        };
        initial_tree_sizes(network, height, &block)
    };
    let (main, test) = (Network::MainNetwork, Network::TestNetwork);
    assert_eq!(sizes(main, 419_199, 0, 0), Ok((0, 0, 0)));
    assert_eq!(sizes(main, 419_200, 0, 0), unknown(ShieldedPool::Sapling, 419_200));
    assert_eq!(sizes(main, 1_687_103, 7, 0), Ok((7, 0, 0)));
    assert_eq!(sizes(main, 1_687_104, 7, 0), unknown(ShieldedPool::Orchard, 1_687_104));
    assert_eq!(sizes(main, 3_428_142, 7, 8), Ok((7, 8, 0)));
    assert_eq!(sizes(main, 3_428_143, 7, 8), unknown(ShieldedPool::Ironwood, 3_428_143));
    assert_eq!(sizes(test, 279_999, 0, 0), Ok((0, 0, 0)));
    assert_eq!(sizes(test, 280_000, 0, 0), unknown(ShieldedPool::Sapling, 280_000));
    assert_eq!(sizes(test, 1_842_419, 7, 0), Ok((7, 0, 0)));
    assert_eq!(sizes(test, 1_842_420, 7, 0), unknown(ShieldedPool::Orchard, 1_842_420));
    assert_eq!(sizes(test, 4_133_999, 7, 8), Ok((7, 8, 0)));
    assert_eq!(sizes(test, 4_134_000, 7, 8), unknown(ShieldedPool::Ironwood, 4_134_000));
}

#[test]
fn sizes_after_a_block_are_told_or_counted() {
    let mut block = CompactBlock {
        vtx: vec![CompactTx {
            outputs: vec![CompactSaplingOutput::default(); 3],
            ..Default::default()
        }],
        ..Default::default()
    };
    assert_eq!(final_tree_sizes(&block), (3, 0, 0));
    block.chain_metadata = Some(ChainMetadata {
        sapling_commitment_tree_size: 10,
        orchard_commitment_tree_size: 20,
        ironwood_commitment_tree_size: 30,
    });
    assert_eq!(final_tree_sizes(&block), (10, 20, 30));
    assert_eq!(initial_tree_sizes(Network::MainNetwork, 5, &block), Ok((7, 20, 30)));
    block.chain_metadata.as_mut().unwrap().sapling_commitment_tree_size = 2;
    assert_eq!(
        initial_tree_sizes(Network::MainNetwork, 5, &block),
        unknown(ShieldedPool::Sapling, 5)
    );
}

fn keys() -> (ScanningKeys, sapling_crypto::zip32::DiversifiableFullViewingKey) {
    let usk = UnifiedSpendingKey::from_seed(&CHAIN, &[1; 32], AccountId::ZERO).unwrap();
    let ufvk = usk.to_unified_full_viewing_key();
    let encoded = ufvk.encode(&CHAIN).unwrap();
    let keys = ScanningKeys::from_ufvk(
        &UnifiedFullViewingKey::decode(Network::MainNetwork, &encoded).unwrap(),
    );
    (keys, ufvk.sapling().unwrap().clone())
}

fn compact(note: &sapling_crypto::Note) -> CompactSaplingOutput {
    type D = sapling_crypto::note_encryption::SaplingDomain;
    let enc = NoteEncryption::<D>::new(None, note.clone(), [0u8; 512]);
    CompactSaplingOutput {
        cmu: note.cmu().to_bytes().to_vec(),
        ephemeral_key: D::epk_bytes(enc.epk()).0.to_vec(),
        ciphertext: enc.encrypt_note_plaintext().as_ref()[..52].to_vec(),
    }
}

#[test]
fn new_plaintexts_are_read_from_canopy_on() {
    let (keys, dfvk) = keys();
    let note = dfvk.default_address().1.create_note(
        sapling_crypto::value::NoteValue::from_raw(77),
        sapling_crypto::Rseed::AfterZip212([7u8; 32]),
    );
    let output = compact(&note);
    let found = |height: u32| {
        let block = CompactBlock {
            height: height as u64,
            hash: vec![1; 32],
            prev_hash: vec![0; 32],
            chain_metadata: Some(ChainMetadata {
                sapling_commitment_tree_size: 5,
                ..Default::default()
            }),
            vtx: vec![CompactTx {
                txid: vec![2; 32],
                outputs: vec![output.clone()],
                ..Default::default()
            }],
            ..Default::default()
        };
        let (txs, _) = scan_compact(
            &vec![block],
            &keys,
            None,
            Network::MainNetwork,
            &Nullifiers::default(),
            &vec![],
            None,
        )
        .unwrap();
        txs.len()
    };
    assert_eq!(found(1_046_399), 0);
    assert_eq!(found(1_046_400), 1);
    assert_eq!(found(1_078_655), 1);
    assert_eq!(found(1_078_656), 1);
    let outputs = [output.clone()];
    for (rule, hit) in [
        (Zip212Enforcement::Off, false),
        (Zip212Enforcement::GracePeriod, true),
        (Zip212Enforcement::On, true),
    ] {
        assert_eq!(decrypt_compact_sapling(&outputs, &keys, rule)[0].is_some(), hit);
    }
}

#[test]
fn a_sapling_note_is_stored_with_its_trapdoor() {
    let (_, dfvk) = keys();
    let to = dfvk.default_address().1;
    let note = to.create_note(
        sapling_crypto::value::NoteValue::from_raw(77),
        sapling_crypto::Rseed::AfterZip212([7u8; 32]),
    );
    let mut db = Db::open_in_memory();
    let batch = Batch {
        notes: vec![Note {
            txid: [1; 32],
            height: 2,
            tx_index: 3,
            output_index: 4,
            note: ShieldedNote::Sapling(SaplingNote {
                recipient: to.to_bytes(),
                value: 77,
                rseed: Rseed::AfterZip212([7; 32]),
            }),
            nullifier: None,
            memo: None,
            is_sent: false,
            recipient: None,
        }],
        spends: vec![],
        transparent_outputs: vec![],
        transparent_spends: vec![],
    };
    db.apply(&SyncState { height: 2, hash: None }, &batch).unwrap();
    assert_eq!(db.sapling[0].rseed, note.rcm().to_bytes().to_vec());
    assert_eq!(db.sapling[0].diversifier, to.diversifier().0.to_vec());
    assert_eq!(db.balance().sapling, 77);
}

#[test]
fn a_balance_is_the_sum_of_its_pools() {
    let balance = PoolBalance { orchard: 1, sapling: 20, transparent: 300 };
    assert_eq!(balance.total(), 321);
}

fn halves(low: u128, high: u128) -> Vec<u8> {
    [low.to_le_bytes(), high.to_le_bytes()].concat()
}

#[test]
fn commitments_lie_below_the_modulus_of_their_field() {
    let jubjub = |low| halves(low, 0x73eda753299d7d483339d80809a1d805);
    let output = |cmu| {
        let (ephemeral_key, ciphertext) = (vec![0; 32], vec![0; 52]);
        parse_compact_sapling(&CompactSaplingOutput { cmu, ephemeral_key, ciphertext }).is_some()
    };
    assert!(output(jubjub(0x53bda402fffe5bfeffffffff00000000)));
    assert!(!output(jubjub(0x53bda402fffe5bfeffffffff00000001)));

    let pallas = |low| halves(low, 0x40000000000000000000000000000000);
    let action = |nullifier, cmx| {
        let (ephemeral_key, ciphertext) = (vec![0; 32], vec![0; 52]);
        let action = CompactOrchardAction { nullifier, cmx, ephemeral_key, ciphertext };
        parse_compact_orchard(&action).is_some()
    };
    let (largest, modulus) = (
        pallas(0x224698fc094cf91b992d30ed00000000),
        pallas(0x224698fc094cf91b992d30ed00000001),
    );
    assert!(action(largest.clone(), largest.clone()));
    assert!(!action(modulus.clone(), largest.clone()));
    assert!(!action(largest, modulus));
}
