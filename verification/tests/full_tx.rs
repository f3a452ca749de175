//! Full transactions: memos, notes sent, and transaction ids.

use std::convert::Infallible;

use orchard::keys::FullViewingKey;
use orchard::note::{ExtractedNoteCommitment, NoteVersion, RandomSeed, Rho};
use orchard::note_encryption::{
    IronwoodDomain, IronwoodNoteEncryption, OrchardDomain, OrchardNoteEncryption,
};
use orchard::value::{NoteValue, ValueCommitment};
use rand_core::TryRng;
use seer_sync::decrypt::{
    read_outputs, try_decrypt_orchard, try_decrypt_orchard_sent, try_decrypt_sapling,
    try_decrypt_sapling_sent,
};
use seer_sync::key::{encode_orchard_recipient, encode_sapling_recipient, ViewKey};
use seer_sync::note::decrypt::{try_compact_orchard, try_compact_sapling};
use seer_sync::note::memo::{Memo, MemoBytes};
use seer_sync::primitives::{Network, Zip212Enforcement};
use seer_sync::proto::{
    ChainMetadata, CompactBlock, CompactOrchardAction, CompactSaplingOutput, CompactTx,
    RawTransaction,
};
use seer_sync::sync::decrypt::{parse_compact_orchard, parse_compact_sapling, ScanningKeys};
use seer_sync::sync::enrich::{enrich_memos, Receive, SpendEvent, Transactions, Tx};
use seer_sync::sync::transparent::Walk;
use seer_sync::sync::{finish_batch, scan_blocks, TransparentWatch};
use seer_sync::{Db, Nullifiers, UnifiedFullViewingKey};
use zcash_keys::keys::UnifiedSpendingKey;
use zcash_note_encryption::{Domain, NoteEncryption};
use zip32::{AccountId, Scope};

const CHAIN: zcash_protocol::consensus::Network = zcash_protocol::consensus::Network::MainNetwork;
const NU5_HEIGHT: u32 = 1_700_000;
const NU6_3_HEIGHT: u32 = 3_500_000;
const NU5_BRANCH: u32 = 0xc2d6_d0b4;
const NU6_3_BRANCH: u32 = 0x37a5_165b;

type SaplingDomain = sapling_crypto::note_encryption::SaplingDomain;

/// Bytes in a fixed order.
struct Counter(u64);

impl TryRng for Counter {
    type Error = Infallible;

    fn try_next_u32(&mut self) -> Result<u32, Infallible> {
        self.0 += 1;
        Ok(self.0 as u32)
    }

    fn try_next_u64(&mut self) -> Result<u64, Infallible> {
        self.0 += 1;
        Ok(self.0)
    }

    fn try_fill_bytes(&mut self, dst: &mut [u8]) -> Result<(), Infallible> {
        for b in dst {
            self.0 += 1;
            *b = self.0 as u8;
        }
        Ok(())
    }
}

struct Wallet {
    encoded: String,
    keys: ScanningKeys,
    fvk: FullViewingKey,
    sapling: sapling_crypto::zip32::DiversifiableFullViewingKey,
}

fn wallet(seed: u8) -> Wallet {
    let usk = UnifiedSpendingKey::from_seed(&CHAIN, &[seed; 32], AccountId::ZERO).unwrap();
    let ufvk = usk.to_unified_full_viewing_key();
    let encoded = ufvk.encode(&CHAIN).unwrap();
    let keys = ScanningKeys::from_ufvk(
        &UnifiedFullViewingKey::decode(Network::MainNetwork, &encoded).unwrap(),
    );
    Wallet {
        keys,
        fvk: FullViewingKey::from(usk.orchard()),
        sapling: ufvk.sapling().unwrap().clone(),
        encoded,
    }
}

fn forge(addr: orchard::Address, value: u64, rho: [u8; 32], version: NoteVersion) -> orchard::Note {
    let rho = Option::from(Rho::from_bytes(&rho)).expect("canonical rho");
    (0u8..=255)
        .find_map(|i| {
            let rseed = Option::from(RandomSeed::from_bytes([i; 32], &rho))?;
            Option::from(orchard::Note::from_parts(
                addr,
                NoteValue::from_raw(value),
                rho,
                rseed,
                version,
            ))
        })
        .expect("forgeable note")
}

fn text_memo(text: &str) -> [u8; 512] {
    let mut memo = [0u8; 512];
    memo[..text.len()].copy_from_slice(text.as_bytes());
    memo
}

/// A shielded output in its compact form and in its place in a transaction.
struct Orchard {
    compact: CompactOrchardAction,
    bytes: Vec<u8>,
}

fn orchard_action(from: &Wallet, note: &orchard::Note, memo: [u8; 512]) -> Orchard {
    let cmx = ExtractedNoteCommitment::from(note.commitment());
    let cv = ValueCommitment::from_bytes(&[0u8; 32]).into_option().unwrap();
    let (epk, enc, out) = match note.version() {
        NoteVersion::V3 => {
            let e = IronwoodNoteEncryption::new(Some(from.fvk.to_ovk(Scope::External)), *note, memo);
            (
                IronwoodDomain::epk_bytes(e.epk()).0,
                e.encrypt_note_plaintext(),
                e.encrypt_outgoing_plaintext(&cv, &cmx, &mut Counter(0)),
            )
        }
        _ => {
            let e = OrchardNoteEncryption::new(Some(from.fvk.to_ovk(Scope::External)), *note, memo);
            (
                OrchardDomain::epk_bytes(e.epk()).0,
                e.encrypt_note_plaintext(),
                e.encrypt_outgoing_plaintext(&cv, &cmx, &mut Counter(0)),
            )
        }
    };
    let mut bytes = cv.to_bytes().to_vec();
    bytes.extend(note.rho().to_bytes());
    bytes.extend(&from.fvk.to_bytes()[..32]);
    bytes.extend(cmx.to_bytes());
    bytes.extend(epk);
    bytes.extend(enc.as_ref());
    bytes.extend(out);
    Orchard {
        compact: CompactOrchardAction {
            nullifier: note.rho().to_bytes().to_vec(),
            cmx: cmx.to_bytes().to_vec(),
            ephemeral_key: epk.to_vec(),
            ciphertext: enc.as_ref()[..52].to_vec(),
        },
        bytes,
    }
}

struct Sapling {
    compact: CompactSaplingOutput,
    bytes: Vec<u8>,
}

fn sapling_output(from: &Wallet, note: &sapling_crypto::Note, memo: [u8; 512]) -> Sapling {
    let cmu = note.cmu();
    let cv_bytes: [u8; 32] = from.sapling.to_bytes()[..32].try_into().unwrap();
    let cv = sapling_crypto::value::ValueCommitment::from_bytes_not_small_order(&cv_bytes)
        .into_option()
        .unwrap();
    let ovk = from.sapling.to_ovk(Scope::External);
    let e = NoteEncryption::<SaplingDomain>::new(Some(ovk), note.clone(), memo);
    let epk = SaplingDomain::epk_bytes(e.epk()).0;
    let enc = e.encrypt_note_plaintext();
    let out = e.encrypt_outgoing_plaintext(&cv, &cmu, &mut Counter(0));
    let mut bytes = cv_bytes.to_vec();
    bytes.extend(cmu.to_bytes());
    bytes.extend(epk);
    bytes.extend(enc.as_ref());
    bytes.extend(out);
    Sapling {
        compact: CompactSaplingOutput {
            cmu: cmu.to_bytes().to_vec(),
            ephemeral_key: epk.to_vec(),
            ciphertext: enc.as_ref()[..52].to_vec(),
        },
        bytes,
    }
}

fn sapling_bundle(outputs: &[&Sapling]) -> Vec<u8> {
    let mut data = vec![0, outputs.len() as u8];
    if outputs.is_empty() {
        return data;
    }
    for o in outputs {
        data.extend(&o.bytes);
    }
    data.extend([0; 8]);
    data.extend(vec![0; 192 * outputs.len()]);
    data.extend([0; 64]);
    data
}

fn orchard_bundle(actions: &[&Orchard]) -> Vec<u8> {
    let mut data = vec![actions.len() as u8];
    if actions.is_empty() {
        return data;
    }
    for a in actions {
        data.extend(&a.bytes);
    }
    data.push(3);
    data.extend([0; 8]);
    data.extend([0; 32]);
    let size = orchard::Proof::expected_proof_size(actions.len());
    data.push(253);
    data.extend((size as u16).to_le_bytes());
    data.extend(vec![0; size]);
    data.extend(vec![0; 64 * actions.len()]);
    data.extend([0; 64]);
    data
}

fn header(version: u32, group: u32, branch: u32) -> Vec<u8> {
    let mut data = (0x8000_0000 | version).to_le_bytes().to_vec();
    data.extend(group.to_le_bytes());
    data.extend(branch.to_le_bytes());
    data.extend([0; 8]);
    data.extend([0, 0]);
    data
}

fn v5(outputs: &[&Sapling], actions: &[&Orchard]) -> Vec<u8> {
    let mut data = header(5, 0x26A7270A, NU5_BRANCH);
    data.extend(sapling_bundle(outputs));
    data.extend(orchard_bundle(actions));
    data
}

fn v6(actions: &[&Orchard], ironwood: &[&Orchard]) -> Vec<u8> {
    let mut data = header(6, 0xD884B698, NU6_3_BRANCH);
    data.extend(sapling_bundle(&[]));
    data.extend(orchard_bundle(actions));
    data.extend(orchard_bundle(ironwood));
    data
}

fn sapling_note(to: &Wallet, value: u64) -> sapling_crypto::Note {
    to.sapling.default_address().1.create_note(
        sapling_crypto::value::NoteValue::from_raw(value),
        sapling_crypto::Rseed::AfterZip212([7u8; 32]),
    )
}

fn orchard_note(to: &Wallet, value: u64, rho: u8, version: NoteVersion) -> orchard::Note {
    forge(to.fvk.address_at(0u32, Scope::External), value, [rho; 32], version)
}

fn nothing() -> Nullifiers {
    Nullifiers { sapling: vec![], orchard: vec![], ironwood: vec![] }
}

fn no_transparent() -> TransparentWatch {
    TransparentWatch { scripts: vec![], targets: vec![], outpoints: vec![] }
}

fn block(height: u32, tx: CompactTx) -> CompactBlock {
    let count = |n: usize| 1_000 + n as u32;
    CompactBlock {
        height: height as u64,
        hash: vec![1; 32],
        prev_hash: vec![0; 32],
        chain_metadata: Some(ChainMetadata {
            sapling_commitment_tree_size: count(tx.outputs.len()),
            orchard_commitment_tree_size: count(tx.actions.len()),
            ironwood_commitment_tree_size: if height >= 3_428_143 {
                count(tx.ironwood_actions.len())
            } else {
                0
            },
        }),
        vtx: vec![tx],
        ..Default::default()
    }
}

#[test]
fn outputs_of_a_transaction_are_read_and_decrypted() {
    let (us, them) = (wallet(1), wallet(2));
    let action = orchard_action(&them, &orchard_note(&us, 50, 3, NoteVersion::V2), text_memo("hi"));
    let output = sapling_output(&them, &sapling_note(&us, 60), text_memo("ho"));
    let data = v5(&[&output], &[&action]);
    let outputs = read_outputs(&data, Network::MainNetwork, NU5_HEIGHT).unwrap();
    assert!(outputs.ironwood.is_none());
    let actions = outputs.orchard.unwrap();
    let (note, recipient, memo) =
        try_decrypt_orchard(&actions[0], &us.keys.orchard[0].ivk).unwrap();
    assert_eq!(note.value, 50);
    assert_eq!(
        recipient,
        us.fvk.address_at(0u32, Scope::External).to_raw_address_bytes()
    );
    assert_eq!(memo, text_memo("hi"));
    assert!(try_decrypt_orchard(&actions[0], &us.keys.orchard[1].ivk).is_none());
    assert!(try_decrypt_orchard(&actions[0], &them.keys.orchard[0].ivk).is_none());

    let outs = outputs.sapling.unwrap();
    let on = Zip212Enforcement::On;
    let (note, recipient, memo) =
        try_decrypt_sapling(&outs[0], &us.keys.sapling[0].ivk, on).unwrap();
    assert_eq!(note.value, 60);
    assert_eq!(recipient, us.sapling.default_address().1.to_bytes());
    assert_eq!(memo, text_memo("ho"));
    assert!(try_decrypt_sapling(&outs[0], &them.keys.sapling[0].ivk, on).is_none());
    assert!(
        try_decrypt_sapling(&outs[0], &us.keys.sapling[0].ivk, Zip212Enforcement::Off).is_none()
    );
}

#[test]
fn the_sender_recovers_what_was_sent() {
    let (us, them) = (wallet(1), wallet(2));
    let action = orchard_action(&us, &orchard_note(&them, 50, 3, NoteVersion::V2), text_memo("hi"));
    let output = sapling_output(&us, &sapling_note(&them, 60), text_memo("ho"));
    let data = v5(&[&output], &[&action]);
    let outputs = read_outputs(&data, Network::MainNetwork, NU5_HEIGHT).unwrap();
    let actions = outputs.orchard.unwrap();
    let outs = outputs.sapling.unwrap();
    let ovk = us.keys.orchard[0].ovk.unwrap();
    let (note, recipient, memo) = try_decrypt_orchard_sent(&actions[0], &ovk).unwrap();
    assert_eq!((note.value, memo), (50, text_memo("hi")));
    assert_eq!(
        encode_orchard_recipient(Network::MainNetwork, &recipient).unwrap().get(..2),
        Some("u1")
    );
    assert!(try_decrypt_orchard_sent(&actions[0], &them.keys.orchard[0].ovk.unwrap()).is_none());
    let ovk = us.keys.sapling[0].ovk.unwrap();
    let on = Zip212Enforcement::On;
    let (note, recipient, memo) = try_decrypt_sapling_sent(&outs[0], &ovk, on).unwrap();
    assert_eq!((note.value, memo), (60, text_memo("ho")));
    assert_eq!(
        encode_sapling_recipient(Network::MainNetwork, &recipient).unwrap().get(..2),
        Some("u1")
    );
    let other = them.keys.sapling[0].ovk.unwrap();
    assert!(try_decrypt_sapling_sent(&outs[0], &other, on).is_none());
    assert_eq!(encode_sapling_recipient(Network::MainNetwork, &[0xff; 43]), None);
    assert_eq!(encode_orchard_recipient(Network::MainNetwork, &[0xff; 43]), None);
}

#[test]
fn bytes_that_are_no_transaction_tell_why() {
    let error = match read_outputs(&vec![0xde, 0xad], Network::MainNetwork, NU5_HEIGHT) {
        Ok(_) => panic!("expected an error"),
        Err(e) => e,
    };
    assert!(!error.is_empty());
}

#[test]
fn compact_outputs_are_decrypted_slot_by_slot() {
    let (us, them) = (wallet(1), wallet(2));
    let ours = orchard_action(&them, &orchard_note(&us, 50, 3, NoteVersion::V2), [0; 512]);
    let theirs = orchard_action(&us, &orchard_note(&them, 51, 4, NoteVersion::V2), [0; 512]);
    let actions = vec![
        parse_compact_orchard(&theirs.compact).unwrap(),
        parse_compact_orchard(&ours.compact).unwrap(),
    ];
    let found = try_compact_orchard(&us.keys.orchard[0].ivk, &actions);
    assert_eq!(found[0], None);
    assert_eq!(found[1].unwrap().0.value, 50);

    let ours = sapling_output(&them, &sapling_note(&us, 60), [0; 512]);
    let theirs = sapling_output(&us, &sapling_note(&them, 61), [0; 512]);
    let outputs = vec![
        parse_compact_sapling(&ours.compact).unwrap(),
        parse_compact_sapling(&theirs.compact).unwrap(),
    ];
    let found = try_compact_sapling(&us.keys.sapling[0].ivk, &outputs);
    assert_eq!(found[0].unwrap().0.value, 60);
    assert_eq!(found[1], None);

    let mut short = ours.compact;
    short.ciphertext.pop();
    assert!(parse_compact_sapling(&short).is_none());
    let mut bad = theirs.compact;
    bad.cmu = vec![0xff; 32];
    assert!(parse_compact_sapling(&bad).is_none());
    assert!(parse_compact_orchard(&CompactOrchardAction::default()).is_none());
}

#[test]
fn a_batch_gets_memos_and_notes_sent() {
    let (us, them) = (wallet(1), wallet(2));
    let received =
        orchard_action(&them, &orchard_note(&us, 50, 3, NoteVersion::V2), text_memo("to us"));
    let sent =
        orchard_action(&us, &orchard_note(&them, 51, 4, NoteVersion::V2), text_memo("to them"));
    let sapling_received = sapling_output(&them, &sapling_note(&us, 60), text_memo("sapling"));
    let sapling_sent = sapling_output(&us, &sapling_note(&them, 61), text_memo("sapling sent"));
    let compact = CompactTx {
        txid: vec![9; 32],
        actions: vec![received.compact.clone(), sent.compact.clone()],
        outputs: vec![sapling_sent.compact.clone(), sapling_received.compact.clone()],
        ..Default::default()
    };
    let blocks = vec![block(NU5_HEIGHT, compact)];
    let mut nullifiers = nothing();
    let mut none = no_transparent();
    let (mut txs, fetch) =
        scan_blocks(&blocks, &us.keys, Network::MainNetwork, &mut nullifiers, &none).unwrap();
    assert_eq!(fetch, vec![([9; 32], NU5_HEIGHT, 0)]);
    assert_eq!(nullifiers.orchard.len(), 1);
    assert_eq!(nullifiers.sapling.len(), 1);
    let data = v5(&[&sapling_sent, &sapling_received], &[&received, &sent]);
    let fetched = vec![([9; 32], NU5_HEIGHT, 0, RawTransaction { data, height: 0 })];
    let network = Network::MainNetwork;
    let cursor = finish_batch(&blocks, &mut txs, &fetched, &us.keys, network, &mut none).unwrap();
    assert_eq!(txs.len(), 1);
    let orchard = &txs[0].orchard_outputs;
    assert_eq!(orchard.len(), 2);
    assert_eq!((orchard[0].index, orchard[0].note.value, orchard[0].is_sent), (0, 50, false));
    assert_eq!(orchard[0].memo, Some(text_memo("to us")));
    assert_eq!(orchard[0].position, 1_000);
    assert_eq!((orchard[1].index, orchard[1].note.value, orchard[1].is_sent), (1, 51, true));
    assert_eq!(orchard[1].memo, Some(text_memo("to them")));
    assert_eq!(orchard[1].nf, None);
    let sapling = &txs[0].sapling_outputs;
    assert_eq!((sapling[0].index, sapling[0].note.value, sapling[0].is_sent), (1, 60, false));
    assert_eq!(sapling[0].memo, Some(text_memo("sapling")));
    assert_eq!((sapling[1].index, sapling[1].note.value, sapling[1].is_sent), (0, 61, true));

    let mut db = Db::open_memory();
    db.init_account(NU5_HEIGHT);
    db.apply(cursor, &txs);
    assert!(db.txs[0].is_outgoing);
    assert_eq!(db.txs[0].amount, 50 + 51 + 60 + 61);
    let stored = db.orchard_notes.iter().find(|n| !n.is_sent).unwrap();
    assert_eq!(stored.memo.as_deref(), Some(&text_memo("to us")[..]));
    assert_eq!(db.resume().unwrap().checkpoint, Some(cursor));
    assert_eq!(db.resume().unwrap().nullifiers.orchard, nullifiers.orchard);
}

#[test]
fn ironwood_actions_get_memos_and_notes_sent() {
    let (us, them) = (wallet(1), wallet(2));
    let received =
        orchard_action(&them, &orchard_note(&us, 70, 3, NoteVersion::V3), text_memo("in"));
    let sent = orchard_action(&us, &orchard_note(&them, 71, 4, NoteVersion::V3), text_memo("out"));
    let compact = CompactTx {
        txid: vec![9; 32],
        ironwood_actions: vec![received.compact.clone(), sent.compact.clone()],
        ..Default::default()
    };
    let blocks = vec![block(NU6_3_HEIGHT, compact)];
    let mut none = no_transparent();
    let (mut txs, _) =
        scan_blocks(&blocks, &us.keys, Network::MainNetwork, &mut nothing(), &none).unwrap();
    assert_eq!(txs[0].ironwood_outputs[0].note.value, 70);
    let data = v6(&[], &[&received, &sent]);
    let fetched = vec![([9; 32], NU6_3_HEIGHT, 0, RawTransaction { data, height: 0 })];
    finish_batch(&blocks, &mut txs, &fetched, &us.keys, Network::MainNetwork, &mut none).unwrap();
    let found = &txs[0].ironwood_outputs;
    assert_eq!(found[0].memo, Some(text_memo("in")));
    assert_eq!((found[1].note.value, found[1].is_sent), (71, true));
    assert_eq!(found[1].memo, Some(text_memo("out")));
    assert!(txs[0].orchard_outputs.is_empty());
}

fn receive<N>(txid: u8, height: u32, index: u32, note: N) -> Tx<N> {
    Tx::Receive(Receive {
        txid: [txid; 32],
        height,
        output_index: index,
        note,
        nf: None,
        memo: None,
    })
}

#[test]
fn memos_are_filled_in_where_they_can_be_read() {
    let (us, them) = (wallet(1), wallet(2));
    let action =
        orchard_action(&them, &orchard_note(&us, 50, 3, NoteVersion::V2), text_memo("orchard"));
    let output = sapling_output(&them, &sapling_note(&us, 60), text_memo("sapling"));
    let data = v5(&[&output], &[&action]);
    let height = NU5_HEIGHT;
    let outputs = read_outputs(&data, Network::MainNetwork, height).unwrap();
    let (o, _, _) = try_decrypt_orchard(
        &outputs.orchard.as_ref().unwrap()[0],
        &us.keys.orchard[0].ivk,
    )
    .unwrap();
    let (s, _, _) = try_decrypt_sapling(
        &outputs.sapling.as_ref().unwrap()[0],
        &us.keys.sapling[0].ivk,
        Zip212Enforcement::On,
    )
    .unwrap();
    let mut txs = Transactions {
        sapling: vec![receive(7, height, 0, s), receive(7, height, 5, s), receive(8, height, 0, s)],
        orchard: vec![
            Tx::Spend(SpendEvent { txid: [3; 32], height, nf: [1; 32] }),
            receive(7, height, 0, o),
            receive(2, height, 0, o),
        ],
    };
    assert_eq!(txs.receive_txids(), vec![[2; 32], [7; 32], [8; 32]]);
    let raw = RawTransaction { data, height: height as u64 };
    let (si, oi) = (&us.keys.sapling[0].ivk, &us.keys.orchard[0].ivk);
    enrich_memos(&mut txs, &[7; 32], &raw, Some(si), Some(oi), Network::MainNetwork);
    let memo = |t: &Tx<_>| match t {
        Tx::Receive(r) => r.memo,
        Tx::Spend(_) => None,
    };
    let sapling: Vec<_> = txs.sapling.iter().map(memo).collect();
    assert_eq!(sapling, vec![Some(text_memo("sapling")), None, None]);
    let orchard: Vec<_> = txs
        .orchard
        .iter()
        .map(|t| match t {
            Tx::Receive(r) => r.memo,
            Tx::Spend(_) => None,
        })
        .collect();
    assert_eq!(orchard, vec![None, Some(text_memo("orchard")), None]);

    let garbage = RawTransaction { data: vec![0xde, 0xad, 0xbe, 0xef], height: 0 };
    enrich_memos(&mut txs, &[2; 32], &garbage, Some(si), Some(oi), Network::MainNetwork);
    match &txs.orchard[2] {
        Tx::Receive(r) => assert_eq!(r.memo, None, "garbage is skipped"),
        _ => panic!("a receive stays one"),
    }
}

#[test]
fn a_walk_stops_after_a_gap_of_unused_addresses() {
    let us = wallet(1);
    let key = ViewKey::decode(Network::MainNetwork, &us.encoded).unwrap().transparent.unwrap();
    let listed = key.scoped_addresses(Network::MainNetwork, false, 3);
    assert_eq!(listed.len(), 3);
    let mut walk = Walk::new();
    let mut asked = vec![];
    let data = v5(&[], &[]);
    let id = {
        let tx = zcash_primitives::transaction::Transaction::read(
            &data[..],
            zcash_protocol::consensus::BranchId::Nu5,
        )
        .unwrap();
        *tx.txid().as_ref()
    };
    while let Some(text) = walk.next(Some(&key), Network::MainNetwork) {
        let used = asked.len() == 2;
        let replies = if used {
            vec![
                RawTransaction { data: data.clone(), height: 1_700_123 },
                RawTransaction { data: vec![1], height: 5 },
            ]
        } else {
            vec![]
        };
        asked.push(text);
        walk.on_transactions(&replies, Network::MainNetwork);
    }
    assert_eq!(asked.len(), 3 + 20 + 20);
    for (i, (text, index)) in listed.iter().enumerate() {
        assert_eq!((&asked[i], i as u32), (text, *index));
        assert!(text.starts_with("t1"));
    }
    assert!(asked[23] != asked[0], "change addresses come after the others");
    let found = walk.finish();
    assert_eq!(found.addresses.len(), 43);
    assert_eq!(found.targets, vec![(id, 1_700_123)]);
}

#[test]
fn a_walk_without_transparent_keys_is_over_at_once() {
    let mut walk = Walk::new();
    assert_eq!(walk.next(None, Network::MainNetwork), None);
    assert!(walk.finish().addresses.is_empty());
}

#[test]
fn memo_bytes_decode_by_the_protocol() {
    let memo = MemoBytes::from_bytes(&text_memo("hello")).unwrap();
    match Memo::try_from(memo).unwrap() {
        Memo::Text(text) => assert_eq!(&*text, "hello"),
        _ => panic!("expected a text"),
    }
}
