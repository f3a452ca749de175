//! Scans that tell notes, spends and transparent inputs and outputs.

use orchard::keys::FullViewingKey;
use orchard::note::{ExtractedNoteCommitment, NoteVersion, RandomSeed, Rho};
use orchard::note_encryption::{OrchardDomain, OrchardNoteEncryption};
use orchard::value::NoteValue;
use seer_sync::keys::fvk::FvkKeys;
use seer_sync::keys::ivk::IvkKeys;
use seer_sync::primitives::{Network, NoteVersion as Version, OrchardNote};
use seer_sync::proto::{
    CompactBlock, CompactOrchardAction, CompactSaplingOutput, CompactSaplingSpend, CompactTx,
    CompactTxIn, TxOut,
};
use seer_sync::scan::parsers::txid_bytes;
use seer_sync::scan::types::{Recipient, ShieldedPool};
use seer_sync::scan::{
    scan_fvk, scan_ivk, scan_stream_ivk, IncomingNoteView, ScanEvent, StreamFvkResult,
};
use seer_sync::sync::relaxed::{
    rseed_guard, route_candidates, Candidate, CandidateNote, RelaxedIronwoodOutput,
};
use seer_sync::{UnifiedFullViewingKey, UnifiedIncomingViewingKey};
use zcash_keys::keys::UnifiedSpendingKey;
use zcash_note_encryption::{Domain, NoteEncryption};
use zip32::{AccountId, Scope};

const CHAIN: zcash_protocol::consensus::Network = zcash_protocol::consensus::Network::MainNetwork;

struct Wallet {
    full: FvkKeys,
    incoming: IvkKeys,
    fvk: FullViewingKey,
    sapling: sapling_crypto::zip32::DiversifiableFullViewingKey,
}

fn wallet(seed: u8) -> Wallet {
    let usk = UnifiedSpendingKey::from_seed(&CHAIN, &[seed; 32], AccountId::ZERO).unwrap();
    let ufvk = usk.to_unified_full_viewing_key();
    let full = ufvk.encode(&CHAIN).unwrap();
    let incoming = ufvk.to_unified_incoming_viewing_key().encode(&CHAIN).unwrap();
    Wallet {
        full: FvkKeys::from_ufvk(
            &UnifiedFullViewingKey::decode(Network::MainNetwork, &full).unwrap(),
        ),
        incoming: IvkKeys::from_uivk(
            &UnifiedIncomingViewingKey::decode(Network::MainNetwork, &incoming).unwrap(),
        ),
        fvk: FullViewingKey::from(usk.orchard()),
        sapling: ufvk.sapling().unwrap().clone(),
    }
}

fn forge(to: &Wallet, value: u64, rho: [u8; 32], version: NoteVersion) -> orchard::Note {
    let addr = to.fvk.address_at(0u32, Scope::External);
    let rho = Option::from(Rho::from_bytes(&rho)).expect("canonical rho");
    (0u8..=255)
        .find_map(|i| {
            let rseed = Option::from(RandomSeed::from_bytes([i; 32], &rho))?;
            Option::from(orchard::Note::from_parts(
                addr,
                NoteValue::from_raw(value),
                rho,
                rseed,
                version,
            ))
        })
        .expect("forgeable note")
}

fn action_for(note: &orchard::Note) -> CompactOrchardAction {
    let enc = OrchardNoteEncryption::new(None, *note, [0u8; 512]);
    CompactOrchardAction {
        nullifier: note.rho().to_bytes().to_vec(),
        cmx: ExtractedNoteCommitment::from(note.commitment()).to_bytes().to_vec(),
        ephemeral_key: OrchardDomain::epk_bytes(enc.epk()).0.to_vec(),
        ciphertext: enc.encrypt_note_plaintext().as_ref()[..52].to_vec(),
    }
}

fn sapling_note(to: &Wallet, value: u64) -> sapling_crypto::Note {
    to.sapling.default_address().1.create_note(
        sapling_crypto::value::NoteValue::from_raw(value),
        sapling_crypto::Rseed::AfterZip212([7u8; 32]),
    )
}

fn output_for(note: &sapling_crypto::Note) -> CompactSaplingOutput {
    type D = sapling_crypto::note_encryption::SaplingDomain;
    let enc = NoteEncryption::<D>::new(None, note.clone(), [0u8; 512]);
    CompactSaplingOutput {
        cmu: note.cmu().to_bytes().to_vec(),
        ephemeral_key: D::epk_bytes(enc.epk()).0.to_vec(),
        ciphertext: enc.encrypt_note_plaintext().as_ref()[..52].to_vec(),
    }
}

fn block(height: u64, vtx: Vec<CompactTx>) -> CompactBlock {
    CompactBlock { height, vtx, ..Default::default() }
}

fn incoming(events: &[ScanEvent]) -> Vec<&IncomingNoteView> {
    events
        .iter()
        .filter_map(|e| match e {
            ScanEvent::Incoming(n) => Some(n),
            _ => None,
        })
        .collect()
}

fn two_blocks(us: &Wallet) -> Vec<CompactBlock> {
    vec![
        block(
            10,
            vec![CompactTx {
                txid: vec![1; 32],
                actions: vec![action_for(&forge(us, 50, [3; 32], NoteVersion::V2))],
                outputs: vec![
                    CompactSaplingOutput::default(),
                    output_for(&sapling_note(us, 60)),
                ],
                vout: vec![
                    TxOut { value: 0, script_pub_key: vec![0x6a] },
                    TxOut { value: 5, script_pub_key: vec![0x51] },
                ],
                ..Default::default()
            }],
        ),
        block(
            11,
            vec![CompactTx {
                txid: vec![2; 32],
                outputs: vec![output_for(&sapling_note(us, 61))],
                vin: vec![
                    CompactTxIn { prevout_txid: vec![1; 32], prevout_index: 1 },
                    CompactTxIn { prevout_txid: vec![1; 3], prevout_index: 1 },
                ],
                ..Default::default()
            }],
        ),
    ]
}

#[test]
fn a_full_key_tells_notes_with_positions_and_nullifiers() {
    let us = wallet(1);
    let result = scan_fvk(&two_blocks(&us), &us.full, 100, &vec![]);
    assert_eq!(result.sapling_leaf_count, 103);
    let notes = incoming(&result.events);
    assert_eq!(notes.len(), 3);
    assert_eq!(notes[0].pool, ShieldedPool::Orchard);
    assert_eq!(notes[0].value_zat, 50);
    assert_eq!(notes[0].height, 10);
    assert_eq!(notes[0].tx_id, [1; 32]);
    let expected = forge(&us, 50, [3; 32], NoteVersion::V2).nullifier(&us.fvk).to_bytes();
    assert_eq!(notes[0].nullifier, Some(expected));
    let raw = us.fvk.address_at(0u32, Scope::External).to_raw_address_bytes();
    assert_eq!(notes[0].recipient, Recipient::Orchard(raw));
    assert_eq!(notes[1].pool, ShieldedPool::Sapling);
    assert_eq!(notes[1].output_index, 1);
    assert_eq!(notes[1].sapling_leaf_pos, Some(101));
    let nk = us.sapling.to_nk(Scope::External);
    assert_eq!(notes[1].nullifier, Some(sapling_note(&us, 60).nf(&nk, 101).0));
    assert_eq!(notes[2].sapling_leaf_pos, Some(102));
    assert_eq!(notes[2].value_zat, 61);
}

#[test]
fn positions_are_told_without_a_key_for_nullifiers() {
    let mut us = wallet(1);
    us.full.sapling_dfvk = None;
    let result = scan_fvk(&two_blocks(&us), &us.full, 100, &vec![]);
    let notes = incoming(&result.events);
    assert_eq!(notes[1].sapling_leaf_pos, Some(101));
    assert_eq!(notes[1].nullifier, None);
}

#[test]
fn transparent_outputs_and_inputs_are_told() {
    let us = wallet(1);
    let result = scan_fvk(&two_blocks(&us), &us.full, 0, &vec![]);
    assert_eq!(result.transparent_received.len(), 2);
    let empty = &result.transparent_received[0];
    assert_eq!((empty.height, empty.output_index, empty.value_zat), (10, 0, 0));
    assert_eq!(empty.script, vec![0x6a]);
    let paid = &result.transparent_received[1];
    assert_eq!((paid.height, paid.output_index, paid.value_zat), (10, 1, 5));
    assert_eq!(paid.script, vec![0x51]);
    assert_eq!(result.transparent_spends.len(), 1);
    let spent = &result.transparent_spends[0];
    assert_eq!((spent.height, spent.prevout_txid, spent.prevout_index), (11, [1; 32], 1));
    assert_eq!(spent.tx_id, [2; 32]);
}

#[test]
fn spends_of_known_and_of_new_notes_are_told() {
    let us = wallet(1);
    let note = forge(&us, 50, [3; 32], NoteVersion::V2);
    let nf = note.nullifier(&us.fvk).to_bytes();
    let spend = forge(&wallet(2), 1, nf, NoteVersion::V2);
    let blocks = vec![
        block(
            20,
            vec![CompactTx {
                txid: vec![1; 32],
                actions: vec![action_for(&note)],
                spends: vec![
                    CompactSaplingSpend { nf: vec![8; 32] },
                    CompactSaplingSpend { nf: vec![9; 32] },
                ],
                ..Default::default()
            }],
        ),
        block(
            21,
            vec![CompactTx {
                txid: vec![2; 32],
                actions: vec![action_for(&spend)],
                ..Default::default()
            }],
        ),
    ];
    let result = scan_fvk(&blocks, &us.full, 0, &vec![[9; 32]]);
    let spends: Vec<ScanEvent> = result
        .events
        .into_iter()
        .filter(|e| matches!(e, ScanEvent::Spent { .. }))
        .collect();
    assert_eq!(
        spends,
        vec![
            ScanEvent::Spent { nullifier: nf, height: 21 },
            ScanEvent::Spent { nullifier: [9; 32], height: 20 },
        ]
    );
}

#[test]
fn a_later_batch_tells_spends_of_known_notes() {
    let us = wallet(1);
    let note = forge(&us, 50, [3; 32], NoteVersion::V2);
    let nf = note.nullifier(&us.fvk).to_bytes();
    let spend = forge(&wallet(2), 1, nf, NoteVersion::V2);
    let tx = |id: u8, n: &orchard::Note| CompactTx {
        txid: vec![id; 32],
        actions: vec![action_for(n)],
        ..Default::default()
    };
    let first = vec![block(20, vec![tx(1, &note)])];
    let second = vec![block(21, vec![tx(2, &spend)])];
    let spent = ScanEvent::Spent { nullifier: nf, height: 21 };

    let whole = scan_fvk(&[first.clone(), second.clone()].concat(), &us.full, 0, &vec![]);
    assert!(whole.events.contains(&spent));
    let mut told = StreamFvkResult::new(0);
    told.scan_stream_fvk(&us.full, &first, &vec![]);
    let found = incoming(&told.events)[0].nullifier.unwrap();
    told.scan_stream_fvk(&us.full, &second, &vec![found]);
    assert_eq!(told.events, whole.events);
    let mut untold = StreamFvkResult::new(0);
    untold.scan_stream_fvk(&us.full, &first, &vec![]);
    untold.scan_stream_fvk(&us.full, &second, &vec![]);
    assert!(!untold.events.contains(&spent));
}

#[test]
fn an_incoming_key_tells_notes_only() {
    let us = wallet(1);
    let notes = scan_ivk(&two_blocks(&us), &us.incoming);
    let values: Vec<u64> = notes.iter().map(|n| n.value_zat).collect();
    assert_eq!(values, vec![50, 60, 61]);
    assert!(notes.iter().all(|n| n.nullifier.is_none() && n.sapling_leaf_pos.is_none()));
    assert!(scan_ivk(&two_blocks(&us), &wallet(2).incoming).is_empty());
}

#[test]
fn a_stream_tells_what_one_scan_tells() {
    let us = wallet(1);
    let blocks = two_blocks(&us);
    let whole = scan_fvk(&blocks, &us.full, 7, &vec![]);
    let mut stream = StreamFvkResult::new(7);
    let mut notes = vec![];
    for b in &blocks {
        stream.scan_stream_fvk(&us.full, &vec![b.clone()], &vec![]);
        scan_stream_ivk(&mut notes, &us.incoming, &vec![b.clone()]);
    }
    assert_eq!(stream.events, whole.events);
    assert_eq!(stream.sapling_leaf_count, whole.sapling_leaf_count);
    assert_eq!(stream.transparent_received, whole.transparent_received);
    assert_eq!(stream.transparent_spends, whole.transparent_spends);
    assert_eq!(notes, scan_ivk(&blocks, &us.incoming));
}

#[test]
fn a_transaction_id_that_is_not_32_bytes_is_zeros() {
    assert_eq!(txid_bytes(&[7; 32]), [7; 32]);
    assert_eq!(txid_bytes(&[7; 31]), [0; 32]);
}

fn candidate(index: usize, note: &orchard::Note, cmx: [u8; 32]) -> Candidate {
    Candidate {
        index,
        nullifier: [index as u8; 32],
        candidate: CandidateNote {
            note: OrchardNote {
                recipient: note.recipient().to_raw_address_bytes(),
                value: note.value().inner(),
                rho: note.rho().to_bytes(),
                rseed: *note.rseed().as_bytes(),
                version: Version::V3,
            },
            cmx,
        },
        memo: Some([4; 512]),
        key_index: 1,
    }
}

#[test]
fn a_note_that_produces_its_commitment_is_ordinary() {
    let note = forge(&wallet(1), 50, [3; 32], NoteVersion::V3);
    let cmx = ExtractedNoteCommitment::from(note.commitment()).to_bytes();
    let ordinary = candidate(2, &note, cmx);
    let bound = candidate(4, &note, [5; 32]);
    assert!(rseed_guard(&ordinary.candidate));
    assert!(!rseed_guard(&bound.candidate));
    let mut broken = ordinary.candidate;
    broken.note.recipient = [0xff; 43];
    assert!(!rseed_guard(&broken));

    let (slots, relaxed) = route_candidates(&vec![ordinary, bound], 6, true);
    assert_eq!(slots.len(), 6);
    let placed: Vec<bool> = slots.iter().map(|s| s.is_some()).collect();
    assert_eq!(placed, vec![false, false, true, false, false, false]);
    let found = slots[2].as_ref().unwrap();
    assert_eq!((found.note.value, found.key_index, found.memo), (50, 1, Some([4; 512])));
    assert_eq!(
        relaxed,
        vec![RelaxedIronwoodOutput {
            index: 4,
            candidate: bound.candidate,
            nullifier: [4; 32],
            memo: Some([4; 512]),
            is_sent: true,
        }]
    );
}
