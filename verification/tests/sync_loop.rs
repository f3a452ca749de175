//! A sync from the server's stream to the account's tables, with real notes.

use std::collections::{HashMap, VecDeque};
use std::ops::RangeInclusive;

use orchard::keys::FullViewingKey;
use orchard::note::{ExtractedNoteCommitment, NoteVersion, RandomSeed, Rho};
use orchard::note_encryption::{
    IronwoodDomain, IronwoodNoteEncryption, OrchardDomain, OrchardNoteEncryption,
};
use orchard::value::NoteValue;
use seer_sync::key::ViewKey;
use seer_sync::proto::{
    ChainMetadata, CompactBlock, CompactOrchardAction, CompactSaplingOutput, CompactTx,
    CompactTxIn, RawTransaction, TxOut,
};
use seer_sync::primitives::OutPoint;
use seer_sync::sync::chain::RpcError;
use seer_sync::sync::commitments::{scan_commitments, Commitment};
use seer_sync::sync::scan::{
    initial_tree_sizes, scan_compact, scan_compact_checked, ScanError, TransparentScanningKey,
    WalletTx,
};
use seer_sync::sync::transparent::{Discovery, Walk};
use seer_sync::sync::watch::scan_batch;
use seer_sync::sync::{
    finish_batch, parse_transaction, readable_transactions, scan_blocks, BlockStep, SyncRun,
    TransparentWatch, BLOCKS_PER_BATCH,
};
use seer_sync::{
    Cursor, Db, Network, Nullifiers, ScanningKeys, SyncError, UnifiedFullViewingKey,
    UnifiedIncomingViewingKey,
};
use zcash_keys::encoding::AddressCodec;
use zcash_keys::keys::UnifiedSpendingKey;
use zcash_note_encryption::{Domain, NoteEncryption};
use zcash_primitives::transaction::{Transaction, TransactionData, TxVersion};
use zcash_protocol::consensus::{BlockHeight, BranchId};
use zcash_protocol::value::Zatoshis;
use zcash_transparent::address::{Script, TransparentAddress};
use zcash_transparent::bundle::{
    Authorized as TransparentAuthorized, Bundle as TransparentBundle, TxIn,
};
use zcash_transparent::keys::{IncomingViewingKey, NonHardenedChildIndex};
use zip32::{AccountId, Scope};

const BIRTHDAY: u32 = 100;
const FORK_A: u8 = 0xaa;
const FORK_B: u8 = 0xbb;

const CHAIN: zcash_protocol::consensus::Network = zcash_protocol::consensus::Network::MainNetwork;

struct Wallet {
    keys: ScanningKeys,
    view: ViewKey,
    incoming: ScanningKeys,
    encoded: String,
    fvk: FullViewingKey,
    addr: orchard::Address,
    sapling: sapling_crypto::zip32::DiversifiableFullViewingKey,
}

fn wallet(seed: u8) -> Wallet {
    let usk = UnifiedSpendingKey::from_seed(&CHAIN, &[seed; 32], AccountId::ZERO).unwrap();
    let ufvk = usk.to_unified_full_viewing_key();
    let encoded = ufvk.encode(&CHAIN).unwrap();
    let uivk = ufvk.to_unified_incoming_viewing_key().encode(&CHAIN).unwrap();
    let fvk = FullViewingKey::from(usk.orchard());
    let addr = fvk.address_at(0u32, Scope::External);
    let keys = ScanningKeys::from_ufvk(
        &UnifiedFullViewingKey::decode(Network::MainNetwork, &encoded).unwrap(),
    );
    let incoming = ScanningKeys::from_uivk(
        &UnifiedIncomingViewingKey::decode(Network::MainNetwork, &uivk).unwrap(),
    );
    let sapling = ufvk.sapling().unwrap().clone();
    let view = ViewKey::decode(Network::MainNetwork, &encoded).unwrap();
    Wallet { keys, view, incoming, encoded, fvk, addr, sapling }
}

fn forge(addr: orchard::Address, value: u64, spent_nf: [u8; 32], version: NoteVersion) -> orchard::Note {
    let rho = Option::from(Rho::from_bytes(&spent_nf)).expect("canonical rho");
    (0u8..=255)
        .find_map(|i| {
            let rseed = Option::from(RandomSeed::from_bytes([i; 32], &rho))?;
            Option::from(orchard::Note::from_parts(
                addr,
                NoteValue::from_raw(value),
                rho,
                rseed,
                version,
            ))
        })
        .expect("forgeable note")
}

fn forge_note(addr: orchard::Address, value: u64, spent_nf: [u8; 32]) -> orchard::Note {
    forge(addr, value, spent_nf, NoteVersion::V2)
}

fn cmx_of(note: &orchard::Note) -> [u8; 32] {
    ExtractedNoteCommitment::from(note.commitment()).to_bytes()
}

fn action_for(note: &orchard::Note) -> CompactOrchardAction {
    let enc = OrchardNoteEncryption::new(None, *note, [0u8; 512]);
    CompactOrchardAction {
        nullifier: note.rho().to_bytes().to_vec(),
        cmx: cmx_of(note).to_vec(),
        ephemeral_key: OrchardDomain::epk_bytes(enc.epk()).0.to_vec(),
        ciphertext: enc.encrypt_note_plaintext().as_ref()[..52].to_vec(),
    }
}

fn ironwood_action_for(note: &orchard::Note) -> CompactOrchardAction {
    let enc = IronwoodNoteEncryption::new(None, *note, [0u8; 512]);
    CompactOrchardAction {
        nullifier: note.rho().to_bytes().to_vec(),
        cmx: cmx_of(note).to_vec(),
        ephemeral_key: IronwoodDomain::epk_bytes(enc.epk()).0.to_vec(),
        ciphertext: enc.encrypt_note_plaintext().as_ref()[..52].to_vec(),
    }
}

fn sapling_output_for(note: &sapling_crypto::Note) -> CompactSaplingOutput {
    type SaplingDomain = sapling_crypto::note_encryption::SaplingDomain;
    let enc = NoteEncryption::<SaplingDomain>::new(None, note.clone(), [0u8; 512]);
    CompactSaplingOutput {
        cmu: note.cmu().to_bytes().to_vec(),
        ephemeral_key: SaplingDomain::epk_bytes(enc.epk()).0.to_vec(),
        ciphertext: enc.encrypt_note_plaintext().as_ref()[..52].to_vec(),
    }
}

fn txid(label: u8) -> [u8; 32] {
    [label; 32]
}

fn t_address(seed: u8) -> (TransparentAddress, String) {
    let usk = UnifiedSpendingKey::from_seed(&CHAIN, &[seed; 32], AccountId::ZERO).unwrap();
    let ivk = usk.transparent().to_account_pubkey().derive_external_ivk().unwrap();
    let addr = ivk.derive_address(NonHardenedChildIndex::ZERO).unwrap();
    let encoded = addr.encode(&CHAIN);
    (addr, encoded)
}

fn transparent_tx(
    vin: Vec<TxIn<TransparentAuthorized>>,
    vout: Vec<zcash_transparent::bundle::TxOut>,
) -> Transaction {
    TransactionData::from_parts(
        TxVersion::Sprout(1),
        BranchId::Sprout,
        0,
        BlockHeight::from_u32(0),
        Some(TransparentBundle { vin, vout, authorization: TransparentAuthorized }),
        None,
        None,
        None,
    )
    .freeze()
    .unwrap()
}

fn raw(tx: &Transaction, height: u32) -> RawTransaction {
    let mut data = Vec::new();
    tx.write(&mut data).unwrap();
    RawTransaction { data, height: height as u64 }
}

fn tx(label: u8, actions: Vec<CompactOrchardAction>) -> CompactTx {
    CompactTx {
        txid: txid(label).to_vec(),
        actions,
        ..Default::default()
    }
}

fn block_hash(height: u32, fork: u8) -> [u8; 32] {
    let mut h = [fork; 32];
    h[..4].copy_from_slice(&height.to_le_bytes());
    h
}

fn chain(
    range: RangeInclusive<u32>,
    fork: u8,
    mut txs_at: impl FnMut(u32) -> Vec<CompactTx>,
) -> Vec<CompactBlock> {
    let base = if *range.start() > 1_000_000 { 1_000 } else { 0 };
    let (mut sapling, mut orchard, mut ironwood) = (base, base, base);
    range
        .map(|h| {
            let vtx: Vec<CompactTx> = txs_at(h)
                .into_iter()
                .enumerate()
                .map(|(i, mut t)| {
                    t.index = i as u64;
                    t
                })
                .collect();
            sapling += vtx.iter().map(|t| t.outputs.len() as u32).sum::<u32>();
            orchard += vtx.iter().map(|t| t.actions.len() as u32).sum::<u32>();
            ironwood += vtx.iter().map(|t| t.ironwood_actions.len() as u32).sum::<u32>();
            CompactBlock {
                height: h as u64,
                hash: block_hash(h, fork).to_vec(),
                prev_hash: block_hash(h - 1, fork).to_vec(),
                vtx,
                chain_metadata: Some(ChainMetadata {
                    sapling_commitment_tree_size: sapling,
                    orchard_commitment_tree_size: orchard,
                    ironwood_commitment_tree_size: ironwood,
                }),
                ..Default::default()
            }
        })
        .collect()
}

#[derive(Clone)]
struct Epoch {
    blocks: Vec<CompactBlock>,
    fail_after: Option<usize>,
}

#[derive(Default)]
struct Server {
    epochs: VecDeque<Epoch>,
    ranges: Vec<(u32, u32)>,
    txs: Vec<[u8; 32]>,
    taddress_txs: HashMap<String, Vec<RawTransaction>>,
    raw_txs: HashMap<[u8; 32], RawTransaction>,
}

impl Server {
    fn single(blocks: Vec<CompactBlock>) -> Self {
        Self::epochs(vec![Epoch { blocks, fail_after: None }])
    }

    fn epochs(list: Vec<Epoch>) -> Self {
        Server { epochs: list.into(), ..Default::default() }
    }

    fn tip(&self) -> u32 {
        self.epochs.front().unwrap().blocks.last().unwrap().height as u32
    }

    fn stream(&mut self, from: u32, to: u32) -> Vec<Result<CompactBlock, RpcError>> {
        self.ranges.push((from, to));
        let epoch = if self.epochs.len() > 1 {
            self.epochs.pop_front().unwrap()
        } else {
            self.epochs.front().unwrap().clone()
        };
        let mut items: Vec<Result<CompactBlock, RpcError>> = epoch
            .blocks
            .into_iter()
            .filter(|b| b.height >= from as u64 && b.height <= to as u64)
            .map(Ok)
            .collect();
        if let Some(k) = epoch.fail_after {
            items.truncate(k);
            let message = "injected fault".into();
            items.push(Err(RpcError { code: "Unavailable".into(), message }));
        }
        items
    }

    fn transaction(&mut self, id: [u8; 32]) -> RawTransaction {
        self.txs.push(id);
        let known = self.raw_txs.get(&id).cloned();
        known.unwrap_or(RawTransaction { data: vec![0xde, 0xad, 0xbe, 0xef], height: 0 })
    }

    fn taddress_transactions(&self, address: &str, from: u32, to: u32) -> Vec<RawTransaction> {
        let all = self.taddress_txs.get(address).cloned().unwrap_or_default();
        all.into_iter().filter(|t| (from as u64..=to as u64).contains(&t.height)).collect()
    }

    fn discover(&self, view: &ViewKey, from: u32, to: u32) -> Discovery {
        let mut walk = Walk::new();
        while let Some(address) = walk.next(view.transparent.as_ref(), Network::MainNetwork) {
            let txs = self.taddress_transactions(&address, from, to);
            walk.on_transactions(&txs, Network::MainNetwork);
        }
        walk.finish()
    }
}

#[derive(Debug, Clone, PartialEq)]
struct RecordedNote {
    txid: [u8; 32],
    value: u64,
    nf: Option<[u8; 32]>,
    has_memo: bool,
    is_sent: bool,
}

#[derive(Debug, Clone, PartialEq)]
enum Event {
    Apply {
        height: u32,
        hash: [u8; 32],
        notes: Vec<RecordedNote>,
        spends: Vec<([u8; 32], [u8; 32])>,
        t_outputs: Vec<([u8; 32], u32, u64)>,
        t_spends: Vec<([u8; 32], [u8; 32], u32)>,
        leaves: Vec<(u64, [u8; 32])>,
    },
    Rewind(u32),
}

struct Recording {
    db: Db,
    outpoints: Vec<OutPoint>,
    events: Vec<Event>,
    want_commitments: bool,
    fail_apply: bool,
}

type ApplyRecord = (u32, [u8; 32], Vec<RecordedNote>, Vec<([u8; 32], [u8; 32])>);

impl Recording {
    fn new(birthday: u32) -> Self {
        let mut db = Db::open_memory();
        db.init_account(birthday);
        Recording { db, outpoints: vec![], events: vec![], want_commitments: false, fail_apply: false }
    }

    fn rewind(&mut self, to: u32) {
        self.events.push(Event::Rewind(to));
        self.db.rewind_to_position(to);
    }

    fn apply(
        &mut self,
        at: Cursor,
        txs: &Vec<WalletTx>,
        commitments: &[Commitment],
    ) -> Result<(), SyncError> {
        if self.fail_apply {
            return Err(SyncError::Account { source: "disk full".into() });
        }
        let notes = txs
            .iter()
            .flat_map(|t| {
                t.orchard_outputs.iter().map(|o| RecordedNote {
                    txid: t.txid,
                    value: o.note.value,
                    nf: o.nf,
                    has_memo: o.memo.is_some(),
                    is_sent: o.is_sent,
                })
            })
            .collect();
        let spends =
            txs.iter().flat_map(|t| t.orchard_spends.iter().map(|s| (s.nf, t.txid))).collect();
        let outputs = txs.iter().flat_map(|t| &t.transparent_outputs);
        let t_spends = txs.iter().flat_map(|t| &t.transparent_spends);
        self.outpoints.extend(outputs.clone().map(|o| o.outpoint));
        self.events.push(Event::Apply {
            height: at.height,
            hash: at.hash,
            notes,
            spends,
            t_outputs: outputs.map(|o| (o.outpoint.hash, o.outpoint.n, o.txout.value)).collect(),
            t_spends: t_spends.map(|s| (s.txid, s.outpoint.hash, s.outpoint.n)).collect(),
            leaves: commitments.iter().map(|c| (c.position, c.cmx)).collect(),
        });
        self.db.apply(at, txs);
        Ok(())
    }

    fn applies(&self) -> Vec<ApplyRecord> {
        let mut list = vec![];
        for event in self.events.clone() {
            if let Event::Apply { height, hash, notes, spends, .. } = event {
                list.push((height, hash, notes, spends));
            }
        }
        list
    }

    fn checkpoint(&self) -> Option<(u32, [u8; 32])> {
        self.db.resume().unwrap().checkpoint.map(|c| (c.height, c.hash))
    }
}

fn apply_blocks(
    server: &mut Server,
    account: &mut Recording,
    keys: &ScanningKeys,
    nullifiers: &mut Nullifiers,
    transparent: &mut TransparentWatch,
    blocks: &Vec<CompactBlock>,
) -> Result<Cursor, SyncError> {
    let network = Network::MainNetwork;
    let (mut txs, fetch) =
        scan_blocks(blocks, keys, network, nullifiers, transparent).map_err(SyncError::Scan)?;
    let mut fetched = vec![];
    for (id, height, index) in fetch {
        fetched.push((id, height, index, server.transaction(id)));
    }
    let cursor = finish_batch(blocks, &mut txs, &fetched, keys, network, transparent)?;
    let mut commitments = vec![];
    if account.want_commitments {
        let height = blocks[0].height as u32;
        let sizes = initial_tree_sizes(network, height, &blocks[0]).map_err(SyncError::Scan)?;
        commitments = scan_commitments(blocks, sizes.1 as u64);
    }
    account.apply(cursor, &txs, &commitments)?;
    Ok(cursor)
}

fn pass(
    server: &mut Server,
    account: &mut Recording,
    us: &Wallet,
    run: &mut SyncRun,
) -> Result<bool, SyncError> {
    let tip = server.tip();
    let resume = account.db.resume().unwrap();
    let mut nullifiers = resume.nullifiers;
    let Some((from, to)) = run.begin(resume.birthday, resume.checkpoint, tip) else {
        return Ok(true);
    };
    let found = server.discover(&us.view, resume.birthday, to);
    let mut transparent = TransparentWatch {
        scripts: found.scripts(),
        targets: found.targets,
        outpoints: account.outpoints.clone(),
    };
    for item in server.stream(from, to) {
        match run.on_block(item.map_err(SyncError::Chain)?) {
            BlockStep::Rewind(to) => {
                account.rewind(to);
                return Ok(false);
            }
            BlockStep::Flush(blocks) => {
                let cursor = apply_blocks(
                    server,
                    account,
                    &us.keys,
                    &mut nullifiers,
                    &mut transparent,
                    &blocks,
                )?;
                run.applied(cursor);
            }
            BlockStep::Kept => {}
            BlockStep::Invalid(e) => return Err(SyncError::Scan(e)),
        }
    }
    let rest = run.on_end();
    if !rest.is_empty() {
        let cursor =
            apply_blocks(server, account, &us.keys, &mut nullifiers, &mut transparent, &rest)?;
        run.applied(cursor);
    }
    Ok(true)
}

fn run(server: &mut Server, account: &mut Recording, us: &Wallet) -> Result<Option<Cursor>, SyncError> {
    let mut run = SyncRun::new();
    loop {
        match pass(server, account, us, &mut run) {
            Ok(true) => return Ok(run.result()),
            Ok(false) => {}
            Err(e) => {
                if !run.on_failure(&e) {
                    return Err(e);
                }
            }
        }
    }
}

fn sync_with(
    mut server: Server,
    account: &mut Recording,
    us: &Wallet,
) -> (Result<Option<Cursor>, SyncError>, Server) {
    let result = run(&mut server, account, us);
    (result, server)
}

fn no_transparent() -> TransparentWatch {
    TransparentWatch { scripts: vec![], targets: vec![], outpoints: vec![] }
}

#[test]
fn claims_only_notes_encrypted_to_our_key() {
    let us = wallet(0x01);
    let them = wallet(0x02);
    let ours = forge_note(us.addr, 5_000_000, [1u8; 32]);
    let theirs = forge_note(them.addr, 9_000_000, [2u8; 32]);

    let blocks = chain(100..=103, FORK_A, |h| match h {
        101 => vec![tx(0x51, vec![action_for(&theirs)])],
        102 => vec![tx(0x52, vec![action_for(&ours)])],
        _ => vec![],
    });
    let mut account = Recording::new(BIRTHDAY);
    let (res, server) = sync_with(Server::single(blocks), &mut account, &us);
    let last = res.unwrap();

    let applies = account.applies();
    assert_eq!(applies.len(), 1);
    let (height, hash, notes, spends) = &applies[0];
    assert_eq!(*height, 103);
    assert_eq!(*hash, block_hash(103, FORK_A));
    assert_eq!(notes.len(), 1, "stranger's note must not decrypt for us: {notes:?}");
    assert_eq!(notes[0].txid, txid(0x52));
    assert_eq!(notes[0].value, 5_000_000);
    assert_eq!(notes[0].nf, Some(ours.nullifier(&us.fvk).to_bytes()));
    assert!(!notes[0].has_memo, "garbage raw tx must be skipped, not parsed into a memo");
    assert!(!notes[0].is_sent);
    assert!(spends.is_empty());
    assert_eq!(server.txs, vec![txid(0x52)], "only our txid warrants a raw-tx fetch");
    assert_eq!(account.checkpoint(), Some((103, block_hash(103, FORK_A))));
    assert_eq!(last, Some(Cursor { height: 103, hash: block_hash(103, FORK_A) }));
    assert_eq!(account.db.orchard_notes[0].recipient, us.addr.to_raw_address_bytes());
    assert_eq!(account.db.balance(), 5_000_000);
}

#[test]
fn spend_in_same_batch_is_detected_without_account_state() {
    let us = wallet(0x01);
    let them = wallet(0x02);
    let ours = forge_note(us.addr, 5_000_000, [1u8; 32]);
    let nf = ours.nullifier(&us.fvk).to_bytes();
    let change = forge_note(them.addr, 1_000_000, nf);

    let blocks = chain(100..=104, FORK_A, |h| match h {
        101 => vec![tx(0x51, vec![action_for(&ours)])],
        103 => vec![tx(0x53, vec![action_for(&change)])],
        _ => vec![],
    });
    let mut account = Recording::new(BIRTHDAY);
    let (res, server) = sync_with(Server::single(blocks), &mut account, &us);
    res.unwrap();

    let applies = account.applies();
    assert_eq!(applies.len(), 1);
    let (_, _, notes, spends) = &applies[0];
    assert_eq!(notes.len(), 1);
    assert_eq!(*spends, vec![(nf, txid(0x53))]);
    assert_eq!(server.txs, vec![txid(0x51), txid(0x53)]);
    assert_eq!(account.db.balance(), 0);
    assert!(account.db.resume().unwrap().nullifiers.orchard.is_empty());
}

#[test]
fn foreign_nullifier_is_not_reported_as_our_spend() {
    let us = wallet(0x01);
    let them = wallet(0x02);
    let theirs = forge_note(them.addr, 9_000_000, [2u8; 32]);

    let blocks = chain(100..=102, FORK_A, |h| match h {
        101 => vec![tx(0x51, vec![action_for(&theirs)])],
        _ => vec![],
    });
    let mut account = Recording::new(BIRTHDAY);
    let (res, server) = sync_with(Server::single(blocks), &mut account, &us);
    res.unwrap();

    let applies = account.applies();
    assert_eq!(applies.len(), 1);
    let (_, _, notes, spends) = &applies[0];
    assert!(notes.is_empty());
    assert!(spends.is_empty());
    assert!(server.txs.is_empty(), "no relevant tx, no raw-tx fetch");
}

#[test]
fn mid_stream_reorg_rewinds_and_syncs_replacement_chain() {
    let us = wallet(0x01);
    let orphaned = forge_note(us.addr, 7_000_000, [1u8; 32]);
    let replacement = forge_note(us.addr, 4_000_000, [2u8; 32]);

    let mut bad = chain(100..=105, FORK_A, |h| match h {
        102 => vec![tx(0x61, vec![action_for(&orphaned)])],
        _ => vec![],
    });
    bad[5].prev_hash = block_hash(104, FORK_B).to_vec();
    let good = chain(100..=105, FORK_B, |h| match h {
        102 => vec![tx(0x62, vec![action_for(&replacement)])],
        _ => vec![],
    });

    let mut account = Recording::new(BIRTHDAY);
    let (res, _) = sync_with(
        Server::epochs(vec![
            Epoch { blocks: bad, fail_after: None },
            Epoch { blocks: good, fail_after: None },
        ]),
        &mut account,
        &us,
    );
    res.unwrap();

    assert_eq!(account.events[0], Event::Rewind(104));
    let held = &account.db.orchard_notes;
    assert_eq!(held.len(), 1, "only the replacement-chain note may survive: {held:?}");
    assert_eq!(held[0].txid, txid(0x62));
    assert_eq!(account.db.balance(), 4_000_000);
    assert_eq!(account.checkpoint(), Some((105, block_hash(105, FORK_B))));
}

#[test]
fn chunked_stream_applies_every_block_exactly_once() {
    let us = wallet(0x01);
    let them = wallet(0x02);
    let ours = forge_note(us.addr, 5_000_000, [1u8; 32]);
    let nf = ours.nullifier(&us.fvk).to_bytes();
    let change = forge_note(them.addr, 1_000_000, nf);

    let note_action = action_for(&ours);
    let spend_action = action_for(&change);
    let blocks = chain(100..=1599, FORK_A, |h| match h {
        150 => vec![tx(0x71, vec![note_action.clone()])],
        1300 => vec![tx(0x72, vec![spend_action.clone()])],
        _ => vec![],
    });

    let mut account = Recording::new(BIRTHDAY);
    let (res, _) = sync_with(Server::single(blocks), &mut account, &us);
    res.unwrap();

    let applies = account.applies();
    let heights: Vec<u32> = applies.iter().map(|(h, ..)| *h).collect();
    assert_eq!(heights, vec![1099, 1599]);
    let our_note_applications: usize = applies
        .iter()
        .map(|(_, _, notes, _)| notes.iter().filter(|n| n.txid == txid(0x71)).count())
        .sum();
    assert_eq!(our_note_applications, 1);
    assert!(applies[0].3.is_empty());
    assert_eq!(
        applies[1].3,
        vec![(nf, txid(0x72))],
        "cross-chunk spend must resolve via the watch-set"
    );
    assert_eq!(account.checkpoint(), Some((1599, block_hash(1599, FORK_A))));
}

#[test]
fn stream_failure_resumes_from_checkpoint_without_replay() {
    let us = wallet(0x01);
    let them = wallet(0x02);
    let ours = forge_note(us.addr, 5_000_000, [1u8; 32]);
    let nf = ours.nullifier(&us.fvk).to_bytes();
    let change = forge_note(them.addr, 1_000_000, nf);

    let note_action = action_for(&ours);
    let spend_action = action_for(&change);
    let blocks = chain(100..=1599, FORK_A, |h| match h {
        150 => vec![tx(0x71, vec![note_action.clone()])],
        1300 => vec![tx(0x72, vec![spend_action.clone()])],
        _ => vec![],
    });

    let mut account = Recording::new(BIRTHDAY);
    let (res, server) = sync_with(
        Server::epochs(vec![
            Epoch { blocks: blocks.clone(), fail_after: Some(1005) },
            Epoch { blocks, fail_after: None },
        ]),
        &mut account,
        &us,
    );
    res.unwrap();

    assert_eq!(
        server.ranges,
        vec![(100, 1599), (1100, 1599)],
        "resume must start at checkpoint + 1"
    );
    let applies = account.applies();
    let heights: Vec<u32> = applies.iter().map(|(h, ..)| *h).collect();
    assert_eq!(heights, vec![1099, 1599]);
    let our_note_applications: usize = applies
        .iter()
        .map(|(_, _, notes, _)| notes.iter().filter(|n| n.txid == txid(0x71)).count())
        .sum();
    assert_eq!(our_note_applications, 1, "retry must not double-apply the note");
    assert_eq!(applies[1].3, vec![(nf, txid(0x72))]);
    assert_eq!(account.checkpoint(), Some((1599, block_hash(1599, FORK_A))));
}

#[test]
fn transparent_outputs_and_spends_ride_the_run_loop() {
    let us = wallet(0x01);
    let (addr, encoded) = t_address(0x01);
    let (stranger, _) = t_address(0x02);

    let funding = transparent_tx(
        vec![],
        vec![zcash_transparent::bundle::TxOut::new(
            Zatoshis::const_from_u64(2_000_000),
            addr.script().into(),
        )],
    );
    let spend = transparent_tx(
        vec![TxIn::from_parts(
            zcash_transparent::bundle::OutPoint::new(funding.txid().into(), 0),
            Script::from(addr.script()),
            0,
        )],
        vec![zcash_transparent::bundle::TxOut::new(
            Zatoshis::const_from_u64(1_900_000),
            stranger.script().into(),
        )],
    );
    let (funding_id, spend_id): ([u8; 32], [u8; 32]) =
        (funding.txid().into(), spend.txid().into());

    let mut server = Server::single(chain(100..=105, FORK_A, |_| vec![]));
    server.taddress_txs.insert(encoded, vec![raw(&funding, 102), raw(&spend, 104)]);
    server.raw_txs.insert(funding_id, raw(&funding, 102));
    server.raw_txs.insert(spend_id, raw(&spend, 104));

    let mut account = Recording::new(BIRTHDAY);
    let (res, _) = sync_with(server, &mut account, &us);
    res.unwrap();

    let events = &account.events;
    assert_eq!(events.len(), 1, "one chunk, one apply: {events:?}");
    let Event::Apply { height, t_outputs, t_spends, .. } = &events[0] else {
        panic!("expected Apply, got {events:?}");
    };
    assert_eq!(*height, 105);
    assert_eq!(
        *t_outputs,
        vec![(funding_id, 0, 2_000_000)],
        "funding output must ride the batch"
    );
    assert_eq!(
        *t_spends,
        vec![(spend_id, funding_id, 0)],
        "same-batch spend must resolve against the watch-set"
    );
}

#[test]
fn a_transparent_spend_in_a_later_batch_is_found() {
    let us = wallet(0x01);
    let (addr, encoded) = t_address(0x01);
    let output = |value| {
        zcash_transparent::bundle::TxOut::new(Zatoshis::const_from_u64(value), addr.script().into())
    };
    let funding = transparent_tx(vec![], vec![output(2_000_000), output(3)]);
    let input = |n| {
        TxIn::from_parts(
            zcash_transparent::bundle::OutPoint::new(funding.txid().into(), n),
            Script::from(addr.script()),
            0,
        )
    };
    let spend = transparent_tx(vec![input(1)], vec![output(2)]);
    let (funding_id, spend_id): ([u8; 32], [u8; 32]) =
        (funding.txid().into(), spend.txid().into());

    let mut server = Server::single(chain(100..=1599, FORK_A, |_| vec![]));
    server.taddress_txs.insert(encoded, vec![raw(&spend, 1300), raw(&funding, 102)]);
    server.raw_txs.insert(funding_id, raw(&funding, 102));
    server.raw_txs.insert(spend_id, raw(&spend, 1300));
    let mut account = Recording::new(BIRTHDAY);
    let (res, server) = sync_with(server, &mut account, &us);
    res.unwrap();

    assert_eq!(server.txs, vec![funding_id, spend_id], "each target comes with its batch");
    let rides: Vec<_> = account
        .events
        .iter()
        .map(|e| match e {
            Event::Apply { t_outputs, t_spends, .. } => (t_outputs.clone(), t_spends.clone()),
            Event::Rewind(_) => panic!("no fork"),
        })
        .collect();
    assert_eq!(
        rides,
        vec![
            (vec![(funding_id, 0, 2_000_000), (funding_id, 1, 3)], vec![]),
            (vec![(spend_id, 0, 2)], vec![(spend_id, funding_id, 1)]),
        ]
    );
}

#[test]
fn persistent_stream_failure_errors_after_retries_exhaust() {
    let blocks = chain(100..=105, FORK_A, |_| vec![]);
    let epochs = (0..5)
        .map(|_| Epoch { blocks: blocks.clone(), fail_after: Some(0) })
        .collect::<Vec<_>>();

    let us = wallet(0x01);
    let mut account = Recording::new(BIRTHDAY);
    let (res, server) = sync_with(Server::epochs(epochs), &mut account, &us);

    assert!(matches!(res, Err(SyncError::Chain(_))), "got: {res:?}");
    assert_eq!(server.ranges.len(), 5, "four retries, then give up");
    assert!(account.applies().is_empty());
}

#[test]
fn commitment_firehose_follows_apply_with_aligned_positions() {
    let us = wallet(0x01);
    let them = wallet(0x02);
    let theirs = forge_note(them.addr, 9_000_000, [2u8; 32]);
    let ours = forge_note(us.addr, 5_000_000, [1u8; 32]);

    let blocks = chain(100..=102, FORK_A, |h| match h {
        100 => vec![tx(0x51, vec![action_for(&theirs)])],
        101 => vec![tx(0x52, vec![action_for(&ours)])],
        _ => vec![],
    });
    let mut account = Recording::new(BIRTHDAY);
    account.want_commitments = true;
    let (res, _) = sync_with(Server::single(blocks), &mut account, &us);
    res.unwrap();

    let events = &account.events;
    assert_eq!(events.len(), 1);
    let Event::Apply { notes, leaves, .. } = &events[0] else {
        panic!("expected Apply, got {events:?}");
    };
    assert_eq!(
        *leaves,
        vec![(0, cmx_of(&theirs)), (1, cmx_of(&ours))],
        "commitments arrive in the same batch as the notes they position"
    );
    assert_eq!(notes.len(), 1);
    assert_eq!(notes[0].txid, txid(0x52));
    assert_eq!(account.db.orchard_notes[0].position, 1);
}

#[test]
fn a_malformed_commitment_takes_a_position() {
    let action = |cmx| CompactOrchardAction { cmx, ..Default::default() };
    let actions = vec![action(vec![1; 32]), action(vec![2; 31]), action(vec![3; 32])];
    let blocks = chain(100..=100, FORK_A, |_| vec![tx(1, actions.clone()), tx(2, actions.clone())]);
    let positions: Vec<(u64, u8)> =
        scan_commitments(&blocks, 7).iter().map(|c| (c.position, c.cmx[0])).collect();
    assert_eq!(positions, vec![(7, 1), (9, 3), (10, 1), (12, 3)]);
}

#[test]
fn birthday_beyond_tip_is_a_clean_noop() {
    let blocks = chain(100..=105, FORK_A, |_| vec![]);
    let us = wallet(0x01);
    let mut account = Recording::new(200);
    let (res, server) = sync_with(Server::single(blocks), &mut account, &us);
    assert_eq!(res.unwrap(), None);
    assert!(server.ranges.is_empty());
    assert!(account.events.is_empty());
}

#[test]
fn an_account_at_the_tip_is_told_nothing() {
    let us = wallet(0x01);
    let blocks = chain(100..=105, FORK_A, |_| vec![]);
    let mut account = Recording::new(BIRTHDAY);
    let (res, server) = sync_with(Server::single(blocks), &mut account, &us);
    assert_eq!(res.unwrap(), Some(Cursor { height: 105, hash: block_hash(105, FORK_A) }));
    let (res, server) = sync_with(server, &mut account, &us);
    assert_eq!(res.unwrap(), None);
    assert_eq!(server.ranges, vec![(100, 105)]);
    assert_eq!(account.events.len(), 1);
}

#[test]
fn malformed_block_hash_is_not_checkpointed_as_zeros() {
    let mut blocks = chain(100..=102, FORK_A, |_| vec![]);
    blocks[2].hash.truncate(31);

    let us = wallet(0x01);
    let mut account = Recording::new(BIRTHDAY);
    let (res, _) = sync_with(Server::single(blocks), &mut account, &us);

    let checkpointed_zeros =
        res.is_ok() && account.checkpoint().map(|(_, hash)| hash) == Some([0u8; 32]);
    assert!(
        !checkpointed_zeros,
        "a malformed block hash from the server must not be laundered into [0u8; 32]"
    );
    assert!(matches!(res, Err(SyncError::Scan(ScanError::InvalidCompactBlock(102)))));
    assert_eq!(account.checkpoint(), None);
}

#[test]
fn a_block_that_cannot_be_placed_stops_the_pass() {
    let mut run = SyncRun::new();
    run.begin(100, None, 200);
    let mut short = chain(101..=101, FORK_A, |_| vec![]).remove(0);
    short.prev_hash = vec![1; 31];
    assert!(matches!(
        run.on_block(short),
        BlockStep::Invalid(ScanError::InvalidCompactBlock(101))
    ));
    run.begin(100, None, 200);
    let mut high = chain(101..=101, FORK_A, |_| vec![]).remove(0);
    high.height = 1 << 32;
    assert!(matches!(run.on_block(high), BlockStep::Invalid(ScanError::InvalidCompactBlock(0))));
}

#[test]
fn a_malformed_hash_stops_a_batch() {
    let us = wallet(0x01);
    let mut blocks = chain(100..=102, FORK_A, |_| vec![]);
    blocks[2].hash = vec![1u8; 31];
    let mut nullifiers = Nullifiers { sapling: vec![], orchard: vec![], ironwood: vec![] };
    let mut transparent = no_transparent();
    let network = Network::MainNetwork;
    let scanned = scan_blocks(&blocks, &us.keys, network, &mut nullifiers, &transparent);
    assert_eq!(scanned.map(|_| ()).unwrap_err(), ScanError::InvalidCompactBlock(102));
    let mut txs = vec![];
    let finished =
        finish_batch(&blocks, &mut txs, &vec![], &us.keys, network, &mut transparent);
    assert!(matches!(
        finished,
        Err(SyncError::Scan(ScanError::InvalidCompactBlock(102)))
    ));
}

#[test]
fn fork_below_checkpoint_evicts_orphaned_notes() {
    let us = wallet(0x01);
    let orphaned = forge_note(us.addr, 7_000_000, [1u8; 32]);
    let orphan_nf = orphaned.nullifier(&us.fvk).to_bytes();
    let replacement = forge_note(us.addr, 4_000_000, [2u8; 32]);

    let mut account = Recording::new(BIRTHDAY);
    let dead = chain(100..=110, FORK_A, |h| match h {
        105 => vec![tx(0x81, vec![action_for(&orphaned)])],
        _ => vec![],
    });
    run(&mut Server::single(dead), &mut account, &us).unwrap();
    assert_eq!(account.checkpoint(), Some((110, block_hash(110, FORK_A))));
    assert_eq!(account.db.orchard_notes[0].txid, txid(0x81));
    assert_eq!(account.db.resume().unwrap().nullifiers.orchard, vec![orphan_nf]);

    let blocks = chain(100..=115, FORK_B, |h| match h {
        105 => vec![tx(0x82, vec![action_for(&replacement)])],
        _ => vec![],
    });
    let (res, _) = sync_with(Server::single(blocks), &mut account, &us);
    res.unwrap();

    let held = &account.db.orchard_notes;
    assert!(
        !held.iter().any(|n| n.nf.as_deref() == Some(&orphan_nf[..])),
        "note from the orphaned chain must not survive a fork below the checkpoint: {held:?}"
    );
    assert!(
        held.iter().any(|n| n.txid == txid(0x82)),
        "replacement-chain note at height 105 must be picked up: {held:?}"
    );
    assert_eq!(account.events[1], Event::Rewind(110));
    assert_eq!(account.checkpoint(), Some((115, block_hash(115, FORK_B))));
}

#[test]
fn doubling_finds_the_fork_point() {
    let us = wallet(0x01);
    let kept = forge_note(us.addr, 7_000_000, [1u8; 32]);
    let orphaned = forge_note(us.addr, 1_000_000, [2u8; 32]);
    let common = |h: u32| match h {
        102 => vec![tx(0x81, vec![action_for(&kept)])],
        _ => vec![],
    };
    let mut account = Recording::new(BIRTHDAY);
    let dead = chain(100..=120, FORK_A, |h| match h {
        117 => vec![tx(0x82, vec![action_for(&orphaned)])],
        _ => common(h),
    });
    for tip in 100..=120 {
        let blocks = dead[..=(tip - 100)].to_vec();
        run(&mut Server::single(blocks), &mut account, &us).unwrap();
    }
    assert_eq!(account.db.positions.len(), 21);
    account.events.clear();

    let mut alive = chain(100..=125, FORK_B, common);
    for b in &mut alive[..=14] {
        let height = b.height as u32;
        b.hash = block_hash(height, FORK_A).to_vec();
        b.prev_hash = block_hash(height - 1, FORK_A).to_vec();
    }
    alive[15].prev_hash = block_hash(114, FORK_A).to_vec();
    let (res, server) = sync_with(Server::single(alive), &mut account, &us);
    res.unwrap();

    let rewinds: Vec<_> =
        account.events.iter().filter(|e| matches!(e, Event::Rewind(_))).cloned().collect();
    assert_eq!(rewinds, vec![Event::Rewind(120), Event::Rewind(118), Event::Rewind(114)]);
    assert_eq!(server.ranges, vec![(121, 125), (120, 125), (118, 125), (114, 125)]);
    assert_eq!(account.db.balance(), 7_000_000);
    assert_eq!(account.checkpoint(), Some((125, block_hash(125, FORK_B))));
}

#[test]
fn an_unreadable_transaction_is_told_and_left_out() {
    let bytes = |data: Vec<u8>| RawTransaction { data, height: 0 };
    let empty = vec![1, 0, 0, 0, 0, 0, 0, 0, 0, 0];
    let fetched = vec![
        (txid(1), 100, 0, bytes(empty)),
        (txid(2), 100, 1, bytes(vec![0xde, 0xad, 0xbe, 0xef])),
        (txid(3), 100, 2, bytes(vec![])),
    ];
    assert!(parse_transaction(&fetched[0], Network::MainNetwork).is_ok());
    for k in [1, 2] {
        match parse_transaction(&fetched[k], Network::MainNetwork) {
            Err(SyncError::Transaction { txid: id, source }) => {
                assert_eq!(id, fetched[k].0);
                assert!(!source.is_empty());
            }
            _ => panic!("expected a transaction error"),
        }
    }
    let read = readable_transactions(&fetched, Network::MainNetwork);
    assert_eq!(read.len(), 1);
    assert_eq!(read[0].0, txid(1));
}

#[test]
fn account_failure_aborts_without_retry() {
    let us = wallet(0x01);
    let ours = forge_note(us.addr, 5_000_000, [1u8; 32]);
    let blocks = chain(100..=102, FORK_A, |h| match h {
        101 => vec![tx(0x51, vec![action_for(&ours)])],
        _ => vec![],
    });

    let mut account = Recording { fail_apply: true, ..Recording::new(BIRTHDAY) };
    let (res, server) = sync_with(Server::single(blocks), &mut account, &us);

    assert!(matches!(res, Err(SyncError::Account { .. })), "got: {res:?}");
    assert_eq!(
        server.ranges.len(),
        1,
        "an account error must not be retried as a transport fault"
    );
}

#[test]
fn only_failures_of_the_server_are_retried() {
    let chain = SyncError::Chain(RpcError { code: "Unavailable".into(), message: "down".into() });
    let others = [
        SyncError::Scan(ScanError::InvalidCompactBlock(100)),
        SyncError::Transaction { txid: txid(1), source: "short".into() },
        SyncError::Account { source: "disk full".into() },
    ];
    for e in &others {
        let mut run = SyncRun::new();
        assert!(!run.on_failure(e));
    }
    let mut run = SyncRun::new();
    let tries: Vec<bool> = (0..5).map(|_| run.on_failure(&chain)).collect();
    assert_eq!(tries, vec![true, true, true, true, false]);
    assert!(!run.on_failure(&others[2]));
    run.applied(Cursor { height: 100, hash: [1; 32] });
    assert!(run.on_failure(&chain), "a batch starts the count over");
}

#[test]
fn a_run_that_recorded_a_batch_returns_its_position_at_the_tip() {
    let fault = SyncError::Chain(RpcError { code: "Unavailable".into(), message: "down".into() });
    let at = Cursor { height: 105, hash: block_hash(105, FORK_A) };
    let mut run = SyncRun::new();
    assert_eq!(run.begin(100, None, 110), Some((100, 110)));
    run.applied(at);
    assert!(run.on_failure(&fault));
    assert_eq!(run.begin(100, Some(at), 105), None);
    assert_eq!(run.result(), Some(at));

    let mut idle = SyncRun::new();
    assert_eq!(idle.begin(100, Some(at), 110), Some((106, 110)));
    assert!(idle.on_failure(&fault));
    assert_eq!(idle.begin(100, Some(at), 105), None);
    assert_eq!(idle.result(), None);
}

#[test]
fn a_note_stands_at_its_commitment() {
    let us = wallet(0x01);
    let them = wallet(0x02);
    let theirs = forge_note(them.addr, 9_000_000, [2u8; 32]);
    let first = forge_note(us.addr, 5_000_000, [1u8; 32]);
    let second = forge_note(us.addr, 6_000_000, [3u8; 32]);
    let blocks = chain(100..=103, FORK_A, |h| match h {
        100 => vec![tx(0x51, vec![action_for(&theirs), action_for(&first)])],
        102 => vec![tx(0x52, vec![action_for(&theirs)]), tx(0x53, vec![action_for(&second)])],
        _ => vec![],
    });
    let mut account = Recording { want_commitments: true, ..Recording::new(BIRTHDAY) };
    let (res, _) = sync_with(Server::single(blocks), &mut account, &us);
    res.unwrap();

    let Event::Apply { leaves, .. } = &account.events[0] else {
        panic!("expected a batch");
    };
    let positions: Vec<u64> = account.db.orchard_notes.iter().map(|n| n.position).collect();
    assert_eq!(positions, vec![1, 3]);
    assert!(leaves.contains(&(1, cmx_of(&first))));
    assert!(leaves.contains(&(3, cmx_of(&second))));
}

#[test]
fn an_incoming_key_finds_notes_without_nullifiers() {
    let us = wallet(0x01);
    let ours = forge_note(us.addr, 5_000_000, [1u8; 32]);
    let blocks = chain(100..=101, FORK_A, |h| match h {
        101 => vec![tx(0x52, vec![action_for(&ours)])],
        _ => vec![],
    });
    let none = Nullifiers { sapling: vec![], orchard: vec![], ironwood: vec![] };
    let scan = |keys: &ScanningKeys| {
        scan_compact(&blocks, keys, None, Network::MainNetwork, &none, &vec![], None)
            .unwrap()
            .0
    };
    let full = scan(&us.keys);
    let incoming = scan(&us.incoming);
    assert!(full[0].orchard_outputs[0].nf.is_some());
    assert!(incoming[0].orchard_outputs[0].nf.is_none());
    assert_eq!(full[0].orchard_outputs[0].note, incoming[0].orchard_outputs[0].note);
}

#[test]
fn notes_get_their_positions_in_the_tree() {
    let us = wallet(0x01);
    let them = wallet(0x02);
    let theirs = forge_note(them.addr, 9_000_000, [2u8; 32]);
    let ours = forge_note(us.addr, 5_000_000, [1u8; 32]);
    let blocks = chain(100..=102, FORK_A, |h| match h {
        100 => vec![tx(0x51, vec![action_for(&theirs), action_for(&theirs)])],
        102 => vec![
            tx(0x52, vec![action_for(&theirs)]),
            tx(0x53, vec![action_for(&theirs), action_for(&ours)]),
        ],
        _ => vec![],
    });
    let none = Nullifiers { sapling: vec![], orchard: vec![], ironwood: vec![] };
    let (txs, all) =
        scan_compact(&blocks, &us.keys, None, Network::MainNetwork, &none, &vec![], None).unwrap();
    assert_eq!(txs.len(), 1);
    assert_eq!(txs[0].tx_index, 1);
    assert_eq!(txs[0].orchard_outputs[0].index, 1);
    assert_eq!(txs[0].orchard_outputs[0].position, 4);
    assert_eq!(
        all,
        vec![(txid(0x51), 100, 0), (txid(0x52), 102, 0), (txid(0x53), 102, 1)]
    );
}

#[test]
fn change_is_found_by_the_internal_key() {
    let us = wallet(0x01);
    let change = us.fvk.address_at(0u32, Scope::Internal);
    let ours = forge_note(change, 5_000_000, [1u8; 32]);
    let blocks = chain(100..=100, FORK_A, |_| vec![tx(0x52, vec![action_for(&ours)])]);
    let none = Nullifiers { sapling: vec![], orchard: vec![], ironwood: vec![] };
    let (txs, _) =
        scan_compact(&blocks, &us.keys, None, Network::MainNetwork, &none, &vec![], None).unwrap();
    assert_eq!(
        txs[0].orchard_outputs[0].scope,
        seer_sync::primitives::Scope::Internal
    );
}

fn sapling_note(us: &Wallet, value: u64) -> sapling_crypto::Note {
    let (_, to) = us.sapling.default_address();
    to.create_note(
        sapling_crypto::value::NoteValue::from_raw(value),
        sapling_crypto::Rseed::AfterZip212([7u8; 32]),
    )
}

#[test]
fn sapling_notes_and_their_spends_are_found() {
    let us = wallet(0x01);
    let note = sapling_note(&us, 77);
    let nk = us.sapling.to_nk(Scope::External);
    let nf = note.nf(&nk, 1_001).0;
    let blocks = chain(2_000_000..=2_000_002, FORK_A, |h| match h {
        2_000_000 => {
            let mut t = tx(0x11, vec![]);
            t.outputs = vec![CompactSaplingOutput::default(), sapling_output_for(&note)];
            vec![t]
        }
        2_000_002 => {
            let mut t = tx(0x12, vec![]);
            t.spends = vec![seer_sync::proto::CompactSaplingSpend { nf: nf.to_vec() }];
            vec![t]
        }
        _ => vec![],
    });
    let none = Nullifiers { sapling: vec![], orchard: vec![], ironwood: vec![] };
    let (txs, _) =
        scan_batch(&blocks, &us.keys, None, Network::MainNetwork, &none, &vec![], None).unwrap();
    assert_eq!(txs.len(), 2);
    let found = &txs[0].sapling_outputs[0];
    assert_eq!(found.index, 1);
    assert_eq!(found.position, 1_001);
    assert_eq!(found.note.value, 77);
    assert_eq!(found.nf, Some(nf));
    assert_eq!(txs[1].sapling_spends[0].nf, nf);
}

#[test]
fn ironwood_notes_and_their_spends_are_found() {
    let us = wallet(0x01);
    let note = forge(us.addr, 88, [3u8; 32], NoteVersion::V3);
    let nf = note.nullifier(&us.fvk).to_bytes();
    let spend = forge(wallet(0x02).addr, 1, nf, NoteVersion::V3);
    let blocks = chain(3_500_000..=3_500_001, FORK_A, |h| match h {
        3_500_000 => {
            let mut t = tx(0x11, vec![action_for(&forge_note(us.addr, 5, [9u8; 32]))]);
            t.ironwood_actions = vec![ironwood_action_for(&note)];
            vec![t]
        }
        _ => {
            let mut t = tx(0x12, vec![]);
            t.ironwood_actions = vec![ironwood_action_for(&spend)];
            vec![t]
        }
    });
    let none = Nullifiers { sapling: vec![], orchard: vec![], ironwood: vec![] };
    let (txs, _) =
        scan_batch(&blocks, &us.keys, None, Network::MainNetwork, &none, &vec![], None).unwrap();
    assert_eq!(txs[0].ironwood_outputs[0].note.value, 88);
    assert_eq!(txs[0].ironwood_outputs[0].nf, Some(nf));
    assert_eq!(txs[0].orchard_outputs[0].note.value, 5);
    assert_eq!(txs[1].ironwood_spends[0].nf, nf);
    assert!(txs[1].orchard_spends.is_empty());
}

#[test]
fn compact_blocks_may_carry_transparent_parts() {
    let us = wallet(0x01);
    let view = ViewKey::decode(Network::MainNetwork, &us.encoded).unwrap();
    let addresses = view.transparent.as_ref().unwrap();
    let derived = addresses.derive(false, 3).unwrap();
    let script = match derived {
        seer_sync::primitives::TransparentAddress::PublicKeyHash(h) => {
            let mut s = vec![0x76, 0xa9, 0x14];
            s.extend(h);
            s.extend([0x88, 0xac]);
            s
        }
        _ => panic!("a derived address pays a key hash"),
    };
    let transparent = view.transparent.unwrap();
    let key = TransparentScanningKey {
        external: transparent.external,
        internal: transparent.internal,
    };
    let blocks = chain(100..=105, FORK_A, |h| match h {
        102 => {
            let mut t = tx(0x21, vec![]);
            t.vout = vec![
                TxOut { value: 9, script_pub_key: vec![0x51] },
                TxOut { value: 2_000_000, script_pub_key: script.clone() },
            ];
            vec![t]
        }
        104 => {
            let mut t = tx(0x22, vec![]);
            t.vin = vec![
                CompactTxIn { prevout_txid: vec![9; 32], prevout_index: 0 },
                CompactTxIn { prevout_txid: txid(0x21).to_vec(), prevout_index: 1 },
            ];
            vec![t]
        }
        _ => vec![],
    });
    let none = Nullifiers { sapling: vec![], orchard: vec![], ironwood: vec![] };
    let (txs, _) = scan_compact(
        &blocks,
        &us.keys,
        Some(&key),
        Network::MainNetwork,
        &none,
        &vec![OutPoint { hash: txid(0x21), n: 1 }],
        None,
    )
    .unwrap();
    assert_eq!(txs.len(), 2);
    assert_eq!(txs[0].transparent_outputs.len(), 1);
    assert_eq!(txs[0].transparent_outputs[0].outpoint, OutPoint { hash: txid(0x21), n: 1 });
    assert_eq!(txs[0].transparent_outputs[0].txout.value, 2_000_000);
    assert_eq!(txs[1].transparent_spends[0].outpoint, OutPoint { hash: txid(0x21), n: 1 });
    assert_eq!(txs[1].transparent_spends[0].txid, txid(0x22));

    let mut impossible = blocks.clone();
    impossible[2].vtx[0].vout[1].value = u64::MAX;
    assert!(scan_compact_checked(
        &impossible,
        &us.keys,
        Some(&key),
        Network::MainNetwork,
        &none,
        &vec![],
        None
    )
    .is_none());
}

#[test]
fn blocks_that_do_not_follow_are_errors() {
    let us = wallet(0x01);
    let none = Nullifiers { sapling: vec![], orchard: vec![], ironwood: vec![] };
    let scan = |blocks: &Vec<CompactBlock>, prior| {
        scan_compact(blocks, &us.keys, None, Network::MainNetwork, &none, &vec![], prior)
            .map(|_| ())
    };
    let blocks = chain(100..=102, FORK_A, |_| vec![]);
    assert_eq!(scan(&blocks, None), Ok(()));
    assert_eq!(scan(&blocks, Some((99, block_hash(99, FORK_A)))), Ok(()));
    assert_eq!(
        scan(&blocks, Some((99, block_hash(99, FORK_B)))),
        Err(ScanError::PrevHashMismatch(100))
    );
    assert_eq!(
        scan(&blocks, Some((97, block_hash(99, FORK_A)))),
        Err(ScanError::BlockHeightDiscontinuity { prev_height: 97, new_height: 100 })
    );
    let mut malformed = blocks.clone();
    malformed[1].vtx = vec![CompactTx { txid: vec![1; 31], ..Default::default() }];
    assert_eq!(scan(&malformed, None), Err(ScanError::InvalidCompactBlock(101)));
    let mut high = blocks.clone();
    high[0].height = 1 << 32;
    assert_eq!(scan(&high, None), Err(ScanError::InvalidCompactBlock(0)));
    let mut sizes = blocks.clone();
    sizes[1].chain_metadata.as_mut().unwrap().orchard_commitment_tree_size = 3;
    assert_eq!(
        scan(&sizes, None),
        Err(ScanError::TreeSizeMismatch {
            pool: seer_sync::primitives::ShieldedPool::Orchard,
            at_height: 101,
            given: 3,
            computed: 0
        })
    );
}

#[test]
fn a_tree_size_that_cannot_be_told_is_an_error() {
    let us = wallet(0x01);
    let none = Nullifiers { sapling: vec![], orchard: vec![], ironwood: vec![] };
    let mut blocks = chain(2_000_000..=2_000_000, FORK_A, |_| vec![]);
    blocks[0].chain_metadata = None;
    let got = scan_compact(&blocks, &us.keys, None, Network::MainNetwork, &none, &vec![], None);
    assert_eq!(
        got.map(|_| ()),
        Err(ScanError::TreeSizeUnknown(
            seer_sync::primitives::ShieldedPool::Sapling,
            2_000_000
        ))
    );
}

#[test]
fn batches_hold_a_bounded_number_of_outputs() {
    let mut run = SyncRun::new();
    assert_eq!(run.begin(100, None, 200), Some((100, 200)));
    let blocks = chain(100..=102, FORK_A, |_| {
        vec![tx(1, vec![CompactOrchardAction::default(); 60_000])]
    });
    let mut flushed = vec![];
    for b in blocks {
        if let BlockStep::Flush(batch) = run.on_block(b) {
            flushed.push(batch.len());
        }
    }
    assert_eq!(flushed, vec![1, 1]);
    assert_eq!(run.on_end().len(), 1);
    assert!(BLOCKS_PER_BATCH == 1_000);
}

#[test]
fn rewinds_double_and_stop_at_the_birthday() {
    let mut run = SyncRun::new();
    let fork = |h: u32| {
        let mut b = chain(h..=h, FORK_A, |_| vec![]).remove(0);
        b.prev_hash = block_hash(h - 1, FORK_B).to_vec();
        b
    };
    let mut targets = vec![];
    for _ in 0..5 {
        let at = Cursor { height: 110, hash: block_hash(110, FORK_A) };
        assert_eq!(run.begin(100, Some(at), 200), Some((111, 200)));
        if let BlockStep::Rewind(to) = run.on_block(fork(111)) {
            targets.push(to);
        }
    }
    assert_eq!(targets, vec![110, 109, 107, 103, 100]);
    run.applied(Cursor { height: 111, hash: [0; 32] });
    let at = Cursor { height: 110, hash: block_hash(110, FORK_A) };
    run.begin(100, Some(at), 200);
    assert!(matches!(run.on_block(fork(111)), BlockStep::Rewind(110)));
}
