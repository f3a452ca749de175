//! Scanning with a full viewing key: notes with their nullifiers, spends, and
//! transparent inputs and outputs.

use vstd::prelude::*;

use crate::bytes::{array32, copy_bytes, holds32, lemma_array32, to_array};
use crate::keys::fvk::FvkKeys;
use crate::primitives::Scope;
use crate::proto::{CompactBlock, CompactTx};
use crate::scan::blocks::{
    find_orchard_notes, find_sapling_notes, orchard_block_notes, sapling_block_notes,
};
use crate::scan::parsers::{txid_bytes, txid_of};
use crate::scan::types::{
    received_views, FvkScanResult, IncomingNoteView, ReceivedView, ScanEvent, TransparentReceived,
    TransparentSpend,
};
use crate::seqs::{collect_some, lemma_collect_push, lemma_joined_contains};
use crate::sync::scan::sapling_count;
use crate::tree::sapling_in_block;
use crate::upstream::sapling_notes::{sapling_to_nk, SaplingNk};

verus! {

/// What a full viewing key scans with.
pub struct FvkView {
    /// The Orchard incoming viewing key.
    pub orchard_ivk: Option<Seq<u8>>,
    /// The Sapling incoming viewing key.
    pub sapling_ivk: Option<Seq<u8>>,
    /// The Orchard full viewing key.
    pub orchard_fvk: Option<Seq<u8>>,
    /// The Sapling full viewing key, with the scope of the nullifiers.
    pub sapling_nk: Option<(Seq<u8>, Scope)>,
}

/// What a full viewing key scans with.
pub open spec fn fvk_view(keys: FvkKeys) -> FvkView {
    FvkView {
        orchard_ivk: match keys.orchard_ivk {
            Some(k) => Some(k@),
            None => None,
        },
        sapling_ivk: match keys.sapling_ivk {
            Some(k) => Some(k@),
            None => None,
        },
        orchard_fvk: match keys.orchard_fvk {
            Some(k) => Some(k@),
            None => None,
        },
        sapling_nk: match keys.sapling_dfvk {
            Some(k) => Some((k@, Scope::External)),
            None => None,
        },
    }
}

/// How many Sapling outputs the blocks hold.
pub open spec fn total_sapling(blocks: Seq<CompactBlock>) -> nat
    decreases blocks.len(),
{
    if blocks.len() == 0 {
        0
    } else {
        total_sapling(blocks.drop_last()) + sapling_count(blocks.last().vtx@)
    }
}

/// Some of the blocks hold no more outputs than all.
pub proof fn lemma_total_sapling(blocks: Seq<CompactBlock>, n: int)
    requires
        0 <= n < blocks.len(),
    ensures
        total_sapling(blocks.take(n + 1)) == total_sapling(blocks.take(n)) + sapling_count(
            blocks[n].vtx@,
        ),
        total_sapling(blocks.take(n + 1)) <= total_sapling(blocks),
    decreases blocks.len() - n,
{
    assert(blocks.take(n + 1).drop_last() =~= blocks.take(n));
    if n + 1 < blocks.len() {
        lemma_total_sapling(blocks, n + 1);
    } else {
        assert(blocks.take(n + 1) =~= blocks);
    }
}

/// The notes that the keys find in the blocks: block by block, Orchard before Sapling.
pub open spec fn fvk_notes(keys: FvkView, blocks: Seq<CompactBlock>, start: nat) -> Seq<IncomingNoteView>
    decreases blocks.len(),
{
    if blocks.len() == 0 {
        Seq::empty()
    } else {
        let before = blocks.drop_last();
        fvk_notes(keys, before, start) + orchard_block_notes(
            blocks.last(),
            keys.orchard_ivk,
            keys.orchard_fvk,
        ) + sapling_block_notes(
            blocks.last(),
            keys.sapling_ivk,
            keys.sapling_nk,
            true,
            start + total_sapling(before),
        )
    }
}

/// The nullifier that an action reveals, with its height, where it has 32 bytes.
pub open spec fn orchard_reveals_at(tx: CompactTx, height: u32, i: int) -> Option<([u8; 32], u32)> {
    if tx.actions@[i].nullifier@.len() == 32 {
        Some((array32(tx.actions@[i].nullifier@), height))
    } else {
        None
    }
}

/// The nullifier that a Sapling spend reveals, with its height, where it has 32 bytes.
pub open spec fn sapling_reveals_at(tx: CompactTx, height: u32, i: int) -> Option<([u8; 32], u32)> {
    if tx.spends@[i].nf@.len() == 32 {
        Some((array32(tx.spends@[i].nf@), height))
    } else {
        None
    }
}

/// The transparent output at an index.
pub open spec fn paid_at(tx: CompactTx, height: u32, i: int) -> ReceivedView {
    ReceivedView {
        height,
        tx_id: txid_of(tx.txid@),
        output_index: i as u32,
        value_zat: tx.vout@[i].value,
        script: tx.vout@[i].script_pub_key@,
    }
}

/// The transparent input at an index, where it names a transaction.
pub open spec fn consumed_at(tx: CompactTx, height: u32, i: int) -> Option<TransparentSpend> {
    if tx.vin@[i].prevout_txid@.len() == 32 {
        Some(
            TransparentSpend {
                height,
                tx_id: txid_of(tx.txid@),
                prevout_txid: array32(tx.vin@[i].prevout_txid@),
                prevout_index: tx.vin@[i].prevout_index,
            },
        )
    } else {
        None
    }
}

/// The nullifiers that actions reveal, in one transaction.
pub open spec fn orchard_reveals_in_tx(tx: CompactTx, height: u32) -> Seq<([u8; 32], u32)> {
    collect_some(Seq::new(tx.actions@.len(), |i: int| orchard_reveals_at(tx, height, i)))
}

/// The nullifiers that actions reveal, in some transactions.
pub open spec fn orchard_reveals_in_txs(vtx: Seq<CompactTx>, height: u32) -> Seq<([u8; 32], u32)>
    decreases vtx.len(),
{
    if vtx.len() == 0 {
        Seq::empty()
    } else {
        orchard_reveals_in_txs(vtx.drop_last(), height) + orchard_reveals_in_tx(vtx.last(), height)
    }
}

/// The nullifiers that actions reveal, in some blocks.
pub open spec fn orchard_reveals_in_blocks(blocks: Seq<CompactBlock>) -> Seq<([u8; 32], u32)>
    decreases blocks.len(),
{
    if blocks.len() == 0 {
        Seq::empty()
    } else {
        orchard_reveals_in_blocks(blocks.drop_last()) + orchard_reveals_in_txs(
            blocks.last().vtx@,
            blocks.last().height as u32,
        )
    }
}

/// The nullifiers that actions reveal: appends those of one transaction.
fn list_orchard_reveals_in_tx(list: &mut Vec<([u8; 32], u32)>, tx: &CompactTx, height: u32)
    ensures
        final(list)@ == old(list)@ + orchard_reveals_in_tx(*tx, height),
{
    let ghost all = Seq::new(tx.actions@.len(), |i: int| orchard_reveals_at(*tx, height, i));
    let ghost start = list@;
    let mut i: usize = 0;
    assert(start =~= start + collect_some(all.take(0)));
    while i < tx.actions.len()
        invariant
            0 <= i <= tx.actions.len(),
            all == Seq::new(tx.actions@.len(), |i: int| orchard_reveals_at(*tx, height, i)),
            list@ == start + collect_some(all.take(i as int)),
        decreases tx.actions.len() - i,
    {
        proof {
            lemma_collect_push(all.take(i as int), all[i as int]);
            assert(all.take(i as int + 1) =~= all.take(i as int).push(all[i as int]));
        }
        let ghost before = list@;
        let bytes: Option<[u8; 32]> = to_array(tx.actions[i].nullifier.as_slice());
        if let Some(nf) = bytes {
            proof {
                lemma_array32(nf);
            }
            list.push((nf, height));
            assert(list@ =~= start + collect_some(all.take(i as int + 1)));
        }
        i = i + 1;
    }
    assert(all.take(i as int) =~= all);
}

/// The nullifiers that actions reveal: appends those of the blocks.
fn list_orchard_reveals(list: &mut Vec<([u8; 32], u32)>, blocks: &Vec<CompactBlock>)
    ensures
        final(list)@ == old(list)@ + orchard_reveals_in_blocks(blocks@),
{
    let ghost start = list@;
    let mut b: usize = 0;
    assert(blocks@.take(0) =~= Seq::empty());
    assert(start =~= start + orchard_reveals_in_blocks(blocks@.take(0)));
    while b < blocks.len()
        invariant
            0 <= b <= blocks.len(),
            list@ == start + orchard_reveals_in_blocks(blocks@.take(b as int)),
        decreases blocks.len() - b,
    {
        proof {
            assert(blocks@.take(b as int + 1).drop_last() =~= blocks@.take(b as int));
        }
        let block = &blocks[b];
        #[verifier::truncate]
        let height: u32 = block.height as u32;
        let ghost begun = list@;
        let mut t: usize = 0;
        assert(block.vtx@.take(0) =~= Seq::empty());
        assert(begun =~= begun + orchard_reveals_in_txs(block.vtx@.take(0), height));
        while t < block.vtx.len()
            invariant
                0 <= t <= block.vtx.len(),
                list@ == begun + orchard_reveals_in_txs(block.vtx@.take(t as int), height),
            decreases block.vtx.len() - t,
        {
            proof {
                assert(block.vtx@.take(t as int + 1).drop_last() =~= block.vtx@.take(t as int));
            }
            let ghost so_far = list@;
            list_orchard_reveals_in_tx(list, &block.vtx[t], height);
            assert(list@ =~= begun + orchard_reveals_in_txs(block.vtx@.take(t as int + 1), height));
            t = t + 1;
        }
        assert(block.vtx@.take(t as int) =~= block.vtx@);
        assert(list@ =~= start + orchard_reveals_in_blocks(blocks@.take(b as int + 1)));
        b = b + 1;
    }
    assert(blocks@.take(b as int) =~= blocks@);
}

/// The nullifiers that Sapling spends reveal, in one transaction.
pub open spec fn sapling_reveals_in_tx(tx: CompactTx, height: u32) -> Seq<([u8; 32], u32)> {
    collect_some(Seq::new(tx.spends@.len(), |i: int| sapling_reveals_at(tx, height, i)))
}

/// The nullifiers that Sapling spends reveal, in some transactions.
pub open spec fn sapling_reveals_in_txs(vtx: Seq<CompactTx>, height: u32) -> Seq<([u8; 32], u32)>
    decreases vtx.len(),
{
    if vtx.len() == 0 {
        Seq::empty()
    } else {
        sapling_reveals_in_txs(vtx.drop_last(), height) + sapling_reveals_in_tx(vtx.last(), height)
    }
}

/// The nullifiers that Sapling spends reveal, in some blocks.
pub open spec fn sapling_reveals_in_blocks(blocks: Seq<CompactBlock>) -> Seq<([u8; 32], u32)>
    decreases blocks.len(),
{
    if blocks.len() == 0 {
        Seq::empty()
    } else {
        sapling_reveals_in_blocks(blocks.drop_last()) + sapling_reveals_in_txs(
            blocks.last().vtx@,
            blocks.last().height as u32,
        )
    }
}

/// The nullifiers that Sapling spends reveal: appends those of one transaction.
fn list_sapling_reveals_in_tx(list: &mut Vec<([u8; 32], u32)>, tx: &CompactTx, height: u32)
    ensures
        final(list)@ == old(list)@ + sapling_reveals_in_tx(*tx, height),
{
    let ghost all = Seq::new(tx.spends@.len(), |i: int| sapling_reveals_at(*tx, height, i));
    let ghost start = list@;
    let mut i: usize = 0;
    assert(start =~= start + collect_some(all.take(0)));
    while i < tx.spends.len()
        invariant
            0 <= i <= tx.spends.len(),
            all == Seq::new(tx.spends@.len(), |i: int| sapling_reveals_at(*tx, height, i)),
            list@ == start + collect_some(all.take(i as int)),
        decreases tx.spends.len() - i,
    {
        proof {
            lemma_collect_push(all.take(i as int), all[i as int]);
            assert(all.take(i as int + 1) =~= all.take(i as int).push(all[i as int]));
        }
        let ghost before = list@;
        let bytes: Option<[u8; 32]> = to_array(tx.spends[i].nf.as_slice());
        if let Some(nf) = bytes {
            proof {
                lemma_array32(nf);
            }
            list.push((nf, height));
            assert(list@ =~= start + collect_some(all.take(i as int + 1)));
        }
        i = i + 1;
    }
    assert(all.take(i as int) =~= all);
}

/// The nullifiers that Sapling spends reveal: appends those of the blocks.
fn list_sapling_reveals(list: &mut Vec<([u8; 32], u32)>, blocks: &Vec<CompactBlock>)
    ensures
        final(list)@ == old(list)@ + sapling_reveals_in_blocks(blocks@),
{
    let ghost start = list@;
    let mut b: usize = 0;
    assert(blocks@.take(0) =~= Seq::empty());
    assert(start =~= start + sapling_reveals_in_blocks(blocks@.take(0)));
    while b < blocks.len()
        invariant
            0 <= b <= blocks.len(),
            list@ == start + sapling_reveals_in_blocks(blocks@.take(b as int)),
        decreases blocks.len() - b,
    {
        proof {
            assert(blocks@.take(b as int + 1).drop_last() =~= blocks@.take(b as int));
        }
        let block = &blocks[b];
        #[verifier::truncate]
        let height: u32 = block.height as u32;
        let ghost begun = list@;
        let mut t: usize = 0;
        assert(block.vtx@.take(0) =~= Seq::empty());
        assert(begun =~= begun + sapling_reveals_in_txs(block.vtx@.take(0), height));
        while t < block.vtx.len()
            invariant
                0 <= t <= block.vtx.len(),
                list@ == begun + sapling_reveals_in_txs(block.vtx@.take(t as int), height),
            decreases block.vtx.len() - t,
        {
            proof {
                assert(block.vtx@.take(t as int + 1).drop_last() =~= block.vtx@.take(t as int));
            }
            let ghost so_far = list@;
            list_sapling_reveals_in_tx(list, &block.vtx[t], height);
            assert(list@ =~= begun + sapling_reveals_in_txs(block.vtx@.take(t as int + 1), height));
            t = t + 1;
        }
        assert(block.vtx@.take(t as int) =~= block.vtx@);
        assert(list@ =~= start + sapling_reveals_in_blocks(blocks@.take(b as int + 1)));
        b = b + 1;
    }
    assert(blocks@.take(b as int) =~= blocks@);
}

/// The transparent outputs, in one transaction.
pub open spec fn paid_in_tx(tx: CompactTx, height: u32) -> Seq<ReceivedView> {
    Seq::new(tx.vout@.len(), |i: int| paid_at(tx, height, i))
}

/// The transparent outputs, in some transactions.
pub open spec fn paid_in_txs(vtx: Seq<CompactTx>, height: u32) -> Seq<ReceivedView>
    decreases vtx.len(),
{
    if vtx.len() == 0 {
        Seq::empty()
    } else {
        paid_in_txs(vtx.drop_last(), height) + paid_in_tx(vtx.last(), height)
    }
}

/// The transparent outputs, in some blocks.
pub open spec fn paid_in_blocks(blocks: Seq<CompactBlock>) -> Seq<ReceivedView>
    decreases blocks.len(),
{
    if blocks.len() == 0 {
        Seq::empty()
    } else {
        paid_in_blocks(blocks.drop_last()) + paid_in_txs(
            blocks.last().vtx@,
            blocks.last().height as u32,
        )
    }
}

/// The transparent outputs: appends those of one transaction.
fn list_paid_in_tx(list: &mut Vec<TransparentReceived>, tx: &CompactTx, height: u32)
    ensures
        received_views(final(list)@) == received_views(old(list)@) + paid_in_tx(*tx, height),
{
    let ghost all = Seq::new(tx.vout@.len(), |i: int| paid_at(*tx, height, i));
    let ghost start = received_views(list@);
    let mut i: usize = 0;
    assert(start =~= start + all.take(0));
    while i < tx.vout.len()
        invariant
            0 <= i <= tx.vout.len(),
            all == Seq::new(tx.vout@.len(), |i: int| paid_at(*tx, height, i)),
            received_views(list@) == start + all.take(i as int),
        decreases tx.vout.len() - i,
    {
        let ghost before = list@;
        #[verifier::truncate]
        let output_index: u32 = i as u32;
        let item = TransparentReceived {
            height,
            tx_id: txid_bytes(tx.txid.as_slice()),
            output_index,
            value_zat: tx.vout[i].value,
            script: copy_bytes(&tx.vout[i].script_pub_key),
        };
        list.push(item);
        assert(received_views(list@) =~= received_views(before).push(item@));
        assert(received_views(list@) =~= start + all.take(i as int + 1));
        i = i + 1;
    }
    assert(all.take(i as int) =~= all);
}

/// The transparent outputs: appends those of the blocks.
fn list_paid(list: &mut Vec<TransparentReceived>, blocks: &Vec<CompactBlock>)
    ensures
        received_views(final(list)@) == received_views(old(list)@) + paid_in_blocks(blocks@),
{
    let ghost start = received_views(list@);
    let mut b: usize = 0;
    assert(blocks@.take(0) =~= Seq::empty());
    assert(start =~= start + paid_in_blocks(blocks@.take(0)));
    while b < blocks.len()
        invariant
            0 <= b <= blocks.len(),
            received_views(list@) == start + paid_in_blocks(blocks@.take(b as int)),
        decreases blocks.len() - b,
    {
        proof {
            assert(blocks@.take(b as int + 1).drop_last() =~= blocks@.take(b as int));
        }
        let block = &blocks[b];
        #[verifier::truncate]
        let height: u32 = block.height as u32;
        let ghost begun = received_views(list@);
        let mut t: usize = 0;
        assert(block.vtx@.take(0) =~= Seq::empty());
        assert(begun =~= begun + paid_in_txs(block.vtx@.take(0), height));
        while t < block.vtx.len()
            invariant
                0 <= t <= block.vtx.len(),
                received_views(list@) == begun + paid_in_txs(block.vtx@.take(t as int), height),
            decreases block.vtx.len() - t,
        {
            proof {
                assert(block.vtx@.take(t as int + 1).drop_last() =~= block.vtx@.take(t as int));
            }
            let ghost so_far = received_views(list@);
            list_paid_in_tx(list, &block.vtx[t], height);
            assert(received_views(list@) =~= begun + paid_in_txs(block.vtx@.take(t as int + 1), height));
            t = t + 1;
        }
        assert(block.vtx@.take(t as int) =~= block.vtx@);
        assert(received_views(list@) =~= start + paid_in_blocks(blocks@.take(b as int + 1)));
        b = b + 1;
    }
    assert(blocks@.take(b as int) =~= blocks@);
}

/// The transparent inputs, in one transaction.
pub open spec fn consumed_in_tx(tx: CompactTx, height: u32) -> Seq<TransparentSpend> {
    collect_some(Seq::new(tx.vin@.len(), |i: int| consumed_at(tx, height, i)))
}

/// The transparent inputs, in some transactions.
pub open spec fn consumed_in_txs(vtx: Seq<CompactTx>, height: u32) -> Seq<TransparentSpend>
    decreases vtx.len(),
{
    if vtx.len() == 0 {
        Seq::empty()
    } else {
        consumed_in_txs(vtx.drop_last(), height) + consumed_in_tx(vtx.last(), height)
    }
}

/// The transparent inputs, in some blocks.
pub open spec fn consumed_in_blocks(blocks: Seq<CompactBlock>) -> Seq<TransparentSpend>
    decreases blocks.len(),
{
    if blocks.len() == 0 {
        Seq::empty()
    } else {
        consumed_in_blocks(blocks.drop_last()) + consumed_in_txs(
            blocks.last().vtx@,
            blocks.last().height as u32,
        )
    }
}

/// The transparent inputs: appends those of one transaction.
fn list_consumed_in_tx(list: &mut Vec<TransparentSpend>, tx: &CompactTx, height: u32)
    ensures
        final(list)@ == old(list)@ + consumed_in_tx(*tx, height),
{
    let ghost all = Seq::new(tx.vin@.len(), |i: int| consumed_at(*tx, height, i));
    let ghost start = list@;
    let mut i: usize = 0;
    assert(start =~= start + collect_some(all.take(0)));
    while i < tx.vin.len()
        invariant
            0 <= i <= tx.vin.len(),
            all == Seq::new(tx.vin@.len(), |i: int| consumed_at(*tx, height, i)),
            list@ == start + collect_some(all.take(i as int)),
        decreases tx.vin.len() - i,
    {
        proof {
            lemma_collect_push(all.take(i as int), all[i as int]);
            assert(all.take(i as int + 1) =~= all.take(i as int).push(all[i as int]));
        }
        let ghost before = list@;
        let bytes: Option<[u8; 32]> = to_array(tx.vin[i].prevout_txid.as_slice());
        if let Some(prevout_txid) = bytes {
            proof {
                lemma_array32(prevout_txid);
            }
            list.push(
                TransparentSpend {
                    height,
                    tx_id: txid_bytes(tx.txid.as_slice()),
                    prevout_txid,
                    prevout_index: tx.vin[i].prevout_index,
                },
            );
            assert(list@ =~= start + collect_some(all.take(i as int + 1)));
        }
        i = i + 1;
    }
    assert(all.take(i as int) =~= all);
}

/// The transparent inputs: appends those of the blocks.
fn list_consumed(list: &mut Vec<TransparentSpend>, blocks: &Vec<CompactBlock>)
    ensures
        final(list)@ == old(list)@ + consumed_in_blocks(blocks@),
{
    let ghost start = list@;
    let mut b: usize = 0;
    assert(blocks@.take(0) =~= Seq::empty());
    assert(start =~= start + consumed_in_blocks(blocks@.take(0)));
    while b < blocks.len()
        invariant
            0 <= b <= blocks.len(),
            list@ == start + consumed_in_blocks(blocks@.take(b as int)),
        decreases blocks.len() - b,
    {
        proof {
            assert(blocks@.take(b as int + 1).drop_last() =~= blocks@.take(b as int));
        }
        let block = &blocks[b];
        #[verifier::truncate]
        let height: u32 = block.height as u32;
        let ghost begun = list@;
        let mut t: usize = 0;
        assert(block.vtx@.take(0) =~= Seq::empty());
        assert(begun =~= begun + consumed_in_txs(block.vtx@.take(0), height));
        while t < block.vtx.len()
            invariant
                0 <= t <= block.vtx.len(),
                list@ == begun + consumed_in_txs(block.vtx@.take(t as int), height),
            decreases block.vtx.len() - t,
        {
            proof {
                assert(block.vtx@.take(t as int + 1).drop_last() =~= block.vtx@.take(t as int));
            }
            let ghost so_far = list@;
            list_consumed_in_tx(list, &block.vtx[t], height);
            assert(list@ =~= begun + consumed_in_txs(block.vtx@.take(t as int + 1), height));
            t = t + 1;
        }
        assert(block.vtx@.take(t as int) =~= block.vtx@);
        assert(list@ =~= start + consumed_in_blocks(blocks@.take(b as int + 1)));
        b = b + 1;
    }
    assert(blocks@.take(b as int) =~= blocks@);
}

/// The nullifiers of the notes.
pub open spec fn note_nullifiers(notes: Seq<IncomingNoteView>) -> Seq<[u8; 32]> {
    collect_some(notes.map_values(|n: IncomingNoteView| n.nullifier))
}

/// The spend event that a revealed nullifier is, where it is watched.
pub open spec fn spent_event(watched: Seq<[u8; 32]>, revealed: ([u8; 32], u32)) -> Option<ScanEvent> {
    if watched.contains(revealed.0) {
        Some(ScanEvent::Spent { nullifier: revealed.0, height: revealed.1 })
    } else {
        None
    }
}

/// The events of a scan: the notes received, then the watched nullifiers that Orchard
/// actions and then Sapling spends reveal. The nullifiers of the notes received are
/// watched too.
pub open spec fn fvk_events(
    keys: FvkView,
    blocks: Seq<CompactBlock>,
    start: nat,
    known: Seq<[u8; 32]>,
) -> Seq<ScanEvent> {
    let notes = fvk_notes(keys, blocks, start);
    let watched = known + note_nullifiers(notes);
    notes.map_values(|n: IncomingNoteView| ScanEvent::Incoming(n)) + collect_some(
        (orchard_reveals_in_blocks(blocks) + sapling_reveals_in_blocks(blocks)).map_values(
            |r: ([u8; 32], u32)| spent_event(watched, r),
        ),
    )
}

/// Finds the notes of the blocks.
fn find_notes(
    blocks: &Vec<CompactBlock>,
    keys: &FvkKeys,
    nk: Option<&SaplingNk>,
    start: u64,
) -> (notes: Vec<IncomingNoteView>)
    requires
        start + total_sapling(blocks@) <= u64::MAX,
        fvk_view(*keys).sapling_nk == (match nk {
            Some(k) => Some(k@),
            None => None,
        }),
    ensures
        notes@ == fvk_notes(fvk_view(*keys), blocks@, start as nat),
{
    let ghost view = fvk_view(*keys);
    let mut notes: Vec<IncomingNoteView> = Vec::new();
    let mut first: u64 = start;
    let mut b: usize = 0;
    assert(blocks@.take(0) =~= Seq::empty());
    while b < blocks.len()
        invariant
            0 <= b <= blocks.len(),
            start + total_sapling(blocks@) <= u64::MAX,
            view == fvk_view(*keys),
            view.sapling_nk == (match nk {
                Some(k) => Some(k@),
                None => None,
            }),
            first == start + total_sapling(blocks@.take(b as int)),
            notes@ == fvk_notes(view, blocks@.take(b as int), start as nat),
        decreases blocks.len() - b,
    {
        proof {
            assert(blocks@.take(b as int + 1).drop_last() =~= blocks@.take(b as int));
            lemma_total_sapling(blocks@, b as int);
        }
        let block = &blocks[b];
        find_orchard_notes(block, keys.orchard_ivk.as_ref(), keys.orchard_fvk.as_ref(), &mut notes);
        find_sapling_notes(block, keys.sapling_ivk.as_ref(), nk, true, first, &mut notes);
        first = first + sapling_in_block(block);
        b = b + 1;
    }
    assert(blocks@.take(b as int) =~= blocks@);
    notes
}

/// Scans blocks with a full viewing key.
///
/// Every Sapling output is counted, so that notes get their positions;
/// `sapling_start_pos` is the number of outputs before the first block. The nullifiers
/// given, and those of the notes found, are watched for spends. Every transparent output
/// and every transparent input is told.
pub fn scan_fvk(
    blocks: &Vec<CompactBlock>,
    keys: &FvkKeys,
    sapling_start_pos: u64,
    known_nullifiers: &Vec<[u8; 32]>,
) -> (result: FvkScanResult)
    requires
        sapling_start_pos + total_sapling(blocks@) <= u64::MAX,
    ensures
        result.events@ == fvk_events(
            fvk_view(*keys),
            blocks@,
            sapling_start_pos as nat,
            known_nullifiers@,
        ),
        result.sapling_leaf_count == sapling_start_pos + total_sapling(blocks@),
        received_views(result.transparent_received@) == paid_in_blocks(blocks@),
        result.transparent_spends@ == consumed_in_blocks(blocks@),
{
    let nk = match &keys.sapling_dfvk {
        Some(dfvk) => Some(sapling_to_nk(dfvk, Scope::External)),
        None => None,
    };
    let notes = find_notes(blocks, keys, nk.as_ref(), sapling_start_pos);
    let mut sapling_leaf_count: u64 = sapling_start_pos;
    let mut b: usize = 0;
    assert(blocks@.take(0) =~= Seq::empty());
    while b < blocks.len()
        invariant
            0 <= b <= blocks.len(),
            sapling_start_pos + total_sapling(blocks@) <= u64::MAX,
            sapling_leaf_count == sapling_start_pos + total_sapling(blocks@.take(b as int)),
        decreases blocks.len() - b,
    {
        proof {
            lemma_total_sapling(blocks@, b as int);
        }
        sapling_leaf_count = sapling_leaf_count + sapling_in_block(&blocks[b]);
        b = b + 1;
    }
    assert(blocks@.take(b as int) =~= blocks@);
    let mut revealed: Vec<([u8; 32], u32)> = Vec::new();
    list_orchard_reveals(&mut revealed, blocks);
    list_sapling_reveals(&mut revealed, blocks);
    assert(revealed@ =~= orchard_reveals_in_blocks(blocks@) + sapling_reveals_in_blocks(blocks@));
    let events = make_events(&notes, known_nullifiers, &revealed);
    let mut transparent_received: Vec<TransparentReceived> = Vec::new();
    list_paid(&mut transparent_received, blocks);
    assert(received_views(transparent_received@) =~= paid_in_blocks(blocks@));
    let mut transparent_spends: Vec<TransparentSpend> = Vec::new();
    list_consumed(&mut transparent_spends, blocks);
    assert(transparent_spends@ =~= consumed_in_blocks(blocks@));
    FvkScanResult { events, sapling_leaf_count, transparent_received, transparent_spends }
}

/// The events of some notes and revealed nullifiers.
pub fn make_events(
    notes: &Vec<IncomingNoteView>,
    known: &Vec<[u8; 32]>,
    revealed: &Vec<([u8; 32], u32)>,
) -> (events: Vec<ScanEvent>)
    ensures
        events@ == notes@.map_values(|n: IncomingNoteView| ScanEvent::Incoming(n)) + collect_some(
            revealed@.map_values(
                |r: ([u8; 32], u32)| spent_event(known@ + note_nullifiers(notes@), r),
            ),
        ),
{
    let ghost incoming = notes@.map_values(|n: IncomingNoteView| ScanEvent::Incoming(n));
    let ghost nfs = notes@.map_values(|n: IncomingNoteView| n.nullifier);
    let mut events: Vec<ScanEvent> = Vec::new();
    let mut born: Vec<[u8; 32]> = Vec::new();
    let mut i: usize = 0;
    assert(events@ =~= incoming.take(0));
    assert(born@ =~= collect_some(nfs.take(0)));
    while i < notes.len()
        invariant
            0 <= i <= notes.len(),
            incoming == notes@.map_values(|n: IncomingNoteView| ScanEvent::Incoming(n)),
            nfs == notes@.map_values(|n: IncomingNoteView| n.nullifier),
            events@ == incoming.take(i as int),
            born@ == collect_some(nfs.take(i as int)),
        decreases notes.len() - i,
    {
        proof {
            lemma_collect_push(nfs.take(i as int), nfs[i as int]);
            assert(nfs.take(i as int + 1) =~= nfs.take(i as int).push(nfs[i as int]));
        }
        events.push(ScanEvent::Incoming(notes[i]));
        assert(events@ =~= incoming.take(i as int + 1));
        if let Some(nf) = notes[i].nullifier {
            born.push(nf);
        }
        i = i + 1;
    }
    assert(incoming.take(i as int) =~= incoming);
    assert(nfs.take(i as int) =~= nfs);
    let ghost watched = known@ + note_nullifiers(notes@);
    let ghost all = revealed@.map_values(|r: ([u8; 32], u32)| spent_event(watched, r));
    let mut k: usize = 0;
    assert(events@ =~= incoming + collect_some(all.take(0)));
    while k < revealed.len()
        invariant
            0 <= k <= revealed.len(),
            watched == known@ + born@,
            all == revealed@.map_values(|r: ([u8; 32], u32)| spent_event(watched, r)),
            events@ == incoming + collect_some(all.take(k as int)),
        decreases revealed.len() - k,
    {
        proof {
            lemma_collect_push(all.take(k as int), all[k as int]);
            assert(all.take(k as int + 1) =~= all.take(k as int).push(all[k as int]));
            lemma_joined_contains(known@, born@, revealed@[k as int].0);
        }
        let (nullifier, height) = revealed[k];
        if holds32(known, &nullifier) || holds32(&born, &nullifier) {
            events.push(ScanEvent::Spent { nullifier, height });
            assert(events@ =~= incoming + collect_some(all.take(k as int + 1)));
        }
        k = k + 1;
    }
    assert(all.take(k as int) =~= all);
    events
}

} // verus!
