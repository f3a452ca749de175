//! Laws of scanning blocks by what the key can do: which notes are told, at which place, and
//! what is told of spends and of the transparent side.

use vstd::prelude::*;

use crate::bytes::array32;
use crate::keys::fvk::FvkKeys;
use crate::keys::ivk::IvkKeys;
use crate::primitives::{ActionParts, CompactParts, Rseed, Scope, Zip212Enforcement};
use crate::proto::{CompactBlock, CompactOrchardAction, CompactSaplingOutput, CompactTx};
use crate::scan::blocks::{
    block_actions, block_outputs, orchard_block_notes, orchard_incoming, sapling_block_notes,
    sapling_incoming, tx_actions, tx_outputs,
};
use crate::scan::fvk::{
    consumed_at, consumed_in_blocks, consumed_in_tx, consumed_in_txs, fvk_events, fvk_notes,
    fvk_view, note_nullifiers, orchard_reveals_at, orchard_reveals_in_blocks,
    orchard_reveals_in_tx, orchard_reveals_in_txs, paid_in_blocks, paid_in_tx, paid_in_txs,
    sapling_reveals_at, sapling_reveals_in_blocks, sapling_reveals_in_tx, sapling_reveals_in_txs,
    spent_event, total_sapling, FvkView,
};
use crate::scan::ivk::{ivk_notes, orchard_key, sapling_key};
use crate::scan::parsers::txid_of;
use crate::scan::types::{
    IncomingNoteView, ReceivedView, Recipient, ScanEvent, ShieldedPool, TransparentSpend,
};
use crate::seqs::{
    collect_some, lemma_collect_from, lemma_collect_has, lemma_collect_indexed,
    lemma_collect_picks, picks,
};
use crate::sync::decrypt::{orchard_compact_parts, sapling_compact_parts};
use crate::sync::scan::sapling_count;
use crate::upstream::orchard_notes::{
    orchard_cmx_valid, orchard_compact_note, orchard_nullifier_of, orchard_nullifier_valid,
};
use crate::upstream::sapling_notes::{
    sapling_cmu_valid, sapling_compact_note, sapling_nullifier_of,
};

verus! {

/// A compact output is read exactly where its commitment is one and its parts have the right
/// lengths, and it is read as it is.
pub proof fn law_compact_outputs_are_read_as_they_are(
    output: CompactSaplingOutput,
    action: CompactOrchardAction,
)
    ensures
        sapling_compact_parts(output) is Some <==> {
            &&& output.cmu@.len() == 32
            &&& sapling_cmu_valid(output.cmu@)
            &&& output.ephemeral_key@.len() == 32
            &&& output.ciphertext@.len() == 52
        },
        sapling_compact_parts(output) matches Some(parts) ==> parts == (CompactParts {
            cmu: output.cmu@,
            ephemeral_key: output.ephemeral_key@,
            ciphertext: output.ciphertext@,
        }),
        orchard_compact_parts(action) is Some <==> {
            &&& action.nullifier@.len() == 32
            &&& orchard_nullifier_valid(action.nullifier@)
            &&& action.cmx@.len() == 32
            &&& orchard_cmx_valid(action.cmx@)
            &&& action.ephemeral_key@.len() == 32
            &&& action.ciphertext@.len() == 52
        },
        orchard_compact_parts(action) matches Some(parts) ==> parts == (ActionParts {
            nullifier: action.nullifier@,
            cmx: action.cmx@,
            ephemeral_key: action.ephemeral_key@,
            ciphertext: action.ciphertext@,
        }),
{
}

/// The Orchard actions of a block that are tried are exactly those that are well formed, in the order
/// of the block.
pub proof fn law_orchard_actions_of_a_block_are_tried_in_order(vtx: Seq<CompactTx>)
    ensures
        ({
            let list = block_actions(vtx);
            &&& forall|k: int|
                0 <= k < list.len() ==> {
                    let (t, i) = ((#[trigger] list[k]).0, list[k].1);
                    &&& 0 <= t < vtx.len()
                    &&& 0 <= i < vtx[t].actions@.len()
                    &&& orchard_compact_parts(vtx[t].actions@[i]) is Some
                    &&& list[k] == (t, i, orchard_compact_parts(vtx[t].actions@[i])->0)
                }
            &&& forall|k: int, m: int|
                0 <= k < m < list.len() ==> (#[trigger] list[k]).0 < (#[trigger] list[m]).0 || (
                list[k].0 == list[m].0 && list[k].1 < list[m].1)
            &&& forall|t: int, i: int|
                0 <= t < vtx.len() && 0 <= i < vtx[t].actions@.len() && orchard_compact_parts(
                    #[trigger] vtx[t].actions@[i],
                ) is Some ==> list.contains((t, i, orchard_compact_parts(vtx[t].actions@[i])->0))
        }),
    decreases vtx.len(),
{
    if vtx.len() > 0 {
        let init = vtx.drop_last();
        let last = vtx.len() - 1;
        let tx = vtx[last];
        law_orchard_actions_of_a_block_are_tried_in_order(init);
        let list = block_actions(vtx);
        let before = block_actions(init);
        let all = Seq::new(
            tx.actions@.len(),
            |i: int|
            match orchard_compact_parts(tx.actions@[i]) {
                Some(parts) => Some((last, i, parts)),
                None => None,
            },
        );
        let more = tx_actions(last, tx.actions@, tx.actions@.len());
        assert(more == collect_some(all));
        assert(list == before + more);
        let index = |e: (int, int, ActionParts)| e.1;
        lemma_collect_indexed(all, index);
        assert(vtx.take(last) =~= init);
        assert forall|t: int| 0 <= t < last implies (#[trigger] vtx[t]) == init[t] && vtx.take(t)
            == init.take(t) by {
            assert(vtx.take(t) =~= init.take(t));
        }
        assert forall|k: int| 0 <= k < list.len() implies {
            let (t, i) = ((#[trigger] list[k]).0, list[k].1);
            &&& 0 <= t < vtx.len()
            &&& 0 <= i < vtx[t].actions@.len()
            &&& orchard_compact_parts(vtx[t].actions@[i]) is Some
            &&& list[k] == (t, i, orchard_compact_parts(vtx[t].actions@[i])->0)
        } by {
            if k < before.len() {
                assert(list[k] == before[k]);
                let t = before[k].0;
                assert(vtx[t] == init[t]);
                assert(vtx.take(t) == init.take(t));
            } else {
                let m = k - before.len();
                assert(list[k] == more[m]);
                assert(index(more[m]) == more[m].1);
                assert(all[more[m].1] == Some(more[m]));
            }
        }
        assert forall|k: int, m: int| 0 <= k < m < list.len() implies (#[trigger] list[k]).0 < (
        #[trigger] list[m]).0 || (list[k].0 == list[m].0 && list[k].1 < list[m].1) by {
            if m < before.len() {
                assert(list[k] == before[k] && list[m] == before[m]);
            } else {
                let n = m - before.len();
                assert(list[m] == more[n]);
                assert(index(more[n]) == more[n].1);
                assert(all[more[n].1] == Some(more[n]));
                if k < before.len() {
                    assert(list[k] == before[k]);
                } else {
                    let j = k - before.len();
                    assert(list[k] == more[j]);
                    assert(index(more[j]) < index(more[n]));
                    assert(all[more[j].1] == Some(more[j]));
                }
            }
        }
        assert forall|t: int, i: int|
            0 <= t < vtx.len() && 0 <= i < vtx[t].actions@.len() && orchard_compact_parts(
                #[trigger] vtx[t].actions@[i],
            ) is Some implies list.contains((t, i, orchard_compact_parts(vtx[t].actions@[i])->0)) by {
            if t < last {
                assert(vtx[t] == init[t]);
                assert(vtx.take(t) == init.take(t));
                let e = (t, i, orchard_compact_parts(vtx[t].actions@[i])->0);
                assert(orchard_compact_parts(init[t].actions@[i]) is Some);
                assert(before.contains(e));
                let k = choose|k: int| 0 <= k < before.len() && before[k] == e;
                assert(list[k] == e);
            } else {
                assert(all[i] is Some);
                let k = choose|k: int| 0 <= k < more.len() && more[k] == all[i]->0;
                assert(list[before.len() + k] == all[i]->0);
            }
        }
    }
}

/// The Sapling outputs of a block that are tried are exactly those that are well formed, in the order
/// of the block, each at its position.
pub proof fn law_sapling_outputs_of_a_block_are_tried_in_order(vtx: Seq<CompactTx>, start: nat)
    ensures
        ({
            let list = block_outputs(vtx, start);
            &&& forall|k: int|
                0 <= k < list.len() ==> {
                    let (t, i) = ((#[trigger] list[k]).0, list[k].1);
                    &&& 0 <= t < vtx.len()
                    &&& 0 <= i < vtx[t].outputs@.len()
                    &&& sapling_compact_parts(vtx[t].outputs@[i]) is Some
                    &&& list[k] == (t, i, (start + sapling_count(vtx.take(t)) + i) as nat, sapling_compact_parts(vtx[t].outputs@[i])->0)
                }
            &&& forall|k: int, m: int|
                0 <= k < m < list.len() ==> (#[trigger] list[k]).0 < (#[trigger] list[m]).0 || (
                list[k].0 == list[m].0 && list[k].1 < list[m].1)
            &&& forall|t: int, i: int|
                0 <= t < vtx.len() && 0 <= i < vtx[t].outputs@.len() && sapling_compact_parts(
                    #[trigger] vtx[t].outputs@[i],
                ) is Some ==> list.contains((t, i, (start + sapling_count(vtx.take(t)) + i) as nat, sapling_compact_parts(vtx[t].outputs@[i])->0))
        }),
    decreases vtx.len(),
{
    if vtx.len() > 0 {
        let init = vtx.drop_last();
        let last = vtx.len() - 1;
        let tx = vtx[last];
        law_sapling_outputs_of_a_block_are_tried_in_order(init, start);
        let list = block_outputs(vtx, start);
        let before = block_outputs(init, start);
        let all = Seq::new(
            tx.outputs@.len(),
            |i: int|
            match sapling_compact_parts(tx.outputs@[i]) {
                Some(parts) => Some((last, i, (start + sapling_count(init) + i) as nat, parts)),
                None => None,
            },
        );
        let more = tx_outputs(last, tx.outputs@, start + sapling_count(init), tx.outputs@.len());
        assert(more == collect_some(all));
        assert(list == before + more);
        let index = |e: (int, int, nat, CompactParts)| e.1;
        lemma_collect_indexed(all, index);
        assert(vtx.take(last) =~= init);
        assert forall|t: int| 0 <= t < last implies (#[trigger] vtx[t]) == init[t] && vtx.take(t)
            == init.take(t) by {
            assert(vtx.take(t) =~= init.take(t));
        }
        assert forall|k: int| 0 <= k < list.len() implies {
            let (t, i) = ((#[trigger] list[k]).0, list[k].1);
            &&& 0 <= t < vtx.len()
            &&& 0 <= i < vtx[t].outputs@.len()
            &&& sapling_compact_parts(vtx[t].outputs@[i]) is Some
            &&& list[k] == (t, i, (start + sapling_count(vtx.take(t)) + i) as nat, sapling_compact_parts(vtx[t].outputs@[i])->0)
        } by {
            if k < before.len() {
                assert(list[k] == before[k]);
                let t = before[k].0;
                assert(vtx[t] == init[t]);
                assert(vtx.take(t) == init.take(t));
            } else {
                let m = k - before.len();
                assert(list[k] == more[m]);
                assert(index(more[m]) == more[m].1);
                assert(all[more[m].1] == Some(more[m]));
            }
        }
        assert forall|k: int, m: int| 0 <= k < m < list.len() implies (#[trigger] list[k]).0 < (
        #[trigger] list[m]).0 || (list[k].0 == list[m].0 && list[k].1 < list[m].1) by {
            if m < before.len() {
                assert(list[k] == before[k] && list[m] == before[m]);
            } else {
                let n = m - before.len();
                assert(list[m] == more[n]);
                assert(index(more[n]) == more[n].1);
                assert(all[more[n].1] == Some(more[n]));
                if k < before.len() {
                    assert(list[k] == before[k]);
                } else {
                    let j = k - before.len();
                    assert(list[k] == more[j]);
                    assert(index(more[j]) < index(more[n]));
                    assert(all[more[j].1] == Some(more[j]));
                }
            }
        }
        assert forall|t: int, i: int|
            0 <= t < vtx.len() && 0 <= i < vtx[t].outputs@.len() && sapling_compact_parts(
                #[trigger] vtx[t].outputs@[i],
            ) is Some implies list.contains((t, i, (start + sapling_count(vtx.take(t)) + i) as nat, sapling_compact_parts(vtx[t].outputs@[i])->0)) by {
            if t < last {
                assert(vtx[t] == init[t]);
                assert(vtx.take(t) == init.take(t));
                let e = (t, i, (start + sapling_count(vtx.take(t)) + i) as nat, sapling_compact_parts(vtx[t].outputs@[i])->0);
                assert(sapling_compact_parts(init[t].outputs@[i]) is Some);
                assert(before.contains(e));
                let k = choose|k: int| 0 <= k < before.len() && before[k] == e;
                assert(list[k] == e);
            } else {
                assert(all[i] is Some);
                let k = choose|k: int| 0 <= k < more.len() && more[k] == all[i]->0;
                assert(list[before.len() + k] == all[i]->0);
            }
        }
    }
}

/// A block tells exactly the Orchard notes that the key can see among its well-formed actions,
/// in order, each with the id of its transaction, its index, its value, recipient and
/// randomness, and its nullifier where a full key is at hand: `at` holds the actions.
pub proof fn law_orchard_notes_of_a_block_are_told(
    block: CompactBlock,
    ivk: Seq<u8>,
    fvk: Option<Seq<u8>>,
) -> (at: Seq<int>)
    ensures
        orchard_block_notes(block, None, fvk).len() == 0,
        ({
            let list = block_actions(block.vtx@);
            let got = orchard_block_notes(block, Some(ivk), fvk);
            let seen = |k: int| orchard_compact_note(ivk, list[k].2) is Some;
            &&& at.len() == got.len()
            &&& forall|k: int, m: int| 0 <= k < m < at.len() ==> #[trigger] at[k] < #[trigger] at[m]
            &&& forall|k: int| 0 <= k < list.len() && #[trigger] seen(k) ==> at.contains(k)
            &&& forall|k: int|
                0 <= k < at.len() ==> 0 <= #[trigger] at[k] < list.len() && seen(at[k]) && {
                    let e = list[at[k]];
                    let note = orchard_compact_note(ivk, e.2)->0;
                    got[k] == (IncomingNoteView {
                        height: block.height as u32,
                        tx_id: txid_of(block.vtx@[e.0].txid@),
                        output_index: e.1 as usize,
                        pool: ShieldedPool::Orchard,
                        value_zat: note.value,
                        recipient: Recipient::Orchard(note.recipient),
                        rseed: note.rseed,
                        rho: Some(array32(e.2.nullifier)),
                        sapling_leaf_pos: None,
                        nullifier: match fvk {
                            Some(key) => Some(orchard_nullifier_of(key, note)),
                            None => None,
                        },
                    })
                }
        }),
{
    let list = block_actions(block.vtx@);
    let all = list.map_values(
        |e: (int, int, ActionParts)|
            orchard_incoming(block.height as u32, block.vtx@, ivk, fvk, e),
    );
    let seen = |k: int| orchard_compact_note(ivk, list[k].2) is Some;
    lemma_collect_picks(all);
    let at = choose|at: Seq<int>| #[trigger] picks(collect_some(all), all, at);
    assert forall|k: int| 0 <= k < list.len() && #[trigger] seen(k) implies at.contains(k) by {
        assert(all[k] is Some);
    }
    at
}

/// A block tells exactly the Sapling notes that the key can see among its well-formed outputs,
/// in order, each with the id of its transaction, its index, its value, recipient and
/// randomness, its leaf position where positions are told, and its nullifier where a full key
/// is at hand: `at` holds the outputs.
pub proof fn law_sapling_notes_of_a_block_are_told(
    block: CompactBlock,
    ivk: Seq<u8>,
    nk: Option<(Seq<u8>, Scope)>,
    placed: bool,
    start: nat,
) -> (at: Seq<int>)
    ensures
        sapling_block_notes(block, None, nk, placed, start).len() == 0,
        ({
            let list = block_outputs(block.vtx@, start);
            let got = sapling_block_notes(block, Some(ivk), nk, placed, start);
            let seen = |k: int|
                sapling_compact_note(ivk, Zip212Enforcement::On, list[k].3) is Some;
            &&& at.len() == got.len()
            &&& forall|k: int, m: int| 0 <= k < m < at.len() ==> #[trigger] at[k] < #[trigger] at[m]
            &&& forall|k: int| 0 <= k < list.len() && #[trigger] seen(k) ==> at.contains(k)
            &&& forall|k: int|
                0 <= k < at.len() ==> 0 <= #[trigger] at[k] < list.len() && seen(at[k]) && {
                    let e = list[at[k]];
                    let note = sapling_compact_note(ivk, Zip212Enforcement::On, e.3)->0;
                    got[k] == (IncomingNoteView {
                        height: block.height as u32,
                        tx_id: txid_of(block.vtx@[e.0].txid@),
                        output_index: e.1 as usize,
                        pool: ShieldedPool::Sapling,
                        value_zat: note.value,
                        recipient: Recipient::Sapling(note.recipient),
                        rseed: match note.rseed {
                            Rseed::BeforeZip212(rcm) => rcm,
                            Rseed::AfterZip212(seed) => seed,
                        },
                        rho: None,
                        sapling_leaf_pos: if placed {
                            Some(e.2 as u64)
                        } else {
                            None
                        },
                        nullifier: match nk {
                            Some(key) => Some(sapling_nullifier_of(key, note, e.2 as u64)),
                            None => None,
                        },
                    })
                }
        }),
{
    let list = block_outputs(block.vtx@, start);
    let all = list.map_values(
        |e: (int, int, nat, CompactParts)|
            sapling_incoming(block.height as u32, block.vtx@, ivk, nk, placed, e),
    );
    let seen = |k: int| sapling_compact_note(ivk, Zip212Enforcement::On, list[k].3) is Some;
    lemma_collect_picks(all);
    let at = choose|at: Seq<int>| #[trigger] picks(collect_some(all), all, at);
    assert forall|k: int| 0 <= k < list.len() && #[trigger] seen(k) implies at.contains(k) by {
        assert(all[k] is Some);
    }
    at
}

/// An id of 32 bytes is told as it is, and any other as zeros.
pub proof fn law_transaction_id_is_told(raw: Seq<u8>)
    ensures
        raw.len() == 32 ==> txid_of(raw) == array32(raw),
        raw.len() != 32 ==> txid_of(raw) == array32(Seq::new(32, |i: int| 0u8)),
{
}

/// Blocks are scanned in turn, Orchard before Sapling in each. With a full key the positions of
/// Sapling notes go on from block to block; with an incoming key no position and no nullifier
/// is told.
pub proof fn law_blocks_tell_their_notes_in_turn(
    keys: FvkView,
    orchard: Option<Seq<u8>>,
    sapling: Option<Seq<u8>>,
    blocks: Seq<CompactBlock>,
    block: CompactBlock,
    start: nat,
)
    ensures
        total_sapling(Seq::<CompactBlock>::empty()) == 0,
        total_sapling(blocks.push(block)) == total_sapling(blocks) + sapling_count(block.vtx@),
        fvk_notes(keys, Seq::<CompactBlock>::empty(), start).len() == 0,
        fvk_notes(keys, blocks.push(block), start) == fvk_notes(keys, blocks, start)
            + orchard_block_notes(block, keys.orchard_ivk, keys.orchard_fvk) + sapling_block_notes(
            block,
            keys.sapling_ivk,
            keys.sapling_nk,
            true,
            start + total_sapling(blocks),
        ),
        ivk_notes(orchard, sapling, Seq::<CompactBlock>::empty()).len() == 0,
        ivk_notes(orchard, sapling, blocks.push(block)) == ivk_notes(orchard, sapling, blocks)
            + orchard_block_notes(block, orchard, None) + sapling_block_notes(
            block,
            sapling,
            None,
            false,
            0,
        ),
{
    assert(blocks.push(block).drop_last() =~= blocks);
    assert(ivk_notes(orchard, sapling, blocks.push(block)) =~= ivk_notes(orchard, sapling, blocks)
        + orchard_block_notes(block, orchard, None) + sapling_block_notes(
        block,
        sapling,
        None,
        false,
        0,
    ));
}

/// A scan uses every key that it is given: each pool's incoming key, and the full keys for
/// nullifiers, those of the external scope.
pub proof fn law_scan_uses_every_key(full: FvkKeys, incoming: IvkKeys)
    ensures
        fvk_view(full).orchard_ivk is Some == full.orchard_ivk is Some,
        full.orchard_ivk matches Some(k) ==> fvk_view(full).orchard_ivk == Some(k@),
        fvk_view(full).sapling_ivk is Some == full.sapling_ivk is Some,
        full.sapling_ivk matches Some(k) ==> fvk_view(full).sapling_ivk == Some(k@),
        fvk_view(full).orchard_fvk is Some == full.orchard_fvk is Some,
        full.orchard_fvk matches Some(k) ==> fvk_view(full).orchard_fvk == Some(k@),
        fvk_view(full).sapling_nk is Some == full.sapling_dfvk is Some,
        full.sapling_dfvk matches Some(k) ==> fvk_view(full).sapling_nk == Some(
            (k@, Scope::External),
        ),
        orchard_key(incoming) is Some == incoming.orchard is Some,
        incoming.orchard matches Some(k) ==> orchard_key(incoming) == Some(k@),
        sapling_key(incoming) is Some == incoming.sapling is Some,
        incoming.sapling matches Some(k) ==> sapling_key(incoming) == Some(k@),
{
}

/// Blocks reveal exactly the nullifiers of 32 bytes of their Orchard actions, each at its block's
/// height.
pub proof fn law_orchard_nullifiers_are_revealed(
    blocks: Seq<CompactBlock>,
    nullifier: [u8; 32],
    height: u32,
)
    ensures
        orchard_reveals_in_blocks(blocks).contains((nullifier, height)) <==> exists|b: int, t: int, i: int|
            #![trigger blocks[b].vtx@[t].actions@[i]]
            0 <= b < blocks.len() && 0 <= t < blocks[b].vtx@.len() && 0 <= i
                < blocks[b].vtx@[t].actions@.len() && blocks[b].vtx@[t].actions@[i].nullifier@.len() == 32
                && array32(blocks[b].vtx@[t].actions@[i].nullifier@) == nullifier && blocks[b].height as u32
                == height,
    decreases blocks.len(),
{
    if blocks.len() > 0 {
        let init = blocks.drop_last();
        let last = blocks.len() - 1;
        let block = blocks[last];
        let h = block.height as u32;
        let x = (nullifier, height);
        law_orchard_nullifiers_are_revealed(init, nullifier, height);
        lemma_orchard_reveals_in_txs(block.vtx@, h, nullifier, height);
        crate::seqs::lemma_joined_contains(
            orchard_reveals_in_blocks(init),
            orchard_reveals_in_txs(block.vtx@, h),
            x,
        );
        if orchard_reveals_in_blocks(init).contains(x) {
            let (b, t, i) = choose|b: int, t: int, i: int|
                #![trigger init[b].vtx@[t].actions@[i]]
                0 <= b < init.len() && 0 <= t < init[b].vtx@.len() && 0 <= i
                    < init[b].vtx@[t].actions@.len() && init[b].vtx@[t].actions@[i].nullifier@.len() == 32
                    && array32(init[b].vtx@[t].actions@[i].nullifier@) == nullifier && init[b].height as u32
                    == height;
            assert(blocks[b] == init[b]);
            assert(blocks[b].vtx@[t].actions@[i].nullifier@.len() == 32);
        }
        if orchard_reveals_in_txs(block.vtx@, h).contains(x) {
            let (t, i) = choose|t: int, i: int|
                #![trigger block.vtx@[t].actions@[i]]
                0 <= t < block.vtx@.len() && 0 <= i < block.vtx@[t].actions@.len()
                    && block.vtx@[t].actions@[i].nullifier@.len() == 32 && array32(
                    block.vtx@[t].actions@[i].nullifier@,
                ) == nullifier && h == height;
            assert(blocks[last].vtx@[t].actions@[i].nullifier@.len() == 32);
        }
        if exists|b: int, t: int, i: int|
            #![trigger blocks[b].vtx@[t].actions@[i]]
            0 <= b < blocks.len() && 0 <= t < blocks[b].vtx@.len() && 0 <= i
                < blocks[b].vtx@[t].actions@.len() && blocks[b].vtx@[t].actions@[i].nullifier@.len() == 32
                && array32(blocks[b].vtx@[t].actions@[i].nullifier@) == nullifier && blocks[b].height as u32
                == height {
            let (b, t, i) = choose|b: int, t: int, i: int|
                #![trigger blocks[b].vtx@[t].actions@[i]]
                0 <= b < blocks.len() && 0 <= t < blocks[b].vtx@.len() && 0 <= i
                    < blocks[b].vtx@[t].actions@.len() && blocks[b].vtx@[t].actions@[i].nullifier@.len() == 32
                    && array32(blocks[b].vtx@[t].actions@[i].nullifier@) == nullifier
                    && blocks[b].height as u32 == height;
            if b < last {
                assert(init[b].vtx@[t].actions@[i].nullifier@.len() == 32);
            } else {
                assert(block.vtx@[t].actions@[i].nullifier@.len() == 32);
            }
        }
    }
}

/// Transactions of a block reveal exactly the nullifiers of 32 bytes of their actions.
proof fn lemma_orchard_reveals_in_txs(vtx: Seq<CompactTx>, h: u32, nullifier: [u8; 32], height: u32)
    ensures
        orchard_reveals_in_txs(vtx, h).contains((nullifier, height)) <==> exists|t: int, i: int|
            #![trigger vtx[t].actions@[i]]
            0 <= t < vtx.len() && 0 <= i < vtx[t].actions@.len() && vtx[t].actions@[i].nullifier@.len() == 32
                && array32(vtx[t].actions@[i].nullifier@) == nullifier && h == height,
    decreases vtx.len(),
{
    if vtx.len() > 0 {
        let init = vtx.drop_last();
        let last = vtx.len() - 1;
        let tx = vtx[last];
        let x = (nullifier, height);
        let all = Seq::new(tx.actions@.len(), |i: int| orchard_reveals_at(tx, h, i));
        lemma_orchard_reveals_in_txs(init, h, nullifier, height);
        crate::seqs::lemma_joined_contains(
            orchard_reveals_in_txs(init, h),
            orchard_reveals_in_tx(tx, h),
            x,
        );
        assert(orchard_reveals_in_tx(tx, h) == collect_some(all));
        if orchard_reveals_in_txs(init, h).contains(x) {
            let (t, i) = choose|t: int, i: int|
                #![trigger init[t].actions@[i]]
                0 <= t < init.len() && 0 <= i < init[t].actions@.len() && init[t].actions@[i].nullifier@.len()
                    == 32 && array32(init[t].actions@[i].nullifier@) == nullifier && h == height;
            assert(vtx[t].actions@[i].nullifier@.len() == 32);
        }
        if collect_some(all).contains(x) {
            let k = choose|k: int| 0 <= k < collect_some(all).len() && collect_some(all)[k] == x;
            lemma_collect_from(all, k);
            let i = choose|i: int|
                0 <= i < all.len() && #[trigger] all[i] == Some(collect_some(all)[k]);
            assert(vtx[last].actions@[i].nullifier@.len() == 32);
        }
        if exists|t: int, i: int|
            #![trigger vtx[t].actions@[i]]
            0 <= t < vtx.len() && 0 <= i < vtx[t].actions@.len() && vtx[t].actions@[i].nullifier@.len() == 32
                && array32(vtx[t].actions@[i].nullifier@) == nullifier && h == height {
            let (t, i) = choose|t: int, i: int|
                #![trigger vtx[t].actions@[i]]
                0 <= t < vtx.len() && 0 <= i < vtx[t].actions@.len() && vtx[t].actions@[i].nullifier@.len()
                    == 32 && array32(vtx[t].actions@[i].nullifier@) == nullifier && h == height;
            if t < last {
                assert(init[t].actions@[i].nullifier@.len() == 32);
            } else {
                assert(all[i] == Some(x));
                lemma_collect_has(all, i);
            }
        }
    }
}

/// Blocks reveal exactly the nullifiers of 32 bytes of their Sapling spends, each at its block's
/// height.
pub proof fn law_sapling_nullifiers_are_revealed(
    blocks: Seq<CompactBlock>,
    nullifier: [u8; 32],
    height: u32,
)
    ensures
        sapling_reveals_in_blocks(blocks).contains((nullifier, height)) <==> exists|b: int, t: int, i: int|
            #![trigger blocks[b].vtx@[t].spends@[i]]
            0 <= b < blocks.len() && 0 <= t < blocks[b].vtx@.len() && 0 <= i
                < blocks[b].vtx@[t].spends@.len() && blocks[b].vtx@[t].spends@[i].nf@.len() == 32
                && array32(blocks[b].vtx@[t].spends@[i].nf@) == nullifier && blocks[b].height as u32
                == height,
    decreases blocks.len(),
{
    if blocks.len() > 0 {
        let init = blocks.drop_last();
        let last = blocks.len() - 1;
        let block = blocks[last];
        let h = block.height as u32;
        let x = (nullifier, height);
        law_sapling_nullifiers_are_revealed(init, nullifier, height);
        lemma_sapling_reveals_in_txs(block.vtx@, h, nullifier, height);
        crate::seqs::lemma_joined_contains(
            sapling_reveals_in_blocks(init),
            sapling_reveals_in_txs(block.vtx@, h),
            x,
        );
        if sapling_reveals_in_blocks(init).contains(x) {
            let (b, t, i) = choose|b: int, t: int, i: int|
                #![trigger init[b].vtx@[t].spends@[i]]
                0 <= b < init.len() && 0 <= t < init[b].vtx@.len() && 0 <= i
                    < init[b].vtx@[t].spends@.len() && init[b].vtx@[t].spends@[i].nf@.len() == 32
                    && array32(init[b].vtx@[t].spends@[i].nf@) == nullifier && init[b].height as u32
                    == height;
            assert(blocks[b] == init[b]);
            assert(blocks[b].vtx@[t].spends@[i].nf@.len() == 32);
        }
        if sapling_reveals_in_txs(block.vtx@, h).contains(x) {
            let (t, i) = choose|t: int, i: int|
                #![trigger block.vtx@[t].spends@[i]]
                0 <= t < block.vtx@.len() && 0 <= i < block.vtx@[t].spends@.len()
                    && block.vtx@[t].spends@[i].nf@.len() == 32 && array32(
                    block.vtx@[t].spends@[i].nf@,
                ) == nullifier && h == height;
            assert(blocks[last].vtx@[t].spends@[i].nf@.len() == 32);
        }
        if exists|b: int, t: int, i: int|
            #![trigger blocks[b].vtx@[t].spends@[i]]
            0 <= b < blocks.len() && 0 <= t < blocks[b].vtx@.len() && 0 <= i
                < blocks[b].vtx@[t].spends@.len() && blocks[b].vtx@[t].spends@[i].nf@.len() == 32
                && array32(blocks[b].vtx@[t].spends@[i].nf@) == nullifier && blocks[b].height as u32
                == height {
            let (b, t, i) = choose|b: int, t: int, i: int|
                #![trigger blocks[b].vtx@[t].spends@[i]]
                0 <= b < blocks.len() && 0 <= t < blocks[b].vtx@.len() && 0 <= i
                    < blocks[b].vtx@[t].spends@.len() && blocks[b].vtx@[t].spends@[i].nf@.len() == 32
                    && array32(blocks[b].vtx@[t].spends@[i].nf@) == nullifier
                    && blocks[b].height as u32 == height;
            if b < last {
                assert(init[b].vtx@[t].spends@[i].nf@.len() == 32);
            } else {
                assert(block.vtx@[t].spends@[i].nf@.len() == 32);
            }
        }
    }
}

/// Transactions of a block reveal exactly the nullifiers of 32 bytes of their spends.
proof fn lemma_sapling_reveals_in_txs(vtx: Seq<CompactTx>, h: u32, nullifier: [u8; 32], height: u32)
    ensures
        sapling_reveals_in_txs(vtx, h).contains((nullifier, height)) <==> exists|t: int, i: int|
            #![trigger vtx[t].spends@[i]]
            0 <= t < vtx.len() && 0 <= i < vtx[t].spends@.len() && vtx[t].spends@[i].nf@.len() == 32
                && array32(vtx[t].spends@[i].nf@) == nullifier && h == height,
    decreases vtx.len(),
{
    if vtx.len() > 0 {
        let init = vtx.drop_last();
        let last = vtx.len() - 1;
        let tx = vtx[last];
        let x = (nullifier, height);
        let all = Seq::new(tx.spends@.len(), |i: int| sapling_reveals_at(tx, h, i));
        lemma_sapling_reveals_in_txs(init, h, nullifier, height);
        crate::seqs::lemma_joined_contains(
            sapling_reveals_in_txs(init, h),
            sapling_reveals_in_tx(tx, h),
            x,
        );
        assert(sapling_reveals_in_tx(tx, h) == collect_some(all));
        if sapling_reveals_in_txs(init, h).contains(x) {
            let (t, i) = choose|t: int, i: int|
                #![trigger init[t].spends@[i]]
                0 <= t < init.len() && 0 <= i < init[t].spends@.len() && init[t].spends@[i].nf@.len()
                    == 32 && array32(init[t].spends@[i].nf@) == nullifier && h == height;
            assert(vtx[t].spends@[i].nf@.len() == 32);
        }
        if collect_some(all).contains(x) {
            let k = choose|k: int| 0 <= k < collect_some(all).len() && collect_some(all)[k] == x;
            lemma_collect_from(all, k);
            let i = choose|i: int|
                0 <= i < all.len() && #[trigger] all[i] == Some(collect_some(all)[k]);
            assert(vtx[last].spends@[i].nf@.len() == 32);
        }
        if exists|t: int, i: int|
            #![trigger vtx[t].spends@[i]]
            0 <= t < vtx.len() && 0 <= i < vtx[t].spends@.len() && vtx[t].spends@[i].nf@.len() == 32
                && array32(vtx[t].spends@[i].nf@) == nullifier && h == height {
            let (t, i) = choose|t: int, i: int|
                #![trigger vtx[t].spends@[i]]
                0 <= t < vtx.len() && 0 <= i < vtx[t].spends@.len() && vtx[t].spends@[i].nf@.len()
                    == 32 && array32(vtx[t].spends@[i].nf@) == nullifier && h == height;
            if t < last {
                assert(init[t].spends@[i].nf@.len() == 32);
            } else {
                assert(all[i] == Some(x));
                lemma_collect_has(all, i);
            }
        }
    }
}

/// Nullifiers are revealed in the order of the chain: block by block and transaction by
/// transaction.
pub proof fn law_nullifiers_are_revealed_in_order(
    blocks: Seq<CompactBlock>,
    block: CompactBlock,
    vtx: Seq<CompactTx>,
    tx: CompactTx,
    height: u32,
)
    ensures
        orchard_reveals_in_blocks(blocks.push(block)) == orchard_reveals_in_blocks(blocks)
            + orchard_reveals_in_txs(block.vtx@, block.height as u32),
        sapling_reveals_in_blocks(blocks.push(block)) == sapling_reveals_in_blocks(blocks)
            + sapling_reveals_in_txs(block.vtx@, block.height as u32),
        orchard_reveals_in_txs(vtx.push(tx), height) == orchard_reveals_in_txs(vtx, height)
            + orchard_reveals_in_tx(tx, height),
        sapling_reveals_in_txs(vtx.push(tx), height) == sapling_reveals_in_txs(vtx, height)
            + sapling_reveals_in_tx(tx, height),
        orchard_reveals_in_tx(tx, height).len() <= tx.actions@.len(),
        sapling_reveals_in_tx(tx, height).len() <= tx.spends@.len(),
{
    assert(blocks.push(block).drop_last() =~= blocks);
    assert(vtx.push(tx).drop_last() =~= vtx);
    crate::seqs::lemma_collect_short(
        Seq::new(tx.actions@.len(), |i: int| orchard_reveals_at(tx, height, i)),
    );
    crate::seqs::lemma_collect_short(
        Seq::new(tx.spends@.len(), |i: int| sapling_reveals_at(tx, height, i)),
    );
}

/// A scan tells the notes first, all of them and in order, and then exactly the nullifiers that
/// the blocks reveal and that are known or those of the notes, in the order in which Orchard
/// actions and then Sapling spends reveal them: `at` holds which.
pub proof fn law_events_are_notes_and_then_spends(
    keys: FvkView,
    blocks: Seq<CompactBlock>,
    start: nat,
    known: Seq<[u8; 32]>,
) -> (at: Seq<int>)
    ensures
        ({
            let events = fvk_events(keys, blocks, start, known);
            let notes = fvk_notes(keys, blocks, start);
            let n = notes.len() as int;
            let revealed = orchard_reveals_in_blocks(blocks) + sapling_reveals_in_blocks(blocks);
            let ours = |k: int|
                known.contains(revealed[k].0) || note_nullifiers(notes).contains(revealed[k].0);
            &&& events.len() == n + at.len()
            &&& forall|k: int| 0 <= k < n ==> #[trigger] events[k] == ScanEvent::Incoming(notes[k])
            &&& forall|k: int, m: int| 0 <= k < m < at.len() ==> #[trigger] at[k] < #[trigger] at[m]
            &&& forall|k: int|
                0 <= k < at.len() ==> 0 <= #[trigger] at[k] < revealed.len() && ours(at[k])
                    && events[n + k] == (ScanEvent::Spent {
                    nullifier: revealed[at[k]].0,
                    height: revealed[at[k]].1,
                })
            &&& forall|k: int| 0 <= k < revealed.len() && #[trigger] ours(k) ==> at.contains(k)
        }),
{
    let notes = fvk_notes(keys, blocks, start);
    let watched = known + note_nullifiers(notes);
    let revealed = orchard_reveals_in_blocks(blocks) + sapling_reveals_in_blocks(blocks);
    let all = revealed.map_values(|r: ([u8; 32], u32)| spent_event(watched, r));
    let ours = |k: int|
        known.contains(revealed[k].0) || note_nullifiers(notes).contains(revealed[k].0);
    lemma_collect_picks(all);
    let at = choose|at: Seq<int>| #[trigger] picks(collect_some(all), all, at);
    assert forall|k: int| 0 <= k < revealed.len() implies (#[trigger] ours(k)) == all[k] is Some by {
        crate::seqs::lemma_joined_contains(known, note_nullifiers(notes), revealed[k].0);
    }
    assert forall|k: int| 0 <= k < at.len() implies 0 <= #[trigger] at[k] < revealed.len() && ours(
        at[k],
    ) by {
        assert(all[at[k]] is Some);
        assert(ours(at[k]) == all[at[k]] is Some);
    }
    at
}

/// A nullifier is that of some notes exactly where one of them has it.
pub proof fn law_nullifiers_of_notes(notes: Seq<IncomingNoteView>, nf: [u8; 32])
    ensures
        note_nullifiers(notes).contains(nf) <==> exists|i: int|
            0 <= i < notes.len() && (#[trigger] notes[i]).nullifier == Some(nf),
{
    let all = notes.map_values(|n: IncomingNoteView| n.nullifier);
    if exists|i: int| 0 <= i < notes.len() && (#[trigger] notes[i]).nullifier == Some(nf) {
        let i = choose|i: int| 0 <= i < notes.len() && (#[trigger] notes[i]).nullifier == Some(nf);
        assert(all[i] == Some(nf));
        lemma_collect_has(all, i);
    }
    if note_nullifiers(notes).contains(nf) {
        let k = choose|k: int| 0 <= k < collect_some(all).len() && collect_some(all)[k] == nf;
        lemma_collect_from(all, k);
        let j = choose|j: int| 0 <= j < all.len() && #[trigger] all[j] == Some(collect_some(all)[k]);
        assert(notes[j].nullifier == Some(nf));
    }
}

/// Every transparent output of every transaction is told, in order, whatever its value.
pub proof fn law_every_transparent_output_is_told(
    blocks: Seq<CompactBlock>,
    block: CompactBlock,
    vtx: Seq<CompactTx>,
    tx: CompactTx,
    height: u32,
)
    ensures
        paid_in_blocks(Seq::<CompactBlock>::empty()).len() == 0,
        paid_in_blocks(blocks.push(block)) == paid_in_blocks(blocks) + paid_in_txs(
            block.vtx@,
            block.height as u32,
        ),
        paid_in_txs(Seq::<CompactTx>::empty(), height).len() == 0,
        paid_in_txs(vtx.push(tx), height) == paid_in_txs(vtx, height) + paid_in_tx(tx, height),
        paid_in_tx(tx, height).len() == tx.vout@.len(),
        forall|i: int|
            0 <= i < tx.vout@.len() ==> #[trigger] paid_in_tx(tx, height)[i] == (ReceivedView {
                height,
                tx_id: txid_of(tx.txid@),
                output_index: i as u32,
                value_zat: tx.vout@[i].value,
                script: tx.vout@[i].script_pub_key@,
            }),
{
    assert(blocks.push(block).drop_last() =~= blocks);
    assert(vtx.push(tx).drop_last() =~= vtx);
}

/// Every transparent input that names an output by an id of 32 bytes is told, in order: `at`
/// holds which of a transaction's inputs do.
pub proof fn law_every_transparent_input_is_told(
    blocks: Seq<CompactBlock>,
    block: CompactBlock,
    vtx: Seq<CompactTx>,
    tx: CompactTx,
    height: u32,
) -> (at: Seq<int>)
    ensures
        consumed_in_blocks(Seq::<CompactBlock>::empty()).len() == 0,
        consumed_in_blocks(blocks.push(block)) == consumed_in_blocks(blocks) + consumed_in_txs(
            block.vtx@,
            block.height as u32,
        ),
        consumed_in_txs(Seq::<CompactTx>::empty(), height).len() == 0,
        consumed_in_txs(vtx.push(tx), height) == consumed_in_txs(vtx, height) + consumed_in_tx(
            tx,
            height,
        ),
        ({
            let got = consumed_in_tx(tx, height);
            &&& at.len() == got.len()
            &&& forall|k: int, m: int| 0 <= k < m < at.len() ==> #[trigger] at[k] < #[trigger] at[m]
            &&& forall|k: int|
                0 <= k < at.len() ==> 0 <= #[trigger] at[k] < tx.vin@.len()
                    && tx.vin@[at[k]].prevout_txid@.len() == 32 && got[k] == (TransparentSpend {
                    height,
                    tx_id: txid_of(tx.txid@),
                    prevout_txid: array32(tx.vin@[at[k]].prevout_txid@),
                    prevout_index: tx.vin@[at[k]].prevout_index,
                })
            &&& forall|i: int|
                0 <= i < tx.vin@.len() && (#[trigger] tx.vin@[i]).prevout_txid@.len() == 32
                    ==> at.contains(i)
        }),
{
    assert(blocks.push(block).drop_last() =~= blocks);
    assert(vtx.push(tx).drop_last() =~= vtx);
    let all = Seq::new(tx.vin@.len(), |i: int| consumed_at(tx, height, i));
    lemma_collect_picks(all);
    let at = choose|at: Seq<int>| #[trigger] picks(collect_some(all), all, at);
    assert forall|i: int|
        0 <= i < tx.vin@.len() && (#[trigger] tx.vin@[i]).prevout_txid@.len() == 32 implies at.contains(
        i,
    ) by {
        assert(all[i] is Some);
    }
    at
}

} // verus!
