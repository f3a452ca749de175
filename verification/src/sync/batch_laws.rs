//! Laws of batches: what is watched from one to the next, what full transactions add, and
//! how a run cuts the chain into batches and walks back at a fork.

use vstd::arithmetic::power2::{
    lemma2_to64, lemma_pow2_strictly_increases, lemma_pow2_unfold, pow2,
};
use vstd::prelude::*;

use crate::bytes::array32;
use crate::primitives::{FullActionParts, Network, OrchardNote, OutPoint};
use crate::proto::CompactBlock;
use crate::seqs::{lemma_collect_from, lemma_collect_has, lemma_joined_contains};
use crate::sync::chain::fork_at;
use crate::sync::decrypt::{
    ironwood_full_found, ironwood_sent_found, orchard_full_found, orchard_sent_found,
    DecryptResult, OrchardScanningKey, SaplingScanningKey,
};
use crate::sync::laws::{
    holds_tx, law_every_ironwood_spend_is_found, law_every_orchard_spend_is_found,
    law_every_sapling_spend_is_found, tx_at,
};
use crate::sync::scan::{
    all_nullifiers_valid, bare_tx, enriched_by, enriched_by_all, nullifiers_valid,
    output_position, scanned_blocks, tx_position, with_memos, with_sent, FullEntry, OrchardOutput,
    WalletOutput, WalletTxView, Watch,
};
use crate::sync::transparent_scan::{drawn_by_all, paid_by_all, with_transparent};
use crate::sync::watch::{
    extended, ironwood_born, orchard_born, outpoints_born, sapling_born, scanned_batch, without,
};
use crate::sync::{
    batch_bounded, doubled, is_placed, on_block_of, rewind_target, total_outputs, RunView,
    StepView, BLOCKS_PER_BATCH, OUTPUTS_PER_BATCH,
};
use crate::upstream::orchard_notes::orchard_nullifier_valid;
use crate::upstream::transactions::{ironwood_actions_of, orchard_actions_of};

verus! {

/// Whether blocks scan, and the error where they do not, does not depend on what is
/// watched for.
pub proof fn law_scan_fails_alike(
    watch: Watch,
    other: Watch,
    network: Network,
    blocks: Seq<CompactBlock>,
    prior: Option<(u32, [u8; 32])>,
)
    ensures
        match (
            scanned_blocks(watch, network, blocks, prior),
            scanned_blocks(other, network, blocks, prior),
        ) {
            (Ok(here), Ok(there)) => here.1 == there.1,
            (Err(here), Err(there)) => here == there,
            _ => false,
        },
    decreases blocks.len(),
{
    if blocks.len() > 0 {
        law_scan_fails_alike(watch, other, network, blocks.drop_last(), prior);
    }
}

/// A note that a batch brings in is found spent where the batch spends it, though nothing
/// watched it before.
pub proof fn law_spend_within_a_batch_is_found(
    watch: Watch,
    network: Network,
    blocks: Seq<CompactBlock>,
    prior: Option<(u32, [u8; 32])>,
    b: int,
    t: int,
    i: int,
)
    requires
        scanned_blocks(watch, network, blocks, prior) is Ok,
        holds_tx(blocks, b, t),
    ensures
        scanned_batch(watch, network, blocks, prior) is Ok,
        ({
            let txs = (scanned_blocks(watch, network, blocks, prior)->Ok_0).0;
            let found = (scanned_batch(watch, network, blocks, prior)->Ok_0).0;
            let tx = blocks[b].vtx@[t];
            let wtx = tx_at(extended(watch, txs), network, blocks, b, t);
            &&& 0 <= i < tx.spends@.len() && tx.spends@[i].nf@.len() == 32 && sapling_born(
                txs,
            ).contains(array32(tx.spends@[i].nf@)) ==> found.contains(wtx) && exists|k: int|
                0 <= k < wtx.sapling_spends.len() && (#[trigger] wtx.sapling_spends[k]).nf
                    == array32(tx.spends@[i].nf@)
            &&& 0 <= i < tx.actions@.len() && tx.actions@[i].nullifier@.len() == 32
                && orchard_nullifier_valid(tx.actions@[i].nullifier@) && orchard_born(txs).contains(
                array32(tx.actions@[i].nullifier@),
            ) ==> found.contains(wtx) && exists|k: int|
                0 <= k < wtx.orchard_spends.len() && (#[trigger] wtx.orchard_spends[k]).nf
                    == array32(tx.actions@[i].nullifier@)
            &&& 0 <= i < tx.ironwood_actions@.len() && tx.ironwood_actions@[i].nullifier@.len()
                == 32 && orchard_nullifier_valid(tx.ironwood_actions@[i].nullifier@)
                && ironwood_born(txs).contains(array32(tx.ironwood_actions@[i].nullifier@))
                ==> found.contains(wtx) && exists|k: int|
                0 <= k < wtx.ironwood_spends.len() && (#[trigger] wtx.ironwood_spends[k]).nf
                    == array32(tx.ironwood_actions@[i].nullifier@)
        }),
{
    let txs = (scanned_blocks(watch, network, blocks, prior)->Ok_0).0;
    let wider = extended(watch, txs);
    law_scan_fails_alike(watch, wider, network, blocks, prior);
    let tx = blocks[b].vtx@[t];
    let wtx = tx_at(wider, network, blocks, b, t);
    if 0 <= i < tx.spends@.len() && tx.spends@[i].nf@.len() == 32 && sapling_born(txs).contains(
        array32(tx.spends@[i].nf@),
    ) {
        let nf = array32(tx.spends@[i].nf@);
        lemma_joined_contains(watch.sapling_nfs, sapling_born(txs), nf);
        law_every_sapling_spend_is_found(wider, network, blocks, prior, b, t, i);
        let spend = crate::sync::scan::sapling_spend_at(
            wider.sapling_nfs,
            tx.spends@[i].nf@,
            i,
        )->0;
        let k = choose|k: int| 0 <= k < wtx.sapling_spends.len() && wtx.sapling_spends[k] == spend;
        assert(wtx.sapling_spends[k].nf == nf);
    }
    if 0 <= i < tx.actions@.len() && tx.actions@[i].nullifier@.len() == 32
        && orchard_nullifier_valid(tx.actions@[i].nullifier@) && orchard_born(txs).contains(
        array32(tx.actions@[i].nullifier@),
    ) {
        let nf = array32(tx.actions@[i].nullifier@);
        lemma_joined_contains(watch.orchard_nfs, orchard_born(txs), nf);
        law_every_orchard_spend_is_found(wider, network, blocks, prior, b, t, i);
        let spend = crate::sync::scan::orchard_spend_at(
            wider.orchard_nfs,
            tx.actions@[i].nullifier@,
            i,
        )->0;
        let k = choose|k: int| 0 <= k < wtx.orchard_spends.len() && wtx.orchard_spends[k] == spend;
        assert(wtx.orchard_spends[k].nf == nf);
    }
    if 0 <= i < tx.ironwood_actions@.len() && tx.ironwood_actions@[i].nullifier@.len() == 32
        && orchard_nullifier_valid(tx.ironwood_actions@[i].nullifier@) && ironwood_born(
        txs,
    ).contains(array32(tx.ironwood_actions@[i].nullifier@)) {
        let nf = array32(tx.ironwood_actions@[i].nullifier@);
        lemma_joined_contains(watch.ironwood_nfs, ironwood_born(txs), nf);
        law_every_ironwood_spend_is_found(wider, network, blocks, prior, b, t, i);
        let spend = crate::sync::scan::orchard_spend_at(
            wider.ironwood_nfs,
            tx.ironwood_actions@[i].nullifier@,
            i,
        )->0;
        let k = choose|k: int|
            0 <= k < wtx.ironwood_spends.len() && wtx.ironwood_spends[k] == spend;
        assert(wtx.ironwood_spends[k].nf == nf);
    }
}

/// After a batch exactly those notes are watched that were watched before or came in, and
/// that the batch does not spend.
pub proof fn law_watched_after_a_batch(
    watched: Seq<[u8; 32]>,
    born: Seq<[u8; 32]>,
    gone: Seq<[u8; 32]>,
    nf: [u8; 32],
)
    ensures
        without(watched + born, gone).contains(nf) == ((watched.contains(nf) || born.contains(nf))
            && !gone.contains(nf)),
{
    let list = watched + born;
    let kept = list.map_values(
        |nf: [u8; 32]|
            if gone.contains(nf) {
                None
            } else {
                Some(nf)
            },
    );
    if without(list, gone).contains(nf) {
        let k = choose|k: int| 0 <= k < without(list, gone).len() && without(list, gone)[k] == nf;
        lemma_collect_from(kept, k);
        let j = choose|j: int| 0 <= j < kept.len() && #[trigger] kept[j] == Some(nf);
        assert(list[j] == nf);
        if j < watched.len() {
            assert(watched[j] == nf);
        } else {
            assert(born[j - watched.len()] == nf);
        }
    }
    if (watched.contains(nf) || born.contains(nf)) && !gone.contains(nf) {
        let j = if watched.contains(nf) {
            choose|j: int| 0 <= j < watched.len() && watched[j] == nf
        } else {
            watched.len() + choose|j: int| 0 <= j < born.len() && born[j] == nf
        };
        assert(list[j] == nf);
        assert(kept[j] == Some(nf));
        lemma_collect_has(kept, j);
    }
}

/// Memos change nothing else of the notes received: there are as many as before, in the
/// same order.
pub proof fn law_memos_keep_notes<N>(
    outputs: Seq<WalletOutput<N, [u8; 32], [u8; 43]>>,
    results: Seq<Option<DecryptResult<N, [u8; 43]>>>,
)
    ensures
        with_memos(outputs, results).len() == outputs.len(),
        forall|k: int|
            0 <= k < outputs.len() ==> (#[trigger] with_memos(outputs, results)[k]) == (
            WalletOutput { memo: with_memos(outputs, results)[k].memo, ..outputs[k] }),
    decreases results.len(),
{
    if results.len() > 0 {
        law_memos_keep_notes(outputs, results.drop_last());
        let before = with_memos(outputs, results.drop_last());
        let index = (results.len() - 1) as u32;
        lemma_position_within(before, index);
        assert forall|k: int| 0 <= k < outputs.len() implies (#[trigger] with_memos(
            outputs,
            results,
        )[k]) == (WalletOutput { memo: with_memos(outputs, results)[k].memo, ..outputs[k] }) by {
            assert(before[k] == (WalletOutput { memo: before[k].memo, ..outputs[k] }));
        }
    }
}

/// The first entry with an index is one of the entries.
proof fn lemma_position_within<N>(outputs: Seq<WalletOutput<N, [u8; 32], [u8; 43]>>, index: u32)
    ensures
        output_position(outputs, index) matches Some(k) ==> 0 <= k < outputs.len()
            && outputs[k].index == index,
        output_position(outputs, index) is None ==> forall|k: int|
            0 <= k < outputs.len() ==> (#[trigger] outputs[k]).index != index,
    decreases outputs.len(),
{
    if outputs.len() > 0 {
        let init = outputs.drop_last();
        lemma_position_within(init, index);
        if output_position(outputs, index) is None {
            assert forall|k: int| 0 <= k < outputs.len() implies (#[trigger] outputs[k]).index
                != index by {
                if k < init.len() {
                    assert(init[k].index != index);
                }
            }
        }
    }
}

/// Notes that are recovered as sent are added after the notes received, which stay as they
/// are, and every note added is marked as sent.
pub proof fn law_sent_notes_are_added<N>(
    outputs: Seq<WalletOutput<N, [u8; 32], [u8; 43]>>,
    results: Seq<Option<DecryptResult<N, [u8; 43]>>>,
)
    ensures
        with_sent(outputs, results).len() >= outputs.len(),
        with_sent(outputs, results).take(outputs.len() as int) == outputs,
        forall|k: int|
            outputs.len() <= k < with_sent(outputs, results).len() ==> (#[trigger] with_sent(
                outputs,
                results,
            )[k]).is_sent,
    decreases results.len(),
{
    if results.len() == 0 {
        assert(outputs.take(outputs.len() as int) =~= outputs);
    } else {
        law_sent_notes_are_added(outputs, results.drop_last());
        let before = with_sent(outputs, results.drop_last());
        let after = with_sent(outputs, results);
        assert(after.take(outputs.len() as int) =~= before.take(outputs.len() as int));
        assert forall|k: int| outputs.len() <= k < after.len() implies (#[trigger] after[k]).is_sent by {
            if k < before.len() {
                assert(before[k].is_sent);
            }
        }
    }
}

/// Memos and notes sent leave the nullifiers valid: a note that was sent has none.
proof fn lemma_outputs_stay_valid(
    outputs: Seq<OrchardOutput>,
    full: Seq<Option<DecryptResult<OrchardNote, [u8; 43]>>>,
    sent: Seq<Option<DecryptResult<OrchardNote, [u8; 43]>>>,
)
    requires
        nullifiers_valid(outputs),
    ensures
        nullifiers_valid(with_sent(with_memos(outputs, full), sent)),
    decreases sent.len(),
{
    law_memos_keep_notes(outputs, full);
    let received = with_memos(outputs, full);
    assert forall|i: int| 0 <= i < received.len() && (#[trigger] received[i]).nf is Some implies orchard_nullifier_valid(
        (received[i].nf->0)@,
    ) by {
        assert(outputs[i].nf == received[i].nf);
    }
    if sent.len() > 0 {
        lemma_outputs_stay_valid(outputs, full, sent.drop_last());
    }
}

/// What one full transaction adds leaves the nullifiers valid.
proof fn lemma_enriched_by_stays_valid(
    txs: Seq<WalletTxView>,
    sapling_keys: Seq<SaplingScanningKey>,
    orchard_keys: Seq<OrchardScanningKey>,
    network: Network,
    full: FullEntry,
)
    requires
        all_nullifiers_valid(txs),
    ensures
        all_nullifiers_valid(enriched_by(txs, sapling_keys, orchard_keys, network, full)),
{
    let wtx = match tx_position(txs, full.0) {
        Some(k) => txs[k],
        None => bare_tx(full.0, full.1, full.2),
    };
    lemma_position_within_txs(txs, full.0);
    assert(nullifiers_valid(wtx.orchard_outputs) && nullifiers_valid(wtx.ironwood_outputs));
    if let Some(actions) = orchard_actions_of(full.3) {
        lemma_outputs_stay_valid(
            wtx.orchard_outputs,
            actions.map_values(|a: FullActionParts| orchard_full_found(orchard_keys, a)),
            actions.map_values(|a: FullActionParts| orchard_sent_found(orchard_keys, a)),
        );
    }
    if let Some(actions) = ironwood_actions_of(full.3) {
        lemma_outputs_stay_valid(
            wtx.ironwood_outputs,
            actions.map_values(|a: FullActionParts| ironwood_full_found(orchard_keys, a)),
            actions.map_values(|a: FullActionParts| ironwood_sent_found(orchard_keys, a)),
        );
    }
}

/// The position of a transaction is one of the positions.
proof fn lemma_position_within_txs(txs: Seq<WalletTxView>, txid: [u8; 32])
    ensures
        tx_position(txs, txid) matches Some(k) ==> 0 <= k < txs.len(),
    decreases txs.len(),
{
    if txs.len() > 0 {
        lemma_position_within_txs(txs.drop_last(), txid);
    }
}

/// Whatever full transactions add to a batch, the nullifiers of its notes stay valid.
pub proof fn law_full_transactions_keep_nullifiers(
    txs: Seq<WalletTxView>,
    sapling_keys: Seq<SaplingScanningKey>,
    orchard_keys: Seq<OrchardScanningKey>,
    network: Network,
    full: Seq<FullEntry>,
)
    requires
        all_nullifiers_valid(txs),
    ensures
        all_nullifiers_valid(enriched_by_all(txs, sapling_keys, orchard_keys, network, full)),
    decreases full.len(),
{
    if full.len() > 0 {
        let init = full.drop_last();
        law_full_transactions_keep_nullifiers(txs, sapling_keys, orchard_keys, network, init);
        lemma_enriched_by_stays_valid(
            enriched_by_all(txs, sapling_keys, orchard_keys, network, init),
            sapling_keys,
            orchard_keys,
            network,
            full.last(),
        );
    }
}

/// What is told of transparent outputs leaves the nullifiers of a batch valid.
pub proof fn law_transparent_outputs_keep_nullifiers(
    txs: Seq<WalletTxView>,
    scripts: Seq<Seq<u8>>,
    outpoints: Seq<OutPoint>,
    full: Seq<FullEntry>,
)
    requires
        all_nullifiers_valid(txs),
    ensures
        all_nullifiers_valid(with_transparent(txs, scripts, outpoints, full)),
{
    lemma_paid_stays_valid(txs, scripts, full);
    let funded = paid_by_all(txs, scripts, full);
    lemma_drawn_stays_valid(funded, outpoints + outpoints_born(funded), full);
}

/// Adding transparent outputs leaves the nullifiers valid.
proof fn lemma_paid_stays_valid(
    txs: Seq<WalletTxView>,
    scripts: Seq<Seq<u8>>,
    full: Seq<FullEntry>,
)
    requires
        all_nullifiers_valid(txs),
    ensures
        all_nullifiers_valid(paid_by_all(txs, scripts, full)),
    decreases full.len(),
{
    if full.len() > 0 {
        lemma_paid_stays_valid(txs, scripts, full.drop_last());
        lemma_position_within_txs(paid_by_all(txs, scripts, full.drop_last()), full.last().0);
    }
}

/// Adding transparent spends leaves the nullifiers valid.
proof fn lemma_drawn_stays_valid(
    txs: Seq<WalletTxView>,
    outpoints: Seq<OutPoint>,
    full: Seq<FullEntry>,
)
    requires
        all_nullifiers_valid(txs),
    ensures
        all_nullifiers_valid(drawn_by_all(txs, outpoints, full)),
    decreases full.len(),
{
    if full.len() > 0 {
        lemma_drawn_stays_valid(txs, outpoints, full.drop_last());
        lemma_position_within_txs(drawn_by_all(txs, outpoints, full.drop_last()), full.last().0);
    }
}

/// The blocks that a step hands on to be applied.
pub open spec fn handed_on(step: StepView) -> Seq<CompactBlock> {
    match step {
        StepView::Flush(blocks) => blocks,
        _ => Seq::empty(),
    }
}

/// A run loses no block, doubles none and keeps their order: what it hands on and what it
/// keeps are what it had and the new block.
pub proof fn law_run_keeps_blocks(run: RunView, block: CompactBlock)
    requires
        is_placed(block),
        block.hash@.len() == 32,
        fork_at(run.prior, array32(block.prev_hash@)) is None,
    ensures
        ({
            let (after, step) = on_block_of(run, block);
            handed_on(step) + after.blocks == run.blocks.push(block)
        }),
{
    let (after, step) = on_block_of(run, block);
    assert(handed_on(step) + after.blocks =~= run.blocks.push(block));
}

/// A batch that is handed on holds at least one block and is within bounds, and so is the
/// batch that is kept.
pub proof fn law_batches_are_bounded(run: RunView, block: CompactBlock)
    requires
        batch_bounded(run.blocks),
    ensures
        ({
            let (after, step) = on_block_of(run, block);
            &&& batch_bounded(after.blocks)
            &&& step matches StepView::Flush(blocks) ==> blocks.len() > 0 && batch_bounded(blocks)
        }),
{
    let (after, step) = on_block_of(run, block);
    if after.blocks.len() > 0 {
        assert(after.blocks.drop_last() =~= Seq::empty() || after.blocks.drop_last() =~= run.blocks
            || after.blocks == run.blocks);
    }
    if run.blocks.len() == 1 {
        assert(run.blocks.drop_last() =~= Seq::empty());
    }
}

/// No batch is handed on early: it holds the most blocks allowed, or would have held too many
/// outputs with the next block.
pub proof fn law_batches_are_not_cut_early(run: RunView, block: CompactBlock)
    ensures
        on_block_of(run, block).1 matches StepView::Flush(blocks) ==> blocks == run.blocks && (
        blocks.len() == BLOCKS_PER_BATCH || total_outputs(blocks.push(block)) > OUTPUTS_PER_BATCH),
{
    assert(run.blocks.push(block).drop_last() =~= run.blocks);
}

/// A rewind never goes below the birthday, and discards the block that the chain no longer
/// holds, unless that one is below the birthday.
pub proof fn law_rewind_respects_birthday(birthday: u32, at: u32, by: u32)
    requires
        by >= 1,
    ensures
        rewind_target(birthday, at, by) >= birthday,
        at >= birthday ==> rewind_target(birthday, at, by) <= at,
        rewind_target(birthday, at, by) != birthday ==> rewind_target(birthday, at, by) == at + 1
            - by,
{
}

/// How far the next rewind goes after some forks in a row.
pub open spec fn backoff(forks: nat) -> u32
    decreases forks,
{
    if forks == 0 {
        1
    } else {
        doubled(backoff((forks - 1) as nat))
    }
}

/// Each fork in a row doubles the rewind, up to the largest number: a fork of any depth is
/// passed after logarithmically many.
pub proof fn law_backoff_doubles(forks: nat)
    ensures
        forks < 32 ==> backoff(forks) == pow2(forks),
        forks >= 32 ==> backoff(forks) == u32::MAX,
    decreases forks,
{
    lemma2_to64();
    if forks > 0 {
        law_backoff_doubles((forks - 1) as nat);
        if forks < 32 {
            lemma_pow2_unfold(forks);
            if forks - 1 < 31 {
                lemma_pow2_strictly_increases((forks - 1) as nat, 31);
            }
        }
    }
}

/// The height that an account is rewound to by the last of some forks in a row, at least
/// one: the first fork is at `from`, and each other one at the block below the rewind
/// before it. An account that was rewound to its birthday stays there.
pub open spec fn descent(birthday: u32, from: u32, forks: nat) -> u32
    decreases forks,
{
    if forks <= 1 {
        rewind_target(birthday, from, backoff(0))
    } else {
        let before = (forks - 1) as nat;
        let to = descent(birthday, from, before);
        if to <= birthday {
            birthday
        } else {
            rewind_target(birthday, (to - 1) as u32, backoff(before))
        }
    }
}

/// Forks in a row take one block from the account, then two more, then four more and so
/// on, and never one below the birthday.
pub proof fn law_forks_descend(birthday: u32, from: u32, forks: nat)
    requires
        birthday <= from,
        1 <= forks <= 32,
    ensures
        descent(birthday, from, forks) == (if from + 1 - birthday >= pow2(forks) - 1 {
            from + 1 - (pow2(forks) - 1)
        } else {
            birthday as int
        }),
    decreases forks,
{
    lemma2_to64();
    if forks > 1 {
        let before = (forks - 1) as nat;
        law_forks_descend(birthday, from, before);
        law_backoff_doubles(before);
        lemma_pow2_unfold(forks);
    }
}

/// However deep a fork is, at most 33 rewinds in a row take the account below it: the last
/// of them reaches the birthday, where the account starts over.
pub proof fn law_every_fork_is_passed(birthday: u32, from: u32)
    requires
        birthday <= from,
    ensures
        descent(birthday, from, 33) == birthday,
{
    lemma2_to64();
    law_forks_descend(birthday, from, 32);
    law_backoff_doubles(32);
}

/// At a fork the batch under way is dropped by starting over, and the next rewind is twice
/// as far.
pub proof fn law_fork_rewinds(run: RunView, block: CompactBlock)
    requires
        is_placed(block),
        fork_at(run.prior, array32(block.prev_hash@)) is Some,
    ensures
        ({
            let (after, step) = on_block_of(run, block);
            let at = fork_at(run.prior, array32(block.prev_hash@))->0;
            &&& step == StepView::Rewind(rewind_target(run.birthday, at, run.rewind_by))
            &&& after.rewind_by == doubled(run.rewind_by)
            &&& !after.streaming
            &&& handed_on(step).len() == 0
        }),
{
}

/// A pass that expects no block before its first one never forks there, so a chain whose
/// blocks connect is streamed from the birthday without a fork.
pub proof fn law_fresh_pass_takes_a_connected_chain(run: RunView, block: CompactBlock)
    requires
        run.prior is None || (run.prior->0).1 == array32(block.prev_hash@),
    ensures
        !(on_block_of(run, block).1 is Rewind),
{
}

} // verus!
