//! Laws of a pass: what it streams, what a block does to it, and what each call changes.

use vstd::prelude::*;

use crate::bytes::array32;
use crate::primitives::Network;
use crate::proto::CompactBlock;
use crate::seqs::{collect_some, lemma_collect_picks, picks};
use crate::sync::chain::fork_at;
use crate::sync::decrypt::ScanningKeys;
use crate::sync::scan::{
    enriched_by_all, ironwood_count, orchard_count, sapling_count, FullEntry, ScanError,
    WalletTxView,
};
use crate::sync::transparent_scan::with_transparent;
use crate::sync::{
    applied_of, begun, cursor_of, ended, failed, finished_txs, fresh_run, may_retry, on_block_of,
    range_of, readable_entries, readable_entry, total_outputs, Cursor, Fetched, RunView, StepView,
    SyncError,
};
use crate::upstream::transactions::transaction_error_of;

verus! {

/// A pass streams from just above the checkpoint, or from the birthday where there is none, up
/// to the tip, and nothing where that lies above the tip.
pub proof fn law_pass_streams_what_is_missing(birthday: u32, checkpoint: Option<Cursor>, tip: u32)
    requires
        checkpoint matches Some(at) ==> at.height < u32::MAX,
    ensures
        ({
            let range = range_of(birthday, checkpoint, tip);
            &&& (checkpoint matches Some(at) && at.height < tip) ==> range == Some(
                (((checkpoint->0).height + 1) as u32, tip),
            )
            &&& (checkpoint matches Some(at) && at.height >= tip) ==> range is None
            &&& checkpoint is None && birthday <= tip ==> range == Some((birthday, tip))
            &&& checkpoint is None && birthday > tip ==> range is None
        }),
{
}

/// A pass begins with no blocks, expects the block after the checkpoint, and keeps how far the
/// next rewind goes and how many failures there were.
pub proof fn law_pass_begins_at_the_checkpoint(
    run: RunView,
    birthday: u32,
    checkpoint: Option<Cursor>,
    tip: u32,
)
    ensures
        ({
            let after = begun(run, birthday, checkpoint, tip);
            &&& after.birthday == birthday
            &&& after.prior is Some == checkpoint is Some
            &&& checkpoint matches Some(at) ==> after.prior == Some((at.height, at.hash))
            &&& after.blocks.len() == 0
            &&& after.streaming == range_of(birthday, checkpoint, tip) is Some
            &&& after.streaming ==> after.last == checkpoint
            &&& !after.streaming && run.progressed ==> after.last == checkpoint
            &&& !after.streaming && !run.progressed ==> after.last is None
            &&& after.rewind_by == run.rewind_by
            &&& after.faults == run.faults
            &&& after.progressed == run.progressed
        }),
{
}

/// The outputs of blocks are counted block by block, and those of a block in all three pools.
pub proof fn law_outputs_of_a_batch_add_up(blocks: Seq<CompactBlock>, block: CompactBlock)
    ensures
        total_outputs(Seq::<CompactBlock>::empty()) == 0,
        total_outputs(blocks.push(block)) == total_outputs(blocks) + sapling_count(block.vtx@)
            + orchard_count(block.vtx@) + ironwood_count(block.vtx@),
{
    assert(blocks.push(block).drop_last() =~= blocks);
}

/// A block that connects joins the batch under way, which is handed on before it exactly where
/// it holds a thousand blocks already, or would hold more than a hundred thousand outputs. The
/// next block must connect to it.
pub proof fn law_connected_block_joins_the_batch(run: RunView, block: CompactBlock)
    requires
        block.height <= u32::MAX,
        block.prev_hash@.len() == 32,
        block.hash@.len() == 32,
        run.prior matches Some(prior) ==> prior.1 == array32(block.prev_hash@),
    ensures
        ({
            let (after, step) = on_block_of(run, block);
            let full = run.blocks.len() > 0 && (run.blocks.len() == 1_000 || total_outputs(
                run.blocks.push(block),
            ) > 100_000);
            &&& full ==> step == StepView::Flush(run.blocks) && after.blocks == seq![block]
            &&& !full ==> step == StepView::Kept && after.blocks == run.blocks.push(block)
            &&& after.prior == Some((block.height as u32, array32(block.hash@)))
            &&& after.rewind_by == run.rewind_by
            &&& after.faults == run.faults
            &&& after.birthday == run.birthday
            &&& after.last == run.last
            &&& after.progressed == run.progressed
            &&& after.streaming == run.streaming
        }),
{
    assert(run.blocks.push(block).drop_last() =~= run.blocks);
}

/// A block that does not connect rewinds the account by the distance under way, counted from
/// the block that it should have connected to, but never below the birthday. The pass is over,
/// and the next rewind goes twice as far.
pub proof fn law_unconnected_block_rewinds(run: RunView, block: CompactBlock)
    requires
        block.height <= u32::MAX,
        block.prev_hash@.len() == 32,
        run.prior matches Some(prior) && prior.1 != array32(block.prev_hash@),
    ensures
        ({
            let (after, step) = on_block_of(run, block);
            let at = (run.prior->0).0;
            let to = at + 1 - run.rewind_by;
            &&& step == StepView::Rewind(
                if to >= run.birthday {
                    to as u32
                } else {
                    run.birthday
                },
            )
            &&& after.rewind_by == (if 2 * run.rewind_by <= u32::MAX {
                2 * run.rewind_by
            } else {
                u32::MAX as int
            })
            &&& !after.streaming
            &&& after.last == run.last
            &&& after.faults == run.faults
            &&& after.progressed == run.progressed
        }),
{
}

/// A block whose height or hashes are malformed ends the pass with an error, whatever it
/// connects to: its own hash is looked at only where it connects.
pub proof fn law_malformed_block_ends_the_pass(run: RunView, block: CompactBlock)
    ensures
        ({
            let (after, step) = on_block_of(run, block);
            let connects = run.prior matches Some(prior) ==> prior.1 == array32(block.prev_hash@);
            &&& block.height > u32::MAX ==> step == StepView::Invalid(
                ScanError::InvalidCompactBlock(0),
            ) && !after.streaming
            &&& block.height <= u32::MAX && (block.prev_hash@.len() != 32 || (connects
                && block.hash@.len() != 32)) ==> step == StepView::Invalid(
                ScanError::InvalidCompactBlock(block.height as u32),
            ) && !after.streaming
        }),
{
}

/// A fork is told exactly where a block is expected and another one comes, at the height of
/// the block that was expected.
pub proof fn law_fork_is_told_where_hashes_differ(prior: Option<(u32, [u8; 32])>, hash: [u8; 32])
    ensures
        prior is None ==> fork_at(prior, hash) is None,
        prior matches Some(at) ==> (at.1 == hash ==> fork_at(prior, hash) is None) && (at.1 != hash
            ==> fork_at(prior, hash) == Some(at.0)),
{
}

/// A recorded batch starts the distance of rewinds and the count of failures over, and is what
/// the run returns; the end of a stream and a failure leave both.
pub proof fn law_calls_change_what_they_tell(run: RunView, cursor: Cursor, e: SyncError)
    ensures
        applied_of(run, cursor) == (RunView {
            rewind_by: 1,
            faults: 0,
            last: Some(cursor),
            progressed: true,
            ..run
        }),
        ended(run).blocks.len() == 0,
        ended(run) == (RunView { streaming: false, blocks: ended(run).blocks, ..run }),
        failed(run, e) == (RunView {
            streaming: false,
            faults: if e is Chain && run.faults < 4 {
                (run.faults + 1) as u32
            } else {
                run.faults
            },
            ..run
        }),
        may_retry(run, e) == (e is Chain && run.faults < 4),
{
}

/// A batch is applied at the height and hash of its last block, and is refused where either is
/// malformed.
pub proof fn law_batch_is_applied_at_its_last_block(block: CompactBlock)
    ensures
        block.height <= u32::MAX && block.hash@.len() == 32 ==> cursor_of(block) == Ok::<
            Cursor,
            ScanError,
        >(Cursor { height: block.height as u32, hash: array32(block.hash@) }),
        block.height > u32::MAX ==> cursor_of(block) == Err::<Cursor, ScanError>(
            ScanError::InvalidCompactBlock(0),
        ),
        block.height <= u32::MAX && block.hash@.len() != 32 ==> cursor_of(block) == Err::<
            Cursor,
            ScanError,
        >(ScanError::InvalidCompactBlock(block.height as u32)),
{
}

/// Exactly the fetched transactions that can be read are looked at, in order, each under its
/// own id, height and index and by the rules of its own height: `at` holds which.
pub proof fn law_readable_transactions_are_read(fetched: Seq<Fetched>, network: Network) -> (at: Seq<
    int,
>)
    ensures
        ({
            let got = readable_entries(fetched, network);
            let can = |i: int|
                transaction_error_of(fetched[i].3.data@, network, fetched[i].1) is None;
            &&& at.len() == got.len()
            &&& forall|k: int|
                0 <= k < at.len() ==> 0 <= #[trigger] at[k] < fetched.len() && can(at[k]) && got[k] == (
                    fetched[at[k]].0,
                    fetched[at[k]].1,
                    fetched[at[k]].2,
                    (fetched[at[k]].3.data@, network, fetched[at[k]].1),
                )
            &&& forall|k: int, m: int| 0 <= k < m < at.len() ==> #[trigger] at[k] < #[trigger] at[m]
            &&& forall|i: int| 0 <= i < fetched.len() && #[trigger] can(i) ==> at.contains(i)
        }),
{
    let all = fetched.map_values(|f: Fetched| readable_entry(f, network));
    let can = |i: int| transaction_error_of(fetched[i].3.data@, network, fetched[i].1) is None;
    lemma_collect_picks(all);
    let at = choose|at: Seq<int>| #[trigger] picks(collect_some(all), all, at);
    assert forall|i: int| 0 <= i < fetched.len() && #[trigger] can(i) implies at.contains(i) by {
        assert(all[i] is Some);
    }
    at
}

/// A batch is finished with both what full transactions tell of shielded notes and what they
/// tell of transparent outputs.
pub proof fn law_batch_is_finished_with_both_sides(
    txs: Seq<WalletTxView>,
    keys: ScanningKeys,
    network: Network,
    scripts: Seq<Seq<u8>>,
    outpoints: Seq<crate::primitives::OutPoint>,
    full: Seq<FullEntry>,
)
    ensures
        finished_txs(txs, keys, network, scripts, outpoints, full) == with_transparent(
            enriched_by_all(txs, keys.sapling@, keys.orchard@, network, full),
            scripts,
            outpoints,
            full,
        ),
{
}

/// Before the first pass a run expects no block, has no batch under way and nothing to return,
/// and its first rewind is one block.
pub proof fn law_run_starts_with_nothing()
    ensures
        fresh_run().rewind_by == 1,
        fresh_run().faults == 0,
        fresh_run().prior is None,
        fresh_run().last is None,
        !fresh_run().progressed,
        !fresh_run().streaming,
        fresh_run().blocks.len() == 0,
{
}

} // verus!
