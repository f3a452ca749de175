//! Laws of whole runs: what holds over any row of calls that a sync makes.

use vstd::prelude::*;

use crate::bytes::array32;
use crate::proto::CompactBlock;
use crate::sync::batch_laws::backoff;
use crate::sync::chain::fork_at;
use crate::sync::{
    applied_of, begun, ended, failed, fresh_run, is_placed, may_retry, on_block_of, range_of,
    rewind_target, Cursor, RunView, StepView, SyncError, MAX_TRANSPORT_RETRIES,
};

verus! {

/// A call that a sync makes.
pub enum Call {
    /// A pass begins from the account's state.
    Begin {
        /// The account's birthday.
        birthday: u32,
        /// The account's checkpoint.
        checkpoint: Option<Cursor>,
        /// The height of the chain tip.
        tip: u32,
    },
    /// A block arrives.
    Block(CompactBlock),
    /// A batch was recorded up to a position.
    Applied(Cursor),
    /// The stream ends.
    End,
    /// Something fails.
    Failure(SyncError),
}

/// What a call makes of a state.
pub open spec fn called(run: RunView, call: Call) -> RunView {
    match call {
        Call::Begin { birthday, checkpoint, tip } => begun(run, birthday, checkpoint, tip),
        Call::Block(block) => on_block_of(run, block).0,
        Call::Applied(cursor) => applied_of(run, cursor),
        Call::End => ended(run),
        Call::Failure(e) => failed(run, e),
    }
}

/// The state after a row of calls.
pub open spec fn state_after(calls: Seq<Call>) -> RunView
    decreases calls.len(),
{
    if calls.len() == 0 {
        fresh_run()
    } else {
        called(state_after(calls.drop_last()), calls.last())
    }
}

/// The state before one of the calls.
pub open spec fn state_before(calls: Seq<Call>, i: int) -> RunView {
    state_after(calls.take(i))
}

/// Whether blocks arrive, and the stream ends, only while a pass is under way.
pub open spec fn orderly(calls: Seq<Call>) -> bool {
    forall|i: int|
        0 <= i < calls.len() && (#[trigger] calls[i] is Block || calls[i] is End) ==> state_before(
            calls,
            i,
        ).streaming
}

/// The height that one of the calls has the account rewound to, where it does.
pub open spec fn rewinds_to(calls: Seq<Call>, i: int) -> Option<u32> {
    match calls[i] {
        Call::Block(block) => match on_block_of(state_before(calls, i), block).1 {
            StepView::Rewind(to) => Some(to),
            _ => None,
        },
        _ => None,
    }
}

/// Whether one of the calls hands a batch on to be recorded.
pub open spec fn hands_on(calls: Seq<Call>, i: int) -> bool {
    match calls[i] {
        Call::Block(block) => on_block_of(state_before(calls, i), block).1 is Flush,
        Call::End => state_before(calls, i).blocks.len() > 0,
        _ => false,
    }
}

/// How many forks there were since a batch was last recorded.
pub open spec fn forks_in_a_row(calls: Seq<Call>) -> nat
    decreases calls.len(),
{
    if calls.len() == 0 || calls.last() is Applied {
        0
    } else if rewinds_to(calls, calls.len() - 1) is Some {
        forks_in_a_row(calls.drop_last()) + 1
    } else {
        forks_in_a_row(calls.drop_last())
    }
}

/// Whether the pass that is under way at `i` began at `k`.
pub open spec fn pass_began(calls: Seq<Call>, k: int, i: int) -> bool {
    &&& 0 <= k < i
    &&& calls[k] is Begin
    &&& forall|j: int| k < j < i ==> !(#[trigger] calls[j] is Begin)
}

/// The states before two calls differ by the calls between them.
proof fn lemma_next_state(calls: Seq<Call>, i: int)
    requires
        0 <= i < calls.len(),
    ensures
        state_before(calls, i + 1) == called(state_before(calls, i), calls[i]),
{
    assert(calls.take(i + 1).drop_last() =~= calls.take(i));
}

/// While no pass begins, none is under way that was not, and the birthday stays.
proof fn lemma_no_pass_begins(calls: Seq<Call>, i: int, j: int)
    requires
        0 <= i <= j <= calls.len(),
        forall|k: int| i <= k < j ==> !(#[trigger] calls[k] is Begin),
    ensures
        state_before(calls, j).streaming ==> state_before(calls, i).streaming,
        state_before(calls, j).birthday == state_before(calls, i).birthday,
    decreases j - i,
{
    if i < j {
        lemma_no_pass_begins(calls, i, j - 1);
        lemma_next_state(calls, j - 1);
        assert(!(calls[j - 1] is Begin));
    }
}

/// After a rewind a new pass begins from the account's state before the next batch is
/// handed on.
pub proof fn law_pass_begins_between_rewind_and_batch(calls: Seq<Call>, i: int, j: int)
    requires
        orderly(calls),
        0 <= i < j < calls.len(),
        rewinds_to(calls, i) is Some,
        hands_on(calls, j),
    ensures
        exists|k: int| i < k < j && #[trigger] calls[k] is Begin,
{
    if forall|k: int| i + 1 <= k < j ==> !(#[trigger] calls[k] is Begin) {
        lemma_next_state(calls, i);
        lemma_no_pass_begins(calls, i + 1, j);
        assert(state_before(calls, j).streaming);
    }
}

/// Every rewind is to the birthday that the account told when the pass began, or above.
pub proof fn law_rewinds_stay_above_birthday(calls: Seq<Call>, k: int, i: int)
    requires
        i < calls.len(),
        pass_began(calls, k, i),
        rewinds_to(calls, i) is Some,
    ensures
        rewinds_to(calls, i)->0 >= calls[k]->birthday,
{
    lemma_next_state(calls, k);
    lemma_no_pass_begins(calls, k + 1, i);
    lemma_backoff_counts(calls.take(i));
}

/// The next rewind is one block, doubled by each fork since a batch was last recorded.
proof fn lemma_backoff_counts(calls: Seq<Call>)
    ensures
        state_after(calls).rewind_by == backoff(forks_in_a_row(calls)),
        state_after(calls).rewind_by >= 1,
    decreases calls.len(),
{
    if calls.len() > 0 {
        let before = calls.drop_last();
        lemma_backoff_counts(before);
        assert(calls.take(calls.len() - 1) =~= before);
    }
}

/// Over a row of forks each rewind takes twice as many blocks as the one before, from one
/// block on, and from one block on again once a batch was recorded. It never goes below the
/// birthday.
pub proof fn law_forks_in_a_row_double(calls: Seq<Call>, k: int, i: int, block: CompactBlock, at: u32)
    requires
        i < calls.len(),
        pass_began(calls, k, i),
        calls[i] == Call::Block(block),
        is_placed(block),
        fork_at(state_before(calls, i).prior, array32(block.prev_hash@)) == Some(at),
    ensures
        rewinds_to(calls, i) == Some(
            rewind_target(calls[k]->birthday, at, backoff(forks_in_a_row(calls.take(i)))),
        ),
{
    lemma_next_state(calls, k);
    lemma_no_pass_begins(calls, k + 1, i);
    lemma_backoff_counts(calls.take(i));
}

/// A rewind comes exactly where a block does not connect to the one that it must connect to.
pub proof fn law_only_forks_rewind(calls: Seq<Call>, i: int, block: CompactBlock)
    requires
        0 <= i < calls.len(),
        calls[i] == Call::Block(block),
    ensures
        rewinds_to(calls, i) is Some == (is_placed(block) && fork_at(
            state_before(calls, i).prior,
            array32(block.prev_hash@),
        ) is Some),
{
}

/// The server's failures that a sync got over since a batch was last recorded.
pub open spec fn failures_in_a_row(calls: Seq<Call>) -> nat
    decreases calls.len(),
{
    if calls.len() == 0 || calls.last() is Applied {
        0
    } else if calls.last() matches Call::Failure(e) && may_retry(state_after(calls.drop_last()), e) {
        failures_in_a_row(calls.drop_last()) + 1
    } else {
        failures_in_a_row(calls.drop_last())
    }
}

/// The count of faults is that of the failures in a row.
proof fn lemma_faults_count(calls: Seq<Call>)
    ensures
        state_after(calls).faults == failures_in_a_row(calls),
        failures_in_a_row(calls) <= MAX_TRANSPORT_RETRIES,
    decreases calls.len(),
{
    if calls.len() > 0 {
        lemma_faults_count(calls.drop_last());
    }
}

/// A failure is got over exactly where it is the server's and there were fewer than the most
/// allowed since a batch was last recorded. A failure of the account, or of scanning, stops
/// the sync the first time.
pub proof fn law_only_server_failures_are_retried(calls: Seq<Call>, e: SyncError)
    ensures
        may_retry(state_after(calls), e) == (e is Chain && failures_in_a_row(calls)
            < MAX_TRANSPORT_RETRIES),
        failures_in_a_row(calls) <= MAX_TRANSPORT_RETRIES,
{
    lemma_faults_count(calls);
}

/// Whether one of the calls records a batch.
pub open spec fn records(calls: Seq<Call>) -> bool {
    exists|i: int| 0 <= i < calls.len() && #[trigger] calls[i] is Applied
}

/// The state knows whether a batch was recorded.
proof fn lemma_progress(calls: Seq<Call>)
    ensures
        state_after(calls).progressed == records(calls),
    decreases calls.len(),
{
    if calls.len() > 0 {
        let before = calls.drop_last();
        lemma_progress(before);
        if records(before) {
            let i = choose|i: int| 0 <= i < before.len() && #[trigger] before[i] is Applied;
            assert(calls[i] is Applied);
        }
        if records(calls) && !(calls.last() is Applied) {
            let i = choose|i: int| 0 <= i < calls.len() && #[trigger] calls[i] is Applied;
            assert(before[i] is Applied);
        }
    }
}

/// Where a pass finds the account at the tip, the sync returns the position that the account
/// is synced to if it recorded a batch, in this pass or an earlier one, and nothing if not.
pub proof fn law_nothing_is_returned_only_where_nothing_was_recorded(
    calls: Seq<Call>,
    birthday: u32,
    checkpoint: Option<Cursor>,
    tip: u32,
)
    requires
        range_of(birthday, checkpoint, tip) is None,
    ensures
        state_after(calls.push(Call::Begin { birthday, checkpoint, tip })).last == (if records(calls) {
            checkpoint
        } else {
            None
        }),
{
    let all = calls.push(Call::Begin { birthday, checkpoint, tip });
    assert(all.drop_last() =~= calls);
    lemma_progress(calls);
}

/// Once a batch is recorded, the sync returns its position, whatever failures follow, until a
/// new pass begins.
pub proof fn law_recorded_position_is_returned(calls: Seq<Call>, i: int, cursor: Cursor)
    requires
        0 <= i < calls.len(),
        calls[i] == Call::Applied(cursor),
        forall|j: int|
            i < j < calls.len() ==> !(#[trigger] calls[j] is Begin) && !(calls[j] is Applied),
    ensures
        state_after(calls).last == Some(cursor),
    decreases calls.len(),
{
    if i + 1 < calls.len() {
        let before = calls.drop_last();
        assert forall|j: int| i < j < before.len() implies !(#[trigger] before[j] is Begin) && !(
        before[j] is Applied) by {
            assert(calls[j] == before[j]);
        }
        law_recorded_position_is_returned(before, i, cursor);
        assert(!(calls[calls.len() - 1] is Begin));
    }
}

} // verus!
