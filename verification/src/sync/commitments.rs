//! The note commitments of a batch, with their positions in the tree.
//!
//! Every Orchard action adds a commitment to the tree, whoever its note belongs to. Whoever
//! keeps witnesses needs them all, with the positions at which the notes found stand.

use vstd::prelude::*;

use crate::bytes::{array32, lemma_array32, to_array};
use crate::primitives::Network;
use crate::proto::{CompactBlock, CompactTx};
use crate::seqs::{
    collect_some, lemma_collect_from, lemma_collect_has, lemma_collect_picks,
    lemma_collect_push, lemma_joined_contains, picks,
};
use crate::sync::decrypt::orchard_compact_found;
use crate::sync::laws::{
    holds_tx, law_only_relevant_transactions_are_found, lemma_block_found, tree_start, tx_at,
    tx_start,
};
use crate::sync::scan::{
    counts, grown, initial_sizes, lemma_counts_grow, orchard_count, orchard_received,
    orchard_wallet_output, scanned_blocks, OrchardOutput, Watch,
};
use crate::sync::watch::{extended, scanned_batch};

verus! {

/// A note commitment at its position in the tree.
#[derive(Debug, Clone, Copy, PartialEq, Eq)]
pub struct Commitment {
    /// The position.
    pub position: u64,
    /// The commitment.
    pub cmx: [u8; 32],
}

/// How many Orchard actions some blocks hold.
pub open spec fn total_actions(blocks: Seq<CompactBlock>) -> nat
    decreases blocks.len(),
{
    if blocks.len() == 0 {
        0
    } else {
        total_actions(blocks.drop_last()) + orchard_count(blocks.last().vtx@)
    }
}

/// The commitment of a transaction's action, where it has 32 bytes. `first` is the position
/// of the transaction's first action.
pub open spec fn commitment_at(tx: CompactTx, first: nat, i: int) -> Option<Commitment> {
    if tx.actions@[i].cmx@.len() == 32 {
        Some(Commitment { position: (first + i) as u64, cmx: array32(tx.actions@[i].cmx@) })
    } else {
        None
    }
}

/// The commitments of a transaction.
pub open spec fn tx_commitments(tx: CompactTx, first: nat) -> Seq<Commitment> {
    collect_some(Seq::new(tx.actions@.len(), |i: int| commitment_at(tx, first, i)))
}

/// The commitments of some transactions.
pub open spec fn vtx_commitments(vtx: Seq<CompactTx>, first: nat) -> Seq<Commitment>
    decreases vtx.len(),
{
    if vtx.len() == 0 {
        Seq::empty()
    } else {
        let before = vtx.drop_last();
        vtx_commitments(before, first) + tx_commitments(vtx.last(), first + orchard_count(before))
    }
}

/// The commitments of some blocks.
pub open spec fn block_commitments(blocks: Seq<CompactBlock>, first: nat) -> Seq<Commitment>
    decreases blocks.len(),
{
    if blocks.len() == 0 {
        Seq::empty()
    } else {
        let before = blocks.drop_last();
        block_commitments(before, first) + vtx_commitments(
            blocks.last().vtx@,
            first + total_actions(before),
        )
    }
}

/// Some of the blocks hold no more actions than all.
proof fn lemma_total_actions(blocks: Seq<CompactBlock>, n: int)
    requires
        0 <= n < blocks.len(),
    ensures
        total_actions(blocks.take(n + 1)) == total_actions(blocks.take(n)) + orchard_count(
            blocks[n].vtx@,
        ),
        total_actions(blocks.take(n + 1)) <= total_actions(blocks),
    decreases blocks.len() - n,
{
    assert(blocks.take(n + 1).drop_last() =~= blocks.take(n));
    if n + 1 < blocks.len() {
        lemma_total_actions(blocks, n + 1);
    } else {
        assert(blocks.take(n + 1) =~= blocks);
    }
}

/// Appends the commitments of a transaction.
fn list_tx(list: &mut Vec<Commitment>, tx: &CompactTx, first: u64)
    requires
        first + tx.actions@.len() <= u64::MAX,
    ensures
        final(list)@ == old(list)@ + tx_commitments(*tx, first as nat),
{
    let ghost start = list@;
    let ghost all = Seq::new(tx.actions@.len(), |i: int| commitment_at(*tx, first as nat, i));
    let mut i: usize = 0;
    assert(start =~= start + collect_some(all.take(0)));
    while i < tx.actions.len()
        invariant
            0 <= i <= tx.actions.len(),
            first + tx.actions@.len() <= u64::MAX,
            all == Seq::new(tx.actions@.len(), |i: int| commitment_at(*tx, first as nat, i)),
            list@ == start + collect_some(all.take(i as int)),
        decreases tx.actions.len() - i,
    {
        proof {
            lemma_collect_push(all.take(i as int), all[i as int]);
            assert(all.take(i as int + 1) =~= all.take(i as int).push(all[i as int]));
        }
        let bytes: Option<[u8; 32]> = to_array(tx.actions[i].cmx.as_slice());
        if let Some(cmx) = bytes {
            proof {
                lemma_array32(cmx);
            }
            list.push(Commitment { position: first + i as u64, cmx });
            assert(list@ =~= start + collect_some(all.take(i as int + 1)));
        }
        i = i + 1;
    }
    assert(all.take(i as int) =~= all);
}

/// Lists the note commitments of the blocks' Orchard actions with their positions, in order.
/// `start` is the size of the tree before the first block. Every action takes a position; one
/// whose commitment does not have 32 bytes is left out.
pub fn scan_commitments(blocks: &Vec<CompactBlock>, start: u64) -> (list: Vec<Commitment>)
    requires
        start + total_actions(blocks@) <= u64::MAX,
    ensures
        list@ == block_commitments(blocks@, start as nat),
{
    let mut list: Vec<Commitment> = Vec::new();
    let mut first: u64 = start;
    let mut b: usize = 0;
    assert(blocks@.take(0) =~= Seq::empty());
    while b < blocks.len()
        invariant
            0 <= b <= blocks.len(),
            start + total_actions(blocks@) <= u64::MAX,
            first == start + total_actions(blocks@.take(b as int)),
            list@ == block_commitments(blocks@.take(b as int), start as nat),
        decreases blocks.len() - b,
    {
        proof {
            assert(blocks@.take(b as int + 1).drop_last() =~= blocks@.take(b as int));
            lemma_total_actions(blocks@, b as int);
        }
        let vtx = &blocks[b].vtx;
        let ghost begun = list@;
        let ghost base = first;
        let mut t: usize = 0;
        assert(vtx@.take(0) =~= Seq::empty());
        assert(begun =~= begun + vtx_commitments(vtx@.take(0), base as nat));
        while t < vtx.len()
            invariant
                0 <= t <= vtx.len(),
                base + orchard_count(vtx@) <= u64::MAX,
                first == base + orchard_count(vtx@.take(t as int)),
                list@ == begun + vtx_commitments(vtx@.take(t as int), base as nat),
            decreases vtx.len() - t,
        {
            proof {
                assert(vtx@.take(t as int + 1).drop_last() =~= vtx@.take(t as int));
                lemma_counts_grow(vtx@, t as int);
            }
            let ghost before = list@;
            list_tx(&mut list, &vtx[t], first);
            assert(list@ =~= begun + vtx_commitments(vtx@.take(t as int + 1), base as nat));
            first = first + vtx[t].actions.len() as u64;
            t = t + 1;
        }
        assert(vtx@.take(t as int) =~= vtx@);
        b = b + 1;
    }
    assert(blocks@.take(b as int) =~= blocks@);
    list
}

/// The commitments of a transaction are among those of its block.
proof fn lemma_vtx_holds(vtx: Seq<CompactTx>, first: nat, t: int, x: Commitment)
    requires
        0 <= t < vtx.len(),
        tx_commitments(vtx[t], first + orchard_count(vtx.take(t))).contains(x),
    ensures
        vtx_commitments(vtx, first).contains(x),
    decreases vtx.len(),
{
    let init = vtx.drop_last();
    if t < init.len() {
        assert(init.take(t) =~= vtx.take(t));
        lemma_vtx_holds(init, first, t, x);
    } else {
        assert(vtx.take(t) =~= init);
    }
    lemma_joined_contains(
        vtx_commitments(init, first),
        tx_commitments(vtx.last(), first + orchard_count(init)),
        x,
    );
}

/// The commitments of a block are among those of the blocks.
proof fn lemma_blocks_hold(blocks: Seq<CompactBlock>, first: nat, b: int, x: Commitment)
    requires
        0 <= b < blocks.len(),
        vtx_commitments(blocks[b].vtx@, first + total_actions(blocks.take(b))).contains(x),
    ensures
        block_commitments(blocks, first).contains(x),
    decreases blocks.len(),
{
    let init = blocks.drop_last();
    if b < init.len() {
        assert(init.take(b) =~= blocks.take(b));
        lemma_blocks_hold(init, first, b, x);
    } else {
        assert(blocks.take(b) =~= init);
    }
    lemma_joined_contains(
        block_commitments(init, first),
        vtx_commitments(blocks.last().vtx@, first + total_actions(init)),
        x,
    );
}

/// The commitment of every action is handed on at the position that counting the actions
/// before it gives.
pub proof fn law_commitments_are_aligned(
    blocks: Seq<CompactBlock>,
    start: nat,
    b: int,
    t: int,
    i: int,
)
    requires
        0 <= b < blocks.len(),
        0 <= t < blocks[b].vtx@.len(),
        0 <= i < blocks[b].vtx@[t].actions@.len(),
        blocks[b].vtx@[t].actions@[i].cmx@.len() == 32,
    ensures
        block_commitments(blocks, start).contains(
            Commitment {
                position: (start + total_actions(blocks.take(b)) + orchard_count(
                    blocks[b].vtx@.take(t),
                ) + i) as u64,
                cmx: array32(blocks[b].vtx@[t].actions@[i].cmx@),
            },
        ),
{
    let vtx = blocks[b].vtx@;
    let base = start + total_actions(blocks.take(b));
    let first = base + orchard_count(vtx.take(t));
    let all = Seq::new(vtx[t].actions@.len(), |i: int| commitment_at(vtx[t], first, i));
    assert(all[i] is Some);
    lemma_collect_has(all, i);
    lemma_vtx_holds(vtx, base, t, all[i]->0);
    lemma_blocks_hold(blocks, start, b, all[i]->0);
}

/// Whether every block tells the sizes of the trees after it.
pub open spec fn sizes_told(blocks: Seq<CompactBlock>) -> bool {
    forall|b: int| 0 <= b < blocks.len() ==> (#[trigger] blocks[b]).chain_metadata is Some
}

/// The size of the Orchard tree before the first block.
pub open spec fn first_position(network: Network, blocks: Seq<CompactBlock>) -> nat {
    (initial_sizes(network, blocks[0].height as u32, blocks[0])->Ok_0).1 as nat
}

/// Where blocks that scan tell their sizes, the size of the Orchard tree before each is that
/// before the first and all actions between.
proof fn lemma_sizes_add_up(
    watch: Watch,
    network: Network,
    blocks: Seq<CompactBlock>,
    prior: Option<(u32, [u8; 32])>,
    b: int,
)
    requires
        scanned_blocks(watch, network, blocks, prior) is Ok,
        sizes_told(blocks),
        0 <= b < blocks.len(),
    ensures
        tree_start(network, blocks, b).1 == first_position(network, blocks) + total_actions(
            blocks.take(b),
        ),
        tree_start(network, blocks, b).1 + orchard_count(blocks[b].vtx@) <= u32::MAX,
    decreases b,
{
    lemma_block_found(watch, network, blocks, prior, b);
    let start = tree_start(network, blocks, b);
    assert(grown(start, counts(blocks[b].vtx@)).1
        == blocks[b].chain_metadata->0.orchard_commitment_tree_size);
    if b == 0 {
        assert(blocks.take(0) =~= Seq::empty());
    } else {
        lemma_sizes_add_up(watch, network, blocks, prior, b - 1);
        lemma_block_found(watch, network, blocks, prior, b - 1);
        lemma_total_actions(blocks, b - 1);
        assert(blocks[b - 1].chain_metadata is Some);
    }
}

/// Where blocks that scan tell their sizes, an Orchard note of the transaction at `t` of the
/// block at `b` stands at the position at which the commitment of its action is handed on.
proof fn lemma_note_at_commitment(
    watch: Watch,
    network: Network,
    blocks: Seq<CompactBlock>,
    prior: Option<(u32, [u8; 32])>,
    b: int,
    t: int,
    m: int,
)
    requires
        scanned_blocks(watch, network, blocks, prior) is Ok,
        sizes_told(blocks),
        holds_tx(blocks, b, t),
        0 <= m < tx_at(watch, network, blocks, b, t).orchard_outputs.len(),
    ensures
        ({
            let output = tx_at(watch, network, blocks, b, t).orchard_outputs[m];
            stands_at_its_commitment(network, blocks, b, t, output)
        }),
{
    let tx = blocks[b].vtx@[t];
    let start = tx_start(network, blocks, b, t).1;
    let keys = watch.orchard_keys;
    let list = Seq::new(
        tx.actions@.len(),
        |i: int| orchard_wallet_output(keys, orchard_compact_found(keys, tx.actions@[i]), i, start),
    );
    let outputs = tx_at(watch, network, blocks, b, t).orchard_outputs;
    assert(outputs == orchard_received(keys, tx.actions@, start));
    assert(outputs == collect_some(list));
    lemma_collect_from(list, m);
    let i = choose|i: int| 0 <= i < list.len() && #[trigger] list[i] == Some(outputs[m]);
    assert(orchard_compact_found(keys, tx.actions@[i]) is Some);
    lemma_sizes_add_up(watch, network, blocks, prior, b);
    lemma_counts_grow(blocks[b].vtx@, t);
    law_commitments_are_aligned(blocks, first_position(network, blocks), b, t, i);
}

/// Whether an Orchard output is at one of the actions of the transaction at `t` of the block at
/// `b`, and the commitment of that action is handed on with the output's position.
pub open spec fn stands_at_its_commitment(
    network: Network,
    blocks: Seq<CompactBlock>,
    b: int,
    t: int,
    output: OrchardOutput,
) -> bool {
    let actions = blocks[b].vtx@[t].actions@;
    &&& output.index < actions.len()
    &&& block_commitments(blocks, first_position(network, blocks)).contains(
        Commitment {
            position: output.position,
            cmx: array32(actions[output.index as int].cmx@),
        },
    )
}

/// Commitments stand where the notes found in them do: where the blocks of a batch tell their
/// sizes, every Orchard note that the batch brings was found in an action of its transaction,
/// and the commitment of that action is handed on with the note's position.
pub proof fn law_notes_stand_at_their_commitments(
    watch: Watch,
    network: Network,
    blocks: Seq<CompactBlock>,
    prior: Option<(u32, [u8; 32])>,
    k: int,
    m: int,
)
    requires
        scanned_batch(watch, network, blocks, prior) is Ok,
        sizes_told(blocks),
        0 <= k < (scanned_batch(watch, network, blocks, prior)->Ok_0).0.len(),
        0 <= m < (scanned_batch(watch, network, blocks, prior)->Ok_0).0[k].orchard_outputs.len(),
    ensures
        ({
            let wtx = (scanned_batch(watch, network, blocks, prior)->Ok_0).0[k];
            exists|b: int, t: int|
                #![trigger blocks[b].vtx@[t]]
                holds_tx(blocks, b, t) && wtx.txid == array32(blocks[b].vtx@[t].txid@) && wtx.height
                    == blocks[b].height as u32 && stands_at_its_commitment(
                    network,
                    blocks,
                    b,
                    t,
                    wtx.orchard_outputs[m],
                )
        }),
{
    let wider = extended(watch, (scanned_blocks(watch, network, blocks, prior)->Ok_0).0);
    let wtx = (scanned_batch(watch, network, blocks, prior)->Ok_0).0[k];
    law_only_relevant_transactions_are_found(wider, network, blocks, prior, k);
    let (b, t) = choose|b: int, t: int|
        holds_tx(blocks, b, t) && #[trigger] tx_at(wider, network, blocks, b, t) == wtx;
    lemma_note_at_commitment(wider, network, blocks, prior, b, t, m);
    assert(wtx.txid == array32(blocks[b].vtx@[t].txid@));
}

/// Commitments are handed on in the order of the chain: block by block and transaction by
/// transaction, each block starting where the one before it ended.
pub proof fn law_commitments_come_in_chain_order(
    blocks: Seq<CompactBlock>,
    block: CompactBlock,
    vtx: Seq<CompactTx>,
    tx: CompactTx,
    first: nat,
)
    ensures
        total_actions(Seq::<CompactBlock>::empty()) == 0,
        total_actions(blocks.push(block)) == total_actions(blocks) + orchard_count(block.vtx@),
        block_commitments(Seq::<CompactBlock>::empty(), first).len() == 0,
        block_commitments(blocks.push(block), first) == block_commitments(blocks, first)
            + vtx_commitments(block.vtx@, first + total_actions(blocks)),
        vtx_commitments(Seq::<CompactTx>::empty(), first).len() == 0,
        vtx_commitments(vtx.push(tx), first) == vtx_commitments(vtx, first) + tx_commitments(
            tx,
            first + orchard_count(vtx),
        ),
{
    assert(blocks.push(block).drop_last() =~= blocks);
    assert(vtx.push(tx).drop_last() =~= vtx);
}

/// Of a transaction exactly the commitments of 32 bytes are handed on, in order, each at the
/// position of its own action: `at` holds which.
pub proof fn law_every_action_takes_a_position(tx: CompactTx, first: nat) -> (at: Seq<int>)
    ensures
        ({
            let got = tx_commitments(tx, first);
            &&& at.len() == got.len()
            &&& forall|k: int, m: int| 0 <= k < m < at.len() ==> #[trigger] at[k] < #[trigger] at[m]
            &&& forall|k: int|
                0 <= k < at.len() ==> 0 <= #[trigger] at[k] < tx.actions@.len()
                    && tx.actions@[at[k]].cmx@.len() == 32 && got[k] == (Commitment {
                    position: (first + at[k]) as u64,
                    cmx: array32(tx.actions@[at[k]].cmx@),
                })
            &&& forall|i: int|
                0 <= i < tx.actions@.len() && (#[trigger] tx.actions@[i]).cmx@.len() == 32
                    ==> at.contains(i)
        }),
{
    let all = Seq::new(tx.actions@.len(), |i: int| commitment_at(tx, first, i));
    lemma_collect_picks(all);
    let at = choose|at: Seq<int>| #[trigger] picks(collect_some(all), all, at);
    assert forall|i: int|
        0 <= i < tx.actions@.len() && (#[trigger] tx.actions@[i]).cmx@.len() == 32 implies at.contains(
        i,
    ) by {
        assert(all[i] is Some);
    }
    at
}

} // verus!
