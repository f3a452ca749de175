//! Laws of scanning: everything that can be seen is found, where it is, and nothing else.

use vstd::prelude::*;

use crate::bytes::array32;
use crate::primitives::{Network, OutPoint};
use crate::proto::CompactBlock;
use crate::seqs::{collect_some, lemma_collect_from, lemma_collect_has};
use crate::sync::decrypt::{
    ironwood_compact_found, lemma_ironwood_compact_found, lemma_orchard_compact_found,
    lemma_sapling_compact_found, orchard_compact_found, orchard_compact_parts,
    sapling_compact_found, sapling_compact_parts,
};
use crate::sync::scan::{
    block_before, block_txs, counts, final_sizes, grown, initial_sizes, ironwood_received,
    kept_tx, orchard_received, orchard_spend_at, orchard_spent, orchard_wallet_output,
    sapling_received, sapling_spend_at, sapling_spent, sapling_wallet_output, scanned_block,
    scanned_blocks, scanned_tx, sizes_before, transparent_output_at, transparent_received,
    transparent_spend_at, transparent_spent, OrchardSpend, SaplingSpend, TransparentOutputView,
    TransparentSpend, TreeSizes, WalletTxView, Watch,
};
use crate::upstream::consensus_rules::zip212_at;
use crate::upstream::orchard_notes::{
    ironwood_compact_note, orchard_compact_note, orchard_nullifier_valid,
};
use crate::upstream::sapling_notes::sapling_compact_note;

verus! {

/// The tree sizes before the block at `b`: what the block before it tells or, for the first
/// block, what it tells itself.
pub open spec fn tree_start(network: Network, blocks: Seq<CompactBlock>, b: int) -> TreeSizes {
    if b == 0 {
        let sizes = initial_sizes(network, blocks[0].height as u32, blocks[0])->Ok_0;
        (sizes.0 as nat, sizes.1 as nat, sizes.2 as nat)
    } else {
        final_sizes(blocks[b - 1])
    }
}

/// The tree sizes before the transaction at `t` of the block at `b`.
pub open spec fn tx_start(
    network: Network,
    blocks: Seq<CompactBlock>,
    b: int,
    t: int,
) -> TreeSizes {
    grown(tree_start(network, blocks, b), counts(blocks[b].vtx@.take(t)))
}

/// What the transaction at `t` of the block at `b` does to the account.
pub open spec fn tx_at(
    watch: Watch,
    network: Network,
    blocks: Seq<CompactBlock>,
    b: int,
    t: int,
) -> WalletTxView {
    let height = blocks[b].height as u32;
    scanned_tx(
        watch,
        zip212_at(network, height),
        height,
        blocks[b].vtx@[t],
        tx_start(network, blocks, b, t),
    )
}

/// There is a transaction at `t` of the block at `b`.
pub open spec fn holds_tx(blocks: Seq<CompactBlock>, b: int, t: int) -> bool {
    0 <= b < blocks.len() && 0 <= t < blocks[b].vtx@.len()
}

/// A scan of the blocks finds what a scan of each block finds.
pub proof fn lemma_block_found(
    watch: Watch,
    network: Network,
    blocks: Seq<CompactBlock>,
    prior: Option<(u32, [u8; 32])>,
    b: int,
)
    requires
        scanned_blocks(watch, network, blocks, prior) is Ok,
        0 <= b < blocks.len(),
    ensures
        ({
            let one = scanned_block(
                watch,
                network,
                blocks[b],
                block_before(blocks, prior, b),
                sizes_before(blocks, b),
            );
            &&& one is Ok
            &&& forall|w: WalletTxView|
                (one->Ok_0).0.contains(w) ==> #[trigger] (scanned_blocks(
                    watch,
                    network,
                    blocks,
                    prior,
                )->Ok_0).0.contains(w)
        }),
    decreases blocks.len(),
{
    let last = blocks.len() - 1;
    let init = blocks.drop_last();
    let before = (scanned_blocks(watch, network, init, prior)->Ok_0).0;
    let all = (scanned_blocks(watch, network, blocks, prior)->Ok_0).0;
    let one = scanned_block(
        watch,
        network,
        blocks[b],
        block_before(blocks, prior, b),
        sizes_before(blocks, b),
    );
    if b == last {
        let more = (one->Ok_0).0;
        assert(all == before + more);
        assert forall|w: WalletTxView| more.contains(w) implies #[trigger] all.contains(w) by {
            let k = choose|k: int| 0 <= k < more.len() && more[k] == w;
            assert(all[before.len() + k] == w);
        }
    } else {
        lemma_block_found(watch, network, init, prior, b);
        assert(init[b] == blocks[b]);
        if b > 0 {
            assert(init[b - 1] == blocks[b - 1]);
        }
        assert forall|w: WalletTxView| (one->Ok_0).0.contains(w) implies #[trigger] all.contains(w) by {
            assert(before.contains(w));
            let k = choose|k: int| 0 <= k < before.len() && before[k] == w;
            assert(all[k] == w);
        }
    }
}

/// Every transaction that does something to the account is found.
pub proof fn law_every_relevant_transaction_is_found(
    watch: Watch,
    network: Network,
    blocks: Seq<CompactBlock>,
    prior: Option<(u32, [u8; 32])>,
    b: int,
    t: int,
)
    requires
        scanned_blocks(watch, network, blocks, prior) is Ok,
        holds_tx(blocks, b, t),
        !tx_at(watch, network, blocks, b, t).is_bare(),
    ensures
        (scanned_blocks(watch, network, blocks, prior)->Ok_0).0.contains(
            tx_at(watch, network, blocks, b, t),
        ),
{
    lemma_block_found(watch, network, blocks, prior, b);
    let block = blocks[b];
    let height = block.height as u32;
    let one = scanned_block(
        watch,
        network,
        block,
        block_before(blocks, prior, b),
        sizes_before(blocks, b),
    );
    let start = tree_start(network, blocks, b);
    let zip212 = zip212_at(network, height);
    let kept = Seq::new(
        block.vtx@.len(),
        |j: int| kept_tx(watch, zip212, height, block.vtx@, start, j),
    );
    assert((one->Ok_0).0 == block_txs(watch, zip212, height, block.vtx@, start, block.vtx@.len()));
    assert(kept[t] == Some(tx_at(watch, network, blocks, b, t)));
    lemma_collect_has(kept, t);
    assert((one->Ok_0).0.contains(tx_at(watch, network, blocks, b, t)));
}

/// Every transaction that is found is one of the blocks' and does something to the
/// account.
pub proof fn law_only_relevant_transactions_are_found(
    watch: Watch,
    network: Network,
    blocks: Seq<CompactBlock>,
    prior: Option<(u32, [u8; 32])>,
    k: int,
)
    requires
        scanned_blocks(watch, network, blocks, prior) is Ok,
        0 <= k < (scanned_blocks(watch, network, blocks, prior)->Ok_0).0.len(),
    ensures
        !(scanned_blocks(watch, network, blocks, prior)->Ok_0).0[k].is_bare(),
        exists|b: int, t: int|
            holds_tx(blocks, b, t) && #[trigger] tx_at(watch, network, blocks, b, t) == (
            scanned_blocks(watch, network, blocks, prior)->Ok_0).0[k],
    decreases blocks.len(),
{
    let all = (scanned_blocks(watch, network, blocks, prior)->Ok_0).0;
    let last = blocks.len() - 1;
    let init = blocks.drop_last();
    let before = (scanned_blocks(watch, network, init, prior)->Ok_0).0;
    if k < before.len() {
        law_only_relevant_transactions_are_found(watch, network, init, prior, k);
        let (b, t) = choose|b: int, t: int|
            holds_tx(init, b, t) && #[trigger] tx_at(watch, network, init, b, t) == before[k];
        assert(init[b] == blocks[b]);
        if b > 0 {
            assert(init[b - 1] == blocks[b - 1]);
        }
        assert(tx_at(watch, network, blocks, b, t) == tx_at(watch, network, init, b, t));
        assert(holds_tx(blocks, b, t));
    } else {
        let block = blocks[last];
        let height = block.height as u32;
        let start = tree_start(network, blocks, last);
        let zip212 = zip212_at(network, height);
        let kept = Seq::new(
            block.vtx@.len(),
            |j: int| kept_tx(watch, zip212, height, block.vtx@, start, j),
        );
        assert(collect_some(kept) == block_txs(
            watch,
            zip212,
            height,
            block.vtx@,
            start,
            block.vtx@.len(),
        ));
        assert(all[k] == collect_some(kept)[k - before.len()]);
        lemma_collect_from(kept, k - before.len());
        let t = choose|t: int| 0 <= t < kept.len() && #[trigger] kept[t] == Some(all[k]);
        assert(tx_at(watch, network, blocks, last, t) == all[k]);
        assert(holds_tx(blocks, last, t));
    }
}

/// Every Sapling note that a key can see is found: in its transaction, at its index, and at its
/// position in the commitment tree.
pub proof fn law_every_sapling_note_is_found(
    watch: Watch,
    network: Network,
    blocks: Seq<CompactBlock>,
    prior: Option<(u32, [u8; 32])>,
    b: int,
    t: int,
    i: int,
)
    requires
        scanned_blocks(watch, network, blocks, prior) is Ok,
        holds_tx(blocks, b, t),
        0 <= i < blocks[b].vtx@[t].outputs@.len(),
        sapling_compact_found(
            watch.sapling_keys,
            zip212_at(network, blocks[b].height as u32),
            blocks[b].vtx@[t].outputs@[i],
        ) is Some,
    ensures
        ({
            let wtx = tx_at(watch, network, blocks, b, t);
            let found = sapling_compact_found(
                watch.sapling_keys,
                zip212_at(network, blocks[b].height as u32),
                blocks[b].vtx@[t].outputs@[i],
            );
            let position = tx_start(network, blocks, b, t).0;
            let output = sapling_wallet_output(watch.sapling_keys, found, i, position)->0;
            &&& (scanned_blocks(watch, network, blocks, prior)->Ok_0).0.contains(wtx)
            &&& wtx.txid == array32(blocks[b].vtx@[t].txid@)
            &&& wtx.height == blocks[b].height as u32
            &&& wtx.tx_index == blocks[b].vtx@[t].index as u32
            &&& wtx.sapling_outputs.contains(output)
            &&& output.index == i as u32
            &&& output.note == (found->0).note
            &&& output.position == (position + i) as u64
        }),
{
    let tx = blocks[b].vtx@[t];
    let start = tx_start(network, blocks, b, t);
    let wtx = tx_at(watch, network, blocks, b, t);
    let list = Seq::new(
        tx.outputs@.len(),
        |i: int| sapling_wallet_output(
            watch.sapling_keys,
            sapling_compact_found(
                watch.sapling_keys,
                zip212_at(network, blocks[b].height as u32),
                tx.outputs@[i],
            ),
            i,
            start.0,
        ),
    );
    assert(wtx.sapling_outputs == collect_some(list)) by {
        assert(wtx.sapling_outputs == sapling_received(
            watch.sapling_keys,
            zip212_at(network, blocks[b].height as u32),
            tx.outputs@,
            start.0,
        ));
        assert(sapling_received(
            watch.sapling_keys,
            zip212_at(network, blocks[b].height as u32),
            tx.outputs@,
            start.0,
        ) == collect_some(list));
    }
    lemma_collect_has(list, i);
    law_every_relevant_transaction_is_found(watch, network, blocks, prior, b, t);
}

/// Every Orchard note that a key can see is found: in its transaction, at its index, and at its
/// position in the commitment tree.
pub proof fn law_every_orchard_note_is_found(
    watch: Watch,
    network: Network,
    blocks: Seq<CompactBlock>,
    prior: Option<(u32, [u8; 32])>,
    b: int,
    t: int,
    i: int,
)
    requires
        scanned_blocks(watch, network, blocks, prior) is Ok,
        holds_tx(blocks, b, t),
        0 <= i < blocks[b].vtx@[t].actions@.len(),
        orchard_compact_found(watch.orchard_keys, blocks[b].vtx@[t].actions@[i]) is Some,
    ensures
        ({
            let wtx = tx_at(watch, network, blocks, b, t);
            let found = orchard_compact_found(watch.orchard_keys, blocks[b].vtx@[t].actions@[i]);
            let position = tx_start(network, blocks, b, t).1;
            let output = orchard_wallet_output(watch.orchard_keys, found, i, position)->0;
            &&& (scanned_blocks(watch, network, blocks, prior)->Ok_0).0.contains(wtx)
            &&& wtx.txid == array32(blocks[b].vtx@[t].txid@)
            &&& wtx.height == blocks[b].height as u32
            &&& wtx.tx_index == blocks[b].vtx@[t].index as u32
            &&& wtx.orchard_outputs.contains(output)
            &&& output.index == i as u32
            &&& output.note == (found->0).note
            &&& output.position == (position + i) as u64
        }),
{
    let tx = blocks[b].vtx@[t];
    let start = tx_start(network, blocks, b, t);
    let wtx = tx_at(watch, network, blocks, b, t);
    let list = Seq::new(
        tx.actions@.len(),
        |i: int| orchard_wallet_output(
            watch.orchard_keys,
            orchard_compact_found(watch.orchard_keys, tx.actions@[i]),
            i,
            start.1,
        ),
    );
    assert(wtx.orchard_outputs == collect_some(list)) by {
        assert(wtx.orchard_outputs == orchard_received(watch.orchard_keys, tx.actions@, start.1));
        assert(orchard_received(watch.orchard_keys, tx.actions@, start.1) == collect_some(list));
    }
    lemma_collect_has(list, i);
    law_every_relevant_transaction_is_found(watch, network, blocks, prior, b, t);
}

/// Every Ironwood note that a key can see is found: in its transaction, at its index, and at its
/// position in the commitment tree.
pub proof fn law_every_ironwood_note_is_found(
    watch: Watch,
    network: Network,
    blocks: Seq<CompactBlock>,
    prior: Option<(u32, [u8; 32])>,
    b: int,
    t: int,
    i: int,
)
    requires
        scanned_blocks(watch, network, blocks, prior) is Ok,
        holds_tx(blocks, b, t),
        0 <= i < blocks[b].vtx@[t].ironwood_actions@.len(),
        ironwood_compact_found(watch.orchard_keys, blocks[b].vtx@[t].ironwood_actions@[i]) is Some,
    ensures
        ({
            let wtx = tx_at(watch, network, blocks, b, t);
            let found = ironwood_compact_found(
                watch.orchard_keys,
                blocks[b].vtx@[t].ironwood_actions@[i],
            );
            let position = tx_start(network, blocks, b, t).2;
            let output = orchard_wallet_output(watch.orchard_keys, found, i, position)->0;
            &&& (scanned_blocks(watch, network, blocks, prior)->Ok_0).0.contains(wtx)
            &&& wtx.txid == array32(blocks[b].vtx@[t].txid@)
            &&& wtx.height == blocks[b].height as u32
            &&& wtx.tx_index == blocks[b].vtx@[t].index as u32
            &&& wtx.ironwood_outputs.contains(output)
            &&& output.index == i as u32
            &&& output.note == (found->0).note
            &&& output.position == (position + i) as u64
        }),
{
    let tx = blocks[b].vtx@[t];
    let start = tx_start(network, blocks, b, t);
    let wtx = tx_at(watch, network, blocks, b, t);
    let list = Seq::new(
        tx.ironwood_actions@.len(),
        |i: int| orchard_wallet_output(
            watch.orchard_keys,
            ironwood_compact_found(watch.orchard_keys, tx.ironwood_actions@[i]),
            i,
            start.2,
        ),
    );
    assert(wtx.ironwood_outputs == collect_some(list)) by {
        assert(wtx.ironwood_outputs == ironwood_received(
            watch.orchard_keys,
            tx.ironwood_actions@,
            start.2,
        ));
        assert(ironwood_received(
            watch.orchard_keys,
            tx.ironwood_actions@,
            start.2,
        ) == collect_some(list));
    }
    lemma_collect_has(list, i);
    law_every_relevant_transaction_is_found(watch, network, blocks, prior, b, t);
}

/// Every Sapling note of a found transaction was decrypted by one of the keys, from the
/// output at its index.
pub proof fn law_sapling_notes_are_ours(
    watch: Watch,
    network: Network,
    blocks: Seq<CompactBlock>,
    b: int,
    t: int,
    k: int,
)
    requires
        holds_tx(blocks, b, t),
        watch.sapling_keys.len() <= usize::MAX,
        blocks[b].vtx@[t].outputs@.len() <= u32::MAX,
        0 <= k < tx_at(watch, network, blocks, b, t).sapling_outputs.len(),
    ensures
        ({
            let tx = blocks[b].vtx@[t];
            let o = tx_at(watch, network, blocks, b, t).sapling_outputs[k];
            &&& o.index < tx.outputs@.len()
            &&& sapling_compact_parts(tx.outputs@[o.index as int]) is Some
            &&& o.position == (tx_start(network, blocks, b, t).0 + o.index) as u64
            &&& !o.is_sent
            &&& exists|j: int|
                0 <= j < watch.sapling_keys.len() && #[trigger] sapling_compact_note(
                    watch.sapling_keys[j].ivk@,
                    zip212_at(network, blocks[b].height as u32),
                    sapling_compact_parts(tx.outputs@[o.index as int])->0,
                ) == Some(o.note)
        }),
{
    let tx = blocks[b].vtx@[t];
    let start = tx_start(network, blocks, b, t);
    let zip212 = zip212_at(network, blocks[b].height as u32);
    let keys = watch.sapling_keys;
    let list = Seq::new(
        tx.outputs@.len(),
        |i: int|
            sapling_wallet_output(
                keys,
                sapling_compact_found(keys, zip212, tx.outputs@[i]),
                i,
                start.0,
            ),
    );
    let outs = tx_at(watch, network, blocks, b, t).sapling_outputs;
    assert(outs == sapling_received(keys, zip212, tx.outputs@, start.0));
    assert(outs == collect_some(list));
    lemma_collect_from(list, k);
    let i = choose|i: int| 0 <= i < list.len() && #[trigger] list[i] == Some(outs[k]);
    lemma_sapling_compact_found(keys, zip212, tx.outputs@[i]);
    let r = sapling_compact_found(keys, zip212, tx.outputs@[i])->0;
    assert(sapling_compact_note(
        keys[r.key_index as int].ivk@,
        zip212,
        sapling_compact_parts(tx.outputs@[i])->0,
    ) == Some(outs[k].note));
}

/// Every Orchard note of a found transaction was decrypted by one of the keys, from the action
/// at its index.
pub proof fn law_orchard_notes_are_ours(
    watch: Watch,
    network: Network,
    blocks: Seq<CompactBlock>,
    b: int,
    t: int,
    k: int,
)
    requires
        holds_tx(blocks, b, t),
        watch.orchard_keys.len() <= usize::MAX,
        blocks[b].vtx@[t].actions@.len() <= u32::MAX,
        0 <= k < tx_at(watch, network, blocks, b, t).orchard_outputs.len(),
    ensures
        ({
            let tx = blocks[b].vtx@[t];
            let o = tx_at(watch, network, blocks, b, t).orchard_outputs[k];
            &&& o.index < tx.actions@.len()
            &&& orchard_compact_parts(tx.actions@[o.index as int]) is Some
            &&& o.position == (tx_start(network, blocks, b, t).1 + o.index) as u64
            &&& !o.is_sent
            &&& exists|j: int|
                0 <= j < watch.orchard_keys.len() && #[trigger] orchard_compact_note(
                    watch.orchard_keys[j].ivk@,
                    orchard_compact_parts(tx.actions@[o.index as int])->0,
                ) == Some(o.note)
        }),
{
    let tx = blocks[b].vtx@[t];
    let start = tx_start(network, blocks, b, t);
    let keys = watch.orchard_keys;
    let list = Seq::new(
        tx.actions@.len(),
        |i: int|
            orchard_wallet_output(keys, orchard_compact_found(keys, tx.actions@[i]), i, start.1),
    );
    let outs = tx_at(watch, network, blocks, b, t).orchard_outputs;
    assert(outs == orchard_received(keys, tx.actions@, start.1));
    assert(outs == collect_some(list));
    lemma_collect_from(list, k);
    let i = choose|i: int| 0 <= i < list.len() && #[trigger] list[i] == Some(outs[k]);
    lemma_orchard_compact_found(keys, tx.actions@[i]);
    let r = orchard_compact_found(keys, tx.actions@[i])->0;
    assert(orchard_compact_note(
        keys[r.key_index as int].ivk@,
        orchard_compact_parts(tx.actions@[i])->0,
    ) == Some(outs[k].note));
}

/// Every Ironwood note of a found transaction was decrypted by one of the keys, from the action
/// at its index.
pub proof fn law_ironwood_notes_are_ours(
    watch: Watch,
    network: Network,
    blocks: Seq<CompactBlock>,
    b: int,
    t: int,
    k: int,
)
    requires
        holds_tx(blocks, b, t),
        watch.orchard_keys.len() <= usize::MAX,
        blocks[b].vtx@[t].ironwood_actions@.len() <= u32::MAX,
        0 <= k < tx_at(watch, network, blocks, b, t).ironwood_outputs.len(),
    ensures
        ({
            let tx = blocks[b].vtx@[t];
            let o = tx_at(watch, network, blocks, b, t).ironwood_outputs[k];
            &&& o.index < tx.ironwood_actions@.len()
            &&& orchard_compact_parts(tx.ironwood_actions@[o.index as int]) is Some
            &&& o.position == (tx_start(network, blocks, b, t).2 + o.index) as u64
            &&& !o.is_sent
            &&& exists|j: int|
                0 <= j < watch.orchard_keys.len() && #[trigger] ironwood_compact_note(
                    watch.orchard_keys[j].ivk@,
                    orchard_compact_parts(tx.ironwood_actions@[o.index as int])->0,
                ) == Some(o.note)
        }),
{
    let tx = blocks[b].vtx@[t];
    let start = tx_start(network, blocks, b, t);
    let keys = watch.orchard_keys;
    let list = Seq::new(
        tx.ironwood_actions@.len(),
        |i: int|
            orchard_wallet_output(
                keys,
                ironwood_compact_found(keys, tx.ironwood_actions@[i]),
                i,
                start.2,
            ),
    );
    let outs = tx_at(watch, network, blocks, b, t).ironwood_outputs;
    assert(outs == ironwood_received(keys, tx.ironwood_actions@, start.2));
    assert(outs == collect_some(list));
    lemma_collect_from(list, k);
    let i = choose|i: int| 0 <= i < list.len() && #[trigger] list[i] == Some(outs[k]);
    lemma_ironwood_compact_found(keys, tx.ironwood_actions@[i]);
    let r = ironwood_compact_found(keys, tx.ironwood_actions@[i])->0;
    assert(ironwood_compact_note(
        keys[r.key_index as int].ivk@,
        orchard_compact_parts(tx.ironwood_actions@[i])->0,
    ) == Some(outs[k].note));
}

/// Every spend of a watched Sapling note is found, at its index.
pub proof fn law_every_sapling_spend_is_found(
    watch: Watch,
    network: Network,
    blocks: Seq<CompactBlock>,
    prior: Option<(u32, [u8; 32])>,
    b: int,
    t: int,
    i: int,
)
    requires
        scanned_blocks(watch, network, blocks, prior) is Ok,
        holds_tx(blocks, b, t),
        0 <= i < blocks[b].vtx@[t].spends@.len(),
        blocks[b].vtx@[t].spends@[i].nf@.len() == 32,
        watch.sapling_nfs.contains(array32(blocks[b].vtx@[t].spends@[i].nf@)),
    ensures
        ({
            let wtx = tx_at(watch, network, blocks, b, t);
            let nf = blocks[b].vtx@[t].spends@[i].nf@;
            &&& (scanned_blocks(watch, network, blocks, prior)->Ok_0).0.contains(wtx)
            &&& wtx.txid == array32(blocks[b].vtx@[t].txid@)
            &&& wtx.height == blocks[b].height as u32
            &&& wtx.tx_index == blocks[b].vtx@[t].index as u32
            &&& wtx.sapling_spends.contains(sapling_spend_at(watch.sapling_nfs, nf, i)->0)
            &&& (sapling_spend_at(watch.sapling_nfs, nf, i)->0).nf == array32(nf)
            &&& wtx.sapling_spends.contains(SaplingSpend { index: i as u32, nf: array32(nf) })
        }),
{
    let tx = blocks[b].vtx@[t];
    let wtx = tx_at(watch, network, blocks, b, t);
    let list = Seq::new(
        tx.spends@.len(),
        |i: int| sapling_spend_at(watch.sapling_nfs, tx.spends@[i].nf@, i),
    );
    assert(wtx.sapling_spends == sapling_spent(watch.sapling_nfs, tx.spends@));
    assert(wtx.sapling_spends == collect_some(list));
    lemma_collect_has(list, i);
    law_every_relevant_transaction_is_found(watch, network, blocks, prior, b, t);
}

/// Every Sapling spend of a found transaction reveals a watched nullifier, at its index.
pub proof fn law_sapling_spends_are_watched(
    watch: Watch,
    network: Network,
    blocks: Seq<CompactBlock>,
    b: int,
    t: int,
    k: int,
)
    requires
        holds_tx(blocks, b, t),
        blocks[b].vtx@[t].spends@.len() <= u32::MAX,
        0 <= k < tx_at(watch, network, blocks, b, t).sapling_spends.len(),
    ensures
        ({
            let tx = blocks[b].vtx@[t];
            let spend = tx_at(watch, network, blocks, b, t).sapling_spends[k];
            &&& watch.sapling_nfs.contains(spend.nf)
            &&& spend.index < tx.spends@.len()
            &&& tx.spends@[spend.index as int].nf@.len() == 32
            &&& spend.nf == array32(tx.spends@[spend.index as int].nf@)
        }),
{
    let tx = blocks[b].vtx@[t];
    let wtx = tx_at(watch, network, blocks, b, t);
    let list = Seq::new(
        tx.spends@.len(),
        |i: int| sapling_spend_at(watch.sapling_nfs, tx.spends@[i].nf@, i),
    );
    assert(wtx.sapling_spends == sapling_spent(watch.sapling_nfs, tx.spends@));
    assert(wtx.sapling_spends == collect_some(list));
    lemma_collect_from(list, k);
    let i = choose|i: int| 0 <= i < list.len() && #[trigger] list[i] == Some(wtx.sapling_spends[k]);
    assert(sapling_spend_at(
        watch.sapling_nfs,
        tx.spends@[i].nf@,
        i,
    ) == Some(wtx.sapling_spends[k]));
}

/// Every spend of a watched Orchard note is found, at its index.
pub proof fn law_every_orchard_spend_is_found(
    watch: Watch,
    network: Network,
    blocks: Seq<CompactBlock>,
    prior: Option<(u32, [u8; 32])>,
    b: int,
    t: int,
    i: int,
)
    requires
        scanned_blocks(watch, network, blocks, prior) is Ok,
        holds_tx(blocks, b, t),
        0 <= i < blocks[b].vtx@[t].actions@.len(),
        blocks[b].vtx@[t].actions@[i].nullifier@.len() == 32,
        orchard_nullifier_valid(blocks[b].vtx@[t].actions@[i].nullifier@),
        watch.orchard_nfs.contains(array32(blocks[b].vtx@[t].actions@[i].nullifier@)),
    ensures
        ({
            let wtx = tx_at(watch, network, blocks, b, t);
            let nf = blocks[b].vtx@[t].actions@[i].nullifier@;
            &&& (scanned_blocks(watch, network, blocks, prior)->Ok_0).0.contains(wtx)
            &&& wtx.txid == array32(blocks[b].vtx@[t].txid@)
            &&& wtx.height == blocks[b].height as u32
            &&& wtx.tx_index == blocks[b].vtx@[t].index as u32
            &&& wtx.orchard_spends.contains(orchard_spend_at(watch.orchard_nfs, nf, i)->0)
            &&& (orchard_spend_at(watch.orchard_nfs, nf, i)->0).nf == array32(nf)
            &&& wtx.orchard_spends.contains(OrchardSpend { index: i as u32, nf: array32(nf) })
        }),
{
    let tx = blocks[b].vtx@[t];
    let wtx = tx_at(watch, network, blocks, b, t);
    let list = Seq::new(
        tx.actions@.len(),
        |i: int| orchard_spend_at(watch.orchard_nfs, tx.actions@[i].nullifier@, i),
    );
    assert(wtx.orchard_spends == orchard_spent(watch.orchard_nfs, tx.actions@));
    assert(wtx.orchard_spends == collect_some(list));
    lemma_collect_has(list, i);
    law_every_relevant_transaction_is_found(watch, network, blocks, prior, b, t);
}

/// Every Orchard spend of a found transaction reveals a watched nullifier, at its index.
pub proof fn law_orchard_spends_are_watched(
    watch: Watch,
    network: Network,
    blocks: Seq<CompactBlock>,
    b: int,
    t: int,
    k: int,
)
    requires
        holds_tx(blocks, b, t),
        blocks[b].vtx@[t].actions@.len() <= u32::MAX,
        0 <= k < tx_at(watch, network, blocks, b, t).orchard_spends.len(),
    ensures
        ({
            let tx = blocks[b].vtx@[t];
            let spend = tx_at(watch, network, blocks, b, t).orchard_spends[k];
            &&& watch.orchard_nfs.contains(spend.nf)
            &&& spend.index < tx.actions@.len()
            &&& tx.actions@[spend.index as int].nullifier@.len() == 32
            &&& spend.nf == array32(tx.actions@[spend.index as int].nullifier@)
        }),
{
    let tx = blocks[b].vtx@[t];
    let wtx = tx_at(watch, network, blocks, b, t);
    let list = Seq::new(
        tx.actions@.len(),
        |i: int| orchard_spend_at(watch.orchard_nfs, tx.actions@[i].nullifier@, i),
    );
    assert(wtx.orchard_spends == orchard_spent(watch.orchard_nfs, tx.actions@));
    assert(wtx.orchard_spends == collect_some(list));
    lemma_collect_from(list, k);
    let i = choose|i: int| 0 <= i < list.len() && #[trigger] list[i] == Some(wtx.orchard_spends[k]);
    assert(orchard_spend_at(
        watch.orchard_nfs,
        tx.actions@[i].nullifier@,
        i,
    ) == Some(wtx.orchard_spends[k]));
}

/// Every spend of a watched Ironwood note is found, at its index.
pub proof fn law_every_ironwood_spend_is_found(
    watch: Watch,
    network: Network,
    blocks: Seq<CompactBlock>,
    prior: Option<(u32, [u8; 32])>,
    b: int,
    t: int,
    i: int,
)
    requires
        scanned_blocks(watch, network, blocks, prior) is Ok,
        holds_tx(blocks, b, t),
        0 <= i < blocks[b].vtx@[t].ironwood_actions@.len(),
        blocks[b].vtx@[t].ironwood_actions@[i].nullifier@.len() == 32,
        orchard_nullifier_valid(blocks[b].vtx@[t].ironwood_actions@[i].nullifier@),
        watch.ironwood_nfs.contains(array32(blocks[b].vtx@[t].ironwood_actions@[i].nullifier@)),
    ensures
        ({
            let wtx = tx_at(watch, network, blocks, b, t);
            let nf = blocks[b].vtx@[t].ironwood_actions@[i].nullifier@;
            &&& (scanned_blocks(watch, network, blocks, prior)->Ok_0).0.contains(wtx)
            &&& wtx.txid == array32(blocks[b].vtx@[t].txid@)
            &&& wtx.height == blocks[b].height as u32
            &&& wtx.tx_index == blocks[b].vtx@[t].index as u32
            &&& wtx.ironwood_spends.contains(orchard_spend_at(watch.ironwood_nfs, nf, i)->0)
            &&& (orchard_spend_at(watch.ironwood_nfs, nf, i)->0).nf == array32(nf)
            &&& wtx.ironwood_spends.contains(OrchardSpend { index: i as u32, nf: array32(nf) })
        }),
{
    let tx = blocks[b].vtx@[t];
    let wtx = tx_at(watch, network, blocks, b, t);
    let list = Seq::new(
        tx.ironwood_actions@.len(),
        |i: int| orchard_spend_at(watch.ironwood_nfs, tx.ironwood_actions@[i].nullifier@, i),
    );
    assert(wtx.ironwood_spends == orchard_spent(watch.ironwood_nfs, tx.ironwood_actions@));
    assert(wtx.ironwood_spends == collect_some(list));
    lemma_collect_has(list, i);
    law_every_relevant_transaction_is_found(watch, network, blocks, prior, b, t);
}

/// Every Ironwood spend of a found transaction reveals a watched nullifier, at its index.
pub proof fn law_ironwood_spends_are_watched(
    watch: Watch,
    network: Network,
    blocks: Seq<CompactBlock>,
    b: int,
    t: int,
    k: int,
)
    requires
        holds_tx(blocks, b, t),
        blocks[b].vtx@[t].ironwood_actions@.len() <= u32::MAX,
        0 <= k < tx_at(watch, network, blocks, b, t).ironwood_spends.len(),
    ensures
        ({
            let tx = blocks[b].vtx@[t];
            let spend = tx_at(watch, network, blocks, b, t).ironwood_spends[k];
            &&& watch.ironwood_nfs.contains(spend.nf)
            &&& spend.index < tx.ironwood_actions@.len()
            &&& tx.ironwood_actions@[spend.index as int].nullifier@.len() == 32
            &&& spend.nf == array32(tx.ironwood_actions@[spend.index as int].nullifier@)
        }),
{
    let tx = blocks[b].vtx@[t];
    let wtx = tx_at(watch, network, blocks, b, t);
    let list = Seq::new(
        tx.ironwood_actions@.len(),
        |i: int| orchard_spend_at(watch.ironwood_nfs, tx.ironwood_actions@[i].nullifier@, i),
    );
    assert(wtx.ironwood_spends == orchard_spent(watch.ironwood_nfs, tx.ironwood_actions@));
    assert(wtx.ironwood_spends == collect_some(list));
    lemma_collect_from(list, k);
    let i = choose|i: int| 0 <= i < list.len() && #[trigger] list[i] == Some(wtx.ironwood_spends[k]);
    assert(orchard_spend_at(
        watch.ironwood_nfs,
        tx.ironwood_actions@[i].nullifier@,
        i,
    ) == Some(wtx.ironwood_spends[k]));
}

/// Every transparent output that pays one of the scripts is found.
pub proof fn law_every_transparent_output_is_found(
    watch: Watch,
    network: Network,
    blocks: Seq<CompactBlock>,
    prior: Option<(u32, [u8; 32])>,
    b: int,
    t: int,
    i: int,
)
    requires
        scanned_blocks(watch, network, blocks, prior) is Ok,
        holds_tx(blocks, b, t),
        0 <= i < blocks[b].vtx@[t].vout@.len(),
        watch.scripts is Some,
        (watch.scripts->0).contains(blocks[b].vtx@[t].vout@[i].script_pub_key@),
    ensures
        ({
            let tx = blocks[b].vtx@[t];
            let wtx = tx_at(watch, network, blocks, b, t);
            &&& (scanned_blocks(watch, network, blocks, prior)->Ok_0).0.contains(wtx)
            &&& wtx.txid == array32(blocks[b].vtx@[t].txid@)
            &&& wtx.height == blocks[b].height as u32
            &&& wtx.tx_index == blocks[b].vtx@[t].index as u32
            &&& wtx.transparent_outputs.contains(
                transparent_output_at(
                    watch.scripts->0,
                    array32(tx.txid@),
                    tx.vout@[i],
                    i,
                    blocks[b].height as u32,
                )->0,
            )
            &&& wtx.transparent_outputs.contains(
                TransparentOutputView {
                    outpoint: OutPoint { hash: array32(tx.txid@), n: i as u32 },
                    value: tx.vout@[i].value,
                    script: tx.vout@[i].script_pub_key@,
                    height: blocks[b].height as u32,
                },
            )
        }),
{
    let tx = blocks[b].vtx@[t];
    let height = blocks[b].height as u32;
    let txid = array32(tx.txid@);
    let wtx = tx_at(watch, network, blocks, b, t);
    let scripts = watch.scripts->0;
    let list = Seq::new(
        tx.vout@.len(),
        |i: int| transparent_output_at(scripts, txid, tx.vout@[i], i, height),
    );
    assert(wtx.transparent_outputs == transparent_received(scripts, txid, tx.vout@, height));
    assert(wtx.transparent_outputs == collect_some(list));
    lemma_collect_has(list, i);
    law_every_relevant_transaction_is_found(watch, network, blocks, prior, b, t);
}

/// Every spend of a watched transparent output is found.
pub proof fn law_every_transparent_spend_is_found(
    watch: Watch,
    network: Network,
    blocks: Seq<CompactBlock>,
    prior: Option<(u32, [u8; 32])>,
    b: int,
    t: int,
    i: int,
)
    requires
        scanned_blocks(watch, network, blocks, prior) is Ok,
        holds_tx(blocks, b, t),
        0 <= i < blocks[b].vtx@[t].vin@.len(),
        watch.scripts is Some,
        blocks[b].vtx@[t].vin@[i].prevout_txid@.len() == 32,
        watch.outpoints.contains(
            (OutPoint {
                hash: array32(blocks[b].vtx@[t].vin@[i].prevout_txid@),
                n: blocks[b].vtx@[t].vin@[i].prevout_index,
            }),
        ),
    ensures
        ({
            let tx = blocks[b].vtx@[t];
            let wtx = tx_at(watch, network, blocks, b, t);
            &&& (scanned_blocks(watch, network, blocks, prior)->Ok_0).0.contains(wtx)
            &&& wtx.txid == array32(blocks[b].vtx@[t].txid@)
            &&& wtx.height == blocks[b].height as u32
            &&& wtx.tx_index == blocks[b].vtx@[t].index as u32
            &&& wtx.transparent_spends.contains(
                transparent_spend_at(
                    watch.outpoints,
                    array32(tx.txid@),
                    tx.vin@[i],
                    blocks[b].height as u32,
                )->0,
            )
            &&& wtx.transparent_spends.contains(
                TransparentSpend {
                    txid: array32(tx.txid@),
                    outpoint: OutPoint {
                        hash: array32(tx.vin@[i].prevout_txid@),
                        n: tx.vin@[i].prevout_index,
                    },
                    height: blocks[b].height as u32,
                },
            )
        }),
{
    let tx = blocks[b].vtx@[t];
    let height = blocks[b].height as u32;
    let txid = array32(tx.txid@);
    let wtx = tx_at(watch, network, blocks, b, t);
    let list = Seq::new(
        tx.vin@.len(),
        |i: int| transparent_spend_at(watch.outpoints, txid, tx.vin@[i], height),
    );
    assert(wtx.transparent_spends == transparent_spent(watch.outpoints, txid, tx.vin@, height));
    assert(wtx.transparent_spends == collect_some(list));
    lemma_collect_has(list, i);
    law_every_relevant_transaction_is_found(watch, network, blocks, prior, b, t);
}

/// What a transaction brings in does not depend on which notes and outputs are watched.
pub proof fn law_notes_do_not_depend_on_watching(
    watch: Watch,
    other: Watch,
    network: Network,
    blocks: Seq<CompactBlock>,
    b: int,
    t: int,
)
    requires
        watch.sapling_keys == other.sapling_keys,
        watch.orchard_keys == other.orchard_keys,
        watch.scripts == other.scripts,
    ensures
        ({
            let here = tx_at(watch, network, blocks, b, t);
            let there = tx_at(other, network, blocks, b, t);
            &&& here.sapling_outputs == there.sapling_outputs
            &&& here.orchard_outputs == there.orchard_outputs
            &&& here.ironwood_outputs == there.ironwood_outputs
            &&& here.transparent_outputs == there.transparent_outputs
        }),
{
}

/// Whether every key derives nullifiers, as those of a full viewing key do.
pub open spec fn full_keys(watch: Watch) -> bool {
    &&& forall|j: int| 0 <= j < watch.sapling_keys.len()
        ==> (#[trigger] watch.sapling_keys[j]).nk is Some
    &&& forall|j: int| 0 <= j < watch.orchard_keys.len()
        ==> (#[trigger] watch.orchard_keys[j]).nk is Some
}

/// Whether no key derives nullifiers, as none of an incoming viewing key does.
pub open spec fn incoming_keys(watch: Watch) -> bool {
    &&& forall|j: int| 0 <= j < watch.sapling_keys.len()
        ==> (#[trigger] watch.sapling_keys[j]).nk is None
    &&& forall|j: int| 0 <= j < watch.orchard_keys.len()
        ==> (#[trigger] watch.orchard_keys[j]).nk is None
}

/// With a full viewing key every note found has its nullifier, and so can be watched; with
/// an incoming viewing key none has.
pub proof fn law_full_keys_give_nullifiers(
    watch: Watch,
    network: Network,
    blocks: Seq<CompactBlock>,
    b: int,
    t: int,
)
    requires
        holds_tx(blocks, b, t),
        watch.sapling_keys.len() <= usize::MAX,
        watch.orchard_keys.len() <= usize::MAX,
    ensures
        ({
            let wtx = tx_at(watch, network, blocks, b, t);
            &&& full_keys(watch) ==> {
                &&& forall|k: int| 0 <= k < wtx.sapling_outputs.len()
                    ==> (#[trigger] wtx.sapling_outputs[k]).nf is Some
                &&& forall|k: int| 0 <= k < wtx.orchard_outputs.len()
                    ==> (#[trigger] wtx.orchard_outputs[k]).nf is Some
                &&& forall|k: int| 0 <= k < wtx.ironwood_outputs.len()
                    ==> (#[trigger] wtx.ironwood_outputs[k]).nf is Some
            }
            &&& incoming_keys(watch) ==> {
                &&& forall|k: int| 0 <= k < wtx.sapling_outputs.len()
                    ==> (#[trigger] wtx.sapling_outputs[k]).nf is None
                &&& forall|k: int| 0 <= k < wtx.orchard_outputs.len()
                    ==> (#[trigger] wtx.orchard_outputs[k]).nf is None
                &&& forall|k: int| 0 <= k < wtx.ironwood_outputs.len()
                    ==> (#[trigger] wtx.ironwood_outputs[k]).nf is None
            }
        }),
{
    let tx = blocks[b].vtx@[t];
    let start = tx_start(network, blocks, b, t);
    let zip212 = zip212_at(network, blocks[b].height as u32);
    let wtx = tx_at(watch, network, blocks, b, t);
    assert forall|k: int| 0 <= k < wtx.sapling_outputs.len() implies (full_keys(watch)
        ==> (#[trigger] wtx.sapling_outputs[k]).nf is Some)
        && (incoming_keys(watch) ==> wtx.sapling_outputs[k].nf is None) by {
        let keys = watch.sapling_keys;
        let list = Seq::new(
            tx.outputs@.len(),
            |i: int|
                sapling_wallet_output(
                    keys,
                    sapling_compact_found(keys, zip212, tx.outputs@[i]),
                    i,
                    start.0,
                ),
        );
        assert(wtx.sapling_outputs == sapling_received(keys, zip212, tx.outputs@, start.0));
        assert(wtx.sapling_outputs == collect_some(list));
        lemma_collect_from(list, k);
        let i = choose|i: int| 0 <= i < list.len() && #[trigger] list[i] == Some(wtx.sapling_outputs[k]);
        lemma_sapling_compact_found(keys, zip212, tx.outputs@[i]);
        let r = sapling_compact_found(keys, zip212, tx.outputs@[i])->0;
        assert(keys[r.key_index as int].nk is Some || keys[r.key_index as int].nk is None);
    }
    assert forall|k: int| 0 <= k < wtx.orchard_outputs.len() implies (full_keys(watch)
        ==> (#[trigger] wtx.orchard_outputs[k]).nf is Some)
        && (incoming_keys(watch) ==> wtx.orchard_outputs[k].nf is None) by {
        let keys = watch.orchard_keys;
        let list = Seq::new(
            tx.actions@.len(),
            |i: int| orchard_wallet_output(
                keys,
                orchard_compact_found(keys, tx.actions@[i]),
                i,
                start.1,
            ),
        );
        assert(wtx.orchard_outputs == orchard_received(keys, tx.actions@, start.1));
        assert(wtx.orchard_outputs == collect_some(list));
        lemma_collect_from(list, k);
        let i = choose|i: int| 0 <= i < list.len() && #[trigger] list[i] == Some(wtx.orchard_outputs[k]);
        lemma_orchard_compact_found(keys, tx.actions@[i]);
        let r = orchard_compact_found(keys, tx.actions@[i])->0;
        assert(keys[r.key_index as int].nk is Some || keys[r.key_index as int].nk is None);
    }
    assert forall|k: int| 0 <= k < wtx.ironwood_outputs.len() implies (full_keys(watch)
        ==> (#[trigger] wtx.ironwood_outputs[k]).nf is Some)
        && (incoming_keys(watch) ==> wtx.ironwood_outputs[k].nf is None) by {
        let keys = watch.orchard_keys;
        let list = Seq::new(
            tx.ironwood_actions@.len(),
            |i: int| orchard_wallet_output(
                keys,
                ironwood_compact_found(keys, tx.ironwood_actions@[i]),
                i,
                start.2,
            ),
        );
        assert(wtx.ironwood_outputs == ironwood_received(keys, tx.ironwood_actions@, start.2));
        assert(wtx.ironwood_outputs == collect_some(list));
        lemma_collect_from(list, k);
        let i = choose|i: int| 0 <= i < list.len() && #[trigger] list[i] == Some(wtx.ironwood_outputs[k]);
        lemma_ironwood_compact_found(keys, tx.ironwood_actions@[i]);
        let r = ironwood_compact_found(keys, tx.ironwood_actions@[i])->0;
        assert(keys[r.key_index as int].nk is Some || keys[r.key_index as int].nk is None);
    }
}

} // verus!
