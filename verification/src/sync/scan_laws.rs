//! Laws of scanning blocks in turn: which blocks scan, where the trees stand, and in which order
//! transactions are found.

use vstd::prelude::*;

use crate::bytes::{array32, lemma_array32_bytes};
use crate::primitives::{Network, NetworkUpgrade, ShieldedPool, Zip212Enforcement};
use crate::proto::{CompactBlock, CompactTx};
use crate::seqs::{collect_some, lemma_collect_picks, picks};
use crate::sync::laws::{holds_tx, tree_start, tx_at};
use crate::sync::scan::{
    block_before, block_ids, block_progress, block_txs, counts, final_sizes, good_prefix, grown,
    initial_size, initial_sizes, ironwood_count, kept_tx, lemma_good_prefix, orchard_count,
    sapling_count, scanned_block, scanned_blocks, scanned_tx, sizes_before, ScanError, TreeSizes,
    Watch,
};
use crate::upstream::consensus_rules::{activation_of, zip212_at};

verus! {

/// A transaction adds to each tree what it has of that pool, whatever comes before it.
pub proof fn law_outputs_are_counted_one_by_one(vtx: Seq<CompactTx>, tx: CompactTx)
    ensures
        counts(Seq::<CompactTx>::empty()) == (0nat, 0nat, 0nat),
        counts(vtx.push(tx)).0 == counts(vtx).0 + tx.outputs@.len(),
        counts(vtx.push(tx)).1 == counts(vtx).1 + tx.actions@.len(),
        counts(vtx.push(tx)).2 == counts(vtx).2 + tx.ironwood_actions@.len(),
        counts(vtx) == (sapling_count(vtx), orchard_count(vtx), ironwood_count(vtx)),
{
    assert(vtx.push(tx).drop_last() =~= vtx);
}

/// The size of a tree before a block is what the block tells for after it less what the block
/// adds. Where it tells nothing, the tree is empty as long as the pool is not active, and else
/// the size is not known.
pub proof fn law_initial_size_is_told_by_the_block(
    network: Network,
    height: u32,
    pool: ShieldedPool,
    told: u32,
    count: nat,
    upgrade: NetworkUpgrade,
)
    requires
        count <= u32::MAX,
    ensures
        ({
            let size = initial_size(network, height, pool, told, count, upgrade);
            &&& told > 0 && count <= told ==> size == Ok::<u32, ScanError>((told - count) as u32)
            &&& told == 0 && height < activation_of(network, upgrade) ==> size == Ok::<
                u32,
                ScanError,
            >(0)
            &&& told > 0 && count > told ==> size == Err::<u32, ScanError>(
                ScanError::TreeSizeUnknown(pool, height),
            )
            &&& told == 0 && height >= activation_of(network, upgrade) ==> size == Err::<
                u32,
                ScanError,
            >(ScanError::TreeSizeUnknown(pool, height))
        }),
{
}

/// The sizes before a block are known exactly where that of every pool is, each from the size
/// told for that pool and the block's outputs of that pool. The first pool whose size is not
/// known is told.
pub proof fn law_initial_sizes_are_told_pool_by_pool(
    network: Network,
    height: u32,
    block: CompactBlock,
)
    ensures
        ({
            let told = match block.chain_metadata {
                Some(m) => (
                    m.sapling_commitment_tree_size,
                    m.orchard_commitment_tree_size,
                    m.ironwood_commitment_tree_size,
                ),
                None => (0u32, 0u32, 0u32),
            };
            let n = counts(block.vtx@);
            let s = initial_size(
                network,
                height,
                ShieldedPool::Sapling,
                told.0,
                n.0,
                NetworkUpgrade::Sapling,
            );
            let o = initial_size(
                network,
                height,
                ShieldedPool::Orchard,
                told.1,
                n.1,
                NetworkUpgrade::Nu5,
            );
            let i = initial_size(
                network,
                height,
                ShieldedPool::Ironwood,
                told.2,
                n.2,
                NetworkUpgrade::Nu6_3,
            );
            let all = initial_sizes(network, height, block);
            &&& s is Ok && o is Ok && i is Ok ==> all == Ok::<(u32, u32, u32), ScanError>(
                (s->Ok_0, o->Ok_0, i->Ok_0),
            )
            &&& s is Err ==> all == Err::<(u32, u32, u32), ScanError>(s->Err_0)
            &&& s is Ok && o is Err ==> all == Err::<(u32, u32, u32), ScanError>(o->Err_0)
            &&& s is Ok && o is Ok && i is Err ==> all == Err::<(u32, u32, u32), ScanError>(i->Err_0)
        }),
{
}

/// The sizes after a block are those that it tells or, where it tells none, what it adds.
pub proof fn law_final_sizes_are_told_by_the_block(block: CompactBlock)
    ensures
        block.chain_metadata matches Some(m) ==> final_sizes(block) == (
            m.sapling_commitment_tree_size as nat,
            m.orchard_commitment_tree_size as nat,
            m.ironwood_commitment_tree_size as nat,
        ),
        block.chain_metadata is None ==> final_sizes(block) == (
            sapling_count(block.vtx@),
            orchard_count(block.vtx@),
            ironwood_count(block.vtx@),
        ),
{
}

/// Whether the transactions of a block have ids of 32 bytes, and indices that fit.
pub open spec fn txs_formed(block: CompactBlock) -> bool {
    forall|t: int|
        0 <= t < block.vtx@.len() ==> (#[trigger] block.vtx@[t]).txid@.len() == 32
            && block.vtx@[t].index <= u32::MAX
}

/// Whether a block tells the sizes that its outputs lead to from the given ones, or none.
pub open spec fn tells_sizes(block: CompactBlock, start: TreeSizes) -> bool {
    block.chain_metadata matches Some(m) ==> {
        &&& m.sapling_commitment_tree_size == start.0 + sapling_count(block.vtx@)
        &&& m.orchard_commitment_tree_size == start.1 + orchard_count(block.vtx@)
        &&& m.ironwood_commitment_tree_size == start.2 + ironwood_count(block.vtx@)
    }
}

/// Whether a block comes just after one of the given height and hash.
pub open spec fn comes_after(block: CompactBlock, height: u32, hash: Seq<u8>) -> bool {
    &&& block.height == (if height < u32::MAX {
        height + 1
    } else {
        height as int
    })
    &&& block.prev_hash@ == hash
}

/// A block scans exactly where it is well formed, comes after the one before it, and tells the
/// sizes that its outputs lead to.
proof fn lemma_block_scans(
    watch: Watch,
    network: Network,
    block: CompactBlock,
    prev: Option<(u32, [u8; 32])>,
    sizes: Option<TreeSizes>,
)
    ensures
        scanned_block(watch, network, block, prev, sizes) is Ok <==> {
            &&& block.height <= u32::MAX
            &&& block.hash@.len() == 32
            &&& prev matches Some((height, hash)) ==> comes_after(block, height, hash@)
            &&& sizes is None ==> initial_sizes(network, block.height as u32, block) is Ok
            &&& txs_formed(block)
            &&& tells_sizes(
                block,
                match sizes {
                    Some(known) => known,
                    None => {
                        let (s, o, i) = initial_sizes(network, block.height as u32, block)->Ok_0;
                        (s as nat, o as nat, i as nat)
                    },
                },
            )
        },
{
    lemma_formed(block.vtx@);
}

/// Every transaction is well formed exactly where the longest good prefix is all of them.
proof fn lemma_formed(vtx: Seq<CompactTx>)
    ensures
        good_prefix(vtx) <= vtx.len(),
        good_prefix(vtx) == vtx.len() <==> forall|t: int|
            0 <= t < vtx.len() ==> (#[trigger] vtx[t]).txid@.len() == 32 && vtx[t].index <= u32::MAX,
    decreases vtx.len(),
{
    if vtx.len() > 0 {
        let init = vtx.drop_last();
        lemma_formed(init);
        assert forall|t: int| 0 <= t < init.len() implies (#[trigger] vtx[t]) == init[t] by {}
        if good_prefix(vtx) == vtx.len() {
            assert forall|t: int| 0 <= t < vtx.len() implies (#[trigger] vtx[t]).txid@.len() == 32
                && vtx[t].index <= u32::MAX by {
                if t < init.len() {
                    assert(init[t] == vtx[t]);
                }
            }
        }
        if forall|t: int|
            0 <= t < vtx.len() ==> (#[trigger] vtx[t]).txid@.len() == 32 && vtx[t].index
                <= u32::MAX {
            assert forall|t: int| 0 <= t < init.len() implies (#[trigger] init[t]).txid@.len()
                == 32 && init[t].index <= u32::MAX by {
                assert(vtx[t].txid@.len() == 32);
            }
            assert(vtx[vtx.len() - 1].txid@.len() == 32);
        }
    }
}

/// Whether the block at `b` can be scanned after those before it.
pub open spec fn fits_in(
    network: Network,
    blocks: Seq<CompactBlock>,
    prior: Option<(u32, [u8; 32])>,
    b: int,
) -> bool {
    let block = blocks[b];
    &&& block.height <= u32::MAX
    &&& block.hash@.len() == 32
    &&& b == 0 ==> (prior matches Some((height, hash)) ==> comes_after(block, height, hash@))
    &&& b > 0 ==> comes_after(block, blocks[b - 1].height as u32, blocks[b - 1].hash@)
    &&& b == 0 ==> initial_sizes(network, block.height as u32, block) is Ok
    &&& txs_formed(block)
    &&& tells_sizes(block, tree_start(network, blocks, b))
}

/// Blocks scan exactly where each is well formed, comes just after the one before it, and tells
/// the sizes that its outputs lead to. Nothing else is an error.
pub proof fn law_blocks_scan_where_they_fit(
    watch: Watch,
    network: Network,
    blocks: Seq<CompactBlock>,
    prior: Option<(u32, [u8; 32])>,
)
    ensures
        scanned_blocks(watch, network, blocks, prior) is Ok <==> forall|b: int|
            0 <= b < blocks.len() ==> #[trigger] fits_in(network, blocks, prior, b),
    decreases blocks.len(),
{
    if blocks.len() > 0 {
        let init = blocks.drop_last();
        let last = blocks.len() - 1;
        law_blocks_scan_where_they_fit(watch, network, init, prior);
        assert forall|b: int| 0 <= b < last implies #[trigger] fits_in(network, blocks, prior, b)
            == fits_in(network, init, prior, b) by {
            assert(init[b] == blocks[b]);
            if b > 0 {
                assert(init[b - 1] == blocks[b - 1]);
            }
            assert(tree_start(network, init, b) == tree_start(network, blocks, b));
        }
        lemma_block_scans(
            watch,
            network,
            blocks[last],
            block_before(blocks, prior, last),
            sizes_before(blocks, last),
        );
        if scanned_blocks(watch, network, init, prior) is Ok {
            if last > 0 {
                assert(fits_in(network, init, prior, last - 1));
                assert(init[last - 1] == blocks[last - 1]);
                lemma_array32_bytes(blocks[last - 1].hash@);
            }
            assert(scanned_blocks(watch, network, blocks, prior) is Ok == fits_in(
                network,
                blocks,
                prior,
                last,
            ));
            if fits_in(network, blocks, prior, last) {
                assert forall|b: int| 0 <= b < blocks.len() implies #[trigger] fits_in(
                    network,
                    blocks,
                    prior,
                    b,
                ) by {
                    if b < last {
                        assert(fits_in(network, init, prior, b));
                    }
                }
            }
        } else {
            let b = choose|b: int|
                0 <= b < init.len() && !(#[trigger] fits_in(network, init, prior, b));
            assert(!fits_in(network, blocks, prior, b));
        }
    }
}

/// The first block that does not scan decides the error, whatever comes after it.
pub proof fn law_first_bad_block_decides(
    watch: Watch,
    network: Network,
    blocks: Seq<CompactBlock>,
    more: Seq<CompactBlock>,
    prior: Option<(u32, [u8; 32])>,
)
    requires
        scanned_blocks(watch, network, blocks, prior) is Err,
    ensures
        scanned_blocks(watch, network, blocks + more, prior) == scanned_blocks(
            watch,
            network,
            blocks,
            prior,
        ),
    decreases more.len(),
{
    if more.len() == 0 {
        assert(blocks + more =~= blocks);
    } else {
        law_first_bad_block_decides(watch, network, blocks, more.drop_last(), prior);
        assert((blocks + more).drop_last() =~= blocks + more.drop_last());
    }
}

/// A block that cannot be scanned is refused for its first fault: its height, its hash, its
/// link to the block before it, the sizes before it, a malformed transaction, and the sizes
/// after it, in this order.
pub proof fn law_block_is_refused_for_its_first_fault(
    watch: Watch,
    network: Network,
    block: CompactBlock,
    prev: Option<(u32, [u8; 32])>,
    sizes: Option<TreeSizes>,
)
    requires
        scanned_block(watch, network, block, prev, sizes) is Err,
    ensures
        ({
            let e = scanned_block(watch, network, block, prev, sizes)->Err_0;
            let height = block.height as u32;
            let unlinked = prev matches Some((h, hash)) && !comes_after(block, h, hash@);
            let unknown = sizes is None && initial_sizes(network, height, block) is Err;
            if block.height > u32::MAX {
                e == ScanError::InvalidCompactBlock(0)
            } else if block.hash@.len() != 32 {
                e == ScanError::InvalidCompactBlock(height)
            } else if unlinked {
                let (prev_height, hash) = prev->0;
                if block.prev_hash@ == hash@ || block.height != (if prev_height < u32::MAX {
                    prev_height + 1
                } else {
                    prev_height as int
                }) {
                    e == ScanError::BlockHeightDiscontinuity { prev_height, new_height: height }
                } else {
                    e == ScanError::PrevHashMismatch(height)
                }
            } else if unknown {
                e == initial_sizes(network, height, block)->Err_0
            } else if !txs_formed(block) {
                e == ScanError::InvalidCompactBlock(height)
            } else {
                let start = match sizes {
                    Some(known) => known,
                    None => {
                        let (s, o, i) = initial_sizes(network, height, block)->Ok_0;
                        (s as nat, o as nat, i as nat)
                    },
                };
                let m = block.chain_metadata->0;
                let after = (
                    start.0 + sapling_count(block.vtx@),
                    start.1 + orchard_count(block.vtx@),
                    start.2 + ironwood_count(block.vtx@),
                );
                &&& block.chain_metadata is Some
                &&& if m.sapling_commitment_tree_size != after.0 {
                    e == ScanError::TreeSizeMismatch {
                        pool: ShieldedPool::Sapling,
                        at_height: height,
                        given: m.sapling_commitment_tree_size,
                        computed: after.0 as u32,
                    }
                } else if m.orchard_commitment_tree_size != after.1 {
                    e == ScanError::TreeSizeMismatch {
                        pool: ShieldedPool::Orchard,
                        at_height: height,
                        given: m.orchard_commitment_tree_size,
                        computed: after.1 as u32,
                    }
                } else {
                    e == ScanError::TreeSizeMismatch {
                        pool: ShieldedPool::Ironwood,
                        at_height: height,
                        given: m.ironwood_commitment_tree_size,
                        computed: after.2 as u32,
                    }
                }
            }
        }),
{
    lemma_formed(block.vtx@);
}

/// Whether a place in some blocks comes before another.
pub open spec fn place_before(a: (int, int), b: (int, int)) -> bool {
    a.0 < b.0 || (a.0 == b.0 && a.1 < b.1)
}

/// Transactions are found in the order of the chain, each once, and every one that does
/// something to the account: `at` holds the block and the index in it of each.
pub proof fn law_transactions_are_found_in_chain_order(
    watch: Watch,
    network: Network,
    blocks: Seq<CompactBlock>,
    prior: Option<(u32, [u8; 32])>,
) -> (at: Seq<(int, int)>)
    requires
        scanned_blocks(watch, network, blocks, prior) is Ok,
    ensures
        ({
            let found = (scanned_blocks(watch, network, blocks, prior)->Ok_0).0;
            &&& at.len() == found.len()
            &&& forall|k: int|
                0 <= k < at.len() ==> holds_tx(blocks, (#[trigger] at[k]).0, at[k].1) && found[k]
                    == tx_at(watch, network, blocks, at[k].0, at[k].1)
            &&& forall|k: int, m: int|
                0 <= k < m < at.len() ==> place_before(#[trigger] at[k], #[trigger] at[m])
            &&& forall|b: int, t: int|
                holds_tx(blocks, b, t) && !(#[trigger] tx_at(
                    watch,
                    network,
                    blocks,
                    b,
                    t,
                )).is_bare() ==> at.contains((b, t))
        }),
    decreases blocks.len(),
{
    if blocks.len() == 0 {
        Seq::empty()
    } else {
        let init = blocks.drop_last();
        let last = blocks.len() - 1;
        let before = law_transactions_are_found_in_chain_order(watch, network, init, prior);
        let found = (scanned_blocks(watch, network, blocks, prior)->Ok_0).0;
        let so_far = (scanned_blocks(watch, network, init, prior)->Ok_0).0;
        let block = blocks[last];
        let height = block.height as u32;
        let zip212 = zip212_at(network, height);
        let start = tree_start(network, blocks, last);
        let kept = Seq::new(
            block.vtx@.len(),
            |j: int| kept_tx(watch, zip212, height, block.vtx@, start, j),
        );
        assert(found == so_far + collect_some(kept));
        lemma_collect_picks(kept);
        let places = choose|places: Seq<int>| #[trigger] picks(collect_some(kept), kept, places);
        let more = places.map_values(|t: int| (last, t));
        let at = before + more;
        assert forall|b: int, t: int| holds_tx(init, b, t) implies #[trigger] tx_at(
            watch,
            network,
            blocks,
            b,
            t,
        ) == tx_at(watch, network, init, b, t) by {
            assert(init[b] == blocks[b]);
            if b > 0 {
                assert(init[b - 1] == blocks[b - 1]);
            }
        }
        assert forall|k: int| 0 <= k < at.len() implies holds_tx(blocks, (#[trigger] at[k]).0, at[k].1)
            && found[k] == tx_at(watch, network, blocks, at[k].0, at[k].1) by {
            if k < before.len() {
                assert(at[k] == before[k]);
                assert(holds_tx(init, before[k].0, before[k].1));
                assert(init[before[k].0] == blocks[before[k].0]);
            } else {
                let m = k - before.len();
                assert(at[k] == (last, places[m]));
                assert(kept[places[m]] == Some(collect_some(kept)[m]));
            }
        }
        assert forall|k: int, m: int| 0 <= k < m < at.len() implies place_before(
            #[trigger] at[k],
            #[trigger] at[m],
        ) by {
            if m < before.len() {
                assert(at[k] == before[k] && at[m] == before[m]);
            } else if k < before.len() {
                assert(at[k] == before[k]);
                assert(holds_tx(init, before[k].0, before[k].1));
                assert(at[m].0 == last);
            } else {
                assert(at[k] == (last, places[k - before.len()]));
                assert(at[m] == (last, places[m - before.len()]));
            }
        }
        assert forall|b: int, t: int|
            holds_tx(blocks, b, t) && !(#[trigger] tx_at(watch, network, blocks, b, t)).is_bare()
            implies at.contains((b, t)) by {
            if b < last {
                assert(init[b] == blocks[b]);
                assert(holds_tx(init, b, t));
                assert(before.contains((b, t)));
                let k = choose|k: int| 0 <= k < before.len() && before[k] == (b, t);
                assert(at[k] == (b, t));
            } else {
                assert(kept[t] == Some(tx_at(watch, network, blocks, b, t)));
                assert(places.contains(t));
                let k = choose|k: int| 0 <= k < places.len() && places[k] == t;
                assert(at[before.len() + k] == (b, t));
            }
        }
        at
    }
}

/// A scan lists every transaction of the blocks in order, with its id, its block's height and
/// its index, whether or not it does anything to the account.
pub proof fn law_every_transaction_is_listed(
    watch: Watch,
    network: Network,
    blocks: Seq<CompactBlock>,
    block: CompactBlock,
    prior: Option<(u32, [u8; 32])>,
)
    requires
        scanned_blocks(watch, network, blocks.push(block), prior) is Ok,
    ensures
        ({
            let before = scanned_blocks(watch, network, blocks, prior);
            let after = scanned_blocks(watch, network, blocks.push(block), prior);
            let n = (before->Ok_0).1.len() as int;
            &&& before is Ok
            &&& (after->Ok_0).1.len() == n + block.vtx@.len()
            &&& (after->Ok_0).1.take(n) == (before->Ok_0).1
            &&& forall|t: int|
                0 <= t < block.vtx@.len() ==> (after->Ok_0).1[n + t] == (
                    array32((#[trigger] block.vtx@[t]).txid@),
                    block.height as u32,
                    block.vtx@[t].index as u32,
                )
            &&& (scanned_blocks(watch, network, Seq::<CompactBlock>::empty(), prior)->Ok_0).1.len()
                == 0
        }),
{
    let all = blocks.push(block);
    assert(all.drop_last() =~= blocks);
    let before = scanned_blocks(watch, network, blocks, prior);
    let after = scanned_blocks(watch, network, all, prior);
    let n = (before->Ok_0).1.len() as int;
    assert((after->Ok_0).1.take(n) =~= (before->Ok_0).1);
}

/// A block is gone through up to its first malformed transaction, and what those before it do to
/// the account is told in order.
pub proof fn law_block_is_gone_through_up_to_the_first_malformed(
    watch: Watch,
    zip212: Zip212Enforcement,
    block: CompactBlock,
    start: TreeSizes,
    n: nat,
)
    requires
        n < block.vtx@.len(),
    ensures
        block.height > u32::MAX ==> block_progress(block) == 0,
        block.height <= u32::MAX && (forall|t: int|
            0 <= t < n ==> (#[trigger] block.vtx@[t]).txid@.len() == 32 && block.vtx@[t].index
                <= u32::MAX) && (block.vtx@[n as int].txid@.len() != 32 || block.vtx@[n as int].index
            > u32::MAX) ==> block_progress(block) == n,
        block.height <= u32::MAX && txs_formed(block) ==> block_progress(block) == block.vtx@.len(),
        block_txs(watch, zip212, block.height as u32, block.vtx@, start, 0).len() == 0,
        ({
            let before = block_txs(watch, zip212, block.height as u32, block.vtx@, start, n);
            let after = block_txs(
                watch,
                zip212,
                block.height as u32,
                block.vtx@,
                start,
                (n + 1) as nat,
            );
            let wtx = scanned_tx(
                watch,
                zip212,
                block.height as u32,
                block.vtx@[n as int],
                grown(start, counts(block.vtx@.take(n as int))),
            );
            after == if wtx.is_bare() {
                before
            } else {
                before.push(wtx)
            }
        }),
        forall|t: int|
            0 <= t < n ==> #[trigger] block_ids(block.height as u32, block.vtx@, n)[t] == (
                array32(block.vtx@[t].txid@),
                block.height as u32,
                block.vtx@[t].index as u32,
            ),
        block_ids(block.height as u32, block.vtx@, n).len() == n,
        grown(start, counts(block.vtx@)) == (
            start.0 + sapling_count(block.vtx@),
            start.1 + orchard_count(block.vtx@),
            start.2 + ironwood_count(block.vtx@),
        ),
{
    let vtx = block.vtx@;
    let h = block.height as u32;
    lemma_formed(vtx);
    if (forall|t: int|
        0 <= t < n ==> (#[trigger] vtx[t]).txid@.len() == 32 && vtx[t].index <= u32::MAX) && (
    vtx[n as int].txid@.len() != 32 || vtx[n as int].index > u32::MAX) {
        lemma_good_prefix(vtx, n as int);
    }
    let more = Seq::new((n + 1) as nat, |j: int| kept_tx(watch, zip212, h, vtx, start, j));
    let less = Seq::new(n, |j: int| kept_tx(watch, zip212, h, vtx, start, j));
    assert(more.drop_last() =~= less);
}

} // verus!
