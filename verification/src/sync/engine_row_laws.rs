//! Laws of what the engine keeps of blocks, of how it moves, and of the memos that it attaches.

use vstd::prelude::*;

use crate::bytes::array32;
use crate::db::order::key_le;
use crate::db::record_laws::{id_not_after, lemma_key_le};
use crate::db::rows::txid_key;
use crate::db::store::{records_spent, upserted_tx, Pool, StoreError, StoreView};
use crate::db::sync::{network_named, note_stored};
use crate::primitives::{FullActionParts, FullParts, Network, OrchardNote, SaplingNote};
use crate::proto::CompactBlock;
use crate::sync::engine::{
    back_by, cursor_height, cursor_moved, engine_applied, first_height, hash_at_height,
    heights_differ, meta_of, scanned_stored, spends_stored, twice, with_block, with_blocks,
    BlockMeta, EngineView, ScannedNote, ScannedSpend,
};
use crate::sync::enrich::{orchard_enriched, receives_from, sapling_enriched, txids_ordered, Tx};
use crate::sync::scan::{orchard_count, sapling_count};
use crate::upstream::consensus_rules::zip212_at;
use crate::upstream::orchard_notes::orchard_full_note;
use crate::upstream::sapling_notes::sapling_full_note;

verus! {

/// Of a block its height, hash and time are kept, the tree sizes where it tells them, and how
/// many outputs it holds. A hash that does not have 32 bytes is kept as none.
pub proof fn law_block_is_kept_as_told(block: CompactBlock)
    ensures
        ({
            let meta = meta_of(block);
            &&& meta.height == block.height as u32
            &&& block.hash@.len() == 32 ==> meta.hash == Some(array32(block.hash@))
            &&& block.hash@.len() != 32 ==> meta.hash is None
            &&& meta.time == block.time
            &&& block.chain_metadata is None ==> meta.sapling_tree_size is None
                && meta.orchard_tree_size is None
            &&& block.chain_metadata matches Some(m) ==> meta.sapling_tree_size == Some(
                m.sapling_commitment_tree_size as u64,
            ) && meta.orchard_tree_size == Some(m.orchard_commitment_tree_size as u64)
            &&& meta.sapling_output_count == Some(sapling_count(block.vtx@) as u32)
            &&& meta.orchard_action_count == Some(orchard_count(block.vtx@) as u32)
        }),
{
}

/// A block takes the place of the one kept at its height, and stands at the end where there is
/// none; no other block changes.
pub proof fn law_block_takes_its_height(blocks: Seq<BlockMeta>, meta: BlockMeta)
    requires
        heights_differ(blocks),
    ensures
        ({
            let after = with_block(blocks, meta);
            &&& (forall|i: int| 0 <= i < blocks.len() ==> (#[trigger] blocks[i]).height != meta.height)
                ==> after == blocks.push(meta)
            &&& (exists|i: int| 0 <= i < blocks.len() && (#[trigger] blocks[i]).height == meta.height)
                ==> after.len() == blocks.len() && forall|i: int|
                0 <= i < blocks.len() ==> #[trigger] after[i] == (if blocks[i].height
                    == meta.height {
                    meta
                } else {
                    blocks[i]
                })
        }),
{
}

/// Blocks are kept in turn.
pub proof fn law_blocks_are_kept_in_turn(
    metas: Seq<BlockMeta>,
    blocks: Seq<CompactBlock>,
    block: CompactBlock,
)
    ensures
        with_blocks(metas, Seq::<CompactBlock>::empty()) == metas,
        with_blocks(metas, blocks.push(block)) == with_block(
            with_blocks(metas, blocks),
            meta_of(block),
        ),
{
    assert(blocks.push(block).drop_last() =~= blocks);
}

/// The hash at a height is that of the block kept there, and none where none is.
pub proof fn law_hash_is_that_of_the_height(blocks: Seq<BlockMeta>, height: u32)
    requires
        heights_differ(blocks),
    ensures
        forall|i: int|
            0 <= i < blocks.len() && (#[trigger] blocks[i]).height == height ==> hash_at_height(
                blocks,
                height,
            ) == blocks[i].hash,
        (forall|i: int| 0 <= i < blocks.len() ==> (#[trigger] blocks[i]).height != height)
            ==> hash_at_height(blocks, height) is None,
{
}

/// The notes of a scan are stored in turn, each with its position, up to the first that is
/// refused.
pub proof fn law_scanned_notes_are_stored_in_turn(
    store: StoreView,
    notes: Seq<ScannedNote>,
    n: ScannedNote,
)
    ensures
        scanned_stored(store, Seq::<ScannedNote>::empty()) == (store, None::<StoreError>),
        ({
            let before = scanned_stored(store, notes);
            scanned_stored(store, notes.push(n)) == if before.1 is Some {
                before
            } else {
                note_stored(before.0, n.note, n.position)
            }
        }),
{
    assert(notes.push(n).drop_last() =~= notes);
}

/// The spends of a scan are marked in turn, each in its own pool, at its height and by its
/// transaction, which is recorded with its index.
pub proof fn law_scanned_spends_are_marked_in_turn(
    store: StoreView,
    spends: Seq<ScannedSpend>,
    s: ScannedSpend,
)
    ensures
        spends_stored(store, Seq::<ScannedSpend>::empty()) == store,
        ({
            let before = spends_stored(store, spends);
            let (transactions, _) = upserted_tx(
                before.transactions,
                s.spend.txid,
                Some(s.spend.height),
                Some(s.tx_index),
            );
            let given = StoreView { transactions, ..before };
            let after = spends_stored(store, spends.push(s));
            &&& s.spend.pool == Pool::Sapling ==> after == (StoreView {
                sapling: records_spent(given.sapling, s.spend.nf@, s.spend.height, s.spend.txid),
                ..given
            })
            &&& s.spend.pool == Pool::Orchard ==> after == (StoreView {
                orchard: records_spent(given.orchard, s.spend.nf@, s.spend.height, s.spend.txid),
                ..given
            })
        }),
{
    assert(spends.push(s).drop_last() =~= spends);
}

/// After a batch the cursor stands at its last block, with that block's hash, and the tree
/// sizes are those that the block tells, where it does. A batch without blocks moves nothing.
pub proof fn law_cursor_moves_to_the_last_block(view: EngineView, blocks: Seq<CompactBlock>)
    ensures
        blocks.len() == 0 ==> cursor_moved(view, blocks) == view,
        blocks.len() > 0 ==> {
            let last = blocks.last();
            let after = cursor_moved(view, blocks);
            &&& after.store == (StoreView { sync: after.store.sync, ..view.store })
            &&& after.store.sync is Some
            &&& (after.store.sync->0).0 == last.height as u32
            &&& last.hash@.len() == 32 ==> (after.store.sync->0).1 == Some(array32(last.hash@)@)
            &&& last.hash@.len() != 32 ==> (after.store.sync->0).1 is None
            &&& after.blocks == view.blocks
            &&& last.chain_metadata matches Some(m) ==> after.sapling_pos
                == m.sapling_commitment_tree_size && after.orchard_pos
                == m.orchard_commitment_tree_size
            &&& last.chain_metadata is None ==> after.sapling_pos == view.sapling_pos
                && after.orchard_pos == view.orchard_pos
        },
{
}

/// A batch keeps its blocks, stores the notes of both pools, then marks the spends, so that a
/// note that it both makes and spends ends up spent, and then moves the cursor. Where a note is
/// refused the cursor stays.
pub proof fn law_engine_applies_in_order(
    view: EngineView,
    blocks: Seq<CompactBlock>,
    sapling: Seq<ScannedNote>,
    orchard: Seq<ScannedNote>,
    spends: Seq<ScannedSpend>,
)
    ensures
        ({
            let (after, error) = engine_applied(view, blocks, sapling, orchard, spends);
            let kept = with_blocks(view.blocks, blocks);
            let first = scanned_stored(view.store, sapling);
            let second = scanned_stored(first.0, orchard);
            &&& first.1 is Some ==> error == first.1 && after == (EngineView {
                blocks: kept,
                store: first.0,
                ..view
            })
            &&& first.1 is None && second.1 is Some ==> error == second.1 && after == (EngineView {
                blocks: kept,
                store: second.0,
                ..view
            })
            &&& first.1 is None && second.1 is None ==> error is None && after == cursor_moved(
                EngineView { blocks: kept, store: spends_stored(second.0, spends), ..view },
                blocks,
            )
        }),
{
}

/// A pass starts just above the cursor, or at the birthday where there is none; a rewind goes
/// back by its distance but not below 0, and the next goes twice as far.
pub proof fn law_engine_goes_on_and_back(store: StoreView, height: u32, by: u32)
    ensures
        store.sync matches Some((h, _)) ==> cursor_height(store) == h,
        store.sync is None ==> cursor_height(store) == 0,
        cursor_height(store) > 0 ==> first_height(store) == cursor_height(store) + 1,
        cursor_height(store) == 0 ==> first_height(store) == (match store.birthday {
            Some(birthday) => birthday as int,
            None => 0,
        }),
        by <= height ==> back_by(height, by) == height - by,
        by > height ==> back_by(height, by) == 0,
        2 * by <= u32::MAX ==> twice(by) == 2 * by,
        2 * by > u32::MAX ==> twice(by) == u32::MAX,
{
}

/// A note that a transaction made gets the memo that the key reads in the output at the note's
/// own index, by the rules of the note's height; and none where there is no key, no such
/// output, or the key cannot read it. A known memo stays.
pub proof fn law_received_note_gets_its_memo(
    sapling: Tx<SaplingNote>,
    orchard: Tx<OrchardNote>,
    txid: [u8; 32],
    sapling_ivk: Option<Seq<u8>>,
    orchard_ivk: Option<Seq<u8>>,
    network: Network,
    outputs: Option<Seq<FullParts>>,
    actions: Option<Seq<FullActionParts>>,
)
    ensures
        sapling is Receive ==> {
            let r = sapling->Receive_0;
            let after = sapling_enriched(sapling, txid, sapling_ivk, network, outputs);
            let readable = sapling_ivk is Some && outputs is Some && r.output_index < (
            outputs->0).len();
            let read = sapling_full_note(
                sapling_ivk->0,
                zip212_at(network, r.height),
                (outputs->0)[r.output_index as int],
            );
            &&& after is Receive
            &&& r.txid != txid || r.memo is Some ==> after == sapling
            &&& r.txid == txid && r.memo is None && readable && read is Some
                ==> after->Receive_0.memo == Some((read->0).1)
            &&& r.txid == txid && r.memo is None && !(readable && read is Some)
                ==> after->Receive_0.memo is None
        },
        orchard is Receive ==> {
            let r = orchard->Receive_0;
            let after = orchard_enriched(orchard, txid, orchard_ivk, actions);
            let readable = orchard_ivk is Some && actions is Some && r.output_index < (
            actions->0).len();
            let read = orchard_full_note(orchard_ivk->0, (actions->0)[r.output_index as int]);
            &&& after is Receive
            &&& r.txid != txid || r.memo is Some ==> after == orchard
            &&& r.txid == txid && r.memo is None && readable && read is Some
                ==> after->Receive_0.memo == Some((read->0).1)
            &&& r.txid == txid && r.memo is None && !(readable && read is Some)
                ==> after->Receive_0.memo is None
        },
{
}

/// A transaction is fetched exactly where one of the notes received was made in it.
pub proof fn law_made_notes_are_fetched<N>(events: Seq<Tx<N>>, txid: [u8; 32])
    ensures
        receives_from(events, txid) <==> exists|i: int|
            0 <= i < events.len() && (#[trigger] events[i]) is Receive && events[i]->Receive_0.txid
                == txid,
{
}

/// The transactions to fetch are listed by the bytes of their ids, each once.
pub proof fn law_fetched_ids_are_ordered(txids: Seq<[u8; 32]>, i: int, j: int)
    requires
        txids_ordered(txids),
        0 <= i < j < txids.len(),
    ensures
        txids[i] != txids[j],
        id_not_after(txids[i], txids[j]),
{
    let a = txid_key(txids[i]);
    let b = txid_key(txids[j]);
    assert(key_le(a, b));
    lemma_key_le(a, b);
    assert(txids[i] != txids[j]);
    if a == b {
        assert forall|k: int| 0 <= k < 32 implies txids[i]@[k] == txids[j]@[k] by {
            assert(a[k] == b[k]);
        }
        assert(txids[i] =~= txids[j]);
    } else {
        let k = choose|k: int|
            #![trigger a[k]]
            0 <= k < a.len() && a[k] < b[k] && forall|m: int| 0 <= m < k ==> #[trigger] a[m] == b[m];
        assert(txids[i]@[k] < txids[j]@[k]);
        assert forall|m: int| 0 <= m < k implies #[trigger] txids[i]@[m] == txids[j]@[m] by {
            assert(a[m] == b[m]);
        }
    }
}

/// A network is named: `test` is the test network, and any other name the main one.
pub proof fn law_network_is_named(name: Seq<char>)
    ensures
        name == "test"@ ==> network_named(name) == Network::TestNetwork,
        name != "test"@ ==> network_named(name) == Network::MainNetwork,
{
}

} // verus!
