//! Scanning a stream of block batches, one batch at a time.
//!
//! The positions of Sapling notes go on from batch to batch.

use vstd::prelude::*;

use crate::keys::fvk::FvkKeys;
use crate::keys::ivk::IvkKeys;
use crate::proto::CompactBlock;
use crate::scan::fvk::{
    consumed_in_blocks, fvk_events, fvk_notes, fvk_view, note_nullifiers, orchard_reveals_in_blocks,
    orchard_reveals_in_txs, paid_in_blocks, sapling_reveals_in_blocks, sapling_reveals_in_txs,
    scan_fvk, spent_event, total_sapling, FvkView,
};
use crate::scan::ivk::{ivk_notes, orchard_key, sapling_key, scan_ivk};
use crate::scan::types::{
    received_views, IncomingNoteView, ScanEvent, TransparentReceived, TransparentSpend,
};
use crate::seqs::{
    collect_some, lemma_collect_concat, lemma_collect_from, lemma_collect_has,
    lemma_joined_contains,
};

verus! {

/// What a scan of a stream with a full viewing key has found.
pub struct StreamFvkResult {
    /// The events, batch by batch.
    pub events: Vec<ScanEvent>,
    /// The Sapling leaf count after the last block.
    pub sapling_leaf_count: u64,
    /// The transparent outputs.
    pub transparent_received: Vec<TransparentReceived>,
    /// The transparent inputs.
    pub transparent_spends: Vec<TransparentSpend>,
}

impl StreamFvkResult {
    /// Before the first batch; `sapling_start_pos` is the leaf count before its first block.
    pub fn new(sapling_start_pos: u64) -> (result: StreamFvkResult)
        ensures
            result.events@.len() == 0,
            result.sapling_leaf_count == sapling_start_pos,
            result.transparent_received@.len() == 0,
            result.transparent_spends@.len() == 0,
    {
        StreamFvkResult {
            events: Vec::new(),
            sapling_leaf_count: sapling_start_pos,
            transparent_received: Vec::new(),
            transparent_spends: Vec::new(),
        }
    }

    /// Scans the next batch: its positions start at the leaf count so far.
    pub fn scan_stream_fvk(
        &mut self,
        keys: &FvkKeys,
        batch: &Vec<CompactBlock>,
        known_nullifiers: &Vec<[u8; 32]>,
    )
        requires
            old(self).sapling_leaf_count + total_sapling(batch@) <= u64::MAX,
        ensures
            final(self).events@ == old(self).events@ + fvk_events(
                fvk_view(*keys),
                batch@,
                old(self).sapling_leaf_count as nat,
                known_nullifiers@,
            ),
            final(self).sapling_leaf_count == old(self).sapling_leaf_count + total_sapling(batch@),
            received_views(final(self).transparent_received@) == received_views(
                old(self).transparent_received@,
            ) + paid_in_blocks(batch@),
            final(self).transparent_spends@ == old(self).transparent_spends@ + consumed_in_blocks(
                batch@,
            ),
    {
        let mut result = scan_fvk(batch, keys, self.sapling_leaf_count, known_nullifiers);
        let ghost before = self.transparent_received@;
        let ghost found = result.transparent_received@;
        self.sapling_leaf_count = result.sapling_leaf_count;
        self.events.append(&mut result.events);
        self.transparent_received.append(&mut result.transparent_received);
        self.transparent_spends.append(&mut result.transparent_spends);
        assert(received_views(before + found) =~= received_views(before) + received_views(found));
    }
}

/// Scans the next batch of a stream with an incoming viewing key, and appends its notes.
pub fn scan_stream_ivk(notes: &mut Vec<IncomingNoteView>, keys: &IvkKeys, batch: &Vec<CompactBlock>)
    ensures
        final(notes)@ == old(notes)@ + ivk_notes(orchard_key(*keys), sapling_key(*keys), batch@),
{
    let mut found = scan_ivk(batch, keys);
    notes.append(&mut found);
}

/// Cutting a stream of blocks into batches changes no note that an incoming viewing key
/// finds.
pub proof fn law_batches_keep_incoming_notes(
    orchard: Option<Seq<u8>>,
    sapling: Option<Seq<u8>>,
    first: Seq<CompactBlock>,
    second: Seq<CompactBlock>,
)
    ensures
        ivk_notes(orchard, sapling, first + second) == ivk_notes(orchard, sapling, first)
            + ivk_notes(orchard, sapling, second),
    decreases second.len(),
{
    if second.len() == 0 {
        assert(first + second =~= first);
    } else {
        law_batches_keep_incoming_notes(orchard, sapling, first, second.drop_last());
        assert((first + second).drop_last() =~= first + second.drop_last());
    }
    assert(ivk_notes(orchard, sapling, first + second) =~= ivk_notes(orchard, sapling, first)
        + ivk_notes(orchard, sapling, second));
}

/// Cutting a stream of blocks into batches changes no note that a full viewing key finds,
/// nor its position and nullifier, as long as the leaf count goes on from batch to batch.
pub proof fn law_batches_keep_notes(
    keys: FvkView,
    first: Seq<CompactBlock>,
    second: Seq<CompactBlock>,
    start: nat,
)
    ensures
        total_sapling(first + second) == total_sapling(first) + total_sapling(second),
        fvk_notes(keys, first + second, start) == fvk_notes(keys, first, start) + fvk_notes(
            keys,
            second,
            start + total_sapling(first),
        ),
    decreases second.len(),
{
    if second.len() == 0 {
        assert(first + second =~= first);
    } else {
        law_batches_keep_notes(keys, first, second.drop_last(), start);
        assert((first + second).drop_last() =~= first + second.drop_last());
    }
    assert(fvk_notes(keys, first + second, start) =~= fvk_notes(keys, first, start) + fvk_notes(
        keys,
        second,
        start + total_sapling(first),
    ));
}

/// Cutting a stream of blocks into batches changes no transparent output or input that is
/// told.
pub proof fn law_batches_keep_transparent(first: Seq<CompactBlock>, second: Seq<CompactBlock>)
    ensures
        paid_in_blocks(first + second) == paid_in_blocks(first) + paid_in_blocks(second),
        consumed_in_blocks(first + second) == consumed_in_blocks(first) + consumed_in_blocks(second),
    decreases second.len(),
{
    if second.len() == 0 {
        assert(first + second =~= first);
    } else {
        law_batches_keep_transparent(first, second.drop_last());
        assert((first + second).drop_last() =~= first + second.drop_last());
    }
    assert(paid_in_blocks(first + second) =~= paid_in_blocks(first) + paid_in_blocks(second));
    assert(consumed_in_blocks(first + second) =~= consumed_in_blocks(first) + consumed_in_blocks(
        second,
    ));
}

/// Whether the blocks reveal a nullifier at a height.
pub open spec fn reveals(blocks: Seq<CompactBlock>, nullifier: [u8; 32], height: u32) -> bool {
    orchard_reveals_in_blocks(blocks).contains((nullifier, height))
        || sapling_reveals_in_blocks(blocks).contains((nullifier, height))
}

/// A spend is told exactly where its nullifier is revealed and is known, or that of a note
/// found in the same blocks.
proof fn lemma_spend_told(
    keys: FvkView,
    blocks: Seq<CompactBlock>,
    start: nat,
    known: Seq<[u8; 32]>,
    nullifier: [u8; 32],
    height: u32,
)
    ensures
        fvk_events(keys, blocks, start, known).contains(ScanEvent::Spent { nullifier, height }) == (
        reveals(blocks, nullifier, height) && (known.contains(nullifier) || note_nullifiers(
            fvk_notes(keys, blocks, start),
        ).contains(nullifier))),
{
    let notes = fvk_notes(keys, blocks, start);
    let watched = known + note_nullifiers(notes);
    let incoming = notes.map_values(|n: IncomingNoteView| ScanEvent::Incoming(n));
    let revealed = orchard_reveals_in_blocks(blocks) + sapling_reveals_in_blocks(blocks);
    let all = revealed.map_values(|r: ([u8; 32], u32)| spent_event(watched, r));
    let event = ScanEvent::Spent { nullifier, height };
    lemma_joined_contains(known, note_nullifiers(notes), nullifier);
    lemma_joined_contains(
        orchard_reveals_in_blocks(blocks),
        sapling_reveals_in_blocks(blocks),
        (nullifier, height),
    );
    lemma_joined_contains(incoming, collect_some(all), event);
    if collect_some(all).contains(event) {
        let k = choose|k: int| 0 <= k < collect_some(all).len() && collect_some(all)[k] == event;
        lemma_collect_from(all, k);
        let j = choose|j: int| 0 <= j < all.len() && #[trigger] all[j] == Some(event);
        assert(revealed[j] == (nullifier, height));
    }
    if revealed.contains((nullifier, height)) && watched.contains(nullifier) {
        let j = choose|j: int| 0 <= j < revealed.len() && revealed[j] == (nullifier, height);
        assert(all[j] == Some(event));
        lemma_collect_has(all, j);
    }
}

/// What two rows of blocks reveal together, one of them reveals.
proof fn lemma_reveals_split(
    first: Seq<CompactBlock>,
    second: Seq<CompactBlock>,
    nullifier: [u8; 32],
    height: u32,
)
    ensures
        reveals(first + second, nullifier, height) == (reveals(first, nullifier, height) || reveals(
            second,
            nullifier,
            height,
        )),
    decreases second.len(),
{
    if second.len() == 0 {
        assert(first + second =~= first);
    } else {
        let init = second.drop_last();
        let last = second.last();
        let h = last.height as u32;
        let x = (nullifier, height);
        lemma_reveals_split(first, init, nullifier, height);
        assert((first + second).drop_last() =~= first + init);
        let orchard = orchard_reveals_in_txs(last.vtx@, h);
        let sapling = sapling_reveals_in_txs(last.vtx@, h);
        lemma_joined_contains(orchard_reveals_in_blocks(init), orchard, x);
        lemma_joined_contains(orchard_reveals_in_blocks(first + init), orchard, x);
        lemma_joined_contains(sapling_reveals_in_blocks(init), sapling, x);
        lemma_joined_contains(sapling_reveals_in_blocks(first + init), sapling, x);
    }
}

/// The nullifiers of the notes of two rows of blocks are those of either.
proof fn lemma_nullifiers_split(
    keys: FvkView,
    first: Seq<CompactBlock>,
    second: Seq<CompactBlock>,
    start: nat,
    nullifier: [u8; 32],
)
    ensures
        note_nullifiers(fvk_notes(keys, first + second, start)).contains(nullifier) == (
        note_nullifiers(fvk_notes(keys, first, start)).contains(nullifier) || note_nullifiers(
            fvk_notes(keys, second, start + total_sapling(first)),
        ).contains(nullifier)),
{
    let a = fvk_notes(keys, first, start);
    let b = fvk_notes(keys, second, start + total_sapling(first));
    let f = |n: IncomingNoteView| n.nullifier;
    law_batches_keep_notes(keys, first, second, start);
    assert((a + b).map_values(f) =~= a.map_values(f) + b.map_values(f));
    lemma_collect_concat(a.map_values(f), b.map_values(f));
    lemma_joined_contains(note_nullifiers(a), note_nullifiers(b), nullifier);
}

/// Cutting a stream of blocks into batches changes no spend of a known nullifier that is told.
pub proof fn law_batches_keep_known_spends(
    keys: FvkView,
    first: Seq<CompactBlock>,
    second: Seq<CompactBlock>,
    start: nat,
    known: Seq<[u8; 32]>,
    nullifier: [u8; 32],
    height: u32,
)
    requires
        known.contains(nullifier),
    ensures
        ({
            let event = ScanEvent::Spent { nullifier, height };
            fvk_events(keys, first + second, start, known).contains(event) == (fvk_events(
                keys,
                first,
                start,
                known,
            ).contains(event) || fvk_events(
                keys,
                second,
                start + total_sapling(first),
                known,
            ).contains(event))
        }),
{
    lemma_spend_told(keys, first + second, start, known, nullifier, height);
    lemma_spend_told(keys, first, start, known, nullifier, height);
    lemma_spend_told(keys, second, start + total_sapling(first), known, nullifier, height);
    lemma_reveals_split(first, second, nullifier, height);
}

/// A batch tells the spends that a scan of all blocks so far would tell in it, where the
/// nullifiers of the notes found before are among the known ones.
pub proof fn law_known_notes_are_seen_spent(
    keys: FvkView,
    first: Seq<CompactBlock>,
    second: Seq<CompactBlock>,
    start: nat,
    known: Seq<[u8; 32]>,
    nullifier: [u8; 32],
    height: u32,
)
    requires
        reveals(second, nullifier, height),
    ensures
        ({
            let event = ScanEvent::Spent { nullifier, height };
            fvk_events(
                keys,
                second,
                start + total_sapling(first),
                known + note_nullifiers(fvk_notes(keys, first, start)),
            ).contains(event) == fvk_events(keys, first + second, start, known).contains(event)
        }),
{
    let found = note_nullifiers(fvk_notes(keys, first, start));
    lemma_spend_told(keys, first + second, start, known, nullifier, height);
    lemma_spend_told(keys, second, start + total_sapling(first), known + found, nullifier, height);
    lemma_joined_contains(known, found, nullifier);
    lemma_reveals_split(first, second, nullifier, height);
    lemma_nullifiers_split(keys, first, second, start, nullifier);
}

} // verus!
