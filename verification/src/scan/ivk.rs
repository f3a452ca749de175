//! Scanning with an incoming viewing key: notes only.

use vstd::prelude::*;

use crate::keys::ivk::IvkKeys;
use crate::proto::CompactBlock;
use crate::scan::blocks::{
    find_orchard_notes, find_sapling_notes, orchard_block_notes, sapling_block_notes,
};
use crate::scan::types::IncomingNoteView;

verus! {

/// The notes that the keys find in a block: Orchard before Sapling, without positions and
/// nullifiers.
pub open spec fn ivk_block_notes(
    orchard: Option<Seq<u8>>,
    sapling: Option<Seq<u8>>,
    block: CompactBlock,
) -> Seq<IncomingNoteView> {
    orchard_block_notes(block, orchard, None) + sapling_block_notes(
        block,
        sapling,
        None,
        false,
        0,
    )
}

/// The notes that the keys find in the blocks.
pub open spec fn ivk_notes(
    orchard: Option<Seq<u8>>,
    sapling: Option<Seq<u8>>,
    blocks: Seq<CompactBlock>,
) -> Seq<IncomingNoteView>
    decreases blocks.len(),
{
    if blocks.len() == 0 {
        Seq::empty()
    } else {
        ivk_notes(orchard, sapling, blocks.drop_last()) + ivk_block_notes(
            orchard,
            sapling,
            blocks.last(),
        )
    }
}

/// The key's encoding, where there is a key.
pub open spec fn orchard_key(keys: IvkKeys) -> Option<Seq<u8>> {
    match keys.orchard {
        Some(k) => Some(k@),
        None => None,
    }
}

/// The key's encoding, where there is a key.
pub open spec fn sapling_key(keys: IvkKeys) -> Option<Seq<u8>> {
    match keys.sapling {
        Some(k) => Some(k@),
        None => None,
    }
}

/// Scans blocks with an incoming viewing key, by the rules after Canopy: the notes, in
/// the order of the blocks.
pub fn scan_ivk(blocks: &Vec<CompactBlock>, keys: &IvkKeys) -> (notes: Vec<IncomingNoteView>)
    ensures
        notes@ == ivk_notes(orchard_key(*keys), sapling_key(*keys), blocks@),
{
    let mut notes: Vec<IncomingNoteView> = Vec::new();
    let mut b: usize = 0;
    assert(blocks@.take(0) =~= Seq::empty());
    while b < blocks.len()
        invariant
            0 <= b <= blocks.len(),
            notes@ == ivk_notes(orchard_key(*keys), sapling_key(*keys), blocks@.take(b as int)),
        decreases blocks.len() - b,
    {
        proof {
            assert(blocks@.take(b as int + 1).drop_last() =~= blocks@.take(b as int));
        }
        let ghost before = notes@;
        let block = &blocks[b];
        find_orchard_notes(block, keys.orchard.as_ref(), None, &mut notes);
        find_sapling_notes(block, keys.sapling.as_ref(), None, false, 0, &mut notes);
        assert(notes@ =~= before + ivk_block_notes(
            orchard_key(*keys),
            sapling_key(*keys),
            *block,
        ));
        b = b + 1;
    }
    assert(blocks@.take(b as int) =~= blocks@);
    notes
}

} // verus!
