//! The sizes of the note commitment trees across a sync.
//!
//! The trees only grow. The number of leaves before a block gives the notes of the block
//! their positions, and so Sapling notes their nullifiers.

use vstd::prelude::*;

use crate::proto::{CompactBlock, TreeState};
use crate::sync::scan::{lemma_counts_grow, orchard_count, sapling_count};

verus! {

/// The number of note commitments up to a block, with those of the block.
#[derive(Debug, Clone, Copy, PartialEq, Eq)]
pub struct TreeSize {
    /// In the Sapling tree.
    pub sapling: u64,
    /// In the Orchard tree.
    pub orchard: u64,
}

impl Default for TreeSize {
    fn default() -> (size: Self)
        ensures
            size == (TreeSize { sapling: 0, orchard: 0 }),
    {
        TreeSize { sapling: 0, orchard: 0 }
    }
}

/// The tree sizes that a block's metadata tells.
pub open spec fn told_size(block: CompactBlock) -> Option<TreeSize> {
    match block.chain_metadata {
        Some(meta) => Some(
            TreeSize {
                sapling: meta.sapling_commitment_tree_size as u64,
                orchard: meta.orchard_commitment_tree_size as u64,
            },
        ),
        None => None,
    }
}

/// The tree sizes after a block, where `prior` are those before it.
pub open spec fn size_after(block: CompactBlock, prior: TreeSize) -> TreeSize {
    match told_size(block) {
        Some(size) => size,
        None => TreeSize {
            sapling: (prior.sapling + sapling_count(block.vtx@)) as u64,
            orchard: (prior.orchard + orchard_count(block.vtx@)) as u64,
        },
    }
}

/// What is left of a number, or zero.
pub open spec fn less(a: u64, b: nat) -> u64 {
    if a >= b {
        (a - b) as u64
    } else {
        0
    }
}

/// The tree sizes before a block's first output.
pub open spec fn size_before(block: CompactBlock) -> Option<TreeSize> {
    match told_size(block) {
        Some(size) => Some(
            TreeSize {
                sapling: less(size.sapling, sapling_count(block.vtx@)),
                orchard: less(size.orchard, orchard_count(block.vtx@)),
            },
        ),
        None => None,
    }
}

/// Counts the Sapling outputs of a block.
pub fn sapling_in_block(block: &CompactBlock) -> (n: u64)
    requires
        sapling_count(block.vtx@) <= u64::MAX,
    ensures
        n == sapling_count(block.vtx@),
{
    let mut n: u64 = 0;
    let mut t: usize = 0;
    assert(block.vtx@.take(0) =~= Seq::empty());
    while t < block.vtx.len()
        invariant
            0 <= t <= block.vtx.len(),
            sapling_count(block.vtx@) <= u64::MAX,
            n == sapling_count(block.vtx@.take(t as int)),
        decreases block.vtx.len() - t,
    {
        proof {
            lemma_counts_grow(block.vtx@, t as int);
        }
        n = n + block.vtx[t].outputs.len() as u64;
        t = t + 1;
    }
    assert(block.vtx@.take(t as int) =~= block.vtx@);
    n
}

/// Counts the Orchard actions of a block.
pub fn orchard_in_block(block: &CompactBlock) -> (n: u64)
    requires
        orchard_count(block.vtx@) <= u64::MAX,
    ensures
        n == orchard_count(block.vtx@),
{
    let mut n: u64 = 0;
    let mut t: usize = 0;
    assert(block.vtx@.take(0) =~= Seq::empty());
    while t < block.vtx.len()
        invariant
            0 <= t <= block.vtx.len(),
            orchard_count(block.vtx@) <= u64::MAX,
            n == orchard_count(block.vtx@.take(t as int)),
        decreases block.vtx.len() - t,
    {
        proof {
            lemma_counts_grow(block.vtx@, t as int);
        }
        n = n + block.vtx[t].actions.len() as u64;
        t = t + 1;
    }
    assert(block.vtx@.take(t as int) =~= block.vtx@);
    n
}

impl TreeSize {
    /// The tree sizes that a block's metadata tells.
    ///
    /// Blocks from before Orchard carry no metadata and give `None`.
    pub fn from_block(block: &CompactBlock) -> (size: Option<Self>)
        ensures
            size == told_size(*block),
    {
        match &block.chain_metadata {
            Some(meta) => Some(
                TreeSize {
                    sapling: meta.sapling_commitment_tree_size as u64,
                    orchard: meta.orchard_commitment_tree_size as u64,
                },
            ),
            None => None,
        }
    }

    /// The tree sizes after a block. Where the block carries no metadata, its outputs are
    /// counted on from `prior`, the sizes before it.
    pub fn from_block_or_count(block: &CompactBlock, prior: Self) -> (size: Self)
        requires
            block.chain_metadata is None ==> prior.sapling + sapling_count(block.vtx@)
                <= u64::MAX && prior.orchard + orchard_count(block.vtx@) <= u64::MAX,
        ensures
            size == size_after(*block, prior),
    {
        if let Some(size) = Self::from_block(block) {
            return size;
        }
        TreeSize {
            sapling: prior.sapling + sapling_in_block(block),
            orchard: prior.orchard + orchard_in_block(block),
        }
    }

    /// The tree sizes before a block's first output: those after it, less the block's own
    /// outputs, and never below zero.
    pub fn before_block(block: &CompactBlock) -> (size: Option<Self>)
        requires
            block.chain_metadata is Some ==> sapling_count(block.vtx@) <= u64::MAX
                && orchard_count(block.vtx@) <= u64::MAX,
        ensures
            size == size_before(*block),
    {
        match Self::from_block(block) {
            Some(after) => Some(
                TreeSize {
                    sapling: after.sapling.saturating_sub(sapling_in_block(block)),
                    orchard: after.orchard.saturating_sub(orchard_in_block(block)),
                },
            ),
            None => None,
        }
    }
}

/// The sizes before a block, counted on by the block's outputs, are the sizes after it,
/// where the metadata tells no less than the block holds.
pub proof fn law_before_and_after_agree(block: CompactBlock, unlabelled: CompactBlock)
    requires
        told_size(block) is Some,
        (told_size(block)->0).sapling >= sapling_count(block.vtx@),
        (told_size(block)->0).orchard >= orchard_count(block.vtx@),
        unlabelled.chain_metadata is None,
        unlabelled.vtx == block.vtx,
    ensures
        size_after(unlabelled, size_before(block)->0) == told_size(block)->0,
{
}

/// The frontiers of the note commitment trees at a height.
#[derive(Debug, Clone, PartialEq, Eq)]
pub struct LwdTreeState {
    /// The block's height.
    pub height: u32,
    /// The block's hash, in hexadecimal.
    pub hash: String,
    /// The Sapling frontier, in hexadecimal.
    pub sapling_tree: String,
    /// The Orchard frontier, in hexadecimal.
    pub orchard_tree: String,
}

impl LwdTreeState {
    /// The frontiers that the server reports.
    pub fn from_state(state: TreeState) -> (result: Self)
        ensures
            result.height == state.height as u32,
            result.hash@ == state.hash@,
            result.sapling_tree@ == state.sapling_tree@,
            result.orchard_tree@ == state.orchard_tree@,
    {
        #[verifier::truncate]
        let height: u32 = state.height as u32;
        LwdTreeState {
            height,
            hash: state.hash,
            sapling_tree: state.sapling_tree,
            orchard_tree: state.orchard_tree,
        }
    }
}

/// The sizes after a block are those that it tells, or else what it adds to those before it;
/// the sizes before it are those that it tells less what it adds, but not below zero.
pub proof fn law_sizes_are_told_or_counted(block: CompactBlock, prior: TreeSize)
    requires
        prior.sapling + sapling_count(block.vtx@) <= u64::MAX,
        prior.orchard + orchard_count(block.vtx@) <= u64::MAX,
    ensures
        told_size(block) is Some == block.chain_metadata is Some,
        block.chain_metadata is None ==> {
            &&& size_after(block, prior).sapling == prior.sapling + sapling_count(block.vtx@)
            &&& size_after(block, prior).orchard == prior.orchard + orchard_count(block.vtx@)
            &&& size_before(block) is None
        },
        block.chain_metadata matches Some(m) ==> {
            let s = m.sapling_commitment_tree_size;
            let o = m.orchard_commitment_tree_size;
            &&& (told_size(block)->0).sapling == s
            &&& (told_size(block)->0).orchard == o
            &&& size_after(block, prior).sapling == s
            &&& size_after(block, prior).orchard == o
            &&& size_before(block) is Some
            &&& (size_before(block)->0).sapling == (if sapling_count(block.vtx@) <= s {
                s - sapling_count(block.vtx@)
            } else {
                0
            })
            &&& (size_before(block)->0).orchard == (if orchard_count(block.vtx@) <= o {
                o - orchard_count(block.vtx@)
            } else {
                0
            })
        },
{
}

} // verus!
