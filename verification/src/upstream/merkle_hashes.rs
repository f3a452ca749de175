//! Nodes of the Orchard note commitment tree.

use orchard::tree::MerkleHashOrchard;
use vstd::prelude::*;
use zcash_primitives::merkle_tree::HashSer;

use super::fields::is_pallas_base;

verus! {

/// Whether 32 bytes are the encoding of a tree node.
pub open spec fn orchard_hash_valid(bytes: Seq<u8>) -> bool {
    is_pallas_base(bytes)
}

/// `HashSer::read` of `MerkleHashOrchard`: it accepts exactly the canonical encodings of the
/// elements of the Pallas base field.
#[verifier::external_body]
pub(crate) fn orchard_hash_reads(bytes: &[u8; 32]) -> (valid: bool)
    ensures
        valid == orchard_hash_valid(bytes@),
{
    MerkleHashOrchard::read(bytes.as_slice()).is_ok()
}

} // verus!
