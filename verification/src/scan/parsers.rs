//! Fields of compact transactions, and the parts of notes.

use vstd::prelude::*;

use crate::bytes::{array32, lemma_array32, to_array};
use crate::primitives::{Rseed, SaplingNote};

verus! {

/// The transaction id that raw bytes hold: zeros where they are not 32 bytes.
pub open spec fn txid_of(raw: Seq<u8>) -> [u8; 32] {
    if raw.len() == 32 {
        array32(raw)
    } else {
        array32(Seq::new(32, |i: int| 0u8))
    }
}

/// The transaction id that raw bytes hold: zeros where they are not 32 bytes.
pub fn txid_bytes(raw: &[u8]) -> (txid: [u8; 32])
    ensures
        txid == txid_of(raw@),
{
    match to_array(raw) {
        Some(txid) => {
            proof {
                lemma_array32(txid);
            }
            txid
        },
        None => {
            let zeros: [u8; 32] = [0u8; 32];
            proof {
                assert(zeros@ =~= Seq::new(32, |i: int| 0u8));
                lemma_array32(zeros);
            }
            zeros
        },
    }
}

/// The bytes of a Sapling note's randomness.
pub open spec fn rseed_of(note: SaplingNote) -> [u8; 32] {
    match note.rseed {
        Rseed::BeforeZip212(rcm) => rcm,
        Rseed::AfterZip212(seed) => seed,
    }
}

/// The bytes of a Sapling note's randomness.
pub fn rseed_bytes_sapling(note: &SaplingNote) -> (rseed: [u8; 32])
    ensures
        rseed == rseed_of(*note),
{
    match note.rseed {
        Rseed::BeforeZip212(rcm) => rcm,
        Rseed::AfterZip212(seed) => seed,
    }
}

} // verus!
