//! Decryption of notes with one key.
//!
//! From a compact output a key recovers the note; the memo lies beyond the part of the
//! ciphertext that a compact block holds. From a full output it recovers both.

use vstd::prelude::*;

use crate::primitives::{OrchardNote, SaplingNote, Zip212Enforcement};
use crate::upstream::orchard_notes::{
    orchard_compact_batch, orchard_compact_note, orchard_full, orchard_full_note,
    OrchardCompactAction, OrchardFullAction, OrchardIvk,
};
use crate::upstream::sapling_notes::{
    sapling_compact_batch, sapling_compact_note, sapling_full_batch, sapling_full_note,
    SaplingCompactOutput, SaplingFullOutput, SaplingIvk,
};

verus! {

/// The size of a memo, in bytes.
pub const MEMO_SIZE: usize = 512;

/// Trial-decrypts compact Sapling outputs with one key, by the rules after Canopy: one
/// slot per output, in order, with the note and its recipient where the key matches.
pub fn try_compact_sapling(ivk: &SaplingIvk, descs: &Vec<SaplingCompactOutput>) -> (found: Vec<
    Option<(SaplingNote, [u8; 43])>,
>)
    ensures
        found.len() == descs.len(),
        forall|i: int|
            0 <= i < found.len() ==> #[trigger] found[i] == (match sapling_compact_note(
                ivk@,
                Zip212Enforcement::On,
                descs[i]@,
            ) {
                Some(note) => Some((note, note.recipient)),
                None => None,
            }),
{
    let mut ivks: Vec<&SaplingIvk> = Vec::new();
    ivks.push(ivk);
    let hits = sapling_compact_batch(&ivks, Zip212Enforcement::On, descs);
    let mut found: Vec<Option<(SaplingNote, [u8; 43])>> = Vec::new();
    let mut i: usize = 0;
    while i < hits.len()
        invariant
            0 <= i <= hits.len(),
            hits.len() == descs.len(),
            found.len() == i,
            ivks.len() == 1,
            ivks[0]@ == ivk@,
            forall|j: int, k: int|
                0 <= j < hits.len() && 0 <= k < ivks.len() && (hits[j] is Some ==> k < (hits[j]->0).1)
                    ==> #[trigger] sapling_compact_note(
                    ivks[k]@,
                    Zip212Enforcement::On,
                    descs[j]@,
                ) is None,
            forall|j: int|
                0 <= j < hits.len() && (#[trigger] hits[j]) is Some ==> (hits[j]->0).1 < ivks.len()
                    && sapling_compact_note(
                    ivks[(hits[j]->0).1 as int]@,
                    Zip212Enforcement::On,
                    descs[j]@,
                ) == Some((hits[j]->0).0),
            forall|j: int|
                0 <= j < i ==> #[trigger] found[j] == (match sapling_compact_note(
                    ivk@,
                    Zip212Enforcement::On,
                    descs[j]@,
                ) {
                    Some(note) => Some((note, note.recipient)),
                    None => None,
                }),
        decreases hits.len() - i,
    {
        assert(hits[i as int] is None ==> sapling_compact_note(
            ivks[0]@,
            Zip212Enforcement::On,
            descs[i as int]@,
        ) is None);
        found.push(
            match hits[i] {
                Some((note, _)) => Some((note, note.recipient)),
                None => None,
            },
        );
        i = i + 1;
    }
    found
}

/// Trial-decrypts compact Orchard actions with one key: one slot per action, in order,
/// with the note and its recipient where the key matches.
pub fn try_compact_orchard(ivk: &OrchardIvk, actions: &Vec<OrchardCompactAction>) -> (found: Vec<
    Option<(OrchardNote, [u8; 43])>,
>)
    ensures
        found.len() == actions.len(),
        forall|i: int|
            0 <= i < found.len() ==> #[trigger] found[i] == (match orchard_compact_note(
                ivk@,
                actions[i]@,
            ) {
                Some(note) => Some((note, note.recipient)),
                None => None,
            }),
{
    let mut ivks: Vec<&OrchardIvk> = Vec::new();
    ivks.push(ivk);
    let hits = orchard_compact_batch(&ivks, actions);
    let mut found: Vec<Option<(OrchardNote, [u8; 43])>> = Vec::new();
    let mut i: usize = 0;
    while i < hits.len()
        invariant
            0 <= i <= hits.len(),
            hits.len() == actions.len(),
            found.len() == i,
            ivks.len() == 1,
            ivks[0]@ == ivk@,
            forall|j: int, k: int|
                0 <= j < hits.len() && 0 <= k < ivks.len() && (hits[j] is Some ==> k < (hits[j]->0).1)
                    ==> #[trigger] orchard_compact_note(ivks[k]@, actions[j]@) is None,
            forall|j: int|
                0 <= j < hits.len() && (#[trigger] hits[j]) is Some ==> (hits[j]->0).1 < ivks.len()
                    && orchard_compact_note(ivks[(hits[j]->0).1 as int]@, actions[j]@) == Some(
                    (hits[j]->0).0,
                ),
            forall|j: int|
                0 <= j < i ==> #[trigger] found[j] == (match orchard_compact_note(
                    ivk@,
                    actions[j]@,
                ) {
                    Some(note) => Some((note, note.recipient)),
                    None => None,
                }),
        decreases hits.len() - i,
    {
        assert(hits[i as int] is None ==> orchard_compact_note(ivks[0]@, actions[i as int]@) is None);
        found.push(
            match hits[i] {
                Some((note, _)) => Some((note, note.recipient)),
                None => None,
            },
        );
        i = i + 1;
    }
    found
}

/// Trial-decrypts one full Orchard action with a key: the note, its recipient and its
/// memo, where the key matches.
pub fn try_decrypt_orchard(action: &OrchardFullAction, ivk: &OrchardIvk) -> (found: Option<
    (OrchardNote, [u8; 43], [u8; 512]),
>)
    ensures
        found == match orchard_full_note(ivk@, action@) {
            Some((note, memo)) => Some((note, note.recipient, memo)),
            None => None,
        },
{
    match orchard_full(ivk, action) {
        Some((note, memo)) => Some((note, note.recipient, memo)),
        None => None,
    }
}

/// Trial-decrypts one full Sapling output with a key: the note, its recipient and its
/// memo, where the key matches. `zip212` is the rule at the height of the output.
pub fn try_decrypt_sapling(
    output: &SaplingFullOutput,
    ivk: &SaplingIvk,
    zip212: Zip212Enforcement,
) -> (found: Option<(SaplingNote, [u8; 43], [u8; 512])>)
    ensures
        found == match sapling_full_note(ivk@, zip212, output@) {
            Some((note, memo)) => Some((note, note.recipient, memo)),
            None => None,
        },
{
    let mut ivks: Vec<&SaplingIvk> = Vec::new();
    ivks.push(ivk);
    let mut outputs: Vec<&SaplingFullOutput> = Vec::new();
    outputs.push(output);
    let hits = sapling_full_batch(&ivks, zip212, &outputs);
    assert(hits[0] is None ==> sapling_full_note(ivks[0]@, zip212, outputs[0]@) is None);
    match hits[0] {
        Some(((note, memo), _)) => Some((note, note.recipient, memo)),
        None => None,
    }
}

} // verus!
