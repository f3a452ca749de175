//! Ironwood notes whose commitments are bound to application data.
//!
//! Relaxed trial decryption also gives notes that do not produce the commitment that was
//! published. A note that does is an ordinary one. The rest are handed on unverified: the
//! caller checks what their commitments are bound to.

use vstd::prelude::*;

use crate::bytes::same32;
use crate::primitives::OrchardNote;
use crate::seqs::{collect_some, lemma_collect_push, scatter};
use crate::sync::decrypt::{DecryptResult, OrchardResult};
use crate::upstream::orchard_notes::{orchard_commitment, orchard_commitment_of};

verus! {

/// A decrypted note, with the commitment that was published for it.
#[derive(Debug, Clone, Copy, PartialEq, Eq)]
pub struct CandidateNote {
    /// The note.
    pub note: OrchardNote,
    /// The published commitment.
    pub cmx: [u8; 32],
}

/// What relaxed decryption of an action gives.
#[derive(Debug, Clone, Copy, PartialEq, Eq)]
pub struct Candidate {
    /// The action's index.
    pub index: usize,
    /// The nullifier that the action reveals.
    pub nullifier: [u8; 32],
    /// The note.
    pub candidate: CandidateNote,
    /// Its memo, where the action is a full one.
    pub memo: Option<[u8; 512]>,
    /// The index of the key that found it.
    pub key_index: usize,
}

/// A note that does not produce its published commitment. Nothing of it is verified.
#[derive(Debug, Clone, Copy, PartialEq, Eq)]
pub struct RelaxedIronwoodOutput {
    /// The action's index.
    pub index: usize,
    /// The note, with its published commitment.
    pub candidate: CandidateNote,
    /// The nullifier that the action reveals.
    pub nullifier: [u8; 32],
    /// The memo, where the action is a full one.
    pub memo: Option<[u8; 512]>,
    /// Whether an outgoing viewing key found it.
    pub is_sent: bool,
}

/// Whether a note produces its published commitment.
pub open spec fn self_consistent(candidate: CandidateNote) -> bool {
    orchard_commitment_of(candidate.note) == Some(candidate.cmx)
}

/// Whether a note produces its published commitment, and so is an ordinary note.
pub fn rseed_guard(candidate: &CandidateNote) -> (ordinary: bool)
    ensures
        ordinary == self_consistent(*candidate),
{
    match orchard_commitment(&candidate.note) {
        Some(cmx) => same32(&cmx, &candidate.cmx),
        None => false,
    }
}

/// What an ordinary note is handed on as.
pub open spec fn ordinary_result(c: Candidate, ordinary: bool) -> OrchardResult {
    if ordinary {
        Some(
            DecryptResult {
                note: c.candidate.note,
                recipient: c.candidate.note.recipient,
                memo: c.memo,
                key_index: c.key_index,
            },
        )
    } else {
        None
    }
}

/// What any other note is handed on as.
pub open spec fn relaxed_output(c: Candidate, ordinary: bool, is_sent: bool) -> Option<
    RelaxedIronwoodOutput,
> {
    if ordinary {
        None
    } else {
        Some(
            RelaxedIronwoodOutput {
                index: c.index,
                candidate: c.candidate,
                nullifier: c.nullifier,
                memo: c.memo,
                is_sent,
            },
        )
    }
}

/// Whether what relaxed decryption gives is told for actions in order, at most once each.
pub open spec fn in_action_order(candidates: Seq<Candidate>, actions: usize) -> bool {
    &&& forall|j: int| 0 <= j < candidates.len() ==> (#[trigger] candidates[j]).index < actions
    &&& forall|j: int, k: int|
        0 <= j < k < candidates.len() ==> (#[trigger] candidates[j]).index < (
        #[trigger] candidates[k]).index
}

/// Parts ordinary notes from the others: one slot for each action with the ordinary note
/// found in it, and the other notes in order. `ordinary` tells for each candidate whether
/// it is an ordinary note.
pub fn route(candidates: &Vec<Candidate>, ordinary: &Vec<bool>, actions: usize, is_sent: bool) -> (routed: (
    Vec<OrchardResult>,
    Vec<RelaxedIronwoodOutput>,
))
    requires
        in_action_order(candidates@, actions),
        ordinary.len() == candidates.len(),
    ensures
        routed.0.len() == actions,
        forall|j: int|
            0 <= j < candidates.len() ==> routed.0[(#[trigger] candidates[j]).index as int]
                == ordinary_result(candidates[j], ordinary[j]),
        forall|m: int|
            0 <= m < actions && (forall|j: int|
                0 <= j < candidates.len() ==> (#[trigger] candidates[j]).index != m) ==> (
            #[trigger] routed.0[m]) is None,
        routed.1@ == collect_some(
            Seq::new(
                candidates@.len(),
                |j: int| relaxed_output(candidates@[j], ordinary@[j], is_sent),
            ),
        ),
{
    let ghost all = Seq::new(
        candidates@.len(),
        |j: int| relaxed_output(candidates@[j], ordinary@[j], is_sent),
    );
    let mut indices: Vec<usize> = Vec::new();
    let mut items: Vec<OrchardResult> = Vec::new();
    let mut relaxed: Vec<RelaxedIronwoodOutput> = Vec::new();
    let mut i: usize = 0;
    assert(relaxed@ =~= collect_some(all.take(0)));
    while i < candidates.len()
        invariant
            0 <= i <= candidates.len(),
            ordinary.len() == candidates.len(),
            indices.len() == i,
            items.len() == i,
            all == Seq::new(
                candidates@.len(),
                |j: int| relaxed_output(candidates@[j], ordinary@[j], is_sent),
            ),
            forall|j: int| 0 <= j < i ==> #[trigger] indices[j] == candidates[j].index,
            forall|j: int|
                0 <= j < i ==> #[trigger] items[j] == ordinary_result(candidates[j], ordinary[j]),
            relaxed@ == collect_some(all.take(i as int)),
        decreases candidates.len() - i,
    {
        proof {
            lemma_collect_push(all.take(i as int), all[i as int]);
            assert(all.take(i as int + 1) =~= all.take(i as int).push(all[i as int]));
        }
        let c = candidates[i];
        indices.push(c.index);
        if ordinary[i] {
            items.push(
                Some(
                    DecryptResult {
                        note: c.candidate.note,
                        recipient: c.candidate.note.recipient,
                        memo: c.memo,
                        key_index: c.key_index,
                    },
                ),
            );
        } else {
            items.push(None);
            relaxed.push(
                RelaxedIronwoodOutput {
                    index: c.index,
                    candidate: c.candidate,
                    nullifier: c.nullifier,
                    memo: c.memo,
                    is_sent,
                },
            );
        }
        i = i + 1;
    }
    assert(all.take(i as int) =~= all);
    proof {
        assert forall|j: int| 0 <= j < indices.len() implies (#[trigger] indices[j]) < actions by {
            assert(candidates@[j].index < actions);
        }
        assert forall|j: int, k: int| 0 <= j < k < indices.len() implies indices[j] < indices[k] by {
            assert(candidates@[j].index < candidates@[k].index);
        }
    }
    let placed = scatter(actions, &indices, &items);
    proof {
        assert forall|j: int| 0 <= j < candidates.len() implies placed[(
        #[trigger] candidates[j]).index as int] == ordinary_result(candidates[j], ordinary[j]) by {
            assert(indices[j] == candidates[j].index);
            assert(placed[indices[j] as int] == items[j]);
        }
        assert forall|m: int|
            0 <= m < actions && (forall|j: int|
                0 <= j < candidates.len() ==> (#[trigger] candidates[j]).index != m) implies (
        #[trigger] placed[m]) is None by {
            assert forall|j: int| 0 <= j < indices.len() implies indices[j] != m by {
                assert(candidates[j].index != m);
            }
        }
    }
    (placed, relaxed)
}

/// Parts ordinary notes from the others, by whether they produce their published
/// commitments.
pub fn route_candidates(candidates: &Vec<Candidate>, actions: usize, is_sent: bool) -> (routed: (
    Vec<OrchardResult>,
    Vec<RelaxedIronwoodOutput>,
))
    requires
        in_action_order(candidates@, actions),
    ensures
        routed.0.len() == actions,
        forall|j: int|
            0 <= j < candidates.len() ==> routed.0[(#[trigger] candidates[j]).index as int]
                == ordinary_result(candidates[j], self_consistent(candidates[j].candidate)),
        forall|m: int|
            0 <= m < actions && (forall|j: int|
                0 <= j < candidates.len() ==> (#[trigger] candidates[j]).index != m) ==> (
            #[trigger] routed.0[m]) is None,
        routed.1@ == collect_some(
            candidates@.map_values(
                |c: Candidate| relaxed_output(c, self_consistent(c.candidate), is_sent),
            ),
        ),
{
    let mut ordinary: Vec<bool> = Vec::new();
    let mut i: usize = 0;
    while i < candidates.len()
        invariant
            0 <= i <= candidates.len(),
            ordinary.len() == i,
            forall|j: int|
                0 <= j < i ==> #[trigger] ordinary@[j] == self_consistent(candidates@[j].candidate),
        decreases candidates.len() - i,
    {
        let consistent = rseed_guard(&candidates[i].candidate);
        ordinary.push(consistent);
        i = i + 1;
    }
    proof {
        assert(Seq::new(
            candidates@.len(),
            |j: int| relaxed_output(candidates@[j], ordinary@[j], is_sent),
        ) =~= candidates@.map_values(
            |c: Candidate| relaxed_output(c, self_consistent(c.candidate), is_sent),
        ));
    }
    route(candidates, &ordinary, actions, is_sent)
}

/// A note that produces its published commitment is an ordinary one, told with its own memo and
/// key, and any other is handed on with its commitment: each candidate is one or the other.
pub proof fn law_candidate_is_ordinary_or_handed_on(c: Candidate, is_sent: bool)
    ensures
        self_consistent(c.candidate) == (orchard_commitment_of(c.candidate.note) == Some(
            c.candidate.cmx,
        )),
        ordinary_result(c, true) == Some(
            DecryptResult {
                note: c.candidate.note,
                recipient: c.candidate.note.recipient,
                memo: c.memo,
                key_index: c.key_index,
            },
        ),
        relaxed_output(c, true, is_sent) is None,
        ordinary_result(c, false) is None,
        relaxed_output(c, false, is_sent) == Some(
            RelaxedIronwoodOutput {
                index: c.index,
                candidate: c.candidate,
                nullifier: c.nullifier,
                memo: c.memo,
                is_sent,
            },
        ),
{
}

} // verus!
