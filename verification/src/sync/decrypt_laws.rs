//! Laws of trial decryption: which key finds a note, and what is told of it.

use vstd::prelude::*;

use crate::primitives::{
    ActionParts, CompactParts, FullActionParts, FullParts, Scope, Zip212Enforcement,
};
use crate::proto::{CompactOrchardAction, CompactSaplingOutput};
use crate::seqs::{
    collect_some, first_some, lemma_collect_all, lemma_collect_at, lemma_collect_has,
    lemma_collect_short, lemma_first_some_found,
};
use crate::sync::decrypt::{
    ironwood_compact_found, ironwood_compact_trials, ironwood_full_found, ironwood_full_trials,
    ironwood_sent_found, ironwood_sent_trials, is_full_orchard_key, is_full_sapling_key,
    is_incoming_orchard_key, is_incoming_sapling_key, orchard_compact_found,
    orchard_compact_trials, orchard_full_found, orchard_full_trials, orchard_ovks_of,
    orchard_sent_found, orchard_sent_trials, sapling_compact_found, sapling_compact_trials,
    sapling_full_found, sapling_full_trials, sapling_ovks_of, sapling_sent_found,
    sapling_sent_trials, scope_at, OrchardScanningKey, SaplingScanningKey,
};
use crate::upstream::orchard_notes::{
    ironwood_compact_note, ironwood_full_note, ironwood_sent_note, orchard_cmx_valid,
    orchard_compact_note, orchard_full_note, orchard_ivk_of, orchard_nullifier_valid,
    orchard_ovk_of, orchard_sent_note,
};
use crate::upstream::sapling_notes::{
    sapling_cmu_valid, sapling_compact_note, sapling_full_note, sapling_ivk_of, sapling_ovk_of,
    sapling_sent_note,
};

verus! {

/// A Sapling output of a compact transaction gives the note that the first of the keys that can
/// see it finds, whichever key that is and whatever its scope. It gives nothing only where it
/// is malformed or no key can see it.
pub proof fn law_sapling_note_is_found_by_the_first_key_that_sees_it(
    keys: Seq<SaplingScanningKey>,
    zip212: Zip212Enforcement,
    output: CompactSaplingOutput,
)
    requires
        keys.len() <= usize::MAX,
    ensures
        ({
            let formed = output.cmu@.len() == 32 && sapling_cmu_valid(output.cmu@)
                && output.ephemeral_key@.len() == 32 && output.ciphertext@.len() == 52;
            let parts = CompactParts {
                cmu: output.cmu@,
                ephemeral_key: output.ephemeral_key@,
                ciphertext: output.ciphertext@,
            };
            match sapling_compact_found(keys, zip212, output) {
                Some(r) => {
                    &&& formed
                    &&& r.key_index < keys.len()
                    &&& sapling_compact_note(keys[r.key_index as int].ivk@, zip212, parts) == Some(r.note)
                    &&& forall|j: int|
                        0 <= j < r.key_index ==> sapling_compact_note(
                            #[trigger] keys[j].ivk@,
                            zip212, parts,
                        ) is None
                    &&& r.recipient == r.note.recipient
                    &&& r.memo is None
                },
                None => formed ==> forall|j: int|
                    0 <= j < keys.len() ==> sapling_compact_note(
                        #[trigger] keys[j].ivk@,
                        zip212, parts,
                    ) is None,
            }
        }),
{
    let parts = CompactParts {
        cmu: output.cmu@,
        ephemeral_key: output.ephemeral_key@,
        ciphertext: output.ciphertext@,
    };
    let trials = sapling_compact_trials(keys, zip212, parts);
    lemma_first_some_found(trials);
    assert forall|j: int| 0 <= j < keys.len() implies sapling_compact_note(
        #[trigger] keys[j].ivk@,
        zip212, parts,
    ) == trials[j] by {}
}

/// A Sapling output of a full transaction gives the note and the memo that the first of the keys
/// that can see it finds, and nothing only where no key can see it.
pub proof fn law_sapling_memo_is_read_by_the_first_key_that_sees_it(
    keys: Seq<SaplingScanningKey>,
    zip212: Zip212Enforcement,
    parts: FullParts,
)
    requires
        keys.len() <= usize::MAX,
    ensures
        match sapling_full_found(keys, zip212, parts) {
            Some(r) => {
                &&& r.key_index < keys.len()
                &&& r.memo is Some
                &&& sapling_full_note(keys[r.key_index as int].ivk@, zip212, parts) == Some(
                    (r.note, r.memo->0),
                )
                &&& forall|j: int|
                    0 <= j < r.key_index ==> sapling_full_note(#[trigger] keys[j].ivk@, zip212, parts) is None
                &&& r.recipient == r.note.recipient
            },
            None => forall|j: int|
                0 <= j < keys.len() ==> sapling_full_note(#[trigger] keys[j].ivk@, zip212, parts) is None,
        },
{
    let trials = sapling_full_trials(keys, zip212, parts);
    lemma_first_some_found(trials);
    assert forall|j: int| 0 <= j < keys.len() implies sapling_full_note(
        #[trigger] keys[j].ivk@,
        zip212, parts,
    ) == trials[j] by {}
}

/// A Sapling output of a full transaction is recovered as sent by the first outgoing viewing key
/// that can, with the note and the memo, and is not recovered only where none can. The index
/// told is that of the key, where every key before it has an outgoing viewing key.
pub proof fn law_sapling_note_sent_is_recovered_by_the_first_key_that_can(
    keys: Seq<SaplingScanningKey>,
    zip212: Zip212Enforcement,
    parts: FullParts,
)
    requires
        keys.len() <= usize::MAX,
    ensures
        match sapling_sent_found(keys, zip212, parts) {
            Some(r) => exists|j: int|
                {
                    &&& 0 <= j < keys.len()
                    &&& #[trigger] keys[j].ovk is Some
                    &&& r.memo is Some
                    &&& sapling_sent_note(keys[j].ovk->0@, zip212, parts) == Some((r.note, r.memo->0))
                    &&& forall|i: int|
                        0 <= i < j && (#[trigger] keys[i]).ovk is Some ==> sapling_sent_note(
                            keys[i].ovk->0@,
                            zip212, parts,
                        ) is None
                    &&& r.recipient == r.note.recipient
                    &&& (forall|i: int| 0 <= i < j ==> (#[trigger] keys[i]).ovk is Some)
                        ==> r.key_index == j
                },
            None => forall|j: int|
                0 <= j < keys.len() && (#[trigger] keys[j]).ovk is Some ==> sapling_sent_note(
                    keys[j].ovk->0@,
                    zip212, parts,
                ) is None,
        },
{
    let all = Seq::new(keys.len(), |k: int| keys[k].ovk);
    let ovks = sapling_ovks_of(keys);
    assert(ovks == collect_some(all));
    lemma_collect_short(all);
    let trials = sapling_sent_trials(ovks, zip212, parts);
    lemma_first_some_found(trials);
    match first_some(trials) {
        Some((k, hit)) => {
            lemma_collect_at(all, k);
            let j = choose|j: int|
                0 <= j < all.len() && #[trigger] all[j] == Some(ovks[k]) && collect_some(all.take(j))
                    == ovks.take(k);
            assert(keys[j].ovk == all[j]);
            assert(trials[k] == sapling_sent_note(ovks[k]@, zip212, parts));
            let before = all.take(j);
            assert forall|i: int| 0 <= i < j && (#[trigger] keys[i]).ovk is Some implies sapling_sent_note(
                keys[i].ovk->0@,
                zip212, parts,
            ) is None by {
                assert(before[i] == keys[i].ovk);
                lemma_collect_has(before, i);
                let n = choose|n: int| 0 <= n < k && ovks.take(k)[n] == keys[i].ovk->0;
                assert(trials[n] is None);
            }
            if forall|i: int| 0 <= i < j ==> (#[trigger] keys[i]).ovk is Some {
                assert forall|i: int| 0 <= i < before.len() implies (#[trigger] before[i]) is Some by {
                    assert(before[i] == keys[i].ovk);
                }
                lemma_collect_all(before);
            }
        },
        None => {
            assert forall|j: int| 0 <= j < keys.len() && (#[trigger] keys[j]).ovk is Some implies sapling_sent_note(
                keys[j].ovk->0@,
                zip212, parts,
            ) is None by {
                assert(all[j] == keys[j].ovk);
                lemma_collect_has(all, j);
                let n = choose|n: int| 0 <= n < ovks.len() && ovks[n] == keys[j].ovk->0;
                assert(trials[n] is None);
            }
        },
    }
}

/// An Orchard action of a compact transaction gives the note that the first of the keys that can
/// see it finds, whichever key that is and whatever its scope. It gives nothing only where it
/// is malformed or no key can see it.
pub proof fn law_orchard_note_is_found_by_the_first_key_that_sees_it(
    keys: Seq<OrchardScanningKey>,
    action: CompactOrchardAction,
)
    requires
        keys.len() <= usize::MAX,
    ensures
        ({
            let formed = action.nullifier@.len() == 32 && orchard_nullifier_valid(action.nullifier@)
                && action.cmx@.len() == 32 && orchard_cmx_valid(action.cmx@)
                && action.ephemeral_key@.len() == 32 && action.ciphertext@.len() == 52;
            let parts = ActionParts {
                nullifier: action.nullifier@,
                cmx: action.cmx@,
                ephemeral_key: action.ephemeral_key@,
                ciphertext: action.ciphertext@,
            };
            match orchard_compact_found(keys, action) {
                Some(r) => {
                    &&& formed
                    &&& r.key_index < keys.len()
                    &&& orchard_compact_note(keys[r.key_index as int].ivk@, parts) == Some(r.note)
                    &&& forall|j: int|
                        0 <= j < r.key_index ==> orchard_compact_note(
                            #[trigger] keys[j].ivk@,
                            parts,
                        ) is None
                    &&& r.recipient == r.note.recipient
                    &&& r.memo is None
                },
                None => formed ==> forall|j: int|
                    0 <= j < keys.len() ==> orchard_compact_note(
                        #[trigger] keys[j].ivk@,
                        parts,
                    ) is None,
            }
        }),
{
    let parts = ActionParts {
        nullifier: action.nullifier@,
        cmx: action.cmx@,
        ephemeral_key: action.ephemeral_key@,
        ciphertext: action.ciphertext@,
    };
    let trials = orchard_compact_trials(keys, parts);
    lemma_first_some_found(trials);
    assert forall|j: int| 0 <= j < keys.len() implies orchard_compact_note(
        #[trigger] keys[j].ivk@,
        parts,
    ) == trials[j] by {}
}

/// An Orchard action of a full transaction gives the note and the memo that the first of the keys
/// that can see it finds, and nothing only where no key can see it.
pub proof fn law_orchard_memo_is_read_by_the_first_key_that_sees_it(
    keys: Seq<OrchardScanningKey>,
    parts: FullActionParts,
)
    requires
        keys.len() <= usize::MAX,
    ensures
        match orchard_full_found(keys, parts) {
            Some(r) => {
                &&& r.key_index < keys.len()
                &&& r.memo is Some
                &&& orchard_full_note(keys[r.key_index as int].ivk@, parts) == Some(
                    (r.note, r.memo->0),
                )
                &&& forall|j: int|
                    0 <= j < r.key_index ==> orchard_full_note(#[trigger] keys[j].ivk@, parts) is None
                &&& r.recipient == r.note.recipient
            },
            None => forall|j: int|
                0 <= j < keys.len() ==> orchard_full_note(#[trigger] keys[j].ivk@, parts) is None,
        },
{
    let trials = orchard_full_trials(keys, parts);
    lemma_first_some_found(trials);
    assert forall|j: int| 0 <= j < keys.len() implies orchard_full_note(
        #[trigger] keys[j].ivk@,
        parts,
    ) == trials[j] by {}
}

/// An Orchard action of a full transaction is recovered as sent by the first outgoing viewing key
/// that can, with the note and the memo, and is not recovered only where none can. The index
/// told is that of the key, where every key before it has an outgoing viewing key.
pub proof fn law_orchard_note_sent_is_recovered_by_the_first_key_that_can(
    keys: Seq<OrchardScanningKey>,
    parts: FullActionParts,
)
    requires
        keys.len() <= usize::MAX,
    ensures
        match orchard_sent_found(keys, parts) {
            Some(r) => exists|j: int|
                {
                    &&& 0 <= j < keys.len()
                    &&& #[trigger] keys[j].ovk is Some
                    &&& r.memo is Some
                    &&& orchard_sent_note(keys[j].ovk->0@, parts) == Some((r.note, r.memo->0))
                    &&& forall|i: int|
                        0 <= i < j && (#[trigger] keys[i]).ovk is Some ==> orchard_sent_note(
                            keys[i].ovk->0@,
                            parts,
                        ) is None
                    &&& r.recipient == r.note.recipient
                    &&& (forall|i: int| 0 <= i < j ==> (#[trigger] keys[i]).ovk is Some)
                        ==> r.key_index == j
                },
            None => forall|j: int|
                0 <= j < keys.len() && (#[trigger] keys[j]).ovk is Some ==> orchard_sent_note(
                    keys[j].ovk->0@,
                    parts,
                ) is None,
        },
{
    let all = Seq::new(keys.len(), |k: int| keys[k].ovk);
    let ovks = orchard_ovks_of(keys);
    assert(ovks == collect_some(all));
    lemma_collect_short(all);
    let trials = orchard_sent_trials(ovks, parts);
    lemma_first_some_found(trials);
    match first_some(trials) {
        Some((k, hit)) => {
            lemma_collect_at(all, k);
            let j = choose|j: int|
                0 <= j < all.len() && #[trigger] all[j] == Some(ovks[k]) && collect_some(all.take(j))
                    == ovks.take(k);
            assert(keys[j].ovk == all[j]);
            assert(trials[k] == orchard_sent_note(ovks[k]@, parts));
            let before = all.take(j);
            assert forall|i: int| 0 <= i < j && (#[trigger] keys[i]).ovk is Some implies orchard_sent_note(
                keys[i].ovk->0@,
                parts,
            ) is None by {
                assert(before[i] == keys[i].ovk);
                lemma_collect_has(before, i);
                let n = choose|n: int| 0 <= n < k && ovks.take(k)[n] == keys[i].ovk->0;
                assert(trials[n] is None);
            }
            if forall|i: int| 0 <= i < j ==> (#[trigger] keys[i]).ovk is Some {
                assert forall|i: int| 0 <= i < before.len() implies (#[trigger] before[i]) is Some by {
                    assert(before[i] == keys[i].ovk);
                }
                lemma_collect_all(before);
            }
        },
        None => {
            assert forall|j: int| 0 <= j < keys.len() && (#[trigger] keys[j]).ovk is Some implies orchard_sent_note(
                keys[j].ovk->0@,
                parts,
            ) is None by {
                assert(all[j] == keys[j].ovk);
                lemma_collect_has(all, j);
                let n = choose|n: int| 0 <= n < ovks.len() && ovks[n] == keys[j].ovk->0;
                assert(trials[n] is None);
            }
        },
    }
}

/// An Ironwood action of a compact transaction gives the note that the first of the keys that can
/// see it finds, whichever key that is and whatever its scope. It gives nothing only where it
/// is malformed or no key can see it.
pub proof fn law_ironwood_note_is_found_by_the_first_key_that_sees_it(
    keys: Seq<OrchardScanningKey>,
    action: CompactOrchardAction,
)
    requires
        keys.len() <= usize::MAX,
    ensures
        ({
            let formed = action.nullifier@.len() == 32 && orchard_nullifier_valid(action.nullifier@)
                && action.cmx@.len() == 32 && orchard_cmx_valid(action.cmx@)
                && action.ephemeral_key@.len() == 32 && action.ciphertext@.len() == 52;
            let parts = ActionParts {
                nullifier: action.nullifier@,
                cmx: action.cmx@,
                ephemeral_key: action.ephemeral_key@,
                ciphertext: action.ciphertext@,
            };
            match ironwood_compact_found(keys, action) {
                Some(r) => {
                    &&& formed
                    &&& r.key_index < keys.len()
                    &&& ironwood_compact_note(keys[r.key_index as int].ivk@, parts) == Some(r.note)
                    &&& forall|j: int|
                        0 <= j < r.key_index ==> ironwood_compact_note(
                            #[trigger] keys[j].ivk@,
                            parts,
                        ) is None
                    &&& r.recipient == r.note.recipient
                    &&& r.memo is None
                },
                None => formed ==> forall|j: int|
                    0 <= j < keys.len() ==> ironwood_compact_note(
                        #[trigger] keys[j].ivk@,
                        parts,
                    ) is None,
            }
        }),
{
    let parts = ActionParts {
        nullifier: action.nullifier@,
        cmx: action.cmx@,
        ephemeral_key: action.ephemeral_key@,
        ciphertext: action.ciphertext@,
    };
    let trials = ironwood_compact_trials(keys, parts);
    lemma_first_some_found(trials);
    assert forall|j: int| 0 <= j < keys.len() implies ironwood_compact_note(
        #[trigger] keys[j].ivk@,
        parts,
    ) == trials[j] by {}
}

/// An Ironwood action of a full transaction gives the note and the memo that the first of the keys
/// that can see it finds, and nothing only where no key can see it.
pub proof fn law_ironwood_memo_is_read_by_the_first_key_that_sees_it(
    keys: Seq<OrchardScanningKey>,
    parts: FullActionParts,
)
    requires
        keys.len() <= usize::MAX,
    ensures
        match ironwood_full_found(keys, parts) {
            Some(r) => {
                &&& r.key_index < keys.len()
                &&& r.memo is Some
                &&& ironwood_full_note(keys[r.key_index as int].ivk@, parts) == Some(
                    (r.note, r.memo->0),
                )
                &&& forall|j: int|
                    0 <= j < r.key_index ==> ironwood_full_note(#[trigger] keys[j].ivk@, parts) is None
                &&& r.recipient == r.note.recipient
            },
            None => forall|j: int|
                0 <= j < keys.len() ==> ironwood_full_note(#[trigger] keys[j].ivk@, parts) is None,
        },
{
    let trials = ironwood_full_trials(keys, parts);
    lemma_first_some_found(trials);
    assert forall|j: int| 0 <= j < keys.len() implies ironwood_full_note(
        #[trigger] keys[j].ivk@,
        parts,
    ) == trials[j] by {}
}

/// An Ironwood action of a full transaction is recovered as sent by the first outgoing viewing key
/// that can, with the note and the memo, and is not recovered only where none can. The index
/// told is that of the key, where every key before it has an outgoing viewing key.
pub proof fn law_ironwood_note_sent_is_recovered_by_the_first_key_that_can(
    keys: Seq<OrchardScanningKey>,
    parts: FullActionParts,
)
    requires
        keys.len() <= usize::MAX,
    ensures
        match ironwood_sent_found(keys, parts) {
            Some(r) => exists|j: int|
                {
                    &&& 0 <= j < keys.len()
                    &&& #[trigger] keys[j].ovk is Some
                    &&& r.memo is Some
                    &&& ironwood_sent_note(keys[j].ovk->0@, parts) == Some((r.note, r.memo->0))
                    &&& forall|i: int|
                        0 <= i < j && (#[trigger] keys[i]).ovk is Some ==> ironwood_sent_note(
                            keys[i].ovk->0@,
                            parts,
                        ) is None
                    &&& r.recipient == r.note.recipient
                    &&& (forall|i: int| 0 <= i < j ==> (#[trigger] keys[i]).ovk is Some)
                        ==> r.key_index == j
                },
            None => forall|j: int|
                0 <= j < keys.len() && (#[trigger] keys[j]).ovk is Some ==> ironwood_sent_note(
                    keys[j].ovk->0@,
                    parts,
                ) is None,
        },
{
    let all = Seq::new(keys.len(), |k: int| keys[k].ovk);
    let ovks = orchard_ovks_of(keys);
    assert(ovks == collect_some(all));
    lemma_collect_short(all);
    let trials = ironwood_sent_trials(ovks, parts);
    lemma_first_some_found(trials);
    match first_some(trials) {
        Some((k, hit)) => {
            lemma_collect_at(all, k);
            let j = choose|j: int|
                0 <= j < all.len() && #[trigger] all[j] == Some(ovks[k]) && collect_some(all.take(j))
                    == ovks.take(k);
            assert(keys[j].ovk == all[j]);
            assert(trials[k] == ironwood_sent_note(ovks[k]@, parts));
            let before = all.take(j);
            assert forall|i: int| 0 <= i < j && (#[trigger] keys[i]).ovk is Some implies ironwood_sent_note(
                keys[i].ovk->0@,
                parts,
            ) is None by {
                assert(before[i] == keys[i].ovk);
                lemma_collect_has(before, i);
                let n = choose|n: int| 0 <= n < k && ovks.take(k)[n] == keys[i].ovk->0;
                assert(trials[n] is None);
            }
            if forall|i: int| 0 <= i < j ==> (#[trigger] keys[i]).ovk is Some {
                assert forall|i: int| 0 <= i < before.len() implies (#[trigger] before[i]) is Some by {
                    assert(before[i] == keys[i].ovk);
                }
                lemma_collect_all(before);
            }
        },
        None => {
            assert forall|j: int| 0 <= j < keys.len() && (#[trigger] keys[j]).ovk is Some implies ironwood_sent_note(
                keys[j].ovk->0@,
                parts,
            ) is None by {
                assert(all[j] == keys[j].ovk);
                lemma_collect_has(all, j);
                let n = choose|n: int| 0 <= n < ovks.len() && ovks[n] == keys[j].ovk->0;
                assert(trials[n] is None);
            }
        },
    }
}

/// The key that a full viewing key yields in a scope sees what that scope's incoming viewing
/// key sees, derives nullifiers, recovers what that scope sent, and is told apart by its scope.
pub proof fn law_full_key_has_every_capability_of_its_scope(
    sapling: SaplingScanningKey,
    dfvk: Seq<u8>,
    orchard: OrchardScanningKey,
    fvk: Seq<u8>,
    scope: Scope,
)
    ensures
        is_full_sapling_key(sapling, dfvk, scope) <==> {
            &&& sapling.ivk@ == sapling_ivk_of(dfvk, scope)
            &&& sapling.nk is Some
            &&& sapling.nk->0@ == (dfvk, scope)
            &&& sapling.ovk is Some
            &&& sapling.ovk->0@ == sapling_ovk_of(dfvk, scope)
            &&& sapling.scope == scope
        },
        is_full_orchard_key(orchard, fvk, scope) <==> {
            &&& orchard.ivk@ == orchard_ivk_of(fvk, scope)
            &&& orchard.nk is Some
            &&& orchard.nk->0@ == fvk
            &&& orchard.ovk is Some
            &&& orchard.ovk->0@ == orchard_ovk_of(fvk, scope)
            &&& orchard.scope == scope
        },
{
}

/// The scopes of a full key are tried in turn, the external one first; and the key that an
/// incoming viewing key yields finds notes and can do nothing else.
pub proof fn law_scopes_and_incoming_keys(
    sapling: SaplingScanningKey,
    orchard: OrchardScanningKey,
    ivk: Seq<u8>,
)
    ensures
        scope_at(0) == Scope::External,
        scope_at(1) == Scope::Internal,
        is_incoming_sapling_key(sapling, ivk) <==> {
            &&& sapling.ivk@ == ivk
            &&& sapling.nk is None
            &&& sapling.ovk is None
            &&& sapling.scope == Scope::External
        },
        is_incoming_orchard_key(orchard, ivk) <==> {
            &&& orchard.ivk@ == ivk
            &&& orchard.nk is None
            &&& orchard.ovk is None
            &&& orchard.scope == Scope::External
        },
{
}

} // verus!
