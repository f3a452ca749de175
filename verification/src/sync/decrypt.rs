//! Trial decryption of compact outputs and of full transactions, and recovery of
//! what was sent.

use vstd::prelude::*;

use crate::bytes::to_array;
use crate::primitives::{
    ActionParts, CompactParts, FullActionParts, FullParts, OrchardNote, SaplingNote, Scope,
    Zip212Enforcement,
};
use crate::proto::{CompactOrchardAction, CompactSaplingOutput};
use crate::seqs::{
    collect_some, first_some, lemma_collect_push, lemma_first_none, lemma_first_some,
    lemma_first_some_found, scatter,
};
use crate::upstream::orchard_notes::{
    ironwood_compact_batch, ironwood_compact_note, ironwood_full, ironwood_full_note,
    ironwood_recover, ironwood_sent_note, orchard_cmx_valid, orchard_compact_action,
    orchard_compact_batch, orchard_compact_note, orchard_full, orchard_full_note, orchard_ivk_of,
    orchard_note_found, orchard_nullifier_parses, orchard_nullifier_valid, orchard_ovk_of, orchard_recover,
    orchard_sent_note, orchard_to_ivk, orchard_to_ovk, OrchardCompactAction, OrchardFullAction,
    OrchardFvk, OrchardIvk,
};
use crate::upstream::sapling_notes::{
    sapling_cmu_valid, sapling_compact_batch, sapling_compact_note, sapling_compact_output,
    sapling_full_batch, sapling_full_note, sapling_ivk_of, sapling_note_found, sapling_ovk_of, sapling_recover,
    sapling_sent_note, sapling_to_ivk, sapling_to_nk, sapling_to_ovk, SaplingCompactOutput,
    SaplingDfvk, SaplingFullOutput, SaplingIvk, SaplingNk,
};
use crate::upstream::unified_keys::{UnifiedFullViewingKey, UnifiedIncomingViewingKey};

verus! {

/// A key that scanning tries: an incoming viewing key, with the keys for nullifiers
/// and for what was sent where the viewing key is a full one.
#[derive(Debug)]
pub struct ScanningKey<Ivk, Nk, Ovk> {
    /// Finds notes.
    pub ivk: Ivk,
    /// Derives their nullifiers.
    pub nk: Option<Nk>,
    /// Recovers notes that were sent.
    pub ovk: Option<Ovk>,
    /// The scope of the three.
    pub scope: Scope,
}

/// A key that scanning tries on Sapling outputs.
pub type SaplingScanningKey = ScanningKey<SaplingIvk, SaplingNk, [u8; 32]>;

/// A key that scanning tries on Orchard and Ironwood actions.
pub type OrchardScanningKey = ScanningKey<OrchardIvk, OrchardFvk, [u8; 32]>;

/// Every key that scanning tries.
#[derive(Debug)]
pub struct ScanningKeys {
    /// The keys for Sapling outputs.
    pub sapling: Vec<SaplingScanningKey>,
    /// The keys for Orchard and Ironwood actions.
    pub orchard: Vec<OrchardScanningKey>,
}

/// The scopes of a full viewing key, in the order in which they are tried.
pub open spec fn scope_at(i: int) -> Scope {
    if i == 0 {
        Scope::External
    } else {
        Scope::Internal
    }
}

/// `key` is what a full viewing key yields for Sapling in one scope.
pub open spec fn is_full_sapling_key(key: SaplingScanningKey, dfvk: Seq<u8>, scope: Scope) -> bool {
    &&& key.ivk@ == sapling_ivk_of(dfvk, scope)
    &&& key.nk matches Some(nk) && nk@ == (dfvk, scope)
    &&& key.ovk matches Some(ovk) && ovk@ == sapling_ovk_of(dfvk, scope)
    &&& key.scope == scope
}

/// `key` is what a full viewing key yields for Orchard in one scope.
pub open spec fn is_full_orchard_key(key: OrchardScanningKey, fvk: Seq<u8>, scope: Scope) -> bool {
    &&& key.ivk@ == orchard_ivk_of(fvk, scope)
    &&& key.nk matches Some(nk) && nk@ == fvk
    &&& key.ovk matches Some(ovk) && ovk@ == orchard_ovk_of(fvk, scope)
    &&& key.scope == scope
}

/// `key` finds Sapling notes with `ivk` and can do nothing else.
pub open spec fn is_incoming_sapling_key(key: SaplingScanningKey, ivk: Seq<u8>) -> bool {
    key.ivk@ == ivk && key.nk is None && key.ovk is None && key.scope == Scope::External
}

/// `key` finds Orchard and Ironwood notes with `ivk` and can do nothing else.
pub open spec fn is_incoming_orchard_key(key: OrchardScanningKey, ivk: Seq<u8>) -> bool {
    key.ivk@ == ivk && key.nk is None && key.ovk is None && key.scope == Scope::External
}

/// The key that a full viewing key yields for Sapling in one scope.
fn full_sapling_key(dfvk: &SaplingDfvk, scope: Scope) -> (key: SaplingScanningKey)
    ensures
        is_full_sapling_key(key, dfvk@, scope),
{
    ScanningKey {
        ivk: sapling_to_ivk(dfvk, scope),
        nk: Some(sapling_to_nk(dfvk, scope)),
        ovk: Some(sapling_to_ovk(dfvk, scope)),
        scope,
    }
}

/// The key that a full viewing key yields for Orchard in one scope.
fn full_orchard_key(fvk: &OrchardFvk, scope: Scope) -> (key: OrchardScanningKey)
    ensures
        is_full_orchard_key(key, fvk@, scope),
{
    ScanningKey {
        ivk: orchard_to_ivk(fvk, scope),
        nk: Some(fvk.duplicate()),
        ovk: Some(orchard_to_ovk(fvk, scope)),
        scope,
    }
}

impl ScanningKeys {
    /// The keys of a unified full viewing key: for each shielded component, an
    /// external and an internal key with everything that a full key can do.
    pub fn from_ufvk(ufvk: &UnifiedFullViewingKey) -> (keys: Self)
        ensures
            keys.sapling.len() == if ufvk.sapling is Some {
                2nat
            } else {
                0
            },
            keys.orchard.len() == if ufvk.orchard is Some {
                2nat
            } else {
                0
            },
            ufvk.sapling matches Some(dfvk) ==> forall|i: int|
                0 <= i < 2 ==> is_full_sapling_key(#[trigger] keys.sapling[i], dfvk@, scope_at(i)),
            ufvk.orchard matches Some(fvk) ==> forall|i: int|
                0 <= i < 2 ==> is_full_orchard_key(#[trigger] keys.orchard[i], fvk@, scope_at(i)),
    {
        let mut sapling: Vec<SaplingScanningKey> = Vec::new();
        let mut orchard: Vec<OrchardScanningKey> = Vec::new();
        if let Some(dfvk) = &ufvk.sapling {
            sapling.push(full_sapling_key(dfvk, Scope::External));
            sapling.push(full_sapling_key(dfvk, Scope::Internal));
        }
        if let Some(fvk) = &ufvk.orchard {
            orchard.push(full_orchard_key(fvk, Scope::External));
            orchard.push(full_orchard_key(fvk, Scope::Internal));
        }
        ScanningKeys { sapling, orchard }
    }

    /// The keys of a unified incoming viewing key: for each shielded component, one
    /// external key that finds notes and can do nothing else.
    pub fn from_uivk(uivk: &UnifiedIncomingViewingKey) -> (keys: Self)
        ensures
            keys.sapling.len() == if uivk.sapling is Some {
                1nat
            } else {
                0
            },
            keys.orchard.len() == if uivk.orchard is Some {
                1nat
            } else {
                0
            },
            uivk.sapling matches Some(ivk) ==> is_incoming_sapling_key(keys.sapling[0], ivk@),
            uivk.orchard matches Some(ivk) ==> is_incoming_orchard_key(keys.orchard[0], ivk@),
    {
        let mut sapling: Vec<SaplingScanningKey> = Vec::new();
        let mut orchard: Vec<OrchardScanningKey> = Vec::new();
        if let Some(ivk) = &uivk.sapling {
            let ivk = ivk.duplicate();
            sapling.push(ScanningKey { ivk, nk: None, ovk: None, scope: Scope::External });
        }
        if let Some(ivk) = &uivk.orchard {
            let ivk = ivk.duplicate();
            orchard.push(ScanningKey { ivk, nk: None, ovk: None, scope: Scope::External });
        }
        ScanningKeys { sapling, orchard }
    }
}

/// A note that a key found, its recipient, its memo where the whole ciphertext was at
/// hand, and the index of the key.
#[derive(Clone, Copy, Debug, PartialEq, Eq)]
pub struct DecryptResult<Note, Recipient> {
    /// The note.
    pub note: Note,
    /// Its recipient.
    pub recipient: Recipient,
    /// Its memo.
    pub memo: Option<[u8; 512]>,
    /// The index of the key that found it.
    pub key_index: usize,
}

/// What decryption of a Sapling output gives.
pub type SaplingResult = Option<DecryptResult<SaplingNote, [u8; 43]>>;

/// What decryption of an Orchard or Ironwood action gives.
pub type OrchardResult = Option<DecryptResult<OrchardNote, [u8; 43]>>;

/// A note without a memo, and the index of the key that found it.
pub open spec fn sapling_result(hit: Option<(int, SaplingNote)>) -> SaplingResult {
    match hit {
        Some((k, note)) => Some(
            DecryptResult { note, recipient: note.recipient, memo: None, key_index: k as usize },
        ),
        None => None,
    }
}

/// A note with its memo, and the index of the key that found it.
pub open spec fn sapling_memo_result(hit: Option<(int, (SaplingNote, [u8; 512]))>) -> SaplingResult {
    match hit {
        Some((k, (note, memo))) => Some(
            DecryptResult { note, recipient: note.recipient, memo: Some(memo), key_index: k as usize },
        ),
        None => None,
    }
}

/// A note without a memo, and the index of the key that found it.
pub open spec fn orchard_result(hit: Option<(int, OrchardNote)>) -> OrchardResult {
    match hit {
        Some((k, note)) => Some(
            DecryptResult { note, recipient: note.recipient, memo: None, key_index: k as usize },
        ),
        None => None,
    }
}

/// A note with its memo, and the index of the key that found it.
pub open spec fn orchard_memo_result(hit: Option<(int, (OrchardNote, [u8; 512]))>) -> OrchardResult {
    match hit {
        Some((k, (note, memo))) => Some(
            DecryptResult { note, recipient: note.recipient, memo: Some(memo), key_index: k as usize },
        ),
        None => None,
    }
}

/// The parts of a compact Sapling output, where they have the right lengths and the
/// commitment is one.
pub open spec fn sapling_compact_parts(output: CompactSaplingOutput) -> Option<CompactParts> {
    if output.cmu@.len() == 32 && sapling_cmu_valid(output.cmu@) && output.ephemeral_key@.len() == 32
        && output.ciphertext@.len() == 52 {
        Some(
            CompactParts {
                cmu: output.cmu@,
                ephemeral_key: output.ephemeral_key@,
                ciphertext: output.ciphertext@,
            },
        )
    } else {
        None
    }
}

/// The parts of a compact action, where they have the right lengths and the nullifier
/// and the commitment are such.
pub open spec fn orchard_compact_parts(action: CompactOrchardAction) -> Option<ActionParts> {
    if action.nullifier@.len() == 32 && orchard_nullifier_valid(action.nullifier@)
        && action.cmx@.len() == 32 && orchard_cmx_valid(action.cmx@)
        && action.ephemeral_key@.len() == 32 && action.ciphertext@.len() == 52 {
        Some(
            ActionParts {
                nullifier: action.nullifier@,
                cmx: action.cmx@,
                ephemeral_key: action.ephemeral_key@,
                ciphertext: action.ciphertext@,
            },
        )
    } else {
        None
    }
}

/// Reads a compact Sapling output.
pub fn parse_compact_sapling(o: &CompactSaplingOutput) -> (output: Option<SaplingCompactOutput>)
    ensures
        output is Some == sapling_compact_parts(*o) is Some,
        output is Some ==> sapling_compact_parts(*o) == Some((output->0)@),
{
    let cmu: [u8; 32] = to_array(o.cmu.as_slice())?;
    let ephemeral_key: [u8; 32] = to_array(o.ephemeral_key.as_slice())?;
    let ciphertext: [u8; 52] = to_array(o.ciphertext.as_slice())?;
    sapling_compact_output(cmu, ephemeral_key, ciphertext)
}

/// Reads a compact Orchard or Ironwood action.
pub fn parse_compact_orchard(a: &CompactOrchardAction) -> (action: Option<OrchardCompactAction>)
    ensures
        action is Some == orchard_compact_parts(*a) is Some,
        action is Some ==> orchard_compact_parts(*a) == Some((action->0)@),
{
    let nullifier: [u8; 32] = to_array(a.nullifier.as_slice())?;
    if !orchard_nullifier_parses(&nullifier) {
        return None;
    }
    let cmx: [u8; 32] = to_array(a.cmx.as_slice())?;
    let ephemeral_key: [u8; 32] = to_array(a.ephemeral_key.as_slice())?;
    let ciphertext: [u8; 52] = to_array(a.ciphertext.as_slice())?;
    orchard_compact_action(nullifier, cmx, ephemeral_key, ciphertext)
}

/// The incoming viewing keys that are tried on Sapling outputs, in order.
fn sapling_ivks(keys: &ScanningKeys) -> (ivks: Vec<&SaplingIvk>)
    ensures
        ivks.len() == keys.sapling.len(),
        forall|k: int| 0 <= k < ivks.len() ==> (#[trigger] ivks[k])@ == keys.sapling[k].ivk@,
{
    let mut ivks: Vec<&SaplingIvk> = Vec::new();
    let mut k: usize = 0;
    while k < keys.sapling.len()
        invariant
            0 <= k <= keys.sapling.len(),
            ivks.len() == k,
            forall|j: int| 0 <= j < k ==> (#[trigger] ivks[j])@ == keys.sapling[j].ivk@,
        decreases keys.sapling.len() - k,
    {
        ivks.push(&keys.sapling[k].ivk);
        k = k + 1;
    }
    ivks
}

/// The incoming viewing keys that are tried on actions, in order.
fn orchard_ivks(keys: &ScanningKeys) -> (ivks: Vec<&OrchardIvk>)
    ensures
        ivks.len() == keys.orchard.len(),
        forall|k: int| 0 <= k < ivks.len() ==> (#[trigger] ivks[k])@ == keys.orchard[k].ivk@,
{
    let mut ivks: Vec<&OrchardIvk> = Vec::new();
    let mut k: usize = 0;
    while k < keys.orchard.len()
        invariant
            0 <= k <= keys.orchard.len(),
            ivks.len() == k,
            forall|j: int| 0 <= j < k ==> (#[trigger] ivks[j])@ == keys.orchard[j].ivk@,
        decreases keys.orchard.len() - k,
    {
        ivks.push(&keys.orchard[k].ivk);
        k = k + 1;
    }
    ivks
}

/// What each of the keys finds in a compact Sapling output.
pub open spec fn sapling_compact_trials(
    keys: Seq<SaplingScanningKey>,
    zip212: Zip212Enforcement,
    parts: CompactParts,
) -> Seq<Option<SaplingNote>> {
    Seq::new(keys.len(), |k: int| sapling_compact_note(keys[k].ivk@, zip212, parts))
}

/// What decryption of a compact Sapling output gives: the note that the first
/// matching key finds, or nothing where no key matches or the output is malformed.
pub open spec fn sapling_compact_found(
    keys: Seq<SaplingScanningKey>,
    zip212: Zip212Enforcement,
    output: CompactSaplingOutput,
) -> SaplingResult {
    match sapling_compact_parts(output) {
        Some(parts) => sapling_result(first_some(sapling_compact_trials(keys, zip212, parts))),
        None => None,
    }
}

/// Trial-decrypts compact Sapling outputs: one slot per output, in order.
pub fn decrypt_compact_sapling(
    outputs: &[CompactSaplingOutput],
    keys: &ScanningKeys,
    zip212: Zip212Enforcement,
) -> (results: Vec<SaplingResult>)
    ensures
        results.len() == outputs.len(),
        forall|i: int|
            0 <= i < results.len() ==> #[trigger] results[i] == sapling_compact_found(
                keys.sapling@,
                zip212, outputs[i],
            ),
{
    let ivks = sapling_ivks(keys);
    let mut parsed: Vec<SaplingCompactOutput> = Vec::new();
    let mut indices: Vec<usize> = Vec::new();
    let mut i: usize = 0;
    while i < outputs.len()
        invariant
            0 <= i <= outputs.len(),
            parsed.len() == indices.len(),
            forall|j: int| 0 <= j < indices.len() ==> (#[trigger] indices[j]) < i,
            forall|j: int, k: int| 0 <= j < k < indices.len() ==> indices[j] < indices[k],
            forall|j: int|
                0 <= j < indices.len() ==> sapling_compact_parts(outputs[(#[trigger] indices[j]) as int])
                    == Some(parsed[j]@),
            forall|m: int|
                0 <= m < i && sapling_compact_parts(#[trigger] outputs[m]) is Some ==> exists|j: int|
                    0 <= j < indices.len() && indices[j] == m,
        decreases outputs.len() - i,
    {
        let ghost before = indices@;
        if let Some(p) = parse_compact_sapling(&outputs[i]) {
            parsed.push(p);
            indices.push(i);
            assert(indices[before.len() as int] == i);
        }
        assert forall|m: int|
            0 <= m < i + 1 && sapling_compact_parts(#[trigger] outputs[m]) is Some implies exists|j: int|
            0 <= j < indices.len() && indices[j] == m by {
            if m < i {
                let j = choose|j: int| 0 <= j < before.len() && before[j] == m;
                assert(indices[j] == m);
            }
        }
        i = i + 1;
    }
    let raw = sapling_compact_batch(&ivks, zip212, &parsed);
    let placed = scatter(outputs.len(), &indices, &raw);
    let mut results: Vec<SaplingResult> = Vec::new();
    let mut m: usize = 0;
    while m < placed.len()
        invariant
            0 <= m <= placed.len(),
            placed.len() == outputs.len(),
            results.len() == m,
            raw.len() == indices.len(),
            raw.len() == parsed.len(),
            ivks.len() == keys.sapling.len(),
            forall|k: int| 0 <= k < ivks.len() ==> (#[trigger] ivks[k])@ == keys.sapling[k].ivk@,
            forall|j: int|
                0 <= j < indices.len() ==> sapling_compact_parts(outputs[(#[trigger] indices[j]) as int])
                    == Some(parsed[j]@),
            forall|n: int|
                0 <= n < outputs.len() && sapling_compact_parts(#[trigger] outputs[n]) is Some ==> exists|
                    j: int,
                |
                    0 <= j < indices.len() && indices[j] == n,
            forall|j: int| 0 <= j < indices.len() ==> placed[(#[trigger] indices[j]) as int] == raw[j],
            forall|n: int|
                0 <= n < placed.len() && (forall|j: int| 0 <= j < indices.len() ==> indices[j] != n) ==> (
                #[trigger] placed[n]) is None,
            forall|j: int, k: int|
                0 <= j < raw.len() && 0 <= k < ivks.len() && (raw[j] is Some ==> k < (raw[j]->0).1)
                    ==> #[trigger] sapling_compact_note(ivks[k]@, zip212, parsed[j]@) is None,
            forall|j: int|
                0 <= j < raw.len() && (#[trigger] raw[j]) is Some ==> (raw[j]->0).1 < ivks.len()
                    && sapling_compact_note(ivks[(raw[j]->0).1 as int]@, zip212, parsed[j]@) == Some(
                    (raw[j]->0).0,
                ),
            forall|n: int|
                0 <= n < m ==> #[trigger] results[n] == sapling_compact_found(
                    keys.sapling@,
                    zip212, outputs[n],
                ),
        decreases placed.len() - m,
    {
        let result = match placed[m] {
            Some((note, key_index)) => Some(
                DecryptResult { note, recipient: note.recipient, memo: None, key_index },
            ),
            None => None,
        };
        proof {
            let n = m as int;
            if sapling_compact_parts(outputs[n]) is Some {
                let j = choose|j: int| 0 <= j < indices.len() && indices[j] == n;
                let trials = sapling_compact_trials(keys.sapling@, zip212, parsed[j]@);
                assert forall|k: int| 0 <= k < trials.len() implies trials[k] == sapling_compact_note(
                    ivks[k]@,
                    zip212, parsed[j]@,
                ) by {}
                if raw[j] is Some {
                    lemma_first_some(trials, (raw[j]->0).1 as int);
                } else {
                    lemma_first_none(trials);
                }
            } else {
                assert forall|j: int| 0 <= j < indices.len() implies indices[j] != n by {}
            }
        }
        results.push(result);
        m = m + 1;
    }
    results
}

/// What each of the keys finds in a compact Orchard action.
pub open spec fn orchard_compact_trials(
    keys: Seq<OrchardScanningKey>,
    parts: ActionParts,
) -> Seq<Option<OrchardNote>> {
    Seq::new(keys.len(), |k: int| orchard_compact_note(keys[k].ivk@, parts))
}

/// What decryption of a compact Orchard action gives: the note that the first
/// matching key finds, or nothing where no key matches or the action is malformed.
pub open spec fn orchard_compact_found(
    keys: Seq<OrchardScanningKey>,
    action: CompactOrchardAction,
) -> OrchardResult {
    match orchard_compact_parts(action) {
        Some(parts) => orchard_result(first_some(orchard_compact_trials(keys, parts))),
        None => None,
    }
}

/// Trial-decrypts compact Orchard actions: one slot per action, in order.
pub fn decrypt_compact_orchard(
    actions: &[CompactOrchardAction],
    keys: &ScanningKeys,
) -> (results: Vec<OrchardResult>)
    ensures
        results.len() == actions.len(),
        forall|i: int|
            0 <= i < results.len() ==> #[trigger] results[i] == orchard_compact_found(
                keys.orchard@,
                actions[i],
            ),
{
    let ivks = orchard_ivks(keys);
    let mut parsed: Vec<OrchardCompactAction> = Vec::new();
    let mut indices: Vec<usize> = Vec::new();
    let mut i: usize = 0;
    while i < actions.len()
        invariant
            0 <= i <= actions.len(),
            parsed.len() == indices.len(),
            forall|j: int| 0 <= j < indices.len() ==> (#[trigger] indices[j]) < i,
            forall|j: int, k: int| 0 <= j < k < indices.len() ==> indices[j] < indices[k],
            forall|j: int|
                0 <= j < indices.len() ==> orchard_compact_parts(actions[(#[trigger] indices[j]) as int])
                    == Some(parsed[j]@),
            forall|m: int|
                0 <= m < i && orchard_compact_parts(#[trigger] actions[m]) is Some ==> exists|j: int|
                    0 <= j < indices.len() && indices[j] == m,
        decreases actions.len() - i,
    {
        let ghost before = indices@;
        if let Some(p) = parse_compact_orchard(&actions[i]) {
            parsed.push(p);
            indices.push(i);
            assert(indices[before.len() as int] == i);
        }
        assert forall|m: int|
            0 <= m < i + 1 && orchard_compact_parts(#[trigger] actions[m]) is Some implies exists|j: int|
            0 <= j < indices.len() && indices[j] == m by {
            if m < i {
                let j = choose|j: int| 0 <= j < before.len() && before[j] == m;
                assert(indices[j] == m);
            }
        }
        i = i + 1;
    }
    let raw = orchard_compact_batch(&ivks, &parsed);
    let placed = scatter(actions.len(), &indices, &raw);
    let mut results: Vec<OrchardResult> = Vec::new();
    let mut m: usize = 0;
    while m < placed.len()
        invariant
            0 <= m <= placed.len(),
            placed.len() == actions.len(),
            results.len() == m,
            raw.len() == indices.len(),
            raw.len() == parsed.len(),
            ivks.len() == keys.orchard.len(),
            forall|k: int| 0 <= k < ivks.len() ==> (#[trigger] ivks[k])@ == keys.orchard[k].ivk@,
            forall|j: int|
                0 <= j < indices.len() ==> orchard_compact_parts(actions[(#[trigger] indices[j]) as int])
                    == Some(parsed[j]@),
            forall|n: int|
                0 <= n < actions.len() && orchard_compact_parts(#[trigger] actions[n]) is Some ==> exists|
                    j: int,
                |
                    0 <= j < indices.len() && indices[j] == n,
            forall|j: int| 0 <= j < indices.len() ==> placed[(#[trigger] indices[j]) as int] == raw[j],
            forall|n: int|
                0 <= n < placed.len() && (forall|j: int| 0 <= j < indices.len() ==> indices[j] != n) ==> (
                #[trigger] placed[n]) is None,
            forall|j: int, k: int|
                0 <= j < raw.len() && 0 <= k < ivks.len() && (raw[j] is Some ==> k < (raw[j]->0).1)
                    ==> #[trigger] orchard_compact_note(ivks[k]@, parsed[j]@) is None,
            forall|j: int|
                0 <= j < raw.len() && (#[trigger] raw[j]) is Some ==> (raw[j]->0).1 < ivks.len()
                    && orchard_compact_note(ivks[(raw[j]->0).1 as int]@, parsed[j]@) == Some(
                    (raw[j]->0).0,
                ),
            forall|n: int|
                0 <= n < m ==> #[trigger] results[n] == orchard_compact_found(
                    keys.orchard@,
                    actions[n],
                ),
        decreases placed.len() - m,
    {
        let result = match placed[m] {
            Some((note, key_index)) => Some(
                DecryptResult { note, recipient: note.recipient, memo: None, key_index },
            ),
            None => None,
        };
        proof {
            let n = m as int;
            if orchard_compact_parts(actions[n]) is Some {
                let j = choose|j: int| 0 <= j < indices.len() && indices[j] == n;
                let trials = orchard_compact_trials(keys.orchard@, parsed[j]@);
                assert forall|k: int| 0 <= k < trials.len() implies trials[k] == orchard_compact_note(
                    ivks[k]@,
                    parsed[j]@,
                ) by {}
                if raw[j] is Some {
                    lemma_first_some(trials, (raw[j]->0).1 as int);
                } else {
                    lemma_first_none(trials);
                }
            } else {
                assert forall|j: int| 0 <= j < indices.len() implies indices[j] != n by {}
            }
        }
        results.push(result);
        m = m + 1;
    }
    results
}

/// What each of the keys finds in a compact Ironwood action.
pub open spec fn ironwood_compact_trials(
    keys: Seq<OrchardScanningKey>,
    parts: ActionParts,
) -> Seq<Option<OrchardNote>> {
    Seq::new(keys.len(), |k: int| ironwood_compact_note(keys[k].ivk@, parts))
}

/// What decryption of a compact Ironwood action gives: the note that the first
/// matching key finds, or nothing where no key matches or the action is malformed.
pub open spec fn ironwood_compact_found(
    keys: Seq<OrchardScanningKey>,
    action: CompactOrchardAction,
) -> OrchardResult {
    match orchard_compact_parts(action) {
        Some(parts) => orchard_result(first_some(ironwood_compact_trials(keys, parts))),
        None => None,
    }
}

/// Trial-decrypts compact Ironwood actions: one slot per action, in order.
pub fn decrypt_compact_ironwood(
    actions: &[CompactOrchardAction],
    keys: &ScanningKeys,
) -> (results: Vec<OrchardResult>)
    ensures
        results.len() == actions.len(),
        forall|i: int|
            0 <= i < results.len() ==> #[trigger] results[i] == ironwood_compact_found(
                keys.orchard@,
                actions[i],
            ),
{
    let ivks = orchard_ivks(keys);
    let mut parsed: Vec<OrchardCompactAction> = Vec::new();
    let mut indices: Vec<usize> = Vec::new();
    let mut i: usize = 0;
    while i < actions.len()
        invariant
            0 <= i <= actions.len(),
            parsed.len() == indices.len(),
            forall|j: int| 0 <= j < indices.len() ==> (#[trigger] indices[j]) < i,
            forall|j: int, k: int| 0 <= j < k < indices.len() ==> indices[j] < indices[k],
            forall|j: int|
                0 <= j < indices.len() ==> orchard_compact_parts(actions[(#[trigger] indices[j]) as int])
                    == Some(parsed[j]@),
            forall|m: int|
                0 <= m < i && orchard_compact_parts(#[trigger] actions[m]) is Some ==> exists|j: int|
                    0 <= j < indices.len() && indices[j] == m,
        decreases actions.len() - i,
    {
        let ghost before = indices@;
        if let Some(p) = parse_compact_orchard(&actions[i]) {
            parsed.push(p);
            indices.push(i);
            assert(indices[before.len() as int] == i);
        }
        assert forall|m: int|
            0 <= m < i + 1 && orchard_compact_parts(#[trigger] actions[m]) is Some implies exists|j: int|
            0 <= j < indices.len() && indices[j] == m by {
            if m < i {
                let j = choose|j: int| 0 <= j < before.len() && before[j] == m;
                assert(indices[j] == m);
            }
        }
        i = i + 1;
    }
    let raw = ironwood_compact_batch(&ivks, &parsed);
    let placed = scatter(actions.len(), &indices, &raw);
    let mut results: Vec<OrchardResult> = Vec::new();
    let mut m: usize = 0;
    while m < placed.len()
        invariant
            0 <= m <= placed.len(),
            placed.len() == actions.len(),
            results.len() == m,
            raw.len() == indices.len(),
            raw.len() == parsed.len(),
            ivks.len() == keys.orchard.len(),
            forall|k: int| 0 <= k < ivks.len() ==> (#[trigger] ivks[k])@ == keys.orchard[k].ivk@,
            forall|j: int|
                0 <= j < indices.len() ==> orchard_compact_parts(actions[(#[trigger] indices[j]) as int])
                    == Some(parsed[j]@),
            forall|n: int|
                0 <= n < actions.len() && orchard_compact_parts(#[trigger] actions[n]) is Some ==> exists|
                    j: int,
                |
                    0 <= j < indices.len() && indices[j] == n,
            forall|j: int| 0 <= j < indices.len() ==> placed[(#[trigger] indices[j]) as int] == raw[j],
            forall|n: int|
                0 <= n < placed.len() && (forall|j: int| 0 <= j < indices.len() ==> indices[j] != n) ==> (
                #[trigger] placed[n]) is None,
            forall|j: int, k: int|
                0 <= j < raw.len() && 0 <= k < ivks.len() && (raw[j] is Some ==> k < (raw[j]->0).1)
                    ==> #[trigger] ironwood_compact_note(ivks[k]@, parsed[j]@) is None,
            forall|j: int|
                0 <= j < raw.len() && (#[trigger] raw[j]) is Some ==> (raw[j]->0).1 < ivks.len()
                    && ironwood_compact_note(ivks[(raw[j]->0).1 as int]@, parsed[j]@) == Some(
                    (raw[j]->0).0,
                ),
            forall|n: int|
                0 <= n < m ==> #[trigger] results[n] == ironwood_compact_found(
                    keys.orchard@,
                    actions[n],
                ),
        decreases placed.len() - m,
    {
        let result = match placed[m] {
            Some((note, key_index)) => Some(
                DecryptResult { note, recipient: note.recipient, memo: None, key_index },
            ),
            None => None,
        };
        proof {
            let n = m as int;
            if orchard_compact_parts(actions[n]) is Some {
                let j = choose|j: int| 0 <= j < indices.len() && indices[j] == n;
                let trials = ironwood_compact_trials(keys.orchard@, parsed[j]@);
                assert forall|k: int| 0 <= k < trials.len() implies trials[k] == ironwood_compact_note(
                    ivks[k]@,
                    parsed[j]@,
                ) by {}
                if raw[j] is Some {
                    lemma_first_some(trials, (raw[j]->0).1 as int);
                } else {
                    lemma_first_none(trials);
                }
            } else {
                assert forall|j: int| 0 <= j < indices.len() implies indices[j] != n by {}
            }
        }
        results.push(result);
        m = m + 1;
    }
    results
}

/// What each of the keys finds in a full Sapling output.
pub open spec fn sapling_full_trials(
    keys: Seq<SaplingScanningKey>,
    zip212: Zip212Enforcement,
    parts: FullParts,
) -> Seq<Option<(SaplingNote, [u8; 512])>> {
    Seq::new(keys.len(), |k: int| sapling_full_note(keys[k].ivk@, zip212, parts))
}

/// What decryption of a full Sapling output gives: the note and memo that the first
/// matching key finds.
pub open spec fn sapling_full_found(
    keys: Seq<SaplingScanningKey>,
    zip212: Zip212Enforcement,
    parts: FullParts,
) -> SaplingResult {
    sapling_memo_result(first_some(sapling_full_trials(keys, zip212, parts)))
}

/// Trial-decrypts full Sapling outputs: one slot per output, in order.
pub fn decrypt_full_sapling(
    outputs: &[SaplingFullOutput],
    keys: &ScanningKeys,
    zip212: Zip212Enforcement,
) -> (results: Vec<SaplingResult>)
    ensures
        results.len() == outputs.len(),
        forall|i: int|
            0 <= i < results.len() ==> #[trigger] results[i] == sapling_full_found(
                keys.sapling@,
                zip212,
                outputs[i]@,
            ),
{
    let ivks = sapling_ivks(keys);
    let mut listed: Vec<&SaplingFullOutput> = Vec::new();
    let mut i: usize = 0;
    while i < outputs.len()
        invariant
            0 <= i <= outputs.len(),
            listed.len() == i,
            forall|j: int| 0 <= j < i ==> (#[trigger] listed[j])@ == outputs[j]@,
        decreases outputs.len() - i,
    {
        listed.push(&outputs[i]);
        i = i + 1;
    }
    let raw = sapling_full_batch(&ivks, zip212, &listed);
    assert forall|j: int, k: int|
        0 <= j < raw.len() && 0 <= k < ivks.len() && (raw[j] is Some ==> k < (raw[j]->0).1)
        implies #[trigger] sapling_full_note(ivks[k]@, zip212, outputs[j]@) is None by {
        assert(sapling_full_note(ivks[k]@, zip212, listed[j]@) is None);
    }
    let mut results: Vec<SaplingResult> = Vec::new();
    let mut m: usize = 0;
    while m < raw.len()
        invariant
            0 <= m <= raw.len(),
            raw.len() == outputs.len(),
            results.len() == m,
            ivks.len() == keys.sapling.len(),
            forall|k: int| 0 <= k < ivks.len() ==> (#[trigger] ivks[k])@ == keys.sapling[k].ivk@,
            forall|j: int, k: int|
                0 <= j < raw.len() && 0 <= k < ivks.len() && (raw[j] is Some ==> k < (raw[j]->0).1)
                    ==> #[trigger] sapling_full_note(ivks[k]@, zip212, outputs[j]@) is None,
            forall|j: int|
                0 <= j < raw.len() && (#[trigger] raw[j]) is Some ==> (raw[j]->0).1 < ivks.len()
                    && sapling_full_note(ivks[(raw[j]->0).1 as int]@, zip212, outputs[j]@) == Some(
                    (raw[j]->0).0,
                ),
            forall|n: int|
                0 <= n < m ==> #[trigger] results[n] == sapling_full_found(
                    keys.sapling@,
                    zip212,
                    outputs[n]@,
                ),
        decreases raw.len() - m,
    {
        let result = match raw[m] {
            Some(((note, memo), key_index)) => Some(
                DecryptResult { note, recipient: note.recipient, memo: Some(memo), key_index },
            ),
            None => None,
        };
        proof {
            let j = m as int;
            let trials = sapling_full_trials(keys.sapling@, zip212, outputs[j]@);
            assert forall|k: int| 0 <= k < trials.len() implies trials[k] == sapling_full_note(
                ivks[k]@,
                zip212,
                outputs[j]@,
            ) by {}
            if raw[j] is Some {
                lemma_first_some(trials, (raw[j]->0).1 as int);
            } else {
                lemma_first_none(trials);
            }
        }
        results.push(result);
        m = m + 1;
    }
    results
}

/// What each of the keys finds in a full Orchard action.
pub open spec fn orchard_full_trials(keys: Seq<OrchardScanningKey>, parts: FullActionParts) -> Seq<
    Option<(OrchardNote, [u8; 512])>,
> {
    Seq::new(keys.len(), |k: int| orchard_full_note(keys[k].ivk@, parts))
}

/// What decryption of a full Orchard action gives: the note and memo that the first
/// matching key finds.
pub open spec fn orchard_full_found(keys: Seq<OrchardScanningKey>, parts: FullActionParts) -> OrchardResult {
    orchard_memo_result(first_some(orchard_full_trials(keys, parts)))
}

/// Tries the keys in turn on one Orchard action.
fn try_full_orchard(action: &OrchardFullAction, keys: &ScanningKeys) -> (result: OrchardResult)
    ensures
        result == orchard_full_found(keys.orchard@, action@),
{
    let ghost trials = orchard_full_trials(keys.orchard@, action@);
    let mut key_index: usize = 0;
    while key_index < keys.orchard.len()
        invariant
            0 <= key_index <= keys.orchard.len(),
            trials == orchard_full_trials(keys.orchard@, action@),
            forall|k: int| 0 <= k < key_index ==> trials[k] is None,
        decreases keys.orchard.len() - key_index,
    {
        if let Some((note, memo)) = orchard_full(&keys.orchard[key_index].ivk, action) {
            proof {
                lemma_first_some(trials, key_index as int);
            }
            return Some(
                DecryptResult { note, recipient: note.recipient, memo: Some(memo), key_index },
            );
        }
        key_index = key_index + 1;
    }
    proof {
        lemma_first_none(trials);
    }
    None
}

/// Trial-decrypts full Orchard actions: one slot per action, in order.
pub fn decrypt_full_orchard(actions: &[OrchardFullAction], keys: &ScanningKeys) -> (results: Vec<OrchardResult>)
    ensures
        results.len() == actions.len(),
        forall|i: int|
            0 <= i < results.len() ==> #[trigger] results[i] == orchard_full_found(
                keys.orchard@,
                actions[i]@,
            ),
{
    let mut results: Vec<OrchardResult> = Vec::new();
    let mut i: usize = 0;
    while i < actions.len()
        invariant
            0 <= i <= actions.len(),
            results.len() == i,
            forall|j: int|
                0 <= j < i ==> #[trigger] results[j] == orchard_full_found(keys.orchard@, actions[j]@),
        decreases actions.len() - i,
    {
        results.push(try_full_orchard(&actions[i], keys));
        i = i + 1;
    }
    results
}

/// What each of the keys finds in a full Ironwood action.
pub open spec fn ironwood_full_trials(keys: Seq<OrchardScanningKey>, parts: FullActionParts) -> Seq<
    Option<(OrchardNote, [u8; 512])>,
> {
    Seq::new(keys.len(), |k: int| ironwood_full_note(keys[k].ivk@, parts))
}

/// What decryption of a full Ironwood action gives: the note and memo that the first
/// matching key finds.
pub open spec fn ironwood_full_found(keys: Seq<OrchardScanningKey>, parts: FullActionParts) -> OrchardResult {
    orchard_memo_result(first_some(ironwood_full_trials(keys, parts)))
}

/// Tries the keys in turn on one Ironwood action.
fn try_full_ironwood(action: &OrchardFullAction, keys: &ScanningKeys) -> (result: OrchardResult)
    ensures
        result == ironwood_full_found(keys.orchard@, action@),
{
    let ghost trials = ironwood_full_trials(keys.orchard@, action@);
    let mut key_index: usize = 0;
    while key_index < keys.orchard.len()
        invariant
            0 <= key_index <= keys.orchard.len(),
            trials == ironwood_full_trials(keys.orchard@, action@),
            forall|k: int| 0 <= k < key_index ==> trials[k] is None,
        decreases keys.orchard.len() - key_index,
    {
        if let Some((note, memo)) = ironwood_full(&keys.orchard[key_index].ivk, action) {
            proof {
                lemma_first_some(trials, key_index as int);
            }
            return Some(
                DecryptResult { note, recipient: note.recipient, memo: Some(memo), key_index },
            );
        }
        key_index = key_index + 1;
    }
    proof {
        lemma_first_none(trials);
    }
    None
}

/// Trial-decrypts full Ironwood actions: one slot per action, in order.
pub fn decrypt_full_ironwood(actions: &[OrchardFullAction], keys: &ScanningKeys) -> (results: Vec<OrchardResult>)
    ensures
        results.len() == actions.len(),
        forall|i: int|
            0 <= i < results.len() ==> #[trigger] results[i] == ironwood_full_found(
                keys.orchard@,
                actions[i]@,
            ),
{
    let mut results: Vec<OrchardResult> = Vec::new();
    let mut i: usize = 0;
    while i < actions.len()
        invariant
            0 <= i <= actions.len(),
            results.len() == i,
            forall|j: int|
                0 <= j < i ==> #[trigger] results[j] == ironwood_full_found(keys.orchard@, actions[j]@),
        decreases actions.len() - i,
    {
        results.push(try_full_ironwood(&actions[i], keys));
        i = i + 1;
    }
    results
}

/// The outgoing viewing keys for Sapling, in order.
pub open spec fn sapling_ovks_of(keys: Seq<SaplingScanningKey>) -> Seq<[u8; 32]> {
    collect_some(Seq::new(keys.len(), |k: int| keys[k].ovk))
}

/// The outgoing viewing keys for Sapling, in order.
fn sapling_ovks(keys: &ScanningKeys) -> (ovks: Vec<[u8; 32]>)
    ensures
        ovks@ == sapling_ovks_of(keys.sapling@),
{
    let ghost all = Seq::new(keys.sapling@.len(), |k: int| keys.sapling[k].ovk);
    let mut ovks: Vec<[u8; 32]> = Vec::new();
    let mut k: usize = 0;
    while k < keys.sapling.len()
        invariant
            0 <= k <= keys.sapling.len(),
            all == Seq::new(keys.sapling@.len(), |j: int| keys.sapling[j].ovk),
            ovks@ == collect_some(all.take(k as int)),
        decreases keys.sapling.len() - k,
    {
        proof {
            lemma_collect_push(all.take(k as int), all[k as int]);
            assert(all.take(k as int + 1) =~= all.take(k as int).push(all[k as int]));
        }
        if let Some(ovk) = keys.sapling[k].ovk {
            ovks.push(ovk);
        }
        k = k + 1;
    }
    proof {
        assert(all.take(k as int) =~= all);
        assert(all =~= Seq::new(keys.sapling@.len(), |j: int| keys.sapling@[j].ovk));
    }
    ovks
}

/// The outgoing viewing keys for Orchard and Ironwood, in order.
pub open spec fn orchard_ovks_of(keys: Seq<OrchardScanningKey>) -> Seq<[u8; 32]> {
    collect_some(Seq::new(keys.len(), |k: int| keys[k].ovk))
}

/// The outgoing viewing keys for Orchard and Ironwood, in order.
fn orchard_ovks(keys: &ScanningKeys) -> (ovks: Vec<[u8; 32]>)
    ensures
        ovks@ == orchard_ovks_of(keys.orchard@),
{
    let ghost all = Seq::new(keys.orchard@.len(), |k: int| keys.orchard[k].ovk);
    let mut ovks: Vec<[u8; 32]> = Vec::new();
    let mut k: usize = 0;
    while k < keys.orchard.len()
        invariant
            0 <= k <= keys.orchard.len(),
            all == Seq::new(keys.orchard@.len(), |j: int| keys.orchard[j].ovk),
            ovks@ == collect_some(all.take(k as int)),
        decreases keys.orchard.len() - k,
    {
        proof {
            lemma_collect_push(all.take(k as int), all[k as int]);
            assert(all.take(k as int + 1) =~= all.take(k as int).push(all[k as int]));
        }
        if let Some(ovk) = keys.orchard[k].ovk {
            ovks.push(ovk);
        }
        k = k + 1;
    }
    proof {
        assert(all.take(k as int) =~= all);
        assert(all =~= Seq::new(keys.orchard@.len(), |j: int| keys.orchard@[j].ovk));
    }
    ovks
}

/// What each of the outgoing viewing keys recovers from a full Sapling output.
pub open spec fn sapling_sent_trials(
    ovks: Seq<[u8; 32]>,
    zip212: Zip212Enforcement,
    parts: FullParts,
) -> Seq<Option<(SaplingNote, [u8; 512])>> {
    Seq::new(ovks.len(), |k: int| sapling_sent_note(ovks[k]@, zip212, parts))
}

/// What recovery of a full Sapling output gives: the note and memo that the first
/// matching outgoing viewing key recovers, with that key's index among the outgoing
/// viewing keys.
pub open spec fn sapling_sent_found(
    keys: Seq<SaplingScanningKey>,
    zip212: Zip212Enforcement,
    parts: FullParts,
) -> SaplingResult {
    sapling_memo_result(first_some(sapling_sent_trials(sapling_ovks_of(keys), zip212, parts)))
}

/// Tries outgoing viewing keys in turn on one Sapling output.
fn try_recover_sapling(
    output: &SaplingFullOutput,
    ovks: &Vec<[u8; 32]>,
    zip212: Zip212Enforcement,
) -> (result: SaplingResult)
    ensures
        result == sapling_memo_result(first_some(sapling_sent_trials(ovks@, zip212, output@))),
{
    let ghost trials = sapling_sent_trials(ovks@, zip212, output@);
    let mut key_index: usize = 0;
    while key_index < ovks.len()
        invariant
            0 <= key_index <= ovks.len(),
            trials == sapling_sent_trials(ovks@, zip212, output@),
            forall|k: int| 0 <= k < key_index ==> trials[k] is None,
        decreases ovks.len() - key_index,
    {
        if let Some((note, memo)) = sapling_recover(&ovks[key_index], zip212, output) {
            proof {
                lemma_first_some(trials, key_index as int);
            }
            return Some(
                DecryptResult { note, recipient: note.recipient, memo: Some(memo), key_index },
            );
        }
        key_index = key_index + 1;
    }
    proof {
        lemma_first_none(trials);
    }
    None
}

/// Recovers what was sent in full Sapling outputs: one slot per output, in order.
pub fn recover_outgoing_sapling(
    outputs: &[SaplingFullOutput],
    keys: &ScanningKeys,
    zip212: Zip212Enforcement,
) -> (results: Vec<SaplingResult>)
    ensures
        results.len() == outputs.len(),
        forall|i: int|
            0 <= i < results.len() ==> #[trigger] results[i] == sapling_sent_found(
                keys.sapling@,
                zip212, outputs[i]@,
            ),
{
    let ovks = sapling_ovks(keys);
    let mut results: Vec<SaplingResult> = Vec::new();
    let mut i: usize = 0;
    while i < outputs.len()
        invariant
            0 <= i <= outputs.len(),
            results.len() == i,
            ovks@ == sapling_ovks_of(keys.sapling@),
            forall|j: int|
                0 <= j < i ==> #[trigger] results[j] == sapling_sent_found(
                    keys.sapling@,
                    zip212, outputs[j]@,
                ),
        decreases outputs.len() - i,
    {
        let result = try_recover_sapling(&outputs[i], &ovks, zip212);
        results.push(result);
        i = i + 1;
    }
    results
}

/// What each of the outgoing viewing keys recovers from a full Orchard action.
pub open spec fn orchard_sent_trials(
    ovks: Seq<[u8; 32]>,
    parts: FullActionParts,
) -> Seq<Option<(OrchardNote, [u8; 512])>> {
    Seq::new(ovks.len(), |k: int| orchard_sent_note(ovks[k]@, parts))
}

/// What recovery of a full Orchard action gives: the note and memo that the first
/// matching outgoing viewing key recovers, with that key's index among the outgoing
/// viewing keys.
pub open spec fn orchard_sent_found(
    keys: Seq<OrchardScanningKey>,
    parts: FullActionParts,
) -> OrchardResult {
    orchard_memo_result(first_some(orchard_sent_trials(orchard_ovks_of(keys), parts)))
}

/// Tries outgoing viewing keys in turn on one Orchard action.
fn try_recover_orchard(
    action: &OrchardFullAction,
    ovks: &Vec<[u8; 32]>,
) -> (result: OrchardResult)
    ensures
        result == orchard_memo_result(first_some(orchard_sent_trials(ovks@, action@))),
{
    let ghost trials = orchard_sent_trials(ovks@, action@);
    let mut key_index: usize = 0;
    while key_index < ovks.len()
        invariant
            0 <= key_index <= ovks.len(),
            trials == orchard_sent_trials(ovks@, action@),
            forall|k: int| 0 <= k < key_index ==> trials[k] is None,
        decreases ovks.len() - key_index,
    {
        if let Some((note, memo)) = orchard_recover(&ovks[key_index], action) {
            proof {
                lemma_first_some(trials, key_index as int);
            }
            return Some(
                DecryptResult { note, recipient: note.recipient, memo: Some(memo), key_index },
            );
        }
        key_index = key_index + 1;
    }
    proof {
        lemma_first_none(trials);
    }
    None
}

/// Recovers what was sent in full Orchard actions: one slot per action, in order.
pub fn recover_outgoing_orchard(
    actions: &[OrchardFullAction],
    keys: &ScanningKeys,
) -> (results: Vec<OrchardResult>)
    ensures
        results.len() == actions.len(),
        forall|i: int|
            0 <= i < results.len() ==> #[trigger] results[i] == orchard_sent_found(
                keys.orchard@,
                actions[i]@,
            ),
{
    let ovks = orchard_ovks(keys);
    let mut results: Vec<OrchardResult> = Vec::new();
    let mut i: usize = 0;
    while i < actions.len()
        invariant
            0 <= i <= actions.len(),
            results.len() == i,
            ovks@ == orchard_ovks_of(keys.orchard@),
            forall|j: int|
                0 <= j < i ==> #[trigger] results[j] == orchard_sent_found(
                    keys.orchard@,
                    actions[j]@,
                ),
        decreases actions.len() - i,
    {
        let result = try_recover_orchard(&actions[i], &ovks);
        results.push(result);
        i = i + 1;
    }
    results
}

/// What each of the outgoing viewing keys recovers from a full Ironwood action.
pub open spec fn ironwood_sent_trials(
    ovks: Seq<[u8; 32]>,
    parts: FullActionParts,
) -> Seq<Option<(OrchardNote, [u8; 512])>> {
    Seq::new(ovks.len(), |k: int| ironwood_sent_note(ovks[k]@, parts))
}

/// What recovery of a full Ironwood action gives: the note and memo that the first
/// matching outgoing viewing key recovers, with that key's index among the outgoing
/// viewing keys.
pub open spec fn ironwood_sent_found(
    keys: Seq<OrchardScanningKey>,
    parts: FullActionParts,
) -> OrchardResult {
    orchard_memo_result(first_some(ironwood_sent_trials(orchard_ovks_of(keys), parts)))
}

/// Tries outgoing viewing keys in turn on one Ironwood action.
fn try_recover_ironwood(
    action: &OrchardFullAction,
    ovks: &Vec<[u8; 32]>,
) -> (result: OrchardResult)
    ensures
        result == orchard_memo_result(first_some(ironwood_sent_trials(ovks@, action@))),
{
    let ghost trials = ironwood_sent_trials(ovks@, action@);
    let mut key_index: usize = 0;
    while key_index < ovks.len()
        invariant
            0 <= key_index <= ovks.len(),
            trials == ironwood_sent_trials(ovks@, action@),
            forall|k: int| 0 <= k < key_index ==> trials[k] is None,
        decreases ovks.len() - key_index,
    {
        if let Some((note, memo)) = ironwood_recover(&ovks[key_index], action) {
            proof {
                lemma_first_some(trials, key_index as int);
            }
            return Some(
                DecryptResult { note, recipient: note.recipient, memo: Some(memo), key_index },
            );
        }
        key_index = key_index + 1;
    }
    proof {
        lemma_first_none(trials);
    }
    None
}

/// Recovers what was sent in full Ironwood actions: one slot per action, in order.
pub fn recover_outgoing_ironwood(
    actions: &[OrchardFullAction],
    keys: &ScanningKeys,
) -> (results: Vec<OrchardResult>)
    ensures
        results.len() == actions.len(),
        forall|i: int|
            0 <= i < results.len() ==> #[trigger] results[i] == ironwood_sent_found(
                keys.orchard@,
                actions[i]@,
            ),
{
    let ovks = orchard_ovks(keys);
    let mut results: Vec<OrchardResult> = Vec::new();
    let mut i: usize = 0;
    while i < actions.len()
        invariant
            0 <= i <= actions.len(),
            results.len() == i,
            ovks@ == orchard_ovks_of(keys.orchard@),
            forall|j: int|
                0 <= j < i ==> #[trigger] results[j] == ironwood_sent_found(
                    keys.orchard@,
                    actions[j]@,
                ),
        decreases actions.len() - i,
    {
        let result = try_recover_ironwood(&actions[i], &ovks);
        results.push(result);
        i = i + 1;
    }
    results
}

/// A note that decryption of a compact Sapling output gives was found by the key of the given
/// index, and its recipient is the note's own.
pub proof fn lemma_sapling_compact_found(
    keys: Seq<SaplingScanningKey>,
    zip212: Zip212Enforcement,
    output: CompactSaplingOutput,
)
    requires
        keys.len() <= usize::MAX,
        sapling_compact_found(keys, zip212, output) is Some,
    ensures
        ({
            let r = sapling_compact_found(keys, zip212, output)->0;
            &&& r.key_index < keys.len()
            &&& sapling_compact_parts(output) is Some
            &&& sapling_compact_note(keys[r.key_index as int].ivk@, zip212, sapling_compact_parts(output)->0) == Some(r.note)
            &&& r.recipient == r.note.recipient
            &&& sapling_note_found(r.note)
        }),
{
    let parts = sapling_compact_parts(output)->0;
    let trials = sapling_compact_trials(keys, zip212, parts);
    lemma_first_some_found(trials);
    let (k, note) = first_some(trials)->0;
    assert(sapling_compact_note(keys[k].ivk@, zip212, parts) == Some(note));
}

/// A note that decryption of a compact Orchard action gives was found by the key of the given
/// index, and its recipient is the note's own.
pub proof fn lemma_orchard_compact_found(
    keys: Seq<OrchardScanningKey>,
    action: CompactOrchardAction,
)
    requires
        keys.len() <= usize::MAX,
        orchard_compact_found(keys, action) is Some,
    ensures
        ({
            let r = orchard_compact_found(keys, action)->0;
            &&& r.key_index < keys.len()
            &&& orchard_compact_parts(action) is Some
            &&& orchard_compact_note(keys[r.key_index as int].ivk@, orchard_compact_parts(action)->0) == Some(r.note)
            &&& r.recipient == r.note.recipient
            &&& orchard_note_found(r.note)
        }),
{
    let parts = orchard_compact_parts(action)->0;
    let trials = orchard_compact_trials(keys, parts);
    lemma_first_some_found(trials);
    let (k, note) = first_some(trials)->0;
    assert(orchard_compact_note(keys[k].ivk@, parts) == Some(note));
}

/// A note that decryption of a compact Ironwood action gives was found by the key of the given
/// index, and its recipient is the note's own.
pub proof fn lemma_ironwood_compact_found(
    keys: Seq<OrchardScanningKey>,
    action: CompactOrchardAction,
)
    requires
        keys.len() <= usize::MAX,
        ironwood_compact_found(keys, action) is Some,
    ensures
        ({
            let r = ironwood_compact_found(keys, action)->0;
            &&& r.key_index < keys.len()
            &&& orchard_compact_parts(action) is Some
            &&& ironwood_compact_note(keys[r.key_index as int].ivk@, orchard_compact_parts(action)->0) == Some(r.note)
            &&& r.recipient == r.note.recipient
            &&& orchard_note_found(r.note)
        }),
{
    let parts = orchard_compact_parts(action)->0;
    let trials = ironwood_compact_trials(keys, parts);
    lemma_first_some_found(trials);
    let (k, note) = first_some(trials)->0;
    assert(ironwood_compact_note(keys[k].ivk@, parts) == Some(note));
}

} // verus!
