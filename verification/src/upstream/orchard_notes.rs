//! Orchard and Ironwood: viewing keys, trial decryption, outgoing recovery and
//! nullifiers.

use orchard::keys::{FullViewingKey, OutgoingViewingKey, PreparedIncomingViewingKey};
use orchard::note::{ExtractedNoteCommitment, Nullifier, RandomSeed, Rho};
use orchard::note_encryption::{CompactAction, IronwoodDomain, OrchardDomain};
use orchard::value::NoteValue;
use orchard::{Action, Address, Note};
use vstd::prelude::*;
use zcash_note_encryption::{
    batch, try_note_decryption, try_output_recovery_with_ovk, EphemeralKeyBytes,
};

use super::fields::is_pallas_base;
use crate::primitives::NoteVersion::{V2, V3};
use crate::primitives::{ActionParts, FullActionParts, OrchardNote, Scope};

verus! {

#[verifier::external_type_specification]
#[verifier::external_body]
pub struct ExOrchardPreparedIncomingViewingKey(orchard::keys::PreparedIncomingViewingKey);

#[verifier::external_type_specification]
#[verifier::external_body]
pub struct ExOrchardFullViewingKey(orchard::keys::FullViewingKey);

#[verifier::external_type_specification]
#[verifier::external_body]
pub struct ExCompactAction(orchard::note_encryption::CompactAction);

#[verifier::external_type_specification]
#[verifier::external_body]
#[verifier::reject_recursive_types(A)]
pub struct ExAction<A>(orchard::Action<A>);

/// An Orchard full viewing key.
#[derive(Debug)]
pub struct OrchardFvk {
    pub(crate) bytes: [u8; 96],
    pub(crate) inner: FullViewingKey,
}

impl OrchardFvk {
    /// The raw encoding of the key.
    pub closed spec fn view(&self) -> Seq<u8> {
        self.bytes@
    }

    /// The same key again: a clone of the `FullViewingKey` with its encoding.
    #[verifier::external_body]
    pub(crate) fn duplicate(&self) -> (key: OrchardFvk)
        ensures
            key@ == self@,
    {
        OrchardFvk { bytes: self.bytes, inner: self.inner.clone() }
    }
}

/// An Orchard incoming viewing key, prepared for trial decryption.
#[derive(Debug)]
pub struct OrchardIvk {
    pub(crate) bytes: [u8; 64],
    pub(crate) inner: PreparedIncomingViewingKey,
}

impl OrchardIvk {
    /// The raw encoding of the key.
    pub closed spec fn view(&self) -> Seq<u8> {
        self.bytes@
    }

    /// The same key again: a clone of the `PreparedIncomingViewingKey` with its
    /// encoding.
    #[verifier::external_body]
    pub(crate) fn duplicate(&self) -> (key: OrchardIvk)
        ensures
            key@ == self@,
    {
        OrchardIvk { bytes: self.bytes, inner: self.inner.clone() }
    }
}

/// The incoming viewing key of a full viewing key, in one scope.
pub uninterp spec fn orchard_ivk_of(fvk: Seq<u8>, scope: Scope) -> Seq<u8>;

/// `FullViewingKey::to_ivk`, prepared: the incoming viewing key that belongs to `fvk`
/// in `scope`, a function of the two.
#[verifier::external_body]
pub(crate) fn orchard_to_ivk(fvk: &OrchardFvk, scope: Scope) -> (ivk: OrchardIvk)
    ensures
        ivk@ == orchard_ivk_of(fvk@, scope),
{
    let scopes = [zip32::Scope::External, zip32::Scope::Internal];
    let ivk = fvk.inner.to_ivk(scopes[scope as usize]);
    OrchardIvk { bytes: ivk.to_bytes(), inner: ivk.prepare() }
}

/// The outgoing viewing key of a full viewing key, in one scope.
pub uninterp spec fn orchard_ovk_of(fvk: Seq<u8>, scope: Scope) -> Seq<u8>;

/// `FullViewingKey::to_ovk`: the outgoing viewing key that belongs to `fvk` in
/// `scope`, a function of the two.
#[verifier::external_body]
pub(crate) fn orchard_to_ovk(fvk: &OrchardFvk, scope: Scope) -> (ovk: [u8; 32])
    ensures
        ovk@ == orchard_ovk_of(fvk@, scope),
{
    let scopes = [zip32::Scope::External, zip32::Scope::Internal];
    *fvk.inner.to_ovk(scopes[scope as usize]).as_ref()
}

/// Whether 32 bytes are the encoding of an Orchard nullifier.
pub open spec fn orchard_nullifier_valid(bytes: Seq<u8>) -> bool {
    is_pallas_base(bytes)
}

/// `Nullifier::from_bytes` of the Orchard crate: it accepts exactly the canonical encodings
/// of the elements of the Pallas base field. A nullifier is written back as the bytes that
/// it was read from.
#[verifier::external_body]
pub(crate) fn orchard_nullifier_parses(bytes: &[u8; 32]) -> (valid: bool)
    ensures
        valid == orchard_nullifier_valid(bytes@),
{
    Nullifier::from_bytes(bytes).is_some().into()
}

/// A compact Orchard or Ironwood action whose parts are well formed.
pub struct OrchardCompactAction {
    pub(crate) nullifier: [u8; 32],
    pub(crate) cmx: [u8; 32],
    pub(crate) ephemeral_key: [u8; 32],
    pub(crate) ciphertext: [u8; 52],
    pub(crate) inner: CompactAction,
}

impl OrchardCompactAction {
    /// The nullifier, the note commitment, the ephemeral key and the start of the
    /// ciphertext.
    pub closed spec fn view(&self) -> ActionParts {
        ActionParts {
            nullifier: self.nullifier@,
            cmx: self.cmx@,
            ephemeral_key: self.ephemeral_key@,
            ciphertext: self.ciphertext@,
        }
    }

    /// The nullifier of the note that the action spends.
    pub fn nullifier(&self) -> (nf: [u8; 32])
        ensures
            nf@ == self@.nullifier,
    {
        self.nullifier
    }
}

/// Whether 32 bytes are the encoding of an Orchard note commitment.
pub open spec fn orchard_cmx_valid(bytes: Seq<u8>) -> bool {
    is_pallas_base(bytes)
}

/// `ExtractedNoteCommitment::from_bytes` of the Orchard crate, and the compact action
/// made with its result: there is one exactly where the commitment is the canonical
/// encoding of an element of the Pallas base field, and it holds the four arguments.
#[verifier::external_body]
pub(crate) fn orchard_compact_action(
    nullifier: [u8; 32],
    cmx: [u8; 32],
    ephemeral_key: [u8; 32],
    ciphertext: [u8; 52],
) -> (action: Option<OrchardCompactAction>)
    requires
        orchard_nullifier_valid(nullifier@),
    ensures
        action is Some == orchard_cmx_valid(cmx@),
        action is Some ==> (action->0)@ == (ActionParts {
            nullifier: nullifier@,
            cmx: cmx@,
            ephemeral_key: ephemeral_key@,
            ciphertext: ciphertext@,
        }),
{
    let nf = Nullifier::from_bytes(&nullifier).unwrap();
    let commitment = ExtractedNoteCommitment::from_bytes(&cmx).into_option()?;
    let inner = CompactAction::from_parts(nf, commitment, EphemeralKeyBytes(ephemeral_key), ciphertext);
    Some(OrchardCompactAction { nullifier, cmx, ephemeral_key, ciphertext, inner })
}

/// Whether trial decryption of some compact action yields `note`.
pub open spec fn orchard_note_found(note: OrchardNote) -> bool {
    ||| exists|ivk: Seq<u8>, action: ActionParts|
        #[trigger] orchard_compact_note(ivk, action) == Some(note)
    ||| exists|ivk: Seq<u8>, action: ActionParts|
        #[trigger] ironwood_compact_note(ivk, action) == Some(note)
}

/// An Orchard or Ironwood action of a full transaction.
pub struct OrchardFullAction {
    pub(crate) nullifier: [u8; 32],
    pub(crate) cmx: [u8; 32],
    pub(crate) cv_net: [u8; 32],
    pub(crate) ephemeral_key: [u8; 32],
    pub(crate) enc_ciphertext: [u8; 580],
    pub(crate) out_ciphertext: [u8; 80],
    pub(crate) inner: Action<()>,
}

impl OrchardFullAction {
    /// The nullifier, the commitments, the ephemeral key and the two ciphertexts.
    pub closed spec fn view(&self) -> FullActionParts {
        FullActionParts {
            nullifier: self.nullifier@,
            cv_net: self.cv_net@,
            cmx: self.cmx@,
            ephemeral_key: self.ephemeral_key@,
            enc_ciphertext: self.enc_ciphertext@,
            out_ciphertext: self.out_ciphertext@,
        }
    }
}

/// The nullifier of an Orchard or Ironwood note.
pub uninterp spec fn orchard_nullifier_of(fvk: Seq<u8>, note: OrchardNote) -> [u8; 32];

/// `Note::nullifier`: the nullifier of `note`, a function of the full viewing key and
/// the note. It is written as the canonical encoding of a field element.
#[verifier::external_body]
pub(crate) fn orchard_nullifier(fvk: &OrchardFvk, note: &OrchardNote) -> (nf: [u8; 32])
    requires
        orchard_note_found(*note),
    ensures
        nf == orchard_nullifier_of(fvk@, *note),
        orchard_nullifier_valid(nf@),
{
    let to = Address::from_raw_address_bytes(&note.recipient).unwrap();
    let rho = Rho::from_bytes(&note.rho).unwrap();
    let seed = RandomSeed::from_bytes(note.rseed, &rho).unwrap();
    let version = match note.version {
        V2 => orchard::NoteVersion::V2,
        V3 => orchard::NoteVersion::V3,
    };
    let note = Note::from_parts(to, NoteValue::from_raw(note.value), rho, seed, version).unwrap();
    note.nullifier(&fvk.inner).to_bytes()
}

/// The commitment to a note, where its parts are a note.
pub uninterp spec fn orchard_commitment_of(note: OrchardNote) -> Option<[u8; 32]>;

/// `Note::from_parts`, then `Note::commitment` as an extracted commitment: a function of
/// the note's parts.
#[verifier::external_body]
pub(crate) fn orchard_commitment(note: &OrchardNote) -> (cmx: Option<[u8; 32]>)
    ensures
        cmx == orchard_commitment_of(*note),
{
    let to = Address::from_raw_address_bytes(&note.recipient).into_option()?;
    let rho = Rho::from_bytes(&note.rho).into_option()?;
    let seed = RandomSeed::from_bytes(note.rseed, &rho).into_option()?;
    let version = match note.version {
        V2 => orchard::NoteVersion::V2,
        V3 => orchard::NoteVersion::V3,
    };
    let note = Note::from_parts(to, NoteValue::from_raw(note.value), rho, seed, version).into_option()?;
    Some(ExtractedNoteCommitment::from(note.commitment()).to_bytes())
}

/// The note that an incoming viewing key finds in a compact action of the Orchard pool.
pub uninterp spec fn orchard_compact_note(ivk: Seq<u8>, action: ActionParts) -> Option<OrchardNote>;

/// `batch::try_compact_note_decryption` in the Orchard domain: one slot per action, in
/// order, with the note that the first matching key finds and that key's index, or
/// nothing where no key matches. The recipient handed back beside the note is the
/// note's own.
#[verifier::external_body]
pub(crate) fn orchard_compact_batch(ivks: &Vec<&OrchardIvk>, actions: &Vec<OrchardCompactAction>) -> (hits: Vec<
    Option<(OrchardNote, usize)>,
>)
    ensures
        hits.len() == actions.len(),
        forall|i: int, k: int|
            0 <= i < hits.len() && 0 <= k < ivks.len() && (hits[i] is Some ==> k < (hits[i]->0).1)
                ==> #[trigger] orchard_compact_note(ivks[k]@, actions[i]@) is None,
        forall|i: int|
            0 <= i < hits.len() && (#[trigger] hits[i]) is Some ==> (hits[i]->0).1 < ivks.len()
                && orchard_compact_note(ivks[(hits[i]->0).1 as int]@, actions[i]@) == Some((hits[i]->0).0),
{
    let keys = Vec::from_iter(ivks.iter().map(|k| k.inner.clone()));
    let pairs = Vec::from_iter(actions.iter().map(|a| (OrchardDomain::for_compact_action(&a.inner), a.inner.clone())));
    batch::try_compact_note_decryption(&keys, &pairs).into_iter().map(|hit| hit.map(|((n, _), k)| (OrchardNote {
        recipient: n.recipient().to_raw_address_bytes(),
        value: n.value().inner(),
        rho: n.rho().to_bytes(),
        rseed: *n.rseed().as_bytes(),
        version: match n.version() {
            orchard::NoteVersion::V2 => V2,
            orchard::NoteVersion::V3 => V3,
        },
    }, k))).collect()
}

/// The note and memo that an incoming viewing key finds in an action of the Orchard pool.
pub uninterp spec fn orchard_full_note(ivk: Seq<u8>, action: FullActionParts) -> Option<
    (OrchardNote, [u8; 512]),
>;

/// `try_note_decryption` in the Orchard domain: the note and memo that `ivk` finds, a
/// function of the key and the action. The recipient handed back beside the note is
/// the note's own.
#[verifier::external_body]
pub(crate) fn orchard_full(ivk: &OrchardIvk, action: &OrchardFullAction) -> (found: Option<(OrchardNote, [u8; 512])>)
    ensures
        found == orchard_full_note(ivk@, action@),
{
    let domain = OrchardDomain::for_action(&action.inner);
    let (n, _, memo) = try_note_decryption(&domain, &ivk.inner, &action.inner)?;
    Some((OrchardNote {
        recipient: n.recipient().to_raw_address_bytes(),
        value: n.value().inner(),
        rho: n.rho().to_bytes(),
        rseed: *n.rseed().as_bytes(),
        version: match n.version() {
            orchard::NoteVersion::V2 => V2,
            orchard::NoteVersion::V3 => V3,
        },
    }, memo))
}

/// The note and memo that an outgoing viewing key recovers from an action of the
/// Orchard pool.
pub uninterp spec fn orchard_sent_note(ovk: Seq<u8>, action: FullActionParts) -> Option<
    (OrchardNote, [u8; 512]),
>;

/// `try_output_recovery_with_ovk` in the Orchard domain: the note and memo that `ovk`
/// recovers, a function of the key and the action. The recipient handed back beside
/// the note is the note's own.
#[verifier::external_body]
pub(crate) fn orchard_recover(ovk: &[u8; 32], action: &OrchardFullAction) -> (sent: Option<(OrchardNote, [u8; 512])>)
    ensures
        sent == orchard_sent_note(ovk@, action@),
{
    let a = &action.inner;
    let (domain, key) = (OrchardDomain::for_action(a), OutgoingViewingKey::from(*ovk));
    let (n, _, memo) = try_output_recovery_with_ovk(&domain, &key, a, a.cv_net(), &a.encrypted_note().out_ciphertext)?;
    Some((OrchardNote {
        recipient: n.recipient().to_raw_address_bytes(),
        value: n.value().inner(),
        rho: n.rho().to_bytes(),
        rseed: *n.rseed().as_bytes(),
        version: match n.version() {
            orchard::NoteVersion::V2 => V2,
            orchard::NoteVersion::V3 => V3,
        },
    }, memo))
}

/// The note that an incoming viewing key finds in a compact action of the Ironwood pool.
pub uninterp spec fn ironwood_compact_note(ivk: Seq<u8>, action: ActionParts) -> Option<OrchardNote>;

/// `batch::try_compact_note_decryption` in the Ironwood domain: one slot per action, in
/// order, with the note that the first matching key finds and that key's index, or
/// nothing where no key matches. The recipient handed back beside the note is the
/// note's own.
#[verifier::external_body]
pub(crate) fn ironwood_compact_batch(ivks: &Vec<&OrchardIvk>, actions: &Vec<OrchardCompactAction>) -> (hits: Vec<
    Option<(OrchardNote, usize)>,
>)
    ensures
        hits.len() == actions.len(),
        forall|i: int, k: int|
            0 <= i < hits.len() && 0 <= k < ivks.len() && (hits[i] is Some ==> k < (hits[i]->0).1)
                ==> #[trigger] ironwood_compact_note(ivks[k]@, actions[i]@) is None,
        forall|i: int|
            0 <= i < hits.len() && (#[trigger] hits[i]) is Some ==> (hits[i]->0).1 < ivks.len()
                && ironwood_compact_note(ivks[(hits[i]->0).1 as int]@, actions[i]@) == Some((hits[i]->0).0),
{
    let keys = Vec::from_iter(ivks.iter().map(|k| k.inner.clone()));
    let pairs = Vec::from_iter(actions.iter().map(|a| (IronwoodDomain::for_compact_action(&a.inner), a.inner.clone())));
    batch::try_compact_note_decryption(&keys, &pairs).into_iter().map(|hit| hit.map(|((n, _), k)| (OrchardNote {
        recipient: n.recipient().to_raw_address_bytes(),
        value: n.value().inner(),
        rho: n.rho().to_bytes(),
        rseed: *n.rseed().as_bytes(),
        version: match n.version() {
            orchard::NoteVersion::V2 => V2,
            orchard::NoteVersion::V3 => V3,
        },
    }, k))).collect()
}

/// The note and memo that an incoming viewing key finds in an action of the Ironwood
/// pool.
pub uninterp spec fn ironwood_full_note(ivk: Seq<u8>, action: FullActionParts) -> Option<
    (OrchardNote, [u8; 512]),
>;

/// `try_note_decryption` in the Ironwood domain: the note and memo that `ivk` finds, a
/// function of the key and the action. The recipient handed back beside the note is
/// the note's own.
#[verifier::external_body]
pub(crate) fn ironwood_full(ivk: &OrchardIvk, action: &OrchardFullAction) -> (found: Option<(OrchardNote, [u8; 512])>)
    ensures
        found == ironwood_full_note(ivk@, action@),
{
    let domain = IronwoodDomain::for_action(&action.inner);
    let (n, _, memo) = try_note_decryption(&domain, &ivk.inner, &action.inner)?;
    Some((OrchardNote {
        recipient: n.recipient().to_raw_address_bytes(),
        value: n.value().inner(),
        rho: n.rho().to_bytes(),
        rseed: *n.rseed().as_bytes(),
        version: match n.version() {
            orchard::NoteVersion::V2 => V2,
            orchard::NoteVersion::V3 => V3,
        },
    }, memo))
}

/// The note and memo that an outgoing viewing key recovers from an action of the
/// Ironwood pool.
pub uninterp spec fn ironwood_sent_note(ovk: Seq<u8>, action: FullActionParts) -> Option<
    (OrchardNote, [u8; 512]),
>;

/// `try_output_recovery_with_ovk` in the Ironwood domain: the note and memo that `ovk`
/// recovers, a function of the key and the action. The recipient handed back beside
/// the note is the note's own.
#[verifier::external_body]
pub(crate) fn ironwood_recover(ovk: &[u8; 32], action: &OrchardFullAction) -> (sent: Option<(OrchardNote, [u8; 512])>)
    ensures
        sent == ironwood_sent_note(ovk@, action@),
{
    let a = &action.inner;
    let (domain, key) = (IronwoodDomain::for_action(a), OutgoingViewingKey::from(*ovk));
    let (n, _, memo) = try_output_recovery_with_ovk(&domain, &key, a, a.cv_net(), &a.encrypted_note().out_ciphertext)?;
    Some((OrchardNote {
        recipient: n.recipient().to_raw_address_bytes(),
        value: n.value().inner(),
        rho: n.rho().to_bytes(),
        rseed: *n.rseed().as_bytes(),
        version: match n.version() {
            orchard::NoteVersion::V2 => V2,
            orchard::NoteVersion::V3 => V3,
        },
    }, memo))
}

} // verus!
