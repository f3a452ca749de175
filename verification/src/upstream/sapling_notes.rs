//! Sapling: viewing keys, trial decryption, outgoing recovery and nullifiers.

use sapling_crypto::bundle::OutputDescription;
use sapling_crypto::keys::{OutgoingViewingKey, PreparedIncomingViewingKey};
use sapling_crypto::note::ExtractedNoteCommitment;
use sapling_crypto::note::Rseed::{AfterZip212, BeforeZip212};
use sapling_crypto::note_encryption::Zip212Enforcement::{GracePeriod, Off, On};
use sapling_crypto::note_encryption::{CompactOutputDescription, SaplingDomain};
use sapling_crypto::value::{NoteValue, ValueCommitTrapdoor};
use sapling_crypto::zip32::DiversifiableFullViewingKey;
use sapling_crypto::{Note, NullifierDerivingKey, PaymentAddress};
use vstd::prelude::*;
use zcash_note_encryption::{batch, try_output_recovery_with_ovk, EphemeralKeyBytes};

use super::fields::is_jubjub_base;
use crate::primitives::Rseed::{AfterZip212 as Seed, BeforeZip212 as Rcm};
use crate::primitives::{CompactParts, FullParts, SaplingNote, Scope, Zip212Enforcement};

verus! {

#[verifier::external_type_specification]
#[verifier::external_body]
pub struct ExPreparedIncomingViewingKey(sapling_crypto::keys::PreparedIncomingViewingKey);

#[verifier::external_type_specification]
#[verifier::external_body]
pub struct ExDiversifiableFullViewingKey(sapling_crypto::zip32::DiversifiableFullViewingKey);

#[verifier::external_type_specification]
#[verifier::external_body]
pub struct ExNullifierDerivingKey(sapling_crypto::keys::NullifierDerivingKey);

#[verifier::external_type_specification]
#[verifier::external_body]
pub struct ExCompactOutputDescription(sapling_crypto::note_encryption::CompactOutputDescription);

#[verifier::external_type_specification]
#[verifier::external_body]
#[verifier::reject_recursive_types(Proof)]
pub struct ExOutputDescription<Proof>(sapling_crypto::bundle::OutputDescription<Proof>);

/// A Sapling diversifiable full viewing key.
#[derive(Debug)]
pub struct SaplingDfvk {
    pub(crate) bytes: [u8; 128],
    pub(crate) inner: DiversifiableFullViewingKey,
}

impl SaplingDfvk {
    /// The raw encoding of the key.
    pub closed spec fn view(&self) -> Seq<u8> {
        self.bytes@
    }

    /// The same key again: a clone of the `DiversifiableFullViewingKey` with its
    /// encoding.
    #[verifier::external_body]
    pub(crate) fn duplicate(&self) -> (key: SaplingDfvk)
        ensures
            key@ == self@,
    {
        SaplingDfvk { bytes: self.bytes, inner: self.inner.clone() }
    }
}

/// A Sapling incoming viewing key, prepared for trial decryption.
#[derive(Debug)]
pub struct SaplingIvk {
    pub(crate) bytes: [u8; 32],
    pub(crate) inner: PreparedIncomingViewingKey,
}

impl SaplingIvk {
    /// The little-endian encoding of the key.
    pub closed spec fn view(&self) -> Seq<u8> {
        self.bytes@
    }

    /// The same key again: a clone of the `PreparedIncomingViewingKey` with its
    /// encoding.
    #[verifier::external_body]
    pub(crate) fn duplicate(&self) -> (key: SaplingIvk)
        ensures
            key@ == self@,
    {
        SaplingIvk { bytes: self.bytes, inner: self.inner.clone() }
    }
}

/// The key that turns the Sapling notes of one scope into nullifiers.
#[derive(Debug)]
pub struct SaplingNk {
    pub(crate) dfvk: [u8; 128],
    pub(crate) scope: Scope,
    pub(crate) inner: NullifierDerivingKey,
}

impl SaplingNk {
    /// The full viewing key that this one belongs to, and the scope.
    pub closed spec fn view(&self) -> (Seq<u8>, Scope) {
        (self.dfvk@, self.scope)
    }
}

/// The incoming viewing key of a full viewing key, in one scope.
pub uninterp spec fn sapling_ivk_of(dfvk: Seq<u8>, scope: Scope) -> Seq<u8>;

/// `DiversifiableFullViewingKey::to_ivk`, prepared: the incoming viewing key that
/// belongs to `dfvk` in `scope`, a function of the two.
#[verifier::external_body]
pub(crate) fn sapling_to_ivk(dfvk: &SaplingDfvk, scope: Scope) -> (ivk: SaplingIvk)
    ensures
        ivk@ == sapling_ivk_of(dfvk@, scope),
{
    let scopes = [zip32::Scope::External, zip32::Scope::Internal];
    let ivk = dfvk.inner.to_ivk(scopes[scope as usize]);
    SaplingIvk { bytes: ivk.to_repr(), inner: PreparedIncomingViewingKey::new(&ivk) }
}

/// `DiversifiableFullViewingKey::to_nk`: the nullifier deriving key that belongs to
/// `dfvk` in `scope`.
#[verifier::external_body]
pub(crate) fn sapling_to_nk(dfvk: &SaplingDfvk, scope: Scope) -> (nk: SaplingNk)
    ensures
        nk@ == (dfvk@, scope),
{
    let scopes = [zip32::Scope::External, zip32::Scope::Internal];
    SaplingNk { dfvk: dfvk.bytes, scope, inner: dfvk.inner.to_nk(scopes[scope as usize]) }
}

/// The outgoing viewing key of a full viewing key, in one scope.
pub uninterp spec fn sapling_ovk_of(dfvk: Seq<u8>, scope: Scope) -> Seq<u8>;

/// `DiversifiableFullViewingKey::to_ovk`: the outgoing viewing key that belongs to
/// `dfvk` in `scope`, a function of the two.
#[verifier::external_body]
pub(crate) fn sapling_to_ovk(dfvk: &SaplingDfvk, scope: Scope) -> (ovk: [u8; 32])
    ensures
        ovk@ == sapling_ovk_of(dfvk@, scope),
{
    let scopes = [zip32::Scope::External, zip32::Scope::Internal];
    dfvk.inner.to_ovk(scopes[scope as usize]).0
}

/// A compact Sapling output whose parts are well formed.
pub struct SaplingCompactOutput {
    pub(crate) cmu: [u8; 32],
    pub(crate) ephemeral_key: [u8; 32],
    pub(crate) ciphertext: [u8; 52],
    pub(crate) inner: CompactOutputDescription,
}

impl SaplingCompactOutput {
    /// The note commitment, the ephemeral key and the start of the ciphertext.
    pub closed spec fn view(&self) -> CompactParts {
        CompactParts {
            cmu: self.cmu@,
            ephemeral_key: self.ephemeral_key@,
            ciphertext: self.ciphertext@,
        }
    }
}

/// Whether 32 bytes are the encoding of a Sapling note commitment.
pub open spec fn sapling_cmu_valid(bytes: Seq<u8>) -> bool {
    is_jubjub_base(bytes)
}

/// `ExtractedNoteCommitment::from_bytes` of the Sapling crate, and the compact output
/// description made with its result: there is one exactly where the commitment is the
/// canonical encoding of an element of the Jubjub base field, and it holds the three
/// arguments.
#[verifier::external_body]
pub(crate) fn sapling_compact_output(cmu: [u8; 32], ephemeral_key: [u8; 32], ciphertext: [u8; 52]) -> (output:
    Option<SaplingCompactOutput>)
    ensures
        output is Some == sapling_cmu_valid(cmu@),
        output is Some ==> (output->0)@ == (CompactParts {
            cmu: cmu@,
            ephemeral_key: ephemeral_key@,
            ciphertext: ciphertext@,
        }),
{
    let inner = CompactOutputDescription {
        cmu: ExtractedNoteCommitment::from_bytes(&cmu).into_option()?,
        ephemeral_key: EphemeralKeyBytes(ephemeral_key),
        enc_ciphertext: ciphertext,
    };
    Some(SaplingCompactOutput { cmu, ephemeral_key, ciphertext, inner })
}

/// The note that an incoming viewing key finds in a compact output.
pub uninterp spec fn sapling_compact_note(
    ivk: Seq<u8>,
    zip212: Zip212Enforcement,
    output: CompactParts,
) -> Option<SaplingNote>;

/// Whether trial decryption of some compact output yields `note`.
pub open spec fn sapling_note_found(note: SaplingNote) -> bool {
    exists|ivk: Seq<u8>, zip212: Zip212Enforcement, output: CompactParts|
        #[trigger] sapling_compact_note(ivk, zip212, output) == Some(note)
}

/// `batch::try_compact_note_decryption` in the Sapling domain: one slot per output,
/// in order, with the note that the first matching key finds and that key's index,
/// or nothing where no key matches. The recipient handed back beside the note is the
/// note's own.
#[verifier::external_body]
pub(crate) fn sapling_compact_batch(
    ivks: &Vec<&SaplingIvk>,
    zip212: Zip212Enforcement,
    outputs: &Vec<SaplingCompactOutput>,
) -> (hits: Vec<Option<(SaplingNote, usize)>>)
    ensures
        hits.len() == outputs.len(),
        forall|i: int, k: int|
            0 <= i < hits.len() && 0 <= k < ivks.len() && (hits[i] is Some ==> k < (hits[i]->0).1)
                ==> #[trigger] sapling_compact_note(ivks[k]@, zip212, outputs[i]@) is None,
        forall|i: int|
            0 <= i < hits.len() && (#[trigger] hits[i]) is Some ==> (hits[i]->0).1 < ivks.len()
                && sapling_compact_note(ivks[(hits[i]->0).1 as int]@, zip212, outputs[i]@) == Some(
                (hits[i]->0).0,
            ),
{
    let rule = [Off, GracePeriod, On][zip212 as usize];
    let keys = Vec::from_iter(ivks.iter().map(|k| k.inner.clone()));
    let pairs = Vec::from_iter(outputs.iter().map(|o| (SaplingDomain::new(rule), o.inner.clone())));
    batch::try_compact_note_decryption(&keys, &pairs).into_iter().map(|hit| hit.map(|((n, _), k)| (SaplingNote {
        recipient: n.recipient().to_bytes(),
        value: n.value().inner(),
        rseed: match n.rseed() {
            BeforeZip212(rcm) => Rcm(rcm.to_bytes()),
            AfterZip212(seed) => Seed(*seed),
        },
    }, k))).collect()
}

/// The nullifier of a Sapling note at a position of the commitment tree.
pub uninterp spec fn sapling_nullifier_of(
    nk: (Seq<u8>, Scope),
    note: SaplingNote,
    position: u64,
) -> [u8; 32];

/// `Note::nf`: the nullifier of `note` at `position`, a function of the nullifier
/// deriving key, the note and the position.
#[verifier::external_body]
pub(crate) fn sapling_nullifier(nk: &SaplingNk, note: &SaplingNote, position: u64) -> (nf: [u8; 32])
    requires
        sapling_note_found(*note),
    ensures
        nf == sapling_nullifier_of(nk@, *note, position),
{
    let rseed = match note.rseed {
        Rcm(rcm) => BeforeZip212(ValueCommitTrapdoor::from_bytes(rcm).unwrap().inner()),
        Seed(seed) => AfterZip212(seed),
    };
    let to = PaymentAddress::from_bytes(&note.recipient).unwrap();
    Note::from_parts(to, NoteValue::from_raw(note.value), rseed).nf(&nk.inner, position).0
}

/// The commitment trapdoor of a Sapling note, where the parts are a note.
pub uninterp spec fn sapling_rcm_of(note: SaplingNote) -> Option<[u8; 32]>;

/// `Note::rcm`, as bytes: the note's commitment trapdoor, a function of the note.
/// Nothing where the recipient is no payment address or the randomness no scalar.
#[verifier::external_body]
pub(crate) fn sapling_rcm(note: &SaplingNote) -> (rcm: Option<[u8; 32]>)
    ensures
        rcm == sapling_rcm_of(*note),
{
    let rseed = match note.rseed {
        Rcm(rcm) => BeforeZip212(ValueCommitTrapdoor::from_bytes(rcm).into_option()?.inner()),
        Seed(seed) => AfterZip212(seed),
    };
    let to = PaymentAddress::from_bytes(&note.recipient)?;
    Some(Note::from_parts(to, NoteValue::from_raw(note.value), rseed).rcm().to_bytes())
}

/// A Sapling output of a full transaction.
pub struct SaplingFullOutput {
    pub(crate) cv: [u8; 32],
    pub(crate) cmu: [u8; 32],
    pub(crate) ephemeral_key: [u8; 32],
    pub(crate) enc_ciphertext: [u8; 580],
    pub(crate) out_ciphertext: [u8; 80],
    pub(crate) inner: OutputDescription<[u8; 192]>,
}

impl SaplingFullOutput {
    /// The commitments, the ephemeral key and the two ciphertexts.
    pub closed spec fn view(&self) -> FullParts {
        FullParts {
            cv: self.cv@,
            cmu: self.cmu@,
            ephemeral_key: self.ephemeral_key@,
            enc_ciphertext: self.enc_ciphertext@,
            out_ciphertext: self.out_ciphertext@,
        }
    }
}

/// The note and memo that an incoming viewing key finds in an output.
pub uninterp spec fn sapling_full_note(
    ivk: Seq<u8>,
    zip212: Zip212Enforcement,
    output: FullParts,
) -> Option<(SaplingNote, [u8; 512])>;

/// `batch::try_note_decryption` in the Sapling domain: one slot per output, in order,
/// with the note and memo that the first matching key finds and that key's index, or
/// nothing where no key matches. The recipient handed back beside the note is the
/// note's own.
#[verifier::external_body]
pub(crate) fn sapling_full_batch(
    ivks: &Vec<&SaplingIvk>,
    zip212: Zip212Enforcement,
    outputs: &Vec<&SaplingFullOutput>,
) -> (hits: Vec<Option<((SaplingNote, [u8; 512]), usize)>>)
    ensures
        hits.len() == outputs.len(),
        forall|i: int, k: int|
            0 <= i < hits.len() && 0 <= k < ivks.len() && (hits[i] is Some ==> k < (hits[i]->0).1)
                ==> #[trigger] sapling_full_note(ivks[k]@, zip212, outputs[i]@) is None,
        forall|i: int|
            0 <= i < hits.len() && (#[trigger] hits[i]) is Some ==> (hits[i]->0).1 < ivks.len()
                && sapling_full_note(ivks[(hits[i]->0).1 as int]@, zip212, outputs[i]@) == Some(
                (hits[i]->0).0,
            ),
{
    let rule = [Off, GracePeriod, On][zip212 as usize];
    let keys = Vec::from_iter(ivks.iter().map(|k| k.inner.clone()));
    let pairs = Vec::from_iter(outputs.iter().map(|o| (SaplingDomain::new(rule), o.inner.clone())));
    batch::try_note_decryption(&keys, &pairs).into_iter().map(|hit| hit.map(|((n, _, memo), k)| ((SaplingNote {
        recipient: n.recipient().to_bytes(),
        value: n.value().inner(),
        rseed: match n.rseed() {
            BeforeZip212(rcm) => Rcm(rcm.to_bytes()),
            AfterZip212(seed) => Seed(*seed),
        },
    }, memo), k))).collect()
}

/// The note and memo that an outgoing viewing key recovers from an output.
pub uninterp spec fn sapling_sent_note(
    ovk: Seq<u8>,
    zip212: Zip212Enforcement,
    output: FullParts,
) -> Option<(SaplingNote, [u8; 512])>;

/// `try_output_recovery_with_ovk` in the Sapling domain: the note and memo that
/// `ovk` recovers, a function of the key, the ZIP 212 rule and the output. The
/// recipient handed back beside the note is the note's own.
#[verifier::external_body]
pub(crate) fn sapling_recover(
    ovk: &[u8; 32],
    zip212: Zip212Enforcement,
    output: &SaplingFullOutput,
) -> (sent: Option<(SaplingNote, [u8; 512])>)
    ensures
        sent == sapling_sent_note(ovk@, zip212, output@),
{
    let domain = SaplingDomain::new([Off, GracePeriod, On][zip212 as usize]);
    let key = OutgoingViewingKey(*ovk);
    let o = &output.inner;
    let (n, _, memo) = try_output_recovery_with_ovk(&domain, &key, o, o.cv(), o.out_ciphertext())?;
    Some((SaplingNote {
        recipient: n.recipient().to_bytes(),
        value: n.value().inner(),
        rseed: match n.rseed() {
            BeforeZip212(rcm) => Rcm(rcm.to_bytes()),
            AfterZip212(seed) => Seed(*seed),
        },
    }, memo))
}

} // verus!
