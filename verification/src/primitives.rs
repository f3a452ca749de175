//! The plain values that the rest of the library computes on.
//!
//! Keys, notes and chain positions are held as integers and byte arrays in the
//! encodings that the Zcash protocol crates read and write.

use vstd::prelude::*;

verus! {

/// A Zcash network.
#[derive(Clone, Copy, Debug, PartialEq, Eq, Structural)]
pub enum Network {
    /// Zcash Mainnet.
    MainNetwork,
    /// Zcash Testnet.
    TestNetwork,
}

/// The network upgrades whose activation heights the scanner consults.
#[derive(Clone, Copy, Debug, PartialEq, Eq, Structural)]
pub enum NetworkUpgrade {
    /// Sapling: the first shielded pool tracked here.
    Sapling,
    /// Canopy: ZIP 212 note plaintexts.
    Canopy,
    /// NU5: the Orchard pool.
    Nu5,
    /// NU6.3: the Ironwood pool.
    Nu6_3,
}

/// The scope of a viewing key: addresses handed out, or change.
#[derive(Clone, Copy, Debug, PartialEq, Eq, Structural)]
pub enum Scope {
    /// Addresses that are given to other people.
    External,
    /// Change and other wallet-internal addresses.
    Internal,
}

/// How strictly ZIP 212 is enforced on Sapling note plaintexts.
#[derive(Clone, Copy, Debug, PartialEq, Eq, Structural)]
pub enum Zip212Enforcement {
    /// Only the old plaintext form is accepted.
    Off,
    /// Both forms are accepted.
    GracePeriod,
    /// Only the ZIP 212 form is accepted.
    On,
}

/// A shielded value pool.
#[derive(Clone, Copy, Debug, PartialEq, Eq, Structural)]
pub enum ShieldedPool {
    /// The Sapling pool.
    Sapling,
    /// The Orchard pool.
    Orchard,
    /// The Ironwood pool.
    Ironwood,
}

/// The randomness of a Sapling note.
#[derive(Clone, Copy, Debug, PartialEq, Eq)]
pub enum Rseed {
    /// The commitment trapdoor itself, as the encoding of a scalar.
    BeforeZip212([u8; 32]),
    /// A seed from which the trapdoor is derived.
    AfterZip212([u8; 32]),
}

/// A Sapling note.
#[derive(Clone, Copy, Debug, PartialEq, Eq)]
pub struct SaplingNote {
    /// The raw encoding of the recipient's payment address.
    pub recipient: [u8; 43],
    /// Value in zatoshis.
    pub value: u64,
    /// The note's randomness.
    pub rseed: Rseed,
}

/// The version of an Orchard-shaped note plaintext.
#[derive(Clone, Copy, Debug, PartialEq, Eq, Structural)]
pub enum NoteVersion {
    /// The Orchard plaintext.
    V2,
    /// The Ironwood plaintext.
    V3,
}

/// An Orchard or Ironwood note.
#[derive(Clone, Copy, Debug, PartialEq, Eq)]
pub struct OrchardNote {
    /// The raw encoding of the recipient's address.
    pub recipient: [u8; 43],
    /// Value in zatoshis.
    pub value: u64,
    /// The nullifier of the note spent in the action that made this one.
    pub rho: [u8; 32],
    /// The note's seed.
    pub rseed: [u8; 32],
    /// The version of the plaintext that held the note.
    pub version: NoteVersion,
}

/// The parts of a compact Sapling output.
pub struct CompactParts {
    /// The note commitment.
    pub cmu: Seq<u8>,
    /// The ephemeral public key.
    pub ephemeral_key: Seq<u8>,
    /// The start of the note ciphertext.
    pub ciphertext: Seq<u8>,
}

/// The parts of a compact Orchard-shaped action.
pub struct ActionParts {
    /// The nullifier of the note that the action spends.
    pub nullifier: Seq<u8>,
    /// The commitment of the note that the action makes.
    pub cmx: Seq<u8>,
    /// The ephemeral public key.
    pub ephemeral_key: Seq<u8>,
    /// The start of the note ciphertext.
    pub ciphertext: Seq<u8>,
}

/// The parts of a Sapling output in a full transaction.
pub struct FullParts {
    /// The value commitment.
    pub cv: Seq<u8>,
    /// The note commitment.
    pub cmu: Seq<u8>,
    /// The ephemeral public key.
    pub ephemeral_key: Seq<u8>,
    /// The note ciphertext.
    pub enc_ciphertext: Seq<u8>,
    /// The ciphertext for the sender's outgoing viewing key.
    pub out_ciphertext: Seq<u8>,
}

/// The parts of an Orchard-shaped action in a full transaction.
pub struct FullActionParts {
    /// The nullifier of the note that the action spends.
    pub nullifier: Seq<u8>,
    /// The value commitment.
    pub cv_net: Seq<u8>,
    /// The commitment of the note that the action makes.
    pub cmx: Seq<u8>,
    /// The ephemeral public key.
    pub ephemeral_key: Seq<u8>,
    /// The note ciphertext.
    pub enc_ciphertext: Seq<u8>,
    /// The ciphertext for the sender's outgoing viewing key.
    pub out_ciphertext: Seq<u8>,
}

/// A transparent address.
#[derive(Clone, Copy, Debug, PartialEq, Eq)]
pub enum TransparentAddress {
    /// The hash of a public key.
    PublicKeyHash([u8; 20]),
    /// The hash of a script.
    ScriptHash([u8; 20]),
}

/// A reference to a transparent output.
#[derive(Clone, Copy, Debug, PartialEq, Eq)]
pub struct OutPoint {
    /// The transaction that made the output.
    pub hash: [u8; 32],
    /// The output's index in that transaction.
    pub n: u32,
}

} // verus!
