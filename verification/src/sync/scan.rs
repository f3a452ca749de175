//! Scanning compact blocks and full transactions for what belongs to a set of keys.

use vstd::prelude::*;
use vstd::string::*;

use crate::bytes::{
    array32, byte_strings, copy_bytes, holds32, holds_bytes, lemma_array32, same32, same_bytes,
    to_array,
};
use crate::primitives::{
    FullActionParts, FullParts, Network, NetworkUpgrade, OrchardNote, OutPoint, SaplingNote, Scope, ShieldedPool,
    TransparentAddress, Zip212Enforcement,
};
use crate::proto::{
    CompactBlock, CompactOrchardAction, CompactSaplingOutput, CompactSaplingSpend, CompactTx,
    CompactTxIn,
};
use crate::seqs::{collect_some, lemma_collect_push};
use crate::sync::decrypt::{
    decrypt_compact_ironwood, decrypt_compact_orchard, decrypt_compact_sapling,
    decrypt_full_ironwood, decrypt_full_orchard, decrypt_full_sapling, ironwood_compact_found,
    ironwood_full_found, ironwood_sent_found, lemma_ironwood_compact_found,
    lemma_orchard_compact_found, lemma_sapling_compact_found, orchard_compact_found,
    orchard_full_found, orchard_sent_found, recover_outgoing_ironwood, recover_outgoing_orchard,
    recover_outgoing_sapling, sapling_compact_found, sapling_full_found, sapling_sent_found,
    DecryptResult, OrchardResult, OrchardScanningKey, SaplingResult, SaplingScanningKey,
    ScanningKeys,
};
use crate::text::{append_decimal, decimal};
use crate::upstream::consensus_rules::{
    activation_height, activation_of, zatoshis, zip212_at, zip212_enforcement, MAX_MONEY,
};
use crate::upstream::orchard_notes::{
    orchard_nullifier, orchard_nullifier_of, orchard_nullifier_parses, orchard_nullifier_valid,
};
use crate::upstream::sapling_notes::{sapling_nullifier, sapling_nullifier_of};
use crate::upstream::transactions::{
    ironwood_actions, ironwood_actions_of, orchard_actions, orchard_actions_of, sapling_outputs,
    sapling_outputs_of, FullTransaction,
};
use crate::upstream::transparent_keys::{
    address_script, external_address, external_address_of, internal_address, internal_address_of,
    script_of, TransparentExternalKey, TransparentInternalKey, CHILD_INDEX_END,
};

verus! {

/// How many child indices of each transparent key are watched.
pub const TRANSPARENT_GAP: u32 = 20;

/// The nullifiers of the notes that are watched for spends.
#[derive(Debug, Clone, Default, PartialEq, Eq)]
pub struct Nullifiers {
    /// Of Sapling notes.
    pub sapling: Vec<[u8; 32]>,
    /// Of Orchard notes.
    pub orchard: Vec<[u8; 32]>,
    /// Of Ironwood notes.
    pub ironwood: Vec<[u8; 32]>,
}

/// The keys whose transparent addresses are watched.
#[derive(Debug)]
pub struct TransparentScanningKey {
    /// The key of the addresses that are handed out.
    pub external: TransparentExternalKey,
    /// The key of the change addresses.
    pub internal: Option<TransparentInternalKey>,
}

/// A note that the account received or sent.
#[derive(Debug, Clone, Copy, PartialEq, Eq)]
pub struct WalletOutput<Note, Nf, Recipient> {
    /// The output's index in its transaction.
    pub index: u32,
    /// The note.
    pub note: Note,
    /// Its recipient.
    pub recipient: Recipient,
    /// Its nullifier, where a full viewing key found it.
    pub nf: Option<Nf>,
    /// Its position in the note commitment tree.
    pub position: u64,
    /// The scope of the key that found it.
    pub scope: Scope,
    /// Its memo, once the full transaction was read.
    pub memo: Option<[u8; 512]>,
    /// Whether the account sent it.
    pub is_sent: bool,
    /// Whether it is change.
    pub is_change: bool,
}

/// A Sapling note that the account received or sent.
pub type SaplingOutput = WalletOutput<SaplingNote, [u8; 32], [u8; 43]>;

/// An Orchard or Ironwood note that the account received or sent.
pub type OrchardOutput = WalletOutput<OrchardNote, [u8; 32], [u8; 43]>;

/// A spend of one of the account's Sapling notes.
#[derive(Debug, Clone, Copy, PartialEq, Eq)]
pub struct SaplingSpend {
    /// The spend's index in its transaction.
    pub index: u32,
    /// The nullifier of the note.
    pub nf: [u8; 32],
}

/// A spend of one of the account's Orchard or Ironwood notes.
#[derive(Debug, Clone, Copy, PartialEq, Eq)]
pub struct OrchardSpend {
    /// The action's index in its transaction.
    pub index: u32,
    /// The nullifier of the note.
    pub nf: [u8; 32],
}

/// The value and locking script of a transparent output.
#[derive(Debug, Clone, PartialEq, Eq)]
pub struct TxOut {
    /// Value in zatoshis.
    pub value: u64,
    /// The locking script.
    pub script_pubkey: Vec<u8>,
}

/// A transparent output that pays the account.
#[derive(Debug, Clone, PartialEq, Eq)]
pub struct TransparentOutput {
    /// Where the output stands.
    pub outpoint: OutPoint,
    /// What it pays, and to which script.
    pub txout: TxOut,
    /// The height of its block.
    pub height: u32,
}

/// What a transparent output holds.
pub struct TransparentOutputView {
    /// Where the output stands.
    pub outpoint: OutPoint,
    /// Value in zatoshis.
    pub value: u64,
    /// The locking script.
    pub script: Seq<u8>,
    /// The height of its block.
    pub height: u32,
}

impl TransparentOutput {
    /// What the output holds.
    pub open spec fn view(&self) -> TransparentOutputView {
        TransparentOutputView {
            outpoint: self.outpoint,
            value: self.txout.value,
            script: self.txout.script_pubkey@,
            height: self.height,
        }
    }
}

/// A spend of one of the account's transparent outputs.
#[derive(Debug, Clone, Copy, PartialEq, Eq)]
pub struct TransparentSpend {
    /// The spending transaction.
    pub txid: [u8; 32],
    /// The output that is spent.
    pub outpoint: OutPoint,
    /// The height of the spending transaction's block.
    pub height: u32,
}

/// What one transaction does to the account.
#[derive(Debug, Clone)]
pub struct WalletTx {
    /// The transaction's id.
    pub txid: [u8; 32],
    /// The height of its block.
    pub height: u32,
    /// Its index in the block.
    pub tx_index: u32,
    /// Sapling notes received or sent.
    pub sapling_outputs: Vec<SaplingOutput>,
    /// Sapling notes spent.
    pub sapling_spends: Vec<SaplingSpend>,
    /// Orchard notes received or sent.
    pub orchard_outputs: Vec<OrchardOutput>,
    /// Orchard notes spent.
    pub orchard_spends: Vec<OrchardSpend>,
    /// Ironwood notes received or sent.
    pub ironwood_outputs: Vec<OrchardOutput>,
    /// Ironwood notes spent.
    pub ironwood_spends: Vec<OrchardSpend>,
    /// Transparent outputs received.
    pub transparent_outputs: Vec<TransparentOutput>,
    /// Transparent outputs spent.
    pub transparent_spends: Vec<TransparentSpend>,
}

/// What one transaction does to the account, as sequences.
pub struct WalletTxView {
    /// The transaction's id.
    pub txid: [u8; 32],
    /// The height of its block.
    pub height: u32,
    /// Its index in the block.
    pub tx_index: u32,
    /// Sapling notes received or sent.
    pub sapling_outputs: Seq<SaplingOutput>,
    /// Sapling notes spent.
    pub sapling_spends: Seq<SaplingSpend>,
    /// Orchard notes received or sent.
    pub orchard_outputs: Seq<OrchardOutput>,
    /// Orchard notes spent.
    pub orchard_spends: Seq<OrchardSpend>,
    /// Ironwood notes received or sent.
    pub ironwood_outputs: Seq<OrchardOutput>,
    /// Ironwood notes spent.
    pub ironwood_spends: Seq<OrchardSpend>,
    /// Transparent outputs received.
    pub transparent_outputs: Seq<TransparentOutputView>,
    /// Transparent outputs spent.
    pub transparent_spends: Seq<TransparentSpend>,
}

impl WalletTx {
    /// What the transaction does, as sequences.
    pub open spec fn view(&self) -> WalletTxView {
        WalletTxView {
            txid: self.txid,
            height: self.height,
            tx_index: self.tx_index,
            sapling_outputs: self.sapling_outputs@,
            sapling_spends: self.sapling_spends@,
            orchard_outputs: self.orchard_outputs@,
            orchard_spends: self.orchard_spends@,
            ironwood_outputs: self.ironwood_outputs@,
            ironwood_spends: self.ironwood_spends@,
            transparent_outputs: self.transparent_outputs@.map_values(
                |o: TransparentOutput| o@,
            ),
            transparent_spends: self.transparent_spends@,
        }
    }
}

/// The views of several transactions.
pub open spec fn tx_views(txs: Seq<WalletTx>) -> Seq<WalletTxView> {
    txs.map_values(|t: WalletTx| t@)
}

impl WalletTxView {
    /// Whether the transaction does nothing to the account.
    pub open spec fn is_bare(self) -> bool {
        &&& self.sapling_outputs.len() == 0
        &&& self.sapling_spends.len() == 0
        &&& self.orchard_outputs.len() == 0
        &&& self.orchard_spends.len() == 0
        &&& self.ironwood_outputs.len() == 0
        &&& self.ironwood_spends.len() == 0
        &&& self.transparent_outputs.len() == 0
        &&& self.transparent_spends.len() == 0
    }
}

/// Whether every nullifier of Orchard or Ironwood outputs is one.
pub open spec fn nullifiers_valid(outputs: Seq<OrchardOutput>) -> bool {
    forall|i: int|
        0 <= i < outputs.len() && (#[trigger] outputs[i]).nf is Some ==> orchard_nullifier_valid(
            (outputs[i].nf->0)@,
        )
}

/// Whether every nullifier of the Orchard and Ironwood notes of transactions is one.
pub open spec fn all_nullifiers_valid(txs: Seq<WalletTxView>) -> bool {
    forall|i: int|
        0 <= i < txs.len() ==> nullifiers_valid((#[trigger] txs[i]).orchard_outputs)
            && nullifiers_valid(txs[i].ironwood_outputs)
}

/// Why scanning stopped.
#[derive(Debug, Clone, Copy, PartialEq, Eq, Structural)]
pub enum ScanError {
    /// A block, or a transaction in it, is malformed.
    InvalidCompactBlock(u32),
    /// A block does not follow the one before it.
    BlockHeightDiscontinuity {
        /// The height of the block before.
        prev_height: u32,
        /// The height of the block.
        new_height: u32,
    },
    /// A block does not name the one before it as its predecessor.
    PrevHashMismatch(u32),
    /// The size of a note commitment tree before a block cannot be told.
    TreeSizeUnknown(ShieldedPool, u32),
    /// The size of a note commitment tree after a block is not what the block says.
    TreeSizeMismatch {
        /// The tree's pool.
        pool: ShieldedPool,
        /// The block's height.
        at_height: u32,
        /// The size that the block gives.
        given: u32,
        /// The size that counting gives.
        computed: u32,
    },
}

/// The name of a pool.
pub open spec fn pool_name(pool: ShieldedPool) -> Seq<char> {
    match pool {
        ShieldedPool::Sapling => "Sapling"@,
        ShieldedPool::Orchard => "Orchard"@,
        ShieldedPool::Ironwood => "Ironwood"@,
    }
}

/// The name of a pool.
fn name_of(pool: ShieldedPool) -> (name: &'static str)
    ensures
        name@ == pool_name(pool),
{
    match pool {
        ShieldedPool::Sapling => "Sapling",
        ShieldedPool::Orchard => "Orchard",
        ShieldedPool::Ironwood => "Ironwood",
    }
}

impl ScanError {
    /// The error in words.
    pub open spec fn text(self) -> Seq<char> {
        match self {
            ScanError::InvalidCompactBlock(height) => "invalid compact block at height "@ + decimal(
                height as nat,
            ),
            ScanError::BlockHeightDiscontinuity { prev_height, new_height } =>
                "block height discontinuity: expected "@ + decimal(prev_height as nat)
                + " + 1, got "@ + decimal(new_height as nat),
            ScanError::PrevHashMismatch(height) => "previous hash mismatch at height "@ + decimal(
                height as nat,
            ),
            ScanError::TreeSizeUnknown(pool, height) =>
                "note commitment tree size unknown for "@ + pool_name(pool) + " at height "@
                + decimal(height as nat),
            ScanError::TreeSizeMismatch { pool, at_height, given, computed } =>
                "note commitment tree size mismatch for "@ + pool_name(pool) + " at height "@
                + decimal(at_height as nat) + ": given "@ + decimal(given as nat)
                + ", computed "@ + decimal(computed as nat),
        }
    }

    /// The error in words.
    pub fn to_text(&self) -> (text: String)
        ensures
            text@ == self.text(),
    {
        match *self {
            ScanError::InvalidCompactBlock(height) => {
                let mut text = "invalid compact block at height ".to_owned();
                append_decimal(&mut text, height as u64);
                text
            },
            ScanError::BlockHeightDiscontinuity { prev_height, new_height } => {
                let mut text = "block height discontinuity: expected ".to_owned();
                append_decimal(&mut text, prev_height as u64);
                text.append(" + 1, got ");
                append_decimal(&mut text, new_height as u64);
                text
            },
            ScanError::PrevHashMismatch(height) => {
                let mut text = "previous hash mismatch at height ".to_owned();
                append_decimal(&mut text, height as u64);
                text
            },
            ScanError::TreeSizeUnknown(pool, height) => {
                let mut text = "note commitment tree size unknown for ".to_owned();
                text.append(name_of(pool));
                text.append(" at height ");
                append_decimal(&mut text, height as u64);
                text
            },
            ScanError::TreeSizeMismatch { pool, at_height, given, computed } => {
                let mut text = "note commitment tree size mismatch for ".to_owned();
                text.append(name_of(pool));
                text.append(" at height ");
                append_decimal(&mut text, at_height as u64);
                text.append(": given ");
                append_decimal(&mut text, given as u64);
                text.append(", computed ");
                append_decimal(&mut text, computed as u64);
                text
            },
        }
    }
}

/// The Sapling output at `index`, as the account records it.
pub open spec fn sapling_wallet_output(
    keys: Seq<SaplingScanningKey>,
    found: SaplingResult,
    index: int,
    start: nat,
) -> Option<SaplingOutput> {
    match found {
        Some(r) => Some(
            WalletOutput {
                index: index as u32,
                note: r.note,
                recipient: r.recipient,
                nf: match keys[r.key_index as int].nk {
                    Some(nk) => Some(sapling_nullifier_of(nk@, r.note, (start + index) as u64)),
                    None => None,
                },
                position: (start + index) as u64,
                scope: keys[r.key_index as int].scope,
                memo: None,
                is_sent: false,
                is_change: false,
            },
        ),
        None => None,
    }
}

/// What the account receives of a transaction's Sapling outputs, of which the first
/// stands at position `start` of the tree.
pub open spec fn sapling_received(
    keys: Seq<SaplingScanningKey>,
    zip212: Zip212Enforcement,
    outputs: Seq<CompactSaplingOutput>,
    start: nat,
) -> Seq<SaplingOutput> {
    collect_some(
        Seq::new(
            outputs.len(),
            |i: int|
                sapling_wallet_output(keys, sapling_compact_found(keys, zip212, outputs[i]), i, start),
        ),
    )
}

/// Finds the account's notes among a transaction's Sapling outputs.
fn receive_sapling(
    outputs: &Vec<CompactSaplingOutput>,
    keys: &ScanningKeys,
    zip212: Zip212Enforcement,
    start: u32,
) -> (received: Vec<SaplingOutput>)
    requires
        outputs.len() <= u32::MAX,
    ensures
        received@ == sapling_received(keys.sapling@, zip212, outputs@, start as nat),
{
    let found = decrypt_compact_sapling(outputs.as_slice(), keys, zip212);
    let ghost all = Seq::new(
        outputs@.len(),
        |i: int|
            sapling_wallet_output(
                keys.sapling@,
                sapling_compact_found(keys.sapling@, zip212, outputs@[i]),
                i,
                start as nat,
            ),
    );
    let mut received: Vec<SaplingOutput> = Vec::new();
    let mut i: usize = 0;
    while i < found.len()
        invariant
            0 <= i <= found.len(),
            found.len() == outputs.len(),
            outputs.len() <= u32::MAX,
            all.len() == outputs.len(),
            forall|j: int|
                0 <= j < outputs.len() ==> all[j] == sapling_wallet_output(
                    keys.sapling@,
                    #[trigger] found[j],
                    j,
                    start as nat,
                ),
            forall|j: int|
                0 <= j < found.len() ==> #[trigger] found[j] == sapling_compact_found(
                    keys.sapling@,
                    zip212,
                    outputs@[j],
                ),
            received@ == collect_some(all.take(i as int)),
        decreases found.len() - i,
    {
        proof {
            lemma_collect_push(all.take(i as int), all[i as int]);
            assert(all.take(i as int + 1) =~= all.take(i as int).push(all[i as int]));
        }
        let position: u64 = start as u64 + i as u64;
        if let Some(result) = found[i] {
            proof {
                assert(keys.sapling.len() == keys.sapling@.len());
                lemma_sapling_compact_found(keys.sapling@, zip212, outputs@[i as int]);
            }
            let key = &keys.sapling[result.key_index];
            let nf = match &key.nk {
                Some(nk) => Some(sapling_nullifier(nk, &result.note, position)),
                None => None,
            };
            received.push(
                WalletOutput {
                    index: i as u32,
                    note: result.note,
                    recipient: result.recipient,
                    nf,
                    position,
                    scope: key.scope,
                    memo: None,
                    is_sent: false,
                    is_change: false,
                },
            );
        }
        i = i + 1;
    }
    assert(all.take(i as int) =~= all);
    received
}

/// The Orchard output at `index` of an action list, as the account records it.
pub open spec fn orchard_wallet_output(
    keys: Seq<OrchardScanningKey>,
    found: OrchardResult,
    index: int,
    start: nat,
) -> Option<OrchardOutput> {
    match found {
        Some(r) => Some(
            WalletOutput {
                index: index as u32,
                note: r.note,
                recipient: r.recipient,
                nf: match keys[r.key_index as int].nk {
                    Some(fvk) => Some(orchard_nullifier_of(fvk@, r.note)),
                    None => None,
                },
                position: (start + index) as u64,
                scope: keys[r.key_index as int].scope,
                memo: None,
                is_sent: false,
                is_change: false,
            },
        ),
        None => None,
    }
}

/// What the account receives of a transaction's Orchard actions, of which the first
/// stands at position `start` of the tree.
pub open spec fn orchard_received(
    keys: Seq<OrchardScanningKey>,
    actions: Seq<CompactOrchardAction>,
    start: nat,
) -> Seq<OrchardOutput> {
    collect_some(
        Seq::new(
            actions.len(),
            |i: int|
                orchard_wallet_output(keys, orchard_compact_found(keys, actions[i]), i, start),
        ),
    )
}

/// Finds the account's notes among a transaction's Orchard actions.
fn receive_orchard(
    actions: &Vec<CompactOrchardAction>,
    keys: &ScanningKeys,
    start: u32,
) -> (received: Vec<OrchardOutput>)
    requires
        actions.len() <= u32::MAX,
    ensures
        received@ == orchard_received(keys.orchard@, actions@, start as nat),
        nullifiers_valid(received@),
{
    let found = decrypt_compact_orchard(actions.as_slice(), keys);
    let ghost all = Seq::new(
        actions@.len(),
        |i: int|
            orchard_wallet_output(
                keys.orchard@,
                orchard_compact_found(keys.orchard@, actions@[i]),
                i,
                start as nat,
            ),
    );
    let mut received: Vec<OrchardOutput> = Vec::new();
    let mut i: usize = 0;
    while i < found.len()
        invariant
            0 <= i <= found.len(),
            found.len() == actions.len(),
            actions.len() <= u32::MAX,
            all.len() == actions.len(),
            forall|j: int|
                0 <= j < actions.len() ==> all[j] == orchard_wallet_output(
                    keys.orchard@,
                    #[trigger] found[j],
                    j,
                    start as nat,
                ),
            forall|j: int|
                0 <= j < found.len() ==> #[trigger] found[j] == orchard_compact_found(
                    keys.orchard@,
                    actions@[j],
                ),
            received@ == collect_some(all.take(i as int)),
            nullifiers_valid(received@),
        decreases found.len() - i,
    {
        proof {
            lemma_collect_push(all.take(i as int), all[i as int]);
            assert(all.take(i as int + 1) =~= all.take(i as int).push(all[i as int]));
        }
        let position: u64 = start as u64 + i as u64;
        if let Some(result) = found[i] {
            proof {
                assert(keys.orchard.len() == keys.orchard@.len());
                lemma_orchard_compact_found(keys.orchard@, actions@[i as int]);
            }
            let key = &keys.orchard[result.key_index];
            let nf = match &key.nk {
                Some(fvk) => Some(orchard_nullifier(fvk, &result.note)),
                None => None,
            };
            received.push(
                WalletOutput {
                    index: i as u32,
                    note: result.note,
                    recipient: result.recipient,
                    nf,
                    position,
                    scope: key.scope,
                    memo: None,
                    is_sent: false,
                    is_change: false,
                },
            );
        }
        i = i + 1;
    }
    assert(all.take(i as int) =~= all);
    received
}

/// What the account receives of a transaction's Ironwood actions, of which the first
/// stands at position `start` of the tree.
pub open spec fn ironwood_received(
    keys: Seq<OrchardScanningKey>,
    actions: Seq<CompactOrchardAction>,
    start: nat,
) -> Seq<OrchardOutput> {
    collect_some(
        Seq::new(
            actions.len(),
            |i: int|
                orchard_wallet_output(keys, ironwood_compact_found(keys, actions[i]), i, start),
        ),
    )
}

/// Finds the account's notes among a transaction's Ironwood actions.
fn receive_ironwood(
    actions: &Vec<CompactOrchardAction>,
    keys: &ScanningKeys,
    start: u32,
) -> (received: Vec<OrchardOutput>)
    requires
        actions.len() <= u32::MAX,
    ensures
        received@ == ironwood_received(keys.orchard@, actions@, start as nat),
        nullifiers_valid(received@),
{
    let found = decrypt_compact_ironwood(actions.as_slice(), keys);
    let ghost all = Seq::new(
        actions@.len(),
        |i: int|
            orchard_wallet_output(
                keys.orchard@,
                ironwood_compact_found(keys.orchard@, actions@[i]),
                i,
                start as nat,
            ),
    );
    let mut received: Vec<OrchardOutput> = Vec::new();
    let mut i: usize = 0;
    while i < found.len()
        invariant
            0 <= i <= found.len(),
            found.len() == actions.len(),
            actions.len() <= u32::MAX,
            all.len() == actions.len(),
            forall|j: int|
                0 <= j < actions.len() ==> all[j] == orchard_wallet_output(
                    keys.orchard@,
                    #[trigger] found[j],
                    j,
                    start as nat,
                ),
            forall|j: int|
                0 <= j < found.len() ==> #[trigger] found[j] == ironwood_compact_found(
                    keys.orchard@,
                    actions@[j],
                ),
            received@ == collect_some(all.take(i as int)),
            nullifiers_valid(received@),
        decreases found.len() - i,
    {
        proof {
            lemma_collect_push(all.take(i as int), all[i as int]);
            assert(all.take(i as int + 1) =~= all.take(i as int).push(all[i as int]));
        }
        let position: u64 = start as u64 + i as u64;
        if let Some(result) = found[i] {
            proof {
                assert(keys.orchard.len() == keys.orchard@.len());
                lemma_ironwood_compact_found(keys.orchard@, actions@[i as int]);
            }
            let key = &keys.orchard[result.key_index];
            let nf = match &key.nk {
                Some(fvk) => Some(orchard_nullifier(fvk, &result.note)),
                None => None,
            };
            received.push(
                WalletOutput {
                    index: i as u32,
                    note: result.note,
                    recipient: result.recipient,
                    nf,
                    position,
                    scope: key.scope,
                    memo: None,
                    is_sent: false,
                    is_change: false,
                },
            );
        }
        i = i + 1;
    }
    assert(all.take(i as int) =~= all);
    received
}

/// The spend at `index`, where its nullifier is one of those watched.
pub open spec fn sapling_spend_at(watched: Seq<[u8; 32]>, nf: Seq<u8>, index: int) -> Option<SaplingSpend> {
    if nf.len() == 32 && watched.contains(array32(nf)) {
        Some(SaplingSpend { index: index as u32, nf: array32(nf) })
    } else {
        None
    }
}

/// The account's notes among a transaction's Sapling spends.
pub open spec fn sapling_spent(watched: Seq<[u8; 32]>, spends: Seq<CompactSaplingSpend>) -> Seq<
    SaplingSpend,
> {
    collect_some(Seq::new(spends.len(), |i: int| sapling_spend_at(watched, spends[i].nf@, i)))
}

/// Finds the account's notes among a transaction's Sapling spends.
fn spend_sapling(spends: &Vec<CompactSaplingSpend>, watched: &Vec<[u8; 32]>) -> (spent: Vec<SaplingSpend>)
    ensures
        spent@ == sapling_spent(watched@, spends@),
{
    let ghost all = Seq::new(
        spends@.len(),
        |i: int| sapling_spend_at(watched@, spends@[i].nf@, i),
    );
    let mut spent: Vec<SaplingSpend> = Vec::new();
    let mut i: usize = 0;
    while i < spends.len()
        invariant
            0 <= i <= spends.len(),
            all == Seq::new(spends@.len(), |i: int| sapling_spend_at(watched@, spends@[i].nf@, i)),
            spent@ == collect_some(all.take(i as int)),
        decreases spends.len() - i,
    {
        proof {
            lemma_collect_push(all.take(i as int), all[i as int]);
            assert(all.take(i as int + 1) =~= all.take(i as int).push(all[i as int]));
        }
        let bytes: Option<[u8; 32]> = to_array(spends[i].nf.as_slice());
        if let Some(nf) = bytes {
            proof {
                lemma_array32(nf);
            }
            if holds32(watched, &nf) {
                #[verifier::truncate]
                let index: u32 = i as u32;
                spent.push(SaplingSpend { index, nf });
            }
        }
        i = i + 1;
    }
    assert(all.take(i as int) =~= all);
    spent
}

/// The spend at `index`, where its nullifier is one, and one of those watched.
pub open spec fn orchard_spend_at(watched: Seq<[u8; 32]>, nf: Seq<u8>, index: int) -> Option<OrchardSpend> {
    if nf.len() == 32 && orchard_nullifier_valid(nf) && watched.contains(array32(nf)) {
        Some(OrchardSpend { index: index as u32, nf: array32(nf) })
    } else {
        None
    }
}

/// The account's notes among those that a transaction's actions spend.
pub open spec fn orchard_spent(watched: Seq<[u8; 32]>, actions: Seq<CompactOrchardAction>) -> Seq<
    OrchardSpend,
> {
    collect_some(
        Seq::new(actions.len(), |i: int| orchard_spend_at(watched, actions[i].nullifier@, i)),
    )
}

/// Finds the account's notes among those that a transaction's actions spend.
fn spend_orchard(actions: &Vec<CompactOrchardAction>, watched: &Vec<[u8; 32]>) -> (spent: Vec<OrchardSpend>)
    ensures
        spent@ == orchard_spent(watched@, actions@),
{
    let ghost all = Seq::new(
        actions@.len(),
        |i: int| orchard_spend_at(watched@, actions@[i].nullifier@, i),
    );
    let mut spent: Vec<OrchardSpend> = Vec::new();
    let mut i: usize = 0;
    while i < actions.len()
        invariant
            0 <= i <= actions.len(),
            all == Seq::new(
                actions@.len(),
                |i: int| orchard_spend_at(watched@, actions@[i].nullifier@, i),
            ),
            spent@ == collect_some(all.take(i as int)),
        decreases actions.len() - i,
    {
        proof {
            lemma_collect_push(all.take(i as int), all[i as int]);
            assert(all.take(i as int + 1) =~= all.take(i as int).push(all[i as int]));
        }
        let bytes: Option<[u8; 32]> = to_array(actions[i].nullifier.as_slice());
        if let Some(nf) = bytes {
            proof {
                lemma_array32(nf);
            }
            if orchard_nullifier_parses(&nf) && holds32(watched, &nf) {
                #[verifier::truncate]
                let index: u32 = i as u32;
                spent.push(OrchardSpend { index, nf });
            }
        }
        i = i + 1;
    }
    assert(all.take(i as int) =~= all);
    spent
}

/// The transparent output at `index`, where it pays one of the scripts.
pub open spec fn transparent_output_at(
    scripts: Seq<Seq<u8>>,
    txid: [u8; 32],
    vout: crate::proto::TxOut,
    index: int,
    height: u32,
) -> Option<TransparentOutputView> {
    if scripts.contains(vout.script_pub_key@) {
        Some(
            TransparentOutputView {
                outpoint: OutPoint { hash: txid, n: index as u32 },
                value: vout.value,
                script: vout.script_pub_key@,
                height,
            },
        )
    } else {
        None
    }
}

/// What a transaction's transparent outputs pay to the scripts.
pub open spec fn transparent_received(
    scripts: Seq<Seq<u8>>,
    txid: [u8; 32],
    vout: Seq<crate::proto::TxOut>,
    height: u32,
) -> Seq<TransparentOutputView> {
    collect_some(
        Seq::new(vout.len(), |i: int| transparent_output_at(scripts, txid, vout[i], i, height)),
    )
}

/// Whether no output that pays one of the scripts holds more money than can exist.
pub open spec fn values_valid(scripts: Seq<Seq<u8>>, vout: Seq<crate::proto::TxOut>) -> bool {
    forall|i: int|
        0 <= i < vout.len() && scripts.contains((#[trigger] vout[i]).script_pub_key@) ==> vout[i].value
            <= MAX_MONEY
}

/// Finds the transparent outputs that pay the scripts.
fn receive_transparent(
    vout: &Vec<crate::proto::TxOut>,
    scripts: &Vec<Vec<u8>>,
    txid: [u8; 32],
    height: u32,
) -> (received: Vec<TransparentOutput>)
    requires
        values_valid(byte_strings(scripts@), vout@),
    ensures
        received@.map_values(|o: TransparentOutput| o@) == transparent_received(
            byte_strings(scripts@),
            txid,
            vout@,
            height,
        ),
{
    let ghost known = byte_strings(scripts@);
    let ghost all = Seq::new(
        vout@.len(),
        |i: int| transparent_output_at(known, txid, vout@[i], i, height),
    );
    let mut received: Vec<TransparentOutput> = Vec::new();
    let mut i: usize = 0;
    while i < vout.len()
        invariant
            0 <= i <= vout.len(),
            known == byte_strings(scripts@),
            values_valid(known, vout@),
            all == Seq::new(
                vout@.len(),
                |i: int| transparent_output_at(known, txid, vout@[i], i, height),
            ),
            received@.map_values(|o: TransparentOutput| o@) == collect_some(all.take(i as int)),
        decreases vout.len() - i,
    {
        proof {
            lemma_collect_push(all.take(i as int), all[i as int]);
            assert(all.take(i as int + 1) =~= all.take(i as int).push(all[i as int]));
        }
        if holds_bytes(scripts, &vout[i].script_pub_key) {
            #[verifier::truncate]
            let n: u32 = i as u32;
            let value: u64 = zatoshis(vout[i].value).unwrap();
            let script_pubkey = copy_bytes(&vout[i].script_pub_key);
            let ghost before = received@;
            received.push(
                TransparentOutput {
                    outpoint: OutPoint { hash: txid, n },
                    txout: TxOut { value, script_pubkey },
                    height,
                },
            );
            assert(received@.map_values(|o: TransparentOutput| o@) =~= before.map_values(
                |o: TransparentOutput| o@,
            ).push(all[i as int]->0));
        }
        i = i + 1;
    }
    assert(all.take(i as int) =~= all);
    received
}

/// The transparent spend that an input is, where it spends one of the outpoints.
pub open spec fn transparent_spend_at(
    outpoints: Seq<OutPoint>,
    txid: [u8; 32],
    vin: CompactTxIn,
    height: u32,
) -> Option<TransparentSpend> {
    let outpoint = OutPoint { hash: array32(vin.prevout_txid@), n: vin.prevout_index };
    if vin.prevout_txid@.len() == 32 && outpoints.contains(outpoint) {
        Some(TransparentSpend { txid, outpoint, height })
    } else {
        None
    }
}

/// The outpoints among those given that a transaction's inputs spend.
pub open spec fn transparent_spent(
    outpoints: Seq<OutPoint>,
    txid: [u8; 32],
    vin: Seq<CompactTxIn>,
    height: u32,
) -> Seq<TransparentSpend> {
    collect_some(Seq::new(vin.len(), |i: int| transparent_spend_at(outpoints, txid, vin[i], height)))
}

/// Whether a list of outpoints holds `outpoint`.
pub fn holds_outpoint(outpoints: &Vec<OutPoint>, outpoint: &OutPoint) -> (found: bool)
    ensures
        found == outpoints@.contains(*outpoint),
{
    let mut i: usize = 0;
    while i < outpoints.len()
        invariant
            0 <= i <= outpoints.len(),
            forall|j: int| 0 <= j < i ==> outpoints[j] != *outpoint,
        decreases outpoints.len() - i,
    {
        if outpoints[i].n == outpoint.n && same32(&outpoints[i].hash, &outpoint.hash) {
            assert(outpoints@[i as int] == *outpoint);
            return true;
        }
        i = i + 1;
    }
    false
}

/// Finds the outpoints that a transaction's inputs spend.
fn spend_transparent(
    vin: &Vec<CompactTxIn>,
    outpoints: &Vec<OutPoint>,
    txid: [u8; 32],
    height: u32,
) -> (spent: Vec<TransparentSpend>)
    ensures
        spent@ == transparent_spent(outpoints@, txid, vin@, height),
{
    let ghost all = Seq::new(
        vin@.len(),
        |i: int| transparent_spend_at(outpoints@, txid, vin@[i], height),
    );
    let mut spent: Vec<TransparentSpend> = Vec::new();
    let mut i: usize = 0;
    while i < vin.len()
        invariant
            0 <= i <= vin.len(),
            all == Seq::new(
                vin@.len(),
                |i: int| transparent_spend_at(outpoints@, txid, vin@[i], height),
            ),
            spent@ == collect_some(all.take(i as int)),
        decreases vin.len() - i,
    {
        proof {
            lemma_collect_push(all.take(i as int), all[i as int]);
            assert(all.take(i as int + 1) =~= all.take(i as int).push(all[i as int]));
        }
        let bytes: Option<[u8; 32]> = to_array(vin[i].prevout_txid.as_slice());
        if let Some(hash) = bytes {
            proof {
                lemma_array32(hash);
            }
            let outpoint = OutPoint { hash, n: vin[i].prevout_index };
            if holds_outpoint(outpoints, &outpoint) {
                spent.push(TransparentSpend { txid, outpoint, height });
            }
        }
        i = i + 1;
    }
    assert(all.take(i as int) =~= all);
    spent
}

/// What is watched for while scanning.
pub struct Watch {
    /// The keys tried on Sapling outputs.
    pub sapling_keys: Seq<SaplingScanningKey>,
    /// The keys tried on Orchard and Ironwood actions.
    pub orchard_keys: Seq<OrchardScanningKey>,
    /// The account's transparent scripts, where it has transparent keys.
    pub scripts: Option<Seq<Seq<u8>>>,
    /// The nullifiers of its Sapling notes.
    pub sapling_nfs: Seq<[u8; 32]>,
    /// The nullifiers of its Orchard notes.
    pub orchard_nfs: Seq<[u8; 32]>,
    /// The nullifiers of its Ironwood notes.
    pub ironwood_nfs: Seq<[u8; 32]>,
    /// Its transparent outputs.
    pub outpoints: Seq<OutPoint>,
}

/// What a set of keys, scripts, nullifiers and outpoints watches for.
pub open spec fn watch_of(
    keys: ScanningKeys,
    scripts: Option<Seq<Seq<u8>>>,
    nullifiers: Nullifiers,
    outpoints: Seq<OutPoint>,
) -> Watch {
    Watch {
        sapling_keys: keys.sapling@,
        orchard_keys: keys.orchard@,
        scripts,
        sapling_nfs: nullifiers.sapling@,
        orchard_nfs: nullifiers.orchard@,
        ironwood_nfs: nullifiers.ironwood@,
        outpoints,
    }
}

/// The strings of an optional list.
pub open spec fn scripts_view(scripts: Option<&Vec<Vec<u8>>>) -> Option<Seq<Seq<u8>>> {
    match scripts {
        Some(list) => Some(byte_strings(list@)),
        None => None,
    }
}

/// Sizes of the Sapling, Orchard and Ironwood note commitment trees.
pub type TreeSizes = (nat, nat, nat);

/// Whether a transaction's id and index are well formed.
pub open spec fn tx_ok(tx: CompactTx) -> bool {
    tx.txid@.len() == 32 && tx.index <= u32::MAX
}

/// What a transaction does to the account, where its outputs start at the given tree
/// sizes.
pub open spec fn scanned_tx(
    watch: Watch,
    zip212: Zip212Enforcement,
    height: u32,
    tx: CompactTx,
    start: TreeSizes,
) -> WalletTxView {
    let txid = array32(tx.txid@);
    WalletTxView {
        txid,
        height,
        tx_index: tx.index as u32,
        sapling_outputs: sapling_received(watch.sapling_keys, zip212, tx.outputs@, start.0),
        sapling_spends: sapling_spent(watch.sapling_nfs, tx.spends@),
        orchard_outputs: orchard_received(watch.orchard_keys, tx.actions@, start.1),
        orchard_spends: orchard_spent(watch.orchard_nfs, tx.actions@),
        ironwood_outputs: ironwood_received(watch.orchard_keys, tx.ironwood_actions@, start.2),
        ironwood_spends: orchard_spent(watch.ironwood_nfs, tx.ironwood_actions@),
        transparent_outputs: match watch.scripts {
            Some(scripts) => transparent_received(scripts, txid, tx.vout@, height),
            None => Seq::empty(),
        },
        transparent_spends: match watch.scripts {
            Some(_) => transparent_spent(watch.outpoints, txid, tx.vin@, height),
            None => Seq::empty(),
        },
    }
}

/// Scans one transaction whose id and index were read.
fn scan_tx(
    tx: &CompactTx,
    txid: [u8; 32],
    tx_index: u32,
    keys: &ScanningKeys,
    scripts: Option<&Vec<Vec<u8>>>,
    zip212: Zip212Enforcement,
    height: u32,
    nullifiers: &Nullifiers,
    outpoints: &Vec<OutPoint>,
    start: (u32, u32, u32),
) -> (wtx: WalletTx)
    requires
        tx_ok(*tx),
        txid@ == tx.txid@,
        tx_index == tx.index,
        tx.outputs.len() <= u32::MAX,
        tx.actions.len() <= u32::MAX,
        tx.ironwood_actions.len() <= u32::MAX,
        scripts_view(scripts) matches Some(known) ==> values_valid(known, tx.vout@),
    ensures
        wtx@ == scanned_tx(
            watch_of(*keys, scripts_view(scripts), *nullifiers, outpoints@),
            zip212,
            height,
            *tx,
            (start.0 as nat, start.1 as nat, start.2 as nat),
        ),
        nullifiers_valid(wtx@.orchard_outputs),
        nullifiers_valid(wtx@.ironwood_outputs),
{
    proof {
        lemma_array32(txid);
    }
    let mut transparent_outputs: Vec<TransparentOutput> = Vec::new();
    let mut transparent_spends: Vec<TransparentSpend> = Vec::new();
    if let Some(known) = scripts {
        transparent_outputs = receive_transparent(&tx.vout, known, txid, height);
        transparent_spends = spend_transparent(&tx.vin, outpoints, txid, height);
    }
    let wtx = WalletTx {
        txid,
        height,
        tx_index,
        sapling_outputs: receive_sapling(&tx.outputs, keys, zip212, start.0),
        sapling_spends: spend_sapling(&tx.spends, &nullifiers.sapling),
        orchard_outputs: receive_orchard(&tx.actions, keys, start.1),
        orchard_spends: spend_orchard(&tx.actions, &nullifiers.orchard),
        ironwood_outputs: receive_ironwood(&tx.ironwood_actions, keys, start.2),
        ironwood_spends: spend_orchard(&tx.ironwood_actions, &nullifiers.ironwood),
        transparent_outputs,
        transparent_spends,
    };
    assert(wtx@.transparent_outputs =~= match scripts_view(scripts) {
        Some(known) => transparent_received(known, txid, tx.vout@, height),
        None => Seq::empty(),
    });
    assert(wtx@.transparent_spends =~= match scripts_view(scripts) {
        Some(_) => transparent_spent(outpoints@, txid, tx.vin@, height),
        None => Seq::empty(),
    });
    wtx
}

/// How many Sapling outputs the transactions hold.
pub open spec fn sapling_count(vtx: Seq<CompactTx>) -> nat
    decreases vtx.len(),
{
    if vtx.len() == 0 {
        0
    } else {
        sapling_count(vtx.drop_last()) + vtx.last().outputs@.len()
    }
}

/// How many Orchard actions the transactions hold.
pub open spec fn orchard_count(vtx: Seq<CompactTx>) -> nat
    decreases vtx.len(),
{
    if vtx.len() == 0 {
        0
    } else {
        orchard_count(vtx.drop_last()) + vtx.last().actions@.len()
    }
}

/// How many Ironwood actions the transactions hold.
pub open spec fn ironwood_count(vtx: Seq<CompactTx>) -> nat
    decreases vtx.len(),
{
    if vtx.len() == 0 {
        0
    } else {
        ironwood_count(vtx.drop_last()) + vtx.last().ironwood_actions@.len()
    }
}

/// How much the transactions add to each tree.
pub open spec fn counts(vtx: Seq<CompactTx>) -> TreeSizes {
    (sapling_count(vtx), orchard_count(vtx), ironwood_count(vtx))
}

/// The sum of two triples of sizes.
pub open spec fn grown(sizes: TreeSizes, by: TreeSizes) -> TreeSizes {
    (sizes.0 + by.0, sizes.1 + by.1, sizes.2 + by.2)
}

/// Whether every size fits in 32 bits.
pub open spec fn sizes_fit(sizes: TreeSizes) -> bool {
    sizes.0 <= u32::MAX && sizes.1 <= u32::MAX && sizes.2 <= u32::MAX
}

/// More transactions hold no fewer outputs, and the last one alone no more than all.
pub proof fn lemma_counts_grow(vtx: Seq<CompactTx>, n: int)
    requires
        0 <= n < vtx.len(),
    ensures
        counts(vtx.take(n + 1)) == grown(
            counts(vtx.take(n)),
            (
                vtx[n].outputs@.len(),
                vtx[n].actions@.len(),
                vtx[n].ironwood_actions@.len(),
            ),
        ),
        counts(vtx.take(n + 1)).0 <= counts(vtx).0,
        counts(vtx.take(n + 1)).1 <= counts(vtx).1,
        counts(vtx.take(n + 1)).2 <= counts(vtx).2,
    decreases vtx.len() - n,
{
    assert(vtx.take(n + 1).drop_last() =~= vtx.take(n));
    if n + 1 < vtx.len() {
        lemma_counts_grow(vtx, n + 1);
    } else {
        assert(vtx.take(n + 1) =~= vtx);
    }
}

/// The length of the longest prefix of well-formed transactions.
pub open spec fn good_prefix(vtx: Seq<CompactTx>) -> nat
    decreases vtx.len(),
{
    if vtx.len() == 0 {
        0
    } else {
        let before = good_prefix(vtx.drop_last());
        if before == vtx.len() - 1 && tx_ok(vtx.last()) {
            vtx.len()
        } else {
            before
        }
    }
}

/// The longest good prefix is the one before the first malformed transaction.
pub proof fn lemma_good_prefix(vtx: Seq<CompactTx>, n: int)
    requires
        0 <= n <= vtx.len(),
        forall|j: int| 0 <= j < n ==> tx_ok(#[trigger] vtx[j]),
        n < vtx.len() ==> !tx_ok(vtx[n]),
    ensures
        good_prefix(vtx) == n,
    decreases vtx.len(),
{
    if vtx.len() > 0 {
        let init = vtx.drop_last();
        assert forall|j: int| 0 <= j < n && j < init.len() implies tx_ok(#[trigger] init[j]) by {
            assert(init[j] == vtx[j]);
        }
        if n == vtx.len() {
            lemma_good_prefix(init, n - 1);
        } else {
            lemma_good_prefix(init, n);
        }
    }
}

/// The transaction at `j` of a block, where it does something to the account.
pub open spec fn kept_tx(
    watch: Watch,
    zip212: Zip212Enforcement,
    height: u32,
    vtx: Seq<CompactTx>,
    start: TreeSizes,
    j: int,
) -> Option<WalletTxView> {
    let wtx = scanned_tx(watch, zip212, height, vtx[j], grown(start, counts(vtx.take(j))));
    if wtx.is_bare() {
        None
    } else {
        Some(wtx)
    }
}

/// The first `n` transactions of a block that do something to the account.
pub open spec fn block_txs(
    watch: Watch,
    zip212: Zip212Enforcement,
    height: u32,
    vtx: Seq<CompactTx>,
    start: TreeSizes,
    n: nat,
) -> Seq<WalletTxView> {
    collect_some(Seq::new(n, |j: int| kept_tx(watch, zip212, height, vtx, start, j)))
}

/// The ids, heights and indices of the first `n` transactions of a block.
pub open spec fn block_ids(height: u32, vtx: Seq<CompactTx>, n: nat) -> Seq<([u8; 32], u32, u32)> {
    Seq::new(n, |j: int| (array32(vtx[j].txid@), height, vtx[j].index as u32))
}

/// Whether the tree sizes after a block are those that the block gives.
pub open spec fn sizes_agree(block: CompactBlock, height: u32, sizes: TreeSizes) -> Result<(), ScanError> {
    match block.chain_metadata {
        Some(meta) => if meta.sapling_commitment_tree_size != sizes.0 {
            Err(
                ScanError::TreeSizeMismatch {
                    pool: ShieldedPool::Sapling,
                    at_height: height,
                    given: meta.sapling_commitment_tree_size,
                    computed: sizes.0 as u32,
                },
            )
        } else if meta.orchard_commitment_tree_size != sizes.1 {
            Err(
                ScanError::TreeSizeMismatch {
                    pool: ShieldedPool::Orchard,
                    at_height: height,
                    given: meta.orchard_commitment_tree_size,
                    computed: sizes.1 as u32,
                },
            )
        } else if meta.ironwood_commitment_tree_size != sizes.2 {
            Err(
                ScanError::TreeSizeMismatch {
                    pool: ShieldedPool::Ironwood,
                    at_height: height,
                    given: meta.ironwood_commitment_tree_size,
                    computed: sizes.2 as u32,
                },
            )
        } else {
            Ok(())
        },
        None => Ok(()),
    }
}

/// Whether a block scans: every transaction is well formed, and the tree sizes after it
/// are those that it gives.
pub open spec fn block_outcome(block: CompactBlock, start: TreeSizes) -> Result<(), ScanError> {
    if block.height > u32::MAX {
        Err(ScanError::InvalidCompactBlock(0))
    } else if good_prefix(block.vtx@) < block.vtx@.len() {
        Err(ScanError::InvalidCompactBlock(block.height as u32))
    } else {
        sizes_agree(block, block.height as u32, grown(start, counts(block.vtx@)))
    }
}

/// How many transactions of a block are gone through.
pub open spec fn block_progress(block: CompactBlock) -> nat {
    if block.height > u32::MAX {
        0
    } else {
        good_prefix(block.vtx@)
    }
}

/// Scans one block, given the account's transparent scripts: appends to `txs` every
/// transaction that does something to the account, and to `all_txs` every transaction.
pub fn scan_block(
    block: &CompactBlock,
    keys: &ScanningKeys,
    scripts: Option<&Vec<Vec<u8>>>,
    network: Network,
    nullifiers: &Nullifiers,
    outpoints: &Vec<OutPoint>,
    start_sizes: (u32, u32, u32),
    txs: &mut Vec<WalletTx>,
    all_txs: &mut Vec<([u8; 32], u32, u32)>,
) -> (result: Result<(), ScanError>)
    requires
        sizes_fit(
            grown(
                (start_sizes.0 as nat, start_sizes.1 as nat, start_sizes.2 as nat),
                counts(block.vtx@),
            ),
        ),
        scripts_view(scripts) matches Some(known) ==> forall|j: int|
            0 <= j < block.vtx@.len() ==> values_valid(known, (#[trigger] block.vtx@[j]).vout@),
    ensures
        result == block_outcome(
            *block,
            (start_sizes.0 as nat, start_sizes.1 as nat, start_sizes.2 as nat),
        ),
        tx_views(final(txs)@) == tx_views(old(txs)@) + block_txs(
            watch_of(*keys, scripts_view(scripts), *nullifiers, outpoints@),
            zip212_at(network, block.height as u32),
            block.height as u32,
            block.vtx@,
            (start_sizes.0 as nat, start_sizes.1 as nat, start_sizes.2 as nat),
            block_progress(*block),
        ),
        final(all_txs)@ == old(all_txs)@ + block_ids(
            block.height as u32,
            block.vtx@,
            block_progress(*block),
        ),
        all_nullifiers_valid(tx_views(old(txs)@)) ==> all_nullifiers_valid(tx_views(final(txs)@)),
{
    let ghost start: TreeSizes = (
        start_sizes.0 as nat,
        start_sizes.1 as nat,
        start_sizes.2 as nat,
    );
    let ghost watch = watch_of(*keys, scripts_view(scripts), *nullifiers, outpoints@);
    let ghost vtx = block.vtx@;
    if block.height > u32::MAX as u64 {
        assert(tx_views(txs@) + block_txs(
            watch,
            zip212_at(network, block.height as u32),
            block.height as u32,
            vtx,
            start,
            0,
        ) =~= tx_views(txs@));
        assert(all_txs@ + block_ids(block.height as u32, vtx, 0) =~= all_txs@);
        return Err(ScanError::InvalidCompactBlock(0));
    }
    let height: u32 = block.height as u32;
    let zip212 = zip212_enforcement(network, height);
    let ghost all = Seq::new(vtx.len(), |j: int| kept_tx(watch, zip212, height, vtx, start, j));
    let ghost txs0 = tx_views(txs@);
    let ghost all0 = all_txs@;
    let mut sapling_pos: u32 = start_sizes.0;
    let mut orchard_pos: u32 = start_sizes.1;
    let mut ironwood_pos: u32 = start_sizes.2;
    let mut j: usize = 0;
    assert(vtx.take(0) =~= Seq::empty());
    assert(all.take(0) =~= Seq::empty());
    assert(txs0 + collect_some(all.take(0)) =~= txs0);
    assert(all0 + block_ids(height, vtx, 0) =~= all0);
    while j < block.vtx.len()
        invariant
            0 <= j <= block.vtx.len(),
            vtx == block.vtx@,
            block.height <= u32::MAX,
            height == block.height as u32,
            zip212 == zip212_at(network, height),
            watch == watch_of(*keys, scripts_view(scripts), *nullifiers, outpoints@),
            start == (start_sizes.0 as nat, start_sizes.1 as nat, start_sizes.2 as nat),
            sizes_fit(grown(start, counts(vtx))),
            scripts_view(scripts) matches Some(known) ==> forall|k: int|
                0 <= k < vtx.len() ==> values_valid(known, (#[trigger] vtx[k]).vout@),
            forall|k: int| 0 <= k < j ==> tx_ok(#[trigger] vtx[k]),
            (sapling_pos as nat, orchard_pos as nat, ironwood_pos as nat) == grown(
                start,
                counts(vtx.take(j as int)),
            ),
            all == Seq::new(vtx.len(), |k: int| kept_tx(watch, zip212, height, vtx, start, k)),
            tx_views(txs@) == txs0 + collect_some(all.take(j as int)),
            all_txs@ == all0 + block_ids(height, vtx, j as nat),
            txs0 == tx_views(old(txs)@),
            all0 == old(all_txs)@,
            all_nullifiers_valid(txs0) ==> all_nullifiers_valid(tx_views(txs@)),
        decreases block.vtx.len() - j,
    {
        let tx = &block.vtx[j];
        proof {
            lemma_counts_grow(vtx, j as int);
            lemma_collect_push(all.take(j as int), all[j as int]);
            assert(all.take(j as int + 1) =~= all.take(j as int).push(all[j as int]));
        }
        let bytes: Option<[u8; 32]> = to_array(tx.txid.as_slice());
        if bytes.is_none() || tx.index > u32::MAX as u64 {
            proof {
                lemma_good_prefix(vtx, j as int);
                assert(Seq::new(j as nat, |k: int| kept_tx(watch, zip212, height, vtx, start, k))
                    =~= all.take(j as int));
            }
            return Err(ScanError::InvalidCompactBlock(height));
        }
        let txid: [u8; 32] = bytes.unwrap();
        let tx_index: u32 = tx.index as u32;
        proof {
            lemma_array32(txid);
        }
        all_txs.push((txid, height, tx_index));
        assert(all_txs@ =~= all0 + block_ids(height, vtx, j as nat + 1));
        let wtx = scan_tx(
            tx,
            txid,
            tx_index,
            keys,
            scripts,
            zip212,
            height,
            nullifiers,
            outpoints,
            (sapling_pos, orchard_pos, ironwood_pos),
        );
        sapling_pos = sapling_pos + tx.outputs.len() as u32;
        orchard_pos = orchard_pos + tx.actions.len() as u32;
        ironwood_pos = ironwood_pos + tx.ironwood_actions.len() as u32;
        let ghost before = txs@;
        if wtx.sapling_outputs.len() > 0 || wtx.sapling_spends.len() > 0 || wtx.orchard_outputs.len()
            > 0 || wtx.orchard_spends.len() > 0 || wtx.ironwood_outputs.len() > 0
            || wtx.ironwood_spends.len() > 0 || wtx.transparent_outputs.len() > 0
            || wtx.transparent_spends.len() > 0 {
            txs.push(wtx);
            assert(tx_views(txs@) =~= tx_views(before).push(wtx@));
            assert(tx_views(txs@) =~= txs0 + collect_some(all.take(j as int + 1)));
        } else {
            assert(wtx@.is_bare());
        }
        j = j + 1;
    }
    proof {
        lemma_good_prefix(vtx, vtx.len() as int);
        assert(vtx.take(vtx.len() as int) =~= vtx);
        assert(all.take(vtx.len() as int) =~= all);
        assert(Seq::new(vtx.len(), |k: int| kept_tx(watch, zip212, height, vtx, start, k)) =~= all);
    }
    if let Some(meta) = &block.chain_metadata {
        if meta.sapling_commitment_tree_size != sapling_pos {
            return Err(
                ScanError::TreeSizeMismatch {
                    pool: ShieldedPool::Sapling,
                    at_height: height,
                    given: meta.sapling_commitment_tree_size,
                    computed: sapling_pos,
                },
            );
        }
        if meta.orchard_commitment_tree_size != orchard_pos {
            return Err(
                ScanError::TreeSizeMismatch {
                    pool: ShieldedPool::Orchard,
                    at_height: height,
                    given: meta.orchard_commitment_tree_size,
                    computed: orchard_pos,
                },
            );
        }
        if meta.ironwood_commitment_tree_size != ironwood_pos {
            return Err(
                ScanError::TreeSizeMismatch {
                    pool: ShieldedPool::Ironwood,
                    at_height: height,
                    given: meta.ironwood_commitment_tree_size,
                    computed: ironwood_pos,
                },
            );
        }
    }
    Ok(())
}

/// The locking script of an optional address.
pub open spec fn script_list(address: Option<TransparentAddress>) -> Seq<Seq<u8>> {
    match address {
        Some(a) => seq![script_of(a)],
        None => Seq::empty(),
    }
}

/// The locking scripts of the first `n` addresses of an external key and, where there
/// is one, an internal key. Addresses that cannot be derived are skipped.
pub open spec fn scripts_below(external: Seq<u8>, internal: Option<Seq<u8>>, n: nat) -> Seq<Seq<u8>>
    decreases n,
{
    if n == 0 {
        Seq::empty()
    } else {
        scripts_below(external, internal, (n - 1) as nat) + script_list(
            external_address_of(external, (n - 1) as u32),
        ) + match internal {
            Some(key) => script_list(internal_address_of(key, (n - 1) as u32)),
            None => Seq::empty(),
        }
    }
}

impl TransparentScanningKey {
    /// The encodings of the two keys.
    pub open spec fn view(&self) -> (Seq<u8>, Option<Seq<u8>>) {
        (
            self.external@,
            match self.internal {
                Some(key) => Some(key@),
                None => None,
            },
        )
    }
}

/// The locking scripts that the keys watch for.
pub open spec fn watched_scripts(transparent: Option<&TransparentScanningKey>) -> Option<Seq<Seq<u8>>> {
    match transparent {
        Some(key) => Some(scripts_below(key@.0, key@.1, TRANSPARENT_GAP as nat)),
        None => None,
    }
}

/// Derives the locking scripts of the first `gap_limit` addresses of each key.
pub fn derive_transparent_scripts(key: &TransparentScanningKey, gap_limit: u32) -> (scripts: Vec<Vec<u8>>)
    requires
        gap_limit <= CHILD_INDEX_END,
    ensures
        byte_strings(scripts@) == scripts_below(key@.0, key@.1, gap_limit as nat),
{
    let mut scripts: Vec<Vec<u8>> = Vec::new();
    let mut i: u32 = 0;
    assert(byte_strings(scripts@) =~= scripts_below(key@.0, key@.1, 0));
    while i < gap_limit
        invariant
            0 <= i <= gap_limit <= CHILD_INDEX_END,
            byte_strings(scripts@) == scripts_below(key@.0, key@.1, i as nat),
        decreases gap_limit - i,
    {
        let ghost before = byte_strings(scripts@);
        if let Some(address) = external_address(&key.external, i) {
            let script = address_script(&address);
            let ghost list = scripts@;
            scripts.push(script);
            assert(byte_strings(scripts@) =~= byte_strings(list).push(script@));
        }
        let ghost external = script_list(external_address_of(key@.0, i));
        assert(byte_strings(scripts@) =~= before + external);
        if let Some(internal) = &key.internal {
            if let Some(address) = internal_address(internal, i) {
                let script = address_script(&address);
                let ghost list = scripts@;
                scripts.push(script);
                assert(byte_strings(scripts@) =~= byte_strings(list).push(script@));
            }
        }
        assert(byte_strings(scripts@) =~= before + external + match key@.1 {
            Some(k) => script_list(internal_address_of(k, i)),
            None => Seq::empty(),
        });
        i = i + 1;
    }
    scripts
}

/// Counts the outputs and actions of some transactions.
fn count_outputs(vtx: &Vec<CompactTx>) -> (totals: (usize, usize, usize))
    requires
        counts(vtx@).0 <= usize::MAX,
        counts(vtx@).1 <= usize::MAX,
        counts(vtx@).2 <= usize::MAX,
    ensures
        counts(vtx@) == (totals.0 as nat, totals.1 as nat, totals.2 as nat),
{
    let mut sapling: usize = 0;
    let mut orchard: usize = 0;
    let mut ironwood: usize = 0;
    let mut j: usize = 0;
    assert(vtx@.take(0) =~= Seq::empty());
    while j < vtx.len()
        invariant
            0 <= j <= vtx.len(),
            counts(vtx@).0 <= usize::MAX,
            counts(vtx@).1 <= usize::MAX,
            counts(vtx@).2 <= usize::MAX,
            counts(vtx@.take(j as int)) == (sapling as nat, orchard as nat, ironwood as nat),
        decreases vtx.len() - j,
    {
        proof {
            lemma_counts_grow(vtx@, j as int);
        }
        sapling = sapling + vtx[j].outputs.len();
        orchard = orchard + vtx[j].actions.len();
        ironwood = ironwood + vtx[j].ironwood_actions.len();
        j = j + 1;
    }
    assert(vtx@.take(j as int) =~= vtx@);
    (sapling, orchard, ironwood)
}

/// The size of a tree before a block: what the block gives for after it, less what the
/// block adds; and 0 where the block gives nothing and the pool is not active yet.
pub open spec fn initial_size(
    network: Network,
    height: u32,
    pool: ShieldedPool,
    final_size: u32,
    count: nat,
    upgrade: NetworkUpgrade,
) -> Result<u32, ScanError> {
    if final_size > 0 {
        let added = if count <= u32::MAX {
            count
        } else {
            0
        };
        if added <= final_size {
            Ok((final_size - added) as u32)
        } else {
            Err(ScanError::TreeSizeUnknown(pool, height))
        }
    } else if height < activation_of(network, upgrade) {
        Ok(0)
    } else {
        Err(ScanError::TreeSizeUnknown(pool, height))
    }
}

/// The size of one tree before a block.
fn initial_tree_size(
    network: Network,
    height: u32,
    pool: ShieldedPool,
    final_size: u32,
    count: usize,
    upgrade: NetworkUpgrade,
) -> (size: Result<u32, ScanError>)
    ensures
        size == initial_size(network, height, pool, final_size, count as nat, upgrade),
{
    if final_size > 0 {
        let added: u32 = if count <= u32::MAX as usize {
            count as u32
        } else {
            0
        };
        return match final_size.checked_sub(added) {
            Some(size) => Ok(size),
            None => Err(ScanError::TreeSizeUnknown(pool, height)),
        };
    }
    match activation_height(network, upgrade) {
        Some(activation) => if height < activation {
            Ok(0)
        } else {
            Err(ScanError::TreeSizeUnknown(pool, height))
        },
        None => Ok(0),
    }
}

/// The tree sizes before a block.
pub open spec fn initial_sizes(network: Network, height: u32, block: CompactBlock) -> Result<
    (u32, u32, u32),
    ScanError,
> {
    let (s, o, i) = match block.chain_metadata {
        Some(m) => (
            m.sapling_commitment_tree_size,
            m.orchard_commitment_tree_size,
            m.ironwood_commitment_tree_size,
        ),
        None => (0u32, 0u32, 0u32),
    };
    let added = counts(block.vtx@);
    let sapling = initial_size(
        network,
        height,
        ShieldedPool::Sapling,
        s,
        added.0,
        NetworkUpgrade::Sapling,
    );
    let orchard = initial_size(
        network,
        height,
        ShieldedPool::Orchard,
        o,
        added.1,
        NetworkUpgrade::Nu5,
    );
    let ironwood = initial_size(
        network,
        height,
        ShieldedPool::Ironwood,
        i,
        added.2,
        NetworkUpgrade::Nu6_3,
    );
    match (sapling, orchard, ironwood) {
        (Err(e), _, _) => Err(e),
        (_, Err(e), _) => Err(e),
        (_, _, Err(e)) => Err(e),
        (Ok(s), Ok(o), Ok(i)) => Ok((s, o, i)),
    }
}

/// The tree sizes before a block, from the sizes that it gives for after it.
pub fn initial_tree_sizes(network: Network, height: u32, block: &CompactBlock) -> (sizes: Result<
    (u32, u32, u32),
    ScanError,
>)
    requires
        counts(block.vtx@).0 <= usize::MAX,
        counts(block.vtx@).1 <= usize::MAX,
        counts(block.vtx@).2 <= usize::MAX,
    ensures
        sizes == initial_sizes(network, height, *block),
{
    let (s, o, i) = match &block.chain_metadata {
        Some(m) => (
            m.sapling_commitment_tree_size,
            m.orchard_commitment_tree_size,
            m.ironwood_commitment_tree_size,
        ),
        None => (0u32, 0u32, 0u32),
    };
    let (sapling_count, orchard_count, ironwood_count) = count_outputs(&block.vtx);
    let sapling = match initial_tree_size(
        network,
        height,
        ShieldedPool::Sapling,
        s,
        sapling_count,
        NetworkUpgrade::Sapling,
    ) {
        Ok(size) => size,
        Err(e) => return Err(e),
    };
    let orchard = match initial_tree_size(
        network,
        height,
        ShieldedPool::Orchard,
        o,
        orchard_count,
        NetworkUpgrade::Nu5,
    ) {
        Ok(size) => size,
        Err(e) => return Err(e),
    };
    let ironwood = match initial_tree_size(
        network,
        height,
        ShieldedPool::Ironwood,
        i,
        ironwood_count,
        NetworkUpgrade::Nu6_3,
    ) {
        Ok(size) => size,
        Err(e) => return Err(e),
    };
    Ok((sapling, orchard, ironwood))
}

/// The tree sizes after a block: those that it gives or, where it gives none, what it
/// adds.
pub open spec fn final_sizes(block: CompactBlock) -> TreeSizes {
    match block.chain_metadata {
        Some(m) => (
            m.sapling_commitment_tree_size as nat,
            m.orchard_commitment_tree_size as nat,
            m.ironwood_commitment_tree_size as nat,
        ),
        None => counts(block.vtx@),
    }
}

/// The tree sizes after a block.
pub fn final_tree_sizes(block: &CompactBlock) -> (sizes: (u32, u32, u32))
    requires
        block.chain_metadata is None ==> sizes_fit(counts(block.vtx@)),
    ensures
        (sizes.0 as nat, sizes.1 as nat, sizes.2 as nat) == final_sizes(*block),
{
    match &block.chain_metadata {
        Some(meta) => (
            meta.sapling_commitment_tree_size,
            meta.orchard_commitment_tree_size,
            meta.ironwood_commitment_tree_size,
        ),
        None => {
            let (s, o, i) = count_outputs(&block.vtx);
            (s as u32, o as u32, i as u32)
        },
    }
}

/// Whether a block follows the one before it.
pub open spec fn link_outcome(prev: Option<(u32, [u8; 32])>, block: CompactBlock) -> Result<
    (),
    ScanError,
> {
    let height = block.height as u32;
    match prev {
        Some((prev_height, prev_hash)) => if height != (if prev_height < u32::MAX {
            prev_height + 1
        } else {
            u32::MAX as int
        }) {
            Err(ScanError::BlockHeightDiscontinuity { prev_height, new_height: height })
        } else if block.prev_hash@ != prev_hash@ {
            Err(ScanError::PrevHashMismatch(height))
        } else {
            Ok(())
        },
        None => Ok(()),
    }
}

/// What scanning some blocks finds: the transactions that do something to the account,
/// and every transaction.
pub type Found = (Seq<WalletTxView>, Seq<([u8; 32], u32, u32)>);

/// What scanning one more block finds, after a block of the given height and hash and
/// at the given tree sizes, where they are known.
pub open spec fn scanned_block(
    watch: Watch,
    network: Network,
    block: CompactBlock,
    prev: Option<(u32, [u8; 32])>,
    sizes: Option<TreeSizes>,
) -> Result<Found, ScanError> {
    let height = block.height as u32;
    if block.height > u32::MAX {
        Err(ScanError::InvalidCompactBlock(0))
    } else if block.hash@.len() != 32 {
        Err(ScanError::InvalidCompactBlock(height))
    } else {
        match link_outcome(prev, block) {
            Err(e) => Err(e),
            Ok(_) => {
                let start = match sizes {
                    Some(known) => Ok::<TreeSizes, ScanError>(known),
                    None => match initial_sizes(network, height, block) {
                        Ok((s, o, i)) => Ok((s as nat, o as nat, i as nat)),
                        Err(e) => Err(e),
                    },
                };
                match start {
                    Err(e) => Err(e),
                    Ok(start) => match block_outcome(block, start) {
                        Err(e) => Err(e),
                        Ok(_) => Ok(
                            (
                                block_txs(
                                    watch,
                                    zip212_at(network, height),
                                    height,
                                    block.vtx@,
                                    start,
                                    block.vtx@.len(),
                                ),
                                block_ids(height, block.vtx@, block.vtx@.len()),
                            ),
                        ),
                    },
                }
            },
        }
    }
}

/// The height and hash of the block before the one at `i`.
pub open spec fn block_before(
    blocks: Seq<CompactBlock>,
    prior: Option<(u32, [u8; 32])>,
    i: int,
) -> Option<(u32, [u8; 32])> {
    if i == 0 {
        prior
    } else {
        Some((blocks[i - 1].height as u32, array32(blocks[i - 1].hash@)))
    }
}

/// The tree sizes before the block at `i`, as the block before it tells them.
pub open spec fn sizes_before(blocks: Seq<CompactBlock>, i: int) -> Option<TreeSizes> {
    if i == 0 {
        None
    } else {
        Some(final_sizes(blocks[i - 1]))
    }
}

/// What scanning the blocks in turn finds, up to the first error.
pub open spec fn scanned_blocks(
    watch: Watch,
    network: Network,
    blocks: Seq<CompactBlock>,
    prior: Option<(u32, [u8; 32])>,
) -> Result<Found, ScanError>
    decreases blocks.len(),
{
    if blocks.len() == 0 {
        Ok((Seq::empty(), Seq::empty()))
    } else {
        let i = blocks.len() - 1;
        match scanned_blocks(watch, network, blocks.drop_last(), prior) {
            Err(e) => Err(e),
            Ok((txs, ids)) => match scanned_block(
                watch,
                network,
                blocks[i],
                block_before(blocks, prior, i),
                sizes_before(blocks, i),
            ) {
                Err(e) => Err(e),
                Ok((more_txs, more_ids)) => Ok((txs + more_txs, ids + more_ids)),
            },
        }
    }
}

/// An error in the first blocks is the error of all.
proof fn lemma_scan_error(
    watch: Watch,
    network: Network,
    blocks: Seq<CompactBlock>,
    prior: Option<(u32, [u8; 32])>,
    n: int,
)
    requires
        0 <= n <= blocks.len(),
        scanned_blocks(watch, network, blocks.take(n), prior) is Err,
    ensures
        scanned_blocks(watch, network, blocks, prior) == scanned_blocks(
            watch,
            network,
            blocks.take(n),
            prior,
        ),
    decreases blocks.len(),
{
    if n == blocks.len() {
        assert(blocks.take(n) =~= blocks);
    } else {
        assert(blocks.drop_last().take(n) =~= blocks.take(n));
        lemma_scan_error(watch, network, blocks.drop_last(), prior, n);
    }
}

/// Whether the tree sizes that scanning the blocks counts up to fit in 32 bits.
pub open spec fn blocks_fit(blocks: Seq<CompactBlock>) -> bool {
    &&& forall|i: int| 0 <= i < blocks.len() ==> sizes_fit(counts((#[trigger] blocks[i]).vtx@))
    &&& forall|i: int|
        0 < i < blocks.len() ==> sizes_fit(
            grown(final_sizes(blocks[i - 1]), counts((#[trigger] blocks[i]).vtx@)),
        )
}

/// Whether no output that pays one of the scripts holds more money than can exist.
pub open spec fn blocks_valid(scripts: Option<Seq<Seq<u8>>>, blocks: Seq<CompactBlock>) -> bool {
    scripts matches Some(known) ==> forall|i: int, j: int|
        0 <= i < blocks.len() && 0 <= j < blocks[i].vtx@.len() ==> values_valid(
            known,
            (#[trigger] blocks[i].vtx@[j]).vout@,
        )
}

/// The sizes before a block never exceed those that it gives for after it.
proof fn lemma_initial_fit(network: Network, height: u32, block: CompactBlock)
    requires
        sizes_fit(counts(block.vtx@)),
        initial_sizes(network, height, block) is Ok,
    ensures
        ({
            let (s, o, i) = initial_sizes(network, height, block)->Ok_0;
            sizes_fit(grown((s as nat, o as nat, i as nat), counts(block.vtx@)))
        }),
{
}

/// Scans blocks in turn, given the account's transparent scripts.
pub fn scan_compact_scripts(
    blocks: &Vec<CompactBlock>,
    keys: &ScanningKeys,
    scripts: Option<&Vec<Vec<u8>>>,
    network: Network,
    nullifiers: &Nullifiers,
    outpoints: &Vec<OutPoint>,
    prior: Option<(u32, [u8; 32])>,
) -> (result: Result<(Vec<WalletTx>, Vec<([u8; 32], u32, u32)>), ScanError>)
    requires
        blocks_fit(blocks@),
        blocks_valid(scripts_view(scripts), blocks@),
    ensures
        match result {
            Ok((txs, all_txs)) => scanned_blocks(
                watch_of(*keys, scripts_view(scripts), *nullifiers, outpoints@),
                network,
                blocks@,
                prior,
            ) == Ok::<Found, ScanError>((tx_views(txs@), all_txs@)),
            Err(e) => scanned_blocks(
                watch_of(*keys, scripts_view(scripts), *nullifiers, outpoints@),
                network,
                blocks@,
                prior,
            ) == Err::<Found, ScanError>(e),
        },
        result matches Ok(found) ==> all_nullifiers_valid(tx_views(found.0@)),
{
    let ghost watch = watch_of(*keys, scripts_view(scripts), *nullifiers, outpoints@);
    let mut txs: Vec<WalletTx> = Vec::new();
    let mut all_txs: Vec<([u8; 32], u32, u32)> = Vec::new();
    let mut prev = prior;
    let mut prev_tree_sizes: Option<(u32, u32, u32)> = None;
    let mut i: usize = 0;
    assert(tx_views(txs@) =~= Seq::empty());
    assert(blocks@.take(0) =~= Seq::empty());
    while i < blocks.len()
        invariant
            0 <= i <= blocks.len(),
            blocks_fit(blocks@),
            blocks_valid(scripts_view(scripts), blocks@),
            watch == watch_of(*keys, scripts_view(scripts), *nullifiers, outpoints@),
            prev == block_before(blocks@, prior, i as int),
            sizes_before(blocks@, i as int) == match prev_tree_sizes {
                Some((s, o, w)) => Some((s as nat, o as nat, w as nat)),
                None => None,
            },
            scanned_blocks(watch, network, blocks@.take(i as int), prior) == Ok::<
                Found,
                ScanError,
            >((tx_views(txs@), all_txs@)),
            all_nullifiers_valid(tx_views(txs@)),
        decreases blocks.len() - i,
    {
        let block = &blocks[i];
        let ghost step = scanned_block(
            watch,
            network,
            *block,
            block_before(blocks@, prior, i as int),
            sizes_before(blocks@, i as int),
        );
        let ghost txs0 = tx_views(txs@);
        let ghost ids0 = all_txs@;
        proof {
            let upto = blocks@.take(i as int + 1);
            assert(upto.drop_last() =~= blocks@.take(i as int));
            assert(block_before(upto, prior, i as int) == block_before(blocks@, prior, i as int));
            assert(sizes_before(upto, i as int) == sizes_before(blocks@, i as int));
            if step is Err {
                lemma_scan_error(watch, network, blocks@, prior, i as int + 1);
            }
            assert(sizes_fit(counts(blocks@[i as int].vtx@)));
        }
        if block.height > u32::MAX as u64 {
            return Err(ScanError::InvalidCompactBlock(0));
        }
        let height: u32 = block.height as u32;
        let hash: [u8; 32] = match to_array(block.hash.as_slice()) {
            Some(hash) => hash,
            None => return Err(ScanError::InvalidCompactBlock(height)),
        };
        proof {
            lemma_array32(hash);
        }
        if let Some((prev_height, prev_hash)) = prev {
            if height != prev_height.saturating_add(1) {
                return Err(
                    ScanError::BlockHeightDiscontinuity { prev_height, new_height: height },
                );
            }
            if !same_bytes(block.prev_hash.as_slice(), &prev_hash) {
                return Err(ScanError::PrevHashMismatch(height));
            }
        }
        let start = match prev_tree_sizes {
            Some(sizes) => sizes,
            None => {
                proof {
                    if initial_sizes(network, height, *block) is Ok {
                        lemma_initial_fit(network, height, *block);
                    }
                }
                match initial_tree_sizes(network, height, block) {
                    Ok(sizes) => sizes,
                    Err(e) => return Err(e),
                }
            },
        };
        proof {
            assert(block_progress(*block) == good_prefix(block.vtx@));
        }
        match scan_block(
            block,
            keys,
            scripts,
            network,
            nullifiers,
            outpoints,
            start,
            &mut txs,
            &mut all_txs,
        ) {
            Ok(()) => {},
            Err(e) => return Err(e),
        }
        proof {
            lemma_prefix_bound(block.vtx@);
            assert(block_progress(*block) == block.vtx@.len());
        }
        prev_tree_sizes = Some(final_tree_sizes(block));
        prev = Some((height, hash));
        i = i + 1;
    }
    assert(blocks@.take(i as int) =~= blocks@);
    Ok((txs, all_txs))
}

/// A good prefix is no longer than the whole.
proof fn lemma_prefix_bound(vtx: Seq<CompactTx>)
    ensures
        good_prefix(vtx) <= vtx.len(),
    decreases vtx.len(),
{
    if vtx.len() > 0 {
        lemma_prefix_bound(vtx.drop_last());
    }
}

/// Scans blocks in turn for what belongs to the keys: the transactions that do
/// something to the account, and every transaction. The first block must follow
/// `prior`, where there is one.
pub fn scan_compact(
    blocks: &Vec<CompactBlock>,
    keys: &ScanningKeys,
    transparent: Option<&TransparentScanningKey>,
    network: Network,
    nullifiers: &Nullifiers,
    outpoints: &Vec<OutPoint>,
    prior: Option<(u32, [u8; 32])>,
) -> (result: Result<(Vec<WalletTx>, Vec<([u8; 32], u32, u32)>), ScanError>)
    requires
        blocks_fit(blocks@),
        blocks_valid(watched_scripts(transparent), blocks@),
    ensures
        match result {
            Ok((txs, all_txs)) => scanned_blocks(
                watch_of(*keys, watched_scripts(transparent), *nullifiers, outpoints@),
                network,
                blocks@,
                prior,
            ) == Ok::<Found, ScanError>((tx_views(txs@), all_txs@)),
            Err(e) => scanned_blocks(
                watch_of(*keys, watched_scripts(transparent), *nullifiers, outpoints@),
                network,
                blocks@,
                prior,
            ) == Err::<Found, ScanError>(e),
        },
        result matches Ok(found) ==> all_nullifiers_valid(tx_views(found.0@)),
{
    match transparent {
        Some(key) => {
            let scripts = derive_transparent_scripts(key, TRANSPARENT_GAP);
            scan_compact_scripts(
                blocks,
                keys,
                Some(&scripts),
                network,
                nullifiers,
                outpoints,
                prior,
            )
        },
        None => scan_compact_scripts(blocks, keys, None, network, nullifiers, outpoints, prior),
    }
}

/// The outputs and actions of a block, where no count exceeds 32 bits.
fn fit_counts(block: &CompactBlock) -> (n: Option<(u32, u32, u32)>)
    ensures
        n is Some == sizes_fit(counts(block.vtx@)),
        n matches Some(c) ==> counts(block.vtx@) == (c.0 as nat, c.1 as nat, c.2 as nat),
{
    let mut n: (u32, u32, u32) = (0, 0, 0);
    let mut j: usize = 0;
    assert(block.vtx@.take(0) =~= Seq::empty());
    while j < block.vtx.len()
        invariant
            0 <= j <= block.vtx.len(),
            counts(block.vtx@.take(j as int)) == (n.0 as nat, n.1 as nat, n.2 as nat),
        decreases block.vtx.len() - j,
    {
        proof {
            lemma_counts_grow(block.vtx@, j as int);
        }
        let tx = &block.vtx[j];
        let (s, o, i) = (tx.outputs.len(), tx.actions.len(), tx.ironwood_actions.len());
        if s as u64 > (u32::MAX - n.0) as u64 || o as u64 > (u32::MAX - n.1) as u64 || i as u64 > (
        u32::MAX - n.2) as u64 {
            return None;
        }
        n = (n.0 + s as u32, n.1 + o as u32, n.2 + i as u32);
        j = j + 1;
    }
    assert(block.vtx@.take(j as int) =~= block.vtx@);
    Some(n)
}

/// Whether the tree sizes that scanning the blocks counts up to fit in 32 bits, which
/// scanning them asks for.
pub fn sizes_checked(blocks: &Vec<CompactBlock>) -> (fit: bool)
    ensures
        fit == blocks_fit(blocks@),
{
    let mut i: usize = 0;
    while i < blocks.len()
        invariant
            0 <= i <= blocks.len(),
            forall|m: int| 0 <= m < i ==> sizes_fit(counts((#[trigger] blocks@[m]).vtx@)),
            forall|m: int|
                0 < m < i ==> sizes_fit(
                    grown(final_sizes(blocks@[m - 1]), counts((#[trigger] blocks@[m]).vtx@)),
                ),
        decreases blocks.len() - i,
    {
        let n = match fit_counts(&blocks[i]) {
            Some(n) => n,
            None => {
                assert(!sizes_fit(counts(blocks@[i as int].vtx@)));
                return false;
            },
        };
        if i > 0 {
            assert(sizes_fit(counts(blocks@[i - 1].vtx@)));
            let before = final_tree_sizes(&blocks[i - 1]);
            if n.0 > u32::MAX - before.0 || n.1 > u32::MAX - before.1 || n.2 > u32::MAX - before.2 {
                assert(!sizes_fit(
                    grown(final_sizes(blocks@[i - 1]), counts(blocks@[i as int].vtx@)),
                ));
                return false;
            }
        }
        i = i + 1;
    }
    true
}

/// Whether no output in the blocks that pays one of the scripts holds more money than
/// can exist.
pub fn values_checked(scripts: &Vec<Vec<u8>>, blocks: &Vec<CompactBlock>) -> (valid: bool)
    ensures
        valid == blocks_valid(Some(byte_strings(scripts@)), blocks@),
{
    let ghost known = byte_strings(scripts@);
    let mut i: usize = 0;
    while i < blocks.len()
        invariant
            0 <= i <= blocks.len(),
            known == byte_strings(scripts@),
            forall|m: int, n: int|
                0 <= m < i && 0 <= n < blocks@[m].vtx@.len() ==> values_valid(
                    known,
                    (#[trigger] blocks@[m].vtx@[n]).vout@,
                ),
        decreases blocks.len() - i,
    {
        let vtx = &blocks[i].vtx;
        let mut j: usize = 0;
        while j < vtx.len()
            invariant
                0 <= i < blocks.len(),
                0 <= j <= vtx.len(),
                vtx == blocks@[i as int].vtx,
                known == byte_strings(scripts@),
                forall|n: int|
                    0 <= n < j ==> values_valid(known, (#[trigger] blocks@[i as int].vtx@[n]).vout@),
            decreases vtx.len() - j,
        {
            let vout = &vtx[j].vout;
            let mut k: usize = 0;
            while k < vout.len()
                invariant
                    0 <= i < blocks.len(),
                    0 <= j < vtx.len(),
                    0 <= k <= vout.len(),
                    vtx == blocks@[i as int].vtx,
                    vout == vtx@[j as int].vout,
                    known == byte_strings(scripts@),
                    forall|n: int|
                        0 <= n < k && known.contains((#[trigger] vout[n]).script_pub_key@)
                            ==> vout[n].value <= MAX_MONEY,
                decreases vout.len() - k,
            {
                if zatoshis(vout[k].value).is_none() && holds_bytes(scripts, &vout[k].script_pub_key) {
                    proof {
                        assert(!values_valid(known, vout@)) by {
                            assert(known.contains(vout@[k as int].script_pub_key@));
                        }
                        assert(!values_valid(known, blocks@[i as int].vtx@[j as int].vout@));
                    }
                    return false;
                }
                k = k + 1;
            }
            assert(values_valid(known, blocks@[i as int].vtx@[j as int].vout@));
            j = j + 1;
        }
        i = i + 1;
    }
    true
}

/// Scans blocks in turn like `scan_compact`, unless an output that pays the account
/// holds more money than can exist: then there is no result.
pub fn scan_compact_checked(
    blocks: &Vec<CompactBlock>,
    keys: &ScanningKeys,
    transparent: Option<&TransparentScanningKey>,
    network: Network,
    nullifiers: &Nullifiers,
    outpoints: &Vec<OutPoint>,
    prior: Option<(u32, [u8; 32])>,
) -> (checked: Option<Result<(Vec<WalletTx>, Vec<([u8; 32], u32, u32)>), ScanError>>)
    requires
        blocks_fit(blocks@),
    ensures
        checked is Some == blocks_valid(watched_scripts(transparent), blocks@),
        checked matches Some(Ok((txs, all_txs))) ==> scanned_blocks(
            watch_of(*keys, watched_scripts(transparent), *nullifiers, outpoints@),
            network,
            blocks@,
            prior,
        ) == Ok::<Found, ScanError>((tx_views(txs@), all_txs@)),
        checked matches Some(Err(e)) ==> scanned_blocks(
            watch_of(*keys, watched_scripts(transparent), *nullifiers, outpoints@),
            network,
            blocks@,
            prior,
        ) == Err::<Found, ScanError>(e),
{
    if let Some(key) = transparent {
        let scripts = derive_transparent_scripts(key, TRANSPARENT_GAP);
        if !values_checked(&scripts, blocks) {
            return None;
        }
    }
    Some(scan_compact(blocks, keys, transparent, network, nullifiers, outpoints, prior))
}

/// The first entry of `outputs` with the given index.
pub open spec fn output_position<N>(outputs: Seq<WalletOutput<N, [u8; 32], [u8; 43]>>, index: u32) -> Option<
    int,
>
    decreases outputs.len(),
{
    if outputs.len() == 0 {
        None
    } else {
        match output_position(outputs.drop_last(), index) {
            Some(k) => Some(k),
            None => if outputs.last().index == index {
                Some(outputs.len() - 1)
            } else {
                None
            },
        }
    }
}

/// The position is that of the first entry with the index.
pub proof fn lemma_output_position<N>(outputs: Seq<WalletOutput<N, [u8; 32], [u8; 43]>>, index: u32, k: int)
    requires
        0 <= k <= outputs.len(),
        forall|j: int| 0 <= j < k ==> (#[trigger] outputs[j]).index != index,
        k < outputs.len() ==> outputs[k].index == index,
    ensures
        output_position(outputs, index) == if k < outputs.len() {
            Some(k)
        } else {
            None
        },
    decreases outputs.len(),
{
    if outputs.len() > 0 {
        let init = outputs.drop_last();
        assert forall|j: int| 0 <= j < k && j < init.len() implies (#[trigger] init[j]).index != index by {
            assert(init[j] == outputs[j]);
        }
        if k == outputs.len() {
            lemma_output_position(init, index, k - 1);
        } else {
            lemma_output_position(init, index, k);
        }
    }
}

/// `outputs` with the memo of `result`, where there is one, put on the first entry with
/// the given index.
pub open spec fn with_memo<N>(
    outputs: Seq<WalletOutput<N, [u8; 32], [u8; 43]>>,
    index: u32,
    result: Option<DecryptResult<N, [u8; 43]>>,
) -> Seq<WalletOutput<N, [u8; 32], [u8; 43]>> {
    match (output_position(outputs, index), result) {
        (Some(k), Some(r)) => if r.memo is Some {
            outputs.update(k, WalletOutput { memo: r.memo, ..outputs[k] })
        } else {
            outputs
        },
        _ => outputs,
    }
}

/// `outputs` with the memos of `results`, each put on the entry with its index.
pub open spec fn with_memos<N>(
    outputs: Seq<WalletOutput<N, [u8; 32], [u8; 43]>>,
    results: Seq<Option<DecryptResult<N, [u8; 43]>>>,
) -> Seq<WalletOutput<N, [u8; 32], [u8; 43]>>
    decreases results.len(),
{
    if results.len() == 0 {
        outputs
    } else {
        with_memo(
            with_memos(outputs, results.drop_last()),
            (results.len() - 1) as u32,
            results.last(),
        )
    }
}

/// The index of the first entry with the given output index, or the length where there
/// is none.
fn find_output<N: Copy>(outputs: &Vec<WalletOutput<N, [u8; 32], [u8; 43]>>, index: u32) -> (k: usize)
    ensures
        k <= outputs.len(),
        output_position(outputs@, index) == if k < outputs.len() {
            Some(k as int)
        } else {
            None
        },
{
    let mut k: usize = 0;
    while k < outputs.len()
        invariant
            0 <= k <= outputs.len(),
            forall|j: int| 0 <= j < k ==> (#[trigger] outputs[j]).index != index,
        decreases outputs.len() - k,
    {
        if outputs[k].index == index {
            proof {
                lemma_output_position(outputs@, index, k as int);
            }
            return k;
        }
        k = k + 1;
    }
    proof {
        lemma_output_position(outputs@, index, k as int);
    }
    k
}

/// Puts the memos that full decryption recovered on the outputs that have them.
pub fn fill_memos<N: Copy>(
    outputs: &mut Vec<WalletOutput<N, [u8; 32], [u8; 43]>>,
    results: &Vec<Option<DecryptResult<N, [u8; 43]>>>,
)
    ensures
        final(outputs)@ == with_memos(old(outputs)@, results@),
{
    let mut i: usize = 0;
    assert(results@.take(0) =~= Seq::empty());
    while i < results.len()
        invariant
            0 <= i <= results.len(),
            outputs@ == with_memos(old(outputs)@, results@.take(i as int)),
        decreases results.len() - i,
    {
        proof {
            assert(results@.take(i as int + 1).drop_last() =~= results@.take(i as int));
        }
        #[verifier::truncate]
        let index: u32 = i as u32;
        let k = find_output(outputs, index);
        if k < outputs.len() {
            if let Some(result) = results[i] {
                if result.memo.is_some() {
                    let mut output = outputs[k];
                    output.memo = result.memo;
                    outputs.set(k, output);
                }
            }
        }
        i = i + 1;
    }
    assert(results@.take(i as int) =~= results@);
}

/// What the account records of a note that it sent.
pub open spec fn sent_output<N>(result: DecryptResult<N, [u8; 43]>, index: u32) -> WalletOutput<
    N,
    [u8; 32],
    [u8; 43],
> {
    WalletOutput {
        index,
        note: result.note,
        recipient: result.recipient,
        nf: None,
        position: 0,
        scope: if result.key_index == 0 {
            Scope::External
        } else {
            Scope::Internal
        },
        memo: result.memo,
        is_sent: true,
        is_change: false,
    }
}

/// `outputs` with the notes of `results` that carry a memo, each added where no entry
/// has its index yet.
pub open spec fn with_sent<N>(
    outputs: Seq<WalletOutput<N, [u8; 32], [u8; 43]>>,
    results: Seq<Option<DecryptResult<N, [u8; 43]>>>,
) -> Seq<WalletOutput<N, [u8; 32], [u8; 43]>>
    decreases results.len(),
{
    if results.len() == 0 {
        outputs
    } else {
        let before = with_sent(outputs, results.drop_last());
        let index = (results.len() - 1) as u32;
        match results.last() {
            Some(r) => if r.memo is Some && output_position(before, index) is None {
                before.push(sent_output(r, index))
            } else {
                before
            },
            None => before,
        }
    }
}

/// Adds the notes that were recovered as sent, where they are not recorded yet.
pub fn add_sent<N: Copy>(
    outputs: &mut Vec<WalletOutput<N, [u8; 32], [u8; 43]>>,
    results: &Vec<Option<DecryptResult<N, [u8; 43]>>>,
)
    ensures
        final(outputs)@ == with_sent(old(outputs)@, results@),
{
    let mut i: usize = 0;
    assert(results@.take(0) =~= Seq::empty());
    while i < results.len()
        invariant
            0 <= i <= results.len(),
            outputs@ == with_sent(old(outputs)@, results@.take(i as int)),
        decreases results.len() - i,
    {
        proof {
            assert(results@.take(i as int + 1).drop_last() =~= results@.take(i as int));
        }
        #[verifier::truncate]
        let index: u32 = i as u32;
        if let Some(result) = results[i] {
            let k = find_output(outputs, index);
            if result.memo.is_some() && k == outputs.len() {
                outputs.push(
                    WalletOutput {
                        index,
                        note: result.note,
                        recipient: result.recipient,
                        nf: None,
                        position: 0,
                        scope: if result.key_index == 0 {
                            Scope::External
                        } else {
                            Scope::Internal
                        },
                        memo: result.memo,
                        is_sent: true,
                        is_change: false,
                    },
                );
            }
        }
        i = i + 1;
    }
    assert(results@.take(i as int) =~= results@);
}

/// What the full transaction adds to a scanned one: the memos of the notes received,
/// and the notes sent.
pub open spec fn enriched(
    wtx: WalletTxView,
    sapling_keys: Seq<SaplingScanningKey>,
    orchard_keys: Seq<OrchardScanningKey>,
    zip212: Zip212Enforcement,
    tx: (Seq<u8>, Network, u32),
) -> WalletTxView {
    WalletTxView {
        sapling_outputs: match sapling_outputs_of(tx) {
            Some(outputs) => with_sent(
                with_memos(
                    wtx.sapling_outputs,
                    outputs.map_values(|o: FullParts| sapling_full_found(sapling_keys, zip212, o)),
                ),
                outputs.map_values(|o: FullParts| sapling_sent_found(sapling_keys, zip212, o)),
            ),
            None => wtx.sapling_outputs,
        },
        orchard_outputs: match orchard_actions_of(tx) {
            Some(actions) => with_sent(
                with_memos(
                    wtx.orchard_outputs,
                    actions.map_values(|a: FullActionParts| orchard_full_found(orchard_keys, a)),
                ),
                actions.map_values(|a: FullActionParts| orchard_sent_found(orchard_keys, a)),
            ),
            None => wtx.orchard_outputs,
        },
        ironwood_outputs: match ironwood_actions_of(tx) {
            Some(actions) => with_sent(
                with_memos(
                    wtx.ironwood_outputs,
                    actions.map_values(|a: FullActionParts| ironwood_full_found(orchard_keys, a)),
                ),
                actions.map_values(|a: FullActionParts| ironwood_sent_found(orchard_keys, a)),
            ),
            None => wtx.ironwood_outputs,
        },
        ..wtx
    }
}

/// Adds to a scanned transaction what the full transaction tells.
fn enrich_tx(
    wtx: &mut WalletTx,
    tx: &FullTransaction,
    keys: &ScanningKeys,
    zip212: Zip212Enforcement,
)
    ensures
        final(wtx)@ == enriched(old(wtx)@, keys.sapling@, keys.orchard@, zip212, tx@),
{
    if let Some(outputs) = sapling_outputs(tx) {
        let full = decrypt_full_sapling(outputs.as_slice(), keys, zip212);
        let sent = recover_outgoing_sapling(outputs.as_slice(), keys, zip212);
        proof {
            let parts = sapling_outputs_of(tx@)->0;
            assert(full@ =~= parts.map_values(
                |o: FullParts| sapling_full_found(keys.sapling@, zip212, o),
            ));
            assert(sent@ =~= parts.map_values(
                |o: FullParts| sapling_sent_found(keys.sapling@, zip212, o),
            ));
        }
        fill_memos(&mut wtx.sapling_outputs, &full);
        add_sent(&mut wtx.sapling_outputs, &sent);
    }
    if let Some(actions) = orchard_actions(tx) {
        let full = decrypt_full_orchard(actions.as_slice(), keys);
        let sent = recover_outgoing_orchard(actions.as_slice(), keys);
        proof {
            let parts = orchard_actions_of(tx@)->0;
            assert(full@ =~= parts.map_values(
                |a: FullActionParts| orchard_full_found(keys.orchard@, a),
            ));
            assert(sent@ =~= parts.map_values(
                |a: FullActionParts| orchard_sent_found(keys.orchard@, a),
            ));
        }
        fill_memos(&mut wtx.orchard_outputs, &full);
        add_sent(&mut wtx.orchard_outputs, &sent);
    }
    if let Some(actions) = ironwood_actions(tx) {
        let full = decrypt_full_ironwood(actions.as_slice(), keys);
        let sent = recover_outgoing_ironwood(actions.as_slice(), keys);
        proof {
            let parts = ironwood_actions_of(tx@)->0;
            assert(full@ =~= parts.map_values(
                |a: FullActionParts| ironwood_full_found(keys.orchard@, a),
            ));
            assert(sent@ =~= parts.map_values(
                |a: FullActionParts| ironwood_sent_found(keys.orchard@, a),
            ));
        }
        fill_memos(&mut wtx.ironwood_outputs, &full);
        add_sent(&mut wtx.ironwood_outputs, &sent);
    }
}

/// A transaction that does nothing to the account yet.
pub open spec fn bare_tx(txid: [u8; 32], height: u32, tx_index: u32) -> WalletTxView {
    WalletTxView {
        txid,
        height,
        tx_index,
        sapling_outputs: Seq::empty(),
        sapling_spends: Seq::empty(),
        orchard_outputs: Seq::empty(),
        orchard_spends: Seq::empty(),
        ironwood_outputs: Seq::empty(),
        ironwood_spends: Seq::empty(),
        transparent_outputs: Seq::empty(),
        transparent_spends: Seq::empty(),
    }
}

/// The first of the transactions with the given id.
pub open spec fn tx_position(txs: Seq<WalletTxView>, txid: [u8; 32]) -> Option<int>
    decreases txs.len(),
{
    if txs.len() == 0 {
        None
    } else {
        match tx_position(txs.drop_last(), txid) {
            Some(k) => Some(k),
            None => if txs.last().txid == txid {
                Some(txs.len() - 1)
            } else {
                None
            },
        }
    }
}

/// The position is that of the first transaction with the id.
pub proof fn lemma_tx_position(txs: Seq<WalletTxView>, txid: [u8; 32], k: int)
    requires
        0 <= k <= txs.len(),
        forall|j: int| 0 <= j < k ==> (#[trigger] txs[j]).txid != txid,
        k < txs.len() ==> txs[k].txid == txid,
    ensures
        tx_position(txs, txid) == if k < txs.len() {
            Some(k)
        } else {
            None
        },
    decreases txs.len(),
{
    if txs.len() > 0 {
        let init = txs.drop_last();
        assert forall|j: int| 0 <= j < k && j < init.len() implies (#[trigger] init[j]).txid != txid by {
            assert(init[j] == txs[j]);
        }
        if k == txs.len() {
            lemma_tx_position(init, txid, k - 1);
        } else {
            lemma_tx_position(init, txid, k);
        }
    }
}

/// A full transaction: its id, height and index in its block, and what it was read
/// from.
pub type FullEntry = ([u8; 32], u32, u32, (Seq<u8>, Network, u32));

/// The scanned transactions once one full transaction was read: the one with its id is
/// enriched, and is added first where there is none.
pub open spec fn enriched_by(
    txs: Seq<WalletTxView>,
    sapling_keys: Seq<SaplingScanningKey>,
    orchard_keys: Seq<OrchardScanningKey>,
    network: Network,
    full: FullEntry,
) -> Seq<WalletTxView> {
    let zip212 = zip212_at(network, full.1);
    match tx_position(txs, full.0) {
        Some(k) => txs.update(k, enriched(txs[k], sapling_keys, orchard_keys, zip212, full.3)),
        None => txs.push(
            enriched(bare_tx(full.0, full.1, full.2), sapling_keys, orchard_keys, zip212, full.3),
        ),
    }
}

/// The entries of a list of full transactions.
pub open spec fn full_entries(full: Seq<([u8; 32], u32, u32, FullTransaction)>) -> Seq<FullEntry> {
    full.map_values(|f: ([u8; 32], u32, u32, FullTransaction)| (f.0, f.1, f.2, f.3@))
}

/// The scanned transactions once all full transactions were read, in turn.
pub open spec fn enriched_by_all(
    txs: Seq<WalletTxView>,
    sapling_keys: Seq<SaplingScanningKey>,
    orchard_keys: Seq<OrchardScanningKey>,
    network: Network,
    full: Seq<FullEntry>,
) -> Seq<WalletTxView>
    decreases full.len(),
{
    if full.len() == 0 {
        txs
    } else {
        enriched_by(
            enriched_by_all(txs, sapling_keys, orchard_keys, network, full.drop_last()),
            sapling_keys,
            orchard_keys,
            network,
            full.last(),
        )
    }
}

/// Adds to the scanned transactions what the full transactions tell: memos of notes
/// received, and notes sent.
pub fn scan_full(
    txs: &mut Vec<WalletTx>,
    full_txs: &Vec<([u8; 32], u32, u32, FullTransaction)>,
    keys: &ScanningKeys,
    network: Network,
) -> (result: Result<(), ScanError>)
    ensures
        result is Ok,
        tx_views(final(txs)@) == enriched_by_all(
            tx_views(old(txs)@),
            keys.sapling@,
            keys.orchard@,
            network,
            full_entries(full_txs@),
        ),
{
    let ghost entries = full_entries(full_txs@);
    let mut i: usize = 0;
    assert(entries.take(0) =~= Seq::empty());
    while i < full_txs.len()
        invariant
            0 <= i <= full_txs.len(),
            entries == full_entries(full_txs@),
            tx_views(txs@) == enriched_by_all(
                tx_views(old(txs)@),
                keys.sapling@,
                keys.orchard@,
                network,
                entries.take(i as int),
            ),
        decreases full_txs.len() - i,
    {
        proof {
            assert(entries.take(i as int + 1).drop_last() =~= entries.take(i as int));
        }
        let full = &full_txs[i];
        let zip212 = zip212_enforcement(network, full.1);
        let mut k: usize = 0;
        while k < txs.len() && !same32(&txs[k].txid, &full.0)
            invariant
                0 <= k <= txs.len(),
                forall|j: int| 0 <= j < k ==> (#[trigger] tx_views(txs@)[j]).txid != full.0,
            decreases txs.len() - k,
        {
            k = k + 1;
        }
        let ghost before = tx_views(txs@);
        proof {
            lemma_tx_position(before, full.0, k as int);
        }
        if k < txs.len() {
            let ghost old_list = txs@;
            let wtx = &mut txs[k];
            enrich_tx(wtx, &full.3, keys, zip212);
            assert(tx_views(txs@) =~= before.update(
                k as int,
                enriched(before[k as int], keys.sapling@, keys.orchard@, zip212, full.3@),
            ));
        } else {
            let mut wtx = WalletTx {
                txid: full.0,
                height: full.1,
                tx_index: full.2,
                sapling_outputs: Vec::new(),
                sapling_spends: Vec::new(),
                orchard_outputs: Vec::new(),
                orchard_spends: Vec::new(),
                ironwood_outputs: Vec::new(),
                ironwood_spends: Vec::new(),
                transparent_outputs: Vec::new(),
                transparent_spends: Vec::new(),
            };
            assert(wtx@.transparent_outputs =~= Seq::empty());
            assert(wtx@ == bare_tx(full.0, full.1, full.2));
            enrich_tx(&mut wtx, &full.3, keys, zip212);
            let ghost list = txs@;
            txs.push(wtx);
            assert(tx_views(txs@) =~= tx_views(list).push(wtx@));
        }
        i = i + 1;
    }
    assert(entries.take(i as int) =~= entries);
    Ok(())
}

} // verus!
