//! The account's tables, and what a sync does to them.
//!
//! - **account** (one row): birthday, sync height and sync hash
//! - **positions**: the last positions that batches were recorded at, which a rewind goes
//!   back to
//! - **txs**: one row per transaction
//! - **sapling_notes**, **orchard_notes**, **ironwood_notes**: one row per note, with
//!   the spend that consumes it on the same row
//!
//! The tables are held in memory; whoever persists them reads and writes the rows.

pub mod account;
pub mod account_laws;
pub mod apply_laws;
pub mod commitment_tree;
pub mod laws;
pub mod migration;
pub mod order;
pub mod read_laws;
pub mod record_laws;
pub mod rows;
pub mod shardtree_serialization;
pub mod store;
pub mod store_laws;
pub mod sync;
pub mod table_laws;
pub mod tree_laws;

use vstd::prelude::*;

use crate::error::joined;
use crate::bytes::{
    le_bytes, le_value, push_bytes, push_le, read_le, same32, same_bytes, slice_bytes, to_array,
};
use crate::primitives::{NoteVersion, OrchardNote, Rseed, SaplingNote, Scope};
use crate::seqs::{collect_some, lemma_collect_concat, lemma_collect_from, lemma_collect_push};
use crate::sync::scan::{
    tx_views, Nullifiers, OrchardOutput, OrchardSpend, SaplingOutput, SaplingSpend, WalletOutput,
    WalletTx, WalletTxView,
};
use crate::sync::{Cursor, Resume};
use crate::upstream::orchard_notes::{orchard_nullifier_parses, orchard_nullifier_valid};

verus! {

/// How many positions are kept to go back to.
pub const POSITIONS_KEPT: usize = 100;

/// Why the tables could not be read.
#[derive(Debug, Clone, PartialEq, Eq)]
pub enum DbError {
    /// The storage failed.
    Sqlite(String),
    /// A row holds what was never written.
    Corrupt(String),
}

impl DbError {
    /// The error in words.
    pub fn to_text(&self) -> (text: String)
        ensures
            text@ == (match *self {
                DbError::Sqlite(e) => "sqlite: "@ + e@,
                DbError::Corrupt(e) => "corrupted data: "@ + e@,
            }),
    {
        match self {
            DbError::Sqlite(e) => joined("sqlite: ", e),
            DbError::Corrupt(e) => joined("corrupted data: ", e),
        }
    }
}

/// What the storage says of a blob that cannot be read, given what is wrong with it.
pub open spec fn conversion_text(why: Seq<char>) -> Seq<char> {
    "Conversion error from type Blob at index: 32, corrupted data: "@ + why
}

/// The failure of the storage to read a blob, given what is wrong with it.
fn conversion_failure(why: &str) -> (e: DbError)
    ensures
        e matches DbError::Sqlite(text) && text@ == conversion_text(why@),
{
    DbError::Sqlite(
        joined(
            "Conversion error from type Blob at index: 32, corrupted data: ",
            &why.to_owned(),
        ),
    )
}

/// The account row.
#[derive(Debug, Clone, PartialEq, Eq)]
pub struct AccountRow {
    /// The earliest height that the account cares about.
    pub birthday: u32,
    /// The height of the last position synced.
    pub sync_height: Option<u32>,
    /// The block hash of the last position synced.
    pub sync_hash: Option<Vec<u8>>,
}

/// A row of the transaction table.
#[derive(Debug, Clone, Copy, PartialEq, Eq)]
pub struct TxRow {
    /// The transaction's id.
    pub txid: [u8; 32],
    /// The height of its block.
    pub block_height: u32,
    /// Its index in the block.
    pub tx_index: u32,
    /// The value of the account's notes in it.
    pub amount: i64,
    /// Whether the account sent a note in it.
    pub is_outgoing: bool,
}

/// A row of a note table.
#[derive(Debug, Clone, PartialEq, Eq)]
pub struct NoteRow {
    /// The transaction that made the note.
    pub txid: [u8; 32],
    /// The output's index in that transaction.
    pub output_index: u32,
    /// The height of that transaction's block.
    pub block_height: u32,
    /// The note's nullifier.
    pub nf: Option<Vec<u8>>,
    /// The note, serialized.
    pub note: Vec<u8>,
    /// The note's recipient.
    pub recipient: Vec<u8>,
    /// The note's memo.
    pub memo: Option<Vec<u8>>,
    /// The scope of the key that found the note.
    pub scope: u8,
    /// The note's position in the commitment tree.
    pub position: u64,
    /// Whether the account sent the note.
    pub is_sent: bool,
    /// Whether the note is change.
    pub is_change: bool,
    /// Whether the note is spent.
    pub spent: bool,
    /// The height at which it was spent.
    pub spent_height: Option<u32>,
    /// The transaction that spent it.
    pub spent_txid: Option<[u8; 32]>,
    /// The index of the spend in that transaction.
    pub spent_index: Option<u32>,
}

/// What the account row holds.
pub struct AccountView {
    /// The earliest height that the account cares about.
    pub birthday: u32,
    /// The height of the last position synced.
    pub sync_height: Option<u32>,
    /// The block hash of the last position synced.
    pub sync_hash: Option<Seq<u8>>,
}

/// What a row of a note table holds.
pub struct NoteView {
    /// The transaction that made the note.
    pub txid: [u8; 32],
    /// The output's index in that transaction.
    pub output_index: u32,
    /// The height of that transaction's block.
    pub block_height: u32,
    /// The note's nullifier.
    pub nf: Option<Seq<u8>>,
    /// The note, serialized.
    pub note: Seq<u8>,
    /// The note's recipient.
    pub recipient: Seq<u8>,
    /// The note's memo.
    pub memo: Option<Seq<u8>>,
    /// The scope of the key that found the note.
    pub scope: u8,
    /// The note's position in the commitment tree.
    pub position: u64,
    /// Whether the account sent the note.
    pub is_sent: bool,
    /// Whether the note is change.
    pub is_change: bool,
    /// Whether the note is spent.
    pub spent: bool,
    /// The height at which it was spent.
    pub spent_height: Option<u32>,
    /// The transaction that spent it.
    pub spent_txid: Option<[u8; 32]>,
    /// The index of the spend in that transaction.
    pub spent_index: Option<u32>,
}

/// The bytes of an optional blob.
pub open spec fn blob_view(blob: Option<Vec<u8>>) -> Option<Seq<u8>> {
    match blob {
        Some(bytes) => Some(bytes@),
        None => None,
    }
}

/// The bytes of an optional array.
pub open spec fn array_view<const N: usize>(array: Option<[u8; N]>) -> Option<Seq<u8>> {
    match array {
        Some(bytes) => Some(bytes@),
        None => None,
    }
}

impl AccountRow {
    /// What the row holds.
    pub open spec fn view(&self) -> AccountView {
        AccountView {
            birthday: self.birthday,
            sync_height: self.sync_height,
            sync_hash: blob_view(self.sync_hash),
        }
    }
}

impl NoteRow {
    /// What the row holds.
    pub open spec fn view(&self) -> NoteView {
        NoteView {
            txid: self.txid,
            output_index: self.output_index,
            block_height: self.block_height,
            nf: blob_view(self.nf),
            note: self.note@,
            recipient: self.recipient@,
            memo: blob_view(self.memo),
            scope: self.scope,
            position: self.position,
            is_sent: self.is_sent,
            is_change: self.is_change,
            spent: self.spent,
            spent_height: self.spent_height,
            spent_txid: self.spent_txid,
            spent_index: self.spent_index,
        }
    }
}

/// What the rows of a note table hold.
pub open spec fn note_views(rows: Seq<NoteRow>) -> Seq<NoteView> {
    rows.map_values(|r: NoteRow| r@)
}

/// The account's tables.
#[derive(Debug)]
pub struct Db {
    /// The account row, once there is one.
    pub account: Option<AccountRow>,
    /// The last positions that batches were recorded at.
    pub positions: Vec<Cursor>,
    /// The transactions.
    pub txs: Vec<TxRow>,
    /// The Sapling notes.
    pub sapling_notes: Vec<NoteRow>,
    /// The Orchard notes.
    pub orchard_notes: Vec<NoteRow>,
    /// The Ironwood notes.
    pub ironwood_notes: Vec<NoteRow>,
}

/// What the account's tables hold.
pub struct DbView {
    /// The account row, once there is one.
    pub account: Option<AccountView>,
    /// The last positions that batches were recorded at.
    pub positions: Seq<Cursor>,
    /// The transactions.
    pub txs: Seq<TxRow>,
    /// The Sapling notes.
    pub sapling_notes: Seq<NoteView>,
    /// The Orchard notes.
    pub orchard_notes: Seq<NoteView>,
    /// The Ironwood notes.
    pub ironwood_notes: Seq<NoteView>,
}

impl Db {
    /// What the tables hold.
    pub open spec fn view(&self) -> DbView {
        DbView {
            account: match self.account {
                Some(row) => Some(row@),
                None => None,
            },
            positions: self.positions@,
            txs: self.txs@,
            sapling_notes: note_views(self.sapling_notes@),
            orchard_notes: note_views(self.orchard_notes@),
            ironwood_notes: note_views(self.ironwood_notes@),
        }
    }
}

/// Whether positions stand in the order of their heights, and no more than are kept.
pub open spec fn positions_wf(positions: Seq<Cursor>) -> bool {
    &&& positions.len() <= POSITIONS_KEPT
    &&& forall|i: int, j: int|
        0 <= i < j < positions.len() ==> (#[trigger] positions[i]).height < (
        #[trigger] positions[j]).height
}

/// Whether no two transactions share an id.
pub open spec fn tx_keys_unique(txs: Seq<TxRow>) -> bool {
    forall|i: int, j: int| 0 <= i < j < txs.len() ==> (#[trigger] txs[i]).txid != (#[trigger] txs[j]).txid
}

/// Whether no two notes share a transaction and an output index.
pub open spec fn note_keys_unique(notes: Seq<NoteView>) -> bool {
    forall|i: int, j: int|
        0 <= i < j < notes.len() ==> !same_key(#[trigger] notes[i], #[trigger] notes[j])
}

/// Whether two notes are the same output of the same transaction.
pub open spec fn same_key(a: NoteView, b: NoteView) -> bool {
    a.txid == b.txid && a.output_index == b.output_index
}

/// Whether a note has a spend height, a spending transaction and a spend index exactly
/// where it is spent.
pub open spec fn spend_consistent(note: NoteView) -> bool {
    &&& note.spent == note.spent_height is Some
    &&& note.spent == note.spent_txid is Some
    &&& note.spent == note.spent_index is Some
}

/// Whether the keys of a note table are unique, and its spend columns consistent.
pub open spec fn notes_wf(notes: Seq<NoteView>) -> bool {
    &&& note_keys_unique(notes)
    &&& forall|i: int| 0 <= i < notes.len() ==> spend_consistent(#[trigger] notes[i])
}

impl DbView {
    /// The keys of each table are unique, the positions in order, and the spend columns of
    /// the notes consistent.
    pub open spec fn wf(self) -> bool {
        &&& positions_wf(self.positions)
        &&& tx_keys_unique(self.txs)
        &&& notes_wf(self.sapling_notes)
        &&& notes_wf(self.orchard_notes)
        &&& notes_wf(self.ironwood_notes)
    }
}

/// The number that stands for a scope.
pub open spec fn scope_code(scope: Scope) -> u8 {
    match scope {
        Scope::External => 0,
        Scope::Internal => 1,
    }
}

/// The number that stands for a scope.
pub fn scope_to_u8(scope: Scope) -> (code: u8)
    ensures
        code == scope_code(scope),
{
    match scope {
        Scope::External => 0,
        Scope::Internal => 1,
    }
}

/// A Sapling note as a blob: recipient, value, a tag for the kind of randomness, and
/// the randomness.
pub open spec fn sapling_blob(note: SaplingNote) -> Seq<u8> {
    note.recipient@ + le_bytes(note.value) + match note.rseed {
        Rseed::BeforeZip212(rcm) => seq![0u8] + rcm@,
        Rseed::AfterZip212(seed) => seq![1u8] + seed@,
    }
}

/// An Orchard note as a blob: recipient, value, rho, seed, and a tag for the version.
pub open spec fn orchard_blob(note: OrchardNote) -> Seq<u8> {
    note.recipient@ + le_bytes(note.value) + note.rho@ + note.rseed@ + seq![
        match note.version {
            NoteVersion::V2 => 0u8,
            NoteVersion::V3 => 1u8,
        },
    ]
}

/// Serializes a Sapling note.
pub fn serialize_sapling_note(note: &SaplingNote) -> (blob: Vec<u8>)
    ensures
        blob@ == sapling_blob(*note),
{
    let mut buf: Vec<u8> = Vec::new();
    push_bytes(&mut buf, &note.recipient);
    push_le(&mut buf, note.value);
    match &note.rseed {
        Rseed::BeforeZip212(rcm) => {
            buf.push(0);
            push_bytes(&mut buf, rcm);
        },
        Rseed::AfterZip212(seed) => {
            buf.push(1);
            push_bytes(&mut buf, seed);
        },
    }
    assert(buf@ =~= sapling_blob(*note));
    buf
}

/// Serializes an Orchard or Ironwood note.
pub fn serialize_orchard_note(note: &OrchardNote) -> (blob: Vec<u8>)
    ensures
        blob@ == orchard_blob(*note),
{
    let mut buf: Vec<u8> = Vec::new();
    push_bytes(&mut buf, &note.recipient);
    push_le(&mut buf, note.value);
    push_bytes(&mut buf, &note.rho);
    push_bytes(&mut buf, &note.rseed);
    buf.push(
        match note.version {
            NoteVersion::V2 => 0,
            NoteVersion::V3 => 1,
        },
    );
    assert(buf@ =~= orchard_blob(*note));
    buf
}

/// The row that an output of a transaction is stored as.
pub open spec fn row_of<N>(
    txid: [u8; 32],
    height: u32,
    output: WalletOutput<N, [u8; 32], [u8; 43]>,
    blob: Seq<u8>,
) -> NoteView {
    NoteView {
        txid,
        output_index: output.index,
        block_height: height,
        nf: array_view(output.nf),
        note: blob,
        recipient: output.recipient@,
        memo: array_view(output.memo),
        scope: scope_code(output.scope),
        position: output.position,
        is_sent: output.is_sent,
        is_change: output.is_change,
        spent: false,
        spent_height: None,
        spent_txid: None,
        spent_index: None,
    }
}

/// The bytes of an optional array.
fn array_blob<const N: usize>(array: &Option<[u8; N]>) -> (blob: Option<Vec<u8>>)
    ensures
        blob_view(blob) == array_view(*array),
{
    match array {
        Some(bytes) => Some(slice_bytes(bytes)),
        None => None,
    }
}

/// The row that an output of a transaction is stored as.
fn make_row<N: Copy>(
    txid: [u8; 32],
    height: u32,
    output: &WalletOutput<N, [u8; 32], [u8; 43]>,
    note: Vec<u8>,
) -> (row: NoteRow)
    ensures
        row@ == row_of(txid, height, *output, note@),
{
    NoteRow {
        txid,
        output_index: output.index,
        block_height: height,
        nf: array_blob(&output.nf),
        note,
        recipient: slice_bytes(&output.recipient),
        memo: array_blob(&output.memo),
        scope: scope_to_u8(output.scope),
        position: output.position,
        is_sent: output.is_sent,
        is_change: output.is_change,
        spent: false,
        spent_height: None,
        spent_txid: None,
        spent_index: None,
    }
}

/// Whether a table holds the note of a row.
pub open spec fn has_key(notes: Seq<NoteView>, row: NoteView) -> bool {
    exists|i: int| 0 <= i < notes.len() && same_key(#[trigger] notes[i], row)
}

/// A note table after a row was inserted: unchanged where it holds the note already.
pub open spec fn inserted(notes: Seq<NoteView>, row: NoteView) -> Seq<NoteView> {
    if has_key(notes, row) {
        notes
    } else {
        notes.push(row)
    }
}

/// Inserts a row, unless the table holds the note already.
fn insert_note(table: &mut Vec<NoteRow>, row: NoteRow)
    ensures
        note_views(final(table)@) == inserted(note_views(old(table)@), row@),
{
    let ghost notes = note_views(table@);
    let mut i: usize = 0;
    while i < table.len()
        invariant
            0 <= i <= table.len(),
            notes == note_views(table@),
            table@ == old(table)@,
            forall|j: int| 0 <= j < i ==> !same_key(#[trigger] notes[j], row@),
        decreases table.len() - i,
    {
        if table[i].output_index == row.output_index && same32(&table[i].txid, &row.txid) {
            assert(same_key(notes[i as int], row@));
            return ;
        }
        i = i + 1;
    }
    table.push(row);
    assert(note_views(table@) =~= notes.push(row@));
}

/// A note row after a spend: where it has the nullifier and is not spent yet, it is
/// spent by this transaction.
pub open spec fn spent_by(note: NoteView, nf: Seq<u8>, height: u32, txid: [u8; 32], index: u32) -> NoteView {
    if note.nf == Some(nf) && !note.spent {
        NoteView {
            spent: true,
            spent_height: Some(height),
            spent_txid: Some(txid),
            spent_index: Some(index),
            ..note
        }
    } else {
        note
    }
}

/// A note table after a spend.
pub open spec fn marked(
    notes: Seq<NoteView>,
    nf: Seq<u8>,
    height: u32,
    txid: [u8; 32],
    index: u32,
) -> Seq<NoteView> {
    notes.map_values(|n: NoteView| spent_by(n, nf, height, txid, index))
}

/// Marks the unspent notes with the given nullifier as spent.
fn mark_spent(table: &mut Vec<NoteRow>, nf: &[u8; 32], height: u32, txid: [u8; 32], index: u32)
    ensures
        note_views(final(table)@) == marked(note_views(old(table)@), nf@, height, txid, index),
{
    let ghost notes = note_views(table@);
    let mut i: usize = 0;
    while i < table.len()
        invariant
            0 <= i <= table.len(),
            table.len() == notes.len(),
            forall|j: int|
                0 <= j < i ==> (#[trigger] table[j])@ == spent_by(notes[j], nf@, height, txid, index),
            forall|j: int| i <= j < table.len() ==> (#[trigger] table[j])@ == notes[j],
        decreases table.len() - i,
    {
        let hit = match &table[i].nf {
            Some(bytes) => same_bytes(bytes.as_slice(), nf) && !table[i].spent,
            None => false,
        };
        assert(table[i as int]@ == notes[i as int]);
        if hit {
            let row = &mut table[i];
            row.spent = true;
            row.spent_height = Some(height);
            row.spent_txid = Some(txid);
            row.spent_index = Some(index);
        }
        i = i + 1;
    }
    assert(note_views(table@) =~= marked(notes, nf@, height, txid, index));
}

/// A note row after a rewind: a spend at or above the height is undone.
pub open spec fn unspent_from(note: NoteView, to: u32) -> NoteView {
    match note.spent_height {
        Some(h) => if h >= to {
            NoteView {
                spent: false,
                spent_height: None,
                spent_txid: None,
                spent_index: None,
                ..note
            }
        } else {
            note
        },
        None => note,
    }
}

/// A note row after a rewind: gone where the note was received at or above the height.
pub open spec fn rewound_note(note: NoteView, to: u32) -> Option<NoteView> {
    if note.block_height >= to {
        None
    } else {
        Some(unspent_from(note, to))
    }
}

/// A note table after a rewind.
pub open spec fn rewound_notes(notes: Seq<NoteView>, to: u32) -> Seq<NoteView> {
    collect_some(notes.map_values(|n: NoteView| rewound_note(n, to)))
}

/// Deletes the notes received at or above `to`, and undoes the spends at or above it.
fn rewind_notes(table: &mut Vec<NoteRow>, to: u32)
    ensures
        note_views(final(table)@) == rewound_notes(note_views(old(table)@), to),
{
    let ghost notes = note_views(table@);
    let ghost all = notes.map_values(|n: NoteView| rewound_note(n, to));
    let mut rows: Vec<NoteRow> = Vec::new();
    core::mem::swap(&mut rows, table);
    let mut kept: Vec<NoteRow> = Vec::new();
    assert(rows@ == old(table)@);
    assert(all.take(0) =~= Seq::empty());
    assert(note_views(kept@) =~= Seq::empty());
    let ghost mut i: int = 0;
    while rows.len() > 0
        invariant
            notes == note_views(old(table)@),
            all == notes.map_values(|n: NoteView| rewound_note(n, to)),
            0 <= i,
            i + rows.len() == notes.len(),
            rows@ == old(table)@.skip(i),
            note_views(kept@) == collect_some(all.take(i)),
        decreases rows.len(),
    {
        let mut row = rows.remove(0);
        assert(rows@ =~= old(table)@.skip(i + 1));
        assert(row@ == notes[i]);
        proof {
            lemma_collect_push(all.take(i), all[i]);
            assert(all.take(i + 1) =~= all.take(i).push(all[i]));
        }
        if row.block_height < to {
            let undo = match row.spent_height {
                Some(h) => h >= to,
                None => false,
            };
            if undo {
                row.spent = false;
                row.spent_height = None;
                row.spent_txid = None;
                row.spent_index = None;
            }
            assert(row@ == unspent_from(notes[i], to));
            let ghost before = kept@;
            kept.push(row);
            assert(note_views(kept@) =~= note_views(before).push(row@));
        }
        proof {
            i = i + 1;
        }
    }
    assert(all.take(i) =~= all);
    *table = kept;
}

/// A transaction table after a row was written: it takes the place of the row with the
/// same id, where there is one.
pub open spec fn upserted(txs: Seq<TxRow>, row: TxRow) -> Seq<TxRow> {
    if exists|i: int| 0 <= i < txs.len() && (#[trigger] txs[i]).txid == row.txid {
        txs.map_values(
            |t: TxRow|
                if t.txid == row.txid {
                    row
                } else {
                    t
                },
        )
    } else {
        txs.push(row)
    }
}

/// Writes a transaction row.
fn upsert_tx(txs: &mut Vec<TxRow>, row: TxRow)
    ensures
        final(txs)@ == upserted(old(txs)@, row),
{
    let ghost before = txs@;
    let mut found = false;
    let mut i: usize = 0;
    while i < txs.len()
        invariant
            0 <= i <= txs.len(),
            txs.len() == before.len(),
            found == exists|j: int| 0 <= j < i && (#[trigger] before[j]).txid == row.txid,
            forall|j: int|
                0 <= j < i ==> #[trigger] txs[j] == (if before[j].txid == row.txid {
                    row
                } else {
                    before[j]
                }),
            forall|j: int| i <= j < txs.len() ==> #[trigger] txs[j] == before[j],
        decreases txs.len() - i,
    {
        if same32(&txs[i].txid, &row.txid) {
            assert(before[i as int].txid == row.txid);
            txs.set(i, row);
            found = true;
        }
        i = i + 1;
    }
    if !found {
        assert(txs@ =~= before);
        txs.push(row);
    } else {
        assert(txs@ =~= upserted(before, row));
    }
}

/// The value of the Sapling notes.
pub open spec fn sapling_value(outputs: Seq<SaplingOutput>) -> nat
    decreases outputs.len(),
{
    if outputs.len() == 0 {
        0
    } else {
        sapling_value(outputs.drop_last()) + outputs.last().note.value as nat
    }
}

/// The value of the Orchard or Ironwood notes.
pub open spec fn orchard_value(outputs: Seq<OrchardOutput>) -> nat
    decreases outputs.len(),
{
    if outputs.len() == 0 {
        0
    } else {
        orchard_value(outputs.drop_last()) + outputs.last().note.value as nat
    }
}

/// The value of all notes of a transaction.
pub open spec fn tx_amount(wtx: WalletTxView) -> nat {
    sapling_value(wtx.sapling_outputs) + orchard_value(wtx.orchard_outputs) + orchard_value(
        wtx.ironwood_outputs,
    )
}

/// What 64 bits hold of a sum.
pub open spec fn low_bits(sum: nat) -> u64 {
    (sum % 0x1_0000_0000_0000_0000) as u64
}

/// The number that the storage keeps for a number without a sign.
pub open spec fn as_signed(x: u64) -> i64 {
    if x <= i64::MAX {
        x as i64
    } else {
        (x - 0x1_0000_0000_0000_0000) as i64
    }
}

/// Whether one of the outputs was sent.
pub open spec fn any_sent<N>(outputs: Seq<WalletOutput<N, [u8; 32], [u8; 43]>>) -> bool {
    exists|i: int| 0 <= i < outputs.len() && (#[trigger] outputs[i]).is_sent
}

/// The row that a transaction is stored as.
pub open spec fn tx_row(wtx: WalletTxView) -> TxRow {
    TxRow {
        txid: wtx.txid,
        block_height: wtx.height,
        tx_index: wtx.tx_index,
        amount: as_signed(low_bits(tx_amount(wtx))),
        is_outgoing: any_sent(wtx.sapling_outputs) || any_sent(wtx.orchard_outputs) || any_sent(
            wtx.ironwood_outputs,
        ),
    }
}

/// Whether one of the outputs was sent.
fn has_sent<N: Copy>(outputs: &Vec<WalletOutput<N, [u8; 32], [u8; 43]>>) -> (sent: bool)
    ensures
        sent == any_sent(outputs@),
{
    let mut i: usize = 0;
    while i < outputs.len()
        invariant
            0 <= i <= outputs.len(),
            forall|j: int| 0 <= j < i ==> !(#[trigger] outputs@[j]).is_sent,
        decreases outputs.len() - i,
    {
        if outputs[i].is_sent {
            assert(outputs@[i as int].is_sent);
            return true;
        }
        i = i + 1;
    }
    false
}

/// Adds up the value of the Sapling notes.
fn sum_sapling(outputs: &Vec<SaplingOutput>) -> (total: u64)
    ensures
        total == low_bits(sapling_value(outputs@)),
{
    let mut total: u64 = 0;
    let mut i: usize = 0;
    assert(outputs@.take(0) =~= Seq::empty());
    while i < outputs.len()
        invariant
            0 <= i <= outputs.len(),
            total == low_bits(sapling_value(outputs@.take(i as int))),
        decreases outputs.len() - i,
    {
        assert(outputs@.take(i as int + 1).drop_last() =~= outputs@.take(i as int));
        total = total.wrapping_add(outputs[i].note.value);
        i = i + 1;
    }
    assert(outputs@.take(i as int) =~= outputs@);
    total
}

/// Adds up the value of the Orchard or Ironwood notes.
fn sum_orchard(outputs: &Vec<OrchardOutput>) -> (total: u64)
    ensures
        total == low_bits(orchard_value(outputs@)),
{
    let mut total: u64 = 0;
    let mut i: usize = 0;
    assert(outputs@.take(0) =~= Seq::empty());
    while i < outputs.len()
        invariant
            0 <= i <= outputs.len(),
            total == low_bits(orchard_value(outputs@.take(i as int))),
        decreases outputs.len() - i,
    {
        assert(outputs@.take(i as int + 1).drop_last() =~= outputs@.take(i as int));
        total = total.wrapping_add(outputs[i].note.value);
        i = i + 1;
    }
    assert(outputs@.take(i as int) =~= outputs@);
    total
}

/// The number that the storage keeps for a number without a sign.
fn to_signed(x: u64) -> (stored: i64)
    ensures
        stored == as_signed(x),
{
    if x <= i64::MAX as u64 {
        x as i64
    } else {
        -((u64::MAX - x) as i64) - 1
    }
}

/// Adds two sums of which 64 bits are known.
fn add_low_bits(x: u64, y: u64, Ghost(a): Ghost<nat>, Ghost(b): Ghost<nat>) -> (sum: u64)
    requires
        x == low_bits(a),
        y == low_bits(b),
    ensures
        sum == low_bits(a + b),
{
    x.wrapping_add(y)
}

/// Adds up the value of all notes of a transaction.
fn stored_amount(wtx: &WalletTx) -> (amount: i64)
    ensures
        amount == as_signed(low_bits(tx_amount(wtx@))),
{
    let ghost s = sapling_value(wtx.sapling_outputs@);
    let ghost o = orchard_value(wtx.orchard_outputs@);
    let ghost i = orchard_value(wtx.ironwood_outputs@);
    let sapling = sum_sapling(&wtx.sapling_outputs);
    let orchard = sum_orchard(&wtx.orchard_outputs);
    let ironwood = sum_orchard(&wtx.ironwood_outputs);
    let total = add_low_bits(sapling, orchard, Ghost(s), Ghost(o));
    let total = add_low_bits(total, ironwood, Ghost(s + o), Ghost(i));
    assert(tx_amount(wtx@) == s + o + i);
    to_signed(total)
}

/// A note table after several rows were inserted in turn.
pub open spec fn inserted_all(notes: Seq<NoteView>, rows: Seq<NoteView>) -> Seq<NoteView>
    decreases rows.len(),
{
    if rows.len() == 0 {
        notes
    } else {
        inserted(inserted_all(notes, rows.drop_last()), rows.last())
    }
}

/// A note table after several spends in turn, each a nullifier and the spend's index.
pub open spec fn marked_all(
    notes: Seq<NoteView>,
    spends: Seq<([u8; 32], u32)>,
    height: u32,
    txid: [u8; 32],
) -> Seq<NoteView>
    decreases spends.len(),
{
    if spends.len() == 0 {
        notes
    } else {
        marked(
            marked_all(notes, spends.drop_last(), height, txid),
            spends.last().0@,
            height,
            txid,
            spends.last().1,
        )
    }
}

/// The rows of a transaction's Sapling outputs.
pub open spec fn sapling_rows(wtx: WalletTxView) -> Seq<NoteView> {
    wtx.sapling_outputs.map_values(
        |o: SaplingOutput| row_of(wtx.txid, wtx.height, o, sapling_blob(o.note)),
    )
}

/// The rows of a transaction's Orchard or Ironwood outputs.
pub open spec fn orchard_rows(wtx: WalletTxView, outputs: Seq<OrchardOutput>) -> Seq<NoteView> {
    outputs.map_values(|o: OrchardOutput| row_of(wtx.txid, wtx.height, o, orchard_blob(o.note)))
}

/// The nullifiers and indices of Sapling spends.
pub open spec fn sapling_marks(spends: Seq<SaplingSpend>) -> Seq<([u8; 32], u32)> {
    spends.map_values(|s: SaplingSpend| (s.nf, s.index))
}

/// The nullifiers and indices of Orchard or Ironwood spends.
pub open spec fn orchard_marks(spends: Seq<OrchardSpend>) -> Seq<([u8; 32], u32)> {
    spends.map_values(|s: OrchardSpend| (s.nf, s.index))
}

/// The tables after a transaction was applied: its row is written, then its notes are
/// inserted, then the notes that it spends are marked.
pub open spec fn applied_tx(db: DbView, wtx: WalletTxView) -> DbView {
    DbView {
        account: db.account,
        positions: db.positions,
        txs: upserted(db.txs, tx_row(wtx)),
        sapling_notes: marked_all(
            inserted_all(db.sapling_notes, sapling_rows(wtx)),
            sapling_marks(wtx.sapling_spends),
            wtx.height,
            wtx.txid,
        ),
        orchard_notes: marked_all(
            inserted_all(db.orchard_notes, orchard_rows(wtx, wtx.orchard_outputs)),
            orchard_marks(wtx.orchard_spends),
            wtx.height,
            wtx.txid,
        ),
        ironwood_notes: marked_all(
            inserted_all(db.ironwood_notes, orchard_rows(wtx, wtx.ironwood_outputs)),
            orchard_marks(wtx.ironwood_spends),
            wtx.height,
            wtx.txid,
        ),
    }
}

/// The tables after several transactions were applied in turn.
pub open spec fn applied_txs(db: DbView, txs: Seq<WalletTxView>) -> DbView
    decreases txs.len(),
{
    if txs.len() == 0 {
        db
    } else {
        applied_tx(applied_txs(db, txs.drop_last()), txs.last())
    }
}

/// The account row at a new position.
pub open spec fn synced_to(account: Option<AccountView>, at: Cursor) -> Option<AccountView> {
    match account {
        Some(row) => Some(
            AccountView {
                birthday: row.birthday,
                sync_height: Some(at.height),
                sync_hash: Some(at.hash@),
            },
        ),
        None => None,
    }
}

/// The tables after a batch was recorded up to a position.
pub open spec fn applied_at(db: DbView, at: Cursor, txs: Seq<WalletTxView>) -> DbView {
    DbView {
        account: synced_to(db.account, at),
        positions: recorded(db.positions, at),
        ..applied_txs(db, txs)
    }
}

/// The positions below a height.
pub open spec fn positions_below(positions: Seq<Cursor>, to: u32) -> Seq<Cursor> {
    collect_some(
        positions.map_values(
            |c: Cursor|
                if c.height < to {
                    Some(c)
                } else {
                    None
                },
        ),
    )
}

/// The last items of a list, as many as are kept.
pub open spec fn last_kept(positions: Seq<Cursor>) -> Seq<Cursor> {
    if positions.len() > POSITIONS_KEPT {
        positions.skip(positions.len() - POSITIONS_KEPT)
    } else {
        positions
    }
}

/// The positions once a batch was recorded at a new one: those below it, and the new one.
pub open spec fn recorded(positions: Seq<Cursor>, at: Cursor) -> Seq<Cursor> {
    last_kept(positions_below(positions, at.height).push(at))
}

/// The last position below a height that is not below the birthday.
pub open spec fn position_before(positions: Seq<Cursor>, birthday: u32, to: u32) -> Option<Cursor>
    decreases positions.len(),
{
    if positions.len() == 0 {
        None
    } else if birthday <= positions.last().height < to {
        Some(positions.last())
    } else {
        position_before(positions.drop_last(), birthday, to)
    }
}

/// The positions below a height.
fn keep_below(positions: &Vec<Cursor>, to: u32) -> (kept: Vec<Cursor>)
    ensures
        kept@ == positions_below(positions@, to),
{
    let ghost all = positions@.map_values(
        |c: Cursor|
            if c.height < to {
                Some(c)
            } else {
                None
            },
    );
    let mut kept: Vec<Cursor> = Vec::new();
    let mut i: usize = 0;
    assert(kept@ =~= collect_some(all.take(0)));
    while i < positions.len()
        invariant
            0 <= i <= positions.len(),
            all == positions@.map_values(
                |c: Cursor|
                    if c.height < to {
                        Some(c)
                    } else {
                        None
                    },
            ),
            kept@ == collect_some(all.take(i as int)),
        decreases positions.len() - i,
    {
        proof {
            lemma_collect_push(all.take(i as int), all[i as int]);
            assert(all.take(i as int + 1) =~= all.take(i as int).push(all[i as int]));
        }
        if positions[i].height < to {
            kept.push(positions[i]);
        }
        i = i + 1;
    }
    assert(all.take(i as int) =~= all);
    kept
}

/// Records a position.
fn record_position(positions: &mut Vec<Cursor>, at: Cursor)
    ensures
        final(positions)@ == recorded(old(positions)@, at),
{
    let mut kept = keep_below(positions, at.height);
    kept.push(at);
    let ghost all = kept@;
    let ghost mut dropped: int = 0;
    while kept.len() > POSITIONS_KEPT
        invariant
            0 <= dropped,
            dropped == 0 || kept.len() >= POSITIONS_KEPT,
            dropped + kept.len() == all.len(),
            kept@ == all.skip(dropped),
        decreases kept.len(),
    {
        let _ = kept.remove(0);
        proof {
            dropped = dropped + 1;
        }
        assert(kept@ =~= all.skip(dropped));
    }
    assert(kept@ =~= last_kept(all));
    *positions = kept;
}

/// The last position below a height that is not below the birthday.
fn find_position(positions: &Vec<Cursor>, birthday: u32, to: u32) -> (position: Option<Cursor>)
    ensures
        position == position_before(positions@, birthday, to),
{
    let mut i: usize = positions.len();
    assert(positions@.take(i as int) =~= positions@);
    while i > 0
        invariant
            0 <= i <= positions.len(),
            position_before(positions@, birthday, to) == position_before(
                positions@.take(i as int),
                birthday,
                to,
            ),
        decreases i,
    {
        assert(positions@.take(i as int).drop_last() =~= positions@.take(i as int - 1));
        let position = positions[i - 1];
        if birthday <= position.height && position.height < to {
            return Some(position);
        }
        i = i - 1;
    }
    None
}

/// Keeping the positions below a height keeps them in order.
proof fn lemma_below_wf(positions: Seq<Cursor>, to: u32)
    requires
        forall|i: int, j: int|
            0 <= i < j < positions.len() ==> (#[trigger] positions[i]).height < (
            #[trigger] positions[j]).height,
    ensures
        positions_below(positions, to).len() <= positions.len(),
        forall|i: int, j: int|
            0 <= i < j < positions_below(positions, to).len() ==> (#[trigger] positions_below(
                positions,
                to,
            )[i]).height < (#[trigger] positions_below(positions, to)[j]).height,
        forall|i: int|
            0 <= i < positions_below(positions, to).len() ==> (#[trigger] positions_below(
                positions,
                to,
            )[i]).height < to && positions.contains(positions_below(positions, to)[i]),
    decreases positions.len(),
{
    if positions.len() > 0 {
        let f = |c: Cursor|
            if c.height < to {
                Some(c)
            } else {
                None
            };
        let init = positions.drop_last();
        assert forall|i: int, j: int| 0 <= i < j < init.len() implies (#[trigger] init[i]).height < (
        #[trigger] init[j]).height by {
            assert(positions[i].height < positions[j].height);
        }
        lemma_below_wf(init, to);
        assert(positions.map_values(f).drop_last() =~= init.map_values(f));
        let before = positions_below(init, to);
        let after = positions_below(positions, to);
        assert forall|i: int| 0 <= i < after.len() implies (#[trigger] after[i]).height < to
            && positions.contains(after[i]) by {
            if i < before.len() {
                assert(init.contains(before[i]));
                let k = choose|k: int| 0 <= k < init.len() && init[k] == before[i];
                assert(positions[k] == after[i]);
            } else {
                assert(positions[positions.len() - 1] == after[i]);
            }
        }
        assert forall|i: int, j: int| 0 <= i < j < after.len() implies (#[trigger] after[i]).height
            < (#[trigger] after[j]).height by {
            if j < before.len() {
                assert(before[i].height < before[j].height);
            } else {
                assert(init.contains(before[i]));
                let k = choose|k: int| 0 <= k < init.len() && init[k] == before[i];
                assert(positions[k].height < positions[positions.len() - 1].height);
            }
        }
    }
}

/// Recording a position keeps the positions in order.
proof fn lemma_recorded_wf(positions: Seq<Cursor>, at: Cursor)
    requires
        positions_wf(positions),
    ensures
        positions_wf(recorded(positions, at)),
        recorded(positions, at).len() > 0,
        recorded(positions, at).last() == at,
{
    lemma_below_wf(positions, at.height);
    let below = positions_below(positions, at.height);
    let all = below.push(at);
    assert forall|i: int, j: int| 0 <= i < j < all.len() implies (#[trigger] all[i]).height < (
    #[trigger] all[j]).height by {
        if j < below.len() {
            assert(below[i].height < below[j].height);
        } else {
            assert(below[i].height < at.height);
        }
    }
    let kept = last_kept(all);
    let n = all.len() - kept.len();
    assert forall|i: int, j: int| 0 <= i < j < kept.len() implies (#[trigger] kept[i]).height < (
    #[trigger] kept[j]).height by {
        assert(kept[i] == all[i + n]);
        assert(kept[j] == all[j + n]);
    }
}

/// Inserts the rows of a transaction's Sapling outputs.
fn insert_sapling(table: &mut Vec<NoteRow>, wtx: &WalletTx)
    ensures
        note_views(final(table)@) == inserted_all(note_views(old(table)@), sapling_rows(wtx@)),
{
    let ghost rows = sapling_rows(wtx@);
    let mut i: usize = 0;
    assert(rows.take(0) =~= Seq::empty());
    while i < wtx.sapling_outputs.len()
        invariant
            0 <= i <= wtx.sapling_outputs.len(),
            rows == sapling_rows(wtx@),
            note_views(table@) == inserted_all(note_views(old(table)@), rows.take(i as int)),
        decreases wtx.sapling_outputs.len() - i,
    {
        proof {
            assert(rows.take(i as int + 1).drop_last() =~= rows.take(i as int));
        }
        let output = &wtx.sapling_outputs[i];
        let blob = serialize_sapling_note(&output.note);
        let row = make_row(wtx.txid, wtx.height, output, blob);
        insert_note(table, row);
        i = i + 1;
    }
    assert(rows.take(i as int) =~= rows);
}

/// Inserts the rows of Orchard or Ironwood outputs.
fn insert_orchard(table: &mut Vec<NoteRow>, wtx: &WalletTx, outputs: &Vec<OrchardOutput>)
    ensures
        note_views(final(table)@) == inserted_all(
            note_views(old(table)@),
            orchard_rows(wtx@, outputs@),
        ),
{
    let ghost rows = orchard_rows(wtx@, outputs@);
    let mut i: usize = 0;
    assert(rows.take(0) =~= Seq::empty());
    while i < outputs.len()
        invariant
            0 <= i <= outputs.len(),
            rows == orchard_rows(wtx@, outputs@),
            note_views(table@) == inserted_all(note_views(old(table)@), rows.take(i as int)),
        decreases outputs.len() - i,
    {
        proof {
            assert(rows.take(i as int + 1).drop_last() =~= rows.take(i as int));
        }
        let output = &outputs[i];
        let blob = serialize_orchard_note(&output.note);
        let row = make_row(wtx.txid, wtx.height, output, blob);
        insert_note(table, row);
        i = i + 1;
    }
    assert(rows.take(i as int) =~= rows);
}

/// Marks the notes that Sapling spends consume.
fn mark_sapling(table: &mut Vec<NoteRow>, spends: &Vec<SaplingSpend>, height: u32, txid: [u8; 32])
    ensures
        note_views(final(table)@) == marked_all(
            note_views(old(table)@),
            sapling_marks(spends@),
            height,
            txid,
        ),
{
    let ghost marks = sapling_marks(spends@);
    let mut i: usize = 0;
    assert(marks.take(0) =~= Seq::empty());
    while i < spends.len()
        invariant
            0 <= i <= spends.len(),
            marks == sapling_marks(spends@),
            note_views(table@) == marked_all(
                note_views(old(table)@),
                marks.take(i as int),
                height,
                txid,
            ),
        decreases spends.len() - i,
    {
        proof {
            assert(marks.take(i as int + 1).drop_last() =~= marks.take(i as int));
        }
        mark_spent(table, &spends[i].nf, height, txid, spends[i].index);
        i = i + 1;
    }
    assert(marks.take(i as int) =~= marks);
}

/// Marks the notes that Orchard or Ironwood spends consume.
fn mark_orchard(table: &mut Vec<NoteRow>, spends: &Vec<OrchardSpend>, height: u32, txid: [u8; 32])
    ensures
        note_views(final(table)@) == marked_all(
            note_views(old(table)@),
            orchard_marks(spends@),
            height,
            txid,
        ),
{
    let ghost marks = orchard_marks(spends@);
    let mut i: usize = 0;
    assert(marks.take(0) =~= Seq::empty());
    while i < spends.len()
        invariant
            0 <= i <= spends.len(),
            marks == orchard_marks(spends@),
            note_views(table@) == marked_all(
                note_views(old(table)@),
                marks.take(i as int),
                height,
                txid,
            ),
        decreases spends.len() - i,
    {
        proof {
            assert(marks.take(i as int + 1).drop_last() =~= marks.take(i as int));
        }
        mark_spent(table, &spends[i].nf, height, txid, spends[i].index);
        i = i + 1;
    }
    assert(marks.take(i as int) =~= marks);
}

/// The account row after a rewind. A position at or above the height is discarded: the
/// account goes back to the last one below the height, or has never synced where there is
/// none, nor anything above the birthday.
pub open spec fn rewound_account(row: AccountView, positions: Seq<Cursor>, to: u32) -> AccountView {
    if to <= row.birthday {
        AccountView { birthday: row.birthday, sync_height: None, sync_hash: None }
    } else if row.sync_height matches Some(height) && height >= to {
        match position_before(positions, row.birthday, to) {
            Some(position) => AccountView {
                birthday: row.birthday,
                sync_height: Some(position.height),
                sync_hash: Some(position.hash@),
            },
            None => AccountView { birthday: row.birthday, sync_height: None, sync_hash: None },
        }
    } else {
        row
    }
}

/// The tables after a rewind.
pub open spec fn rewound(db: DbView, to: u32) -> DbView {
    DbView {
        account: match db.account {
            Some(row) => Some(rewound_account(row, db.positions, to)),
            None => None,
        },
        positions: positions_below(db.positions, to),
        txs: rewound_txs(db.txs, to),
        sapling_notes: rewound_notes(db.sapling_notes, to),
        orchard_notes: rewound_notes(db.orchard_notes, to),
        ironwood_notes: rewound_notes(db.ironwood_notes, to),
    }
}

/// The height from which an account scans: just above its checkpoint, or the birthday.
pub open spec fn scans_from(account: AccountView) -> u32 {
    match checkpoint_of(account) {
        Some(at) => if at.0 < u32::MAX {
            (at.0 + 1) as u32
        } else {
            u32::MAX
        },
        None => account.birthday,
    }
}

/// The tables after a rewind to a height, and on to where the account then scans from.
pub open spec fn rewound_to_position(db: DbView, to: u32) -> DbView {
    let once = rewound(db, to);
    match once.account {
        Some(account) => rewound(once, scans_from(account)),
        None => once,
    }
}

/// The transactions below a height.
pub open spec fn rewound_txs(txs: Seq<TxRow>, to: u32) -> Seq<TxRow> {
    collect_some(
        txs.map_values(
            |t: TxRow|
                if t.block_height >= to {
                    None
                } else {
                    Some(t)
                },
        ),
    )
}

/// What a note counts toward the balance: where it is unspent and was not sent, the value
/// that its blob holds in the eight bytes after the 43-byte recipient.
pub open spec fn unspent_row_value(note: NoteView) -> int {
    if !note.spent && !note.is_sent && note.note.len() >= 51 {
        le_value(note.note.subrange(43, 51))
    } else {
        0
    }
}

/// The value of the unspent notes of a table.
pub open spec fn unspent_value(notes: Seq<NoteView>) -> int
    decreases notes.len(),
{
    if notes.len() == 0 {
        0
    } else {
        unspent_value(notes.drop_last()) + unspent_row_value(notes.last())
    }
}

/// The smaller of a sum and the largest 64-bit integer.
pub open spec fn capped(total: int) -> int {
    if total <= u64::MAX {
        total
    } else {
        u64::MAX as int
    }
}

/// A value in eight bytes is not negative.
proof fn lemma_row_value(note: NoteView)
    ensures
        unspent_row_value(note) >= 0,
{
}

/// The value of a table is not negative.
proof fn lemma_unspent_value(notes: Seq<NoteView>)
    ensures
        unspent_value(notes) >= 0,
    decreases notes.len(),
{
    if notes.len() > 0 {
        lemma_unspent_value(notes.drop_last());
        lemma_row_value(notes.last());
    }
}

/// Adds the value of the unspent notes of a table to a total.
fn add_unspent(total: u64, table: &Vec<NoteRow>) -> (sum: u64)
    ensures
        sum == capped(total + unspent_value(note_views(table@))),
{
    let ghost notes = note_views(table@);
    let mut sum: u64 = total;
    let mut i: usize = 0;
    assert(notes.take(0) =~= Seq::empty());
    while i < table.len()
        invariant
            0 <= i <= table.len(),
            notes == note_views(table@),
            sum == capped(total + unspent_value(notes.take(i as int))),
        decreases table.len() - i,
    {
        proof {
            assert(notes.take(i as int + 1).drop_last() =~= notes.take(i as int));
            lemma_unspent_value(notes.take(i as int));
            lemma_row_value(notes[i as int]);
        }
        if !table[i].spent && !table[i].is_sent && table[i].note.len() >= 51 {
            sum = sum.saturating_add(read_le(&table[i].note, 43));
        }
        i = i + 1;
    }
    assert(notes.take(i as int) =~= notes);
    sum
}

/// The nullifier blobs of the unspent notes of a table, in order.
pub open spec fn watched_blobs(notes: Seq<NoteView>) -> Seq<Seq<u8>> {
    collect_some(
        notes.map_values(
            |n: NoteView|
                if n.spent {
                    None
                } else {
                    n.nf
                },
        ),
    )
}

/// Whether every blob has the length of a Sapling nullifier.
pub open spec fn sapling_blobs_valid(blobs: Seq<Seq<u8>>) -> bool {
    forall|i: int| 0 <= i < blobs.len() ==> (#[trigger] blobs[i]).len() == 32
}

/// The nullifiers of the unspent Sapling notes. A nullifier of the wrong length is a blob that
/// the storage cannot read.
pub fn load_sapling_nullifiers(table: &Vec<NoteRow>) -> (result: Result<Vec<[u8; 32]>, DbError>)
    ensures
        result is Ok == sapling_blobs_valid(watched_blobs(note_views(table@))),
        result matches Ok(nfs) ==> nfs@.map_values(|nf: [u8; 32]| nf@) == watched_blobs(
            note_views(table@),
        ),
        result matches Err(e) ==> (e matches DbError::Sqlite(text) && text@ == conversion_text(
            "sapling nf not 32 bytes"@,
        )),
{
    let ghost notes = note_views(table@);
    let ghost all = notes.map_values(
        |n: NoteView|
            if n.spent {
                None
            } else {
                n.nf
            },
    );
    let mut nfs: Vec<[u8; 32]> = Vec::new();
    let mut i: usize = 0;
    assert(nfs@.map_values(|nf: [u8; 32]| nf@) =~= collect_some(all.take(0)));
    while i < table.len()
        invariant
            0 <= i <= table.len(),
            notes == note_views(table@),
            all == notes.map_values(
                |n: NoteView|
                    if n.spent {
                        None
                    } else {
                        n.nf
                    },
            ),
            nfs@.map_values(|nf: [u8; 32]| nf@) == collect_some(all.take(i as int)),
            forall|j: int|
                0 <= j < collect_some(all.take(i as int)).len() ==> (#[trigger] collect_some(
                    all.take(i as int),
                )[j]).len() == 32,
        decreases table.len() - i,
    {
        proof {
            lemma_collect_push(all.take(i as int), all[i as int]);
            assert(all.take(i as int + 1) =~= all.take(i as int).push(all[i as int]));
        }
        if !table[i].spent {
            if let Some(bytes) = &table[i].nf {
                match to_array(bytes.as_slice()) {
                    Some(nf) => {
                        let ghost before = nfs@;
                        nfs.push(nf);
                        assert(nfs@.map_values(|nf: [u8; 32]| nf@) =~= before.map_values(
                            |nf: [u8; 32]| nf@,
                        ).push(bytes@));
                    },
                    None => {
                        proof {
                            lemma_collect_keeps(all, i as int);
                            let k = collect_some(all.take(i as int)).len() as int;
                            assert(watched_blobs(notes)[k] == bytes@);
                        }
                        return Err(conversion_failure("sapling nf not 32 bytes"));
                    },
                }
            }
        }
        i = i + 1;
    }
    assert(all.take(i as int) =~= all);
    Ok(nfs)
}

/// What is collected of a prefix stays where it is, and a present entry comes next.
proof fn lemma_collect_keeps<T>(all: Seq<Option<T>>, i: int)
    requires
        0 <= i < all.len(),
        all[i] is Some,
    ensures
        ({
            let k = collect_some(all.take(i)).len() as int;
            k < collect_some(all).len() && collect_some(all)[k] == all[i]->0
        }),
{
    lemma_collect_push(all.take(i), all[i]);
    assert(all.take(i + 1) =~= all.take(i).push(all[i]));
    lemma_collect_concat(all.take(i + 1), all.skip(i + 1));
    assert(all.take(i + 1) + all.skip(i + 1) =~= all);
}

/// Why a nullifier blob of an Orchard or Ironwood note cannot be read.
pub open spec fn orchard_blob_error(blob: Seq<u8>) -> Option<Seq<char>> {
    if blob.len() != 32 {
        Some(conversion_text("orchard nf not 32 bytes"@))
    } else if !orchard_nullifier_valid(blob) {
        Some(conversion_text("invalid orchard nullifier"@))
    } else {
        None
    }
}

/// Whether the entry at `i` is the first with an error, and the error's text.
pub open spec fn first_blob_error(blobs: Seq<Seq<u8>>, i: int, text: Seq<char>) -> bool {
    &&& 0 <= i < blobs.len()
    &&& orchard_blob_error(blobs[i]) == Some(text)
    &&& forall|j: int| 0 <= j < i ==> orchard_blob_error(#[trigger] blobs[j]) is None
}

/// Whether every blob is an Orchard nullifier.
pub open spec fn orchard_blobs_valid(blobs: Seq<Seq<u8>>) -> bool {
    forall|i: int| 0 <= i < blobs.len() ==> orchard_blob_error(#[trigger] blobs[i]) is None
}

/// The nullifiers of the unspent Orchard or Ironwood notes. A blob that is no nullifier cannot
/// be read.
pub fn load_orchard_nullifiers(table: &Vec<NoteRow>) -> (result: Result<Vec<[u8; 32]>, DbError>)
    ensures
        result is Ok == orchard_blobs_valid(watched_blobs(note_views(table@))),
        result matches Ok(nfs) ==> nfs@.map_values(|nf: [u8; 32]| nf@) == watched_blobs(
            note_views(table@),
        ),
        result is Err ==> result->Err_0 is Sqlite && exists|i: int|
            #[trigger] first_blob_error(
                watched_blobs(note_views(table@)),
                i,
                result->Err_0->Sqlite_0@,
            ),
{
    let ghost notes = note_views(table@);
    let ghost all = notes.map_values(
        |n: NoteView|
            if n.spent {
                None
            } else {
                n.nf
            },
    );
    let mut nfs: Vec<[u8; 32]> = Vec::new();
    let mut i: usize = 0;
    assert(nfs@.map_values(|nf: [u8; 32]| nf@) =~= collect_some(all.take(0)));
    while i < table.len()
        invariant
            0 <= i <= table.len(),
            notes == note_views(table@),
            all == notes.map_values(
                |n: NoteView|
                    if n.spent {
                        None
                    } else {
                        n.nf
                    },
            ),
            nfs@.map_values(|nf: [u8; 32]| nf@) == collect_some(all.take(i as int)),
            forall|j: int|
                0 <= j < collect_some(all.take(i as int)).len() ==> orchard_blob_error(
                    #[trigger] collect_some(all.take(i as int))[j],
                ) is None,
        decreases table.len() - i,
    {
        proof {
            lemma_collect_push(all.take(i as int), all[i as int]);
            assert(all.take(i as int + 1) =~= all.take(i as int).push(all[i as int]));
        }
        if !table[i].spent {
            if let Some(bytes) = &table[i].nf {
                let ghost k = collect_some(all.take(i as int)).len() as int;
                proof {
                    lemma_collect_keeps(all, i as int);
                    lemma_collect_concat(all.take(i as int), all.skip(i as int));
                    assert(all.take(i as int) + all.skip(i as int) =~= all);
                    assert(forall|j: int|
                        0 <= j < k ==> collect_some(all.take(i as int))[j] == watched_blobs(notes)[j]);
                }
                match to_array(bytes.as_slice()) {
                    Some(nf) => {
                        if !orchard_nullifier_parses(&nf) {
                            let e = conversion_failure("invalid orchard nullifier");
                            assert(first_blob_error(watched_blobs(notes), k, e->Sqlite_0@));
                            return Err(e);
                        }
                        let ghost before = nfs@;
                        nfs.push(nf);
                        assert(nfs@.map_values(|nf: [u8; 32]| nf@) =~= before.map_values(
                            |nf: [u8; 32]| nf@,
                        ).push(bytes@));
                    },
                    None => {
                        let e = conversion_failure("orchard nf not 32 bytes");
                        assert(first_blob_error(watched_blobs(notes), k, e->Sqlite_0@));
                        return Err(e);
                    },
                }
            }
        }
        i = i + 1;
    }
    assert(all.take(i as int) =~= all);
    Ok(nfs)
}

/// Inserting keeps the keys of a note table unique.
proof fn lemma_inserted_wf(notes: Seq<NoteView>, row: NoteView)
    requires
        notes_wf(notes),
        spend_consistent(row),
    ensures
        notes_wf(inserted(notes, row)),
{
}

/// Inserting several rows keeps a note table well formed.
proof fn lemma_inserted_all_wf(notes: Seq<NoteView>, rows: Seq<NoteView>)
    requires
        notes_wf(notes),
        forall|i: int| 0 <= i < rows.len() ==> spend_consistent(#[trigger] rows[i]),
    ensures
        notes_wf(inserted_all(notes, rows)),
    decreases rows.len(),
{
    if rows.len() > 0 {
        assert forall|i: int| 0 <= i < rows.len() - 1 implies spend_consistent(
            #[trigger] rows.drop_last()[i],
        ) by {
            assert(rows.drop_last()[i] == rows[i]);
        }
        lemma_inserted_all_wf(notes, rows.drop_last());
        assert(rows.last() == rows[rows.len() - 1]);
        lemma_inserted_wf(inserted_all(notes, rows.drop_last()), rows.last());
    }
}

/// Marking spends keeps a note table well formed.
proof fn lemma_marked_all_wf(
    notes: Seq<NoteView>,
    spends: Seq<([u8; 32], u32)>,
    height: u32,
    txid: [u8; 32],
)
    requires
        notes_wf(notes),
    ensures
        notes_wf(marked_all(notes, spends, height, txid)),
    decreases spends.len(),
{
    if spends.len() > 0 {
        let before = marked_all(notes, spends.drop_last(), height, txid);
        lemma_marked_all_wf(notes, spends.drop_last(), height, txid);
        let after = marked_all(notes, spends, height, txid);
        assert forall|i: int, j: int| 0 <= i < j < after.len() implies !same_key(
            #[trigger] after[i],
            #[trigger] after[j],
        ) by {
            assert(!same_key(before[i], before[j]));
        }
        assert forall|i: int| 0 <= i < after.len() implies spend_consistent(#[trigger] after[i]) by {
            assert(spend_consistent(before[i]));
        }
    }
}

/// The notes of a transaction are inserted and its spends marked without harm.
proof fn lemma_table_wf(
    notes: Seq<NoteView>,
    rows: Seq<NoteView>,
    spends: Seq<([u8; 32], u32)>,
    height: u32,
    txid: [u8; 32],
)
    requires
        notes_wf(notes),
        forall|i: int| 0 <= i < rows.len() ==> spend_consistent(#[trigger] rows[i]),
    ensures
        notes_wf(marked_all(inserted_all(notes, rows), spends, height, txid)),
{
    lemma_inserted_all_wf(notes, rows);
    lemma_marked_all_wf(inserted_all(notes, rows), spends, height, txid);
}

/// Writing a row keeps the keys of a transaction table unique.
proof fn lemma_upserted_unique(txs: Seq<TxRow>, row: TxRow)
    requires
        tx_keys_unique(txs),
    ensures
        tx_keys_unique(upserted(txs, row)),
{
    let after = upserted(txs, row);
    if exists|i: int| 0 <= i < txs.len() && (#[trigger] txs[i]).txid == row.txid {
        assert forall|i: int, j: int| 0 <= i < j < after.len() implies (#[trigger] after[i]).txid != (
        #[trigger] after[j]).txid by {
            assert(txs[i].txid != txs[j].txid);
        }
    }
}

/// Rewinding keeps a note table well formed.
proof fn lemma_rewound_notes_wf(notes: Seq<NoteView>, to: u32)
    requires
        notes_wf(notes),
    ensures
        notes_wf(rewound_notes(notes, to)),
    decreases notes.len(),
{
    if notes.len() > 0 {
        let init = notes.drop_last();
        let f = |n: NoteView| rewound_note(n, to);
        assert forall|i: int, j: int| 0 <= i < j < init.len() implies !same_key(
            #[trigger] init[i],
            #[trigger] init[j],
        ) by {
            assert(!same_key(notes[i], notes[j]));
        }
        assert forall|i: int| 0 <= i < init.len() implies spend_consistent(#[trigger] init[i]) by {
            assert(spend_consistent(notes[i]));
        }
        assert(spend_consistent(notes[notes.len() - 1]));
        lemma_rewound_notes_wf(init, to);
        assert(notes.map_values(f).drop_last() =~= init.map_values(f));
        let before = rewound_notes(init, to);
        let after = rewound_notes(notes, to);
        assert forall|i: int, j: int| 0 <= i < j < after.len() implies !same_key(
            #[trigger] after[i],
            #[trigger] after[j],
        ) by {
            if j < before.len() {
                assert(!same_key(before[i], before[j]));
            } else {
                lemma_collect_from(init.map_values(f), i);
                let k = choose|k: int|
                    0 <= k < init.map_values(f).len() && #[trigger] init.map_values(f)[k] == Some(
                        before[i],
                    );
                assert(!same_key(notes[k], notes[notes.len() - 1]));
            }
        }
        assert forall|i: int| 0 <= i < after.len() implies spend_consistent(#[trigger] after[i]) by {
            if i < before.len() {
                assert(spend_consistent(before[i]));
            }
        }
    }
}

/// Rewinding keeps the keys of a transaction table unique.
proof fn lemma_rewound_txs_unique(txs: Seq<TxRow>, to: u32)
    requires
        tx_keys_unique(txs),
    ensures
        tx_keys_unique(rewound_txs(txs, to)),
    decreases txs.len(),
{
    if txs.len() > 0 {
        let init = txs.drop_last();
        let f = |t: TxRow|
            if t.block_height >= to {
                None
            } else {
                Some(t)
            };
        assert forall|i: int, j: int| 0 <= i < j < init.len() implies (#[trigger] init[i]).txid != (
        #[trigger] init[j]).txid by {
            assert(txs[i].txid != txs[j].txid);
        }
        lemma_rewound_txs_unique(init, to);
        assert(txs.map_values(f).drop_last() =~= init.map_values(f));
        let before = rewound_txs(init, to);
        let after = rewound_txs(txs, to);
        assert forall|i: int, j: int| 0 <= i < j < after.len() implies (#[trigger] after[i]).txid != (
        #[trigger] after[j]).txid by {
            if j < before.len() {
                assert(before[i].txid != before[j].txid);
            } else {
                lemma_collect_from(init.map_values(f), i);
                let k = choose|k: int|
                    0 <= k < init.map_values(f).len() && #[trigger] init.map_values(f)[k] == Some(
                        before[i],
                    );
                assert(txs[k].txid != txs[txs.len() - 1].txid);
            }
        }
    }
}

/// Applying transactions leaves the account row and the positions as they are.
proof fn lemma_applied_account(db: DbView, txs: Seq<WalletTxView>)
    ensures
        applied_txs(db, txs).account == db.account,
        applied_txs(db, txs).positions == db.positions,
    decreases txs.len(),
{
    if txs.len() > 0 {
        lemma_applied_account(db, txs.drop_last());
    }
}

/// Applying transactions keeps the tables well formed.
pub proof fn lemma_applied_wf(db: DbView, txs: Seq<WalletTxView>)
    requires
        db.wf(),
    ensures
        applied_txs(db, txs).wf(),
    decreases txs.len(),
{
    if txs.len() > 0 {
        let before = applied_txs(db, txs.drop_last());
        let wtx = txs.last();
        lemma_applied_account(db, txs);
        lemma_applied_wf(db, txs.drop_last());
        lemma_upserted_unique(before.txs, tx_row(wtx));
        lemma_table_wf(
            before.sapling_notes,
            sapling_rows(wtx),
            sapling_marks(wtx.sapling_spends),
            wtx.height,
            wtx.txid,
        );
        lemma_table_wf(
            before.orchard_notes,
            orchard_rows(wtx, wtx.orchard_outputs),
            orchard_marks(wtx.orchard_spends),
            wtx.height,
            wtx.txid,
        );
        lemma_table_wf(
            before.ironwood_notes,
            orchard_rows(wtx, wtx.ironwood_outputs),
            orchard_marks(wtx.ironwood_spends),
            wtx.height,
            wtx.txid,
        );
    }
}

/// Rewinding keeps the tables well formed.
pub proof fn lemma_rewound_wf(db: DbView, to: u32)
    requires
        db.wf(),
    ensures
        rewound(db, to).wf(),
{
    lemma_below_wf(db.positions, to);
    lemma_rewound_txs_unique(db.txs, to);
    lemma_rewound_notes_wf(db.sapling_notes, to);
    lemma_rewound_notes_wf(db.orchard_notes, to);
    lemma_rewound_notes_wf(db.ironwood_notes, to);
}

/// The position that the account row tells, where it is complete.
pub open spec fn checkpoint_of(account: AccountView) -> Option<(u32, Seq<u8>)> {
    match (account.sync_height, account.sync_hash) {
        (Some(height), Some(hash)) => Some((height, hash)),
        _ => None,
    }
}

/// Whether every nullifier of an unspent note can be read.
pub open spec fn nullifiers_readable(db: DbView) -> bool {
    &&& sapling_blobs_valid(watched_blobs(db.sapling_notes))
    &&& orchard_blobs_valid(watched_blobs(db.orchard_notes))
    &&& orchard_blobs_valid(watched_blobs(db.ironwood_notes))
}

/// Whether `text` says why a nullifier of an unspent note cannot be read: the first
/// blob that is none, in the order of the pools.
pub open spec fn nullifier_error(db: DbView, text: Seq<char>) -> bool {
    if !sapling_blobs_valid(watched_blobs(db.sapling_notes)) {
        text == conversion_text("sapling nf not 32 bytes"@)
    } else if !orchard_blobs_valid(watched_blobs(db.orchard_notes)) {
        exists|i: int| #[trigger] first_blob_error(watched_blobs(db.orchard_notes), i, text)
    } else {
        exists|i: int| #[trigger] first_blob_error(watched_blobs(db.ironwood_notes), i, text)
    }
}

/// Whether the nullifiers are those of the unspent notes.
pub open spec fn are_watched(db: DbView, nullifiers: Nullifiers) -> bool {
    &&& nullifiers.sapling@.map_values(|nf: [u8; 32]| nf@) == watched_blobs(db.sapling_notes)
    &&& nullifiers.orchard@.map_values(|nf: [u8; 32]| nf@) == watched_blobs(db.orchard_notes)
    &&& nullifiers.ironwood@.map_values(|nf: [u8; 32]| nf@) == watched_blobs(db.ironwood_notes)
}

impl Db {
    /// Empty tables.
    pub fn open_memory() -> (db: Self)
        ensures
            db@.wf(),
            db@ == (DbView {
                account: None,
                positions: Seq::empty(),
                txs: Seq::empty(),
                sapling_notes: Seq::empty(),
                orchard_notes: Seq::empty(),
                ironwood_notes: Seq::empty(),
            }),
    {
        let db = Db {
            account: None,
            positions: Vec::new(),
            txs: Vec::new(),
            sapling_notes: Vec::new(),
            orchard_notes: Vec::new(),
            ironwood_notes: Vec::new(),
        };
        assert(db@.positions =~= Seq::empty());
        assert(db@.txs =~= Seq::empty());
        assert(db@.sapling_notes =~= Seq::empty());
        assert(db@.orchard_notes =~= Seq::empty());
        assert(db@.ironwood_notes =~= Seq::empty());
        db
    }

    /// Makes the account row, unless there is one.
    pub fn init_account(&mut self, birthday: u32)
        ensures
            final(self)@ == (DbView {
                account: match old(self)@.account {
                    Some(row) => Some(row),
                    None => Some(AccountView { birthday, sync_height: None, sync_hash: None }),
                },
                ..old(self)@
            }),
    {
        if self.account.is_none() {
            self.account = Some(AccountRow { birthday, sync_height: None, sync_hash: None });
        }
    }

    /// The value of all unspent notes, in zatoshis. A note that was sent does not count.
    pub fn balance(&self) -> (total: u64)
        ensures
            total == capped(
                unspent_value(self@.sapling_notes) + unspent_value(self@.orchard_notes)
                    + unspent_value(self@.ironwood_notes),
            ),
    {
        proof {
            lemma_unspent_value(self@.sapling_notes);
            lemma_unspent_value(self@.orchard_notes);
            lemma_unspent_value(self@.ironwood_notes);
        }
        let total = add_unspent(0, &self.sapling_notes);
        let total = add_unspent(total, &self.orchard_notes);
        add_unspent(total, &self.ironwood_notes)
    }

    /// The nullifiers of the unspent notes of every pool.
    pub fn load_nullifiers(&self) -> (result: Result<Nullifiers, DbError>)
        ensures
            result is Ok == nullifiers_readable(self@),
            result matches Ok(nullifiers) ==> are_watched(self@, nullifiers),
            result is Err ==> result->Err_0 is Sqlite && nullifier_error(
                self@,
                result->Err_0->Sqlite_0@,
            ),
    {
        let sapling = match load_sapling_nullifiers(&self.sapling_notes) {
            Ok(nfs) => nfs,
            Err(e) => return Err(e),
        };
        let orchard = match load_orchard_nullifiers(&self.orchard_notes) {
            Ok(nfs) => nfs,
            Err(e) => return Err(e),
        };
        let ironwood = match load_orchard_nullifiers(&self.ironwood_notes) {
            Ok(nfs) => nfs,
            Err(e) => {
                proof {
                    let blobs = watched_blobs(self@.ironwood_notes);
                    let i = choose|i: int| first_blob_error(blobs, i, e->Sqlite_0@);
                    assert(first_blob_error(blobs, i, e->Sqlite_0@));
                    assert(sapling_blobs_valid(watched_blobs(self@.sapling_notes)));
                    assert(orchard_blobs_valid(watched_blobs(self@.orchard_notes)));
                }
                return Err(e);
            },
        };
        Ok(Nullifiers { sapling, orchard, ironwood })
    }

    /// The state to resume syncing from. There is none without an account row, nor
    /// where the position's hash or a nullifier cannot be read.
    pub fn resume(&self) -> (result: Result<Resume, DbError>)
        ensures
            result is Ok == (self@.account matches Some(account) && (checkpoint_of(account) matches Some(
                at,
            ) ==> at.1.len() == 32) && nullifiers_readable(self@)),
            result matches Ok(resume) ==> {
                let account = self@.account->0;
                &&& resume.birthday == account.birthday
                &&& are_watched(self@, resume.nullifiers)
                &&& resume.checkpoint is Some == checkpoint_of(account) is Some
                &&& resume.checkpoint matches Some(cursor) ==> checkpoint_of(account) == Some(
                    (cursor.height, cursor.hash@),
                )
            },
            result matches Err(e) ==> match self@.account {
                None => e matches DbError::Sqlite(text) && text@ == "Query returned no rows"@,
                Some(account) => if checkpoint_of(account) matches Some(at) && at.1.len() != 32 {
                    e matches DbError::Corrupt(text) && text@ == "sync_hash is not 32 bytes"@
                } else {
                    e matches DbError::Sqlite(text) && nullifier_error(self@, text@)
                },
            },
    {
        let account = match &self.account {
            Some(account) => account,
            None => return Err(DbError::Sqlite("Query returned no rows".to_owned())),
        };
        let checkpoint = match (&account.sync_height, &account.sync_hash) {
            (Some(height), Some(bytes)) => match to_array(bytes.as_slice()) {
                Some(hash) => Some(Cursor { height: *height, hash }),
                None => return Err(DbError::Corrupt("sync_hash is not 32 bytes".to_owned())),
            },
            _ => None,
        };
        let nullifiers = match self.load_nullifiers() {
            Ok(nullifiers) => nullifiers,
            Err(e) => return Err(e),
        };
        Ok(Resume { birthday: account.birthday, checkpoint, nullifiers })
    }

    /// Discards what was recorded at or above `to`: notes received there and their
    /// transactions go, and notes spent there are unspent again. A checkpoint there goes too:
    /// the account resumes from the last position below `to` that a batch was recorded at,
    /// and starts over where there is none.
    pub fn rewind(&mut self, to: u32)
        ensures
            final(self)@ == rewound(old(self)@, to),
            old(self)@.wf() ==> final(self)@.wf(),
    {
        proof {
            if self@.wf() {
                lemma_rewound_wf(self@, to);
            }
        }
        rewind_notes(&mut self.sapling_notes, to);
        rewind_notes(&mut self.orchard_notes, to);
        rewind_notes(&mut self.ironwood_notes, to);
        let ghost txs = self.txs@;
        let ghost all = txs.map_values(
            |t: TxRow|
                if t.block_height >= to {
                    None
                } else {
                    Some(t)
                },
        );
        let mut kept: Vec<TxRow> = Vec::new();
        let mut i: usize = 0;
        assert(all.take(0) =~= Seq::empty());
        assert(kept@ =~= Seq::empty());
        while i < self.txs.len()
            invariant
                0 <= i <= self.txs.len(),
                txs == self.txs@,
                all == txs.map_values(
                    |t: TxRow|
                        if t.block_height >= to {
                            None
                        } else {
                            Some(t)
                        },
                ),
                kept@ == collect_some(all.take(i as int)),
            decreases self.txs.len() - i,
        {
            proof {
                lemma_collect_push(all.take(i as int), all[i as int]);
                assert(all.take(i as int + 1) =~= all.take(i as int).push(all[i as int]));
            }
            if self.txs[i].block_height < to {
                kept.push(self.txs[i]);
            }
            i = i + 1;
        }
        assert(all.take(i as int) =~= all);
        self.txs = kept;
        if let Some(account) = &mut self.account {
            let above = match account.sync_height {
                Some(height) => height >= to,
                None => false,
            };
            if to <= account.birthday {
                account.sync_height = None;
                account.sync_hash = None;
            } else if above {
                match find_position(&self.positions, account.birthday, to) {
                    Some(position) => {
                        account.sync_height = Some(position.height);
                        account.sync_hash = Some(slice_bytes(&position.hash));
                    },
                    None => {
                        account.sync_height = None;
                        account.sync_hash = None;
                    },
                }
            }
        }
        self.positions = keep_below(&self.positions, to);
    }

    /// Rewinds to `to`, and then to just above the position that the account goes back to,
    /// or to the birthday. The blocks from there on are scanned again, so nothing that they
    /// may no longer hold is left above the checkpoint.
    pub fn rewind_to_position(&mut self, to: u32)
        ensures
            final(self)@ == rewound_to_position(old(self)@, to),
            old(self)@.wf() ==> final(self)@.wf(),
    {
        self.rewind(to);
        let from: Option<u32> = match &self.account {
            Some(account) => match (&account.sync_height, &account.sync_hash) {
                (Some(height), Some(_)) => Some(height.saturating_add(1)),
                _ => Some(account.birthday),
            },
            None => None,
        };
        if let Some(from) = from {
            self.rewind(from);
        }
    }

    /// Records one transaction.
    fn apply_tx(&mut self, wtx: &WalletTx)
        ensures
            final(self)@ == applied_tx(old(self)@, wtx@),
    {
        let is_outgoing = has_sent(&wtx.sapling_outputs) || has_sent(&wtx.orchard_outputs)
            || has_sent(&wtx.ironwood_outputs);
        let amount: i64 = stored_amount(wtx);
        upsert_tx(
            &mut self.txs,
            TxRow {
                txid: wtx.txid,
                block_height: wtx.height,
                tx_index: wtx.tx_index,
                amount,
                is_outgoing,
            },
        );
        insert_sapling(&mut self.sapling_notes, wtx);
        insert_orchard(&mut self.orchard_notes, wtx, &wtx.orchard_outputs);
        insert_orchard(&mut self.ironwood_notes, wtx, &wtx.ironwood_outputs);
        mark_sapling(&mut self.sapling_notes, &wtx.sapling_spends, wtx.height, wtx.txid);
        mark_orchard(&mut self.orchard_notes, &wtx.orchard_spends, wtx.height, wtx.txid);
        mark_orchard(&mut self.ironwood_notes, &wtx.ironwood_spends, wtx.height, wtx.txid);
    }

    /// Records transactions in turn.
    fn apply_all(&mut self, transactions: &Vec<WalletTx>)
        ensures
            final(self)@ == applied_txs(old(self)@, tx_views(transactions@)),
    {
        let ghost views = tx_views(transactions@);
        let mut i: usize = 0;
        assert(views.take(0) =~= Seq::empty());
        while i < transactions.len()
            invariant
                0 <= i <= transactions.len(),
                views == tx_views(transactions@),
                self@ == applied_txs(old(self)@, views.take(i as int)),
            decreases transactions.len() - i,
        {
            proof {
                assert(views.take(i as int + 1).drop_last() =~= views.take(i as int));
            }
            self.apply_tx(&transactions[i]);
            i = i + 1;
        }
        assert(views.take(i as int) =~= views);
    }

    /// Records a batch of transactions, and the position up to which the chain was
    /// scanned.
    pub fn apply(&mut self, at: Cursor, transactions: &Vec<WalletTx>)
        ensures
            final(self)@ == applied_at(old(self)@, at, tx_views(transactions@)),
            old(self)@.wf() ==> final(self)@.wf(),
    {
        self.apply_all(transactions);
        proof {
            lemma_applied_account(old(self)@, tx_views(transactions@));
        }
        if let Some(account) = &mut self.account {
            account.sync_height = Some(at.height);
            account.sync_hash = Some(slice_bytes(&at.hash));
        }
        record_position(&mut self.positions, at);
        proof {
            if old(self)@.wf() {
                lemma_applied_wf(old(self)@, tx_views(transactions@));
                lemma_recorded_wf(old(self)@.positions, at);
            }
        }
    }
}

} // verus!
