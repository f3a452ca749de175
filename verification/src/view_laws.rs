//! Laws of views: a list is told row by row, none left out, and a row column by column.

use vstd::prelude::*;

use crate::bytes::byte_strings;
use crate::chain::{chunk_views, utxo_views, TransparentUtxo};
use crate::db::account::pool_views;
use crate::db::commitment_tree::{
    checkpoint_views, error_of, pair_views, shard_views, Checkpoint, CheckpointRow, Error,
    ShardRow, ShardTables,
};
use crate::db::rows::{note_row_views, utxo_row_views, NoteRow as ShownNote, UtxoRow};
use crate::db::store::{
    output_views, record_views, Db as Store, NoteRecord, OutputRecord, Pool,
};
use crate::db::{note_views, AccountRow, Db, NoteRow};
use crate::primitives::TransparentAddress;
use crate::proto::CompactBlock;
use crate::scan::types::{received_views, TransparentReceived};
use crate::sync::enrich::{actions_view, orchard_ivk_view, outputs_view, sapling_ivk_view};
use crate::sync::scan::{
    full_entries, scripts_below, scripts_view, tx_views, watched_scripts, TransparentOutput,
    TransparentScanningKey, WalletTx,
};
use crate::sync::transparent::address_views;
use crate::sync::transparent_scan::scripts_of;
use crate::sync::{BlockStep, StepView};
use crate::upstream::orchard_notes::{OrchardFullAction, OrchardIvk};
use crate::upstream::sapling_notes::{SaplingFullOutput, SaplingIvk};
use crate::upstream::transactions::FullTransaction;
use crate::upstream::transparent_keys::{external_address_of, internal_address_of, script_of};

verus! {

/// All byte strings of a list are told, in order.
pub proof fn law_all_byte_strings_are_told(rows: Seq<Vec<u8>>)
    ensures
        byte_strings(rows).len() == rows.len(),
        forall|i: int| 0 <= i < rows.len() ==> #[trigger] byte_strings(rows)[i] == rows[i]@,
{
}

/// All transactions of a list are told, in order.
pub proof fn law_all_transactions_are_told(rows: Seq<WalletTx>)
    ensures
        tx_views(rows).len() == rows.len(),
        forall|i: int| 0 <= i < rows.len() ==> #[trigger] tx_views(rows)[i] == rows[i]@,
{
}

/// All note rows of a list are told, in order.
pub proof fn law_all_note_rows_are_told(rows: Seq<NoteRow>)
    ensures
        note_views(rows).len() == rows.len(),
        forall|i: int| 0 <= i < rows.len() ==> #[trigger] note_views(rows)[i] == rows[i]@,
{
}

/// All note records of a list are told, in order.
pub proof fn law_all_note_records_are_told(rows: Seq<NoteRecord>)
    ensures
        record_views(rows).len() == rows.len(),
        forall|i: int| 0 <= i < rows.len() ==> #[trigger] record_views(rows)[i] == rows[i]@,
{
}

/// All output records of a list are told, in order.
pub proof fn law_all_output_records_are_told(rows: Seq<OutputRecord>)
    ensures
        output_views(rows).len() == rows.len(),
        forall|i: int| 0 <= i < rows.len() ==> #[trigger] output_views(rows)[i] == rows[i]@,
{
}

/// All reported outputs of a list are told, in order.
pub proof fn law_all_reported_outputs_are_told(rows: Seq<TransparentUtxo>)
    ensures
        utxo_views(rows).len() == rows.len(),
        forall|i: int| 0 <= i < rows.len() ==> #[trigger] utxo_views(rows)[i] == rows[i]@,
{
}

/// All outputs told of a list are told, in order.
pub proof fn law_all_outputs_told_are_told(rows: Seq<TransparentReceived>)
    ensures
        received_views(rows).len() == rows.len(),
        forall|i: int| 0 <= i < rows.len() ==> #[trigger] received_views(rows)[i] == rows[i]@,
{
}

/// All notes shown of a list are told, in order.
pub proof fn law_all_notes_shown_are_told(rows: Seq<ShownNote>)
    ensures
        note_row_views(rows).len() == rows.len(),
        forall|i: int| 0 <= i < rows.len() ==> #[trigger] note_row_views(rows)[i] == rows[i]@,
{
}

/// All outputs shown of a list are told, in order.
pub proof fn law_all_outputs_shown_are_told(rows: Seq<UtxoRow>)
    ensures
        utxo_row_views(rows).len() == rows.len(),
        forall|i: int| 0 <= i < rows.len() ==> #[trigger] utxo_row_views(rows)[i] == rows[i]@,
{
}

/// All shards of a list are told, in order.
pub proof fn law_all_shards_are_told(rows: Seq<ShardRow>)
    ensures
        shard_views(rows).len() == rows.len(),
        forall|i: int| 0 <= i < rows.len() ==> #[trigger] shard_views(rows)[i] == rows[i]@,
{
}

/// All checkpoints of a list are told, in order.
pub proof fn law_all_checkpoints_are_told(rows: Seq<CheckpointRow>)
    ensures
        checkpoint_views(rows).len() == rows.len(),
        forall|i: int| 0 <= i < rows.len() ==> #[trigger] checkpoint_views(rows)[i] == rows[i]@,
{
}

/// All checkpoints told of a list are told, in order.
pub proof fn law_all_checkpoints_told_are_told(rows: Seq<(u32, Checkpoint)>)
    ensures
        pair_views(rows).len() == rows.len(),
        forall|i: int| 0 <= i < rows.len() ==> #[trigger] pair_views(rows)[i] == (rows[i].0, rows[i].1@),
{
}

/// All chunks of a list are told, in order.
pub proof fn law_all_chunks_are_told(rows: Seq<Vec<CompactBlock>>)
    ensures
        chunk_views(rows).len() == rows.len(),
        forall|i: int| 0 <= i < rows.len() ==> #[trigger] chunk_views(rows)[i] == rows[i]@,
{
}

/// All addresses of a list are told, in order.
pub proof fn law_all_addresses_are_told(rows: Seq<(TransparentAddress, String)>)
    ensures
        address_views(rows).len() == rows.len(),
        forall|i: int| 0 <= i < rows.len() ==> #[trigger] address_views(rows)[i] == (rows[i].0, rows[i].1@),
{
}

/// All nullifiers of a list are told, in order.
pub proof fn law_all_nullifiers_are_told(rows: Seq<(Pool, [u8; 32])>)
    ensures
        pool_views(rows).len() == rows.len(),
        forall|i: int| 0 <= i < rows.len() ==> #[trigger] pool_views(rows)[i] == (rows[i].0, rows[i].1@),
{
}

/// All full transactions of a list are told, in order.
pub proof fn law_all_full_transactions_are_told(rows: Seq<([u8; 32], u32, u32, FullTransaction)>)
    ensures
        full_entries(rows).len() == rows.len(),
        forall|i: int| 0 <= i < rows.len() ==> #[trigger] full_entries(rows)[i] == (rows[i].0, rows[i].1, rows[i].2, rows[i].3@),
{
}

/// All scripts of a list are told, in order.
pub proof fn law_all_scripts_are_told(rows: Seq<(TransparentAddress, String)>)
    ensures
        scripts_of(rows).len() == rows.len(),
        forall|i: int| 0 <= i < rows.len() ==> #[trigger] scripts_of(rows)[i] == script_of(rows[i].0),
{
}

/// A note row is told column by column.
pub proof fn law_note_row_is_told_whole(row: NoteRow)
    ensures
        row@.txid == row.txid,
        row@.output_index == row.output_index,
        row@.block_height == row.block_height,
        row@.nf is Some == row.nf is Some,
        row.nf matches Some(v) ==> row@.nf == Some(v@),
        row@.note == row.note@,
        row@.recipient == row.recipient@,
        row@.memo is Some == row.memo is Some,
        row.memo matches Some(v) ==> row@.memo == Some(v@),
        row@.scope == row.scope,
        row@.position == row.position,
        row@.is_sent == row.is_sent,
        row@.is_change == row.is_change,
        row@.spent == row.spent,
        row@.spent_height == row.spent_height,
        row@.spent_txid == row.spent_txid,
        row@.spent_index == row.spent_index,
{
}

/// The account's tables are told table by table.
pub proof fn law_tables_are_told_whole(db: Db, row: AccountRow)
    ensures
        db@.account is Some == db.account is Some,
        db.account matches Some(a) ==> db@.account == Some(a@),
        db@.positions == db.positions@,
        db@.txs == db.txs@,
        db@.sapling_notes == note_views(db.sapling_notes@),
        db@.orchard_notes == note_views(db.orchard_notes@),
        db@.ironwood_notes == note_views(db.ironwood_notes@),
        row@.birthday == row.birthday,
        row@.sync_height == row.sync_height,
        row@.sync_hash is Some == row.sync_hash is Some,
        row.sync_hash matches Some(v) ==> row@.sync_hash == Some(v@),
{
}

/// A transaction is told pool by pool, and a transparent output part by part.
pub proof fn law_transaction_is_told_whole(tx: WalletTx, o: TransparentOutput)
    ensures
        tx@.txid == tx.txid,
        tx@.height == tx.height,
        tx@.tx_index == tx.tx_index,
        tx@.sapling_outputs == tx.sapling_outputs@,
        tx@.sapling_spends == tx.sapling_spends@,
        tx@.orchard_outputs == tx.orchard_outputs@,
        tx@.orchard_spends == tx.orchard_spends@,
        tx@.ironwood_outputs == tx.ironwood_outputs@,
        tx@.ironwood_spends == tx.ironwood_spends@,
        tx@.transparent_outputs.len() == tx.transparent_outputs@.len(),
        forall|i: int|
            0 <= i < tx.transparent_outputs@.len() ==> #[trigger] tx@.transparent_outputs[i]
                == tx.transparent_outputs@[i]@,
        tx@.transparent_spends == tx.transparent_spends@,
        o@.outpoint == o.outpoint,
        o@.value == o.txout.value,
        o@.script == o.txout.script_pubkey@,
        o@.height == o.height,
{
}

/// The rows of the wallet store are told column by column, and the store table by table.
pub proof fn law_store_is_told_whole(note: NoteRecord, output: OutputRecord, store: Store)
    ensures
        note@.transaction_id == note.transaction_id,
        note@.index == note.index,
        note@.diversifier == note.diversifier@,
        note@.value == note.value,
        note@.rho == note.rho@,
        note@.rseed == note.rseed@,
        note@.nf is Some == note.nf is Some,
        note.nf matches Some(v) ==> note@.nf == Some(v@),
        note@.memo is Some == note.memo is Some,
        note.memo matches Some(v) ==> note@.memo == Some(v@),
        note@.position == note.position,
        note@.spent_height == note.spent_height,
        note@.spent_txid == note.spent_txid,
        note@.is_sent == note.is_sent,
        note@.recipient is Some == note.recipient is Some,
        note.recipient matches Some(v) ==> note@.recipient == Some(v@),
        output@.transaction_id == output.transaction_id,
        output@.output_index == output.output_index,
        output@.address == output.address@,
        output@.script == output.script@,
        output@.value == output.value,
        output@.spent_height == output.spent_height,
        output@.spent_txid == output.spent_txid,
        store@.birthday == store.birthday,
        store@.sync is Some == store.sync is Some,
        store.sync matches Some(row) ==> (store@.sync->0).0 == row.height && (
        store@.sync->0).1 is Some == row.hash is Some && (row.hash matches Some(hash) ==> (
        store@.sync->0).1 == Some(hash@)),
        store@.transactions == store.transactions@,
        store@.sapling == record_views(store.sapling@),
        store@.orchard == record_views(store.orchard@),
        store@.outputs == output_views(store.outputs@),
{
}

/// What is shown of a note or an output, and what is told of a transparent output, is told
/// column by column.
pub proof fn law_shown_rows_are_told_whole(
    note: ShownNote,
    output: UtxoRow,
    told: TransparentReceived,
    utxo: TransparentUtxo,
)
    ensures
        note@.pool == note.pool,
        note@.txid == note.txid,
        note@.height == note.height,
        note@.output_index == note.output_index,
        note@.value == note.value,
        note@.memo is Some == note.memo is Some,
        note.memo matches Some(v) ==> note@.memo == Some(v@),
        note@.spent_height == note.spent_height,
        note@.is_sent == note.is_sent,
        note@.recipient is Some == note.recipient is Some,
        note.recipient matches Some(v) ==> note@.recipient == Some(v@),
        output@.address == output.address@,
        output@.txid == output.txid,
        output@.height == output.height,
        output@.output_index == output.output_index,
        output@.value == output.value,
        output@.spent_height == output.spent_height,
        told@.height == told.height,
        told@.tx_id == told.tx_id,
        told@.output_index == told.output_index,
        told@.value_zat == told.value_zat,
        told@.script == told.script@,
        utxo@.address == utxo.address@,
        utxo@.txid == utxo.txid,
        utxo@.index == utxo.index,
        utxo@.script == utxo.script@,
        utxo@.value_zat == utxo.value_zat,
        utxo@.height == utxo.height,
{
}

/// The tables of the commitment tree are told table by table, and their rows column by column.
pub proof fn law_tree_tables_are_told_whole(
    tables: ShardTables,
    shard: ShardRow,
    row: CheckpointRow,
    checkpoint: Checkpoint,
)
    ensures
        tables@.shards == shard_views(tables.shards@),
        tables@.cap is Some == tables.cap is Some,
        tables.cap matches Some(v) ==> tables@.cap == Some(v@),
        tables@.checkpoints == checkpoint_views(tables.checkpoints@),
        shard@.shard_index == shard.shard_index,
        shard@.root_hash is Some == shard.root_hash is Some,
        shard.root_hash matches Some(v) ==> shard@.root_hash == Some(v@),
        shard@.shard_data == shard.shard_data@,
        row@ == (row.checkpoint_id, row.checkpoint@),
        checkpoint@.tree_state == checkpoint.tree_state,
        checkpoint@.marks_removed == checkpoint.marks_removed@,
{
}

/// What to do after a block is told as it is.
pub proof fn law_step_is_told_whole(step: BlockStep)
    ensures
        step matches BlockStep::Rewind(to) ==> step@ == StepView::Rewind(to),
        step matches BlockStep::Flush(blocks) ==> step@ == StepView::Flush(blocks@),
        step is Kept ==> step@ == StepView::Kept,
        step matches BlockStep::Invalid(e) ==> step@ == StepView::Invalid(e),
{
}

/// Optional scripts are all told, and none where there are none.
pub proof fn law_optional_scripts_are_told(scripts: Option<&Vec<Vec<u8>>>)
    ensures
        scripts is None ==> scripts_view(scripts) is None,
        scripts matches Some(list) ==> scripts_view(scripts) == Some(byte_strings(list@)),
{
}

/// The scripts that a transparent key watches are those of the first addresses of each of its
/// keys: every one that can be derived, and no other.
pub proof fn law_scripts_of_first_addresses_are_watched(
    external: Seq<u8>,
    internal: Option<Seq<u8>>,
    n: nat,
    script: Seq<u8>,
)
    requires
        n <= 0x8000_0000,
    ensures
        scripts_below(external, internal, n).contains(script) <==> exists|i: u32|
            i < n && ((#[trigger] external_address_of(external, i) matches Some(a) && script_of(a)
                == script) || (internal matches Some(key) && internal_address_of(
                key,
                i,
            ) matches Some(b) && script_of(b) == script)),
    decreases n,
{
    if n > 0 {
        let m = (n - 1) as nat;
        let last = m as u32;
        law_scripts_of_first_addresses_are_watched(external, internal, m, script);
        let before = scripts_below(external, internal, m);
        let a = crate::sync::scan::script_list(external_address_of(external, last));
        let b = match internal {
            Some(key) => crate::sync::scan::script_list(internal_address_of(key, last)),
            None => Seq::empty(),
        };
        crate::seqs::lemma_joined_contains(before, a, script);
        crate::seqs::lemma_joined_contains(before + a, b, script);
        if a.contains(script) {
            assert(a[0] == script);
            assert(external_address_of(external, last) is Some);
        }
        if b.contains(script) {
            assert(b[0] == script);
            let here = external_address_of(external, last);
        }
        if external_address_of(external, last) is Some {
            assert(a[0] == script_of(external_address_of(external, last)->0));
        }
        if let Some(key) = internal {
            if internal_address_of(key, last) is Some {
                assert(b[0] == script_of(internal_address_of(key, last)->0));
            }
        }
        if scripts_below(external, internal, n).contains(script) {
            if before.contains(script) {
                let i = choose|i: u32|
                    i < m && ((#[trigger] external_address_of(external, i) matches Some(a)
                        && script_of(a) == script) || (internal matches Some(key)
                        && internal_address_of(key, i) matches Some(b) && script_of(b) == script));
                let found = external_address_of(external, i);
                assert(i < n);
            } else {
                let found = external_address_of(external, last);
                assert(last < n);
            }
        }
        if exists|i: u32|
            i < n && ((#[trigger] external_address_of(external, i) matches Some(a) && script_of(a)
                == script) || (internal matches Some(key) && internal_address_of(
                key,
                i,
            ) matches Some(b) && script_of(b) == script)) {
            let i = choose|i: u32|
                i < n && ((#[trigger] external_address_of(external, i) matches Some(a)
                    && script_of(a) == script) || (internal matches Some(key)
                    && internal_address_of(key, i) matches Some(b) && script_of(b) == script));
            if i < m {
                let found = external_address_of(external, i);
                assert(before.contains(script));
            } else {
                assert(i == last);
            }
        }
    }
}

/// A key watches the scripts of its first addresses, and an account without one watches none.
pub proof fn law_key_watches_its_scripts(key: Option<&TransparentScanningKey>)
    ensures
        key is None ==> watched_scripts(key) is None,
        key matches Some(k) ==> watched_scripts(key) == Some(scripts_below(k@.0, k@.1, 20)),
        key matches Some(k) ==> k@.0 == k.external@ && k@.1 is Some == k.internal is Some && (
        k.internal matches Some(change) ==> k@.1 == Some(change@)),
{
}

/// The outputs of a full transaction are all told, and the keys that read them.
pub proof fn law_full_outputs_are_told(
    outputs: Option<Vec<SaplingFullOutput>>,
    actions: Option<Vec<OrchardFullAction>>,
    sapling: Option<&SaplingIvk>,
    orchard: Option<&OrchardIvk>,
)
    ensures
        outputs_view(outputs) is Some == outputs is Some,
        outputs matches Some(list) ==> (outputs_view(outputs)->0).len() == list@.len() && forall|i: int|
            0 <= i < list@.len() ==> #[trigger] (outputs_view(outputs)->0)[i] == list@[i]@,
        actions_view(actions) is Some == actions is Some,
        actions matches Some(list) ==> (actions_view(actions)->0).len() == list@.len() && forall|i: int|
            0 <= i < list@.len() ==> #[trigger] (actions_view(actions)->0)[i] == list@[i]@,
        sapling_ivk_view(sapling) is Some == sapling is Some,
        sapling matches Some(k) ==> sapling_ivk_view(sapling) == Some(k@),
        orchard_ivk_view(orchard) is Some == orchard is Some,
        orchard matches Some(k) ==> orchard_ivk_view(orchard) == Some(k@),
{
}

/// A result has an error exactly where it is one, and that error is told.
pub proof fn law_error_is_told<T>(result: Result<T, Error>)
    ensures
        result is Ok ==> error_of(result) is None,
        result matches Err(e) ==> error_of(result) == Some(e@),
{
}

} // verus!
