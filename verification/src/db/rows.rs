//! What the store shows of its notes, transactions and transparent outputs.

use vstd::prelude::*;

use crate::bytes::same32;
use crate::db::order::{in_order, insert_in_order, Keyed};
use crate::db::store::{
    copy_blob, copy_string, lookup_tx, opt_bytes, opt_string, output_views, record_views,
    tx_by_row, Db, NoteRecord, NoteRecordView, OutputRecord, OutputRecordView, Pool, StoreView,
    TxRecord,
};
use crate::seqs::{collect_some, lemma_collect_push};
use crate::upstream::consensus_rules::{zatoshis, zatoshis_sum, MAX_MONEY};

verus! {

/// A note of the account.
#[derive(Debug, Clone, PartialEq, Eq)]
pub struct NoteRow {
    /// The note's pool.
    pub pool: Pool,
    /// The transaction that made it.
    pub txid: [u8; 32],
    /// The height at which that transaction was mined.
    pub height: Option<u32>,
    /// The output's or action's index in that transaction.
    pub output_index: u32,
    /// Value in zatoshis.
    pub value: u64,
    /// The memo.
    pub memo: Option<Vec<u8>>,
    /// The height at which the note was spent.
    pub spent_height: Option<u32>,
    /// Whether the account sent the note.
    pub is_sent: bool,
    /// The address that the note was sent to.
    pub recipient: Option<String>,
}

/// What a note row holds.
pub struct NoteRowView {
    /// The note's pool.
    pub pool: Pool,
    /// The transaction that made it.
    pub txid: [u8; 32],
    /// The height at which that transaction was mined.
    pub height: Option<u32>,
    /// The output's or action's index in that transaction.
    pub output_index: u32,
    /// Value in zatoshis.
    pub value: u64,
    /// The memo.
    pub memo: Option<Seq<u8>>,
    /// The height at which the note was spent.
    pub spent_height: Option<u32>,
    /// Whether the account sent the note.
    pub is_sent: bool,
    /// The address that the note was sent to.
    pub recipient: Option<Seq<char>>,
}

/// A transaction of the account, with what it moved.
#[derive(Debug, Clone, Copy, PartialEq, Eq)]
pub struct TxRow {
    /// The transaction's id.
    pub txid: [u8; 32],
    /// The height at which it was mined.
    pub height: Option<u32>,
    /// Its index in the block.
    pub tx_index: Option<u32>,
    /// What the account received in it.
    pub received: u64,
    /// What the account sent in it.
    pub sent: u64,
    /// The value of the account's notes that it spent.
    pub spent: u64,
}

/// A transparent output of the account.
#[derive(Debug, Clone, PartialEq, Eq)]
pub struct UtxoRow {
    /// The address that it pays.
    pub address: String,
    /// The transaction that made it.
    pub txid: [u8; 32],
    /// The height at which that transaction was mined.
    pub height: Option<u32>,
    /// The output's index in that transaction.
    pub output_index: u32,
    /// Value in zatoshis.
    pub value: u64,
    /// The height at which it was spent, or by which it was seen to be.
    pub spent_height: Option<u32>,
}

/// What a transparent output row holds.
pub struct UtxoRowView {
    /// The address that it pays.
    pub address: Seq<char>,
    /// The transaction that made it.
    pub txid: [u8; 32],
    /// The height at which that transaction was mined.
    pub height: Option<u32>,
    /// The output's index in that transaction.
    pub output_index: u32,
    /// Value in zatoshis.
    pub value: u64,
    /// The height at which it was spent, or by which it was seen to be.
    pub spent_height: Option<u32>,
}

impl NoteRow {
    /// What the row holds.
    pub open spec fn view(&self) -> NoteRowView {
        NoteRowView {
            pool: self.pool,
            txid: self.txid,
            height: self.height,
            output_index: self.output_index,
            value: self.value,
            memo: opt_bytes(self.memo),
            spent_height: self.spent_height,
            is_sent: self.is_sent,
            recipient: opt_string(self.recipient),
        }
    }
}

impl UtxoRow {
    /// What the row holds.
    pub open spec fn view(&self) -> UtxoRowView {
        UtxoRowView {
            address: self.address@,
            txid: self.txid,
            height: self.height,
            output_index: self.output_index,
            value: self.value,
            spent_height: self.spent_height,
        }
    }
}

/// What note rows hold.
pub open spec fn note_row_views(rows: Seq<NoteRow>) -> Seq<NoteRowView> {
    rows.map_values(|r: NoteRow| r@)
}

/// What transparent output rows hold.
pub open spec fn utxo_row_views(rows: Seq<UtxoRow>) -> Seq<UtxoRowView> {
    rows.map_values(|r: UtxoRow| r@)
}

/// The part of a key that orders by height, with what was not mined last.
pub open spec fn height_key(height: Option<u32>) -> Seq<u64> {
    match height {
        Some(h) => seq![0u64, h as u64],
        None => seq![1u64, 0u64],
    }
}

/// The part of a key that orders by transaction id.
pub open spec fn txid_key(txid: [u8; 32]) -> Seq<u64> {
    Seq::new(32, |i: int| txid[i] as u64)
}

/// Appends the part of a key that orders by height.
fn push_height(key: &mut Vec<u64>, height: Option<u32>)
    ensures
        final(key)@ == old(key)@ + height_key(height),
{
    match height {
        Some(h) => {
            key.push(0);
            key.push(h as u64);
        },
        None => {
            key.push(1);
            key.push(0);
        },
    }
    assert(key@ =~= old(key)@ + height_key(height));
}

/// Appends the part of a key that orders by transaction id.
pub(crate) fn push_txid(key: &mut Vec<u64>, txid: &[u8; 32])
    ensures
        final(key)@ == old(key)@ + txid_key(*txid),
{
    let mut i: usize = 0;
    assert(key@ =~= old(key)@ + txid_key(*txid).take(0));
    while i < 32
        invariant
            0 <= i <= 32,
            key@ == old(key)@ + txid_key(*txid).take(i as int),
        decreases 32 - i,
    {
        key.push(txid[i] as u64);
        assert(key@ =~= old(key)@ + txid_key(*txid).take(i as int + 1));
        i = i + 1;
    }
    assert(txid_key(*txid).take(32) =~= txid_key(*txid));
}

/// The rank of a pool among notes that nothing else orders.
pub open spec fn pool_rank(pool: Pool) -> u64 {
    match pool {
        Pool::Sapling => 0,
        Pool::Orchard => 1,
    }
}

impl Keyed for NoteRow {
    /// By height, with what was not mined last; then by transaction id, index and pool.
    open spec fn key(&self) -> Seq<u64> {
        height_key(self.height) + txid_key(self.txid) + seq![
            self.output_index as u64,
            pool_rank(self.pool),
        ]
    }

    fn sort_key(&self) -> (key: Vec<u64>) {
        let mut key: Vec<u64> = Vec::new();
        push_height(&mut key, self.height);
        push_txid(&mut key, &self.txid);
        key.push(self.output_index as u64);
        key.push(
            match self.pool {
                Pool::Sapling => 0,
                Pool::Orchard => 1,
            },
        );
        assert(key@ =~= self.key());
        key
    }
}

impl Keyed for UtxoRow {
    /// By height, with what was not mined last; then by transaction id and index.
    open spec fn key(&self) -> Seq<u64> {
        height_key(self.height) + txid_key(self.txid) + seq![self.output_index as u64]
    }

    fn sort_key(&self) -> (key: Vec<u64>) {
        let mut key: Vec<u64> = Vec::new();
        push_height(&mut key, self.height);
        push_txid(&mut key, &self.txid);
        key.push(self.output_index as u64);
        assert(key@ =~= self.key());
        key
    }
}

impl Keyed for TxRow {
    /// By height, with what was not mined last; then by index, with what is not known
    /// first.
    open spec fn key(&self) -> Seq<u64> {
        height_key(self.height) + match self.tx_index {
            Some(i) => seq![1u64, i as u64],
            None => seq![0u64, 0u64],
        }
    }

    fn sort_key(&self) -> (key: Vec<u64>) {
        let mut key: Vec<u64> = Vec::new();
        push_height(&mut key, self.height);
        match self.tx_index {
            Some(i) => {
                key.push(1);
                key.push(i as u64);
            },
            None => {
                key.push(0);
                key.push(0);
            },
        }
        assert(key@ =~= self.key());
        key
    }
}

/// The row that a note is shown as, where its transaction is there.
pub open spec fn shown_note(n: NoteRecordView, pool: Pool, txs: Seq<TxRecord>) -> Option<NoteRowView> {
    match tx_by_row(txs, n.transaction_id) {
        Some(tx) => Some(
            NoteRowView {
                pool,
                txid: tx.txid,
                height: tx.mined_height,
                output_index: n.index,
                value: n.value,
                memo: n.memo,
                spent_height: n.spent_height,
                is_sent: n.is_sent,
                recipient: n.recipient,
            },
        ),
        None => None,
    }
}

/// The rows that the notes of a pool are shown as.
pub open spec fn shown_notes(notes: Seq<NoteRecordView>, pool: Pool, txs: Seq<TxRecord>) -> Seq<
    NoteRowView,
> {
    collect_some(notes.map_values(|n: NoteRecordView| shown_note(n, pool, txs)))
}

/// The row that a transparent output is shown as, where its transaction is there.
pub open spec fn shown_output(o: OutputRecordView, txs: Seq<TxRecord>) -> Option<UtxoRowView> {
    match tx_by_row(txs, o.transaction_id) {
        Some(tx) => Some(
            UtxoRowView {
                address: o.address,
                txid: tx.txid,
                height: tx.mined_height,
                output_index: o.output_index,
                value: o.value,
                spent_height: o.spent_height,
            },
        ),
        None => None,
    }
}

/// The rows that the transparent outputs are shown as.
pub open spec fn shown_outputs(outputs: Seq<OutputRecordView>, txs: Seq<TxRecord>) -> Seq<UtxoRowView> {
    collect_some(outputs.map_values(|o: OutputRecordView| shown_output(o, txs)))
}

/// One row more at any place is one row more among all.
proof fn lemma_insert_multiset<A>(s: Seq<A>, at: int, a: A)
    requires
        0 <= at <= s.len(),
    ensures
        s.insert(at, a).to_multiset() == s.to_multiset().insert(a),
        s.push(a).to_multiset() == s.to_multiset().insert(a),
{
    s.to_multiset_ensures();
    vstd::seq_lib::to_multiset_insert(s, at, a);
}

/// Puts the rows of a pool's notes among the others.
fn show_notes(out: &mut Vec<NoteRow>, table: &Vec<NoteRecord>, pool: Pool, txs: &Vec<TxRecord>)
    requires
        in_order(old(out)@),
        forall|i: int| 0 <= i < table.len() ==> (#[trigger] table[i]).value <= MAX_MONEY,
    ensures
        in_order(final(out)@),
        note_row_views(final(out)@).to_multiset() == note_row_views(old(out)@).to_multiset().add(
            shown_notes(record_views(table@), pool, txs@).to_multiset(),
        ),
{
    let ghost notes = record_views(table@);
    let ghost all = notes.map_values(|n: NoteRecordView| shown_note(n, pool, txs@));
    let ghost start = note_row_views(out@).to_multiset();
    let mut i: usize = 0;
    proof {
        assert(all.take(0) =~= Seq::empty());
        Seq::<NoteRowView>::empty().to_multiset_ensures();
        assert(start =~= start.add(collect_some(all.take(0)).to_multiset()));
    }
    while i < table.len()
        invariant
            0 <= i <= table.len(),
            notes == record_views(table@),
            all == notes.map_values(|n: NoteRecordView| shown_note(n, pool, txs@)),
            in_order(out@),
            forall|j: int| 0 <= j < table.len() ==> (#[trigger] table[j]).value <= MAX_MONEY,
            note_row_views(out@).to_multiset() == start.add(
                collect_some(all.take(i as int)).to_multiset(),
            ),
        decreases table.len() - i,
    {
        proof {
            lemma_collect_push(all.take(i as int), all[i as int]);
            assert(all.take(i as int + 1) =~= all.take(i as int).push(all[i as int]));
        }
        let note = &table[i];
        assert(table[i as int].value <= MAX_MONEY);
        if let Some(tx) = lookup_tx(txs, note.transaction_id) {
            let row = NoteRow {
                pool,
                txid: tx.txid,
                height: tx.mined_height,
                output_index: note.index,
                value: zatoshis(note.value).unwrap(),
                memo: copy_blob(&note.memo),
                spent_height: note.spent_height,
                is_sent: note.is_sent,
                recipient: copy_string(&note.recipient),
            };
            let ghost before = out@;
            let ghost shown = collect_some(all.take(i as int));
            let at = insert_in_order(out, row);
            proof {
                assert(note_row_views(out@) =~= note_row_views(before).insert(at as int, row@));
                lemma_insert_multiset(note_row_views(before), at as int, row@);
                lemma_insert_multiset(shown, 0, row@);
                assert(start.add(shown.to_multiset()).insert(row@) =~= start.add(
                    shown.to_multiset().insert(row@),
                ));
            }
        }
        i = i + 1;
    }
    assert(all.take(i as int) =~= all);
}

/// The value of the notes that a transaction made and that were sent or not.
pub open spec fn made_value(rows: Seq<NoteRecordView>, id: i64, sent: bool) -> nat
    decreases rows.len(),
{
    if rows.len() == 0 {
        0
    } else {
        made_value(rows.drop_last(), id, sent) + if rows.last().transaction_id == id && rows.last().is_sent == sent {
            rows.last().value as nat
        } else {
            0
        }
    }
}

/// Part of the sum is no more than the whole.
proof fn lemma_made_value(rows: Seq<NoteRecordView>, id: i64, sent: bool, n: int)
    requires
        0 <= n < rows.len(),
    ensures
        made_value(rows.take(n + 1), id, sent) == made_value(rows.take(n), id, sent) + if rows[n].transaction_id == id && rows[n].is_sent == sent {
            rows[n].value as nat
        } else {
            0
        },
        made_value(rows.take(n + 1), id, sent) <= made_value(rows, id, sent),
    decreases rows.len() - n,
{
    assert(rows.take(n + 1).drop_last() =~= rows.take(n));
    if n + 1 < rows.len() {
        lemma_made_value(rows, id, sent, n + 1);
    } else {
        assert(rows.take(n + 1) =~= rows);
    }
}

/// The value of the notes that a transaction made and that were sent or not.
fn sum_made(table: &Vec<NoteRecord>, id: i64, sent: bool) -> (total: u64)
    requires
        made_value(record_views(table@), id, sent) <= MAX_MONEY,
    ensures
        total == made_value(record_views(table@), id, sent),
{
    let ghost rows = record_views(table@);
    let mut total: u64 = 0;
    let mut i: usize = 0;
    assert(rows.take(0) =~= Seq::empty());
    while i < table.len()
        invariant
            0 <= i <= table.len(),
            rows == record_views(table@),
            made_value(rows, id, sent) <= MAX_MONEY,
            total == made_value(rows.take(i as int), id, sent),
        decreases table.len() - i,
    {
        proof {
            lemma_made_value(rows, id, sent, i as int);
        }
        let counts = table[i].transaction_id == id && table[i].is_sent == sent;
        if counts {
            total = total + table[i].value;
        }
        i = i + 1;
    }
    assert(rows.take(i as int) =~= rows);
    total
}

/// The value of the notes that a transaction spent.
pub open spec fn consumed_value(rows: Seq<NoteRecordView>, txid: [u8; 32]) -> nat
    decreases rows.len(),
{
    if rows.len() == 0 {
        0
    } else {
        consumed_value(rows.drop_last(), txid) + if rows.last().spent_txid == Some(txid) {
            rows.last().value as nat
        } else {
            0
        }
    }
}

/// Part of the sum is no more than the whole.
proof fn lemma_consumed_value(rows: Seq<NoteRecordView>, txid: [u8; 32], n: int)
    requires
        0 <= n < rows.len(),
    ensures
        consumed_value(rows.take(n + 1), txid) == consumed_value(rows.take(n), txid) + if rows[n].spent_txid == Some(txid) {
            rows[n].value as nat
        } else {
            0
        },
        consumed_value(rows.take(n + 1), txid) <= consumed_value(rows, txid),
    decreases rows.len() - n,
{
    assert(rows.take(n + 1).drop_last() =~= rows.take(n));
    if n + 1 < rows.len() {
        lemma_consumed_value(rows, txid, n + 1);
    } else {
        assert(rows.take(n + 1) =~= rows);
    }
}

/// The value of the notes that a transaction spent.
fn sum_consumed(table: &Vec<NoteRecord>, txid: [u8; 32]) -> (total: u64)
    requires
        consumed_value(record_views(table@), txid) <= MAX_MONEY,
    ensures
        total == consumed_value(record_views(table@), txid),
{
    let ghost rows = record_views(table@);
    let mut total: u64 = 0;
    let mut i: usize = 0;
    assert(rows.take(0) =~= Seq::empty());
    while i < table.len()
        invariant
            0 <= i <= table.len(),
            rows == record_views(table@),
            consumed_value(rows, txid) <= MAX_MONEY,
            total == consumed_value(rows.take(i as int), txid),
        decreases table.len() - i,
    {
        proof {
            lemma_consumed_value(rows, txid, i as int);
        }
        let counts = match &table[i].spent_txid {
            Some(spender) => same32(spender, &txid),
            None => false,
        };
        if counts {
            total = total + table[i].value;
        }
        i = i + 1;
    }
    assert(rows.take(i as int) =~= rows);
    total
}

/// The value of the transparent outputs that a transaction made.
pub open spec fn paid_value(rows: Seq<OutputRecordView>, id: i64) -> nat
    decreases rows.len(),
{
    if rows.len() == 0 {
        0
    } else {
        paid_value(rows.drop_last(), id) + if rows.last().transaction_id == id {
            rows.last().value as nat
        } else {
            0
        }
    }
}

/// Part of the sum is no more than the whole.
proof fn lemma_paid_value(rows: Seq<OutputRecordView>, id: i64, n: int)
    requires
        0 <= n < rows.len(),
    ensures
        paid_value(rows.take(n + 1), id) == paid_value(rows.take(n), id) + if rows[n].transaction_id == id {
            rows[n].value as nat
        } else {
            0
        },
        paid_value(rows.take(n + 1), id) <= paid_value(rows, id),
    decreases rows.len() - n,
{
    assert(rows.take(n + 1).drop_last() =~= rows.take(n));
    if n + 1 < rows.len() {
        lemma_paid_value(rows, id, n + 1);
    } else {
        assert(rows.take(n + 1) =~= rows);
    }
}

/// The value of the transparent outputs that a transaction made.
fn sum_paid(table: &Vec<OutputRecord>, id: i64) -> (total: u64)
    requires
        paid_value(output_views(table@), id) <= MAX_MONEY,
    ensures
        total == paid_value(output_views(table@), id),
{
    let ghost rows = output_views(table@);
    let mut total: u64 = 0;
    let mut i: usize = 0;
    assert(rows.take(0) =~= Seq::empty());
    while i < table.len()
        invariant
            0 <= i <= table.len(),
            rows == output_views(table@),
            paid_value(rows, id) <= MAX_MONEY,
            total == paid_value(rows.take(i as int), id),
        decreases table.len() - i,
    {
        proof {
            lemma_paid_value(rows, id, i as int);
        }
        let counts = table[i].transaction_id == id;
        if counts {
            total = total + table[i].value;
        }
        i = i + 1;
    }
    assert(rows.take(i as int) =~= rows);
    total
}

/// What a transaction moved.
pub open spec fn moved(store: StoreView, tx: TxRecord) -> (nat, nat, nat) {
    (
        made_value(store.sapling, tx.id, false) + made_value(store.orchard, tx.id, false)
            + paid_value(store.outputs, tx.id),
        made_value(store.sapling, tx.id, true) + made_value(store.orchard, tx.id, true),
        consumed_value(store.sapling, tx.txid) + consumed_value(store.orchard, tx.txid),
    )
}

/// Whether no transaction moved more money than can exist.
pub open spec fn moves_fit(store: StoreView) -> bool {
    forall|i: int|
        0 <= i < store.transactions.len() ==> {
            let m = moved(store, #[trigger] store.transactions[i]);
            m.0 <= MAX_MONEY && m.1 <= MAX_MONEY && m.2 <= MAX_MONEY
        }
}

/// The row that a transaction is shown as.
pub open spec fn shown_tx(store: StoreView, tx: TxRecord) -> TxRow {
    let m = moved(store, tx);
    TxRow {
        txid: tx.txid,
        height: tx.mined_height,
        tx_index: tx.tx_index,
        received: m.0 as u64,
        sent: m.1 as u64,
        spent: m.2 as u64,
    }
}

impl Db {
    /// Every note, by height and then by transaction and index. What was not mined comes
    /// last.
    pub fn notes(&self) -> (rows: Vec<NoteRow>)
        requires
            forall|i: int| 0 <= i < self.sapling.len() ==> (#[trigger] self.sapling[i]).value <= MAX_MONEY,
            forall|i: int| 0 <= i < self.orchard.len() ==> (#[trigger] self.orchard[i]).value <= MAX_MONEY,
        ensures
            in_order(rows@),
            note_row_views(rows@).to_multiset() == (shown_notes(
                self@.sapling,
                Pool::Sapling,
                self@.transactions,
            ) + shown_notes(self@.orchard, Pool::Orchard, self@.transactions)).to_multiset(),
    {
        let mut rows: Vec<NoteRow> = Vec::new();
        show_notes(&mut rows, &self.sapling, Pool::Sapling, &self.transactions);
        show_notes(&mut rows, &self.orchard, Pool::Orchard, &self.transactions);
        proof {
            let a = shown_notes(self@.sapling, Pool::Sapling, self@.transactions);
            let b = shown_notes(self@.orchard, Pool::Orchard, self@.transactions);
            vstd::seq_lib::lemma_multiset_commutative(a, b);
            let none = note_row_views(Seq::<NoteRow>::empty());
            assert(none =~= Seq::empty());
            Seq::<NoteRowView>::empty().to_multiset_ensures();
            assert(none.to_multiset().add(a.to_multiset()) =~= a.to_multiset());
        }
        rows
    }

    /// Every transparent output, by height and then by transaction and index. What was not
    /// mined comes last.
    pub fn transparent_outputs(&self) -> (rows: Vec<UtxoRow>)
        requires
            forall|i: int| 0 <= i < self.outputs.len() ==> (#[trigger] self.outputs[i]).value <= MAX_MONEY,
        ensures
            in_order(rows@),
            utxo_row_views(rows@).to_multiset() == shown_outputs(
                self@.outputs,
                self@.transactions,
            ).to_multiset(),
    {
        let ghost outputs = self@.outputs;
        let ghost all = outputs.map_values(
            |o: OutputRecordView| shown_output(o, self@.transactions),
        );
        let mut rows: Vec<UtxoRow> = Vec::new();
        let mut i: usize = 0;
        proof {
            assert(all.take(0) =~= Seq::empty());
            assert(utxo_row_views(rows@) =~= Seq::empty());
        }
        while i < self.outputs.len()
            invariant
                0 <= i <= self.outputs.len(),
                outputs == self@.outputs,
                all == outputs.map_values(
                    |o: OutputRecordView| shown_output(o, self@.transactions),
                ),
                in_order(rows@),
                forall|j: int|
                    0 <= j < self.outputs.len() ==> (#[trigger] self.outputs[j]).value <= MAX_MONEY,
                utxo_row_views(rows@).to_multiset() == collect_some(all.take(i as int)).to_multiset(),
            decreases self.outputs.len() - i,
        {
            proof {
                lemma_collect_push(all.take(i as int), all[i as int]);
                assert(all.take(i as int + 1) =~= all.take(i as int).push(all[i as int]));
            }
            let output = &self.outputs[i];
            assert(self.outputs[i as int].value <= MAX_MONEY);
            if let Some(tx) = lookup_tx(&self.transactions, output.transaction_id) {
                let row = UtxoRow {
                    address: output.address.clone(),
                    txid: tx.txid,
                    height: tx.mined_height,
                    output_index: output.output_index,
                    value: zatoshis(output.value).unwrap(),
                    spent_height: output.spent_height,
                };
                let ghost before = rows@;
                let ghost shown = collect_some(all.take(i as int));
                let at = insert_in_order(&mut rows, row);
                proof {
                    assert(utxo_row_views(rows@) =~= utxo_row_views(before).insert(at as int, row@));
                    lemma_insert_multiset(utxo_row_views(before), at as int, row@);
                    lemma_insert_multiset(shown, 0, row@);
                }
            }
            i = i + 1;
        }
        assert(all.take(i as int) =~= all);
        rows
    }

    /// Every transaction with what it moved, by height and then by index in the block. What
    /// was not mined comes last.
    pub fn transactions(&self) -> (rows: Vec<TxRow>)
        requires
            moves_fit(self@),
        ensures
            in_order(rows@),
            rows@.to_multiset() == self@.transactions.map_values(
                |t: TxRecord| shown_tx(self@, t),
            ).to_multiset(),
    {
        let ghost all = self@.transactions.map_values(|t: TxRecord| shown_tx(self@, t));
        let mut rows: Vec<TxRow> = Vec::new();
        let mut i: usize = 0;
        assert(all.take(0) =~= rows@);
        while i < self.transactions.len()
            invariant
                0 <= i <= self.transactions.len(),
                all == self@.transactions.map_values(|t: TxRecord| shown_tx(self@, t)),
                moves_fit(self@),
                in_order(rows@),
                rows@.to_multiset() == all.take(i as int).to_multiset(),
            decreases self.transactions.len() - i,
        {
            let tx = self.transactions[i];
            proof {
                let m = moved(self@, self@.transactions[i as int]);
                assert(m.0 <= MAX_MONEY && m.1 <= MAX_MONEY && m.2 <= MAX_MONEY);
                assert(all.take(i as int + 1) =~= all.take(i as int).push(all[i as int]));
            }
            let shielded: u64 = zatoshis_sum(
                sum_made(&self.sapling, tx.id, false),
                sum_made(&self.orchard, tx.id, false),
            ).unwrap();
            let received: u64 = zatoshis_sum(shielded, sum_paid(&self.outputs, tx.id)).unwrap();
            let sent: u64 = zatoshis_sum(
                sum_made(&self.sapling, tx.id, true),
                sum_made(&self.orchard, tx.id, true),
            ).unwrap();
            let spent: u64 = zatoshis_sum(
                sum_consumed(&self.sapling, tx.txid),
                sum_consumed(&self.orchard, tx.txid),
            ).unwrap();
            let row = TxRow {
                txid: tx.txid,
                height: tx.mined_height,
                tx_index: tx.tx_index,
                received,
                sent,
                spent,
            };
            let ghost before = rows@;
            let at = insert_in_order(&mut rows, row);
            proof {
                lemma_insert_multiset(before, at as int, row);
                lemma_insert_multiset(all.take(i as int), 0, row);
                assert(row == all[i as int]);
            }
            i = i + 1;
        }
        assert(all.take(i as int) =~= all);
        rows
    }
}

} // verus!
