//! What full transactions tell of an account's transparent outputs.
//!
//! Compact blocks need not carry transparent parts. A walk over the account's addresses
//! tells which transactions touch them; those of a batch's heights are fetched with the
//! rest, and their outputs and inputs are matched against the account's scripts and the
//! outputs that it holds.

use vstd::prelude::*;

use crate::bytes::{byte_strings, holds_bytes, same32};
use crate::primitives::{OutPoint, TransparentAddress};
use crate::proto::CompactBlock;
use crate::seqs::{collect_some, lemma_collect_has, lemma_collect_push};
use crate::sync::scan::{
    bare_tx, full_entries, holds_outpoint, lemma_tx_position, tx_position, tx_views, FullEntry,
    TransparentOutput, TransparentOutputView, TransparentSpend, TxOut, WalletTx, WalletTxView,
};
use crate::sync::transparent::Discovery;
use crate::sync::watch::{extend_outpoints, outpoints_born};
use crate::upstream::transactions::{
    transparent_inputs, transparent_inputs_of, transparent_outputs, transparent_outputs_of,
    FullTransaction,
};
use crate::upstream::transparent_keys::{address_script, script_of};

verus! {

/// The locking scripts of addresses.
pub open spec fn scripts_of(addresses: Seq<(TransparentAddress, String)>) -> Seq<Seq<u8>> {
    addresses.map_values(|a: (TransparentAddress, String)| script_of(a.0))
}

impl Discovery {
    /// The locking scripts of the addresses found.
    pub fn scripts(&self) -> (scripts: Vec<Vec<u8>>)
        ensures
            byte_strings(scripts@) == scripts_of(self.addresses@),
    {
        let mut scripts: Vec<Vec<u8>> = Vec::new();
        let mut i: usize = 0;
        assert(byte_strings(scripts@) =~= scripts_of(self.addresses@).take(0));
        while i < self.addresses.len()
            invariant
                0 <= i <= self.addresses.len(),
                byte_strings(scripts@) == scripts_of(self.addresses@).take(i as int),
            decreases self.addresses.len() - i,
        {
            let ghost before = scripts@;
            let script = address_script(&self.addresses[i].0);
            scripts.push(script);
            assert(byte_strings(scripts@) =~= byte_strings(before).push(script@));
            assert(byte_strings(scripts@) =~= scripts_of(self.addresses@).take(i as int + 1));
            i = i + 1;
        }
        assert(scripts_of(self.addresses@).take(i as int) =~= scripts_of(self.addresses@));
        scripts
    }
}

/// Whether a target lies within the heights of a batch, and is not among the transactions
/// that are fetched anyway.
pub open spec fn is_due(
    target: ([u8; 32], u32),
    blocks: Seq<CompactBlock>,
    txs: Seq<WalletTxView>,
) -> bool {
    &&& blocks.len() > 0
    &&& blocks[0].height <= target.1 <= blocks.last().height
    &&& tx_position(txs, target.0) is None
}

/// The targets that are due with a batch, as transactions to fetch. Their index in their
/// block is not told, and taken for the first.
pub open spec fn due_with(
    targets: Seq<([u8; 32], u32)>,
    blocks: Seq<CompactBlock>,
    txs: Seq<WalletTxView>,
) -> Seq<([u8; 32], u32, u32)> {
    collect_some(
        targets.map_values(
            |t: ([u8; 32], u32)|
                if is_due(t, blocks, txs) {
                    Some((t.0, t.1, 0u32))
                } else {
                    None
                },
        ),
    )
}

/// Where the transaction with an id stands, or the number of transactions where none has it.
fn find_tx(txs: &Vec<WalletTx>, txid: &[u8; 32]) -> (k: usize)
    ensures
        k <= txs.len(),
        tx_position(tx_views(txs@), *txid) == if k < txs.len() {
            Some(k as int)
        } else {
            None
        },
{
    let mut k: usize = 0;
    while k < txs.len() && !same32(&txs[k].txid, txid)
        invariant
            0 <= k <= txs.len(),
            forall|j: int| 0 <= j < k ==> (#[trigger] tx_views(txs@)[j]).txid != *txid,
        decreases txs.len() - k,
    {
        k = k + 1;
    }
    proof {
        lemma_tx_position(tx_views(txs@), *txid, k as int);
    }
    k
}

/// Lists the targets that are due with a batch, as transactions to fetch.
pub fn due_targets(
    targets: &Vec<([u8; 32], u32)>,
    blocks: &Vec<CompactBlock>,
    txs: &Vec<WalletTx>,
) -> (due: Vec<([u8; 32], u32, u32)>)
    ensures
        due@ == due_with(targets@, blocks@, tx_views(txs@)),
{
    let ghost views = tx_views(txs@);
    let ghost all = targets@.map_values(
        |t: ([u8; 32], u32)|
            if is_due(t, blocks@, views) {
                Some((t.0, t.1, 0u32))
            } else {
                None
            },
    );
    let mut due: Vec<([u8; 32], u32, u32)> = Vec::new();
    let mut i: usize = 0;
    assert(due@ =~= collect_some(all.take(0)));
    while i < targets.len()
        invariant
            0 <= i <= targets.len(),
            views == tx_views(txs@),
            all == targets@.map_values(
                |t: ([u8; 32], u32)|
                    if is_due(t, blocks@, views) {
                        Some((t.0, t.1, 0u32))
                    } else {
                        None
                    },
            ),
            due@ == collect_some(all.take(i as int)),
        decreases targets.len() - i,
    {
        proof {
            lemma_collect_push(all.take(i as int), all[i as int]);
            assert(all.take(i as int + 1) =~= all.take(i as int).push(all[i as int]));
        }
        let (txid, height) = targets[i];
        if blocks.len() > 0 && blocks[0].height <= height as u64 && height as u64 <= blocks[blocks.len()
            - 1].height && find_tx(txs, &txid) == txs.len() {
            due.push((txid, height, 0));
        }
        i = i + 1;
    }
    assert(all.take(i as int) =~= all);
    due
}

/// The output of a full transaction at an index, where it pays one of the scripts.
pub open spec fn full_output_at(
    scripts: Seq<Seq<u8>>,
    entry: FullEntry,
    vout: Seq<(u64, Seq<u8>)>,
    i: int,
) -> Option<TransparentOutputView> {
    if scripts.contains(vout[i].1) {
        Some(
            TransparentOutputView {
                outpoint: OutPoint { hash: entry.0, n: i as u32 },
                value: vout[i].0,
                script: vout[i].1,
                height: entry.1,
            },
        )
    } else {
        None
    }
}

/// The outputs of a full transaction that pay the scripts.
pub open spec fn full_outputs(scripts: Seq<Seq<u8>>, entry: FullEntry) -> Seq<TransparentOutputView> {
    match transparent_outputs_of(entry.3) {
        Some(vout) => collect_some(
            Seq::new(vout.len(), |i: int| full_output_at(scripts, entry, vout, i)),
        ),
        None => Seq::empty(),
    }
}

/// The spend that an input of a full transaction is, where it spends one of the outpoints.
pub open spec fn full_spend_at(
    outpoints: Seq<OutPoint>,
    entry: FullEntry,
    outpoint: OutPoint,
) -> Option<TransparentSpend> {
    if outpoints.contains(outpoint) {
        Some(TransparentSpend { txid: entry.0, outpoint, height: entry.1 })
    } else {
        None
    }
}

/// The outpoints among those given that a full transaction spends.
pub open spec fn full_spends(outpoints: Seq<OutPoint>, entry: FullEntry) -> Seq<TransparentSpend> {
    match transparent_inputs_of(entry.3) {
        Some(vin) => collect_some(
            vin.map_values(|o: OutPoint| full_spend_at(outpoints, entry, o)),
        ),
        None => Seq::empty(),
    }
}

/// Whether a list of outputs holds the one at an outpoint.
pub open spec fn lists_output(list: Seq<TransparentOutputView>, outpoint: OutPoint) -> bool {
    exists|i: int| 0 <= i < list.len() && (#[trigger] list[i]).outpoint == outpoint
}

/// A list of outputs with others put in, but for those that it holds.
pub open spec fn with_outputs(
    list: Seq<TransparentOutputView>,
    more: Seq<TransparentOutputView>,
) -> Seq<TransparentOutputView>
    decreases more.len(),
{
    if more.len() == 0 {
        list
    } else {
        let before = with_outputs(list, more.drop_last());
        if lists_output(before, more.last().outpoint) {
            before
        } else {
            before.push(more.last())
        }
    }
}

/// Whether a list of spends holds the one of an outpoint.
pub open spec fn lists_spend(list: Seq<TransparentSpend>, outpoint: OutPoint) -> bool {
    exists|i: int| 0 <= i < list.len() && (#[trigger] list[i]).outpoint == outpoint
}

/// A list of spends with others put in, but for those that it holds.
pub open spec fn with_spends(
    list: Seq<TransparentSpend>,
    more: Seq<TransparentSpend>,
) -> Seq<TransparentSpend>
    decreases more.len(),
{
    if more.len() == 0 {
        list
    } else {
        let before = with_spends(list, more.drop_last());
        if lists_spend(before, more.last().outpoint) {
            before
        } else {
            before.push(more.last())
        }
    }
}

/// A transaction with what a full one pays to the scripts.
pub open spec fn paid(
    wtx: WalletTxView,
    scripts: Seq<Seq<u8>>,
    entry: FullEntry,
) -> WalletTxView {
    WalletTxView {
        transparent_outputs: with_outputs(wtx.transparent_outputs, full_outputs(scripts, entry)),
        ..wtx
    }
}

/// A transaction with what a full one spends of the outpoints.
pub open spec fn drawn(
    wtx: WalletTxView,
    outpoints: Seq<OutPoint>,
    entry: FullEntry,
) -> WalletTxView {
    WalletTxView {
        transparent_spends: with_spends(wtx.transparent_spends, full_spends(outpoints, entry)),
        ..wtx
    }
}

/// The transactions once the outputs of one full transaction were added.
pub open spec fn paid_by(
    txs: Seq<WalletTxView>,
    scripts: Seq<Seq<u8>>,
    entry: FullEntry,
) -> Seq<WalletTxView> {
    match tx_position(txs, entry.0) {
        Some(k) => txs.update(k, paid(txs[k], scripts, entry)),
        None => txs.push(paid(bare_tx(entry.0, entry.1, entry.2), scripts, entry)),
    }
}

/// The transactions once the spends of one full transaction were added.
pub open spec fn drawn_by(
    txs: Seq<WalletTxView>,
    outpoints: Seq<OutPoint>,
    entry: FullEntry,
) -> Seq<WalletTxView> {
    match tx_position(txs, entry.0) {
        Some(k) => txs.update(k, drawn(txs[k], outpoints, entry)),
        None => txs.push(drawn(bare_tx(entry.0, entry.1, entry.2), outpoints, entry)),
    }
}

/// The transactions once the outputs of all full transactions were added, in turn.
pub open spec fn paid_by_all(
    txs: Seq<WalletTxView>,
    scripts: Seq<Seq<u8>>,
    full: Seq<FullEntry>,
) -> Seq<WalletTxView>
    decreases full.len(),
{
    if full.len() == 0 {
        txs
    } else {
        paid_by(paid_by_all(txs, scripts, full.drop_last()), scripts, full.last())
    }
}

/// The transactions once the spends of all full transactions were added, in turn.
pub open spec fn drawn_by_all(
    txs: Seq<WalletTxView>,
    outpoints: Seq<OutPoint>,
    full: Seq<FullEntry>,
) -> Seq<WalletTxView>
    decreases full.len(),
{
    if full.len() == 0 {
        txs
    } else {
        drawn_by(drawn_by_all(txs, outpoints, full.drop_last()), outpoints, full.last())
    }
}

/// The transactions with what full ones tell of the account's transparent outputs: what
/// they pay to the scripts, and what they spend of the outpoints given and of the outputs
/// that the transactions bring in.
pub open spec fn with_transparent(
    txs: Seq<WalletTxView>,
    scripts: Seq<Seq<u8>>,
    outpoints: Seq<OutPoint>,
    full: Seq<FullEntry>,
) -> Seq<WalletTxView> {
    let funded = paid_by_all(txs, scripts, full);
    drawn_by_all(funded, outpoints + outpoints_born(funded), full)
}

/// The outputs of a full transaction that pay the scripts.
fn list_outputs(
    scripts: &Vec<Vec<u8>>,
    full: &([u8; 32], u32, u32, FullTransaction),
) -> (list: Vec<TransparentOutput>)
    ensures
        list@.map_values(|o: TransparentOutput| o@) == full_outputs(
            byte_strings(scripts@),
            (full.0, full.1, full.2, full.3@),
        ),
{
    let ghost known = byte_strings(scripts@);
    let ghost entry = (full.0, full.1, full.2, full.3@);
    let mut list: Vec<TransparentOutput> = Vec::new();
    let vout = match transparent_outputs(&full.3) {
        Some(vout) => vout,
        None => {
            assert(list@.map_values(|o: TransparentOutput| o@) =~= Seq::empty());
            return list;
        },
    };
    let ghost parts = vout@.map_values(|o: (u64, Vec<u8>)| (o.0, o.1@));
    let ghost all = Seq::new(parts.len(), |i: int| full_output_at(known, entry, parts, i));
    let mut i: usize = 0;
    assert(list@.map_values(|o: TransparentOutput| o@) =~= collect_some(all.take(0)));
    while i < vout.len()
        invariant
            0 <= i <= vout.len(),
            known == byte_strings(scripts@),
            entry == (full.0, full.1, full.2, full.3@),
            parts == vout@.map_values(|o: (u64, Vec<u8>)| (o.0, o.1@)),
            all == Seq::new(parts.len(), |i: int| full_output_at(known, entry, parts, i)),
            list@.map_values(|o: TransparentOutput| o@) == collect_some(all.take(i as int)),
        decreases vout.len() - i,
    {
        proof {
            lemma_collect_push(all.take(i as int), all[i as int]);
            assert(all.take(i as int + 1) =~= all.take(i as int).push(all[i as int]));
        }
        if holds_bytes(scripts, &vout[i].1) {
            #[verifier::truncate]
            let n: u32 = i as u32;
            let script_pubkey = crate::bytes::copy_bytes(&vout[i].1);
            let ghost before = list@;
            list.push(
                TransparentOutput {
                    outpoint: OutPoint { hash: full.0, n },
                    txout: TxOut { value: vout[i].0, script_pubkey },
                    height: full.1,
                },
            );
            assert(list@.map_values(|o: TransparentOutput| o@) =~= before.map_values(
                |o: TransparentOutput| o@,
            ).push(all[i as int]->0));
        }
        i = i + 1;
    }
    assert(all.take(i as int) =~= all);
    list
}

/// The outpoints among those given that a full transaction spends.
fn list_spends(
    outpoints: &Vec<OutPoint>,
    full: &([u8; 32], u32, u32, FullTransaction),
) -> (list: Vec<TransparentSpend>)
    ensures
        list@ == full_spends(outpoints@, (full.0, full.1, full.2, full.3@)),
{
    let ghost entry = (full.0, full.1, full.2, full.3@);
    let mut list: Vec<TransparentSpend> = Vec::new();
    let vin = match transparent_inputs(&full.3) {
        Some(vin) => vin,
        None => {
            return list;
        },
    };
    let ghost all = vin@.map_values(|o: OutPoint| full_spend_at(outpoints@, entry, o));
    let mut i: usize = 0;
    assert(list@ =~= collect_some(all.take(0)));
    while i < vin.len()
        invariant
            0 <= i <= vin.len(),
            entry == (full.0, full.1, full.2, full.3@),
            all == vin@.map_values(|o: OutPoint| full_spend_at(outpoints@, entry, o)),
            list@ == collect_some(all.take(i as int)),
        decreases vin.len() - i,
    {
        proof {
            lemma_collect_push(all.take(i as int), all[i as int]);
            assert(all.take(i as int + 1) =~= all.take(i as int).push(all[i as int]));
        }
        if holds_outpoint(outpoints, &vin[i]) {
            list.push(TransparentSpend { txid: full.0, outpoint: vin[i], height: full.1 });
        }
        i = i + 1;
    }
    assert(all.take(i as int) =~= all);
    list
}

/// Puts outputs into a list, but for those that it holds.
fn put_outputs(list: &mut Vec<TransparentOutput>, more: &Vec<TransparentOutput>)
    ensures
        final(list)@.map_values(|o: TransparentOutput| o@) == with_outputs(
            old(list)@.map_values(|o: TransparentOutput| o@),
            more@.map_values(|o: TransparentOutput| o@),
        ),
{
    let ghost start = list@.map_values(|o: TransparentOutput| o@);
    let ghost added = more@.map_values(|o: TransparentOutput| o@);
    let mut i: usize = 0;
    assert(added.take(0) =~= Seq::empty());
    while i < more.len()
        invariant
            0 <= i <= more.len(),
            added == more@.map_values(|o: TransparentOutput| o@),
            list@.map_values(|o: TransparentOutput| o@) == with_outputs(start, added.take(i as int)),
        decreases more.len() - i,
    {
        let ghost held = list@.map_values(|o: TransparentOutput| o@);
        assert(added.take(i as int + 1).drop_last() =~= added.take(i as int));
        let outpoint = more[i].outpoint;
        let mut k: usize = 0;
        while k < list.len() && !(list[k].outpoint.n == outpoint.n && same32(
            &list[k].outpoint.hash,
            &outpoint.hash,
        ))
            invariant
                0 <= k <= list.len(),
                held == list@.map_values(|o: TransparentOutput| o@),
                forall|j: int| 0 <= j < k ==> (#[trigger] held[j]).outpoint != outpoint,
            decreases list.len() - k,
        {
            assert(held[k as int].outpoint == list@[k as int].outpoint);
            k = k + 1;
        }
        if k == list.len() {
            let script_pubkey = crate::bytes::copy_bytes(&more[i].txout.script_pubkey);
            list.push(
                TransparentOutput {
                    outpoint,
                    txout: TxOut { value: more[i].txout.value, script_pubkey },
                    height: more[i].height,
                },
            );
            assert(list@.map_values(|o: TransparentOutput| o@) =~= held.push(added[i as int]));
        } else {
            assert(held[k as int].outpoint == list@[k as int].outpoint);
            assert(lists_output(held, outpoint));
        }
        i = i + 1;
    }
    assert(added.take(i as int) =~= added);
}

/// Puts spends into a list, but for those that it holds.
fn put_spends(list: &mut Vec<TransparentSpend>, more: &Vec<TransparentSpend>)
    ensures
        final(list)@ == with_spends(old(list)@, more@),
{
    let ghost start = list@;
    let mut i: usize = 0;
    assert(more@.take(0) =~= Seq::empty());
    while i < more.len()
        invariant
            0 <= i <= more.len(),
            list@ == with_spends(start, more@.take(i as int)),
        decreases more.len() - i,
    {
        assert(more@.take(i as int + 1).drop_last() =~= more@.take(i as int));
        let outpoint = more[i].outpoint;
        let mut k: usize = 0;
        while k < list.len() && !(list[k].outpoint.n == outpoint.n && same32(
            &list[k].outpoint.hash,
            &outpoint.hash,
        ))
            invariant
                0 <= k <= list.len(),
                forall|j: int| 0 <= j < k ==> (#[trigger] list@[j]).outpoint != outpoint,
            decreases list.len() - k,
        {
            k = k + 1;
        }
        if k == list.len() {
            list.push(more[i]);
        } else {
            assert(list@[k as int].outpoint == outpoint);
            assert(lists_spend(list@, outpoint));
        }
        i = i + 1;
    }
    assert(more@.take(i as int) =~= more@);
}

/// A transaction that does nothing to the account yet.
fn make_bare(txid: [u8; 32], height: u32, tx_index: u32) -> (wtx: WalletTx)
    ensures
        wtx@ == bare_tx(txid, height, tx_index),
{
    let wtx = WalletTx {
        txid,
        height,
        tx_index,
        sapling_outputs: Vec::new(),
        sapling_spends: Vec::new(),
        orchard_outputs: Vec::new(),
        orchard_spends: Vec::new(),
        ironwood_outputs: Vec::new(),
        ironwood_spends: Vec::new(),
        transparent_outputs: Vec::new(),
        transparent_spends: Vec::new(),
    };
    assert(wtx@.transparent_outputs =~= Seq::empty());
    wtx
}

/// Adds what the full transactions pay to the scripts.
fn add_outputs(
    txs: &mut Vec<WalletTx>,
    full_txs: &Vec<([u8; 32], u32, u32, FullTransaction)>,
    scripts: &Vec<Vec<u8>>,
)
    ensures
        tx_views(final(txs)@) == paid_by_all(
            tx_views(old(txs)@),
            byte_strings(scripts@),
            full_entries(full_txs@),
        ),
{
    let ghost entries = full_entries(full_txs@);
    let ghost known = byte_strings(scripts@);
    let mut i: usize = 0;
    assert(entries.take(0) =~= Seq::empty());
    while i < full_txs.len()
        invariant
            0 <= i <= full_txs.len(),
            entries == full_entries(full_txs@),
            known == byte_strings(scripts@),
            tx_views(txs@) == paid_by_all(tx_views(old(txs)@), known, entries.take(i as int)),
        decreases full_txs.len() - i,
    {
        assert(entries.take(i as int + 1).drop_last() =~= entries.take(i as int));
        let full = &full_txs[i];
        let ghost before = tx_views(txs@);
        let outputs = list_outputs(scripts, full);
        let k = find_tx(txs, &full.0);
        if k < txs.len() {
            let wtx = &mut txs[k];
            put_outputs(&mut wtx.transparent_outputs, &outputs);
            assert(tx_views(txs@) =~= before.update(
                k as int,
                paid(before[k as int], known, entries[i as int]),
            ));
        } else {
            let mut wtx = make_bare(full.0, full.1, full.2);
            put_outputs(&mut wtx.transparent_outputs, &outputs);
            let ghost list = txs@;
            txs.push(wtx);
            assert(tx_views(txs@) =~= tx_views(list).push(wtx@));
        }
        i = i + 1;
    }
    assert(entries.take(i as int) =~= entries);
}

/// Adds what the full transactions spend of the outpoints.
fn add_spends(
    txs: &mut Vec<WalletTx>,
    full_txs: &Vec<([u8; 32], u32, u32, FullTransaction)>,
    outpoints: &Vec<OutPoint>,
)
    ensures
        tx_views(final(txs)@) == drawn_by_all(
            tx_views(old(txs)@),
            outpoints@,
            full_entries(full_txs@),
        ),
{
    let ghost entries = full_entries(full_txs@);
    let mut i: usize = 0;
    assert(entries.take(0) =~= Seq::empty());
    while i < full_txs.len()
        invariant
            0 <= i <= full_txs.len(),
            entries == full_entries(full_txs@),
            tx_views(txs@) == drawn_by_all(
                tx_views(old(txs)@),
                outpoints@,
                entries.take(i as int),
            ),
        decreases full_txs.len() - i,
    {
        assert(entries.take(i as int + 1).drop_last() =~= entries.take(i as int));
        let full = &full_txs[i];
        let ghost before = tx_views(txs@);
        let spends = list_spends(outpoints, full);
        let k = find_tx(txs, &full.0);
        if k < txs.len() {
            let wtx = &mut txs[k];
            put_spends(&mut wtx.transparent_spends, &spends);
            assert(tx_views(txs@) =~= before.update(
                k as int,
                drawn(before[k as int], outpoints@, entries[i as int]),
            ));
        } else {
            let mut wtx = make_bare(full.0, full.1, full.2);
            put_spends(&mut wtx.transparent_spends, &spends);
            let ghost list = txs@;
            txs.push(wtx);
            assert(tx_views(txs@) =~= tx_views(list).push(wtx@));
        }
        i = i + 1;
    }
    assert(entries.take(i as int) =~= entries);
}

/// Adds to the transactions what full ones tell of the account's transparent outputs. A
/// spend of an output that the same batch brings in is found too.
pub fn scan_transparent(
    txs: &mut Vec<WalletTx>,
    full_txs: &Vec<([u8; 32], u32, u32, FullTransaction)>,
    scripts: &Vec<Vec<u8>>,
    outpoints: &Vec<OutPoint>,
)
    ensures
        tx_views(final(txs)@) == with_transparent(
            tx_views(old(txs)@),
            byte_strings(scripts@),
            outpoints@,
            full_entries(full_txs@),
        ),
{
    add_outputs(txs, full_txs, scripts);
    let watched = extend_outpoints(outpoints, txs);
    add_spends(txs, full_txs, &watched);
}

/// The outputs that the transactions spend.
pub open spec fn outpoints_gone(txs: Seq<WalletTxView>) -> Seq<OutPoint>
    decreases txs.len(),
{
    if txs.len() == 0 {
        Seq::empty()
    } else {
        outpoints_gone(txs.drop_last()) + txs.last().transparent_spends.map_values(
            |s: TransparentSpend| s.outpoint,
        )
    }
}

/// The outputs of a list that are not in another.
pub open spec fn points_without(list: Seq<OutPoint>, gone: Seq<OutPoint>) -> Seq<OutPoint> {
    collect_some(
        list.map_values(
            |o: OutPoint|
                if gone.contains(o) {
                    None
                } else {
                    Some(o)
                },
        ),
    )
}

/// Stops watching the outputs that the transactions spend, and starts watching those that
/// they bring in. An output that they bring in and spend is not watched.
pub fn update_outpoints(outpoints: &mut Vec<OutPoint>, txs: &Vec<WalletTx>)
    ensures
        final(outpoints)@ == points_without(
            old(outpoints)@ + outpoints_born(tx_views(txs@)),
            outpoints_gone(tx_views(txs@)),
        ),
{
    let ghost views = tx_views(txs@);
    let mut gone: Vec<OutPoint> = Vec::new();
    let mut i: usize = 0;
    assert(views.take(0) =~= Seq::empty());
    while i < txs.len()
        invariant
            0 <= i <= txs.len(),
            views == tx_views(txs@),
            gone@ == outpoints_gone(views.take(i as int)),
        decreases txs.len() - i,
    {
        assert(views.take(i as int + 1).drop_last() =~= views.take(i as int));
        let spends = &txs[i].transparent_spends;
        let ghost before = gone@;
        let mut j: usize = 0;
        while j < spends.len()
            invariant
                0 <= j <= spends.len(),
                gone@ == before + spends@.take(j as int).map_values(|s: TransparentSpend| s.outpoint),
            decreases spends.len() - j,
        {
            gone.push(spends[j].outpoint);
            assert(gone@ =~= before + spends@.take(j as int + 1).map_values(
                |s: TransparentSpend| s.outpoint,
            ));
            j = j + 1;
        }
        assert(spends@.take(j as int) =~= spends@);
        i = i + 1;
    }
    assert(views.take(i as int) =~= views);
    let list = extend_outpoints(outpoints, txs);
    let ghost all = list@.map_values(
        |o: OutPoint|
            if gone@.contains(o) {
                None
            } else {
                Some(o)
            },
    );
    let mut kept: Vec<OutPoint> = Vec::new();
    let mut k: usize = 0;
    assert(kept@ =~= collect_some(all.take(0)));
    while k < list.len()
        invariant
            0 <= k <= list.len(),
            all == list@.map_values(
                |o: OutPoint|
                    if gone@.contains(o) {
                        None
                    } else {
                        Some(o)
                    },
            ),
            kept@ == collect_some(all.take(k as int)),
        decreases list.len() - k,
    {
        proof {
            lemma_collect_push(all.take(k as int), all[k as int]);
            assert(all.take(k as int + 1) =~= all.take(k as int).push(all[k as int]));
        }
        if !holds_outpoint(&gone, &list[k]) {
            kept.push(list[k]);
        }
        k = k + 1;
    }
    assert(all.take(k as int) =~= all);
    *outpoints = kept;
}

/// Whether one of the transactions brings in the output at an outpoint.
pub open spec fn brings_in(txs: Seq<WalletTxView>, outpoint: OutPoint) -> bool {
    exists|k: int|
        0 <= k < txs.len() && lists_output((#[trigger] txs[k]).transparent_outputs, outpoint)
}

/// Whether the transaction with an id is listed as spending the output at an outpoint.
pub open spec fn spends_point(txs: Seq<WalletTxView>, txid: [u8; 32], outpoint: OutPoint) -> bool {
    exists|k: int|
        0 <= k < txs.len() && (#[trigger] txs[k]).txid == txid && lists_spend(
            txs[k].transparent_spends,
            outpoint,
        )
}

/// What is put into a list of outputs is in it, and so is what was there.
proof fn lemma_with_outputs(
    list: Seq<TransparentOutputView>,
    more: Seq<TransparentOutputView>,
    outpoint: OutPoint,
)
    ensures
        lists_output(with_outputs(list, more), outpoint) == (lists_output(list, outpoint)
            || lists_output(more, outpoint)),
    decreases more.len(),
{
    if more.len() > 0 {
        let init = more.drop_last();
        lemma_with_outputs(list, init, outpoint);
        let before = with_outputs(list, init);
        let after = with_outputs(list, more);
        if lists_output(before, outpoint) {
            let k = choose|k: int| 0 <= k < before.len() && (#[trigger] before[k]).outpoint == outpoint;
            assert(after[k].outpoint == outpoint);
        }
        if lists_output(init, outpoint) {
            let k = choose|k: int| 0 <= k < init.len() && (#[trigger] init[k]).outpoint == outpoint;
            assert(more[k].outpoint == outpoint);
        }
        if more.last().outpoint == outpoint {
            assert(more[more.len() - 1].outpoint == outpoint);
            if !lists_output(before, outpoint) {
                assert(after[before.len() as int].outpoint == outpoint);
            }
        }
        if lists_output(more, outpoint) && more.last().outpoint != outpoint {
            let k = choose|k: int| 0 <= k < more.len() && (#[trigger] more[k]).outpoint == outpoint;
            assert(init[k].outpoint == outpoint);
        }
        if lists_output(after, outpoint) && !lists_output(before, outpoint) {
            let k = choose|k: int| 0 <= k < after.len() && (#[trigger] after[k]).outpoint == outpoint;
            if k < before.len() {
                assert(before[k].outpoint == outpoint);
            }
        }
    }
}

/// What is put into a list of spends is in it, and so is what was there.
proof fn lemma_with_spends(
    list: Seq<TransparentSpend>,
    more: Seq<TransparentSpend>,
    outpoint: OutPoint,
)
    ensures
        lists_spend(with_spends(list, more), outpoint) == (lists_spend(list, outpoint)
            || lists_spend(more, outpoint)),
    decreases more.len(),
{
    if more.len() > 0 {
        let init = more.drop_last();
        lemma_with_spends(list, init, outpoint);
        let before = with_spends(list, init);
        let after = with_spends(list, more);
        if lists_spend(before, outpoint) {
            let k = choose|k: int| 0 <= k < before.len() && (#[trigger] before[k]).outpoint == outpoint;
            assert(after[k].outpoint == outpoint);
        }
        if lists_spend(init, outpoint) {
            let k = choose|k: int| 0 <= k < init.len() && (#[trigger] init[k]).outpoint == outpoint;
            assert(more[k].outpoint == outpoint);
        }
        if more.last().outpoint == outpoint {
            assert(more[more.len() - 1].outpoint == outpoint);
            if !lists_spend(before, outpoint) {
                assert(after[before.len() as int].outpoint == outpoint);
            }
        }
        if lists_spend(more, outpoint) && more.last().outpoint != outpoint {
            let k = choose|k: int| 0 <= k < more.len() && (#[trigger] more[k]).outpoint == outpoint;
            assert(init[k].outpoint == outpoint);
        }
        if lists_spend(after, outpoint) && !lists_spend(before, outpoint) {
            let k = choose|k: int| 0 <= k < after.len() && (#[trigger] after[k]).outpoint == outpoint;
            if k < before.len() {
                assert(before[k].outpoint == outpoint);
            }
        }
    }
}

/// The position of a transaction is one of the positions, and the transaction there has the
/// id.
proof fn lemma_position_has_id(txs: Seq<WalletTxView>, txid: [u8; 32])
    ensures
        tx_position(txs, txid) matches Some(k) ==> 0 <= k < txs.len() && txs[k].txid == txid,
    decreases txs.len(),
{
    if txs.len() > 0 {
        lemma_position_has_id(txs.drop_last(), txid);
    }
}

/// The outputs of one full transaction are brought in, and what was stays.
proof fn lemma_paid_by(
    txs: Seq<WalletTxView>,
    scripts: Seq<Seq<u8>>,
    entry: FullEntry,
    outpoint: OutPoint,
)
    ensures
        brings_in(txs, outpoint) ==> brings_in(paid_by(txs, scripts, entry), outpoint),
        lists_output(full_outputs(scripts, entry), outpoint) ==> brings_in(
            paid_by(txs, scripts, entry),
            outpoint,
        ),
{
    let after = paid_by(txs, scripts, entry);
    lemma_position_has_id(txs, entry.0);
    match tx_position(txs, entry.0) {
        Some(k) => {
            lemma_with_outputs(
                txs[k].transparent_outputs,
                full_outputs(scripts, entry),
                outpoint,
            );
            if lists_output(full_outputs(scripts, entry), outpoint) {
                assert(lists_output(after[k].transparent_outputs, outpoint));
            }
        },
        None => {
            lemma_with_outputs(Seq::empty(), full_outputs(scripts, entry), outpoint);
            if lists_output(full_outputs(scripts, entry), outpoint) {
                assert(lists_output(after[txs.len() as int].transparent_outputs, outpoint));
            }
        },
    }
    if brings_in(txs, outpoint) {
        let j = choose|j: int|
            0 <= j < txs.len() && lists_output((#[trigger] txs[j]).transparent_outputs, outpoint);
        assert(lists_output(after[j].transparent_outputs, outpoint));
    }
}

/// The outputs of every full transaction are brought in, and what was stays.
proof fn lemma_paid_by_all(
    txs: Seq<WalletTxView>,
    scripts: Seq<Seq<u8>>,
    full: Seq<FullEntry>,
    outpoint: OutPoint,
)
    ensures
        brings_in(txs, outpoint) ==> brings_in(paid_by_all(txs, scripts, full), outpoint),
        forall|i: int|
            0 <= i < full.len() && lists_output(full_outputs(scripts, #[trigger] full[i]), outpoint)
                ==> brings_in(paid_by_all(txs, scripts, full), outpoint),
    decreases full.len(),
{
    if full.len() > 0 {
        let init = full.drop_last();
        lemma_paid_by_all(txs, scripts, init, outpoint);
        lemma_paid_by(paid_by_all(txs, scripts, init), scripts, full.last(), outpoint);
        assert forall|i: int|
            0 <= i < full.len() && lists_output(
                full_outputs(scripts, #[trigger] full[i]),
                outpoint,
            ) implies brings_in(paid_by_all(txs, scripts, full), outpoint) by {
            if i < init.len() {
                assert(init[i] == full[i]);
            }
        }
    }
}

/// The spends of one full transaction are listed, and what was stays.
proof fn lemma_drawn_by(
    txs: Seq<WalletTxView>,
    outpoints: Seq<OutPoint>,
    entry: FullEntry,
    txid: [u8; 32],
    outpoint: OutPoint,
)
    ensures
        brings_in(txs, outpoint) ==> brings_in(drawn_by(txs, outpoints, entry), outpoint),
        spends_point(txs, txid, outpoint) ==> spends_point(
            drawn_by(txs, outpoints, entry),
            txid,
            outpoint,
        ),
        entry.0 == txid && lists_spend(full_spends(outpoints, entry), outpoint) ==> spends_point(
            drawn_by(txs, outpoints, entry),
            txid,
            outpoint,
        ),
{
    let after = drawn_by(txs, outpoints, entry);
    lemma_position_has_id(txs, entry.0);
    match tx_position(txs, entry.0) {
        Some(k) => {
            lemma_with_spends(txs[k].transparent_spends, full_spends(outpoints, entry), outpoint);
            if lists_spend(full_spends(outpoints, entry), outpoint) {
                assert(lists_spend(after[k].transparent_spends, outpoint));
            }
        },
        None => {
            lemma_with_spends(Seq::empty(), full_spends(outpoints, entry), outpoint);
            if lists_spend(full_spends(outpoints, entry), outpoint) {
                assert(lists_spend(after[txs.len() as int].transparent_spends, outpoint));
            }
        },
    }
    if brings_in(txs, outpoint) {
        let j = choose|j: int|
            0 <= j < txs.len() && lists_output((#[trigger] txs[j]).transparent_outputs, outpoint);
        assert(lists_output(after[j].transparent_outputs, outpoint));
    }
    if spends_point(txs, txid, outpoint) {
        let j = choose|j: int|
            0 <= j < txs.len() && (#[trigger] txs[j]).txid == txid && lists_spend(
                txs[j].transparent_spends,
                outpoint,
            );
        assert(after[j].txid == txid && lists_spend(after[j].transparent_spends, outpoint));
    }
}

/// The spends of every full transaction are listed, and what was stays.
proof fn lemma_drawn_by_all(
    txs: Seq<WalletTxView>,
    outpoints: Seq<OutPoint>,
    full: Seq<FullEntry>,
    outpoint: OutPoint,
)
    ensures
        brings_in(txs, outpoint) ==> brings_in(drawn_by_all(txs, outpoints, full), outpoint),
        forall|i: int|
            0 <= i < full.len() && lists_spend(full_spends(outpoints, #[trigger] full[i]), outpoint)
                ==> spends_point(drawn_by_all(txs, outpoints, full), full[i].0, outpoint),
    decreases full.len(),
{
    if full.len() > 0 {
        let init = full.drop_last();
        let before = drawn_by_all(txs, outpoints, init);
        lemma_drawn_by_all(txs, outpoints, init, outpoint);
        lemma_drawn_by(before, outpoints, full.last(), full.last().0, outpoint);
        assert forall|i: int|
            0 <= i < full.len() && lists_spend(
                full_spends(outpoints, #[trigger] full[i]),
                outpoint,
            ) implies spends_point(
            drawn_by_all(txs, outpoints, full),
            full[i].0,
            outpoint,
        ) by {
            if i < init.len() {
                assert(init[i] == full[i]);
                lemma_drawn_by(before, outpoints, full.last(), full[i].0, outpoint);
            }
        }
    }
}

/// The outputs that transactions bring in are among those that they add to the watched
/// ones.
proof fn lemma_born(txs: Seq<WalletTxView>, outpoint: OutPoint)
    requires
        brings_in(txs, outpoint),
    ensures
        outpoints_born(txs).contains(outpoint),
    decreases txs.len(),
{
    let k = choose|k: int|
        0 <= k < txs.len() && lists_output((#[trigger] txs[k]).transparent_outputs, outpoint);
    let init = txs.drop_last();
    let before = outpoints_born(init);
    let f = |o: TransparentOutputView| o.outpoint;
    let last = txs.last().transparent_outputs.map_values(f);
    if k < init.len() {
        assert(lists_output(init[k].transparent_outputs, outpoint));
        lemma_born(init, outpoint);
        let j = choose|j: int| 0 <= j < before.len() && before[j] == outpoint;
        assert((before + last)[j] == outpoint);
    } else {
        let list = txs.last().transparent_outputs;
        let j = choose|j: int| 0 <= j < list.len() && (#[trigger] list[j]).outpoint == outpoint;
        assert(last[j] == outpoint);
        assert((before + last)[before.len() + j] == outpoint);
    }
}

/// An output of a fetched transaction that pays one of the account's scripts rides the
/// batch.
pub proof fn law_every_output_rides_the_batch(
    txs: Seq<WalletTxView>,
    scripts: Seq<Seq<u8>>,
    outpoints: Seq<OutPoint>,
    full: Seq<FullEntry>,
    i: int,
    vout: Seq<(u64, Seq<u8>)>,
    m: int,
)
    requires
        0 <= i < full.len(),
        transparent_outputs_of(full[i].3) == Some(vout),
        0 <= m < vout.len(),
        scripts.contains(vout[m].1),
    ensures
        brings_in(
            with_transparent(txs, scripts, outpoints, full),
            OutPoint { hash: full[i].0, n: m as u32 },
        ),
{
    let outpoint = OutPoint { hash: full[i].0, n: m as u32 };
    let all = Seq::new(vout.len(), |k: int| full_output_at(scripts, full[i], vout, k));
    let list = full_outputs(scripts, full[i]);
    assert(all[m] is Some);
    lemma_collect_has(all, m);
    let k = choose|k: int| 0 <= k < list.len() && list[k] == all[m]->0;
    assert(list[k].outpoint == outpoint);
    assert(lists_output(list, outpoint));
    lemma_paid_by_all(txs, scripts, full, outpoint);
    let funded = paid_by_all(txs, scripts, full);
    lemma_drawn_by_all(funded, outpoints + outpoints_born(funded), full, outpoint);
}

/// A spend of an output that the account holds, or that the same batch brings in, rides the
/// batch, whichever of the two transactions was fetched first.
pub proof fn law_every_spend_rides_the_batch(
    txs: Seq<WalletTxView>,
    scripts: Seq<Seq<u8>>,
    outpoints: Seq<OutPoint>,
    full: Seq<FullEntry>,
    j: int,
    vin: Seq<OutPoint>,
    n: int,
)
    requires
        0 <= j < full.len(),
        transparent_inputs_of(full[j].3) == Some(vin),
        0 <= n < vin.len(),
        outpoints.contains(vin[n]) || brings_in(paid_by_all(txs, scripts, full), vin[n]),
    ensures
        spends_point(with_transparent(txs, scripts, outpoints, full), full[j].0, vin[n]),
{
    let outpoint = vin[n];
    let funded = paid_by_all(txs, scripts, full);
    let born = outpoints_born(funded);
    let watched = outpoints + born;
    assert(watched.contains(outpoint)) by {
        if outpoints.contains(outpoint) {
            let k = choose|k: int| 0 <= k < outpoints.len() && outpoints[k] == outpoint;
            assert(watched[k] == outpoint);
        } else {
            lemma_born(funded, outpoint);
            let k = choose|k: int| 0 <= k < born.len() && born[k] == outpoint;
            assert(watched[outpoints.len() + k] == outpoint);
        }
    }
    let all = vin.map_values(|o: OutPoint| full_spend_at(watched, full[j], o));
    let list = full_spends(watched, full[j]);
    assert(all[n] is Some);
    lemma_collect_has(all, n);
    let k = choose|k: int| 0 <= k < list.len() && list[k] == all[n]->0;
    assert(list[k].outpoint == outpoint);
    assert(lists_spend(list, outpoint));
    lemma_drawn_by_all(funded, watched, full, outpoint);
}

} // verus!
