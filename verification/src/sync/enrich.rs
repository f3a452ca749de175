//! Memos for received notes.
//!
//! A compact block holds enough of an output to recover its note, but not its memo. The
//! memo comes from the full transaction: each transaction that made a received note is
//! fetched once, and its outputs are decrypted. A transaction that cannot be read leaves
//! its notes without memos.

use vstd::prelude::*;

use crate::bytes::same32;
use crate::db::order::{in_order, insert_in_order, key_le, Keyed};
use crate::db::rows::{push_txid, txid_key};
use crate::note::decrypt::{try_decrypt_orchard, try_decrypt_sapling};
use crate::primitives::{FullActionParts, FullParts, Network, OrchardNote, SaplingNote};
use crate::proto::RawTransaction;
use crate::upstream::consensus_rules::{zip212_at, zip212_enforcement};
use crate::upstream::orchard_notes::{orchard_full_note, OrchardFullAction, OrchardIvk};
use crate::upstream::sapling_notes::{sapling_full_note, SaplingFullOutput, SaplingIvk};
use crate::upstream::transactions::{
    orchard_actions, orchard_actions_of, read_transaction, sapling_outputs, sapling_outputs_of,
    transaction_error_of,
};

verus! {

/// A note received.
#[derive(Debug, Clone, Copy, PartialEq, Eq)]
pub struct Receive<N> {
    /// The transaction that made it.
    pub txid: [u8; 32],
    /// The height of that transaction's block.
    pub height: u32,
    /// The output's or action's index in that transaction.
    pub output_index: u32,
    /// The note.
    pub note: N,
    /// Its nullifier, where a full viewing key found it.
    pub nf: Option<[u8; 32]>,
    /// Its memo, once it is known.
    pub memo: Option<[u8; 512]>,
}

/// A note spent.
#[derive(Debug, Clone, Copy, PartialEq, Eq)]
pub struct SpendEvent {
    /// The spending transaction.
    pub txid: [u8; 32],
    /// The height of that transaction's block.
    pub height: u32,
    /// The note's nullifier.
    pub nf: [u8; 32],
}

/// An event in the life of a note.
#[derive(Debug, Clone, Copy, PartialEq, Eq)]
pub enum Tx<N> {
    /// It was received.
    Receive(Receive<N>),
    /// It was spent.
    Spend(SpendEvent),
}

/// The events of each pool.
#[derive(Debug)]
pub struct Transactions {
    /// The events of the Sapling pool.
    pub sapling: Vec<Tx<SaplingNote>>,
    /// The events of the Orchard pool.
    pub orchard: Vec<Tx<OrchardNote>>,
}

/// Whether a transaction made one of the notes received.
pub open spec fn receives_from<N>(events: Seq<Tx<N>>, txid: [u8; 32]) -> bool {
    exists|i: int|
        0 <= i < events.len() && ((#[trigger] events[i]) matches Tx::Receive(r) && r.txid == txid)
}

/// A transaction id, ordered by its bytes.
#[derive(Debug, Clone, Copy, PartialEq, Eq)]
pub struct OrderedTxid {
    /// The transaction id.
    pub txid: [u8; 32],
}

impl Keyed for OrderedTxid {
    open spec fn key(&self) -> Seq<u64> {
        txid_key(self.txid)
    }

    fn sort_key(&self) -> (key: Vec<u64>) {
        let mut key: Vec<u64> = Vec::new();
        push_txid(&mut key, &self.txid);
        assert(key@ =~= self.key());
        key
    }
}

/// Whether transaction ids stand in the order of their bytes, each one once.
pub open spec fn txids_ordered(txids: Seq<[u8; 32]>) -> bool {
    &&& forall|i: int, j: int|
        0 <= i < j < txids.len() ==> key_le(
            txid_key(#[trigger] txids[i]),
            txid_key(#[trigger] txids[j]),
        )
    &&& txids.no_duplicates()
}

/// Puts a transaction id where it belongs, unless it is there.
fn add_txid(list: &mut Vec<OrderedTxid>, txid: [u8; 32])
    requires
        in_order(old(list)@),
        txid_list(old(list)@).no_duplicates(),
    ensures
        in_order(final(list)@),
        txid_list(final(list)@).no_duplicates(),
        forall|x: [u8; 32]| #[trigger]
            txid_list(final(list)@).contains(x) == (txid_list(old(list)@).contains(x) || x == txid),
{
    let ghost before = txid_list(list@);
    let mut i: usize = 0;
    while i < list.len()
        invariant
            0 <= i <= list.len(),
            list@ == old(list)@,
            in_order(list@),
            before == txid_list(list@),
            before.no_duplicates(),
            forall|j: int| 0 <= j < i ==> #[trigger] before[j] != txid,
        decreases list.len() - i,
    {
        if same32(&list[i].txid, &txid) {
            assert(before[i as int] == txid);
            assert(before.contains(txid));
            return ;
        }
        assert(before[i as int] != txid);
        i = i + 1;
    }
    let at = insert_in_order(list, OrderedTxid { txid });
    proof {
        let after = txid_list(list@);
        assert(after =~= before.insert(at as int, txid));
        assert(after[at as int] == txid);
        assert forall|a: int, b: int| 0 <= a < b < after.len() implies after[a] != after[b] by {
            let ba = if a < at { a } else { a - 1 };
            let bb = if b < at { b } else { b - 1 };
            if a != at && b != at {
                assert(before[ba] != before[bb]);
            } else if a == at {
                assert(before[bb] != txid);
            } else {
                assert(before[ba] != txid);
            }
        }
        assert forall|x: [u8; 32]| #[trigger] after.contains(x) == (before.contains(x) || x == txid) by {
            if before.contains(x) {
                let k = choose|k: int| 0 <= k < before.len() && before[k] == x;
                assert(after[if k < at { k } else { k + 1 }] == x);
            }
            if after.contains(x) && x != txid {
                let k = choose|k: int| 0 <= k < after.len() && after[k] == x;
                assert(before[if k < at { k } else { k - 1 }] == x);
            }
        }
    }
}

/// The transaction ids of a list.
pub open spec fn txid_list(list: Seq<OrderedTxid>) -> Seq<[u8; 32]> {
    list.map_values(|t: OrderedTxid| t.txid)
}

/// Adds the transactions that made the notes received.
fn add_receives<N>(list: &mut Vec<OrderedTxid>, events: &Vec<Tx<N>>)
    requires
        in_order(old(list)@),
        txid_list(old(list)@).no_duplicates(),
    ensures
        in_order(final(list)@),
        txid_list(final(list)@).no_duplicates(),
        forall|x: [u8; 32]| #[trigger]
            txid_list(final(list)@).contains(x) == (txid_list(old(list)@).contains(x)
                || receives_from(events@, x)),
{
    let mut i: usize = 0;
    while i < events.len()
        invariant
            0 <= i <= events.len(),
            in_order(list@),
            txid_list(list@).no_duplicates(),
            forall|x: [u8; 32]| #[trigger]
                txid_list(list@).contains(x) == (txid_list(old(list)@).contains(x) || receives_from(
                    events@.take(i as int),
                    x,
                )),
        decreases events.len() - i,
    {
        let ghost before = txid_list(list@);
        let ghost some = events@.take(i as int);
        let ghost more = events@.take(i as int + 1);
        if let Tx::Receive(r) = &events[i] {
            add_txid(list, r.txid);
        }
        proof {
            assert forall|x: [u8; 32]| receives_from(more, x) == (receives_from(some, x) || (
            events@[i as int] matches Tx::Receive(r) && r.txid == x)) by {
                if receives_from(some, x) {
                    let k = choose|k: int|
                        0 <= k < some.len() && ((#[trigger] some[k]) matches Tx::Receive(r) && r.txid
                            == x);
                    assert(more[k] == some[k]);
                }
                if receives_from(more, x) {
                    let k = choose|k: int|
                        0 <= k < more.len() && ((#[trigger] more[k]) matches Tx::Receive(r) && r.txid
                            == x);
                    if k < i {
                        assert(some[k] == more[k]);
                    }
                }
                assert(more[i as int] == events@[i as int]);
            }
        }
        i = i + 1;
    }
    assert(events@.take(i as int) =~= events@);
}

impl Transactions {
    /// The transactions to fetch: those that made the notes received, each one once, in
    /// the order of their bytes.
    pub fn receive_txids(&self) -> (txids: Vec<[u8; 32]>)
        ensures
            txids_ordered(txids@),
            forall|x: [u8; 32]| #[trigger]
                txids@.contains(x) == (receives_from(self.sapling@, x) || receives_from(
                    self.orchard@,
                    x,
                )),
    {
        let mut list: Vec<OrderedTxid> = Vec::new();
        assert(txid_list(list@) =~= Seq::empty());
        add_receives(&mut list, &self.sapling);
        add_receives(&mut list, &self.orchard);
        let ghost all = txid_list(list@);
        let mut txids: Vec<[u8; 32]> = Vec::new();
        let mut i: usize = 0;
        assert(txids@ =~= all.take(0));
        while i < list.len()
            invariant
                0 <= i <= list.len(),
                all == txid_list(list@),
                txids@ == all.take(i as int),
            decreases list.len() - i,
        {
            txids.push(list[i].txid);
            assert(txids@ =~= all.take(i as int + 1));
            i = i + 1;
        }
        assert(txids@ =~= all);
        proof {
            assert forall|a: int, b: int| 0 <= a < b < all.len() implies key_le(
                txid_key(#[trigger] all[a]),
                txid_key(#[trigger] all[b]),
            ) by {
                assert(key_le(list@[a].key(), list@[b].key()));
            }
        }
        txids
    }
}

/// The memo of a Sapling output, where the key decrypts it by the rules of a height.
pub open spec fn sapling_memo(
    ivk: Option<Seq<u8>>,
    network: Network,
    outputs: Option<Seq<FullParts>>,
    height: u32,
    index: u32,
) -> Option<[u8; 512]> {
    if ivk is Some && outputs is Some && index < (outputs->0).len() {
        match sapling_full_note(ivk->0, zip212_at(network, height), (outputs->0)[index as int]) {
            Some((_, memo)) => Some(memo),
            None => None,
        }
    } else {
        None
    }
}

/// The memo of an Orchard action, where the key decrypts it.
pub open spec fn orchard_memo(
    ivk: Option<Seq<u8>>,
    actions: Option<Seq<FullActionParts>>,
    index: u32,
) -> Option<[u8; 512]> {
    if ivk is Some && actions is Some && index < (actions->0).len() {
        match orchard_full_note(ivk->0, (actions->0)[index as int]) {
            Some((_, memo)) => Some(memo),
            None => None,
        }
    } else {
        None
    }
}

/// A Sapling event with the memo that its transaction gives it, where it has none.
pub open spec fn sapling_enriched(
    event: Tx<SaplingNote>,
    txid: [u8; 32],
    ivk: Option<Seq<u8>>,
    network: Network,
    outputs: Option<Seq<FullParts>>,
) -> Tx<SaplingNote> {
    match event {
        Tx::Receive(r) => if r.txid == txid && r.memo is None {
            Tx::Receive(
                Receive { memo: sapling_memo(ivk, network, outputs, r.height, r.output_index), ..r },
            )
        } else {
            event
        },
        Tx::Spend(_) => event,
    }
}

/// An Orchard event with the memo that its transaction gives it, where it has none.
pub open spec fn orchard_enriched(
    event: Tx<OrchardNote>,
    txid: [u8; 32],
    ivk: Option<Seq<u8>>,
    actions: Option<Seq<FullActionParts>>,
) -> Tx<OrchardNote> {
    match event {
        Tx::Receive(r) => if r.txid == txid && r.memo is None {
            Tx::Receive(Receive { memo: orchard_memo(ivk, actions, r.output_index), ..r })
        } else {
            event
        },
        Tx::Spend(_) => event,
    }
}

/// A key's encoding, where there is a key.
pub open spec fn sapling_ivk_view(ivk: Option<&SaplingIvk>) -> Option<Seq<u8>> {
    match ivk {
        Some(k) => Some(k@),
        None => None,
    }
}

/// A key's encoding, where there is a key.
pub open spec fn orchard_ivk_view(ivk: Option<&OrchardIvk>) -> Option<Seq<u8>> {
    match ivk {
        Some(k) => Some(k@),
        None => None,
    }
}

/// What outputs hold, where there are any.
pub open spec fn outputs_view(outputs: Option<Vec<SaplingFullOutput>>) -> Option<Seq<FullParts>> {
    match outputs {
        Some(list) => Some(list@.map_values(|o: SaplingFullOutput| o@)),
        None => None,
    }
}

/// What actions hold, where there are any.
pub open spec fn actions_view(actions: Option<Vec<OrchardFullAction>>) -> Option<
    Seq<FullActionParts>,
> {
    match actions {
        Some(list) => Some(list@.map_values(|a: OrchardFullAction| a@)),
        None => None,
    }
}

/// Gives the Sapling events of a transaction their memos.
pub fn attach_sapling(
    events: &mut Vec<Tx<SaplingNote>>,
    txid: &[u8; 32],
    ivk: Option<&SaplingIvk>,
    network: Network,
    outputs: &Option<Vec<SaplingFullOutput>>,
)
    ensures
        final(events)@ == old(events)@.map_values(
            |e: Tx<SaplingNote>|
                sapling_enriched(e, *txid, sapling_ivk_view(ivk), network, outputs_view(*outputs)),
        ),
{
    let ghost all = events@.map_values(
        |e: Tx<SaplingNote>|
            sapling_enriched(e, *txid, sapling_ivk_view(ivk), network, outputs_view(*outputs)),
    );
    let mut i: usize = 0;
    assert(events@ =~= all.take(0) + events@.skip(0));
    while i < events.len()
        invariant
            0 <= i <= events.len(),
            all == old(events)@.map_values(
                |e: Tx<SaplingNote>|
                    sapling_enriched(
                        e,
                        *txid,
                        sapling_ivk_view(ivk),
                        network,
                        outputs_view(*outputs),
                    ),
            ),
            events@.len() == old(events)@.len(),
            events@ == all.take(i as int) + old(events)@.skip(i as int),
        decreases events.len() - i,
    {
        assert(events@[i as int] == old(events)@[i as int]);
        let event = events[i];
        if let Tx::Receive(r) = event {
            if same32(&r.txid, txid) && r.memo.is_none() {
                let mut memo: Option<[u8; 512]> = None;
                if let (Some(ivk), Some(outputs)) = (ivk, outputs) {
                    if (r.output_index as usize) < outputs.len() {
                        let rule = zip212_enforcement(network, r.height);
                        if let Some((_, _, found)) = try_decrypt_sapling(
                            &outputs[r.output_index as usize],
                            ivk,
                            rule,
                        ) {
                            memo = Some(found);
                        }
                    }
                }
                events.set(i, Tx::Receive(Receive { memo, ..r }));
            }
        }
        assert(events@ =~= all.take(i as int + 1) + old(events)@.skip(i as int + 1));
        i = i + 1;
    }
    assert(events@ =~= all);
}

/// Gives the Orchard events of a transaction their memos.
pub fn attach_orchard(
    events: &mut Vec<Tx<OrchardNote>>,
    txid: &[u8; 32],
    ivk: Option<&OrchardIvk>,
    actions: &Option<Vec<OrchardFullAction>>,
)
    ensures
        final(events)@ == old(events)@.map_values(
            |e: Tx<OrchardNote>|
                orchard_enriched(e, *txid, orchard_ivk_view(ivk), actions_view(*actions)),
        ),
{
    let ghost all = events@.map_values(
        |e: Tx<OrchardNote>|
            orchard_enriched(e, *txid, orchard_ivk_view(ivk), actions_view(*actions)),
    );
    let mut i: usize = 0;
    assert(events@ =~= all.take(0) + events@.skip(0));
    while i < events.len()
        invariant
            0 <= i <= events.len(),
            all == old(events)@.map_values(
                |e: Tx<OrchardNote>|
                    orchard_enriched(e, *txid, orchard_ivk_view(ivk), actions_view(*actions)),
            ),
            events@.len() == old(events)@.len(),
            events@ == all.take(i as int) + old(events)@.skip(i as int),
        decreases events.len() - i,
    {
        assert(events@[i as int] == old(events)@[i as int]);
        let event = events[i];
        if let Tx::Receive(r) = event {
            if same32(&r.txid, txid) && r.memo.is_none() {
                let mut memo: Option<[u8; 512]> = None;
                if let (Some(ivk), Some(actions)) = (ivk, actions) {
                    if (r.output_index as usize) < actions.len() {
                        if let Some((_, _, found)) = try_decrypt_orchard(
                            &actions[r.output_index as usize],
                            ivk,
                        ) {
                            memo = Some(found);
                        }
                    }
                }
                events.set(i, Tx::Receive(Receive { memo, ..r }));
            }
        }
        assert(events@ =~= all.take(i as int + 1) + old(events)@.skip(i as int + 1));
        i = i + 1;
    }
    assert(events@ =~= all);
}

/// Gives the notes that a transaction made their memos, as far as the keys decrypt them.
/// Bytes that are no transaction change nothing.
pub fn enrich_memos(
    txs: &mut Transactions,
    txid: &[u8; 32],
    raw: &RawTransaction,
    sapling_ivk: Option<&SaplingIvk>,
    orchard_ivk: Option<&OrchardIvk>,
    network: Network,
)
    ensures
        transaction_error_of(raw.data@, network, raw.height as u32) is Some ==> final(txs)@ == old(
            txs,
        )@,
        transaction_error_of(raw.data@, network, raw.height as u32) is None ==> {
            let tx = (raw.data@, network, raw.height as u32);
            &&& final(txs)@.0 == old(txs)@.0.map_values(
                |e: Tx<SaplingNote>|
                    sapling_enriched(
                        e,
                        *txid,
                        sapling_ivk_view(sapling_ivk),
                        network,
                        sapling_outputs_of(tx),
                    ),
            )
            &&& final(txs)@.1 == old(txs)@.1.map_values(
                |e: Tx<OrchardNote>|
                    orchard_enriched(
                        e,
                        *txid,
                        orchard_ivk_view(orchard_ivk),
                        orchard_actions_of(tx),
                    ),
            )
        },
{
    #[verifier::truncate]
    let height: u32 = raw.height as u32;
    if let Ok(tx) = read_transaction(&raw.data, network, height) {
        let outputs = sapling_outputs(&tx);
        assert(outputs_view(outputs) == sapling_outputs_of(tx@));
        attach_sapling(&mut txs.sapling, txid, sapling_ivk, network, &outputs);
        let actions = orchard_actions(&tx);
        assert(actions_view(actions) == orchard_actions_of(tx@));
        attach_orchard(&mut txs.orchard, txid, orchard_ivk, &actions);
    }
}

impl Transactions {
    /// The events of each pool.
    pub open spec fn view(&self) -> (Seq<Tx<SaplingNote>>, Seq<Tx<OrchardNote>>) {
        (self.sapling@, self.orchard@)
    }
}

/// A memo that is known stays, and only the notes that the transaction made get one: what
/// else is known of an event never changes.
pub proof fn law_enriching_adds_only_memos(
    event: Tx<OrchardNote>,
    sapling_event: Tx<SaplingNote>,
    txid: [u8; 32],
    orchard_ivk: Option<Seq<u8>>,
    actions: Option<Seq<FullActionParts>>,
    sapling_ivk: Option<Seq<u8>>,
    network: Network,
    outputs: Option<Seq<FullParts>>,
)
    ensures
        match (event, orchard_enriched(event, txid, orchard_ivk, actions)) {
            (Tx::Receive(r), Tx::Receive(e)) => {
                &&& e == (Receive { memo: e.memo, ..r })
                &&& (r.memo is Some || r.txid != txid) ==> e.memo == r.memo
            },
            (Tx::Spend(s), Tx::Spend(e)) => s == e,
            _ => false,
        },
        match (
            sapling_event,
            sapling_enriched(sapling_event, txid, sapling_ivk, network, outputs),
        ) {
            (Tx::Receive(r), Tx::Receive(e)) => {
                &&& e == (Receive { memo: e.memo, ..r })
                &&& (r.memo is Some || r.txid != txid) ==> e.memo == r.memo
            },
            (Tx::Spend(s), Tx::Spend(e)) => s == e,
            _ => false,
        },
{
}

} // verus!
