//! Finding an account's transparent addresses.
//!
//! Each scope's addresses are walked from index 0 on. For each one the server tells the
//! transactions that touched it, and a run of [`GAP_LIMIT`] unused addresses ends the
//! scope. Nothing is remembered between walks, so a walk asks about the account's whole
//! life.

use vstd::prelude::*;
use vstd::string::*;

use crate::bytes::same32;
use crate::key::{scoped_address, TransparentIncoming};
use crate::primitives::{Network, TransparentAddress};
use crate::proto::RawTransaction;
use crate::upstream::transactions::{
    read_transaction, transaction_error_of, transaction_id, txid_of,
};
use crate::upstream::transparent_keys::{address_text, address_text_of, CHILD_INDEX_END};

verus! {

/// How many unused addresses in a row end the walk of a scope.
pub const GAP_LIMIT: u32 = 20;

/// What a walk found.
#[derive(Debug)]
pub struct Discovery {
    /// Every address asked about, with its encoding: those in use and the gap after them.
    pub addresses: Vec<(TransparentAddress, String)>,
    /// The transactions that touched those addresses, with their heights.
    pub targets: Vec<([u8; 32], u32)>,
}

/// The addresses with their encodings.
pub open spec fn address_views(list: Seq<(TransparentAddress, String)>) -> Seq<
    (TransparentAddress, Seq<char>),
> {
    list.map_values(|a: (TransparentAddress, String)| (a.0, a.1@))
}

/// Whether an address is in a list.
pub open spec fn lists_address(
    list: Seq<(TransparentAddress, Seq<char>)>,
    address: TransparentAddress,
) -> bool {
    exists|i: int| 0 <= i < list.len() && (#[trigger] list[i]).0 == address
}

/// A list of addresses with one more, unless it is there.
pub open spec fn with_address(
    list: Seq<(TransparentAddress, Seq<char>)>,
    address: TransparentAddress,
    text: Seq<char>,
) -> Seq<(TransparentAddress, Seq<char>)> {
    if lists_address(list, address) {
        list
    } else {
        list.push((address, text))
    }
}

/// Whether a transaction is in a list.
pub open spec fn lists_target(list: Seq<([u8; 32], u32)>, txid: [u8; 32]) -> bool {
    exists|i: int| 0 <= i < list.len() && (#[trigger] list[i]).0 == txid
}

/// The transactions with one put in, in place of what was known of it.
pub open spec fn with_target(list: Seq<([u8; 32], u32)>, txid: [u8; 32], height: u32) -> Seq<
    ([u8; 32], u32),
> {
    if lists_target(list, txid) {
        list.map_values(
            |t: ([u8; 32], u32)|
                if t.0 == txid {
                    (txid, height)
                } else {
                    t
                },
        )
    } else {
        list.push((txid, height))
    }
}

/// The transactions with those of a reply put in; what cannot be read is left out.
pub open spec fn with_targets(
    list: Seq<([u8; 32], u32)>,
    txs: Seq<RawTransaction>,
    network: Network,
) -> Seq<([u8; 32], u32)>
    decreases txs.len(),
{
    if txs.len() == 0 {
        list
    } else {
        let before = with_targets(list, txs.drop_last(), network);
        let raw = txs.last();
        if transaction_error_of(raw.data@, network, raw.height as u32) is Some {
            before
        } else {
            with_target(
                before,
                txid_of((raw.data@, network, raw.height as u32)),
                raw.height as u32,
            )
        }
    }
}

/// Whether two addresses are the same.
fn same_address(a: &TransparentAddress, b: &TransparentAddress) -> (same: bool)
    ensures
        same == (*a == *b),
{
    match (a, b) {
        (TransparentAddress::PublicKeyHash(x), TransparentAddress::PublicKeyHash(y)) => same_hash(
            x,
            y,
        ),
        (TransparentAddress::ScriptHash(x), TransparentAddress::ScriptHash(y)) => same_hash(x, y),
        _ => false,
    }
}

/// Whether two hashes are the same.
fn same_hash(a: &[u8; 20], b: &[u8; 20]) -> (same: bool)
    ensures
        same == (*a == *b),
{
    let mut i: usize = 0;
    while i < 20
        invariant
            0 <= i <= 20,
            forall|j: int| 0 <= j < i ==> a@[j] == b@[j],
        decreases 20 - i,
    {
        if a[i] != b[i] {
            assert(a@[i as int] != b@[i as int]);
            return false;
        }
        i = i + 1;
    }
    assert(*a =~= *b);
    true
}

/// Puts a transaction in, in place of what was known of it.
fn put_target(list: &mut Vec<([u8; 32], u32)>, txid: [u8; 32], height: u32)
    ensures
        final(list)@ == with_target(old(list)@, txid, height),
{
    let ghost all = list@.map_values(
        |t: ([u8; 32], u32)|
            if t.0 == txid {
                (txid, height)
            } else {
                t
            },
    );
    let mut found = false;
    let mut i: usize = 0;
    while i < list.len()
        invariant
            0 <= i <= list.len(),
            list.len() == old(list).len(),
            all == old(list)@.map_values(
                |t: ([u8; 32], u32)|
                    if t.0 == txid {
                        (txid, height)
                    } else {
                        t
                    },
            ),
            forall|j: int| 0 <= j < i ==> #[trigger] list@[j] == all[j],
            forall|j: int| i <= j < list.len() ==> #[trigger] list@[j] == old(list)@[j],
            found ==> lists_target(old(list)@, txid),
            !found ==> forall|j: int| 0 <= j < i ==> (#[trigger] old(list)@[j]).0 != txid,
        decreases list.len() - i,
    {
        assert(list@[i as int] == old(list)@[i as int]);
        if same32(&list[i].0, &txid) {
            assert(old(list)@[i as int].0 == txid);
            found = true;
            list.set(i, (txid, height));
        }
        i = i + 1;
    }
    if found {
        assert(list@ =~= all);
    } else {
        proof {
            assert forall|j: int| 0 <= j < list.len() implies list@[j] == old(list)@[j] by {
                assert(old(list)@[j].0 != txid);
                assert(list@[j] == all[j]);
            }
            assert(list@ =~= old(list)@);
        }
        list.push((txid, height));
    }
}

/// The state of a walk.
pub struct WalkView {
    /// Whether the scope under way is the internal one.
    pub internal: bool,
    /// The index of the next address.
    pub index: u32,
    /// How many addresses in a row were unused.
    pub unused: u32,
    /// Whether both scopes are done.
    pub done: bool,
    /// The address that the server is asked about.
    pub asked: Option<TransparentAddress>,
    /// The addresses found.
    pub addresses: Seq<(TransparentAddress, Seq<char>)>,
    /// The transactions found.
    pub targets: Seq<([u8; 32], u32)>,
}

/// The address that the scope under way goes on with: none after the gap, or where none
/// can be derived.
pub open spec fn next_address(walk: WalkView, keys: (Seq<u8>, Option<Seq<u8>>)) -> Option<
    TransparentAddress,
> {
    if walk.done || walk.unused >= GAP_LIMIT {
        None
    } else {
        scoped_address(keys.0, keys.1, walk.internal, walk.index)
    }
}

/// The walk with its scope ended: the internal scope comes after the external one.
pub open spec fn scope_ended(walk: WalkView) -> WalkView {
    if walk.internal {
        WalkView { done: true, ..walk }
    } else {
        WalkView { internal: true, index: 0, unused: 0, ..walk }
    }
}

/// The walk moved to where there is an address to ask about, or to its end.
pub open spec fn moved_on(walk: WalkView, keys: Option<(Seq<u8>, Option<Seq<u8>>)>) -> WalkView {
    match keys {
        None => WalkView { done: true, asked: None, ..walk },
        Some(keys) => {
            let first = WalkView { asked: next_address(walk, keys), ..walk };
            if first.asked is Some || walk.done {
                first
            } else {
                let second = scope_ended(first);
                let second = WalkView { asked: next_address(second, keys), ..second };
                if second.asked is Some || second.done {
                    second
                } else {
                    scope_ended(second)
                }
            }
        },
    }
}

/// The walk after the server told the transactions that touched the address.
pub open spec fn answered(walk: WalkView, txs: Seq<RawTransaction>, network: Network) -> WalkView {
    match walk.asked {
        None => walk,
        Some(address) => WalkView {
            index: (walk.index + 1) as u32,
            unused: if txs.len() == 0 {
                (walk.unused + 1) as u32
            } else {
                0
            },
            asked: None,
            addresses: with_address(walk.addresses, address, address_text_of(network, address)),
            targets: with_targets(walk.targets, txs, network),
            ..walk
        },
    }
}

/// A walk over an account's transparent addresses.
#[derive(Debug)]
pub struct Walk {
    internal: bool,
    index: u32,
    unused: u32,
    done: bool,
    asked: Option<TransparentAddress>,
    found: Discovery,
}

impl Walk {
    /// The state of the walk.
    pub closed spec fn view(&self) -> WalkView {
        WalkView {
            internal: self.internal,
            index: self.index,
            unused: self.unused,
            done: self.done,
            asked: self.asked,
            addresses: address_views(self.found.addresses@),
            targets: self.found.targets@,
        }
    }

    /// An address is asked about only within the scope and its gap.
    pub closed spec fn wf(&self) -> bool {
        self.asked is Some ==> self.index < CHILD_INDEX_END && self.unused < GAP_LIMIT
    }

    /// Before the first address.
    pub fn new() -> (walk: Self)
        ensures
            walk.wf(),
            walk@ == (WalkView {
                internal: false,
                index: 0,
                unused: 0,
                done: false,
                asked: None,
                addresses: Seq::empty(),
                targets: Seq::empty(),
            }),
    {
        let walk = Walk {
            internal: false,
            index: 0,
            unused: 0,
            done: false,
            asked: None,
            found: Discovery { addresses: Vec::new(), targets: Vec::new() },
        };
        assert(walk@.addresses =~= Seq::empty());
        assert(walk@.targets =~= Seq::empty());
        walk
    }

    /// The encoding of the next address to ask the server about; none at the end of the
    /// walk, and at once where the key has no transparent component.
    pub fn next(&mut self, keys: Option<&TransparentIncoming>, network: Network) -> (text: Option<
        String,
    >)
        requires
            old(self).wf(),
        ensures
            final(self).wf(),
            final(self)@ == moved_on(
                old(self)@,
                match keys {
                    Some(keys) => Some(keys@),
                    None => None,
                },
            ),
            match final(self)@.asked {
                Some(address) => text matches Some(t) && t@ == address_text_of(network, address),
                None => text is None,
            },
    {
        let keys = match keys {
            Some(keys) => keys,
            None => {
                self.done = true;
                self.asked = None;
                return None;
            },
        };
        self.asked = if self.done || self.unused >= GAP_LIMIT {
            None
        } else {
            keys.derive(self.internal, self.index)
        };
        if self.asked.is_none() && !self.done {
            if self.internal {
                self.done = true;
            } else {
                self.internal = true;
                self.index = 0;
                self.unused = 0;
                self.asked = keys.derive(true, 0);
                if self.asked.is_none() {
                    self.done = true;
                }
            }
        }
        match &self.asked {
            Some(address) => Some(address_text(network, address)),
            None => None,
        }
    }

    /// Takes the transactions that touched the address asked about: none makes the address
    /// unused. Each one that can be read becomes a target, at the height that the server
    /// tells.
    pub fn on_transactions(&mut self, txs: &Vec<RawTransaction>, network: Network)
        requires
            old(self).wf(),
        ensures
            final(self).wf(),
            final(self)@ == answered(old(self)@, txs@, network),
    {
        let address = match self.asked {
            Some(address) => address,
            None => return ,
        };
        self.asked = None;
        self.index = self.index + 1;
        if txs.len() == 0 {
            self.unused = self.unused + 1;
        } else {
            self.unused = 0;
        }
        put_targets(&mut self.found.targets, txs, network);
        put_address(&mut self.found.addresses, address, network);
    }

    /// What the walk found.
    pub fn finish(self) -> (found: Discovery)
        ensures
            address_views(found.addresses@) == self@.addresses,
            found.targets@ == self@.targets,
    {
        self.found
    }
}

/// Puts an address in, unless it is there.
fn put_address(
    list: &mut Vec<(TransparentAddress, String)>,
    address: TransparentAddress,
    network: Network,
)
    ensures
        address_views(final(list)@) == with_address(
            address_views(old(list)@),
            address,
            address_text_of(network, address),
        ),
{
    let ghost before = address_views(list@);
    let mut i: usize = 0;
    while i < list.len()
        invariant
            0 <= i <= list.len(),
            list@ == old(list)@,
            before == address_views(list@),
            forall|j: int| 0 <= j < i ==> (#[trigger] before[j]).0 != address,
        decreases list.len() - i,
    {
        assert(before[i as int].0 == list@[i as int].0);
        if same_address(&list[i].0, &address) {
            return ;
        }
        i = i + 1;
    }
    let text = address_text(network, &address);
    let ghost view = text@;
    list.push((address, text));
    assert(address_views(list@) =~= before.push((address, view)));
}

/// Puts the transactions of a reply in.
fn put_targets(list: &mut Vec<([u8; 32], u32)>, txs: &Vec<RawTransaction>, network: Network)
    ensures
        final(list)@ == with_targets(old(list)@, txs@, network),
{
    let mut i: usize = 0;
    assert(txs@.take(0) =~= Seq::empty());
    while i < txs.len()
        invariant
            0 <= i <= txs.len(),
            list@ == with_targets(old(list)@, txs@.take(i as int), network),
        decreases txs.len() - i,
    {
        proof {
            assert(txs@.take(i as int + 1).drop_last() =~= txs@.take(i as int));
        }
        let raw = &txs[i];
        #[verifier::truncate]
        let height: u32 = raw.height as u32;
        if let Ok(tx) = read_transaction(&raw.data, network, height) {
            put_target(list, transaction_id(&tx), height);
        }
        i = i + 1;
    }
    assert(txs@.take(i as int) =~= txs@);
}

/// Whether the run of unused addresses is no longer than the addresses asked about in the
/// scope, nor than the limit.
pub open spec fn within_gap(walk: WalkView) -> bool {
    walk.unused <= walk.index && walk.unused <= GAP_LIMIT
}

/// A walk never goes more than the gap beyond a used address: the run of unused addresses
/// stays within the limit, whatever the server tells.
pub proof fn law_walk_stays_within_gap(
    walk: WalkView,
    keys: Option<(Seq<u8>, Option<Seq<u8>>)>,
    txs: Seq<RawTransaction>,
    network: Network,
)
    requires
        within_gap(walk),
    ensures
        within_gap(moved_on(walk, keys)),
        within_gap(answered(moved_on(walk, keys), txs, network)),
{
}

/// An address that was asked about stays known, and so does a transaction that was found.
pub proof fn law_walk_forgets_nothing(
    walk: WalkView,
    keys: Option<(Seq<u8>, Option<Seq<u8>>)>,
    txs: Seq<RawTransaction>,
    network: Network,
    address: TransparentAddress,
    txid: [u8; 32],
)
    ensures
        ({
            let after = answered(moved_on(walk, keys), txs, network);
            &&& lists_address(walk.addresses, address) ==> lists_address(after.addresses, address)
            &&& moved_on(walk, keys).asked == Some(address) ==> lists_address(
                after.addresses,
                address,
            )
            &&& lists_target(walk.targets, txid) ==> lists_target(after.targets, txid)
        }),
{
    let asked = moved_on(walk, keys);
    let after = answered(asked, txs, network);
    assert(asked.addresses == walk.addresses);
    assert(asked.targets == walk.targets);
    if lists_address(walk.addresses, address) {
        let i = choose|i: int|
            0 <= i < walk.addresses.len() && (#[trigger] walk.addresses[i]).0 == address;
        assert(after.addresses[i].0 == address);
    }
    if let Some(a) = asked.asked {
        if !lists_address(walk.addresses, a) {
            assert(after.addresses[walk.addresses.len() as int].0 == a);
        }
    }
    lemma_targets_kept(walk.targets, txs, network, txid);
}

/// A transaction that was found stays known.
proof fn lemma_targets_kept(
    list: Seq<([u8; 32], u32)>,
    txs: Seq<RawTransaction>,
    network: Network,
    txid: [u8; 32],
)
    ensures
        lists_target(list, txid) ==> lists_target(with_targets(list, txs, network), txid),
    decreases txs.len(),
{
    if txs.len() > 0 {
        lemma_targets_kept(list, txs.drop_last(), network, txid);
        let before = with_targets(list, txs.drop_last(), network);
        let after = with_targets(list, txs, network);
        if lists_target(before, txid) {
            let i = choose|i: int| 0 <= i < before.len() && (#[trigger] before[i]).0 == txid;
            assert(after[i].0 == txid);
        }
    }
}

} // verus!
