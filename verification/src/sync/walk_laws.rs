//! Laws of the walk over transparent addresses: what an answer leaves, and which address comes
//! next.

use vstd::prelude::*;

use crate::primitives::{Network, TransparentAddress};
use crate::proto::RawTransaction;
use crate::sync::transparent::{
    answered, moved_on, with_target, with_targets, WalkView,
};
use crate::upstream::transactions::{transaction_error_of, txid_of};
use crate::upstream::transparent_keys::{
    address_text_of, external_address_of, internal_address_of, CHILD_INDEX_END,
};

verus! {

/// Whether an answer holds a readable transaction of an id, which it tells last at a height.
pub open spec fn tells_last(
    txs: Seq<RawTransaction>,
    network: Network,
    txid: [u8; 32],
    height: u32,
) -> bool {
    exists|i: int|
        {
            &&& 0 <= i < txs.len()
            &&& readable_as(#[trigger] txs[i], network, txid)
            &&& txs[i].height as u32 == height
            &&& forall|j: int| i < j < txs.len() ==> !readable_as(#[trigger] txs[j], network, txid)
        }
}

/// Whether a transaction of an answer can be read, and has the id.
pub open spec fn readable_as(raw: RawTransaction, network: Network, txid: [u8; 32]) -> bool {
    transaction_error_of(raw.data@, network, raw.height as u32) is None && txid_of(
        (raw.data@, network, raw.height as u32),
    ) == txid
}

/// Putting a transaction in lists it at its height, in place of what was listed of it, and
/// leaves every other as it is.
proof fn lemma_target_put(list: Seq<([u8; 32], u32)>, txid: [u8; 32], height: u32, t: ([u8; 32], u32))
    ensures
        with_target(list, txid, height).contains(t) == if t.0 == txid {
            t.1 == height
        } else {
            list.contains(t)
        },
{
    let after = with_target(list, txid, height);
    if t.0 == txid {
        if t.1 == height {
            if exists|i: int| 0 <= i < list.len() && (#[trigger] list[i]).0 == txid {
                let i = choose|i: int| 0 <= i < list.len() && (#[trigger] list[i]).0 == txid;
                assert(after[i] == t);
            } else {
                assert(after[list.len() as int] == t);
            }
        }
        if after.contains(t) {
            let i = choose|i: int| 0 <= i < after.len() && after[i] == t;
            if i < list.len() && list[i].0 != txid {
                assert(after[i].0 != txid);
            }
        }
    } else {
        if list.contains(t) {
            let i = choose|i: int| 0 <= i < list.len() && list[i] == t;
            assert(after[i] == t);
        }
        if after.contains(t) {
            let i = choose|i: int| 0 <= i < after.len() && after[i] == t;
            assert(i < list.len());
            assert(list[i] == t);
        }
    }
}

/// What an answer leaves of the transactions listed.
proof fn lemma_targets(
    list: Seq<([u8; 32], u32)>,
    txs: Seq<RawTransaction>,
    network: Network,
    t: ([u8; 32], u32),
)
    ensures
        with_targets(list, txs, network).contains(t) == (tells_last(txs, network, t.0, t.1) || (
        list.contains(t) && forall|i: int|
            0 <= i < txs.len() ==> !readable_as(#[trigger] txs[i], network, t.0))),
    decreases txs.len(),
{
    if txs.len() > 0 {
        let init = txs.drop_last();
        let last = txs.len() - 1;
        let raw = txs[last];
        lemma_targets(list, init, network, t);
        let before = with_targets(list, init, network);
        let txid = txid_of((raw.data@, network, raw.height as u32));
        lemma_target_put(before, txid, raw.height as u32, t);
        assert forall|i: int| 0 <= i < last implies (#[trigger] txs[i]) == init[i] by {}
        if readable_as(raw, network, t.0) {
            if raw.height as u32 == t.1 {
                assert(readable_as(txs[last], network, t.0));
                assert(tells_last(txs, network, t.0, t.1));
            } else if tells_last(txs, network, t.0, t.1) {
                let i = choose|i: int|
                    {
                        &&& 0 <= i < txs.len()
                        &&& readable_as(#[trigger] txs[i], network, t.0)
                        &&& txs[i].height as u32 == t.1
                        &&& forall|j: int|
                            i < j < txs.len() ==> !readable_as(#[trigger] txs[j], network, t.0)
                    };
                assert(i < last ==> !readable_as(txs[last], network, t.0));
            }
        } else {
            if tells_last(init, network, t.0, t.1) {
                let i = choose|i: int|
                    {
                        &&& 0 <= i < init.len()
                        &&& readable_as(#[trigger] init[i], network, t.0)
                        &&& init[i].height as u32 == t.1
                        &&& forall|j: int|
                            i < j < init.len() ==> !readable_as(#[trigger] init[j], network, t.0)
                    };
                assert(readable_as(txs[i], network, t.0));
                assert(tells_last(txs, network, t.0, t.1));
            }
            if tells_last(txs, network, t.0, t.1) {
                let i = choose|i: int|
                    {
                        &&& 0 <= i < txs.len()
                        &&& readable_as(#[trigger] txs[i], network, t.0)
                        &&& txs[i].height as u32 == t.1
                        &&& forall|j: int|
                            i < j < txs.len() ==> !readable_as(#[trigger] txs[j], network, t.0)
                    };
                assert(readable_as(init[i], network, t.0));
                assert forall|j: int| i < j < init.len() implies !readable_as(
                    #[trigger] init[j],
                    network,
                    t.0,
                ) by {
                    assert(!readable_as(txs[j], network, t.0));
                }
                assert(tells_last(init, network, t.0, t.1));
            }
            if forall|i: int| 0 <= i < init.len() ==> !readable_as(#[trigger] init[i], network, t.0) {
                assert forall|i: int| 0 <= i < txs.len() implies !readable_as(
                    #[trigger] txs[i],
                    network,
                    t.0,
                ) by {
                    if i < last {
                        assert(!readable_as(init[i], network, t.0));
                    }
                }
            }
            if forall|i: int| 0 <= i < txs.len() ==> !readable_as(#[trigger] txs[i], network, t.0) {
                assert forall|i: int| 0 <= i < init.len() implies !readable_as(
                    #[trigger] init[i],
                    network,
                    t.0,
                ) by {
                    assert(!readable_as(txs[i], network, t.0));
                }
            }
        }
    }
}

/// In either scope, every transaction of an answer that can be read becomes a target, at the
/// height told with it, and every other target is one that was listed before. Where the answer
/// tells a transaction twice, the last height counts.
pub proof fn law_every_transaction_of_an_answer_is_a_target(
    walk: WalkView,
    txs: Seq<RawTransaction>,
    network: Network,
    t: ([u8; 32], u32),
)
    requires
        walk.asked is Some,
    ensures
        answered(walk, txs, network).targets.contains(t) == (tells_last(txs, network, t.0, t.1) || (
        walk.targets.contains(t) && forall|i: int|
            0 <= i < txs.len() ==> !readable_as(#[trigger] txs[i], network, t.0))),
{
    lemma_targets(walk.targets, txs, network, t);
}

/// In either scope, a transaction that the server tells of an address, and that can be read,
/// is among the targets afterwards.
pub proof fn law_told_transaction_is_a_target(
    walk: WalkView,
    txs: Seq<RawTransaction>,
    network: Network,
    i: int,
)
    requires
        walk.asked is Some,
        0 <= i < txs.len(),
        transaction_error_of(txs[i].data@, network, txs[i].height as u32) is None,
    ensures
        ({
            let txid = txid_of((txs[i].data@, network, txs[i].height as u32));
            &&& exists|k: int|
                0 <= k < answered(walk, txs, network).targets.len() && (#[trigger] answered(
                    walk,
                    txs,
                    network,
                ).targets[k]).0 == txid
            &&& (forall|j: int|
                0 <= j < txs.len() && readable_as(#[trigger] txs[j], network, txid)
                    ==> txs[j].height == txs[i].height) ==> answered(
                walk,
                txs,
                network,
            ).targets.contains((txid, txs[i].height as u32))
        }),
    decreases txs.len() - i,
{
    let txid = txid_of((txs[i].data@, network, txs[i].height as u32));
    let after = answered(walk, txs, network).targets;
    assert(readable_as(txs[i], network, txid));
    if exists|j: int| i < j < txs.len() && readable_as(#[trigger] txs[j], network, txid) {
        let j = choose|j: int| i < j < txs.len() && readable_as(#[trigger] txs[j], network, txid);
        law_told_transaction_is_a_target(walk, txs, network, j);
    } else {
        let t = (txid, txs[i].height as u32);
        assert(tells_last(txs, network, txid, txs[i].height as u32));
        law_every_transaction_of_an_answer_is_a_target(walk, txs, network, t);
        let k = choose|k: int| 0 <= k < after.len() && after[k] == t;
        assert(after[k].0 == txid);
    }
}

/// The address asked about becomes known with its encoding, whatever the answer, unless it was
/// known; no other address changes.
pub proof fn law_asked_address_becomes_known(
    walk: WalkView,
    txs: Seq<RawTransaction>,
    network: Network,
    address: TransparentAddress,
)
    requires
        walk.asked == Some(address),
    ensures
        ({
            let after = answered(walk, txs, network).addresses;
            let known = exists|i: int|
                0 <= i < walk.addresses.len() && (#[trigger] walk.addresses[i]).0 == address;
            &&& known ==> after == walk.addresses
            &&& !known ==> after == walk.addresses.push((address, address_text_of(network, address)))
        }),
{
}

/// An answer moves the walk to the next index of the same scope. An address with transactions
/// ends the run of unused ones, and one without makes it longer by one.
pub proof fn law_answer_moves_to_the_next_index(
    walk: WalkView,
    txs: Seq<RawTransaction>,
    network: Network,
)
    requires
        walk.asked is Some,
        walk.index < CHILD_INDEX_END,
        walk.unused < 20,
    ensures
        ({
            let after = answered(walk, txs, network);
            &&& after.index == walk.index + 1
            &&& after.internal == walk.internal
            &&& after.done == walk.done
            &&& txs.len() > 0 ==> after.unused == 0
            &&& txs.len() == 0 ==> after.unused == walk.unused + 1
        }),
{
}

/// Every address of both scopes is asked about, from index 0 on, until a gap of unused ones.
/// The external scope comes first; when it is over the internal one starts at index 0 with no
/// gap, and the walk ends only when that one is over too.
pub proof fn law_walk_asks_every_address_up_to_the_gap(
    walk: WalkView,
    external: Seq<u8>,
    internal: Option<Seq<u8>>,
)
    requires
        !walk.done,
    ensures
        ({
            let next = moved_on(walk, Some((external, internal)));
            let in_gap = walk.unused < 20 && walk.index < CHILD_INDEX_END;
            let change = |i: u32|
                match internal {
                    Some(key) => internal_address_of(key, i),
                    None => None,
                };
            &&& !walk.internal && in_gap && external_address_of(external, walk.index) is Some ==> {
                &&& next.asked == external_address_of(external, walk.index)
                &&& !next.internal
                &&& next.index == walk.index
                &&& next.unused == walk.unused
                &&& !next.done
            }
            &&& !walk.internal && !(in_gap && external_address_of(external, walk.index) is Some)
                ==> {
                &&& next.internal
                &&& next.asked == change(0)
                &&& next.index == 0
                &&& next.unused == 0
                &&& next.done == (change(0) is None)
            }
            &&& walk.internal && in_gap && change(walk.index) is Some ==> {
                &&& next.asked == change(walk.index)
                &&& next.internal
                &&& next.index == walk.index
                &&& next.unused == walk.unused
                &&& !next.done
            }
            &&& walk.internal && !(in_gap && change(walk.index) is Some) ==> {
                &&& next.done
                &&& next.asked is None
            }
            &&& next.addresses == walk.addresses
            &&& next.targets == walk.targets
        }),
{
}

/// A key without a transparent part has no address to ask about, and nothing is found.
pub proof fn law_no_transparent_key_ends_the_walk(walk: WalkView)
    ensures
        ({
            let next = moved_on(walk, None);
            &&& next.done
            &&& next.asked is None
            &&& next.addresses == walk.addresses
            &&& next.targets == walk.targets
        }),
{
}

/// Nothing changes where no address was asked about, and a walk that is over stays so.
pub proof fn law_idle_walk_stays(
    walk: WalkView,
    keys: (Seq<u8>, Option<Seq<u8>>),
    txs: Seq<RawTransaction>,
    network: Network,
)
    ensures
        walk.asked is None ==> answered(walk, txs, network) == walk,
        walk.done ==> moved_on(walk, Some(keys)) == (WalkView { asked: None, ..walk }),
{
}

} // verus!
