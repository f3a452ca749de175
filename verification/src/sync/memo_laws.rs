//! Laws of what full transactions add: each memo reaches its own note, and each note sent is
//! recorded once.

use vstd::prelude::*;

use crate::primitives::{FullActionParts, FullParts, Network, Scope, Zip212Enforcement};
use crate::sync::decrypt::{
    ironwood_full_found, ironwood_sent_found, orchard_full_found, orchard_sent_found,
    sapling_full_found, sapling_sent_found, DecryptResult, OrchardScanningKey, SaplingScanningKey,
};
use crate::sync::scan::{
    enriched, enriched_by, enriched_by_all, lemma_output_position, lemma_tx_position,
    output_position, tx_position, with_memos, with_sent, FullEntry, WalletOutput, WalletTxView,
};
use crate::upstream::consensus_rules::zip212_at;
use crate::upstream::transactions::{
    ironwood_actions_of, orchard_actions_of, sapling_outputs_of,
};

verus! {

/// Each memo reaches the note of its own index and no other: a note, the first with its index,
/// has afterwards the memo that was read at that index, and the one that it had where none was
/// read. Nothing else of it changes, and there are as many notes as before.
pub proof fn law_each_note_gets_the_memo_of_its_index<N>(
    outputs: Seq<WalletOutput<N, [u8; 32], [u8; 43]>>,
    results: Seq<Option<DecryptResult<N, [u8; 43]>>>,
)
    requires
        results.len() <= u32::MAX,
    ensures
        with_memos(outputs, results).len() == outputs.len(),
        forall|k: int|
            0 <= k < outputs.len() ==> {
                let i = outputs[k].index as int;
                let first = forall|m: int| 0 <= m < k ==> (#[trigger] outputs[m]).index != i;
                let read = i < results.len() && results[i] is Some && (results[i]->0).memo is Some;
                #[trigger] with_memos(outputs, results)[k] == WalletOutput {
                    memo: if first && read {
                        (results[i]->0).memo
                    } else {
                        outputs[k].memo
                    },
                    ..outputs[k]
                }
            },
    decreases results.len(),
{
    if results.len() > 0 {
        let init = results.drop_last();
        let last = (results.len() - 1) as int;
        law_each_note_gets_the_memo_of_its_index(outputs, init);
        let before = with_memos(outputs, init);
        let after = with_memos(outputs, results);
        lemma_first_position(before, last as u32);
        assert forall|k: int| 0 <= k < outputs.len() implies (#[trigger] before[k]).index
            == outputs[k].index by {}
        assert forall|k: int| 0 <= k < outputs.len() implies {
            let i = outputs[k].index as int;
            let first = forall|m: int| 0 <= m < k ==> (#[trigger] outputs[m]).index != i;
            let read = i < results.len() && results[i] is Some && (results[i]->0).memo is Some;
            #[trigger] after[k] == WalletOutput {
                memo: if first && read {
                    (results[i]->0).memo
                } else {
                    outputs[k].memo
                },
                ..outputs[k]
            }
        } by {
            let i = outputs[k].index as int;
            assert(before[k].index == outputs[k].index);
            if i == last {
                let first = forall|m: int| 0 <= m < k ==> (#[trigger] outputs[m]).index != i;
                if first {
                    assert forall|m: int| 0 <= m < k implies (#[trigger] before[m]).index != i by {
                        assert(before[m].index == outputs[m].index);
                    }
                    lemma_output_position(before, last as u32, k);
                } else {
                    let m = choose|m: int| 0 <= m < k && (#[trigger] outputs[m]).index == i;
                    assert(before[m].index == i);
                    assert(output_position(before, last as u32) != Some(k));
                }
            } else {
                if i < init.len() {
                    assert(init[i] == results[i]);
                }
                assert(output_position(before, last as u32) != Some(k));
            }
        }
    }
}

/// The position of an index is that of the first entry with it.
proof fn lemma_first_position<N>(
    outputs: Seq<WalletOutput<N, [u8; 32], [u8; 43]>>,
    index: u32,
)
    ensures
        match output_position(outputs, index) {
            Some(k) => 0 <= k < outputs.len() && outputs[k].index == index && forall|m: int|
                0 <= m < k ==> (#[trigger] outputs[m]).index != index,
            None => forall|m: int| 0 <= m < outputs.len() ==> (#[trigger] outputs[m]).index != index,
        },
    decreases outputs.len(),
{
    if outputs.len() > 0 {
        let init = outputs.drop_last();
        lemma_first_position(init, index);
        assert forall|m: int| 0 <= m < init.len() implies (#[trigger] outputs[m]) == init[m] by {}
    }
}

/// Whether an output was added for a note that was recovered as sent at its index.
pub open spec fn is_sent_as<N>(
    output: WalletOutput<N, [u8; 32], [u8; 43]>,
    r: DecryptResult<N, [u8; 43]>,
) -> bool {
    &&& output.note == r.note
    &&& output.recipient == r.recipient
    &&& r.memo is Some
    &&& output.memo == r.memo
    &&& output.is_sent
    &&& !output.is_change
    &&& output.nf is None
    &&& output.position == 0
    &&& output.scope == (if r.key_index == 0 {
        Scope::External
    } else {
        Scope::Internal
    })
}

/// The notes received stay first, as they were. After them come exactly the notes that were
/// recovered as sent at an index at which none was received, in order, each with its own note,
/// recipient and memo.
pub proof fn law_each_note_sent_is_added_once<N>(
    outputs: Seq<WalletOutput<N, [u8; 32], [u8; 43]>>,
    results: Seq<Option<DecryptResult<N, [u8; 43]>>>,
)
    requires
        results.len() <= u32::MAX,
    ensures
        ({
            let after = with_sent(outputs, results);
            let n = outputs.len() as int;
            &&& after.len() >= n
            &&& after.take(n) == outputs
            &&& forall|k: int|
                n <= k < after.len() ==> {
                    let i = (#[trigger] after[k]).index as int;
                    &&& i < results.len()
                    &&& results[i] is Some
                    &&& is_sent_as(after[k], results[i]->0)
                    &&& forall|m: int| 0 <= m < n ==> (#[trigger] outputs[m]).index != i
                }
            &&& forall|k: int, m: int|
                n <= k < m < after.len() ==> (#[trigger] after[k]).index < (#[trigger] after[m]).index
            &&& forall|i: int|
                0 <= i < results.len() && (#[trigger] results[i]) is Some && (results[i]->0).memo is Some
                    && (forall|m: int| 0 <= m < n ==> (#[trigger] outputs[m]).index != i)
                    ==> exists|k: int| n <= k < after.len() && (#[trigger] after[k]).index == i
        }),
{
    lemma_received_stay(outputs, results);
    lemma_added_are_sent(outputs, results);
    lemma_sent_are_added(outputs, results);
}

/// Whether none of the notes has an index.
pub open spec fn index_free<N>(outputs: Seq<WalletOutput<N, [u8; 32], [u8; 43]>>, i: int) -> bool {
    forall|m: int| 0 <= m < outputs.len() ==> (#[trigger] outputs[m]).index != i
}

/// What one more result adds.
proof fn lemma_one_more<N>(
    outputs: Seq<WalletOutput<N, [u8; 32], [u8; 43]>>,
    results: Seq<Option<DecryptResult<N, [u8; 43]>>>,
)
    requires
        0 < results.len() <= u32::MAX,
    ensures
        ({
            let before = with_sent(outputs, results.drop_last());
            let after = with_sent(outputs, results);
            let r = results.last();
            let i = results.len() - 1;
            if r is Some && (r->0).memo is Some && index_free(before, i) {
                &&& after == before.push(after.last())
                &&& after.last().index == i
                &&& is_sent_as(after.last(), r->0)
            } else {
                after == before
            }
        }),
{
    let before = with_sent(outputs, results.drop_last());
    let i = (results.len() - 1) as u32;
    lemma_first_position(before, i);
    if let Some(k) = output_position(before, i) {
        assert(before[k].index == i);
        assert(!index_free(before, i as int));
    } else {
        assert(index_free(before, i as int));
    }
}

/// The notes received stay first.
proof fn lemma_received_stay<N>(
    outputs: Seq<WalletOutput<N, [u8; 32], [u8; 43]>>,
    results: Seq<Option<DecryptResult<N, [u8; 43]>>>,
)
    requires
        results.len() <= u32::MAX,
    ensures
        with_sent(outputs, results).len() >= outputs.len(),
        with_sent(outputs, results).take(outputs.len() as int) == outputs,
    decreases results.len(),
{
    let n = outputs.len() as int;
    if results.len() == 0 {
        assert(outputs.take(n) =~= outputs);
    } else {
        lemma_received_stay(outputs, results.drop_last());
        lemma_one_more(outputs, results);
        let before = with_sent(outputs, results.drop_last());
        assert(with_sent(outputs, results).take(n) =~= before.take(n));
    }
}

/// Every note added was recovered as sent at its index, at which none was received, and stands
/// after those of lower index.
proof fn lemma_added_are_sent<N>(
    outputs: Seq<WalletOutput<N, [u8; 32], [u8; 43]>>,
    results: Seq<Option<DecryptResult<N, [u8; 43]>>>,
)
    requires
        results.len() <= u32::MAX,
    ensures
        forall|k: int|
            outputs.len() <= k < with_sent(outputs, results).len() ==> {
                let o = #[trigger] with_sent(outputs, results)[k];
                &&& o.index < results.len()
                &&& results[o.index as int] is Some
                &&& is_sent_as(o, results[o.index as int]->0)
                &&& index_free(outputs, o.index as int)
            },
        forall|k: int, m: int|
            outputs.len() <= k < m < with_sent(outputs, results).len() ==> (#[trigger] with_sent(
                outputs,
                results,
            )[k]).index < (#[trigger] with_sent(outputs, results)[m]).index,
    decreases results.len(),
{
    if results.len() > 0 {
        let init = results.drop_last();
        let i = results.len() - 1;
        let before = with_sent(outputs, init);
        let after = with_sent(outputs, results);
        lemma_added_are_sent(outputs, init);
        lemma_received_stay(outputs, init);
        lemma_one_more(outputs, results);
        if index_free(before, i) {
            lemma_free_of_prefix(before, outputs.len() as int, i);
        }
        assert forall|k: int| outputs.len() <= k < after.len() implies {
            let o = #[trigger] after[k];
            &&& o.index < results.len()
            &&& results[o.index as int] is Some
            &&& is_sent_as(o, results[o.index as int]->0)
            &&& index_free(outputs, o.index as int)
        } by {
            if k < before.len() {
                assert(after[k] == before[k]);
                assert(init[before[k].index as int] == results[before[k].index as int]);
            }
        }
        assert forall|k: int, m: int| outputs.len() <= k < m < after.len() implies (
        #[trigger] after[k]).index < (#[trigger] after[m]).index by {
            assert(after[k] == before[k]);
            if m < before.len() {
                assert(after[m] == before[m]);
            } else {
                assert(before[k].index < init.len());
            }
        }
    }
}

/// An index that no note has, none of the first notes has.
proof fn lemma_free_of_prefix<N>(
    outputs: Seq<WalletOutput<N, [u8; 32], [u8; 43]>>,
    n: int,
    i: int,
)
    requires
        0 <= n <= outputs.len(),
        index_free(outputs, i),
    ensures
        index_free(outputs.take(n), i),
{
    let first = outputs.take(n);
    assert forall|m: int| 0 <= m < first.len() implies (#[trigger] first[m]).index != i by {
        assert(outputs[m].index != i);
    }
}

/// Every note that was recovered as sent at an index at which none was received is added.
proof fn lemma_sent_are_added<N>(
    outputs: Seq<WalletOutput<N, [u8; 32], [u8; 43]>>,
    results: Seq<Option<DecryptResult<N, [u8; 43]>>>,
)
    requires
        results.len() <= u32::MAX,
    ensures
        forall|i: int|
            0 <= i < results.len() && (#[trigger] results[i]) is Some && (results[i]->0).memo is Some
                && index_free(outputs, i) ==> exists|k: int|
                outputs.len() <= k < with_sent(outputs, results).len() && (#[trigger] with_sent(
                    outputs,
                    results,
                )[k]).index == i,
    decreases results.len(),
{
    if results.len() > 0 {
        let init = results.drop_last();
        let last = results.len() - 1;
        let before = with_sent(outputs, init);
        let after = with_sent(outputs, results);
        lemma_sent_are_added(outputs, init);
        lemma_added_are_sent(outputs, init);
        lemma_received_stay(outputs, init);
        lemma_one_more(outputs, results);
        assert forall|i: int|
            0 <= i < results.len() && (#[trigger] results[i]) is Some && (results[i]->0).memo is Some
                && index_free(outputs, i) implies exists|k: int|
            outputs.len() <= k < after.len() && (#[trigger] after[k]).index == i by {
            if i < last {
                assert(init[i] == results[i]);
                let k = choose|k: int|
                    outputs.len() <= k < before.len() && (#[trigger] before[k]).index == i;
                assert(after[k] == before[k]);
            } else {
                assert forall|m: int| 0 <= m < before.len() implies (#[trigger] before[m]).index
                    != last by {
                    if m < outputs.len() {
                        assert(before.take(outputs.len() as int)[m] == outputs[m]);
                        assert(outputs[m].index != i);
                    }
                }
                assert(index_free(before, last));
                assert(after[before.len() as int].index == i);
            }
        }
    }
}

/// A full transaction gives each Sapling note of its own the memo that decryption of the output at
/// the note's index reads, and adds the notes that the account sent in the other outputs.
pub proof fn law_full_transaction_completes_its_sapling_notes(
    wtx: WalletTxView,
    sapling_keys: Seq<SaplingScanningKey>,
    orchard_keys: Seq<OrchardScanningKey>,
    zip212: Zip212Enforcement,
    tx: (Seq<u8>, Network, u32),
)
    requires
        sapling_outputs_of(tx) matches Some(outputs) ==> outputs.len() <= u32::MAX,
    ensures
        ({
            let before = wtx.sapling_outputs;
            let after = enriched(wtx, sapling_keys, orchard_keys, zip212, tx).sapling_outputs;
            match sapling_outputs_of(tx) {
                None => after == before,
                Some(outputs) => {
                    &&& after.len() >= before.len()
                    &&& forall|k: int|
                        0 <= k < before.len() ==> {
                            let i = before[k].index as int;
                            let first = forall|m: int|
                                0 <= m < k ==> (#[trigger] before[m]).index != i;
                            let read = sapling_full_found(sapling_keys, zip212, outputs[i]);
                            #[trigger] after[k] == WalletOutput {
                                memo: if first && i < outputs.len() && read is Some && (
                                read->0).memo is Some {
                                    (read->0).memo
                                } else {
                                    before[k].memo
                                },
                                ..before[k]
                            }
                        }
                    &&& forall|k: int|
                        before.len() <= k < after.len() ==> {
                            let i = (#[trigger] after[k]).index as int;
                            &&& i < outputs.len()
                            &&& sapling_sent_found(sapling_keys, zip212, outputs[i]) matches Some(r) && is_sent_as(
                                after[k],
                                r,
                            )
                            &&& forall|m: int|
                                0 <= m < before.len() ==> (#[trigger] before[m]).index != i
                        }
                    &&& forall|k: int, m: int|
                        before.len() <= k < m < after.len() ==> (#[trigger] after[k]).index < (
                        #[trigger] after[m]).index
                    &&& forall|i: int|
                        0 <= i < outputs.len() && (sapling_sent_found(
                            sapling_keys,
                            zip212, #[trigger] outputs[i],
                        ) matches Some(r) && r.memo is Some) && (forall|m: int|
                            0 <= m < before.len() ==> (#[trigger] before[m]).index != i)
                            ==> exists|k: int|
                            before.len() <= k < after.len() && (#[trigger] after[k]).index == i
                },
            }
        }),
{
    if let Some(outputs) = sapling_outputs_of(tx) {
        let before = wtx.sapling_outputs;
        let read = outputs.map_values(|o: FullParts| sapling_full_found(sapling_keys, zip212, o));
        let sent = outputs.map_values(|o: FullParts| sapling_sent_found(sapling_keys, zip212, o));
        let filled = with_memos(before, read);
        let after = enriched(wtx, sapling_keys, orchard_keys, zip212, tx).sapling_outputs;
        assert(after == with_sent(filled, sent));
        law_each_note_gets_the_memo_of_its_index(before, read);
        law_each_note_sent_is_added_once(filled, sent);
        assert forall|k: int| 0 <= k < before.len() implies #[trigger] after[k] == filled[k] by {
            assert(after.take(filled.len() as int)[k] == after[k]);
        }
        assert forall|m: int| 0 <= m < before.len() implies (#[trigger] before[m]).index
            == filled[m].index by {}
        assert forall|i: int|
            0 <= i < outputs.len() && (sapling_sent_found(sapling_keys, zip212, #[trigger] outputs[i]) matches Some(r)
                && r.memo is Some) && (forall|m: int|
                0 <= m < before.len() ==> (#[trigger] before[m]).index != i) implies exists|k: int|
            before.len() <= k < after.len() && (#[trigger] after[k]).index == i by {
            assert(sent[i] is Some && (sent[i]->0).memo is Some);
            assert forall|m: int| 0 <= m < filled.len() implies (#[trigger] filled[m]).index != i by {
                assert(before[m].index != i);
            }
        }
        assert forall|k: int| before.len() <= k < after.len() implies {
            let i = (#[trigger] after[k]).index as int;
            forall|m: int| 0 <= m < before.len() ==> (#[trigger] before[m]).index != i
        } by {
            let i = after[k].index as int;
            assert forall|m: int| 0 <= m < before.len() implies (#[trigger] before[m]).index != i by {
                assert(filled[m].index != i);
            }
        }
    }
}

/// A full transaction gives each Orchard note of its own the memo that decryption of the action at
/// the note's index reads, and adds the notes that the account sent in the other actions.
pub proof fn law_full_transaction_completes_its_orchard_notes(
    wtx: WalletTxView,
    sapling_keys: Seq<SaplingScanningKey>,
    orchard_keys: Seq<OrchardScanningKey>,
    zip212: Zip212Enforcement,
    tx: (Seq<u8>, Network, u32),
)
    requires
        orchard_actions_of(tx) matches Some(actions) ==> actions.len() <= u32::MAX,
    ensures
        ({
            let before = wtx.orchard_outputs;
            let after = enriched(wtx, sapling_keys, orchard_keys, zip212, tx).orchard_outputs;
            match orchard_actions_of(tx) {
                None => after == before,
                Some(actions) => {
                    &&& after.len() >= before.len()
                    &&& forall|k: int|
                        0 <= k < before.len() ==> {
                            let i = before[k].index as int;
                            let first = forall|m: int|
                                0 <= m < k ==> (#[trigger] before[m]).index != i;
                            let read = orchard_full_found(orchard_keys, actions[i]);
                            #[trigger] after[k] == WalletOutput {
                                memo: if first && i < actions.len() && read is Some && (
                                read->0).memo is Some {
                                    (read->0).memo
                                } else {
                                    before[k].memo
                                },
                                ..before[k]
                            }
                        }
                    &&& forall|k: int|
                        before.len() <= k < after.len() ==> {
                            let i = (#[trigger] after[k]).index as int;
                            &&& i < actions.len()
                            &&& orchard_sent_found(orchard_keys, actions[i]) matches Some(r) && is_sent_as(
                                after[k],
                                r,
                            )
                            &&& forall|m: int|
                                0 <= m < before.len() ==> (#[trigger] before[m]).index != i
                        }
                    &&& forall|k: int, m: int|
                        before.len() <= k < m < after.len() ==> (#[trigger] after[k]).index < (
                        #[trigger] after[m]).index
                    &&& forall|i: int|
                        0 <= i < actions.len() && (orchard_sent_found(
                            orchard_keys,
                            #[trigger] actions[i],
                        ) matches Some(r) && r.memo is Some) && (forall|m: int|
                            0 <= m < before.len() ==> (#[trigger] before[m]).index != i)
                            ==> exists|k: int|
                            before.len() <= k < after.len() && (#[trigger] after[k]).index == i
                },
            }
        }),
{
    if let Some(actions) = orchard_actions_of(tx) {
        let before = wtx.orchard_outputs;
        let read = actions.map_values(|o: FullActionParts| orchard_full_found(orchard_keys, o));
        let sent = actions.map_values(|o: FullActionParts| orchard_sent_found(orchard_keys, o));
        let filled = with_memos(before, read);
        let after = enriched(wtx, sapling_keys, orchard_keys, zip212, tx).orchard_outputs;
        assert(after == with_sent(filled, sent));
        law_each_note_gets_the_memo_of_its_index(before, read);
        law_each_note_sent_is_added_once(filled, sent);
        assert forall|k: int| 0 <= k < before.len() implies #[trigger] after[k] == filled[k] by {
            assert(after.take(filled.len() as int)[k] == after[k]);
        }
        assert forall|m: int| 0 <= m < before.len() implies (#[trigger] before[m]).index
            == filled[m].index by {}
        assert forall|i: int|
            0 <= i < actions.len() && (orchard_sent_found(orchard_keys, #[trigger] actions[i]) matches Some(r)
                && r.memo is Some) && (forall|m: int|
                0 <= m < before.len() ==> (#[trigger] before[m]).index != i) implies exists|k: int|
            before.len() <= k < after.len() && (#[trigger] after[k]).index == i by {
            assert(sent[i] is Some && (sent[i]->0).memo is Some);
            assert forall|m: int| 0 <= m < filled.len() implies (#[trigger] filled[m]).index != i by {
                assert(before[m].index != i);
            }
        }
        assert forall|k: int| before.len() <= k < after.len() implies {
            let i = (#[trigger] after[k]).index as int;
            forall|m: int| 0 <= m < before.len() ==> (#[trigger] before[m]).index != i
        } by {
            let i = after[k].index as int;
            assert forall|m: int| 0 <= m < before.len() implies (#[trigger] before[m]).index != i by {
                assert(filled[m].index != i);
            }
        }
    }
}

/// A full transaction gives each Ironwood note of its own the memo that decryption of the action at
/// the note's index reads, and adds the notes that the account sent in the other actions.
pub proof fn law_full_transaction_completes_its_ironwood_notes(
    wtx: WalletTxView,
    sapling_keys: Seq<SaplingScanningKey>,
    orchard_keys: Seq<OrchardScanningKey>,
    zip212: Zip212Enforcement,
    tx: (Seq<u8>, Network, u32),
)
    requires
        ironwood_actions_of(tx) matches Some(actions) ==> actions.len() <= u32::MAX,
    ensures
        ({
            let before = wtx.ironwood_outputs;
            let after = enriched(wtx, sapling_keys, orchard_keys, zip212, tx).ironwood_outputs;
            match ironwood_actions_of(tx) {
                None => after == before,
                Some(actions) => {
                    &&& after.len() >= before.len()
                    &&& forall|k: int|
                        0 <= k < before.len() ==> {
                            let i = before[k].index as int;
                            let first = forall|m: int|
                                0 <= m < k ==> (#[trigger] before[m]).index != i;
                            let read = ironwood_full_found(orchard_keys, actions[i]);
                            #[trigger] after[k] == WalletOutput {
                                memo: if first && i < actions.len() && read is Some && (
                                read->0).memo is Some {
                                    (read->0).memo
                                } else {
                                    before[k].memo
                                },
                                ..before[k]
                            }
                        }
                    &&& forall|k: int|
                        before.len() <= k < after.len() ==> {
                            let i = (#[trigger] after[k]).index as int;
                            &&& i < actions.len()
                            &&& ironwood_sent_found(orchard_keys, actions[i]) matches Some(r) && is_sent_as(
                                after[k],
                                r,
                            )
                            &&& forall|m: int|
                                0 <= m < before.len() ==> (#[trigger] before[m]).index != i
                        }
                    &&& forall|k: int, m: int|
                        before.len() <= k < m < after.len() ==> (#[trigger] after[k]).index < (
                        #[trigger] after[m]).index
                    &&& forall|i: int|
                        0 <= i < actions.len() && (ironwood_sent_found(
                            orchard_keys,
                            #[trigger] actions[i],
                        ) matches Some(r) && r.memo is Some) && (forall|m: int|
                            0 <= m < before.len() ==> (#[trigger] before[m]).index != i)
                            ==> exists|k: int|
                            before.len() <= k < after.len() && (#[trigger] after[k]).index == i
                },
            }
        }),
{
    if let Some(actions) = ironwood_actions_of(tx) {
        let before = wtx.ironwood_outputs;
        let read = actions.map_values(|o: FullActionParts| ironwood_full_found(orchard_keys, o));
        let sent = actions.map_values(|o: FullActionParts| ironwood_sent_found(orchard_keys, o));
        let filled = with_memos(before, read);
        let after = enriched(wtx, sapling_keys, orchard_keys, zip212, tx).ironwood_outputs;
        assert(after == with_sent(filled, sent));
        law_each_note_gets_the_memo_of_its_index(before, read);
        law_each_note_sent_is_added_once(filled, sent);
        assert forall|k: int| 0 <= k < before.len() implies #[trigger] after[k] == filled[k] by {
            assert(after.take(filled.len() as int)[k] == after[k]);
        }
        assert forall|m: int| 0 <= m < before.len() implies (#[trigger] before[m]).index
            == filled[m].index by {}
        assert forall|i: int|
            0 <= i < actions.len() && (ironwood_sent_found(orchard_keys, #[trigger] actions[i]) matches Some(r)
                && r.memo is Some) && (forall|m: int|
                0 <= m < before.len() ==> (#[trigger] before[m]).index != i) implies exists|k: int|
            before.len() <= k < after.len() && (#[trigger] after[k]).index == i by {
            assert(sent[i] is Some && (sent[i]->0).memo is Some);
            assert forall|m: int| 0 <= m < filled.len() implies (#[trigger] filled[m]).index != i by {
                assert(before[m].index != i);
            }
        }
        assert forall|k: int| before.len() <= k < after.len() implies {
            let i = (#[trigger] after[k]).index as int;
            forall|m: int| 0 <= m < before.len() ==> (#[trigger] before[m]).index != i
        } by {
            let i = after[k].index as int;
            assert forall|m: int| 0 <= m < before.len() implies (#[trigger] before[m]).index != i by {
                assert(filled[m].index != i);
            }
        }
    }
}

/// A full transaction tells memos and notes sent, and nothing else: who the transaction is,
/// what it spends and its transparent side stay as they were.
pub proof fn law_full_transaction_changes_only_notes(
    wtx: WalletTxView,
    sapling_keys: Seq<SaplingScanningKey>,
    orchard_keys: Seq<OrchardScanningKey>,
    zip212: Zip212Enforcement,
    tx: (Seq<u8>, Network, u32),
)
    ensures
        ({
            let after = enriched(wtx, sapling_keys, orchard_keys, zip212, tx);
            &&& after.txid == wtx.txid
            &&& after.height == wtx.height
            &&& after.tx_index == wtx.tx_index
            &&& after.sapling_spends == wtx.sapling_spends
            &&& after.orchard_spends == wtx.orchard_spends
            &&& after.ironwood_spends == wtx.ironwood_spends
            &&& after.transparent_outputs == wtx.transparent_outputs
            &&& after.transparent_spends == wtx.transparent_spends
        }),
{
}

/// Whether the transaction at `k` is the first with its id.
pub open spec fn first_of_its_id(txs: Seq<WalletTxView>, k: int) -> bool {
    forall|m: int| 0 <= m < k ==> (#[trigger] txs[m]).txid != txs[k].txid
}

/// The position of an id is that of the first transaction with it.
proof fn lemma_first_tx(txs: Seq<WalletTxView>, txid: [u8; 32])
    ensures
        match tx_position(txs, txid) {
            Some(k) => 0 <= k < txs.len() && txs[k].txid == txid && forall|m: int|
                0 <= m < k ==> (#[trigger] txs[m]).txid != txid,
            None => forall|m: int| 0 <= m < txs.len() ==> (#[trigger] txs[m]).txid != txid,
        },
    decreases txs.len(),
{
    if txs.len() > 0 {
        let init = txs.drop_last();
        lemma_first_tx(init, txid);
        assert forall|m: int| 0 <= m < init.len() implies (#[trigger] txs[m]) == init[m] by {}
    }
}

/// Every full transaction reaches the scanned transaction with its id, by the rules of its own
/// height, and no other; a scanned transaction without a full one stays as it is.
pub proof fn law_every_full_transaction_reaches_its_own(
    txs: Seq<WalletTxView>,
    sapling_keys: Seq<SaplingScanningKey>,
    orchard_keys: Seq<OrchardScanningKey>,
    network: Network,
    full: Seq<FullEntry>,
)
    requires
        forall|i: int, j: int|
            0 <= i < j < full.len() ==> (#[trigger] full[i]).0 != (#[trigger] full[j]).0,
    ensures
        ({
            let after = enriched_by_all(txs, sapling_keys, orchard_keys, network, full);
            &&& after.len() >= txs.len()
            &&& forall|k: int| 0 <= k < txs.len() ==> (#[trigger] after[k]).txid == txs[k].txid
            &&& forall|k: int, i: int|
                0 <= k < txs.len() && 0 <= i < full.len() && first_of_its_id(txs, k)
                    && txs[k].txid == full[i].0 ==> #[trigger] after[k] == enriched(
                    txs[k],
                    sapling_keys,
                    orchard_keys,
                    zip212_at(network, full[i].1),
                    (#[trigger] full[i]).3,
                )
            &&& forall|k: int|
                0 <= k < txs.len() && (!first_of_its_id(txs, k) || forall|i: int|
                    0 <= i < full.len() ==> (#[trigger] full[i]).0 != txs[k].txid)
                    ==> #[trigger] after[k] == txs[k]
        }),
    decreases full.len(),
{
    let after = enriched_by_all(txs, sapling_keys, orchard_keys, network, full);
    if full.len() > 0 {
        let init = full.drop_last();
        let entry = full.last();
        assert forall|i: int, j: int| 0 <= i < j < init.len() implies (#[trigger] init[i]).0 != (
        #[trigger] init[j]).0 by {
            assert(full[i].0 != full[j].0);
        }
        law_every_full_transaction_reaches_its_own(txs, sapling_keys, orchard_keys, network, init);
        let before = enriched_by_all(txs, sapling_keys, orchard_keys, network, init);
        lemma_first_tx(before, entry.0);
        assert forall|k: int| 0 <= k < txs.len() implies (#[trigger] after[k]).txid == txs[k].txid by {
            assert(before[k].txid == txs[k].txid);
        }
        assert forall|k: int, i: int|
            0 <= k < txs.len() && 0 <= i < full.len() && first_of_its_id(txs, k) && txs[k].txid
                == full[i].0 implies #[trigger] after[k] == enriched(
            txs[k],
            sapling_keys,
            orchard_keys,
            zip212_at(network, full[i].1),
            (#[trigger] full[i]).3,
        ) by {
            assert(before[k].txid == txs[k].txid);
            if i == full.len() - 1 {
                assert forall|j: int| 0 <= j < init.len() implies (#[trigger] init[j]).0
                    != txs[k].txid by {
                    assert(full[j].0 != full[i].0);
                }
                assert(before[k] == txs[k]);
                assert forall|m: int| 0 <= m < k implies (#[trigger] before[m]).txid != entry.0 by {
                    assert(before[m].txid == txs[m].txid);
                }
                lemma_tx_position(before, entry.0, k);
            } else {
                assert(init[i] == full[i]);
                assert(full[i].0 != full[full.len() - 1].0);
                assert(after[k] == before[k]);
            }
        }
        assert forall|k: int|
            0 <= k < txs.len() && (!first_of_its_id(txs, k) || forall|i: int|
                0 <= i < full.len() ==> (#[trigger] full[i]).0 != txs[k].txid)
            implies #[trigger] after[k] == txs[k] by {
            assert(before[k].txid == txs[k].txid);
            if first_of_its_id(txs, k) {
                assert forall|j: int| 0 <= j < init.len() implies (#[trigger] init[j]).0
                    != txs[k].txid by {
                    assert(full[j].0 != txs[k].txid);
                }
                assert(full[full.len() - 1].0 != txs[k].txid);
            } else {
                let m = choose|m: int| 0 <= m < k && (#[trigger] txs[m]).txid == txs[k].txid;
                assert(before[m].txid == txs[m].txid);
                assert(tx_position(before, entry.0) != Some(k));
            }
            assert(before[k] == txs[k]);
        }
    }
}

/// A full transaction of an id that was not scanned, such as one that only sent notes, is added
/// under its own id, height and index.
pub proof fn law_full_transaction_of_a_new_id_is_added(
    txs: Seq<WalletTxView>,
    sapling_keys: Seq<SaplingScanningKey>,
    orchard_keys: Seq<OrchardScanningKey>,
    network: Network,
    full: FullEntry,
)
    requires
        forall|k: int| 0 <= k < txs.len() ==> (#[trigger] txs[k]).txid != full.0,
    ensures
        ({
            let after = enriched_by(txs, sapling_keys, orchard_keys, network, full);
            let fresh = WalletTxView {
                txid: full.0,
                height: full.1,
                tx_index: full.2,
                sapling_outputs: Seq::empty(),
                sapling_spends: Seq::empty(),
                orchard_outputs: Seq::empty(),
                orchard_spends: Seq::empty(),
                ironwood_outputs: Seq::empty(),
                ironwood_spends: Seq::empty(),
                transparent_outputs: Seq::empty(),
                transparent_spends: Seq::empty(),
            };
            after == txs.push(
                enriched(fresh, sapling_keys, orchard_keys, zip212_at(network, full.1), full.3),
            )
        }),
{
    lemma_first_tx(txs, full.0);
}

/// Full transactions are read in turn, each reaching the first transaction with its id, by the
/// rules of its own height, and leaving every other as it is.
pub proof fn law_full_transactions_are_read_in_turn(
    txs: Seq<WalletTxView>,
    sapling_keys: Seq<SaplingScanningKey>,
    orchard_keys: Seq<OrchardScanningKey>,
    network: Network,
    full: Seq<FullEntry>,
    entry: FullEntry,
    k: int,
)
    ensures
        enriched_by_all(txs, sapling_keys, orchard_keys, network, Seq::<FullEntry>::empty()) == txs,
        enriched_by_all(txs, sapling_keys, orchard_keys, network, full.push(entry)) == enriched_by(
            enriched_by_all(txs, sapling_keys, orchard_keys, network, full),
            sapling_keys,
            orchard_keys,
            network,
            entry,
        ),
        0 <= k < txs.len() && txs[k].txid == entry.0 && first_of_its_id(txs, k) ==> enriched_by(
            txs,
            sapling_keys,
            orchard_keys,
            network,
            entry,
        ) == txs.update(
            k,
            enriched(txs[k], sapling_keys, orchard_keys, zip212_at(network, entry.1), entry.3),
        ),
{
    assert(full.push(entry).drop_last() =~= full);
    if 0 <= k < txs.len() && txs[k].txid == entry.0 && first_of_its_id(txs, k) {
        assert forall|m: int| 0 <= m < k implies (#[trigger] txs[m]).txid != entry.0 by {}
        lemma_tx_position(txs, entry.0, k);
    }
}

} // verus!
