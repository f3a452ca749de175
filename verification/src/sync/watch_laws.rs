//! Laws of what a batch brings in, spends and leaves to be watched, and of the transparent side
//! of full transactions.

use vstd::prelude::*;

use crate::primitives::OutPoint;
use crate::proto::CompactBlock;
use crate::seqs::{
    collect_some, lemma_collect_from, lemma_collect_has, lemma_collect_indexed,
    lemma_collect_picks, lemma_joined_contains, picks,
};
use crate::sync::decrypt::ScanningKeys;
use crate::sync::memo_laws::first_of_its_id;
use crate::sync::scan::{
    lemma_tx_position, tx_position, watch_of, FullEntry, Nullifiers, OrchardSpend, SaplingSpend,
    TransparentOutputView, TransparentSpend, WalletOutput, WalletTxView, Watch,
};
use crate::sync::transparent_scan::{
    drawn, drawn_by, drawn_by_all, due_with, full_output_at, full_outputs, full_spend_at,
    full_spends, is_due, outpoints_gone, paid, paid_by, paid_by_all, points_without, with_outputs,
    with_spends, with_transparent,
};
use crate::sync::watch::{
    extended, ironwood_born, ironwood_gone, nullifiers_in, orchard_born, orchard_gone,
    outpoints_born, sapling_born, sapling_gone, without,
};
use crate::sync::{fetch_list_of, refreshed};
use crate::upstream::transactions::{transparent_inputs_of, transparent_outputs_of};

verus! {

/// The nullifiers of some notes are those that the notes have.
proof fn lemma_nullifiers_in<N>(outputs: Seq<WalletOutput<N, [u8; 32], [u8; 43]>>, nf: [u8; 32])
    ensures
        nullifiers_in(outputs).contains(nf) <==> exists|m: int|
            0 <= m < outputs.len() && (#[trigger] outputs[m]).nf == Some(nf),
{
    let all = outputs.map_values(|o: WalletOutput<N, [u8; 32], [u8; 43]>| o.nf);
    if exists|m: int| 0 <= m < outputs.len() && (#[trigger] outputs[m]).nf == Some(nf) {
        let m = choose|m: int| 0 <= m < outputs.len() && (#[trigger] outputs[m]).nf == Some(nf);
        assert(all[m] == Some(nf));
        lemma_collect_has(all, m);
    }
    if nullifiers_in(outputs).contains(nf) {
        let k = choose|k: int| 0 <= k < collect_some(all).len() && collect_some(all)[k] == nf;
        lemma_collect_from(all, k);
        let j = choose|j: int| 0 <= j < all.len() && #[trigger] all[j] == Some(collect_some(all)[k]);
        assert(outputs[j].nf == Some(nf));
    }
}

/// Transactions bring in exactly the nullifiers of their Sapling notes, and spend exactly those
/// of their Sapling spends.
pub proof fn law_sapling_notes_come_and_go(txs: Seq<WalletTxView>, nf: [u8; 32])
    ensures
        sapling_born(txs).contains(nf) <==> exists|k: int, m: int|
            #![trigger txs[k].sapling_outputs[m]]
            0 <= k < txs.len() && 0 <= m < txs[k].sapling_outputs.len() && txs[k].sapling_outputs[m].nf
                == Some(nf),
        sapling_gone(txs).contains(nf) <==> exists|k: int, m: int|
            #![trigger txs[k].sapling_spends[m]]
            0 <= k < txs.len() && 0 <= m < txs[k].sapling_spends.len() && txs[k].sapling_spends[m].nf == nf,
    decreases txs.len(),
{
    if txs.len() > 0 {
        let init = txs.drop_last();
        let last = txs.len() - 1;
        let born = nullifiers_in(txs[last].sapling_outputs);
        let gone = txs[last].sapling_spends.map_values(|s: SaplingSpend| s.nf);
        law_sapling_notes_come_and_go(init, nf);
        lemma_joined_contains(sapling_born(init), born, nf);
        lemma_joined_contains(sapling_gone(init), gone, nf);
        lemma_nullifiers_in(txs[last].sapling_outputs, nf);
        assert forall|k: int| 0 <= k < init.len() implies (#[trigger] txs[k]) == init[k] by {}
        if sapling_born(init).contains(nf) {
            let (k, m) = choose|k: int, m: int|
                #![trigger init[k].sapling_outputs[m]]
                0 <= k < init.len() && 0 <= m < init[k].sapling_outputs.len()
                    && init[k].sapling_outputs[m].nf == Some(nf);
            assert(txs[k].sapling_outputs[m].nf == Some(nf));
        }
        if exists|k: int, m: int|
            #![trigger txs[k].sapling_outputs[m]]
            0 <= k < txs.len() && 0 <= m < txs[k].sapling_outputs.len() && txs[k].sapling_outputs[m].nf
                == Some(nf) {
            let (k, m) = choose|k: int, m: int|
                #![trigger txs[k].sapling_outputs[m]]
                0 <= k < txs.len() && 0 <= m < txs[k].sapling_outputs.len()
                    && txs[k].sapling_outputs[m].nf == Some(nf);
            if k < last {
                assert(init[k].sapling_outputs[m].nf == Some(nf));
            } else {
                assert(txs[last].sapling_outputs[m].nf == Some(nf));
            }
        }
        if gone.contains(nf) {
            let m = choose|m: int| 0 <= m < gone.len() && gone[m] == nf;
            assert(txs[last].sapling_spends[m].nf == nf);
        }
        if sapling_gone(init).contains(nf) {
            let (k, m) = choose|k: int, m: int|
                #![trigger init[k].sapling_spends[m]]
                0 <= k < init.len() && 0 <= m < init[k].sapling_spends.len()
                    && init[k].sapling_spends[m].nf == nf;
            assert(txs[k].sapling_spends[m].nf == nf);
        }
        if exists|k: int, m: int|
            #![trigger txs[k].sapling_spends[m]]
            0 <= k < txs.len() && 0 <= m < txs[k].sapling_spends.len() && txs[k].sapling_spends[m].nf == nf {
            let (k, m) = choose|k: int, m: int|
                #![trigger txs[k].sapling_spends[m]]
                0 <= k < txs.len() && 0 <= m < txs[k].sapling_spends.len()
                    && txs[k].sapling_spends[m].nf == nf;
            if k < last {
                assert(init[k].sapling_spends[m].nf == nf);
            } else {
                assert(gone[m] == nf);
            }
        }
    }
}

/// After a batch a Sapling nullifier is watched exactly where it was watched before or is that of
/// a note that the batch brings in, and the batch does not spend it.
pub proof fn law_sapling_notes_are_watched_until_spent(
    sapling: Seq<[u8; 32]>,
    orchard: Seq<[u8; 32]>,
    ironwood: Seq<[u8; 32]>,
    txs: Seq<WalletTxView>,
    nf: [u8; 32],
)
    ensures
        refreshed(sapling, orchard, ironwood, txs).0.contains(nf) <==> {
            &&& sapling.contains(nf) || exists|k: int, m: int|
                #![trigger txs[k].sapling_outputs[m]]
                0 <= k < txs.len() && 0 <= m < txs[k].sapling_outputs.len()
                    && txs[k].sapling_outputs[m].nf == Some(nf)
            &&& !exists|k: int, m: int|
                #![trigger txs[k].sapling_spends[m]]
                0 <= k < txs.len() && 0 <= m < txs[k].sapling_spends.len() && txs[k].sapling_spends[m].nf
                    == nf
        },
{
    law_sapling_notes_come_and_go(txs, nf);
    crate::sync::batch_laws::law_watched_after_a_batch(
        sapling,
        sapling_born(txs),
        sapling_gone(txs),
        nf,
    );
}

/// Transactions bring in exactly the nullifiers of their Orchard notes, and spend exactly those
/// of their Orchard spends.
pub proof fn law_orchard_notes_come_and_go(txs: Seq<WalletTxView>, nf: [u8; 32])
    ensures
        orchard_born(txs).contains(nf) <==> exists|k: int, m: int|
            #![trigger txs[k].orchard_outputs[m]]
            0 <= k < txs.len() && 0 <= m < txs[k].orchard_outputs.len() && txs[k].orchard_outputs[m].nf
                == Some(nf),
        orchard_gone(txs).contains(nf) <==> exists|k: int, m: int|
            #![trigger txs[k].orchard_spends[m]]
            0 <= k < txs.len() && 0 <= m < txs[k].orchard_spends.len() && txs[k].orchard_spends[m].nf == nf,
    decreases txs.len(),
{
    if txs.len() > 0 {
        let init = txs.drop_last();
        let last = txs.len() - 1;
        let born = nullifiers_in(txs[last].orchard_outputs);
        let gone = txs[last].orchard_spends.map_values(|s: OrchardSpend| s.nf);
        law_orchard_notes_come_and_go(init, nf);
        lemma_joined_contains(orchard_born(init), born, nf);
        lemma_joined_contains(orchard_gone(init), gone, nf);
        lemma_nullifiers_in(txs[last].orchard_outputs, nf);
        assert forall|k: int| 0 <= k < init.len() implies (#[trigger] txs[k]) == init[k] by {}
        if orchard_born(init).contains(nf) {
            let (k, m) = choose|k: int, m: int|
                #![trigger init[k].orchard_outputs[m]]
                0 <= k < init.len() && 0 <= m < init[k].orchard_outputs.len()
                    && init[k].orchard_outputs[m].nf == Some(nf);
            assert(txs[k].orchard_outputs[m].nf == Some(nf));
        }
        if exists|k: int, m: int|
            #![trigger txs[k].orchard_outputs[m]]
            0 <= k < txs.len() && 0 <= m < txs[k].orchard_outputs.len() && txs[k].orchard_outputs[m].nf
                == Some(nf) {
            let (k, m) = choose|k: int, m: int|
                #![trigger txs[k].orchard_outputs[m]]
                0 <= k < txs.len() && 0 <= m < txs[k].orchard_outputs.len()
                    && txs[k].orchard_outputs[m].nf == Some(nf);
            if k < last {
                assert(init[k].orchard_outputs[m].nf == Some(nf));
            } else {
                assert(txs[last].orchard_outputs[m].nf == Some(nf));
            }
        }
        if gone.contains(nf) {
            let m = choose|m: int| 0 <= m < gone.len() && gone[m] == nf;
            assert(txs[last].orchard_spends[m].nf == nf);
        }
        if orchard_gone(init).contains(nf) {
            let (k, m) = choose|k: int, m: int|
                #![trigger init[k].orchard_spends[m]]
                0 <= k < init.len() && 0 <= m < init[k].orchard_spends.len()
                    && init[k].orchard_spends[m].nf == nf;
            assert(txs[k].orchard_spends[m].nf == nf);
        }
        if exists|k: int, m: int|
            #![trigger txs[k].orchard_spends[m]]
            0 <= k < txs.len() && 0 <= m < txs[k].orchard_spends.len() && txs[k].orchard_spends[m].nf == nf {
            let (k, m) = choose|k: int, m: int|
                #![trigger txs[k].orchard_spends[m]]
                0 <= k < txs.len() && 0 <= m < txs[k].orchard_spends.len()
                    && txs[k].orchard_spends[m].nf == nf;
            if k < last {
                assert(init[k].orchard_spends[m].nf == nf);
            } else {
                assert(gone[m] == nf);
            }
        }
    }
}

/// After a batch a Orchard nullifier is watched exactly where it was watched before or is that of
/// a note that the batch brings in, and the batch does not spend it.
pub proof fn law_orchard_notes_are_watched_until_spent(
    sapling: Seq<[u8; 32]>,
    orchard: Seq<[u8; 32]>,
    ironwood: Seq<[u8; 32]>,
    txs: Seq<WalletTxView>,
    nf: [u8; 32],
)
    ensures
        refreshed(sapling, orchard, ironwood, txs).1.contains(nf) <==> {
            &&& orchard.contains(nf) || exists|k: int, m: int|
                #![trigger txs[k].orchard_outputs[m]]
                0 <= k < txs.len() && 0 <= m < txs[k].orchard_outputs.len()
                    && txs[k].orchard_outputs[m].nf == Some(nf)
            &&& !exists|k: int, m: int|
                #![trigger txs[k].orchard_spends[m]]
                0 <= k < txs.len() && 0 <= m < txs[k].orchard_spends.len() && txs[k].orchard_spends[m].nf
                    == nf
        },
{
    law_orchard_notes_come_and_go(txs, nf);
    crate::sync::batch_laws::law_watched_after_a_batch(
        orchard,
        orchard_born(txs),
        orchard_gone(txs),
        nf,
    );
}

/// Transactions bring in exactly the nullifiers of their Ironwood notes, and spend exactly those
/// of their Ironwood spends.
pub proof fn law_ironwood_notes_come_and_go(txs: Seq<WalletTxView>, nf: [u8; 32])
    ensures
        ironwood_born(txs).contains(nf) <==> exists|k: int, m: int|
            #![trigger txs[k].ironwood_outputs[m]]
            0 <= k < txs.len() && 0 <= m < txs[k].ironwood_outputs.len() && txs[k].ironwood_outputs[m].nf
                == Some(nf),
        ironwood_gone(txs).contains(nf) <==> exists|k: int, m: int|
            #![trigger txs[k].ironwood_spends[m]]
            0 <= k < txs.len() && 0 <= m < txs[k].ironwood_spends.len() && txs[k].ironwood_spends[m].nf == nf,
    decreases txs.len(),
{
    if txs.len() > 0 {
        let init = txs.drop_last();
        let last = txs.len() - 1;
        let born = nullifiers_in(txs[last].ironwood_outputs);
        let gone = txs[last].ironwood_spends.map_values(|s: OrchardSpend| s.nf);
        law_ironwood_notes_come_and_go(init, nf);
        lemma_joined_contains(ironwood_born(init), born, nf);
        lemma_joined_contains(ironwood_gone(init), gone, nf);
        lemma_nullifiers_in(txs[last].ironwood_outputs, nf);
        assert forall|k: int| 0 <= k < init.len() implies (#[trigger] txs[k]) == init[k] by {}
        if ironwood_born(init).contains(nf) {
            let (k, m) = choose|k: int, m: int|
                #![trigger init[k].ironwood_outputs[m]]
                0 <= k < init.len() && 0 <= m < init[k].ironwood_outputs.len()
                    && init[k].ironwood_outputs[m].nf == Some(nf);
            assert(txs[k].ironwood_outputs[m].nf == Some(nf));
        }
        if exists|k: int, m: int|
            #![trigger txs[k].ironwood_outputs[m]]
            0 <= k < txs.len() && 0 <= m < txs[k].ironwood_outputs.len() && txs[k].ironwood_outputs[m].nf
                == Some(nf) {
            let (k, m) = choose|k: int, m: int|
                #![trigger txs[k].ironwood_outputs[m]]
                0 <= k < txs.len() && 0 <= m < txs[k].ironwood_outputs.len()
                    && txs[k].ironwood_outputs[m].nf == Some(nf);
            if k < last {
                assert(init[k].ironwood_outputs[m].nf == Some(nf));
            } else {
                assert(txs[last].ironwood_outputs[m].nf == Some(nf));
            }
        }
        if gone.contains(nf) {
            let m = choose|m: int| 0 <= m < gone.len() && gone[m] == nf;
            assert(txs[last].ironwood_spends[m].nf == nf);
        }
        if ironwood_gone(init).contains(nf) {
            let (k, m) = choose|k: int, m: int|
                #![trigger init[k].ironwood_spends[m]]
                0 <= k < init.len() && 0 <= m < init[k].ironwood_spends.len()
                    && init[k].ironwood_spends[m].nf == nf;
            assert(txs[k].ironwood_spends[m].nf == nf);
        }
        if exists|k: int, m: int|
            #![trigger txs[k].ironwood_spends[m]]
            0 <= k < txs.len() && 0 <= m < txs[k].ironwood_spends.len() && txs[k].ironwood_spends[m].nf == nf {
            let (k, m) = choose|k: int, m: int|
                #![trigger txs[k].ironwood_spends[m]]
                0 <= k < txs.len() && 0 <= m < txs[k].ironwood_spends.len()
                    && txs[k].ironwood_spends[m].nf == nf;
            if k < last {
                assert(init[k].ironwood_spends[m].nf == nf);
            } else {
                assert(gone[m] == nf);
            }
        }
    }
}

/// After a batch a Ironwood nullifier is watched exactly where it was watched before or is that of
/// a note that the batch brings in, and the batch does not spend it.
pub proof fn law_ironwood_notes_are_watched_until_spent(
    sapling: Seq<[u8; 32]>,
    orchard: Seq<[u8; 32]>,
    ironwood: Seq<[u8; 32]>,
    txs: Seq<WalletTxView>,
    nf: [u8; 32],
)
    ensures
        refreshed(sapling, orchard, ironwood, txs).2.contains(nf) <==> {
            &&& ironwood.contains(nf) || exists|k: int, m: int|
                #![trigger txs[k].ironwood_outputs[m]]
                0 <= k < txs.len() && 0 <= m < txs[k].ironwood_outputs.len()
                    && txs[k].ironwood_outputs[m].nf == Some(nf)
            &&& !exists|k: int, m: int|
                #![trigger txs[k].ironwood_spends[m]]
                0 <= k < txs.len() && 0 <= m < txs[k].ironwood_spends.len() && txs[k].ironwood_spends[m].nf
                    == nf
        },
{
    law_ironwood_notes_come_and_go(txs, nf);
    crate::sync::batch_laws::law_watched_after_a_batch(
        ironwood,
        ironwood_born(txs),
        ironwood_gone(txs),
        nf,
    );
}

/// Transactions bring in exactly their transparent outputs, and spend exactly those of their
/// transparent spends.
pub proof fn law_transparent_outputs_come_and_go(txs: Seq<WalletTxView>, o: OutPoint)
    ensures
        outpoints_born(txs).contains(o) <==> exists|k: int, m: int|
            #![trigger txs[k].transparent_outputs[m]]
            0 <= k < txs.len() && 0 <= m < txs[k].transparent_outputs.len()
                && txs[k].transparent_outputs[m].outpoint == o,
        outpoints_gone(txs).contains(o) <==> exists|k: int, m: int|
            #![trigger txs[k].transparent_spends[m]]
            0 <= k < txs.len() && 0 <= m < txs[k].transparent_spends.len()
                && txs[k].transparent_spends[m].outpoint == o,
    decreases txs.len(),
{
    if txs.len() > 0 {
        let init = txs.drop_last();
        let last = txs.len() - 1;
        let born = txs[last].transparent_outputs.map_values(|o: TransparentOutputView| o.outpoint);
        let gone = txs[last].transparent_spends.map_values(|s: TransparentSpend| s.outpoint);
        law_transparent_outputs_come_and_go(init, o);
        lemma_joined_contains(outpoints_born(init), born, o);
        lemma_joined_contains(outpoints_gone(init), gone, o);
        assert forall|k: int| 0 <= k < init.len() implies (#[trigger] txs[k]) == init[k] by {}
        if born.contains(o) {
            let m = choose|m: int| 0 <= m < born.len() && born[m] == o;
            assert(txs[last].transparent_outputs[m].outpoint == o);
        }
        if outpoints_born(init).contains(o) {
            let (k, m) = choose|k: int, m: int|
                #![trigger init[k].transparent_outputs[m]]
                0 <= k < init.len() && 0 <= m < init[k].transparent_outputs.len() && init[k].transparent_outputs[m].outpoint == o;
            assert(txs[k].transparent_outputs[m].outpoint == o);
        }
        if exists|k: int, m: int|
            #![trigger txs[k].transparent_outputs[m]]
            0 <= k < txs.len() && 0 <= m < txs[k].transparent_outputs.len() && txs[k].transparent_outputs[m].outpoint == o {
            let (k, m) = choose|k: int, m: int|
                #![trigger txs[k].transparent_outputs[m]]
                0 <= k < txs.len() && 0 <= m < txs[k].transparent_outputs.len() && txs[k].transparent_outputs[m].outpoint == o;
            if k < last {
                assert(init[k].transparent_outputs[m].outpoint == o);
            } else {
                assert(born[m] == o);
            }
        }
        if gone.contains(o) {
            let m = choose|m: int| 0 <= m < gone.len() && gone[m] == o;
            assert(txs[last].transparent_spends[m].outpoint == o);
        }
        if outpoints_gone(init).contains(o) {
            let (k, m) = choose|k: int, m: int|
                #![trigger init[k].transparent_spends[m]]
                0 <= k < init.len() && 0 <= m < init[k].transparent_spends.len() && init[k].transparent_spends[m].outpoint == o;
            assert(txs[k].transparent_spends[m].outpoint == o);
        }
        if exists|k: int, m: int|
            #![trigger txs[k].transparent_spends[m]]
            0 <= k < txs.len() && 0 <= m < txs[k].transparent_spends.len() && txs[k].transparent_spends[m].outpoint == o {
            let (k, m) = choose|k: int, m: int|
                #![trigger txs[k].transparent_spends[m]]
                0 <= k < txs.len() && 0 <= m < txs[k].transparent_spends.len() && txs[k].transparent_spends[m].outpoint == o;
            if k < last {
                assert(init[k].transparent_spends[m].outpoint == o);
            } else {
                assert(gone[m] == o);
            }
        }
    }
}

/// Taking outputs out of a list leaves exactly the others.
pub proof fn law_spent_outputs_are_taken_out(list: Seq<OutPoint>, gone: Seq<OutPoint>, o: OutPoint)
    ensures
        points_without(list, gone).contains(o) == (list.contains(o) && !gone.contains(o)),
{
    let all = list.map_values(
        |o: OutPoint|
            if gone.contains(o) {
                None
            } else {
                Some(o)
            },
    );
    if list.contains(o) && !gone.contains(o) {
        let i = choose|i: int| 0 <= i < list.len() && list[i] == o;
        assert(all[i] == Some(o));
        lemma_collect_has(all, i);
    }
    if points_without(list, gone).contains(o) {
        let k = choose|k: int| 0 <= k < collect_some(all).len() && collect_some(all)[k] == o;
        lemma_collect_from(all, k);
        let j = choose|j: int| 0 <= j < all.len() && #[trigger] all[j] == Some(collect_some(all)[k]);
        assert(list[j] == o);
    }
}

/// A batch is scanned with the account's own keys and scripts, and with the nullifiers and
/// outputs that were watched before and those that the batch itself brings in, each in its
/// pool.
pub proof fn law_batch_is_scanned_for_its_own_notes(
    watch: Watch,
    txs: Seq<WalletTxView>,
    nf: [u8; 32],
    o: OutPoint,
)
    ensures
        ({
            let wider = extended(watch, txs);
            &&& wider.sapling_keys == watch.sapling_keys
            &&& wider.orchard_keys == watch.orchard_keys
            &&& wider.scripts == watch.scripts
            &&& wider.sapling_nfs.contains(nf) == (watch.sapling_nfs.contains(nf) || sapling_born(
                txs,
            ).contains(nf))
            &&& wider.orchard_nfs.contains(nf) == (watch.orchard_nfs.contains(nf) || orchard_born(
                txs,
            ).contains(nf))
            &&& wider.ironwood_nfs.contains(nf) == (watch.ironwood_nfs.contains(nf)
                || ironwood_born(txs).contains(nf))
            &&& wider.outpoints.contains(o) == (watch.outpoints.contains(o) || outpoints_born(
                txs,
            ).contains(o))
        }),
{
    lemma_joined_contains(watch.sapling_nfs, sapling_born(txs), nf);
    lemma_joined_contains(watch.orchard_nfs, orchard_born(txs), nf);
    lemma_joined_contains(watch.ironwood_nfs, ironwood_born(txs), nf);
    lemma_joined_contains(watch.outpoints, outpoints_born(txs), o);
}

/// The account is watched with every key, each nullifier in its own pool.
pub proof fn law_watch_holds_every_key(
    keys: ScanningKeys,
    scripts: Option<Seq<Seq<u8>>>,
    nullifiers: Nullifiers,
    outpoints: Seq<OutPoint>,
)
    ensures
        ({
            let watch = watch_of(keys, scripts, nullifiers, outpoints);
            &&& watch.sapling_keys == keys.sapling@
            &&& watch.orchard_keys == keys.orchard@
            &&& watch.scripts == scripts
            &&& watch.sapling_nfs == nullifiers.sapling@
            &&& watch.orchard_nfs == nullifiers.orchard@
            &&& watch.ironwood_nfs == nullifiers.ironwood@
            &&& watch.outpoints == outpoints
        }),
{
}

/// The full form of every transaction found is fetched, in order, under its own id, height and
/// index.
pub proof fn law_every_found_transaction_is_fetched(txs: Seq<WalletTxView>)
    ensures
        fetch_list_of(txs).len() == txs.len(),
        forall|k: int|
            0 <= k < txs.len() ==> #[trigger] fetch_list_of(txs)[k] == (
                txs[k].txid,
                txs[k].height,
                txs[k].tx_index,
            ),
{
}

/// Exactly those targets are fetched with a batch that lie between the heights of its first
/// and its last block and were not found in it, in order: `at` holds which.
pub proof fn law_due_targets_are_fetched(
    targets: Seq<([u8; 32], u32)>,
    blocks: Seq<CompactBlock>,
    txs: Seq<WalletTxView>,
) -> (at: Seq<int>)
    ensures
        ({
            let got = due_with(targets, blocks, txs);
            let due = |i: int|
                blocks.len() > 0 && blocks[0].height <= targets[i].1 <= blocks.last().height
                    && forall|k: int| 0 <= k < txs.len() ==> (#[trigger] txs[k]).txid != targets[i].0;
            &&& at.len() == got.len()
            &&& forall|k: int|
                0 <= k < at.len() ==> 0 <= #[trigger] at[k] < targets.len() && due(at[k]) && got[k] == (
                    targets[at[k]].0,
                    targets[at[k]].1,
                    0u32,
                )
            &&& forall|k: int, m: int| 0 <= k < m < at.len() ==> #[trigger] at[k] < #[trigger] at[m]
            &&& forall|i: int| 0 <= i < targets.len() && #[trigger] due(i) ==> at.contains(i)
        }),
{
    let all = targets.map_values(
        |t: ([u8; 32], u32)|
            if is_due(t, blocks, txs) {
                Some((t.0, t.1, 0u32))
            } else {
                None
            },
    );
    let due = |i: int|
        blocks.len() > 0 && blocks[0].height <= targets[i].1 <= blocks.last().height && forall|k: int|
            0 <= k < txs.len() ==> (#[trigger] txs[k]).txid != targets[i].0;
    assert(due_with(targets, blocks, txs) == collect_some(all));
    lemma_collect_picks(all);
    let at = choose|at: Seq<int>| #[trigger] picks(collect_some(all), all, at);
    assert forall|i: int| 0 <= i < targets.len() implies (#[trigger] due(i)) == all[i] is Some by {
        lemma_absent(txs, targets[i].0);
    }
    assert forall|k: int| 0 <= k < at.len() implies 0 <= #[trigger] at[k] < targets.len() && due(at[k])
        by {
        assert(all[at[k]] is Some);
        assert(due(at[k]) == all[at[k]] is Some);
    }
    at
}

/// An id has no position exactly where no transaction has it.
proof fn lemma_absent(txs: Seq<WalletTxView>, txid: [u8; 32])
    ensures
        tx_position(txs, txid) is None <==> forall|k: int|
            0 <= k < txs.len() ==> (#[trigger] txs[k]).txid != txid,
        tx_position(txs, txid) matches Some(k) ==> 0 <= k < txs.len() && txs[k].txid == txid
            && first_of_its_id(txs, k),
    decreases txs.len(),
{
    if txs.len() > 0 {
        let init = txs.drop_last();
        lemma_absent(init, txid);
        assert forall|k: int| 0 <= k < init.len() implies (#[trigger] txs[k]) == init[k] by {}
        if tx_position(init, txid) is None {
            assert forall|k: int| 0 <= k < init.len() implies (#[trigger] txs[k]).txid != txid by {
                assert(init[k].txid != txid);
            }
        } else {
            let k = tx_position(init, txid)->0;
            assert(txs[k].txid == txid);
            assert forall|m: int| 0 <= m < k implies (#[trigger] txs[m]).txid != txs[k].txid by {
                assert(init[m].txid != init[k].txid);
            }
        }
    }
}

/// A full transaction pays the account exactly with those outputs that pay one of its scripts,
/// in order, each with its own value, script and index.
pub proof fn law_full_outputs_are_those_to_our_scripts(
    scripts: Seq<Seq<u8>>,
    entry: FullEntry,
    vout: Seq<(u64, Seq<u8>)>,
)
    requires
        transparent_outputs_of(entry.3) == Some(vout),
        vout.len() <= u32::MAX,
    ensures
        ({
            let got = full_outputs(scripts, entry);
            &&& forall|k: int|
                0 <= k < got.len() ==> {
                    let i = (#[trigger] got[k]).outpoint.n as int;
                    &&& i < vout.len()
                    &&& scripts.contains(vout[i].1)
                    &&& got[k].outpoint.hash == entry.0
                    &&& got[k].value == vout[i].0
                    &&& got[k].script == vout[i].1
                    &&& got[k].height == entry.1
                }
            &&& forall|k: int, m: int|
                0 <= k < m < got.len() ==> (#[trigger] got[k]).outpoint.n < (
                #[trigger] got[m]).outpoint.n
            &&& forall|i: int|
                0 <= i < vout.len() && scripts.contains((#[trigger] vout[i]).1) ==> exists|k: int|
                    0 <= k < got.len() && (#[trigger] got[k]).outpoint.n == i
        }),
{
    let all = Seq::new(vout.len(), |i: int| full_output_at(scripts, entry, vout, i));
    let index = |o: TransparentOutputView| o.outpoint.n as int;
    let got = full_outputs(scripts, entry);
    assert(got == collect_some(all));
    lemma_collect_indexed(all, index);
    assert forall|k: int| 0 <= k < got.len() implies {
        let i = (#[trigger] got[k]).outpoint.n as int;
        i < vout.len() && all[i] == Some(got[k])
    } by {
        assert(index(got[k]) == got[k].outpoint.n);
    }
    assert forall|k: int, m: int| 0 <= k < m < got.len() implies (#[trigger] got[k]).outpoint.n < (
    #[trigger] got[m]).outpoint.n by {
        assert(index(got[k]) < index(got[m]));
    }
    assert forall|i: int| 0 <= i < vout.len() && scripts.contains((#[trigger] vout[i]).1) implies exists|
        k: int,
    | 0 <= k < got.len() && (#[trigger] got[k]).outpoint.n == i by {
        assert(all[i] is Some);
        let k = choose|k: int| 0 <= k < got.len() && got[k] == all[i]->0;
        assert(got[k].outpoint.n == i);
    }
}

/// A full transaction spends exactly those of the account's transparent outputs that its
/// inputs name, in order: `at` holds the inputs that do.
pub proof fn law_full_spends_are_those_of_our_outputs(
    outpoints: Seq<OutPoint>,
    entry: FullEntry,
    vin: Seq<OutPoint>,
) -> (at: Seq<int>)
    requires
        transparent_inputs_of(entry.3) == Some(vin),
    ensures
        ({
            let got = full_spends(outpoints, entry);
            &&& at.len() == got.len()
            &&& forall|k: int|
                0 <= k < at.len() ==> 0 <= #[trigger] at[k] < vin.len() && outpoints.contains(
                    vin[at[k]],
                ) && got[k] == (TransparentSpend {
                    txid: entry.0,
                    outpoint: vin[at[k]],
                    height: entry.1,
                })
            &&& forall|k: int, m: int| 0 <= k < m < at.len() ==> #[trigger] at[k] < #[trigger] at[m]
            &&& forall|i: int|
                0 <= i < vin.len() && outpoints.contains(#[trigger] vin[i]) ==> at.contains(i)
        }),
{
    let all = vin.map_values(|o: OutPoint| full_spend_at(outpoints, entry, o));
    lemma_collect_picks(all);
    let at = choose|at: Seq<int>| #[trigger] picks(collect_some(all), all, at);
    assert forall|i: int| 0 <= i < vin.len() && outpoints.contains(#[trigger] vin[i]) implies at.contains(
        i,
    ) by {
        assert(all[i] is Some);
    }
    at
}

/// A full transaction without a transparent part neither pays the account nor spends from it.
pub proof fn law_no_transparent_part_tells_nothing(
    scripts: Seq<Seq<u8>>,
    outpoints: Seq<OutPoint>,
    entry: FullEntry,
)
    ensures
        transparent_outputs_of(entry.3) is None ==> full_outputs(scripts, entry).len() == 0,
        transparent_inputs_of(entry.3) is None ==> full_spends(outpoints, entry).len() == 0,
{
}

/// Transparent outputs are added after those known, each outpoint once: those known stay, each new
/// outpoint is listed, and nothing else is.
pub proof fn law_transparent_outputs_are_added_once(list: Seq<TransparentOutputView>, more: Seq<TransparentOutputView>)
    ensures
        ({
            let after = with_outputs(list, more);
            let n = list.len() as int;
            &&& after.len() >= n
            &&& after.take(n) == list
            &&& forall|m: int|
                0 <= m < more.len() ==> exists|k: int|
                    0 <= k < after.len() && (#[trigger] after[k]).outpoint == (
                    #[trigger] more[m]).outpoint
            &&& forall|k: int|
                n <= k < after.len() ==> exists|m: int|
                    0 <= m < more.len() && #[trigger] after[k] == #[trigger] more[m]
            &&& forall|j: int, k: int|
                0 <= j < k < after.len() && n <= k ==> (#[trigger] after[j]).outpoint != (
                #[trigger] after[k]).outpoint
        }),
    decreases more.len(),
{
    let after = with_outputs(list, more);
    let n = list.len() as int;
    if more.len() == 0 {
        assert(after.take(n) =~= list);
    } else {
        let init = more.drop_last();
        let last = more.last();
        law_transparent_outputs_are_added_once(list, init);
        let before = with_outputs(list, init);
        assert(after.take(n) =~= before.take(n));
        let held = exists|i: int|
            0 <= i < before.len() && (#[trigger] before[i]).outpoint == last.outpoint;
        assert forall|m: int| 0 <= m < more.len() implies exists|k: int|
            0 <= k < after.len() && (#[trigger] after[k]).outpoint == (#[trigger] more[m]).outpoint by {
            if m < init.len() {
                assert(init[m] == more[m]);
                let k = choose|k: int|
                    0 <= k < before.len() && (#[trigger] before[k]).outpoint == init[m].outpoint;
                assert(after[k] == before[k]);
            } else if held {
                let k = choose|k: int|
                    0 <= k < before.len() && (#[trigger] before[k]).outpoint == last.outpoint;
                assert(after[k] == before[k]);
            } else {
                assert(after[before.len() as int] == last);
            }
        }
        assert forall|k: int| n <= k < after.len() implies exists|m: int|
            0 <= m < more.len() && #[trigger] after[k] == #[trigger] more[m] by {
            if k < before.len() {
                let m = choose|m: int|
                    0 <= m < init.len() && #[trigger] before[k] == #[trigger] init[m];
                assert(after[k] == more[m]);
            } else {
                assert(after[k] == more[more.len() - 1]);
            }
        }
        assert forall|j: int, k: int| 0 <= j < k < after.len() && n <= k implies (
        #[trigger] after[j]).outpoint != (#[trigger] after[k]).outpoint by {
            assert(after[j] == before[j]);
            if k < before.len() {
                assert(after[k] == before[k]);
            } else {
                assert(!held);
            }
        }
    }
}

/// Transparent spends are added after those known, each outpoint once: those known stay, each new
/// outpoint is listed, and nothing else is.
pub proof fn law_transparent_spends_are_added_once(list: Seq<TransparentSpend>, more: Seq<TransparentSpend>)
    ensures
        ({
            let after = with_spends(list, more);
            let n = list.len() as int;
            &&& after.len() >= n
            &&& after.take(n) == list
            &&& forall|m: int|
                0 <= m < more.len() ==> exists|k: int|
                    0 <= k < after.len() && (#[trigger] after[k]).outpoint == (
                    #[trigger] more[m]).outpoint
            &&& forall|k: int|
                n <= k < after.len() ==> exists|m: int|
                    0 <= m < more.len() && #[trigger] after[k] == #[trigger] more[m]
            &&& forall|j: int, k: int|
                0 <= j < k < after.len() && n <= k ==> (#[trigger] after[j]).outpoint != (
                #[trigger] after[k]).outpoint
        }),
    decreases more.len(),
{
    let after = with_spends(list, more);
    let n = list.len() as int;
    if more.len() == 0 {
        assert(after.take(n) =~= list);
    } else {
        let init = more.drop_last();
        let last = more.last();
        law_transparent_spends_are_added_once(list, init);
        let before = with_spends(list, init);
        assert(after.take(n) =~= before.take(n));
        let held = exists|i: int|
            0 <= i < before.len() && (#[trigger] before[i]).outpoint == last.outpoint;
        assert forall|m: int| 0 <= m < more.len() implies exists|k: int|
            0 <= k < after.len() && (#[trigger] after[k]).outpoint == (#[trigger] more[m]).outpoint by {
            if m < init.len() {
                assert(init[m] == more[m]);
                let k = choose|k: int|
                    0 <= k < before.len() && (#[trigger] before[k]).outpoint == init[m].outpoint;
                assert(after[k] == before[k]);
            } else if held {
                let k = choose|k: int|
                    0 <= k < before.len() && (#[trigger] before[k]).outpoint == last.outpoint;
                assert(after[k] == before[k]);
            } else {
                assert(after[before.len() as int] == last);
            }
        }
        assert forall|k: int| n <= k < after.len() implies exists|m: int|
            0 <= m < more.len() && #[trigger] after[k] == #[trigger] more[m] by {
            if k < before.len() {
                let m = choose|m: int|
                    0 <= m < init.len() && #[trigger] before[k] == #[trigger] init[m];
                assert(after[k] == more[m]);
            } else {
                assert(after[k] == more[more.len() - 1]);
            }
        }
        assert forall|j: int, k: int| 0 <= j < k < after.len() && n <= k implies (
        #[trigger] after[j]).outpoint != (#[trigger] after[k]).outpoint by {
            assert(after[j] == before[j]);
            if k < before.len() {
                assert(after[k] == before[k]);
            } else {
                assert(!held);
            }
        }
    }
}

/// A full transaction adds its transparent outputs to a scanned one, and changes nothing else of it.
pub proof fn law_full_transaction_adds_its_outputs(
    wtx: WalletTxView,
    scripts: Seq<Seq<u8>>,
    entry: FullEntry,
)
    ensures
        ({
            let after = paid(wtx, scripts, entry);
            &&& after.transparent_outputs == with_outputs(wtx.transparent_outputs, full_outputs(scripts, entry))
            &&& after.txid == wtx.txid
            &&& after.height == wtx.height
            &&& after.tx_index == wtx.tx_index
            &&& after.sapling_outputs == wtx.sapling_outputs
            &&& after.sapling_spends == wtx.sapling_spends
            &&& after.orchard_outputs == wtx.orchard_outputs
            &&& after.orchard_spends == wtx.orchard_spends
            &&& after.ironwood_outputs == wtx.ironwood_outputs
            &&& after.ironwood_spends == wtx.ironwood_spends
            &&& after.transparent_spends == wtx.transparent_spends
        }),
{
}

/// The transparent outputs of every full transaction reach the scanned transaction with its id and
/// no other; one whose id was not scanned is added with them.
pub proof fn law_transparent_outputs_reach_their_own(
    txs: Seq<WalletTxView>,
    scripts: Seq<Seq<u8>>,
    full: Seq<FullEntry>,
)
    requires
        forall|i: int, j: int|
            0 <= i < j < full.len() ==> (#[trigger] full[i]).0 != (#[trigger] full[j]).0,
    ensures
        ({
            let after = paid_by_all(txs, scripts, full);
            &&& after.len() >= txs.len()
            &&& forall|k: int| 0 <= k < txs.len() ==> (#[trigger] after[k]).txid == txs[k].txid
            &&& forall|k: int, i: int|
                0 <= k < txs.len() && 0 <= i < full.len() && first_of_its_id(txs, k)
                    && txs[k].txid == full[i].0 ==> #[trigger] after[k] == paid(
                    txs[k],
                    scripts,
                    #[trigger] full[i],
                )
            &&& forall|k: int|
                0 <= k < txs.len() && (!first_of_its_id(txs, k) || forall|i: int|
                    0 <= i < full.len() ==> (#[trigger] full[i]).0 != txs[k].txid)
                    ==> #[trigger] after[k] == txs[k]
        }),
    decreases full.len(),
{
    let after = paid_by_all(txs, scripts, full);
    if full.len() > 0 {
        let init = full.drop_last();
        let entry = full.last();
        assert forall|i: int, j: int| 0 <= i < j < init.len() implies (#[trigger] init[i]).0 != (
        #[trigger] init[j]).0 by {
            assert(full[i].0 != full[j].0);
        }
        law_transparent_outputs_reach_their_own(txs, scripts, init);
        let before = paid_by_all(txs, scripts, init);
        lemma_absent(before, entry.0);
        assert forall|k: int| 0 <= k < txs.len() implies (#[trigger] after[k]).txid == txs[k].txid by {
            assert(before[k].txid == txs[k].txid);
        }
        assert forall|k: int, i: int|
            0 <= k < txs.len() && 0 <= i < full.len() && first_of_its_id(txs, k) && txs[k].txid
                == full[i].0 implies #[trigger] after[k] == paid(
            txs[k],
            scripts,
            #[trigger] full[i],
        ) by {
            assert(before[k].txid == txs[k].txid);
            if i == full.len() - 1 {
                assert forall|j: int| 0 <= j < init.len() implies (#[trigger] init[j]).0
                    != txs[k].txid by {
                    assert(full[j].0 != full[i].0);
                }
                assert(before[k] == txs[k]);
                assert forall|m: int| 0 <= m < k implies (#[trigger] before[m]).txid != entry.0 by {
                    assert(before[m].txid == txs[m].txid);
                }
                lemma_tx_position(before, entry.0, k);
            } else {
                assert(init[i] == full[i]);
                assert(full[i].0 != full[full.len() - 1].0);
                assert(after[k] == before[k]);
            }
        }
        assert forall|k: int|
            0 <= k < txs.len() && (!first_of_its_id(txs, k) || forall|i: int|
                0 <= i < full.len() ==> (#[trigger] full[i]).0 != txs[k].txid)
            implies #[trigger] after[k] == txs[k] by {
            assert(before[k].txid == txs[k].txid);
            if first_of_its_id(txs, k) {
                assert forall|j: int| 0 <= j < init.len() implies (#[trigger] init[j]).0
                    != txs[k].txid by {
                    assert(full[j].0 != txs[k].txid);
                }
                assert(full[full.len() - 1].0 != txs[k].txid);
            } else {
                let m = choose|m: int| 0 <= m < k && (#[trigger] txs[m]).txid == txs[k].txid;
                assert(before[m].txid == txs[m].txid);
                assert(tx_position(before, entry.0) != Some(k));
            }
            assert(before[k] == txs[k]);
        }
    }
}

/// A full transaction of an id that was not scanned is added with its transparent outputs, under
/// its own id, height and index.
pub proof fn law_transparent_outputs_of_a_new_id_are_added(
    txs: Seq<WalletTxView>,
    scripts: Seq<Seq<u8>>,
    entry: FullEntry,
)
    requires
        forall|k: int| 0 <= k < txs.len() ==> (#[trigger] txs[k]).txid != entry.0,
    ensures
        ({
            let after = paid_by(txs, scripts, entry);
            let fresh = WalletTxView {
                txid: entry.0,
                height: entry.1,
                tx_index: entry.2,
                sapling_outputs: Seq::empty(),
                sapling_spends: Seq::empty(),
                orchard_outputs: Seq::empty(),
                orchard_spends: Seq::empty(),
                ironwood_outputs: Seq::empty(),
                ironwood_spends: Seq::empty(),
                transparent_outputs: Seq::empty(),
                transparent_spends: Seq::empty(),
            };
            after == txs.push(paid(fresh, scripts, entry))
        }),
{
    lemma_absent(txs, entry.0);
}

/// A full transaction adds its transparent spends to a scanned one, and changes nothing else of it.
pub proof fn law_full_transaction_adds_its_spends(
    wtx: WalletTxView,
    outpoints: Seq<OutPoint>,
    entry: FullEntry,
)
    ensures
        ({
            let after = drawn(wtx, outpoints, entry);
            &&& after.transparent_spends == with_spends(wtx.transparent_spends, full_spends(outpoints, entry))
            &&& after.txid == wtx.txid
            &&& after.height == wtx.height
            &&& after.tx_index == wtx.tx_index
            &&& after.sapling_outputs == wtx.sapling_outputs
            &&& after.sapling_spends == wtx.sapling_spends
            &&& after.orchard_outputs == wtx.orchard_outputs
            &&& after.orchard_spends == wtx.orchard_spends
            &&& after.ironwood_outputs == wtx.ironwood_outputs
            &&& after.ironwood_spends == wtx.ironwood_spends
            &&& after.transparent_outputs == wtx.transparent_outputs
        }),
{
}

/// The transparent spends of every full transaction reach the scanned transaction with its id and
/// no other; one whose id was not scanned is added with them.
pub proof fn law_transparent_spends_reach_their_own(
    txs: Seq<WalletTxView>,
    outpoints: Seq<OutPoint>,
    full: Seq<FullEntry>,
)
    requires
        forall|i: int, j: int|
            0 <= i < j < full.len() ==> (#[trigger] full[i]).0 != (#[trigger] full[j]).0,
    ensures
        ({
            let after = drawn_by_all(txs, outpoints, full);
            &&& after.len() >= txs.len()
            &&& forall|k: int| 0 <= k < txs.len() ==> (#[trigger] after[k]).txid == txs[k].txid
            &&& forall|k: int, i: int|
                0 <= k < txs.len() && 0 <= i < full.len() && first_of_its_id(txs, k)
                    && txs[k].txid == full[i].0 ==> #[trigger] after[k] == drawn(
                    txs[k],
                    outpoints,
                    #[trigger] full[i],
                )
            &&& forall|k: int|
                0 <= k < txs.len() && (!first_of_its_id(txs, k) || forall|i: int|
                    0 <= i < full.len() ==> (#[trigger] full[i]).0 != txs[k].txid)
                    ==> #[trigger] after[k] == txs[k]
        }),
    decreases full.len(),
{
    let after = drawn_by_all(txs, outpoints, full);
    if full.len() > 0 {
        let init = full.drop_last();
        let entry = full.last();
        assert forall|i: int, j: int| 0 <= i < j < init.len() implies (#[trigger] init[i]).0 != (
        #[trigger] init[j]).0 by {
            assert(full[i].0 != full[j].0);
        }
        law_transparent_spends_reach_their_own(txs, outpoints, init);
        let before = drawn_by_all(txs, outpoints, init);
        lemma_absent(before, entry.0);
        assert forall|k: int| 0 <= k < txs.len() implies (#[trigger] after[k]).txid == txs[k].txid by {
            assert(before[k].txid == txs[k].txid);
        }
        assert forall|k: int, i: int|
            0 <= k < txs.len() && 0 <= i < full.len() && first_of_its_id(txs, k) && txs[k].txid
                == full[i].0 implies #[trigger] after[k] == drawn(
            txs[k],
            outpoints,
            #[trigger] full[i],
        ) by {
            assert(before[k].txid == txs[k].txid);
            if i == full.len() - 1 {
                assert forall|j: int| 0 <= j < init.len() implies (#[trigger] init[j]).0
                    != txs[k].txid by {
                    assert(full[j].0 != full[i].0);
                }
                assert(before[k] == txs[k]);
                assert forall|m: int| 0 <= m < k implies (#[trigger] before[m]).txid != entry.0 by {
                    assert(before[m].txid == txs[m].txid);
                }
                lemma_tx_position(before, entry.0, k);
            } else {
                assert(init[i] == full[i]);
                assert(full[i].0 != full[full.len() - 1].0);
                assert(after[k] == before[k]);
            }
        }
        assert forall|k: int|
            0 <= k < txs.len() && (!first_of_its_id(txs, k) || forall|i: int|
                0 <= i < full.len() ==> (#[trigger] full[i]).0 != txs[k].txid)
            implies #[trigger] after[k] == txs[k] by {
            assert(before[k].txid == txs[k].txid);
            if first_of_its_id(txs, k) {
                assert forall|j: int| 0 <= j < init.len() implies (#[trigger] init[j]).0
                    != txs[k].txid by {
                    assert(full[j].0 != txs[k].txid);
                }
                assert(full[full.len() - 1].0 != txs[k].txid);
            } else {
                let m = choose|m: int| 0 <= m < k && (#[trigger] txs[m]).txid == txs[k].txid;
                assert(before[m].txid == txs[m].txid);
                assert(tx_position(before, entry.0) != Some(k));
            }
            assert(before[k] == txs[k]);
        }
    }
}

/// A full transaction of an id that was not scanned is added with its transparent spends, under
/// its own id, height and index.
pub proof fn law_transparent_spends_of_a_new_id_are_added(
    txs: Seq<WalletTxView>,
    outpoints: Seq<OutPoint>,
    entry: FullEntry,
)
    requires
        forall|k: int| 0 <= k < txs.len() ==> (#[trigger] txs[k]).txid != entry.0,
    ensures
        ({
            let after = drawn_by(txs, outpoints, entry);
            let fresh = WalletTxView {
                txid: entry.0,
                height: entry.1,
                tx_index: entry.2,
                sapling_outputs: Seq::empty(),
                sapling_spends: Seq::empty(),
                orchard_outputs: Seq::empty(),
                orchard_spends: Seq::empty(),
                ironwood_outputs: Seq::empty(),
                ironwood_spends: Seq::empty(),
                transparent_outputs: Seq::empty(),
                transparent_spends: Seq::empty(),
            };
            after == txs.push(drawn(fresh, outpoints, entry))
        }),
{
    lemma_absent(txs, entry.0);
}

/// Spends are looked for once all outputs are known: among the outputs that the account held
/// and those that any transaction of the batch brings in.
pub proof fn law_spends_are_looked_for_after_outputs(
    txs: Seq<WalletTxView>,
    scripts: Seq<Seq<u8>>,
    outpoints: Seq<OutPoint>,
    full: Seq<FullEntry>,
)
    ensures
        exists|known: Seq<OutPoint>|
            {
                &&& with_transparent(txs, scripts, outpoints, full) == #[trigger] drawn_by_all(
                    paid_by_all(txs, scripts, full),
                    known,
                    full,
                )
                &&& forall|o: OutPoint|
                    known.contains(o) == (outpoints.contains(o) || outpoints_born(
                        paid_by_all(txs, scripts, full),
                    ).contains(o))
            },
{
    let funded = paid_by_all(txs, scripts, full);
    let known = outpoints + outpoints_born(funded);
    assert forall|o: OutPoint|
        known.contains(o) == (outpoints.contains(o) || outpoints_born(funded).contains(o)) by {
        lemma_joined_contains(outpoints, outpoints_born(funded), o);
    }
    assert(with_transparent(txs, scripts, outpoints, full) == drawn_by_all(funded, known, full));
}

/// The transparent parts of full transactions are read in turn, each reaching the first
/// transaction with its id and leaving every other as it is.
pub proof fn law_transparent_parts_are_read_in_turn(
    txs: Seq<WalletTxView>,
    scripts: Seq<Seq<u8>>,
    outpoints: Seq<OutPoint>,
    full: Seq<FullEntry>,
    entry: FullEntry,
    k: int,
)
    ensures
        paid_by_all(txs, scripts, Seq::<FullEntry>::empty()) == txs,
        paid_by_all(txs, scripts, full.push(entry)) == paid_by(
            paid_by_all(txs, scripts, full),
            scripts,
            entry,
        ),
        drawn_by_all(txs, outpoints, Seq::<FullEntry>::empty()) == txs,
        drawn_by_all(txs, outpoints, full.push(entry)) == drawn_by(
            drawn_by_all(txs, outpoints, full),
            outpoints,
            entry,
        ),
        0 <= k < txs.len() && txs[k].txid == entry.0 && first_of_its_id(txs, k) ==> {
            &&& paid_by(txs, scripts, entry) == txs.update(k, paid(txs[k], scripts, entry))
            &&& drawn_by(txs, outpoints, entry) == txs.update(k, drawn(txs[k], outpoints, entry))
        },
{
    assert(full.push(entry).drop_last() =~= full);
    if 0 <= k < txs.len() && txs[k].txid == entry.0 && first_of_its_id(txs, k) {
        assert forall|m: int| 0 <= m < k implies (#[trigger] txs[m]).txid != entry.0 by {}
        lemma_tx_position(txs, entry.0, k);
    }
}

} // verus!
