//! Laws of what a transaction brings in and spends, output by output, and of what a scan of
//! blocks records of it.

use vstd::prelude::*;

use crate::bytes::array32;
use crate::primitives::{
    ActionParts, CompactParts, Network, OrchardNote, OutPoint, SaplingNote, Scope,
    Zip212Enforcement,
};
use crate::proto::{
    CompactBlock, CompactOrchardAction, CompactSaplingOutput, CompactSaplingSpend, CompactTx,
    CompactTxIn, TxOut,
};
use crate::seqs::{
    collect_some, lemma_collect_has, lemma_collect_indexed, lemma_collect_picks, picks,
};
use crate::sync::decrypt::{
    ironwood_compact_found, is_full_orchard_key, is_full_sapling_key, orchard_compact_found,
    sapling_compact_found, OrchardScanningKey, SaplingScanningKey,
};
use crate::sync::decrypt_laws::{
    law_ironwood_note_is_found_by_the_first_key_that_sees_it,
    law_orchard_note_is_found_by_the_first_key_that_sees_it,
    law_sapling_note_is_found_by_the_first_key_that_sees_it,
};
use crate::sync::laws::{law_every_relevant_transaction_is_found, tx_at, tx_start};
use crate::sync::scan::{
    ironwood_received, orchard_received, orchard_spend_at, orchard_spent, orchard_wallet_output,
    sapling_received, sapling_spend_at, sapling_spent, sapling_wallet_output, scanned_blocks,
    scanned_tx, transparent_output_at, transparent_received, transparent_spend_at,
    transparent_spent, OrchardOutput, OrchardSpend, SaplingOutput, SaplingSpend,
    TransparentOutputView, TransparentSpend, TreeSizes, WalletOutput, WalletTxView, Watch,
};
use crate::sync::watch::{extended, scanned_batch};
use crate::upstream::consensus_rules::zip212_at;
use crate::upstream::orchard_notes::{
    ironwood_compact_note, orchard_cmx_valid, orchard_compact_note, orchard_ivk_of,
    orchard_nullifier_of, orchard_nullifier_valid,
};
use crate::upstream::sapling_notes::{
    sapling_cmu_valid, sapling_compact_note, sapling_ivk_of, sapling_nullifier_of,
};

verus! {

/// The account receives of a transaction's Sapling outputs exactly those that decryption finds a
/// note in, in order: each at its index and position, with the nullifier and the scope of the
/// key that found it.
pub proof fn law_sapling_notes_are_received_as_found(
    keys: Seq<SaplingScanningKey>,
    zip212: Zip212Enforcement,
    outputs: Seq<CompactSaplingOutput>,
    start: nat,
)
    requires
        outputs.len() <= u32::MAX,
    ensures
        ({
            let got = sapling_received(keys, zip212, outputs, start);
            &&& forall|k: int|
                0 <= k < got.len() ==> {
                    let i = (#[trigger] got[k]).index;
                    &&& i < outputs.len()
                    &&& sapling_compact_found(keys, zip212, outputs[i as int]) matches Some(r) && got[k] == (
                    WalletOutput {
                        index: i,
                        note: r.note,
                        recipient: r.recipient,
                        nf: match keys[r.key_index as int].nk {
                            Some(nk) => Some(sapling_nullifier_of(nk@, r.note, (start + i) as u64)),
                            None => None,
                        },
                        position: (start + i) as u64,
                        scope: keys[r.key_index as int].scope,
                        memo: None,
                        is_sent: false,
                        is_change: false,
                    })
                }
            &&& forall|k: int, m: int|
                0 <= k < m < got.len() ==> (#[trigger] got[k]).index < (#[trigger] got[m]).index
            &&& forall|i: int|
                0 <= i < outputs.len() && sapling_compact_found(keys, zip212, #[trigger] outputs[i]) is Some
                    ==> exists|k: int| 0 <= k < got.len() && (#[trigger] got[k]).index == i
        }),
{
    let all = Seq::new(
        outputs.len(),
        |i: int| sapling_wallet_output(keys, sapling_compact_found(keys, zip212, outputs[i]), i, start),
    );
    let index = |o: SaplingOutput| o.index as int;
    let got = sapling_received(keys, zip212, outputs, start);
    assert(got == collect_some(all));
    lemma_collect_indexed(all, index);
    assert forall|k: int| 0 <= k < got.len() implies {
        let i = (#[trigger] got[k]).index;
        i < outputs.len() && all[i as int] == Some(got[k])
    } by {
        assert(index(got[k]) == got[k].index);
    }
    assert forall|k: int, m: int| 0 <= k < m < got.len() implies (#[trigger] got[k]).index < (
    #[trigger] got[m]).index by {
        assert(index(got[k]) < index(got[m]));
    }
    assert forall|i: int|
        0 <= i < outputs.len() && sapling_compact_found(keys, zip212, #[trigger] outputs[i]) is Some implies exists|
        k: int,
    | 0 <= k < got.len() && (#[trigger] got[k]).index == i by {
        assert(all[i] is Some);
        let k = choose|k: int| 0 <= k < got.len() && got[k] == all[i]->0;
        assert(got[k].index == i);
    }
}

/// The account receives of a transaction's Orchard actions exactly those that decryption finds a
/// note in, in order: each at its index and position, with the nullifier and the scope of the
/// key that found it.
pub proof fn law_orchard_notes_are_received_as_found(
    keys: Seq<OrchardScanningKey>,
    actions: Seq<CompactOrchardAction>,
    start: nat,
)
    requires
        actions.len() <= u32::MAX,
    ensures
        ({
            let got = orchard_received(keys, actions, start);
            &&& forall|k: int|
                0 <= k < got.len() ==> {
                    let i = (#[trigger] got[k]).index;
                    &&& i < actions.len()
                    &&& orchard_compact_found(keys, actions[i as int]) matches Some(r) && got[k] == (
                    WalletOutput {
                        index: i,
                        note: r.note,
                        recipient: r.recipient,
                        nf: match keys[r.key_index as int].nk {
                            Some(fvk) => Some(orchard_nullifier_of(fvk@, r.note)),
                            None => None,
                        },
                        position: (start + i) as u64,
                        scope: keys[r.key_index as int].scope,
                        memo: None,
                        is_sent: false,
                        is_change: false,
                    })
                }
            &&& forall|k: int, m: int|
                0 <= k < m < got.len() ==> (#[trigger] got[k]).index < (#[trigger] got[m]).index
            &&& forall|i: int|
                0 <= i < actions.len() && orchard_compact_found(keys, #[trigger] actions[i]) is Some
                    ==> exists|k: int| 0 <= k < got.len() && (#[trigger] got[k]).index == i
        }),
{
    let all = Seq::new(
        actions.len(),
        |i: int| orchard_wallet_output(keys, orchard_compact_found(keys, actions[i]), i, start),
    );
    let index = |o: OrchardOutput| o.index as int;
    let got = orchard_received(keys, actions, start);
    assert(got == collect_some(all));
    lemma_collect_indexed(all, index);
    assert forall|k: int| 0 <= k < got.len() implies {
        let i = (#[trigger] got[k]).index;
        i < actions.len() && all[i as int] == Some(got[k])
    } by {
        assert(index(got[k]) == got[k].index);
    }
    assert forall|k: int, m: int| 0 <= k < m < got.len() implies (#[trigger] got[k]).index < (
    #[trigger] got[m]).index by {
        assert(index(got[k]) < index(got[m]));
    }
    assert forall|i: int|
        0 <= i < actions.len() && orchard_compact_found(keys, #[trigger] actions[i]) is Some implies exists|
        k: int,
    | 0 <= k < got.len() && (#[trigger] got[k]).index == i by {
        assert(all[i] is Some);
        let k = choose|k: int| 0 <= k < got.len() && got[k] == all[i]->0;
        assert(got[k].index == i);
    }
}

/// The account receives of a transaction's Ironwood actions exactly those that decryption finds a
/// note in, in order: each at its index and position, with the nullifier and the scope of the
/// key that found it.
pub proof fn law_ironwood_notes_are_received_as_found(
    keys: Seq<OrchardScanningKey>,
    actions: Seq<CompactOrchardAction>,
    start: nat,
)
    requires
        actions.len() <= u32::MAX,
    ensures
        ({
            let got = ironwood_received(keys, actions, start);
            &&& forall|k: int|
                0 <= k < got.len() ==> {
                    let i = (#[trigger] got[k]).index;
                    &&& i < actions.len()
                    &&& ironwood_compact_found(keys, actions[i as int]) matches Some(r) && got[k] == (
                    WalletOutput {
                        index: i,
                        note: r.note,
                        recipient: r.recipient,
                        nf: match keys[r.key_index as int].nk {
                            Some(fvk) => Some(orchard_nullifier_of(fvk@, r.note)),
                            None => None,
                        },
                        position: (start + i) as u64,
                        scope: keys[r.key_index as int].scope,
                        memo: None,
                        is_sent: false,
                        is_change: false,
                    })
                }
            &&& forall|k: int, m: int|
                0 <= k < m < got.len() ==> (#[trigger] got[k]).index < (#[trigger] got[m]).index
            &&& forall|i: int|
                0 <= i < actions.len() && ironwood_compact_found(keys, #[trigger] actions[i]) is Some
                    ==> exists|k: int| 0 <= k < got.len() && (#[trigger] got[k]).index == i
        }),
{
    let all = Seq::new(
        actions.len(),
        |i: int| orchard_wallet_output(keys, ironwood_compact_found(keys, actions[i]), i, start),
    );
    let index = |o: OrchardOutput| o.index as int;
    let got = ironwood_received(keys, actions, start);
    assert(got == collect_some(all));
    lemma_collect_indexed(all, index);
    assert forall|k: int| 0 <= k < got.len() implies {
        let i = (#[trigger] got[k]).index;
        i < actions.len() && all[i as int] == Some(got[k])
    } by {
        assert(index(got[k]) == got[k].index);
    }
    assert forall|k: int, m: int| 0 <= k < m < got.len() implies (#[trigger] got[k]).index < (
    #[trigger] got[m]).index by {
        assert(index(got[k]) < index(got[m]));
    }
    assert forall|i: int|
        0 <= i < actions.len() && ironwood_compact_found(keys, #[trigger] actions[i]) is Some implies exists|
        k: int,
    | 0 <= k < got.len() && (#[trigger] got[k]).index == i by {
        assert(all[i] is Some);
        let k = choose|k: int| 0 <= k < got.len() && got[k] == all[i]->0;
        assert(got[k].index == i);
    }
}

/// A transaction spends exactly those of the account's Sapling notes whose nullifiers it
/// reveals and the account watches, in order, each told at its index.
pub proof fn law_sapling_spends_are_those_of_watched_notes(
    watched: Seq<[u8; 32]>,
    spends: Seq<CompactSaplingSpend>,
)
    requires
        spends.len() <= u32::MAX,
    ensures
        ({
            let got = sapling_spent(watched, spends);
            &&& forall|k: int|
                0 <= k < got.len() ==> {
                    let i = (#[trigger] got[k]).index as int;
                    &&& i < spends.len()
                    &&& spends[i].nf@.len() == 32
                    &&& watched.contains(array32(spends[i].nf@))
                    &&& got[k].nf == array32(spends[i].nf@)
                }
            &&& forall|k: int, m: int|
                0 <= k < m < got.len() ==> (#[trigger] got[k]).index < (#[trigger] got[m]).index
            &&& forall|i: int|
                0 <= i < spends.len() && (#[trigger] spends[i]).nf@.len() == 32
                    && watched.contains(array32(spends[i].nf@)) ==> got.contains(
                    SaplingSpend { index: i as u32, nf: array32(spends[i].nf@) },
                )
        }),
{
    let all = Seq::new(spends.len(), |i: int| sapling_spend_at(watched, spends[i].nf@, i));
    let index = |s: SaplingSpend| s.index as int;
    let got = sapling_spent(watched, spends);
    assert(got == collect_some(all));
    lemma_collect_indexed(all, index);
    assert forall|k: int| 0 <= k < got.len() implies {
        let i = (#[trigger] got[k]).index as int;
        i < spends.len() && all[i] == Some(got[k])
    } by {
        assert(index(got[k]) == got[k].index);
    }
    assert forall|k: int, m: int| 0 <= k < m < got.len() implies (#[trigger] got[k]).index < (
    #[trigger] got[m]).index by {
        assert(index(got[k]) < index(got[m]));
    }
    assert forall|i: int|
        0 <= i < spends.len() && (#[trigger] spends[i]).nf@.len() == 32
            && watched.contains(array32(spends[i].nf@)) implies got.contains(
        SaplingSpend { index: i as u32, nf: array32(spends[i].nf@) },
    ) by {
        assert(all[i] is Some);
    }
}

/// A transaction spends exactly those of the account's Orchard or Ironwood notes whose nullifiers it
/// reveals and the account watches, in order, each told at its index.
pub proof fn law_orchard_spends_are_those_of_watched_notes(
    watched: Seq<[u8; 32]>,
    spends: Seq<CompactOrchardAction>,
)
    requires
        spends.len() <= u32::MAX,
    ensures
        ({
            let got = orchard_spent(watched, spends);
            &&& forall|k: int|
                0 <= k < got.len() ==> {
                    let i = (#[trigger] got[k]).index as int;
                    &&& i < spends.len()
                    &&& spends[i].nullifier@.len() == 32
                    &&& orchard_nullifier_valid(spends[i].nullifier@)
                    &&& watched.contains(array32(spends[i].nullifier@))
                    &&& got[k].nf == array32(spends[i].nullifier@)
                }
            &&& forall|k: int, m: int|
                0 <= k < m < got.len() ==> (#[trigger] got[k]).index < (#[trigger] got[m]).index
            &&& forall|i: int|
                0 <= i < spends.len() && (#[trigger] spends[i]).nullifier@.len() == 32 && orchard_nullifier_valid(spends[i].nullifier@)
                    && watched.contains(array32(spends[i].nullifier@)) ==> got.contains(
                    OrchardSpend { index: i as u32, nf: array32(spends[i].nullifier@) },
                )
        }),
{
    let all = Seq::new(spends.len(), |i: int| orchard_spend_at(watched, spends[i].nullifier@, i));
    let index = |s: OrchardSpend| s.index as int;
    let got = orchard_spent(watched, spends);
    assert(got == collect_some(all));
    lemma_collect_indexed(all, index);
    assert forall|k: int| 0 <= k < got.len() implies {
        let i = (#[trigger] got[k]).index as int;
        i < spends.len() && all[i] == Some(got[k])
    } by {
        assert(index(got[k]) == got[k].index);
    }
    assert forall|k: int, m: int| 0 <= k < m < got.len() implies (#[trigger] got[k]).index < (
    #[trigger] got[m]).index by {
        assert(index(got[k]) < index(got[m]));
    }
    assert forall|i: int|
        0 <= i < spends.len() && (#[trigger] spends[i]).nullifier@.len() == 32 && orchard_nullifier_valid(spends[i].nullifier@)
            && watched.contains(array32(spends[i].nullifier@)) implies got.contains(
        OrchardSpend { index: i as u32, nf: array32(spends[i].nullifier@) },
    ) by {
        assert(all[i] is Some);
    }
}

/// A transaction pays the account exactly with those transparent outputs that pay one of its
/// scripts, in order, each with its own value, script and index.
pub proof fn law_transparent_outputs_are_those_to_our_scripts(
    scripts: Seq<Seq<u8>>,
    txid: [u8; 32],
    vout: Seq<TxOut>,
    height: u32,
)
    requires
        vout.len() <= u32::MAX,
    ensures
        ({
            let got = transparent_received(scripts, txid, vout, height);
            &&& forall|k: int|
                0 <= k < got.len() ==> {
                    let i = (#[trigger] got[k]).outpoint.n as int;
                    &&& i < vout.len()
                    &&& scripts.contains(vout[i].script_pub_key@)
                    &&& got[k].outpoint.hash == txid
                    &&& got[k].value == vout[i].value
                    &&& got[k].script == vout[i].script_pub_key@
                    &&& got[k].height == height
                }
            &&& forall|k: int, m: int|
                0 <= k < m < got.len() ==> (#[trigger] got[k]).outpoint.n < (
                #[trigger] got[m]).outpoint.n
            &&& forall|i: int|
                0 <= i < vout.len() && scripts.contains((#[trigger] vout[i]).script_pub_key@)
                    ==> exists|k: int| 0 <= k < got.len() && (#[trigger] got[k]).outpoint.n == i
        }),
{
    let all = Seq::new(
        vout.len(),
        |i: int| transparent_output_at(scripts, txid, vout[i], i, height),
    );
    let index = |o: TransparentOutputView| o.outpoint.n as int;
    let got = transparent_received(scripts, txid, vout, height);
    assert(got == collect_some(all));
    lemma_collect_indexed(all, index);
    assert forall|k: int| 0 <= k < got.len() implies {
        let i = (#[trigger] got[k]).outpoint.n as int;
        i < vout.len() && all[i] == Some(got[k])
    } by {
        assert(index(got[k]) == got[k].outpoint.n);
    }
    assert forall|k: int, m: int| 0 <= k < m < got.len() implies (#[trigger] got[k]).outpoint.n < (
    #[trigger] got[m]).outpoint.n by {
        assert(index(got[k]) < index(got[m]));
    }
    assert forall|i: int|
        0 <= i < vout.len() && scripts.contains((#[trigger] vout[i]).script_pub_key@) implies exists|
        k: int,
    | 0 <= k < got.len() && (#[trigger] got[k]).outpoint.n == i by {
        assert(all[i] is Some);
        let k = choose|k: int| 0 <= k < got.len() && got[k] == all[i]->0;
        assert(got[k].outpoint.n == i);
    }
}

/// A transaction spends exactly those of the account's transparent outputs that its inputs
/// name, in order: `at` holds the inputs that do.
pub proof fn law_transparent_spends_are_those_of_our_outputs(
    outpoints: Seq<OutPoint>,
    txid: [u8; 32],
    vin: Seq<CompactTxIn>,
    height: u32,
) -> (at: Seq<int>)
    ensures
        ({
            let got = transparent_spent(outpoints, txid, vin, height);
            let ours = |i: int|
                vin[i].prevout_txid@.len() == 32 && outpoints.contains(
                    OutPoint { hash: array32(vin[i].prevout_txid@), n: vin[i].prevout_index },
                );
            &&& at.len() == got.len()
            &&& forall|k: int|
                0 <= k < at.len() ==> 0 <= #[trigger] at[k] < vin.len() && ours(at[k]) && got[k] == (
                TransparentSpend {
                    txid,
                    outpoint: OutPoint {
                        hash: array32(vin[at[k]].prevout_txid@),
                        n: vin[at[k]].prevout_index,
                    },
                    height,
                })
            &&& forall|k: int, m: int| 0 <= k < m < at.len() ==> #[trigger] at[k] < #[trigger] at[m]
            &&& forall|i: int| 0 <= i < vin.len() && #[trigger] ours(i) ==> at.contains(i)
        }),
{
    let all = Seq::new(vin.len(), |i: int| transparent_spend_at(outpoints, txid, vin[i], height));
    lemma_collect_picks(all);
    let at = choose|at: Seq<int>| #[trigger] picks(collect_some(all), all, at);
    let ours = |i: int|
        vin[i].prevout_txid@.len() == 32 && outpoints.contains(
            OutPoint { hash: array32(vin[i].prevout_txid@), n: vin[i].prevout_index },
        );
    assert forall|i: int| 0 <= i < vin.len() && #[trigger] ours(i) implies at.contains(i) by {
        assert(all[i] is Some);
    }
    at
}

/// What a transaction does to the account is told pool by pool: each pool's notes come from
/// that pool's outputs, at that pool's position, and its spends from the nullifiers watched in
/// that pool; and it is told under the transaction's own id, height and index.
pub proof fn law_transaction_is_scanned_pool_by_pool(
    watch: Watch,
    zip212: Zip212Enforcement,
    height: u32,
    tx: CompactTx,
    start: TreeSizes,
)
    ensures
        ({
            let wtx = scanned_tx(watch, zip212, height, tx, start);
            let txid = array32(tx.txid@);
            &&& wtx.txid == txid
            &&& wtx.height == height
            &&& wtx.tx_index == tx.index as u32
            &&& wtx.sapling_outputs == sapling_received(
                watch.sapling_keys,
                zip212,
                tx.outputs@,
                start.0,
            )
            &&& wtx.orchard_outputs == orchard_received(watch.orchard_keys, tx.actions@, start.1)
            &&& wtx.ironwood_outputs == ironwood_received(
                watch.orchard_keys,
                tx.ironwood_actions@,
                start.2,
            )
            &&& wtx.sapling_spends == sapling_spent(watch.sapling_nfs, tx.spends@)
            &&& wtx.orchard_spends == orchard_spent(watch.orchard_nfs, tx.actions@)
            &&& wtx.ironwood_spends == orchard_spent(watch.ironwood_nfs, tx.ironwood_actions@)
            &&& watch.scripts matches Some(scripts) ==> wtx.transparent_outputs
                == transparent_received(scripts, txid, tx.vout@, height) && wtx.transparent_spends
                == transparent_spent(watch.outpoints, txid, tx.vin@, height)
            &&& watch.scripts is None ==> wtx.transparent_outputs.len() == 0
                && wtx.transparent_spends.len() == 0
        }),
{
}

/// A transaction is left out only where it does nothing at all to the account.
pub proof fn law_only_idle_transactions_are_left_out(wtx: WalletTxView)
    ensures
        wtx.is_bare() <==> {
            &&& wtx.sapling_outputs.len() == 0
            &&& wtx.sapling_spends.len() == 0
            &&& wtx.orchard_outputs.len() == 0
            &&& wtx.orchard_spends.len() == 0
            &&& wtx.ironwood_outputs.len() == 0
            &&& wtx.ironwood_spends.len() == 0
            &&& wtx.transparent_outputs.len() == 0
            &&& wtx.transparent_spends.len() == 0
        },
{
}

/// Every Sapling note that one of the keys can see is recorded: under its transaction's id,
/// height and index, with the nullifier and the scope of the first key that sees it, and at
/// its position.
pub proof fn law_every_sapling_note_that_a_key_sees_is_recorded(
    watch: Watch,
    network: Network,
    blocks: Seq<CompactBlock>,
    prior: Option<(u32, [u8; 32])>,
    b: int,
    t: int,
    i: int,
    output: CompactSaplingOutput,
    j: int,
    note: SaplingNote,
)
    requires
        scanned_blocks(watch, network, blocks, prior) is Ok,
        0 <= b < blocks.len(),
        0 <= t < blocks[b].vtx@.len(),
        0 <= i < blocks[b].vtx@[t].outputs@.len() <= u32::MAX,
        output == blocks[b].vtx@[t].outputs@[i],
        output.cmu@.len() == 32,
        sapling_cmu_valid(output.cmu@),
        output.ephemeral_key@.len() == 32,
        output.ciphertext@.len() == 52,
        0 <= j < watch.sapling_keys.len() <= usize::MAX,
        ({
            let parts = CompactParts {
                cmu: output.cmu@,
                ephemeral_key: output.ephemeral_key@,
                ciphertext: output.ciphertext@,
            };
            &&& sapling_compact_note(
                watch.sapling_keys[j].ivk@,
                zip212_at(network, blocks[b].height as u32),
                parts,
            ) == Some(note)
            &&& forall|k: int|
                0 <= k < j ==> sapling_compact_note(
                    #[trigger] watch.sapling_keys[k].ivk@,
                    zip212_at(network, blocks[b].height as u32),
                parts,
                ) is None
        }),
    ensures
        ({
            let found = (scanned_blocks(watch, network, blocks, prior)->Ok_0).0;
            let tx = blocks[b].vtx@[t];
            let key = watch.sapling_keys[j];
            let position = (tx_start(network, blocks, b, t).0 + i) as u64;
            exists|k: int|
                {
                    &&& 0 <= k < found.len()
                    &&& (#[trigger] found[k]).txid == array32(tx.txid@)
                    &&& found[k].height == blocks[b].height as u32
                    &&& found[k].tx_index == tx.index as u32
                    &&& found[k].sapling_outputs.contains(
                        WalletOutput {
                            index: i as u32,
                            note,
                            recipient: note.recipient,
                            nf: match key.nk {
                                Some(nk) => Some(sapling_nullifier_of(nk@, note, position)),
                                None => None,
                            },
                            position,
                            scope: key.scope,
                            memo: None,
                            is_sent: false,
                            is_change: false,
                        },
                    )
                }
        }),
{
    let tx = blocks[b].vtx@[t];
    let keys = watch.sapling_keys;
    let start = tx_start(network, blocks, b, t).0;
    let wtx = tx_at(watch, network, blocks, b, t);
    let found = (scanned_blocks(watch, network, blocks, prior)->Ok_0).0;
    law_sapling_note_is_found_by_the_first_key_that_sees_it(keys, zip212_at(network, blocks[b].height as u32), output);
    let hit = sapling_compact_found(keys, zip212_at(network, blocks[b].height as u32), output);
    assert(hit is Some);
    let r = hit->0;
    assert(keys[r.key_index as int].ivk@ == keys[r.key_index as int].ivk@);
    assert(keys[j].ivk@ == keys[j].ivk@);
    assert(r.key_index == j);
    let all = Seq::new(
        tx.outputs@.len(),
        |i: int| sapling_wallet_output(keys, sapling_compact_found(keys, zip212_at(network, blocks[b].height as u32), tx.outputs@[i]), i, start),
    );
    lemma_collect_has(all, i);
    assert(wtx.sapling_outputs == collect_some(all));
    assert(wtx.sapling_outputs.contains(all[i]->0));
    law_every_relevant_transaction_is_found(watch, network, blocks, prior, b, t);
    let k = choose|k: int| 0 <= k < found.len() && found[k] == wtx;
    assert(found[k].txid == array32(tx.txid@));
}

/// A batch holds every Sapling note that one of the keys can see, as a scan of its blocks
/// records it.
pub proof fn law_every_sapling_note_that_a_key_sees_is_in_the_batch(
    watch: Watch,
    network: Network,
    blocks: Seq<CompactBlock>,
    prior: Option<(u32, [u8; 32])>,
    b: int,
    t: int,
    i: int,
    output: CompactSaplingOutput,
    j: int,
    note: SaplingNote,
)
    requires
        scanned_batch(watch, network, blocks, prior) is Ok,
        0 <= b < blocks.len(),
        0 <= t < blocks[b].vtx@.len(),
        0 <= i < blocks[b].vtx@[t].outputs@.len() <= u32::MAX,
        output == blocks[b].vtx@[t].outputs@[i],
        output.cmu@.len() == 32,
        sapling_cmu_valid(output.cmu@),
        output.ephemeral_key@.len() == 32,
        output.ciphertext@.len() == 52,
        0 <= j < watch.sapling_keys.len() <= usize::MAX,
        ({
            let parts = CompactParts {
                cmu: output.cmu@,
                ephemeral_key: output.ephemeral_key@,
                ciphertext: output.ciphertext@,
            };
            &&& sapling_compact_note(
                watch.sapling_keys[j].ivk@,
                zip212_at(network, blocks[b].height as u32),
                parts,
            ) == Some(note)
            &&& forall|k: int|
                0 <= k < j ==> sapling_compact_note(
                    #[trigger] watch.sapling_keys[k].ivk@,
                    zip212_at(network, blocks[b].height as u32),
                parts,
                ) is None
        }),
    ensures
        ({
            let found = (scanned_batch(watch, network, blocks, prior)->Ok_0).0;
            let tx = blocks[b].vtx@[t];
            let key = watch.sapling_keys[j];
            let position = (tx_start(network, blocks, b, t).0 + i) as u64;
            exists|k: int|
                {
                    &&& 0 <= k < found.len()
                    &&& (#[trigger] found[k]).txid == array32(tx.txid@)
                    &&& found[k].height == blocks[b].height as u32
                    &&& found[k].tx_index == tx.index as u32
                    &&& found[k].sapling_outputs.contains(
                        WalletOutput {
                            index: i as u32,
                            note,
                            recipient: note.recipient,
                            nf: match key.nk {
                                Some(nk) => Some(sapling_nullifier_of(nk@, note, position)),
                                None => None,
                            },
                            position,
                            scope: key.scope,
                            memo: None,
                            is_sent: false,
                            is_change: false,
                        },
                    )
                }
        }),
{
    let wider = extended(watch, (scanned_blocks(watch, network, blocks, prior)->Ok_0).0);
    law_every_sapling_note_that_a_key_sees_is_recorded(
        wider,
        network,
        blocks,
        prior,
        b,
        t,
        i,
        output,
        j,
        note,
    );
}

/// Every Orchard note that one of the keys can see is recorded: under its transaction's id,
/// height and index, with the nullifier and the scope of the first key that sees it, and at
/// its position.
pub proof fn law_every_orchard_note_that_a_key_sees_is_recorded(
    watch: Watch,
    network: Network,
    blocks: Seq<CompactBlock>,
    prior: Option<(u32, [u8; 32])>,
    b: int,
    t: int,
    i: int,
    action: CompactOrchardAction,
    j: int,
    note: OrchardNote,
)
    requires
        scanned_blocks(watch, network, blocks, prior) is Ok,
        0 <= b < blocks.len(),
        0 <= t < blocks[b].vtx@.len(),
        0 <= i < blocks[b].vtx@[t].actions@.len() <= u32::MAX,
        action == blocks[b].vtx@[t].actions@[i],
        action.nullifier@.len() == 32,
        orchard_nullifier_valid(action.nullifier@),
        action.cmx@.len() == 32,
        orchard_cmx_valid(action.cmx@),
        action.ephemeral_key@.len() == 32,
        action.ciphertext@.len() == 52,
        0 <= j < watch.orchard_keys.len() <= usize::MAX,
        ({
            let parts = ActionParts {
                nullifier: action.nullifier@,
                cmx: action.cmx@,
                ephemeral_key: action.ephemeral_key@,
                ciphertext: action.ciphertext@,
            };
            &&& orchard_compact_note(
                watch.orchard_keys[j].ivk@,
                parts,
            ) == Some(note)
            &&& forall|k: int|
                0 <= k < j ==> orchard_compact_note(
                    #[trigger] watch.orchard_keys[k].ivk@,
                    parts,
                ) is None
        }),
    ensures
        ({
            let found = (scanned_blocks(watch, network, blocks, prior)->Ok_0).0;
            let tx = blocks[b].vtx@[t];
            let key = watch.orchard_keys[j];
            let position = (tx_start(network, blocks, b, t).1 + i) as u64;
            exists|k: int|
                {
                    &&& 0 <= k < found.len()
                    &&& (#[trigger] found[k]).txid == array32(tx.txid@)
                    &&& found[k].height == blocks[b].height as u32
                    &&& found[k].tx_index == tx.index as u32
                    &&& found[k].orchard_outputs.contains(
                        WalletOutput {
                            index: i as u32,
                            note,
                            recipient: note.recipient,
                            nf: match key.nk {
                                Some(fvk) => Some(orchard_nullifier_of(fvk@, note)),
                                None => None,
                            },
                            position,
                            scope: key.scope,
                            memo: None,
                            is_sent: false,
                            is_change: false,
                        },
                    )
                }
        }),
{
    let tx = blocks[b].vtx@[t];
    let keys = watch.orchard_keys;
    let start = tx_start(network, blocks, b, t).1;
    let wtx = tx_at(watch, network, blocks, b, t);
    let found = (scanned_blocks(watch, network, blocks, prior)->Ok_0).0;
    law_orchard_note_is_found_by_the_first_key_that_sees_it(keys, action);
    let hit = orchard_compact_found(keys, action);
    assert(hit is Some);
    let r = hit->0;
    assert(keys[r.key_index as int].ivk@ == keys[r.key_index as int].ivk@);
    assert(keys[j].ivk@ == keys[j].ivk@);
    assert(r.key_index == j);
    let all = Seq::new(
        tx.actions@.len(),
        |i: int| orchard_wallet_output(keys, orchard_compact_found(keys, tx.actions@[i]), i, start),
    );
    lemma_collect_has(all, i);
    assert(wtx.orchard_outputs == collect_some(all));
    assert(wtx.orchard_outputs.contains(all[i]->0));
    law_every_relevant_transaction_is_found(watch, network, blocks, prior, b, t);
    let k = choose|k: int| 0 <= k < found.len() && found[k] == wtx;
    assert(found[k].txid == array32(tx.txid@));
}

/// A batch holds every Orchard note that one of the keys can see, as a scan of its blocks
/// records it.
pub proof fn law_every_orchard_note_that_a_key_sees_is_in_the_batch(
    watch: Watch,
    network: Network,
    blocks: Seq<CompactBlock>,
    prior: Option<(u32, [u8; 32])>,
    b: int,
    t: int,
    i: int,
    action: CompactOrchardAction,
    j: int,
    note: OrchardNote,
)
    requires
        scanned_batch(watch, network, blocks, prior) is Ok,
        0 <= b < blocks.len(),
        0 <= t < blocks[b].vtx@.len(),
        0 <= i < blocks[b].vtx@[t].actions@.len() <= u32::MAX,
        action == blocks[b].vtx@[t].actions@[i],
        action.nullifier@.len() == 32,
        orchard_nullifier_valid(action.nullifier@),
        action.cmx@.len() == 32,
        orchard_cmx_valid(action.cmx@),
        action.ephemeral_key@.len() == 32,
        action.ciphertext@.len() == 52,
        0 <= j < watch.orchard_keys.len() <= usize::MAX,
        ({
            let parts = ActionParts {
                nullifier: action.nullifier@,
                cmx: action.cmx@,
                ephemeral_key: action.ephemeral_key@,
                ciphertext: action.ciphertext@,
            };
            &&& orchard_compact_note(
                watch.orchard_keys[j].ivk@,
                parts,
            ) == Some(note)
            &&& forall|k: int|
                0 <= k < j ==> orchard_compact_note(
                    #[trigger] watch.orchard_keys[k].ivk@,
                    parts,
                ) is None
        }),
    ensures
        ({
            let found = (scanned_batch(watch, network, blocks, prior)->Ok_0).0;
            let tx = blocks[b].vtx@[t];
            let key = watch.orchard_keys[j];
            let position = (tx_start(network, blocks, b, t).1 + i) as u64;
            exists|k: int|
                {
                    &&& 0 <= k < found.len()
                    &&& (#[trigger] found[k]).txid == array32(tx.txid@)
                    &&& found[k].height == blocks[b].height as u32
                    &&& found[k].tx_index == tx.index as u32
                    &&& found[k].orchard_outputs.contains(
                        WalletOutput {
                            index: i as u32,
                            note,
                            recipient: note.recipient,
                            nf: match key.nk {
                                Some(fvk) => Some(orchard_nullifier_of(fvk@, note)),
                                None => None,
                            },
                            position,
                            scope: key.scope,
                            memo: None,
                            is_sent: false,
                            is_change: false,
                        },
                    )
                }
        }),
{
    let wider = extended(watch, (scanned_blocks(watch, network, blocks, prior)->Ok_0).0);
    law_every_orchard_note_that_a_key_sees_is_recorded(
        wider,
        network,
        blocks,
        prior,
        b,
        t,
        i,
        action,
        j,
        note,
    );
}

/// Every Ironwood note that one of the keys can see is recorded: under its transaction's id,
/// height and index, with the nullifier and the scope of the first key that sees it, and at
/// its position.
pub proof fn law_every_ironwood_note_that_a_key_sees_is_recorded(
    watch: Watch,
    network: Network,
    blocks: Seq<CompactBlock>,
    prior: Option<(u32, [u8; 32])>,
    b: int,
    t: int,
    i: int,
    action: CompactOrchardAction,
    j: int,
    note: OrchardNote,
)
    requires
        scanned_blocks(watch, network, blocks, prior) is Ok,
        0 <= b < blocks.len(),
        0 <= t < blocks[b].vtx@.len(),
        0 <= i < blocks[b].vtx@[t].ironwood_actions@.len() <= u32::MAX,
        action == blocks[b].vtx@[t].ironwood_actions@[i],
        action.nullifier@.len() == 32,
        orchard_nullifier_valid(action.nullifier@),
        action.cmx@.len() == 32,
        orchard_cmx_valid(action.cmx@),
        action.ephemeral_key@.len() == 32,
        action.ciphertext@.len() == 52,
        0 <= j < watch.orchard_keys.len() <= usize::MAX,
        ({
            let parts = ActionParts {
                nullifier: action.nullifier@,
                cmx: action.cmx@,
                ephemeral_key: action.ephemeral_key@,
                ciphertext: action.ciphertext@,
            };
            &&& ironwood_compact_note(
                watch.orchard_keys[j].ivk@,
                parts,
            ) == Some(note)
            &&& forall|k: int|
                0 <= k < j ==> ironwood_compact_note(
                    #[trigger] watch.orchard_keys[k].ivk@,
                    parts,
                ) is None
        }),
    ensures
        ({
            let found = (scanned_blocks(watch, network, blocks, prior)->Ok_0).0;
            let tx = blocks[b].vtx@[t];
            let key = watch.orchard_keys[j];
            let position = (tx_start(network, blocks, b, t).2 + i) as u64;
            exists|k: int|
                {
                    &&& 0 <= k < found.len()
                    &&& (#[trigger] found[k]).txid == array32(tx.txid@)
                    &&& found[k].height == blocks[b].height as u32
                    &&& found[k].tx_index == tx.index as u32
                    &&& found[k].ironwood_outputs.contains(
                        WalletOutput {
                            index: i as u32,
                            note,
                            recipient: note.recipient,
                            nf: match key.nk {
                                Some(fvk) => Some(orchard_nullifier_of(fvk@, note)),
                                None => None,
                            },
                            position,
                            scope: key.scope,
                            memo: None,
                            is_sent: false,
                            is_change: false,
                        },
                    )
                }
        }),
{
    let tx = blocks[b].vtx@[t];
    let keys = watch.orchard_keys;
    let start = tx_start(network, blocks, b, t).2;
    let wtx = tx_at(watch, network, blocks, b, t);
    let found = (scanned_blocks(watch, network, blocks, prior)->Ok_0).0;
    law_ironwood_note_is_found_by_the_first_key_that_sees_it(keys, action);
    let hit = ironwood_compact_found(keys, action);
    assert(hit is Some);
    let r = hit->0;
    assert(keys[r.key_index as int].ivk@ == keys[r.key_index as int].ivk@);
    assert(keys[j].ivk@ == keys[j].ivk@);
    assert(r.key_index == j);
    let all = Seq::new(
        tx.ironwood_actions@.len(),
        |i: int| orchard_wallet_output(keys, ironwood_compact_found(keys, tx.ironwood_actions@[i]), i, start),
    );
    lemma_collect_has(all, i);
    assert(wtx.ironwood_outputs == collect_some(all));
    assert(wtx.ironwood_outputs.contains(all[i]->0));
    law_every_relevant_transaction_is_found(watch, network, blocks, prior, b, t);
    let k = choose|k: int| 0 <= k < found.len() && found[k] == wtx;
    assert(found[k].txid == array32(tx.txid@));
}

/// A batch holds every Ironwood note that one of the keys can see, as a scan of its blocks
/// records it.
pub proof fn law_every_ironwood_note_that_a_key_sees_is_in_the_batch(
    watch: Watch,
    network: Network,
    blocks: Seq<CompactBlock>,
    prior: Option<(u32, [u8; 32])>,
    b: int,
    t: int,
    i: int,
    action: CompactOrchardAction,
    j: int,
    note: OrchardNote,
)
    requires
        scanned_batch(watch, network, blocks, prior) is Ok,
        0 <= b < blocks.len(),
        0 <= t < blocks[b].vtx@.len(),
        0 <= i < blocks[b].vtx@[t].ironwood_actions@.len() <= u32::MAX,
        action == blocks[b].vtx@[t].ironwood_actions@[i],
        action.nullifier@.len() == 32,
        orchard_nullifier_valid(action.nullifier@),
        action.cmx@.len() == 32,
        orchard_cmx_valid(action.cmx@),
        action.ephemeral_key@.len() == 32,
        action.ciphertext@.len() == 52,
        0 <= j < watch.orchard_keys.len() <= usize::MAX,
        ({
            let parts = ActionParts {
                nullifier: action.nullifier@,
                cmx: action.cmx@,
                ephemeral_key: action.ephemeral_key@,
                ciphertext: action.ciphertext@,
            };
            &&& ironwood_compact_note(
                watch.orchard_keys[j].ivk@,
                parts,
            ) == Some(note)
            &&& forall|k: int|
                0 <= k < j ==> ironwood_compact_note(
                    #[trigger] watch.orchard_keys[k].ivk@,
                    parts,
                ) is None
        }),
    ensures
        ({
            let found = (scanned_batch(watch, network, blocks, prior)->Ok_0).0;
            let tx = blocks[b].vtx@[t];
            let key = watch.orchard_keys[j];
            let position = (tx_start(network, blocks, b, t).2 + i) as u64;
            exists|k: int|
                {
                    &&& 0 <= k < found.len()
                    &&& (#[trigger] found[k]).txid == array32(tx.txid@)
                    &&& found[k].height == blocks[b].height as u32
                    &&& found[k].tx_index == tx.index as u32
                    &&& found[k].ironwood_outputs.contains(
                        WalletOutput {
                            index: i as u32,
                            note,
                            recipient: note.recipient,
                            nf: match key.nk {
                                Some(fvk) => Some(orchard_nullifier_of(fvk@, note)),
                                None => None,
                            },
                            position,
                            scope: key.scope,
                            memo: None,
                            is_sent: false,
                            is_change: false,
                        },
                    )
                }
        }),
{
    let wider = extended(watch, (scanned_blocks(watch, network, blocks, prior)->Ok_0).0);
    law_every_ironwood_note_that_a_key_sees_is_recorded(
        wider,
        network,
        blocks,
        prior,
        b,
        t,
        i,
        action,
        j,
        note,
    );
}

/// Sapling change is found: a note that the account sent to its own internal address, which only
/// the second of a full viewing key's two keys sees, is in the batch with its nullifier, and
/// told apart by its scope.
pub proof fn law_sapling_change_is_found(
    watch: Watch,
    key: Seq<u8>,
    network: Network,
    blocks: Seq<CompactBlock>,
    prior: Option<(u32, [u8; 32])>,
    b: int,
    t: int,
    i: int,
    output: CompactSaplingOutput,
    note: SaplingNote,
)
    requires
        scanned_batch(watch, network, blocks, prior) is Ok,
        0 <= b < blocks.len(),
        0 <= t < blocks[b].vtx@.len(),
        0 <= i < blocks[b].vtx@[t].outputs@.len() <= u32::MAX,
        output == blocks[b].vtx@[t].outputs@[i],
        output.cmu@.len() == 32,
        sapling_cmu_valid(output.cmu@),
        output.ephemeral_key@.len() == 32,
        output.ciphertext@.len() == 52,
        watch.sapling_keys.len() == 2,
        is_full_sapling_key(watch.sapling_keys[0], key, Scope::External),
        is_full_sapling_key(watch.sapling_keys[1], key, Scope::Internal),
        ({
            let parts = CompactParts {
                cmu: output.cmu@,
                ephemeral_key: output.ephemeral_key@,
                ciphertext: output.ciphertext@,
            };
            &&& sapling_compact_note(
                sapling_ivk_of(key, Scope::External),
                zip212_at(network, blocks[b].height as u32),
                parts,
            ) is None
            &&& sapling_compact_note(
                sapling_ivk_of(key, Scope::Internal),
                zip212_at(network, blocks[b].height as u32),
                parts,
            ) == Some(note)
        }),
    ensures
        ({
            let found = (scanned_batch(watch, network, blocks, prior)->Ok_0).0;
            let nf = Some(
                sapling_nullifier_of(
                    (key, Scope::Internal),
                    note,
                    (tx_start(network, blocks, b, t).0 + i) as u64,
                ),
            );
            exists|k: int, m: int|
                #![trigger found[k].sapling_outputs[m]]
                {
                    &&& 0 <= k < found.len()
                    &&& 0 <= m < found[k].sapling_outputs.len()
                    &&& found[k].txid == array32(blocks[b].vtx@[t].txid@)
                    &&& found[k].sapling_outputs[m].index == i
                    &&& found[k].sapling_outputs[m].note == note
                    &&& found[k].sapling_outputs[m].scope == Scope::Internal
                    &&& found[k].sapling_outputs[m].nf == nf
                    &&& !found[k].sapling_outputs[m].is_sent
                }
        }),
{
    let keys = watch.sapling_keys;
    assert(keys[0].ivk@ == sapling_ivk_of(key, Scope::External));
    assert(keys[1].ivk@ == sapling_ivk_of(key, Scope::Internal));
    law_every_sapling_note_that_a_key_sees_is_in_the_batch(
        watch,
        network,
        blocks,
        prior,
        b,
        t,
        i,
        output,
        1,
        note,
    );
    let found = (scanned_batch(watch, network, blocks, prior)->Ok_0).0;
    let tx = blocks[b].vtx@[t];
    let position = (tx_start(network, blocks, b, t).0 + i) as u64;
    let output = WalletOutput {
        index: i as u32,
        note,
        recipient: note.recipient,
        nf: match keys[1].nk {
            Some(nk) => Some(sapling_nullifier_of(nk@, note, position)),
            None => None,
        },
        position,
        scope: keys[1].scope,
        memo: None,
        is_sent: false,
        is_change: false,
    };
    let k = choose|k: int|
        {
            &&& 0 <= k < found.len()
            &&& (#[trigger] found[k]).txid == array32(tx.txid@)
            &&& found[k].height == blocks[b].height as u32
            &&& found[k].tx_index == tx.index as u32
            &&& found[k].sapling_outputs.contains(output)
        };
    let m = choose|m: int|
        0 <= m < found[k].sapling_outputs.len() && found[k].sapling_outputs[m] == output;
    assert(found[k].sapling_outputs[m].note == note);
}

/// Orchard change is found: a note that the account sent to its own internal address, which only
/// the second of a full viewing key's two keys sees, is in the batch with its nullifier, and
/// told apart by its scope.
pub proof fn law_orchard_change_is_found(
    watch: Watch,
    key: Seq<u8>,
    network: Network,
    blocks: Seq<CompactBlock>,
    prior: Option<(u32, [u8; 32])>,
    b: int,
    t: int,
    i: int,
    action: CompactOrchardAction,
    note: OrchardNote,
)
    requires
        scanned_batch(watch, network, blocks, prior) is Ok,
        0 <= b < blocks.len(),
        0 <= t < blocks[b].vtx@.len(),
        0 <= i < blocks[b].vtx@[t].actions@.len() <= u32::MAX,
        action == blocks[b].vtx@[t].actions@[i],
        action.nullifier@.len() == 32,
        orchard_nullifier_valid(action.nullifier@),
        action.cmx@.len() == 32,
        orchard_cmx_valid(action.cmx@),
        action.ephemeral_key@.len() == 32,
        action.ciphertext@.len() == 52,
        watch.orchard_keys.len() == 2,
        is_full_orchard_key(watch.orchard_keys[0], key, Scope::External),
        is_full_orchard_key(watch.orchard_keys[1], key, Scope::Internal),
        ({
            let parts = ActionParts {
                nullifier: action.nullifier@,
                cmx: action.cmx@,
                ephemeral_key: action.ephemeral_key@,
                ciphertext: action.ciphertext@,
            };
            &&& orchard_compact_note(
                orchard_ivk_of(key, Scope::External),
                parts,
            ) is None
            &&& orchard_compact_note(
                orchard_ivk_of(key, Scope::Internal),
                parts,
            ) == Some(note)
        }),
    ensures
        ({
            let found = (scanned_batch(watch, network, blocks, prior)->Ok_0).0;
            let nf = Some(orchard_nullifier_of(key, note));
            exists|k: int, m: int|
                #![trigger found[k].orchard_outputs[m]]
                {
                    &&& 0 <= k < found.len()
                    &&& 0 <= m < found[k].orchard_outputs.len()
                    &&& found[k].txid == array32(blocks[b].vtx@[t].txid@)
                    &&& found[k].orchard_outputs[m].index == i
                    &&& found[k].orchard_outputs[m].note == note
                    &&& found[k].orchard_outputs[m].scope == Scope::Internal
                    &&& found[k].orchard_outputs[m].nf == nf
                    &&& !found[k].orchard_outputs[m].is_sent
                }
        }),
{
    let keys = watch.orchard_keys;
    assert(keys[0].ivk@ == orchard_ivk_of(key, Scope::External));
    assert(keys[1].ivk@ == orchard_ivk_of(key, Scope::Internal));
    law_every_orchard_note_that_a_key_sees_is_in_the_batch(
        watch,
        network,
        blocks,
        prior,
        b,
        t,
        i,
        action,
        1,
        note,
    );
    let found = (scanned_batch(watch, network, blocks, prior)->Ok_0).0;
    let tx = blocks[b].vtx@[t];
    let position = (tx_start(network, blocks, b, t).1 + i) as u64;
    let output = WalletOutput {
        index: i as u32,
        note,
        recipient: note.recipient,
        nf: match keys[1].nk {
            Some(fvk) => Some(orchard_nullifier_of(fvk@, note)),
            None => None,
        },
        position,
        scope: keys[1].scope,
        memo: None,
        is_sent: false,
        is_change: false,
    };
    let k = choose|k: int|
        {
            &&& 0 <= k < found.len()
            &&& (#[trigger] found[k]).txid == array32(tx.txid@)
            &&& found[k].height == blocks[b].height as u32
            &&& found[k].tx_index == tx.index as u32
            &&& found[k].orchard_outputs.contains(output)
        };
    let m = choose|m: int|
        0 <= m < found[k].orchard_outputs.len() && found[k].orchard_outputs[m] == output;
    assert(found[k].orchard_outputs[m].note == note);
}

/// Ironwood change is found: a note that the account sent to its own internal address, which only
/// the second of a full viewing key's two keys sees, is in the batch with its nullifier, and
/// told apart by its scope.
pub proof fn law_ironwood_change_is_found(
    watch: Watch,
    key: Seq<u8>,
    network: Network,
    blocks: Seq<CompactBlock>,
    prior: Option<(u32, [u8; 32])>,
    b: int,
    t: int,
    i: int,
    action: CompactOrchardAction,
    note: OrchardNote,
)
    requires
        scanned_batch(watch, network, blocks, prior) is Ok,
        0 <= b < blocks.len(),
        0 <= t < blocks[b].vtx@.len(),
        0 <= i < blocks[b].vtx@[t].ironwood_actions@.len() <= u32::MAX,
        action == blocks[b].vtx@[t].ironwood_actions@[i],
        action.nullifier@.len() == 32,
        orchard_nullifier_valid(action.nullifier@),
        action.cmx@.len() == 32,
        orchard_cmx_valid(action.cmx@),
        action.ephemeral_key@.len() == 32,
        action.ciphertext@.len() == 52,
        watch.orchard_keys.len() == 2,
        is_full_orchard_key(watch.orchard_keys[0], key, Scope::External),
        is_full_orchard_key(watch.orchard_keys[1], key, Scope::Internal),
        ({
            let parts = ActionParts {
                nullifier: action.nullifier@,
                cmx: action.cmx@,
                ephemeral_key: action.ephemeral_key@,
                ciphertext: action.ciphertext@,
            };
            &&& ironwood_compact_note(
                orchard_ivk_of(key, Scope::External),
                parts,
            ) is None
            &&& ironwood_compact_note(
                orchard_ivk_of(key, Scope::Internal),
                parts,
            ) == Some(note)
        }),
    ensures
        ({
            let found = (scanned_batch(watch, network, blocks, prior)->Ok_0).0;
            let nf = Some(orchard_nullifier_of(key, note));
            exists|k: int, m: int|
                #![trigger found[k].ironwood_outputs[m]]
                {
                    &&& 0 <= k < found.len()
                    &&& 0 <= m < found[k].ironwood_outputs.len()
                    &&& found[k].txid == array32(blocks[b].vtx@[t].txid@)
                    &&& found[k].ironwood_outputs[m].index == i
                    &&& found[k].ironwood_outputs[m].note == note
                    &&& found[k].ironwood_outputs[m].scope == Scope::Internal
                    &&& found[k].ironwood_outputs[m].nf == nf
                    &&& !found[k].ironwood_outputs[m].is_sent
                }
        }),
{
    let keys = watch.orchard_keys;
    assert(keys[0].ivk@ == orchard_ivk_of(key, Scope::External));
    assert(keys[1].ivk@ == orchard_ivk_of(key, Scope::Internal));
    law_every_ironwood_note_that_a_key_sees_is_in_the_batch(
        watch,
        network,
        blocks,
        prior,
        b,
        t,
        i,
        action,
        1,
        note,
    );
    let found = (scanned_batch(watch, network, blocks, prior)->Ok_0).0;
    let tx = blocks[b].vtx@[t];
    let position = (tx_start(network, blocks, b, t).2 + i) as u64;
    let output = WalletOutput {
        index: i as u32,
        note,
        recipient: note.recipient,
        nf: match keys[1].nk {
            Some(fvk) => Some(orchard_nullifier_of(fvk@, note)),
            None => None,
        },
        position,
        scope: keys[1].scope,
        memo: None,
        is_sent: false,
        is_change: false,
    };
    let k = choose|k: int|
        {
            &&& 0 <= k < found.len()
            &&& (#[trigger] found[k]).txid == array32(tx.txid@)
            &&& found[k].height == blocks[b].height as u32
            &&& found[k].tx_index == tx.index as u32
            &&& found[k].ironwood_outputs.contains(output)
        };
    let m = choose|m: int|
        0 <= m < found[k].ironwood_outputs.len() && found[k].ironwood_outputs[m] == output;
    assert(found[k].ironwood_outputs[m].note == note);
}

} // verus!
