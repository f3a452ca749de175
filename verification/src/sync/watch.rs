//! The set of nullifiers that a sync watches, and how a batch of transactions changes
//! it.

use vstd::prelude::*;

use crate::bytes::holds32;
use crate::primitives::{Network, OutPoint};
use crate::proto::CompactBlock;
use crate::seqs::{collect_some, lemma_collect_concat, lemma_collect_push};
use crate::sync::decrypt::ScanningKeys;
use crate::sync::scan::{
    all_nullifiers_valid, blocks_fit, blocks_valid, scan_compact_scripts, scanned_blocks, scripts_view, tx_views,
    watch_of, Found, Nullifiers, OrchardSpend, SaplingSpend, ScanError, TransparentOutputView,
    WalletOutput, WalletTx, WalletTxView, Watch,
};

verus! {

/// The nullifiers that the outputs carry, in order.
pub open spec fn nullifiers_in<N>(outputs: Seq<WalletOutput<N, [u8; 32], [u8; 43]>>) -> Seq<[u8; 32]> {
    collect_some(outputs.map_values(|o: WalletOutput<N, [u8; 32], [u8; 43]>| o.nf))
}

/// Appends the nullifiers that the outputs carry.
fn list_nullifiers<N: Copy>(nfs: &mut Vec<[u8; 32]>, outputs: &Vec<WalletOutput<N, [u8; 32], [u8; 43]>>)
    ensures
        final(nfs)@ == old(nfs)@ + nullifiers_in(outputs@),
{
    let ghost all = outputs@.map_values(|o: WalletOutput<N, [u8; 32], [u8; 43]>| o.nf);
    let mut j: usize = 0;
    assert(nfs@ =~= nfs@ + collect_some(all.take(0)));
    while j < outputs.len()
        invariant
            0 <= j <= outputs.len(),
            all == outputs@.map_values(|o: WalletOutput<N, [u8; 32], [u8; 43]>| o.nf),
            nfs@ == old(nfs)@ + collect_some(all.take(j as int)),
        decreases outputs.len() - j,
    {
        proof {
            lemma_collect_push(all.take(j as int), all[j as int]);
            assert(all.take(j as int + 1) =~= all.take(j as int).push(all[j as int]));
        }
        if let Some(nf) = outputs[j].nf {
            nfs.push(nf);
            assert(nfs@ =~= old(nfs)@ + collect_some(all.take(j as int + 1)));
        }
        j = j + 1;
    }
    assert(all.take(j as int) =~= all);
}

/// The nullifiers of the Sapling notes that the transactions bring in.
pub open spec fn sapling_born(txs: Seq<WalletTxView>) -> Seq<[u8; 32]>
    decreases txs.len(),
{
    if txs.len() == 0 {
        Seq::empty()
    } else {
        sapling_born(txs.drop_last()) + nullifiers_in(txs.last().sapling_outputs)
    }
}

/// The nullifiers of the Sapling notes that the transactions spend.
pub open spec fn sapling_gone(txs: Seq<WalletTxView>) -> Seq<[u8; 32]>
    decreases txs.len(),
{
    if txs.len() == 0 {
        Seq::empty()
    } else {
        sapling_gone(txs.drop_last()) + txs.last().sapling_spends.map_values(|s: SaplingSpend| s.nf)
    }
}

/// Lists the nullifiers of the Sapling notes that the transactions bring in.
fn list_sapling_born(txs: &Vec<WalletTx>) -> (nfs: Vec<[u8; 32]>)
    ensures
        nfs@ == sapling_born(tx_views(txs@)),
{
    let ghost views = tx_views(txs@);
    let mut nfs: Vec<[u8; 32]> = Vec::new();
    let mut i: usize = 0;
    assert(views.take(0) =~= Seq::empty());
    while i < txs.len()
        invariant
            0 <= i <= txs.len(),
            views == tx_views(txs@),
            nfs@ == sapling_born(views.take(i as int)),
        decreases txs.len() - i,
    {
        proof {
            assert(views.take(i as int + 1).drop_last() =~= views.take(i as int));
        }
        list_nullifiers(&mut nfs, &txs[i].sapling_outputs);
        i = i + 1;
    }
    assert(views.take(i as int) =~= views);
    nfs
}

/// Lists the nullifiers of the Sapling notes that the transactions spend.
fn list_sapling_gone(txs: &Vec<WalletTx>) -> (nfs: Vec<[u8; 32]>)
    ensures
        nfs@ == sapling_gone(tx_views(txs@)),
{
    let ghost views = tx_views(txs@);
    let mut nfs: Vec<[u8; 32]> = Vec::new();
    let mut i: usize = 0;
    assert(views.take(0) =~= Seq::empty());
    while i < txs.len()
        invariant
            0 <= i <= txs.len(),
            views == tx_views(txs@),
            nfs@ == sapling_gone(views.take(i as int)),
        decreases txs.len() - i,
    {
        proof {
            assert(views.take(i as int + 1).drop_last() =~= views.take(i as int));
        }
        let spends = &txs[i].sapling_spends;
        let ghost before = nfs@;
        let mut j: usize = 0;
        while j < spends.len()
            invariant
                0 <= j <= spends.len(),
                nfs@ == before + spends@.take(j as int).map_values(|s: SaplingSpend| s.nf),
            decreases spends.len() - j,
        {
            nfs.push(spends[j].nf);
            assert(nfs@ =~= before + spends@.take(j as int + 1).map_values(|s: SaplingSpend| s.nf));
            j = j + 1;
        }
        assert(spends@.take(j as int) =~= spends@);
        i = i + 1;
    }
    assert(views.take(i as int) =~= views);
    nfs
}

/// The nullifiers of the Orchard notes that the transactions bring in.
pub open spec fn orchard_born(txs: Seq<WalletTxView>) -> Seq<[u8; 32]>
    decreases txs.len(),
{
    if txs.len() == 0 {
        Seq::empty()
    } else {
        orchard_born(txs.drop_last()) + nullifiers_in(txs.last().orchard_outputs)
    }
}

/// The nullifiers of the Orchard notes that the transactions spend.
pub open spec fn orchard_gone(txs: Seq<WalletTxView>) -> Seq<[u8; 32]>
    decreases txs.len(),
{
    if txs.len() == 0 {
        Seq::empty()
    } else {
        orchard_gone(txs.drop_last()) + txs.last().orchard_spends.map_values(|s: OrchardSpend| s.nf)
    }
}

/// Lists the nullifiers of the Orchard notes that the transactions bring in.
fn list_orchard_born(txs: &Vec<WalletTx>) -> (nfs: Vec<[u8; 32]>)
    ensures
        nfs@ == orchard_born(tx_views(txs@)),
{
    let ghost views = tx_views(txs@);
    let mut nfs: Vec<[u8; 32]> = Vec::new();
    let mut i: usize = 0;
    assert(views.take(0) =~= Seq::empty());
    while i < txs.len()
        invariant
            0 <= i <= txs.len(),
            views == tx_views(txs@),
            nfs@ == orchard_born(views.take(i as int)),
        decreases txs.len() - i,
    {
        proof {
            assert(views.take(i as int + 1).drop_last() =~= views.take(i as int));
        }
        list_nullifiers(&mut nfs, &txs[i].orchard_outputs);
        i = i + 1;
    }
    assert(views.take(i as int) =~= views);
    nfs
}

/// Lists the nullifiers of the Orchard notes that the transactions spend.
fn list_orchard_gone(txs: &Vec<WalletTx>) -> (nfs: Vec<[u8; 32]>)
    ensures
        nfs@ == orchard_gone(tx_views(txs@)),
{
    let ghost views = tx_views(txs@);
    let mut nfs: Vec<[u8; 32]> = Vec::new();
    let mut i: usize = 0;
    assert(views.take(0) =~= Seq::empty());
    while i < txs.len()
        invariant
            0 <= i <= txs.len(),
            views == tx_views(txs@),
            nfs@ == orchard_gone(views.take(i as int)),
        decreases txs.len() - i,
    {
        proof {
            assert(views.take(i as int + 1).drop_last() =~= views.take(i as int));
        }
        let spends = &txs[i].orchard_spends;
        let ghost before = nfs@;
        let mut j: usize = 0;
        while j < spends.len()
            invariant
                0 <= j <= spends.len(),
                nfs@ == before + spends@.take(j as int).map_values(|s: OrchardSpend| s.nf),
            decreases spends.len() - j,
        {
            nfs.push(spends[j].nf);
            assert(nfs@ =~= before + spends@.take(j as int + 1).map_values(|s: OrchardSpend| s.nf));
            j = j + 1;
        }
        assert(spends@.take(j as int) =~= spends@);
        i = i + 1;
    }
    assert(views.take(i as int) =~= views);
    nfs
}

/// The nullifiers of the Ironwood notes that the transactions bring in.
pub open spec fn ironwood_born(txs: Seq<WalletTxView>) -> Seq<[u8; 32]>
    decreases txs.len(),
{
    if txs.len() == 0 {
        Seq::empty()
    } else {
        ironwood_born(txs.drop_last()) + nullifiers_in(txs.last().ironwood_outputs)
    }
}

/// The nullifiers of the Ironwood notes that the transactions spend.
pub open spec fn ironwood_gone(txs: Seq<WalletTxView>) -> Seq<[u8; 32]>
    decreases txs.len(),
{
    if txs.len() == 0 {
        Seq::empty()
    } else {
        ironwood_gone(txs.drop_last()) + txs.last().ironwood_spends.map_values(|s: OrchardSpend| s.nf)
    }
}

/// Lists the nullifiers of the Ironwood notes that the transactions bring in.
fn list_ironwood_born(txs: &Vec<WalletTx>) -> (nfs: Vec<[u8; 32]>)
    ensures
        nfs@ == ironwood_born(tx_views(txs@)),
{
    let ghost views = tx_views(txs@);
    let mut nfs: Vec<[u8; 32]> = Vec::new();
    let mut i: usize = 0;
    assert(views.take(0) =~= Seq::empty());
    while i < txs.len()
        invariant
            0 <= i <= txs.len(),
            views == tx_views(txs@),
            nfs@ == ironwood_born(views.take(i as int)),
        decreases txs.len() - i,
    {
        proof {
            assert(views.take(i as int + 1).drop_last() =~= views.take(i as int));
        }
        list_nullifiers(&mut nfs, &txs[i].ironwood_outputs);
        i = i + 1;
    }
    assert(views.take(i as int) =~= views);
    nfs
}

/// Lists the nullifiers of the Ironwood notes that the transactions spend.
fn list_ironwood_gone(txs: &Vec<WalletTx>) -> (nfs: Vec<[u8; 32]>)
    ensures
        nfs@ == ironwood_gone(tx_views(txs@)),
{
    let ghost views = tx_views(txs@);
    let mut nfs: Vec<[u8; 32]> = Vec::new();
    let mut i: usize = 0;
    assert(views.take(0) =~= Seq::empty());
    while i < txs.len()
        invariant
            0 <= i <= txs.len(),
            views == tx_views(txs@),
            nfs@ == ironwood_gone(views.take(i as int)),
        decreases txs.len() - i,
    {
        proof {
            assert(views.take(i as int + 1).drop_last() =~= views.take(i as int));
        }
        let spends = &txs[i].ironwood_spends;
        let ghost before = nfs@;
        let mut j: usize = 0;
        while j < spends.len()
            invariant
                0 <= j <= spends.len(),
                nfs@ == before + spends@.take(j as int).map_values(|s: OrchardSpend| s.nf),
            decreases spends.len() - j,
        {
            nfs.push(spends[j].nf);
            assert(nfs@ =~= before + spends@.take(j as int + 1).map_values(|s: OrchardSpend| s.nf));
            j = j + 1;
        }
        assert(spends@.take(j as int) =~= spends@);
        i = i + 1;
    }
    assert(views.take(i as int) =~= views);
    nfs
}

/// The entries of `list` that are not in `gone`.
pub open spec fn without(list: Seq<[u8; 32]>, gone: Seq<[u8; 32]>) -> Seq<[u8; 32]> {
    collect_some(
        list.map_values(
            |nf: [u8; 32]|
                if gone.contains(nf) {
                    None
                } else {
                    Some(nf)
                },
        ),
    )
}

/// Appends the entries of `list` that are not in `gone`.
fn keep_without(kept: &mut Vec<[u8; 32]>, list: &Vec<[u8; 32]>, gone: &Vec<[u8; 32]>)
    ensures
        final(kept)@ == old(kept)@ + without(list@, gone@),
{
    let ghost all = list@.map_values(
        |nf: [u8; 32]|
            if gone@.contains(nf) {
                None
            } else {
                Some(nf)
            },
    );
    let mut j: usize = 0;
    assert(kept@ =~= kept@ + collect_some(all.take(0)));
    while j < list.len()
        invariant
            0 <= j <= list.len(),
            all == list@.map_values(
                |nf: [u8; 32]|
                    if gone@.contains(nf) {
                        None
                    } else {
                        Some(nf)
                    },
            ),
            kept@ == old(kept)@ + collect_some(all.take(j as int)),
        decreases list.len() - j,
    {
        proof {
            lemma_collect_push(all.take(j as int), all[j as int]);
            assert(all.take(j as int + 1) =~= all.take(j as int).push(all[j as int]));
        }
        if !holds32(gone, &list[j]) {
            kept.push(list[j]);
            assert(kept@ =~= old(kept)@ + collect_some(all.take(j as int + 1)));
        }
        j = j + 1;
    }
    assert(all.take(j as int) =~= all);
}

/// The watched entries and the new ones, but for those that are gone.
fn refresh(watched: &Vec<[u8; 32]>, born: &Vec<[u8; 32]>, gone: &Vec<[u8; 32]>) -> (kept: Vec<[u8; 32]>)
    ensures
        kept@ == without(watched@ + born@, gone@),
{
    let mut kept: Vec<[u8; 32]> = Vec::new();
    keep_without(&mut kept, watched, gone);
    keep_without(&mut kept, born, gone);
    proof {
        let f = |nf: [u8; 32]|
            if gone@.contains(nf) {
                None
            } else {
                Some(nf)
            };
        lemma_collect_concat(watched@.map_values(f), born@.map_values(f));
        assert((watched@ + born@).map_values(f) =~= watched@.map_values(f) + born@.map_values(f));
        assert(kept@ =~= without(watched@, gone@) + without(born@, gone@));
    }
    kept
}

impl Nullifiers {
    /// Stops watching the notes that the transactions spend, and starts watching those
    /// that they bring in. A note that they bring in and spend is not watched.
    pub fn update_with(&mut self, txs: &Vec<WalletTx>)
        ensures
            final(self).sapling@ == without(
                old(self).sapling@ + sapling_born(tx_views(txs@)),
                sapling_gone(tx_views(txs@)),
            ),
            final(self).orchard@ == without(
                old(self).orchard@ + orchard_born(tx_views(txs@)),
                orchard_gone(tx_views(txs@)),
            ),
            final(self).ironwood@ == without(
                old(self).ironwood@ + ironwood_born(tx_views(txs@)),
                ironwood_gone(tx_views(txs@)),
            ),
    {
        self.sapling = refresh(&self.sapling, &list_sapling_born(txs), &list_sapling_gone(txs));
        self.orchard = refresh(&self.orchard, &list_orchard_born(txs), &list_orchard_gone(txs));
        self.ironwood =
            refresh(&self.ironwood, &list_ironwood_born(txs), &list_ironwood_gone(txs));
    }
}

/// The outpoints of the transparent outputs that the transactions bring in.
pub open spec fn outpoints_born(txs: Seq<WalletTxView>) -> Seq<OutPoint>
    decreases txs.len(),
{
    if txs.len() == 0 {
        Seq::empty()
    } else {
        outpoints_born(txs.drop_last()) + txs.last().transparent_outputs.map_values(
            |o: TransparentOutputView| o.outpoint,
        )
    }
}

/// The outpoints given, and those of the transparent outputs that the transactions
/// bring in.
pub fn extend_outpoints(outpoints: &Vec<OutPoint>, txs: &Vec<WalletTx>) -> (all: Vec<OutPoint>)
    ensures
        all@ == outpoints@ + outpoints_born(tx_views(txs@)),
{
    let ghost views = tx_views(txs@);
    let mut all: Vec<OutPoint> = Vec::new();
    let mut k: usize = 0;
    while k < outpoints.len()
        invariant
            0 <= k <= outpoints.len(),
            all@ == outpoints@.take(k as int),
        decreases outpoints.len() - k,
    {
        all.push(outpoints[k]);
        assert(all@ =~= outpoints@.take(k as int + 1));
        k = k + 1;
    }
    assert(all@ =~= outpoints@);
    let mut i: usize = 0;
    assert(views.take(0) =~= Seq::empty());
    assert(all@ =~= outpoints@ + outpoints_born(views.take(0)));
    while i < txs.len()
        invariant
            0 <= i <= txs.len(),
            views == tx_views(txs@),
            all@ == outpoints@ + outpoints_born(views.take(i as int)),
        decreases txs.len() - i,
    {
        proof {
            assert(views.take(i as int + 1).drop_last() =~= views.take(i as int));
        }
        let outputs = &txs[i].transparent_outputs;
        let ghost before = all@;
        let ghost added = views[i as int].transparent_outputs.map_values(
            |o: TransparentOutputView| o.outpoint,
        );
        let mut j: usize = 0;
        while j < outputs.len()
            invariant
                0 <= j <= outputs.len(),
                added.len() == outputs.len(),
                forall|n: int| 0 <= n < outputs.len() ==> added[n] == (#[trigger] outputs[n]).outpoint,
                all@ == before + added.take(j as int),
            decreases outputs.len() - j,
        {
            all.push(outputs[j].outpoint);
            assert(all@ =~= before + added.take(j as int + 1));
            j = j + 1;
        }
        assert(added.take(j as int) =~= added);
        assert(all@ =~= outpoints@ + outpoints_born(views.take(i as int + 1)));
        i = i + 1;
    }
    assert(views.take(i as int) =~= views);
    all
}

/// The list, and what is appended to it.
fn joined(list: &Vec<[u8; 32]>, more: &Vec<[u8; 32]>) -> (all: Vec<[u8; 32]>)
    ensures
        all@ == list@ + more@,
{
    let none: Vec<[u8; 32]> = Vec::new();
    let all = refresh(list, more, &none);
    proof {
        lemma_without_none(list@ + more@);
        assert(none@ =~= Seq::empty());
    }
    all
}

/// Taking nothing out leaves everything.
proof fn lemma_without_none(list: Seq<[u8; 32]>)
    ensures
        without(list, Seq::empty()) == list,
    decreases list.len(),
{
    let f = |nf: [u8; 32]|
        if Seq::<[u8; 32]>::empty().contains(nf) {
            None
        } else {
            Some(nf)
        };
    if list.len() == 0 {
        assert(without(list, Seq::empty()) =~= list);
    } else {
        lemma_without_none(list.drop_last());
        assert(list.map_values(f).drop_last() =~= list.drop_last().map_values(f));
        assert(without(list, Seq::empty()) =~= list);
    }
}

/// What is watched for, with the notes and outputs that the transactions bring in.
pub open spec fn extended(watch: Watch, txs: Seq<WalletTxView>) -> Watch {
    Watch {
        sapling_nfs: watch.sapling_nfs + sapling_born(txs),
        orchard_nfs: watch.orchard_nfs + orchard_born(txs),
        ironwood_nfs: watch.ironwood_nfs + ironwood_born(txs),
        outpoints: watch.outpoints + outpoints_born(txs),
        ..watch
    }
}

/// What scanning a batch finds, where the notes and outputs that the batch itself
/// brings in are watched too.
pub open spec fn scanned_batch(
    watch: Watch,
    network: Network,
    blocks: Seq<CompactBlock>,
    prior: Option<(u32, [u8; 32])>,
) -> Result<Found, ScanError> {
    match scanned_blocks(watch, network, blocks, prior) {
        Err(e) => Err(e),
        Ok((txs, _)) => scanned_blocks(extended(watch, txs), network, blocks, prior),
    }
}

/// Scans a batch of blocks for what belongs to the keys. A note or output that is
/// received and spent within the batch is found as received and as spent.
pub fn scan_batch(
    blocks: &Vec<CompactBlock>,
    keys: &ScanningKeys,
    scripts: Option<&Vec<Vec<u8>>>,
    network: Network,
    nullifiers: &Nullifiers,
    outpoints: &Vec<OutPoint>,
    prior: Option<(u32, [u8; 32])>,
) -> (result: Result<(Vec<WalletTx>, Vec<([u8; 32], u32, u32)>), ScanError>)
    requires
        blocks_fit(blocks@),
        blocks_valid(scripts_view(scripts), blocks@),
    ensures
        match result {
            Ok((txs, all_txs)) => scanned_batch(
                watch_of(*keys, scripts_view(scripts), *nullifiers, outpoints@),
                network,
                blocks@,
                prior,
            ) == Ok::<Found, ScanError>((tx_views(txs@), all_txs@)),
            Err(e) => scanned_batch(
                watch_of(*keys, scripts_view(scripts), *nullifiers, outpoints@),
                network,
                blocks@,
                prior,
            ) == Err::<Found, ScanError>(e),
        },
        result matches Ok(found) ==> all_nullifiers_valid(tx_views(found.0@)),
{
    let txs = match scan_compact_scripts(
        blocks,
        keys,
        scripts,
        network,
        nullifiers,
        outpoints,
        prior,
    ) {
        Ok((txs, _)) => txs,
        Err(e) => return Err(e),
    };
    let watched = Nullifiers {
        sapling: joined(&nullifiers.sapling, &list_sapling_born(&txs)),
        orchard: joined(&nullifiers.orchard, &list_orchard_born(&txs)),
        ironwood: joined(&nullifiers.ironwood, &list_ironwood_born(&txs)),
    };
    let outpoints = extend_outpoints(outpoints, &txs);
    scan_compact_scripts(blocks, keys, scripts, network, &watched, &outpoints, prior)
}

} // verus!
