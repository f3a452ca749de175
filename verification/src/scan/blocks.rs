//! The notes of one block, found with one key per pool.

use vstd::prelude::*;

use crate::bytes::{array32, lemma_array32};
use crate::note::decrypt::{try_compact_orchard, try_compact_sapling};
use crate::primitives::{ActionParts, CompactParts, Scope, Zip212Enforcement};
use crate::proto::{CompactBlock, CompactOrchardAction, CompactSaplingOutput, CompactTx};
use crate::scan::parsers::{rseed_bytes_sapling, rseed_of, txid_bytes, txid_of};
use crate::scan::types::{IncomingNoteView, Recipient, ShieldedPool};
use crate::seqs::{collect_some, lemma_collect_push};
use crate::sync::decrypt::{
    orchard_compact_parts, parse_compact_orchard, parse_compact_sapling, sapling_compact_parts,
};
use crate::sync::scan::{lemma_counts_grow, sapling_count};
use crate::upstream::orchard_notes::{
    orchard_compact_note, orchard_note_found, orchard_nullifier, orchard_nullifier_of,
    OrchardCompactAction, OrchardFvk, OrchardIvk,
};
use crate::upstream::sapling_notes::{
    sapling_compact_note, sapling_note_found, sapling_nullifier, sapling_nullifier_of,
    SaplingCompactOutput, SaplingIvk, SaplingNk,
};

verus! {

/// The well-formed actions of the first `n` in a transaction, with where they stand.
pub open spec fn tx_actions(ti: int, actions: Seq<CompactOrchardAction>, n: nat) -> Seq<
    (int, int, ActionParts),
> {
    collect_some(
        Seq::new(
            n,
            |ai: int|
                match orchard_compact_parts(actions[ai]) {
                    Some(parts) => Some((ti, ai, parts)),
                    None => None,
                },
        ),
    )
}

/// The well-formed actions of a block, with the indices of transaction and action.
pub open spec fn block_actions(vtx: Seq<CompactTx>) -> Seq<(int, int, ActionParts)>
    decreases vtx.len(),
{
    if vtx.len() == 0 {
        Seq::empty()
    } else {
        block_actions(vtx.drop_last()) + tx_actions(
            vtx.len() - 1,
            vtx.last().actions@,
            vtx.last().actions@.len(),
        )
    }
}

/// The well-formed outputs of the first `n` in a transaction, with where they stand.
pub open spec fn tx_outputs(ti: int, outputs: Seq<CompactSaplingOutput>, start: nat, n: nat) -> Seq<
    (int, int, nat, CompactParts),
> {
    collect_some(
        Seq::new(
            n,
            |oi: int|
                match sapling_compact_parts(outputs[oi]) {
                    Some(parts) => Some((ti, oi, (start + oi) as nat, parts)),
                    None => None,
                },
        ),
    )
}

/// The well-formed outputs of a block whose first output stands at `start` in the tree,
/// with the indices of transaction and output and the position.
pub open spec fn block_outputs(vtx: Seq<CompactTx>, start: nat) -> Seq<(int, int, nat, CompactParts)>
    decreases vtx.len(),
{
    if vtx.len() == 0 {
        Seq::empty()
    } else {
        block_outputs(vtx.drop_last(), start) + tx_outputs(
            vtx.len() - 1,
            vtx.last().outputs@,
            start + sapling_count(vtx.drop_last()),
            vtx.last().outputs@.len(),
        )
    }
}

/// What is found in an action.
pub open spec fn orchard_incoming(
    height: u32,
    vtx: Seq<CompactTx>,
    ivk: Seq<u8>,
    fvk: Option<Seq<u8>>,
    entry: (int, int, ActionParts),
) -> Option<IncomingNoteView> {
    match orchard_compact_note(ivk, entry.2) {
        Some(note) => Some(
            IncomingNoteView {
                height,
                tx_id: txid_of(vtx[entry.0].txid@),
                output_index: entry.1 as usize,
                pool: ShieldedPool::Orchard,
                value_zat: note.value,
                recipient: Recipient::Orchard(note.recipient),
                rseed: note.rseed,
                rho: Some(array32(entry.2.nullifier)),
                sapling_leaf_pos: None,
                nullifier: match fvk {
                    Some(key) => Some(orchard_nullifier_of(key, note)),
                    None => None,
                },
            },
        ),
        None => None,
    }
}

/// What is found in an output. Its position is told where the outputs are counted.
pub open spec fn sapling_incoming(
    height: u32,
    vtx: Seq<CompactTx>,
    ivk: Seq<u8>,
    nk: Option<(Seq<u8>, Scope)>,
    placed: bool,
    entry: (int, int, nat, CompactParts),
) -> Option<IncomingNoteView> {
    match sapling_compact_note(ivk, Zip212Enforcement::On, entry.3) {
        Some(note) => Some(
            IncomingNoteView {
                height,
                tx_id: txid_of(vtx[entry.0].txid@),
                output_index: entry.1 as usize,
                pool: ShieldedPool::Sapling,
                value_zat: note.value,
                recipient: Recipient::Sapling(note.recipient),
                rseed: rseed_of(note),
                rho: None,
                sapling_leaf_pos: if placed {
                    Some(entry.2 as u64)
                } else {
                    None
                },
                nullifier: match nk {
                    Some(key) => Some(sapling_nullifier_of(key, note, entry.2 as u64)),
                    None => None,
                },
            },
        ),
        None => None,
    }
}

/// The Orchard notes of a block.
pub open spec fn orchard_block_notes(
    block: CompactBlock,
    ivk: Option<Seq<u8>>,
    fvk: Option<Seq<u8>>,
) -> Seq<IncomingNoteView> {
    match ivk {
        Some(key) => collect_some(
            block_actions(block.vtx@).map_values(
                |e: (int, int, ActionParts)|
                    orchard_incoming(block.height as u32, block.vtx@, key, fvk, e),
            ),
        ),
        None => Seq::empty(),
    }
}

/// The Sapling notes of a block.
pub open spec fn sapling_block_notes(
    block: CompactBlock,
    ivk: Option<Seq<u8>>,
    nk: Option<(Seq<u8>, Scope)>,
    placed: bool,
    start: nat,
) -> Seq<IncomingNoteView> {
    match ivk {
        Some(key) => collect_some(
            block_outputs(block.vtx@, start).map_values(
                |e: (int, int, nat, CompactParts)|
                    sapling_incoming(block.height as u32, block.vtx@, key, nk, placed, e),
            ),
        ),
        None => Seq::empty(),
    }
}

/// Appends the well-formed actions of a transaction.
fn list_tx_actions(
    ti: usize,
    actions: &Vec<CompactOrchardAction>,
    places: &mut Vec<(usize, usize)>,
    parsed: &mut Vec<OrchardCompactAction>,
)
    requires
        old(places).len() == old(parsed).len(),
    ensures
        final(places).len() == final(parsed).len(),
        action_entries(final(places)@, final(parsed)@) == action_entries(
            old(places)@,
            old(parsed)@,
        ) + tx_actions(ti as int, actions@, actions@.len()),
{
    let ghost all = Seq::new(
        actions@.len(),
        |ai: int|
            match orchard_compact_parts(actions@[ai]) {
                Some(parts) => Some((ti as int, ai, parts)),
                None => None,
            },
    );
    let ghost start = action_entries(places@, parsed@);
    let mut ai: usize = 0;
    assert(start =~= start + collect_some(all.take(0)));
    while ai < actions.len()
        invariant
            0 <= ai <= actions.len(),
            places.len() == parsed.len(),
            all == Seq::new(
                actions@.len(),
                |ai: int|
                    match orchard_compact_parts(actions@[ai]) {
                        Some(parts) => Some((ti as int, ai, parts)),
                        None => None,
                    },
            ),
            action_entries(places@, parsed@) == start + collect_some(all.take(ai as int)),
        decreases actions.len() - ai,
    {
        proof {
            lemma_collect_push(all.take(ai as int), all[ai as int]);
            assert(all.take(ai as int + 1) =~= all.take(ai as int).push(all[ai as int]));
        }
        if let Some(action) = parse_compact_orchard(&actions[ai]) {
            let ghost p0 = places@;
            let ghost a0 = parsed@;
            places.push((ti, ai));
            parsed.push(action);
            assert(action_entries(places@, parsed@) =~= action_entries(p0, a0).push(
                (ti as int, ai as int, action@),
            ));
            assert(action_entries(places@, parsed@) =~= start + collect_some(
                all.take(ai as int + 1),
            ));
        }
        ai = ai + 1;
    }
    assert(all.take(ai as int) =~= all);
}

/// Actions with where they stand.
spec fn action_entries(places: Seq<(usize, usize)>, parsed: Seq<OrchardCompactAction>) -> Seq<
    (int, int, ActionParts),
> {
    Seq::new(
        places.len(),
        |i: int| (places[i].0 as int, places[i].1 as int, parsed[i]@),
    )
}

/// Finds the Orchard notes of a block, and appends them.
pub fn find_orchard_notes(
    block: &CompactBlock,
    ivk: Option<&OrchardIvk>,
    fvk: Option<&OrchardFvk>,
    notes: &mut Vec<IncomingNoteView>,
)
    ensures
        final(notes)@ == old(notes)@ + orchard_block_notes(
            *block,
            match ivk {
                Some(k) => Some(k@),
                None => None,
            },
            match fvk {
                Some(k) => Some(k@),
                None => None,
            },
        ),
{
    let key = match ivk {
        Some(key) => key,
        None => {
            assert(notes@ =~= notes@ + Seq::<IncomingNoteView>::empty());
            return ;
        },
    };
    let ghost fvk_view = match fvk {
        Some(k) => Some(k@),
        None => None,
    };
    let ghost vtx = block.vtx@;
    let mut places: Vec<(usize, usize)> = Vec::new();
    let mut parsed: Vec<OrchardCompactAction> = Vec::new();
    let mut ti: usize = 0;
    assert(vtx.take(0) =~= Seq::empty());
    assert(action_entries(places@, parsed@) =~= Seq::empty());
    while ti < block.vtx.len()
        invariant
            0 <= ti <= block.vtx.len(),
            vtx == block.vtx@,
            places.len() == parsed.len(),
            action_entries(places@, parsed@) == block_actions(vtx.take(ti as int)),
        decreases block.vtx.len() - ti,
    {
        proof {
            assert(vtx.take(ti as int + 1).drop_last() =~= vtx.take(ti as int));
        }
        list_tx_actions(ti, &block.vtx[ti].actions, &mut places, &mut parsed);
        ti = ti + 1;
    }
    assert(vtx.take(ti as int) =~= vtx);
    let ghost entries = block_actions(vtx);
    #[verifier::truncate]
    let height: u32 = block.height as u32;
    let ghost all = entries.map_values(
        |e: (int, int, ActionParts)|
            orchard_incoming(block.height as u32, vtx, key@, fvk_view, e),
    );
    let found = try_compact_orchard(key, &parsed);
    let mut i: usize = 0;
    assert(notes@ =~= notes@ + collect_some(all.take(0)));
    proof {
        lemma_entry_places(vtx);
    }
    while i < found.len()
        invariant
            0 <= i <= found.len(),
            vtx == block.vtx@,
            height == block.height as u32,
            found.len() == parsed.len(),
            places.len() == parsed.len(),
            entries == action_entries(places@, parsed@),
            forall|j: int|
                0 <= j < entries.len() ==> 0 <= (#[trigger] entries[j]).0 < vtx.len()
                    && entries[j].2.nullifier.len() == 32,
            fvk_view == (match fvk {
                Some(k) => Some(k@),
                None => None,
            }),
            all == entries.map_values(
                |e: (int, int, ActionParts)|
                    orchard_incoming(block.height as u32, vtx, key@, fvk_view, e),
            ),
            forall|j: int|
                0 <= j < found.len() ==> #[trigger] found[j] == (match orchard_compact_note(
                    key@,
                    parsed[j]@,
                ) {
                    Some(note) => Some((note, note.recipient)),
                    None => None,
                }),
            notes@ == old(notes)@ + collect_some(all.take(i as int)),
        decreases found.len() - i,
    {
        proof {
            lemma_collect_push(all.take(i as int), all[i as int]);
            assert(all.take(i as int + 1) =~= all.take(i as int).push(all[i as int]));
            assert(entries[i as int] == (
                places@[i as int].0 as int,
                places@[i as int].1 as int,
                parsed@[i as int]@,
            ));
        }
        if let Some((note, recipient)) = found[i] {
            let (ti, ai) = places[i];
            assert(orchard_compact_note(key@, parsed[i as int]@) == Some(note));
            assert(orchard_note_found(note));
            let nullifier = match fvk {
                Some(k) => Some(orchard_nullifier(k, &note)),
                None => None,
            };
            let rho = parsed[i].nullifier();
            proof {
                lemma_array32(rho);
            }
            notes.push(
                IncomingNoteView {
                    height,
                    tx_id: txid_bytes(block.vtx[ti].txid.as_slice()),
                    output_index: ai,
                    pool: ShieldedPool::Orchard,
                    value_zat: note.value,
                    recipient: Recipient::Orchard(recipient),
                    rseed: note.rseed,
                    rho: Some(rho),
                    sapling_leaf_pos: None,
                    nullifier,
                },
            );
            assert(notes@ =~= old(notes)@ + collect_some(all.take(i as int + 1)));
        }
        i = i + 1;
    }
    assert(all.take(i as int) =~= all);
}

/// The entries of a block stand in its transactions.
proof fn lemma_entry_places(vtx: Seq<CompactTx>)
    ensures
        forall|j: int|
            0 <= j < block_actions(vtx).len() ==> 0 <= (#[trigger] block_actions(vtx)[j]).0 < vtx.len()
                && block_actions(vtx)[j].2.nullifier.len() == 32,
    decreases vtx.len(),
{
    if vtx.len() > 0 {
        lemma_entry_places(vtx.drop_last());
        let ti = vtx.len() - 1;
        let actions = vtx.last().actions@;
        let all = Seq::new(
            actions.len(),
            |ai: int|
                match orchard_compact_parts(actions[ai]) {
                    Some(parts) => Some((ti, ai, parts)),
                    None => None,
                },
        );
        let before = block_actions(vtx.drop_last());
        assert forall|j: int| 0 <= j < block_actions(vtx).len() implies 0 <= (
        #[trigger] block_actions(vtx)[j]).0 < vtx.len() && block_actions(vtx)[j].2.nullifier.len()
            == 32 by {
            if j < before.len() {
                assert(block_actions(vtx)[j] == before[j]);
            } else {
                crate::seqs::lemma_collect_from(all, j - before.len());
            }
        }
    }
}

/// Outputs with where they stand.
spec fn output_entries(
    places: Seq<(usize, usize)>,
    positions: Seq<nat>,
    parsed: Seq<SaplingCompactOutput>,
) -> Seq<(int, int, nat, CompactParts)> {
    Seq::new(
        places.len(),
        |i: int| (places[i].0 as int, places[i].1 as int, positions[i], parsed[i]@),
    )
}

/// Appends the well-formed outputs of a transaction whose first output stands at `start`
/// in the tree, and tells their positions.
fn list_tx_outputs(
    ti: usize,
    outputs: &Vec<CompactSaplingOutput>,
    start: Ghost<nat>,
    places: &mut Vec<(usize, usize)>,
    parsed: &mut Vec<SaplingCompactOutput>,
    positions: Ghost<Seq<nat>>,
) -> (told: Ghost<Seq<nat>>)
    requires
        old(places).len() == old(parsed).len(),
        positions@.len() == old(places).len(),
    ensures
        final(places).len() == final(parsed).len(),
        told@.len() == final(places).len(),
        output_entries(final(places)@, told@, final(parsed)@) == output_entries(
            old(places)@,
            positions@,
            old(parsed)@,
        ) + tx_outputs(ti as int, outputs@, start@, outputs@.len()),
{
    let ghost all = Seq::new(
        outputs@.len(),
        |oi: int|
            match sapling_compact_parts(outputs@[oi]) {
                Some(parts) => Some((ti as int, oi, (start@ + oi) as nat, parts)),
                None => None,
            },
    );
    let ghost begin = output_entries(places@, positions@, parsed@);
    let ghost mut told: Seq<nat> = positions@;
    let mut oi: usize = 0;
    assert(begin =~= begin + collect_some(all.take(0)));
    while oi < outputs.len()
        invariant
            0 <= oi <= outputs.len(),
            places.len() == parsed.len(),
            told.len() == places.len(),
            all == Seq::new(
                outputs@.len(),
                |oi: int|
                    match sapling_compact_parts(outputs@[oi]) {
                        Some(parts) => Some((ti as int, oi, (start@ + oi) as nat, parts)),
                        None => None,
                    },
            ),
            output_entries(places@, told, parsed@) == begin + collect_some(all.take(oi as int)),
        decreases outputs.len() - oi,
    {
        proof {
            lemma_collect_push(all.take(oi as int), all[oi as int]);
            assert(all.take(oi as int + 1) =~= all.take(oi as int).push(all[oi as int]));
        }
        if let Some(output) = parse_compact_sapling(&outputs[oi]) {
            let ghost p0 = places@;
            let ghost t0 = told;
            let ghost a0 = parsed@;
            places.push((ti, oi));
            parsed.push(output);
            proof {
                told = told.push((start@ + oi) as nat);
                assert(output_entries(places@, told, parsed@) =~= output_entries(p0, t0, a0).push(
                    (ti as int, oi as int, (start@ + oi) as nat, output@),
                ));
                assert(output_entries(places@, told, parsed@) =~= begin + collect_some(
                    all.take(oi as int + 1),
                ));
            }
        }
        oi = oi + 1;
    }
    assert(all.take(oi as int) =~= all);
    Ghost(told)
}

/// Finds the Sapling notes of a block whose first output stands at `start` in the tree,
/// and appends them. Positions are told where `placed`, and nullifiers where `nk` is given.
pub fn find_sapling_notes(
    block: &CompactBlock,
    ivk: Option<&SaplingIvk>,
    nk: Option<&SaplingNk>,
    placed: bool,
    start: u64,
    notes: &mut Vec<IncomingNoteView>,
)
    requires
        nk is Some ==> placed,
        placed ==> start + sapling_count(block.vtx@) <= u64::MAX,
    ensures
        final(notes)@ == old(notes)@ + sapling_block_notes(
            *block,
            match ivk {
                Some(k) => Some(k@),
                None => None,
            },
            match nk {
                Some(k) => Some(k@),
                None => None,
            },
            placed,
            start as nat,
        ),
{
    let key = match ivk {
        Some(key) => key,
        None => {
            assert(notes@ =~= notes@ + Seq::<IncomingNoteView>::empty());
            return ;
        },
    };
    let ghost nk_view = match nk {
        Some(k) => Some(k@),
        None => None,
    };
    let ghost vtx = block.vtx@;
    let mut places: Vec<(usize, usize)> = Vec::new();
    let mut parsed: Vec<SaplingCompactOutput> = Vec::new();
    let ghost mut told: Seq<nat> = Seq::empty();
    let mut firsts: Vec<u64> = Vec::new();
    let mut first: u64 = start;
    let mut ti: usize = 0;
    assert(vtx.take(0) =~= Seq::empty());
    assert(output_entries(places@, told, parsed@) =~= Seq::empty());
    while ti < block.vtx.len()
        invariant
            0 <= ti <= block.vtx.len(),
            vtx == block.vtx@,
            places.len() == parsed.len(),
            told.len() == places.len(),
            firsts.len() == ti,
            nk is Some ==> placed,
            placed ==> start + sapling_count(vtx) <= u64::MAX,
            placed ==> first == start + sapling_count(vtx.take(ti as int)),
            placed ==> forall|j: int|
                0 <= j < ti ==> (#[trigger] firsts[j]) == start + sapling_count(vtx.take(j)),
            output_entries(places@, told, parsed@) == block_outputs(vtx.take(ti as int), start as nat),
        decreases block.vtx.len() - ti,
    {
        proof {
            assert(vtx.take(ti as int + 1).drop_last() =~= vtx.take(ti as int));
            lemma_counts_grow(vtx, ti as int);
        }
        let more = list_tx_outputs(
            ti,
            &block.vtx[ti].outputs,
            Ghost(start as nat + sapling_count(vtx.take(ti as int))),
            &mut places,
            &mut parsed,
            Ghost(told),
        );
        proof {
            told = more@;
        }
        firsts.push(first);
        if placed {
            first = first + block.vtx[ti].outputs.len() as u64;
        }
        ti = ti + 1;
    }
    assert(vtx.take(ti as int) =~= vtx);
    let ghost entries = block_outputs(vtx, start as nat);
    #[verifier::truncate]
    let height: u32 = block.height as u32;
    let ghost all = entries.map_values(
        |e: (int, int, nat, CompactParts)|
            sapling_incoming(block.height as u32, vtx, key@, nk_view, placed, e),
    );
    let found = try_compact_sapling(key, &parsed);
    let mut i: usize = 0;
    assert(notes@ =~= notes@ + collect_some(all.take(0)));
    proof {
        lemma_output_places(vtx, start as nat);
    }
    while i < found.len()
        invariant
            0 <= i <= found.len(),
            vtx == block.vtx@,
            height == block.height as u32,
            found.len() == parsed.len(),
            places.len() == parsed.len(),
            told.len() == places.len(),
            firsts.len() == vtx.len(),
            entries == output_entries(places@, told, parsed@),
            nk is Some ==> placed,
            placed ==> start + sapling_count(vtx) <= u64::MAX,
            placed ==> forall|j: int|
                0 <= j < vtx.len() ==> (#[trigger] firsts[j]) == start + sapling_count(vtx.take(j)),
            forall|j: int|
                0 <= j < entries.len() ==> {
                    let e = #[trigger] entries[j];
                    &&& 0 <= e.0 < vtx.len()
                    &&& e.2 == start + sapling_count(vtx.take(e.0)) + e.1
                    &&& 0 <= e.1
                    &&& e.2 < start + sapling_count(vtx)
                },
            nk_view == (match nk {
                Some(k) => Some(k@),
                None => None,
            }),
            all == entries.map_values(
                |e: (int, int, nat, CompactParts)|
                    sapling_incoming(block.height as u32, vtx, key@, nk_view, placed, e),
            ),
            forall|j: int|
                0 <= j < found.len() ==> #[trigger] found[j] == (match sapling_compact_note(
                    key@,
                    Zip212Enforcement::On,
                    parsed[j]@,
                ) {
                    Some(note) => Some((note, note.recipient)),
                    None => None,
                }),
            notes@ == old(notes)@ + collect_some(all.take(i as int)),
        decreases found.len() - i,
    {
        proof {
            lemma_collect_push(all.take(i as int), all[i as int]);
            assert(all.take(i as int + 1) =~= all.take(i as int).push(all[i as int]));
            assert(entries[i as int] == (
                places@[i as int].0 as int,
                places@[i as int].1 as int,
                told[i as int],
                parsed@[i as int]@,
            ));
        }
        if let Some((note, recipient)) = found[i] {
            let (ti, oi) = places[i];
            assert(sapling_compact_note(key@, Zip212Enforcement::On, parsed[i as int]@) == Some(
                note,
            ));
            assert(sapling_note_found(note));
            let mut sapling_leaf_pos: Option<u64> = None;
            let mut nullifier: Option<[u8; 32]> = None;
            if placed {
                let position: u64 = firsts[ti] + oi as u64;
                sapling_leaf_pos = Some(position);
                if let Some(k) = nk {
                    nullifier = Some(sapling_nullifier(k, &note, position));
                }
            }
            notes.push(
                IncomingNoteView {
                    height,
                    tx_id: txid_bytes(block.vtx[ti].txid.as_slice()),
                    output_index: oi,
                    pool: ShieldedPool::Sapling,
                    value_zat: note.value,
                    recipient: Recipient::Sapling(recipient),
                    rseed: rseed_bytes_sapling(&note),
                    rho: None,
                    sapling_leaf_pos,
                    nullifier,
                },
            );
            assert(notes@ =~= old(notes)@ + collect_some(all.take(i as int + 1)));
        }
        i = i + 1;
    }
    assert(all.take(i as int) =~= all);
}

/// The entries of a block stand in its transactions, at the positions that counting
/// gives.
proof fn lemma_output_places(vtx: Seq<CompactTx>, start: nat)
    ensures
        forall|j: int|
            0 <= j < block_outputs(vtx, start).len() ==> {
                let e = #[trigger] block_outputs(vtx, start)[j];
                &&& 0 <= e.0 < vtx.len()
                &&& e.2 == start + sapling_count(vtx.take(e.0)) + e.1
                &&& 0 <= e.1
                &&& e.2 < start + sapling_count(vtx)
            },
    decreases vtx.len(),
{
    if vtx.len() > 0 {
        let init = vtx.drop_last();
        lemma_output_places(init, start);
        let ti = vtx.len() - 1;
        let outputs = vtx.last().outputs@;
        let first = start + sapling_count(init);
        let all = Seq::new(
            outputs.len(),
            |oi: int|
                match sapling_compact_parts(outputs[oi]) {
                    Some(parts) => Some((ti, oi, (first + oi) as nat, parts)),
                    None => None,
                },
        );
        let before = block_outputs(init, start);
        let after = block_outputs(vtx, start);
        assert(vtx.take(ti) =~= init);
        assert forall|j: int| 0 <= j < after.len() implies {
            let e = #[trigger] after[j];
            &&& 0 <= e.0 < vtx.len()
            &&& e.2 == start + sapling_count(vtx.take(e.0)) + e.1
            &&& 0 <= e.1
            &&& e.2 < start + sapling_count(vtx)
        } by {
            if j < before.len() {
                assert(after[j] == before[j]);
                assert(init.take(before[j].0) =~= vtx.take(before[j].0));
            } else {
                crate::seqs::lemma_collect_from(all, j - before.len());
            }
        }
    }
}

} // verus!
