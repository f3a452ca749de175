//! Blocks in bounded chunks, and unspent transparent outputs as the server reports them.

use vstd::prelude::*;
use vstd::string::*;

use crate::bytes::{array32, copy_bytes, lemma_array32, same_bytes, to_array};
use crate::proto::{CompactBlock, GetAddressUtxosReply};
use crate::seqs::{collect_some, lemma_collect_push};
use crate::sync::scan::{lemma_counts_grow, orchard_count, sapling_count};
use crate::text::{append_decimal, decimal};

verus! {

/// The public zec.rocks endpoint.
pub const ZEC_ROCKS: &'static str = "https://zec.rocks:443";

/// An unspent transparent output.
#[derive(Debug, Clone, PartialEq, Eq)]
pub struct TransparentUtxo {
    /// The Base58Check encoding of the address that it pays.
    pub address: String,
    /// The transaction that made it.
    pub txid: [u8; 32],
    /// The output's index in that transaction.
    pub index: u32,
    /// The locking script.
    pub script: Vec<u8>,
    /// Value in zatoshis.
    pub value_zat: u64,
    /// The height at which it was made.
    pub height: u32,
}

/// What an unspent output holds.
pub struct UtxoView {
    /// The encoding of the address that it pays.
    pub address: Seq<char>,
    /// The transaction that made it.
    pub txid: [u8; 32],
    /// The output's index in that transaction.
    pub index: u32,
    /// The locking script.
    pub script: Seq<u8>,
    /// Value in zatoshis.
    pub value_zat: u64,
    /// The height at which it was made.
    pub height: u32,
}

impl TransparentUtxo {
    /// What the output holds.
    pub open spec fn view(&self) -> UtxoView {
        UtxoView {
            address: self.address@,
            txid: self.txid,
            index: self.index,
            script: self.script@,
            value_zat: self.value_zat,
            height: self.height,
        }
    }

    /// The output that the server reports; one whose transaction id is not 32 bytes is
    /// refused.
    pub fn try_from(r: GetAddressUtxosReply) -> (result: Result<Self, ChainError>)
        ensures
            match result {
                Ok(utxo) => Some(utxo@) == utxo_of(r),
                Err(e) => utxo_of(r) is None && e == ChainError::Txid,
            },
    {
        let txid: [u8; 32] = match to_array(r.txid.as_slice()) {
            Some(txid) => txid,
            None => return Err(ChainError::Txid),
        };
        proof {
            lemma_array32(txid);
        }
        #[verifier::truncate]
        let index: u32 = r.index as u32;
        #[verifier::truncate]
        let value_zat: u64 = r.value_zat as u64;
        #[verifier::truncate]
        let height: u32 = r.height as u32;
        Ok(TransparentUtxo { address: r.address, txid, index, script: r.script, value_zat, height })
    }
}

/// What outputs hold.
pub open spec fn utxo_views(list: Seq<TransparentUtxo>) -> Seq<UtxoView> {
    list.map_values(|u: TransparentUtxo| u@)
}

/// The output that the server reports, where its transaction id has 32 bytes.
pub open spec fn utxo_of(r: GetAddressUtxosReply) -> Option<UtxoView> {
    if r.txid@.len() == 32 {
        Some(
            UtxoView {
                address: r.address@,
                txid: array32(r.txid@),
                index: r.index as u32,
                script: r.script@,
                value_zat: r.value_zat as u64,
                height: r.height as u32,
            },
        )
    } else {
        None
    }
}

/// Why a chain operation failed.
#[derive(Debug, Clone, Copy, PartialEq, Eq)]
pub enum ChainError {
    /// A block does not name the block before it as its predecessor.
    Reorg {
        /// The block's height.
        height: u64,
    },
    /// A transaction id is not 32 bytes long.
    Txid,
}

impl ChainError {
    /// The error in words.
    pub fn to_text(&self) -> (text: String)
        ensures
            text@ == (match *self {
                ChainError::Reorg { height } => "chain reorganization at height "@ + decimal(
                    height as nat,
                ),
                ChainError::Txid => "txid not 32 bytes"@,
            }),
    {
        match *self {
            ChainError::Reorg { height } => {
                let mut text = "chain reorganization at height ".to_owned();
                append_decimal(&mut text, height);
                text
            },
            ChainError::Txid => "txid not 32 bytes".to_owned(),
        }
    }
}

/// How many Sapling outputs and Orchard actions a block holds.
pub open spec fn outputs_of(block: CompactBlock) -> nat {
    sapling_count(block.vtx@) + orchard_count(block.vtx@)
}

/// How many Sapling outputs and Orchard actions some blocks hold.
pub open spec fn outputs_in(blocks: Seq<CompactBlock>) -> nat
    decreases blocks.len(),
{
    if blocks.len() == 0 {
        0
    } else {
        outputs_in(blocks.drop_last()) + outputs_of(blocks.last())
    }
}

/// Blocks cut into chunks: the chunks that are full, and the one under way.
pub struct ChunksView {
    /// The most outputs that a chunk of more than one block holds.
    pub max_outputs: nat,
    /// The full chunks.
    pub full: Seq<Seq<CompactBlock>>,
    /// The chunk under way.
    pub open: Seq<CompactBlock>,
    /// The hash of the last block.
    pub prev_hash: Option<Seq<u8>>,
}

/// Whether a block connects to the last one: it names that one as its predecessor.
pub open spec fn connects(prev_hash: Option<Seq<u8>>, block: CompactBlock) -> bool {
    prev_hash is Some ==> block.prev_hash@ == prev_hash->0
}

/// The chunks with one more block. The chunk under way is closed before a block that
/// would take it over the limit.
pub open spec fn pushed(chunks: ChunksView, block: CompactBlock) -> ChunksView {
    if outputs_in(chunks.open) + outputs_of(block) > chunks.max_outputs && chunks.open.len() > 0 {
        ChunksView {
            full: chunks.full.push(chunks.open),
            open: seq![block],
            prev_hash: Some(block.hash@),
            ..chunks
        }
    } else {
        ChunksView { open: chunks.open.push(block), prev_hash: Some(block.hash@), ..chunks }
    }
}

/// All chunks, the one under way last.
pub open spec fn finished(chunks: ChunksView) -> Seq<Seq<CompactBlock>> {
    if chunks.open.len() > 0 {
        chunks.full.push(chunks.open)
    } else {
        chunks.full
    }
}

/// What lists of blocks hold.
pub open spec fn chunk_views(chunks: Seq<Vec<CompactBlock>>) -> Seq<Seq<CompactBlock>> {
    chunks.map_values(|chunk: Vec<CompactBlock>| chunk@)
}

/// Cuts a stream of blocks into chunks of bounded size.
#[derive(Debug)]
pub struct BlockChunks {
    max_outputs: usize,
    chunks: Vec<Vec<CompactBlock>>,
    chunk: Vec<CompactBlock>,
    output_count: Option<usize>,
    prev_hash: Option<Vec<u8>>,
}

/// A count, where it fits.
spec fn fitting(count: nat) -> Option<usize> {
    if count <= usize::MAX {
        Some(count as usize)
    } else {
        None
    }
}

/// Adds two counts, where the sum fits.
fn plus(a: Option<usize>, b: Option<usize>) -> (sum: Option<usize>)
    ensures
        forall|m: nat, n: nat|
            a == fitting(m) && b == fitting(n) ==> sum == #[trigger] fitting(m + n),
{
    match (a, b) {
        (Some(m), Some(n)) => m.checked_add(n),
        _ => None,
    }
}

/// Counts the Sapling outputs and Orchard actions of a block, where the count fits.
fn count_outputs(block: &CompactBlock) -> (n: Option<usize>)
    ensures
        n == fitting(outputs_of(*block)),
{
    let mut n: Option<usize> = Some(0);
    let mut t: usize = 0;
    assert(block.vtx@.take(0) =~= Seq::empty());
    while t < block.vtx.len()
        invariant
            0 <= t <= block.vtx.len(),
            n == fitting(
                sapling_count(block.vtx@.take(t as int)) + orchard_count(block.vtx@.take(t as int)),
            ),
        decreases block.vtx.len() - t,
    {
        proof {
            lemma_counts_grow(block.vtx@, t as int);
        }
        let outputs: usize = block.vtx[t].outputs.len();
        let actions: usize = block.vtx[t].actions.len();
        let ghost before = sapling_count(block.vtx@.take(t as int)) + orchard_count(
            block.vtx@.take(t as int),
        );
        assert(Some(outputs) == fitting(outputs as nat));
        assert(Some(actions) == fitting(actions as nat));
        n = plus(n, Some(outputs));
        assert(n == fitting(before + outputs as nat));
        n = plus(n, Some(actions));
        assert(n == fitting(before + outputs as nat + actions as nat));
        t = t + 1;
    }
    assert(block.vtx@.take(t as int) =~= block.vtx@);
    n
}

impl BlockChunks {
    /// The chunks, as plain values.
    pub closed spec fn view(&self) -> ChunksView {
        ChunksView {
            max_outputs: self.max_outputs as nat,
            full: chunk_views(self.chunks@),
            open: self.chunk@,
            prev_hash: match self.prev_hash {
                Some(hash) => Some(hash@),
                None => None,
            },
        }
    }

    /// The count is that of the chunk under way.
    pub closed spec fn wf(&self) -> bool {
        self.output_count == fitting(outputs_in(self.chunk@))
    }

    /// No blocks yet.
    pub fn new(max_outputs: usize) -> (chunks: BlockChunks)
        ensures
            chunks.wf(),
            chunks@ == (ChunksView {
                max_outputs: max_outputs as nat,
                full: Seq::empty(),
                open: Seq::empty(),
                prev_hash: None,
            }),
    {
        let chunks = BlockChunks {
            max_outputs,
            chunks: Vec::new(),
            chunk: Vec::new(),
            output_count: Some(0),
            prev_hash: None,
        };
        assert(chunks@.full =~= Seq::empty());
        chunks
    }

    /// No blocks yet; the first one must connect to a block with the hash.
    pub fn after(max_outputs: usize, prev_hash: Vec<u8>) -> (chunks: BlockChunks)
        ensures
            chunks.wf(),
            chunks@ == (ChunksView {
                max_outputs: max_outputs as nat,
                full: Seq::empty(),
                open: Seq::empty(),
                prev_hash: Some(prev_hash@),
            }),
    {
        let mut chunks = BlockChunks::new(max_outputs);
        chunks.prev_hash = Some(prev_hash);
        chunks
    }

    /// Hands over the full chunks.
    pub fn take_full(&mut self) -> (full: Vec<Vec<CompactBlock>>)
        requires
            old(self).wf(),
        ensures
            final(self).wf(),
            chunk_views(full@) == old(self)@.full,
            final(self)@ == (ChunksView { full: Seq::empty(), ..old(self)@ }),
    {
        let mut full: Vec<Vec<CompactBlock>> = Vec::new();
        core::mem::swap(&mut full, &mut self.chunks);
        assert(chunk_views(self.chunks@) =~= Seq::empty());
        full
    }

    /// Takes the next block. One that does not connect to the last is refused.
    pub fn push(&mut self, block: CompactBlock) -> (result: Result<(), ChainError>)
        requires
            old(self).wf(),
        ensures
            final(self).wf(),
            result == (if connects(old(self)@.prev_hash, block) {
                Ok::<(), ChainError>(())
            } else {
                Err(ChainError::Reorg { height: block.height })
            }),
            final(self)@ == (if result is Ok {
                pushed(old(self)@, block)
            } else {
                old(self)@
            }),
    {
        if let Some(hash) = &self.prev_hash {
            if !same_bytes(block.prev_hash.as_slice(), hash.as_slice()) {
                return Err(ChainError::Reorg { height: block.height });
            }
        }
        let outputs: Option<usize> = count_outputs(&block);
        let ghost before = self@;
        let mut chunk: Vec<CompactBlock> = Vec::new();
        let mut count: Option<usize> = plus(self.output_count, outputs);
        assert(count == fitting(outputs_in(before.open) + outputs_of(block)));
        core::mem::swap(&mut chunk, &mut self.chunk);
        let over: bool = match count {
            Some(n) => n > self.max_outputs,
            None => true,
        };
        if over && chunk.len() > 0 {
            self.chunks.push(chunk);
            assert(chunk_views(self.chunks@) =~= before.full.push(before.open));
            chunk = Vec::new();
            count = outputs;
        }
        let prev_hash = Some(copy_bytes(&block.hash));
        let ghost blocks = chunk@;
        chunk.push(block);
        assert(chunk@.last() == block);
        assert(chunk@.drop_last() =~= blocks);
        assert(outputs_in(chunk@) == outputs_in(blocks) + outputs_of(block));
        core::mem::swap(&mut chunk, &mut self.chunk);
        self.output_count = count;
        self.prev_hash = prev_hash;
        assert(self@.open =~= pushed(before, block).open);
        Ok(())
    }

    /// The chunks, after the last block.
    pub fn finish(self) -> (chunks: Vec<Vec<CompactBlock>>)
        ensures
            chunk_views(chunks@) == finished(self@),
    {
        let mut chunks = self.chunks;
        let ghost before = chunks@;
        if self.chunk.len() > 0 {
            chunks.push(self.chunk);
            assert(chunk_views(chunks@) =~= chunk_views(before).push(self.chunk@));
        }
        chunks
    }
}

/// Chunks are in order: the full ones hold at least one block each and no more outputs
/// than the limit, unless they are a single block, and so does the one under way.
pub open spec fn well_cut(chunks: ChunksView) -> bool {
    &&& forall|i: int|
        0 <= i < chunks.full.len() ==> (#[trigger] chunks.full[i]).len() > 0 && (outputs_in(
            chunks.full[i],
        ) <= chunks.max_outputs || chunks.full[i].len() == 1)
    &&& chunks.open.len() > 1 ==> outputs_in(chunks.open) <= chunks.max_outputs
}

/// Every chunk is bounded: taking a block keeps the chunks in order.
pub proof fn law_chunks_are_bounded(chunks: ChunksView, block: CompactBlock)
    requires
        well_cut(chunks),
    ensures
        well_cut(pushed(chunks, block)),
{
    let after = pushed(chunks, block);
    if after.full.len() == chunks.full.len() {
        assert(after.open.drop_last() =~= chunks.open);
    }
    if chunks.open.len() == 1 {
        assert(chunks.open.drop_last() =~= Seq::empty());
    }
    assert forall|i: int| 0 <= i < after.full.len() implies (#[trigger] after.full[i]).len() > 0 && (
    outputs_in(after.full[i]) <= after.max_outputs || after.full[i].len() == 1) by {
        if i < chunks.full.len() {
            assert(after.full[i] == chunks.full[i]);
        }
    }
}

/// No block is lost, doubled or moved: the chunks together are the blocks that were taken,
/// in order.
pub proof fn law_chunks_keep_blocks(chunks: ChunksView, block: CompactBlock)
    ensures
        finished(pushed(chunks, block)).flatten() == finished(chunks).flatten().push(block),
{
    let full = chunks.full;
    let open = chunks.open;
    lemma_flatten_push(full, open);
    lemma_flatten_push(full.push(open), seq![block]);
    lemma_flatten_push(full, open.push(block));
    let after = pushed(chunks, block);
    assert(full.flatten() + open.push(block) =~= (full.flatten() + open).push(block));
    assert((full.flatten() + open) + seq![block] =~= (full.flatten() + open).push(block));
    if open.len() == 0 {
        assert(full.flatten() + open =~= full.flatten());
    }
}

/// The first block of a chunk's successor: of the next full one, or of the one under way.
pub open spec fn next_block(chunks: ChunksView, i: int) -> CompactBlock {
    if i + 1 < chunks.full.len() {
        chunks.full[i + 1][0]
    } else {
        chunks.open[0]
    }
}

/// Whether no chunk was closed early: the block that follows a full one would have taken it
/// over the limit.
pub open spec fn cut_late(chunks: ChunksView) -> bool {
    &&& chunks.full.len() > 0 ==> chunks.open.len() > 0
    &&& forall|i: int|
        0 <= i < chunks.full.len() ==> outputs_in(#[trigger] chunks.full[i]) + outputs_of(
            next_block(chunks, i),
        ) > chunks.max_outputs
}

/// No chunk is closed early: taking a block keeps the chunks as long as they can be.
pub proof fn law_chunks_are_not_cut_early(chunks: ChunksView, block: CompactBlock)
    requires
        cut_late(chunks),
    ensures
        cut_late(pushed(chunks, block)),
{
    let after = pushed(chunks, block);
    assert forall|i: int| 0 <= i < after.full.len() implies outputs_in(#[trigger] after.full[i])
        + outputs_of(next_block(after, i)) > after.max_outputs by {
        if i < chunks.full.len() {
            assert(after.full[i] == chunks.full[i]);
            assert(next_block(after, i) == next_block(chunks, i));
        }
    }
}

/// The chunks after some blocks were taken.
pub open spec fn all_pushed(chunks: ChunksView, blocks: Seq<CompactBlock>) -> ChunksView
    decreases blocks.len(),
{
    if blocks.len() == 0 {
        chunks
    } else {
        pushed(all_pushed(chunks, blocks.drop_last()), blocks.last())
    }
}

/// What taking each block keeps holds after all of them.
proof fn lemma_all_pushed(chunks: ChunksView, blocks: Seq<CompactBlock>)
    requires
        well_cut(chunks),
        cut_late(chunks),
    ensures
        well_cut(all_pushed(chunks, blocks)),
        cut_late(all_pushed(chunks, blocks)),
        all_pushed(chunks, blocks).max_outputs == chunks.max_outputs,
        finished(all_pushed(chunks, blocks)).flatten() == finished(chunks).flatten() + blocks,
    decreases blocks.len(),
{
    if blocks.len() == 0 {
        assert(finished(chunks).flatten() + blocks =~= finished(chunks).flatten());
    } else {
        let before = all_pushed(chunks, blocks.drop_last());
        lemma_all_pushed(chunks, blocks.drop_last());
        law_chunks_are_bounded(before, blocks.last());
        law_chunks_are_not_cut_early(before, blocks.last());
        law_chunks_keep_blocks(before, blocks.last());
        assert((finished(chunks).flatten() + blocks.drop_last()).push(blocks.last())
            =~= finished(chunks).flatten() + blocks);
    }
}

/// A stream is cut into chunks that together are its blocks, in order. Each holds a block, and
/// no more outputs than the limit unless it is a single block; and each but the last would have
/// passed the limit with the next block.
pub proof fn law_stream_is_cut_at_the_limit(
    max_outputs: nat,
    prev_hash: Option<Seq<u8>>,
    blocks: Seq<CompactBlock>,
)
    ensures
        ({
            let start = ChunksView {
                max_outputs,
                full: Seq::empty(),
                open: Seq::empty(),
                prev_hash,
            };
            let cut = finished(all_pushed(start, blocks));
            &&& cut.flatten() == blocks
            &&& forall|i: int|
                0 <= i < cut.len() ==> (#[trigger] cut[i]).len() > 0 && (outputs_in(cut[i])
                    <= max_outputs || cut[i].len() == 1)
            &&& forall|i: int|
                0 <= i < cut.len() - 1 ==> outputs_in(#[trigger] cut[i]) + outputs_of(cut[i + 1][0])
                    > max_outputs
        }),
{
    let start = ChunksView {
        max_outputs,
        full: Seq::empty(),
        open: Seq::empty(),
        prev_hash,
    };
    let after = all_pushed(start, blocks);
    let cut = finished(after);
    lemma_all_pushed(start, blocks);
    assert(finished(start) =~= Seq::empty());
    assert(Seq::<Seq<CompactBlock>>::empty().flatten() =~= Seq::empty());
    assert(Seq::<CompactBlock>::empty() + blocks =~= blocks);
    assert forall|i: int| 0 <= i < cut.len() implies (#[trigger] cut[i]).len() > 0 && (outputs_in(
        cut[i],
    ) <= max_outputs || cut[i].len() == 1) by {
        if i < after.full.len() {
            assert(cut[i] == after.full[i]);
        } else {
            assert(cut[i] == after.open);
        }
    }
    assert forall|i: int| 0 <= i < cut.len() - 1 implies outputs_in(#[trigger] cut[i]) + outputs_of(
        cut[i + 1][0],
    ) > max_outputs by {
        assert(cut[i] == after.full[i]);
        assert(cut[i + 1][0] == next_block(after, i));
    }
}

/// One more list at the end adds its items at the end.
proof fn lemma_flatten_push(lists: Seq<Seq<CompactBlock>>, last: Seq<CompactBlock>)
    ensures
        lists.push(last).flatten() == lists.flatten() + last,
{
    lists.push(last).lemma_flatten_and_flatten_alt_are_equivalent();
    lists.lemma_flatten_and_flatten_alt_are_equivalent();
    assert(lists.push(last).drop_last() =~= lists);
}

/// The outputs that the server reports, where every transaction id has 32 bytes.
pub open spec fn utxos_of(replies: Seq<GetAddressUtxosReply>) -> Seq<Option<UtxoView>> {
    replies.map_values(|r: GetAddressUtxosReply| utxo_of(r))
}

/// Whether outputs stand in the order of their heights.
pub open spec fn by_height(list: Seq<UtxoView>) -> bool {
    forall|i: int, j: int|
        0 <= i < j < list.len() ==> (#[trigger] list[i]).height <= (#[trigger] list[j]).height
}

/// The outputs made at a height.
pub open spec fn made_at(list: Seq<UtxoView>, height: u32) -> Seq<UtxoView> {
    list.filter(|u: UtxoView| u.height == height)
}

/// An output put where everything after it is higher comes last among those of its
/// height.
proof fn lemma_insert_by_height(list: Seq<UtxoView>, at: int, new: UtxoView, height: u32)
    requires
        0 <= at <= list.len(),
        forall|i: int| at <= i < list.len() ==> (#[trigger] list[i]).height > new.height,
    ensures
        made_at(list.insert(at, new), height) == made_at(list.push(new), height),
{
    let p = |u: UtxoView| u.height == height;
    let head = list.take(at);
    let tail = list.skip(at);
    assert(list =~= head + tail);
    assert(list.insert(at, new) =~= head.push(new) + tail);
    Seq::filter_distributes_over_add(head.push(new), tail, p);
    Seq::filter_distributes_over_add(head, tail, p);
    lemma_filter_pushed(head, new, p);
    lemma_filter_pushed(list, new, p);
    if new.height == height {
        lemma_filter_none(tail, p);
        assert(made_at(list.insert(at, new), height) =~= made_at(list.push(new), height));
    }
}

/// What passes a test after one more item.
proof fn lemma_filter_pushed(s: Seq<UtxoView>, x: UtxoView, p: spec_fn(UtxoView) -> bool)
    ensures
        s.push(x).filter(p) == (if p(x) {
            s.filter(p).push(x)
        } else {
            s.filter(p)
        }),
{
    reveal(Seq::filter);
    assert(s.push(x).drop_last() =~= s);
}

/// Where nothing passes a test, nothing is left.
proof fn lemma_filter_none(s: Seq<UtxoView>, p: spec_fn(UtxoView) -> bool)
    requires
        forall|i: int| 0 <= i < s.len() ==> !p(#[trigger] s[i]),
    ensures
        s.filter(p) == Seq::<UtxoView>::empty(),
    decreases s.len(),
{
    reveal(Seq::filter);
    if s.len() > 0 {
        assert forall|i: int| 0 <= i < s.drop_last().len() implies !p(
            #[trigger] s.drop_last()[i],
        ) by {
            assert(!p(s[i]));
        }
        lemma_filter_none(s.drop_last(), p);
    }
}

/// Puts an output after those that are not higher.
fn insert_by_height(list: &mut Vec<TransparentUtxo>, utxo: TransparentUtxo)
    requires
        by_height(utxo_views(old(list)@)),
    ensures
        by_height(utxo_views(final(list)@)),
        final(list).len() == old(list).len() + 1,
        forall|height: u32| #[trigger]
            made_at(utxo_views(final(list)@), height) == made_at(
                utxo_views(old(list)@).push(utxo@),
                height,
            ),
{
    let mut at: usize = list.len();
    while at > 0 && list[at - 1].height > utxo.height
        invariant
            0 <= at <= list.len(),
            *list == *old(list),
            forall|i: int|
                at <= i < list.len() ==> (#[trigger] utxo_views(list@)[i]).height > utxo.height,
        decreases at,
    {
        at = at - 1;
        assert(utxo_views(list@)[at as int].height == list@[at as int].height);
    }
    let ghost before = utxo_views(list@);
    let ghost new = utxo@;
    assert(at > 0 ==> before[at - 1].height == list@[at - 1].height);
    list.insert(at, utxo);
    proof {
        let after = utxo_views(list@);
        assert(after =~= before.insert(at as int, new));
        assert forall|i: int, j: int| 0 <= i < j < after.len() implies (#[trigger] after[i]).height
            <= (#[trigger] after[j]).height by {
            let bi = if i < at { i } else { i - 1 };
            let bj = if j < at { j } else { j - 1 };
            if i != at && j != at {
                assert(before[bi].height <= before[bj].height);
            } else if j == at && i < at {
                if i < at - 1 {
                    assert(before[i].height <= before[at - 1].height);
                }
            } else {
                assert(before[bj].height > new.height);
            }
        }
        assert forall|height: u32| #[trigger] made_at(after, height) == made_at(
            before.push(new),
            height,
        ) by {
            lemma_insert_by_height(before, at as int, new, height);
        }
    }
}

/// The outputs of a reply, in the order of their heights; those of one height stay in
/// the order of the reply. A transaction id that is not 32 bytes long fails them all.
pub fn utxos_by_height(replies: Vec<GetAddressUtxosReply>) -> (result: Result<
    Vec<TransparentUtxo>,
    ChainError,
>)
    ensures
        result is Ok == (forall|i: int|
            0 <= i < replies@.len() ==> utxo_of(#[trigger] replies@[i]) is Some),
        result is Err ==> result->Err_0 == ChainError::Txid,
        result is Ok ==> {
            let utxos = utxo_views((result->Ok_0)@);
            &&& utxos.len() == replies@.len()
            &&& by_height(utxos)
            &&& forall|height: u32| #[trigger]
                made_at(utxos, height) == made_at(collect_some(utxos_of(replies@)), height)
        },
{
    let ghost all = utxos_of(replies@);
    let ghost given = replies@;
    let mut rest = replies;
    let mut utxos: Vec<TransparentUtxo> = Vec::new();
    let ghost mut i: int = 0;
    assert(collect_some(all.take(0)) =~= Seq::empty());
    assert(utxo_views(utxos@) =~= Seq::empty());
    assert(given.skip(0) =~= given);
    while rest.len() > 0
        invariant
            0 <= i <= given.len(),
            all == utxos_of(given),
            given == replies@,
            rest@ == given.skip(i),
            forall|j: int| 0 <= j < i ==> utxo_of(#[trigger] given[j]) is Some,
            utxos.len() == i,
            by_height(utxo_views(utxos@)),
            forall|height: u32| #[trigger]
                made_at(utxo_views(utxos@), height) == made_at(collect_some(all.take(i)), height),
        decreases rest.len(),
    {
        proof {
            lemma_collect_push(all.take(i), all[i]);
            assert(all.take(i + 1) =~= all.take(i).push(all[i]));
            assert(given.skip(i).drop_first() =~= given.skip(i + 1));
        }
        let reply = rest.remove(0);
        assert(reply == given[i]);
        let utxo = match TransparentUtxo::try_from(reply) {
            Ok(utxo) => utxo,
            Err(e) => return Err(e),
        };
        let ghost before = utxo_views(utxos@);
        let ghost new = utxo@;
        insert_by_height(&mut utxos, utxo);
        proof {
            let so_far = collect_some(all.take(i));
            assert forall|height: u32| #[trigger] made_at(utxo_views(utxos@), height) == made_at(
                collect_some(all.take(i + 1)),
                height,
            ) by {
                let p = |u: UtxoView| u.height == height;
                lemma_filter_pushed(before, new, p);
                lemma_filter_pushed(so_far, new, p);
                assert(made_at(before, height) == made_at(so_far, height));
            }
            i = i + 1;
        }
    }
    assert(all.take(i) =~= all);
    Ok(utxos)
}

/// The outputs of a stream of replies, in its order, without those whose transaction id
/// is not 32 bytes long.
pub fn readable_utxos(replies: Vec<GetAddressUtxosReply>) -> (utxos: Vec<TransparentUtxo>)
    ensures
        utxo_views(utxos@) == collect_some(utxos_of(replies@)),
{
    let ghost all = utxos_of(replies@);
    let ghost given = replies@;
    let mut replies = replies;
    let mut utxos: Vec<TransparentUtxo> = Vec::new();
    let ghost mut i: int = 0;
    assert(utxo_views(utxos@) =~= collect_some(all.take(0)));
    assert(given.skip(0) =~= given);
    while replies.len() > 0
        invariant
            0 <= i <= given.len(),
            all == utxos_of(given),
            replies@ == given.skip(i),
            utxo_views(utxos@) == collect_some(all.take(i)),
        decreases replies.len(),
    {
        proof {
            lemma_collect_push(all.take(i), all[i]);
            assert(all.take(i + 1) =~= all.take(i).push(all[i]));
            assert(given.skip(i).drop_first() =~= given.skip(i + 1));
        }
        let reply = replies.remove(0);
        assert(reply == given[i]);
        let ghost before = utxos@;
        if let Ok(utxo) = TransparentUtxo::try_from(reply) {
            let ghost new = utxo@;
            utxos.push(utxo);
            assert(utxo_views(utxos@) =~= utxo_views(before).push(new));
        }
        proof {
            i = i + 1;
        }
    }
    assert(all.take(i) =~= all);
    utxos
}

/// Outputs are counted block by block, of both pools.
pub proof fn law_outputs_add_up(blocks: Seq<CompactBlock>, block: CompactBlock)
    ensures
        outputs_in(Seq::<CompactBlock>::empty()) == 0,
        outputs_in(blocks.push(block)) == outputs_in(blocks) + sapling_count(block.vtx@)
            + orchard_count(block.vtx@),
{
    assert(blocks.push(block).drop_last() =~= blocks);
}

/// A block connects exactly where it names the last one as its predecessor, or where there is
/// none; and the next one must connect to it.
pub proof fn law_block_connects_to_the_last(
    chunks: ChunksView,
    prev_hash: Option<Seq<u8>>,
    block: CompactBlock,
)
    ensures
        prev_hash is None ==> connects(prev_hash, block),
        prev_hash matches Some(hash) ==> connects(prev_hash, block) == (block.prev_hash@ == hash),
        pushed(chunks, block).prev_hash == Some(block.hash@),
        pushed(chunks, block).max_outputs == chunks.max_outputs,
{
}

/// An output that the server reports is read exactly where its id has 32 bytes, with its own
/// address, index, script, value and height.
pub proof fn law_reported_output_is_read(r: GetAddressUtxosReply)
    ensures
        utxo_of(r) is Some == (r.txid@.len() == 32),
        utxo_of(r) matches Some(u) ==> {
            &&& u.address == r.address@
            &&& u.txid == array32(r.txid@)
            &&& u.index == r.index as u32
            &&& u.script == r.script@
            &&& u.value_zat == r.value_zat as u64
            &&& u.height == r.height as u32
        },
{
}

/// Every reported output is read by itself, and those of a height are the ones that tell it.
pub proof fn law_outputs_of_a_height(
    replies: Seq<GetAddressUtxosReply>,
    list: Seq<UtxoView>,
    height: u32,
)
    ensures
        utxos_of(replies).len() == replies.len(),
        forall|i: int|
            0 <= i < replies.len() ==> #[trigger] utxos_of(replies)[i] == utxo_of(replies[i]),
        made_at(list, height) == list.filter(|u: UtxoView| u.height == height),
        by_height(list) <==> forall|i: int, j: int|
            0 <= i < j < list.len() ==> (#[trigger] list[i]).height <= (#[trigger] list[j]).height,
{
}

} // verus!
