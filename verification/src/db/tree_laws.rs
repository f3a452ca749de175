//! Laws of the note commitment tree's tables and of their byte form.

use vstd::prelude::*;

use crate::bytes::array32;
use crate::db::commitment_tree::{
    by_position, checkpoint_added, checkpoint_at, located, misplaced, position_key, put_error,
    reannotated, retained, root_annotation, row_of, row_shard, shard_row, storable,
    without_checkpoint, CheckpointView, ErrorView, QueryError, ShardRowView, TablesView,
    TreeState,
};
use crate::db::order::key_le;
use crate::db::shardtree_serialization::{
    hash_at, node_bytes, shard_bytes, shard_of, valid_shard, Shard, ShardError,
};
use crate::upstream::merkle_hashes::orchard_hash_valid;

verus! {

/// The byte form of a shard: a version byte of 1, and then each node with its tag, a parent
/// with its optional hash and its left and right side, a leaf with its hash and flags.
pub proof fn law_shard_byte_form(
    ann: Option<[u8; 32]>,
    left: Box<Shard>,
    right: Box<Shard>,
    value: [u8; 32],
    flags: u8,
    shard: Shard,
)
    ensures
        shard_bytes(shard) == seq![1u8] + node_bytes(shard),
        node_bytes(Shard::Nil) == seq![0u8],
        node_bytes(Shard::Leaf { value, flags }) == seq![1u8] + value@ + seq![flags],
        node_bytes(Shard::Parent { ann, left, right }) == seq![2u8] + (match ann {
            Some(hash) => seq![1u8] + hash@,
            None => seq![0u8],
        }) + node_bytes(*left) + node_bytes(*right),
{
}

/// Bytes of another version, of another tag, or that end too early are refused, each with its
/// own error.
pub proof fn law_malformed_shard_is_refused(bytes: Seq<u8>)
    ensures
        bytes.len() == 0 ==> shard_of(bytes) == Err::<Shard, ShardError>(ShardError::UnexpectedEnd),
        bytes.len() > 0 && bytes[0] != 1 ==> shard_of(bytes) == Err::<Shard, ShardError>(
            ShardError::Version(bytes[0]),
        ),
        bytes.len() == 1 && bytes[0] == 1 ==> shard_of(bytes) == Err::<Shard, ShardError>(
            ShardError::UnexpectedEnd,
        ),
        bytes.len() > 1 && bytes[0] == 1 && bytes[1] > 2 ==> shard_of(bytes) == Err::<
            Shard,
            ShardError,
        >(ShardError::Tag(bytes[1])),
{
}

/// A hash is read from 32 bytes that encode one.
pub proof fn law_hash_is_read_where_valid(bytes: Seq<u8>, at: int)
    requires
        0 <= at <= bytes.len(),
    ensures
        at + 32 > bytes.len() ==> hash_at(bytes, at) == Err::<([u8; 32], int), ShardError>(
            ShardError::UnexpectedEnd,
        ),
        at + 32 <= bytes.len() && orchard_hash_valid(bytes.subrange(at, at + 32)) ==> hash_at(
            bytes,
            at,
        ) == Ok::<([u8; 32], int), ShardError>(
            (array32(bytes.subrange(at, at + 32)), at + 32),
        ),
        at + 32 <= bytes.len() && !orchard_hash_valid(bytes.subrange(at, at + 32)) ==> hash_at(
            bytes,
            at,
        ) == Err::<([u8; 32], int), ShardError>(ShardError::Hash),
{
}

/// The shard at an index is the one stored there, and none where none is.
pub proof fn law_shard_is_found_at_its_index(tables: TablesView, i: int, index: u64)
    requires
        tables.wf(),
    ensures
        0 <= i < tables.shards.len() && tables.shards[i].shard_index == index ==> shard_row(
            tables.shards,
            index,
        ) == Some(tables.shards[i]),
        (forall|k: int|
            0 <= k < tables.shards.len() ==> (#[trigger] tables.shards[k]).shard_index != index)
            ==> shard_row(tables.shards, index) is None,
{
}

/// A shard is refused where it lies apart from those stored, where its index cannot be stored,
/// or where another one has its root hash, in this order, and only there.
pub proof fn law_shard_is_refused_where_it_does_not_fit(tables: TablesView, row: ShardRowView)
    requires
        tables.wf(),
        row.shard_index < u64::MAX,
    ensures
        ({
            let shards = tables.shards;
            let n = shards.len() as int;
            let apart = n > 0 && (row.shard_index + 1 < shards[0].shard_index || row.shard_index
                > shards[n - 1].shard_index + 1);
            let taken = row.root_hash is Some && exists|i: int|
                0 <= i < n && (#[trigger] shards[i]).shard_index != row.shard_index
                    && shards[i].root_hash == row.root_hash;
            let e = put_error(shards, row);
            &&& apart ==> e == Some(
                ErrorView::SubtreeDiscontinuity {
                    attempted: (row.shard_index, (row.shard_index + 1) as u64),
                    existing: (shards[0].shard_index, (shards[n - 1].shard_index + 1) as u64),
                },
            )
            &&& !apart && row.shard_index > i64::MAX ==> e == Some(
                ErrorView::Query(QueryError::OutOfRange),
            )
            &&& !apart && row.shard_index <= i64::MAX && taken ==> e == Some(
                ErrorView::Query(QueryError::NotUnique),
            )
            &&& !apart && row.shard_index <= i64::MAX && !taken ==> e is None
        }),
{
    if tables.shards.len() > 0 {
        assert(tables.shards[tables.shards.len() - 1].shard_index <= i64::MAX as u64);
    }
}

/// A shard is stored with its index, its bytes, and the hash at its root where it has one.
pub proof fn law_shard_is_stored_with_its_root(
    shard: Shard,
    index: u64,
    ann: Option<[u8; 32]>,
    left: Box<Shard>,
    right: Box<Shard>,
    hash: [u8; 32],
)
    ensures
        row_of(shard, index).shard_index == index,
        row_of(shard, index).shard_data == shard_bytes(shard),
        row_of(shard, index).root_hash == root_annotation(shard),
        !(shard is Parent) ==> root_annotation(shard) is None,
        root_annotation(Shard::Parent { ann, left, right }) is Some == ann is Some,
        ann matches Some(known) ==> root_annotation(Shard::Parent { ann, left, right }) == Some(
            known@,
        ),
        reannotated(Shard::Parent { ann, left, right }, hash) == (Shard::Parent {
            ann: Some(hash),
            left,
            right,
        }),
        !(shard is Parent) ==> reannotated(shard, hash) == shard,
{
}

/// A shard is misplaced where it goes on below the leaves, at the first such place from the
/// left.
pub proof fn law_shard_is_misplaced_below_the_leaves(
    ann: Option<[u8; 32]>,
    left: Box<Shard>,
    right: Box<Shard>,
    shard: Shard,
    level: u8,
    index: u64,
)
    ensures
        !(shard is Parent) ==> misplaced(shard, level, index) is None,
        misplaced(Shard::Parent { ann, left, right }, 0, index) == Some(index),
        level > 0 ==> ({
            let first = misplaced(*left, (level - 1) as u8, index << 1u64);
            let second = misplaced(*right, (level - 1) as u8, (index << 1u64) | 1u64);
            misplaced(Shard::Parent { ann, left, right }, level, index) == if first is Some {
                first
            } else {
                second
            }
        }),
{
}

/// The checkpoint at a height is the one stored there, and none where none is.
pub proof fn law_checkpoint_is_found_at_its_height(tables: TablesView, i: int, id: u32)
    requires
        tables.wf(),
    ensures
        0 <= i < tables.checkpoints.len() && tables.checkpoints[i].0 == id ==> checkpoint_at(
            tables.checkpoints,
            id,
        ) == Some(tables.checkpoints[i].1),
        (forall|k: int|
            0 <= k < tables.checkpoints.len() ==> (#[trigger] tables.checkpoints[k]).0 != id)
            ==> checkpoint_at(tables.checkpoints, id) is None,
{
}

/// Adding a checkpoint leaves every other one as it is. One that is there already with another
/// state, or with other marks, is a conflict, and nothing changes.
pub proof fn law_checkpoint_conflicts_only_with_another(
    tables: TablesView,
    id: u32,
    checkpoint: CheckpointView,
)
    requires
        tables.wf(),
    ensures
        ({
            let rows = tables.checkpoints;
            let (after, error) = checkpoint_added(rows, id, checkpoint);
            match checkpoint_at(rows, id) {
                Some(extant) => {
                    &&& after == rows
                    &&& extant.tree_state != checkpoint.tree_state ==> error == Some(
                        ErrorView::CheckpointConflict {
                            checkpoint_id: id,
                            checkpoint,
                            extant_tree_state: extant.tree_state,
                            extant_marks_removed: None,
                        },
                    )
                    &&& extant.tree_state == checkpoint.tree_state && extant.marks_removed
                        != checkpoint.marks_removed ==> error == Some(
                        ErrorView::CheckpointConflict {
                            checkpoint_id: id,
                            checkpoint,
                            extant_tree_state: extant.tree_state,
                            extant_marks_removed: Some(extant.marks_removed),
                        },
                    )
                    &&& extant == checkpoint ==> error is None
                },
                None => {
                    let fits = checkpoint.tree_state matches TreeState::AtPosition(p) ==> p
                        <= i64::MAX;
                    let marks = checkpoint.marks_removed.filter(|m: u64| m <= i64::MAX);
                    &&& !fits ==> after == rows && error == Some(
                        ErrorView::Query(QueryError::OutOfRange),
                    )
                    &&& fits ==> after == rows.filter(|r: (u32, CheckpointView)| r.0 < id).push(
                        (
                            id,
                            CheckpointView {
                                tree_state: checkpoint.tree_state,
                                marks_removed: marks,
                            },
                        ),
                    ) + rows.filter(|r: (u32, CheckpointView)| r.0 > id)
                    &&& fits && marks == checkpoint.marks_removed ==> error is None
                    &&& fits && marks != checkpoint.marks_removed ==> error == Some(
                        ErrorView::Query(QueryError::OutOfRange),
                    )
                },
            }
        }),
{
    assert(storable(checkpoint.marks_removed) =~= checkpoint.marks_removed.filter(
        |m: u64| m <= i64::MAX,
    )) by {
        assert((|m: u64| m <= crate::db::commitment_tree::MAX_INTEGER) =~= (|m: u64| m <= i64::MAX));
    }
}

/// Removing a checkpoint leaves exactly the others, in order.
pub proof fn law_other_checkpoints_stay(rows: Seq<(u32, CheckpointView)>, id: u32)
    ensures
        without_checkpoint(rows, id) == rows.filter(|r: (u32, CheckpointView)| r.0 < id)
            + rows.filter(|r: (u32, CheckpointView)| r.0 > id),
{
}

/// Checkpoints are told by position: those of the empty tree first, and those of one position
/// by height.
pub proof fn law_checkpoints_go_by_position(rows: Seq<(u32, CheckpointView)>, i: int, j: int)
    requires
        by_position(rows),
        0 <= i < j < rows.len(),
    ensures
        match (rows[i].1.tree_state, rows[j].1.tree_state) {
            (TreeState::Empty, TreeState::Empty) => rows[i].0 <= rows[j].0,
            (TreeState::Empty, TreeState::AtPosition(_)) => true,
            (TreeState::AtPosition(_), TreeState::Empty) => false,
            (TreeState::AtPosition(p), TreeState::AtPosition(q)) => p < q || (p == q && rows[i].0
                <= rows[j].0),
        },
{
    let a = position_key(rows[i]);
    let b = position_key(rows[j]);
    assert(key_le(a, b));
    reveal_with_fuel(key_le, 4);
    assert(a.drop_first()[0] == a[1] && b.drop_first()[0] == b[1]);
    assert(a.drop_first().drop_first()[0] == a[2] && b.drop_first().drop_first()[0] == b[2]);
}

/// Truncation keeps exactly the checkpoints up to the height, in order, each as it was but for
/// the marks of the one at the height, which go.
pub proof fn law_truncation_keeps_tree_states(rows: Seq<(u32, CheckpointView)>, id: u32)
    ensures
        ({
            let kept = rows.filter(|r: (u32, CheckpointView)| r.0 <= id);
            let after = retained(rows, id);
            &&& after.len() == kept.len()
            &&& forall|i: int|
                0 <= i < kept.len() ==> (#[trigger] after[i]).0 == kept[i].0 && after[i].1.tree_state
                    == kept[i].1.tree_state && (kept[i].0 != id ==> after[i] == kept[i]) && (kept[i].0
                    == id ==> after[i].1.marks_removed.len() == 0)
        }),
{
}

/// A stored shard is read from its bytes at its own place, and its root takes the stored hash
/// where there is one. Bytes that cannot be read, a shard that goes on below the leaves, and a
/// hash that is none are each told.
pub proof fn law_stored_shard_is_read_with_its_hash(row: ShardRowView, level: u8, index: u64)
    ensures
        ({
            let read = row_shard(row, level, index);
            match shard_of(row.shard_data) {
                Err(e) => read == Err::<Shard, ShardError>(e) && located(
                    row.shard_data,
                    level,
                    index,
                ) == Err::<Shard, ShardError>(e),
                Ok(shard) => match misplaced(shard, level, index) {
                    Some(at) => read == Err::<Shard, ShardError>(ShardError::Misplaced(at))
                        && located(row.shard_data, level, index) == Err::<Shard, ShardError>(
                        ShardError::Misplaced(at),
                    ),
                    None => {
                        &&& located(row.shard_data, level, index) == Ok::<Shard, ShardError>(shard)
                        &&& row.root_hash is None ==> read == Ok::<Shard, ShardError>(shard)
                        &&& row.root_hash matches Some(bytes) ==> (hash_at(bytes, 0) matches Ok(hit)
                            ==> read == Ok::<Shard, ShardError>(reannotated(shard, hit.0)))
                        &&& row.root_hash matches Some(bytes) ==> (hash_at(bytes, 0) matches Err(e)
                            ==> read == Err::<Shard, ShardError>(e))
                    },
                },
            }
        }),
{
}

/// A shard is valid exactly where its hashes are and its flags are among the three that there
/// are.
pub proof fn law_shard_is_valid_part_by_part(
    ann: Option<[u8; 32]>,
    left: Box<Shard>,
    right: Box<Shard>,
    value: [u8; 32],
    flags: u8,
)
    ensures
        valid_shard(Shard::Nil),
        valid_shard(Shard::Leaf { value, flags }) <==> orchard_hash_valid(value@) && flags < 8,
        valid_shard(Shard::Parent { ann, left, right }) <==> {
            &&& ann matches Some(hash) ==> orchard_hash_valid(hash@)
            &&& valid_shard(*left)
            &&& valid_shard(*right)
        },
{
}

} // verus!
