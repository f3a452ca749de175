//! The store behind the Orchard note commitment tree: its shards, its cap and its
//! checkpoints.
//!
//! The tables are held in memory; whoever persists them reads and writes the rows.

use core::ops::Range;

use vstd::prelude::*;
use vstd::string::*;

use crate::bytes::{lemma_array32, push_bytes, same_bytes};
use crate::db::order::{in_order, insert_in_order, key_le, Keyed};
use crate::db::shardtree_serialization::{
    hash_at, law_shard_round_trip, read_hash, read_shard, shard_bytes, shard_of, valid_shard,
    write_shard, Shard, ShardError,
};
use crate::seqs::{lemma_filter_skip, lemma_filter_take};
use crate::text::{append_decimal, decimal};

verus! {

/// The depth of the Orchard note commitment tree.
pub const ORCHARD_DEPTH: u8 = 32;

/// The height of a shard of the Orchard tree.
pub const ORCHARD_SHARD_HEIGHT: u8 = 16;

/// The name that the tables of the Orchard tree start with.
pub const ORCHARD_TABLE_PREFIX: &'static str = "orchard";

/// The largest number that a column holds.
pub const MAX_INTEGER: u64 = 9223372036854775807;

/// The place of a node in the tree.
#[derive(Debug, Clone, Copy, PartialEq, Eq)]
pub struct Address {
    /// The level: 0 for the leaves.
    pub level: u8,
    /// The index within the level.
    pub index: u64,
}

/// A shard at its place.
#[derive(Debug, PartialEq, Eq)]
pub struct LocatedShard {
    /// The place of the shard's root.
    pub root_addr: Address,
    /// The shard.
    pub root: Shard,
}

/// The state of the tree at a checkpoint.
#[derive(Debug, Clone, Copy, PartialEq, Eq, Structural)]
pub enum TreeState {
    /// The tree was empty.
    Empty,
    /// The last leaf stood at this position.
    AtPosition(u64),
}

/// A checkpoint.
#[derive(Debug, PartialEq, Eq)]
pub struct Checkpoint {
    /// The state of the tree.
    pub tree_state: TreeState,
    /// The positions whose marks were removed since the checkpoint before, in increasing
    /// order.
    pub marks_removed: Vec<u64>,
}

/// What a checkpoint holds.
pub struct CheckpointView {
    /// The state of the tree.
    pub tree_state: TreeState,
    /// The positions whose marks were removed, in increasing order.
    pub marks_removed: Seq<u64>,
}

/// Whether numbers stand in increasing order.
pub open spec fn increasing(s: Seq<u64>) -> bool {
    forall|i: int, j: int| 0 <= i < j < s.len() ==> s[i] < s[j]
}

impl Checkpoint {
    /// What the checkpoint holds.
    pub open spec fn view(&self) -> CheckpointView {
        CheckpointView { tree_state: self.tree_state, marks_removed: self.marks_removed@ }
    }

    /// The removed marks are a set, listed in order.
    pub open spec fn wf(&self) -> bool {
        increasing(self.marks_removed@)
    }

    /// A copy.
    pub fn duplicate(&self) -> (copy: Checkpoint)
        ensures
            copy@ == self@,
    {
        Checkpoint { tree_state: self.tree_state, marks_removed: copy_numbers(&self.marks_removed) }
    }
}

/// A row of the checkpoint table, with the marks removed.
#[derive(Debug, PartialEq, Eq)]
pub struct CheckpointRow {
    /// The checkpoint's height.
    pub checkpoint_id: u32,
    /// The checkpoint.
    pub checkpoint: Checkpoint,
}

impl CheckpointRow {
    /// What the row holds.
    pub open spec fn view(&self) -> (u32, CheckpointView) {
        (self.checkpoint_id, self.checkpoint@)
    }
}

/// What rows hold.
pub open spec fn checkpoint_views(rows: Seq<CheckpointRow>) -> Seq<(u32, CheckpointView)> {
    rows.map_values(|r: CheckpointRow| r@)
}

impl Keyed for CheckpointRow {
    /// By position, with the empty tree first; then by height.
    open spec fn key(&self) -> Seq<u64> {
        position_key(self@)
    }

    fn sort_key(&self) -> (key: Vec<u64>) {
        let mut key: Vec<u64> = Vec::new();
        match self.checkpoint.tree_state {
            TreeState::Empty => {
                key.push(0);
                key.push(0);
            },
            TreeState::AtPosition(position) => {
                key.push(1);
                key.push(position);
            },
        }
        key.push(self.checkpoint_id as u64);
        assert(key@ =~= self.key());
        key
    }
}

/// The sort key of a checkpoint: by position, with the empty tree first; then by height.
pub open spec fn position_key(row: (u32, CheckpointView)) -> Seq<u64> {
    match row.1.tree_state {
        TreeState::Empty => seq![0u64, 0u64, row.0 as u64],
        TreeState::AtPosition(position) => seq![1u64, position, row.0 as u64],
    }
}

/// A row of the shard table.
#[derive(Debug, PartialEq, Eq)]
pub struct ShardRow {
    /// The index of the shard's root.
    pub shard_index: u64,
    /// The root's hash, where it is cached.
    pub root_hash: Option<Vec<u8>>,
    /// The bytes of the shard.
    pub shard_data: Vec<u8>,
}

/// What a row of the shard table holds.
pub struct ShardRowView {
    /// The index of the shard's root.
    pub shard_index: u64,
    /// The root's hash, where it is cached.
    pub root_hash: Option<Seq<u8>>,
    /// The bytes of the shard.
    pub shard_data: Seq<u8>,
}

impl ShardRow {
    /// What the row holds.
    pub open spec fn view(&self) -> ShardRowView {
        ShardRowView {
            shard_index: self.shard_index,
            root_hash: match self.root_hash {
                Some(hash) => Some(hash@),
                None => None,
            },
            shard_data: self.shard_data@,
        }
    }
}

/// What rows hold.
pub open spec fn shard_views(rows: Seq<ShardRow>) -> Seq<ShardRowView> {
    rows.map_values(|r: ShardRow| r@)
}

/// The tables of a commitment tree.
#[derive(Debug, PartialEq, Eq)]
pub struct ShardTables {
    /// The shards, in the order of their indices.
    pub shards: Vec<ShardRow>,
    /// The bytes of the cap: the part of the tree above the shards.
    pub cap: Option<Vec<u8>>,
    /// The checkpoints, in the order of their heights.
    pub checkpoints: Vec<CheckpointRow>,
}

/// What the tables hold.
pub struct TablesView {
    /// The shards, in the order of their indices.
    pub shards: Seq<ShardRowView>,
    /// The bytes of the cap.
    pub cap: Option<Seq<u8>>,
    /// The checkpoints, in the order of their heights.
    pub checkpoints: Seq<(u32, CheckpointView)>,
}

impl TablesView {
    /// Rows stand in the order of their keys, no key occurs twice, every number fits its
    /// column, and no two shards have the same root hash.
    pub open spec fn wf(self) -> bool {
        &&& forall|i: int, j: int|
            0 <= i < j < self.shards.len() ==> (#[trigger] self.shards[i]).shard_index < (
            #[trigger] self.shards[j]).shard_index
        &&& forall|i: int| 0 <= i < self.shards.len() ==> (#[trigger] self.shards[i]).shard_index
            <= MAX_INTEGER
        &&& forall|i: int, j: int|
            0 <= i < j < self.shards.len() && (#[trigger] self.shards[i]).root_hash is Some
                ==> self.shards[i].root_hash != (#[trigger] self.shards[j]).root_hash
        &&& forall|i: int, j: int|
            0 <= i < j < self.checkpoints.len() ==> (#[trigger] self.checkpoints[i]).0 < (
            #[trigger] self.checkpoints[j]).0
        &&& forall|i: int|
            0 <= i < self.checkpoints.len() ==> increasing(
                (#[trigger] self.checkpoints[i]).1.marks_removed,
            )
    }
}

impl ShardTables {
    /// What the tables hold.
    pub open spec fn view(&self) -> TablesView {
        TablesView {
            shards: shard_views(self.shards@),
            cap: match self.cap {
                Some(cap) => Some(cap@),
                None => None,
            },
            checkpoints: checkpoint_views(self.checkpoints@),
        }
    }
}

/// The empty tables.
pub fn init_tables() -> (tables: ShardTables)
    ensures
        tables@ == (TablesView { shards: Seq::empty(), cap: None, checkpoints: Seq::empty() }),
        tables@.wf(),
{
    let tables = ShardTables { shards: Vec::new(), cap: None, checkpoints: Vec::new() };
    assert(tables@.shards =~= Seq::empty());
    assert(tables@.checkpoints =~= Seq::empty());
    tables
}

/// Why the tables refused a query.
#[derive(Debug, Clone, Copy, PartialEq, Eq)]
pub enum QueryError {
    /// A number is larger than a column holds.
    OutOfRange,
    /// Another shard has the same root hash.
    NotUnique,
}

/// Why the store failed.
#[derive(Debug, PartialEq, Eq)]
pub enum Error {
    /// Stored shard data could not be read.
    Serialization(ShardError),
    /// A query or an update was refused.
    Query(QueryError),
    /// There is another checkpoint at this height.
    CheckpointConflict {
        /// The height.
        checkpoint_id: u32,
        /// The checkpoint that was to be added.
        checkpoint: Checkpoint,
        /// The tree state of the checkpoint that is there.
        extant_tree_state: TreeState,
        /// The marks removed of the checkpoint that is there, where only they differ.
        extant_marks_removed: Option<Vec<u64>>,
    },
    /// The insertion would leave a gap between shards.
    SubtreeDiscontinuity {
        /// The indices that were to be inserted.
        attempted_insertion_range: Range<u64>,
        /// The indices that are there.
        existing_range: Range<u64>,
    },
}

/// What an error holds.
pub enum ErrorView {
    /// Stored shard data could not be read.
    Serialization(ShardError),
    /// A query or an update was refused.
    Query(QueryError),
    /// There is another checkpoint at this height.
    CheckpointConflict {
        /// The height.
        checkpoint_id: u32,
        /// The checkpoint that was to be added.
        checkpoint: CheckpointView,
        /// The tree state of the checkpoint that is there.
        extant_tree_state: TreeState,
        /// The marks removed of the checkpoint that is there, where only they differ.
        extant_marks_removed: Option<Seq<u64>>,
    },
    /// The insertion would leave a gap between shards.
    SubtreeDiscontinuity {
        /// The indices that were to be inserted: the first, and the one after the last.
        attempted: (u64, u64),
        /// The indices that are there: the first, and the one after the last.
        existing: (u64, u64),
    },
}

impl Error {
    /// What the error holds.
    pub open spec fn view(&self) -> ErrorView {
        match *self {
            Error::Serialization(e) => ErrorView::Serialization(e),
            Error::Query(e) => ErrorView::Query(e),
            Error::CheckpointConflict {
                checkpoint_id,
                checkpoint,
                extant_tree_state,
                extant_marks_removed,
            } => ErrorView::CheckpointConflict {
                checkpoint_id,
                checkpoint: checkpoint@,
                extant_tree_state,
                extant_marks_removed: match extant_marks_removed {
                    Some(marks) => Some(marks@),
                    None => None,
                },
            },
            Error::SubtreeDiscontinuity { attempted_insertion_range, existing_range } =>
                ErrorView::SubtreeDiscontinuity {
                attempted: (attempted_insertion_range.start, attempted_insertion_range.end),
                existing: (existing_range.start, existing_range.end),
            },
        }
    }
}

/// A copy of numbers.
fn copy_numbers(numbers: &Vec<u64>) -> (copy: Vec<u64>)
    ensures
        copy@ == numbers@,
{
    let mut copy: Vec<u64> = Vec::new();
    let mut i: usize = 0;
    while i < numbers.len()
        invariant
            0 <= i <= numbers.len(),
            copy@ == numbers@.take(i as int),
        decreases numbers.len() - i,
    {
        copy.push(numbers[i]);
        assert(copy@ =~= numbers@.take(i as int + 1));
        i = i + 1;
    }
    assert(numbers@.take(i as int) =~= numbers@);
    copy
}

/// Whether numbers are the same.
fn same_numbers(a: &Vec<u64>, b: &Vec<u64>) -> (same: bool)
    ensures
        same == (a@ == b@),
{
    if a.len() != b.len() {
        return false;
    }
    let mut i: usize = 0;
    while i < a.len()
        invariant
            0 <= i <= a.len(),
            a.len() == b.len(),
            forall|j: int| 0 <= j < i ==> a@[j] == b@[j],
        decreases a.len() - i,
    {
        if a[i] != b[i] {
            assert(a@[i as int] != b@[i as int]);
            return false;
        }
        i = i + 1;
    }
    assert(a@ =~= b@);
    true
}

/// The index of the first parent that stands at level 0, where a shard's root stands at
/// a place.
pub open spec fn misplaced(shard: Shard, level: u8, index: u64) -> Option<u64>
    decreases shard,
{
    match shard {
        Shard::Parent { ann, left, right } => if level == 0 {
            Some(index)
        } else {
            match misplaced(*left, (level - 1) as u8, index << 1u64) {
                Some(at) => Some(at),
                None => misplaced(*right, (level - 1) as u8, (index << 1u64) | 1u64),
            }
        },
        _ => None,
    }
}

/// Finds the first parent that stands at level 0.
fn find_misplaced(shard: &Shard, level: u8, index: u64) -> (at: Option<u64>)
    ensures
        at == misplaced(*shard, level, index),
    decreases *shard,
{
    match shard {
        Shard::Parent { ann, left, right } => {
            if level == 0 {
                return Some(index);
            }
            let first: u64 = index << 1u64;
            match find_misplaced(left, level - 1, first) {
                Some(at) => Some(at),
                None => find_misplaced(right, level - 1, first | 1u64),
            }
        },
        _ => None,
    }
}

/// The shard that a row's bytes hold, at a place.
pub open spec fn located(data: Seq<u8>, level: u8, index: u64) -> Result<Shard, ShardError> {
    match shard_of(data) {
        Err(e) => Err(e),
        Ok(shard) => match misplaced(shard, level, index) {
            Some(at) => Err(ShardError::Misplaced(at)),
            None => Ok(shard),
        },
    }
}

/// A shard with another hash at its root, where the root is a parent.
pub open spec fn reannotated(shard: Shard, hash: [u8; 32]) -> Shard {
    match shard {
        Shard::Parent { ann, left, right } => Shard::Parent { ann: Some(hash), left, right },
        _ => shard,
    }
}

/// The shard of a row, with the row's root hash.
pub open spec fn row_shard(row: ShardRowView, level: u8, index: u64) -> Result<Shard, ShardError> {
    match located(row.shard_data, level, index) {
        Err(e) => Err(e),
        Ok(shard) => match row.root_hash {
            None => Ok(shard),
            Some(bytes) => match hash_at(bytes, 0) {
                Err(e) => Err(e),
                Ok((hash, next)) => Ok(reannotated(shard, hash)),
            },
        },
    }
}

/// The cached hash of a shard's root.
pub open spec fn root_annotation(shard: Shard) -> Option<Seq<u8>> {
    match shard {
        Shard::Parent { ann, left, right } => match ann {
            Some(hash) => Some(hash@),
            None => None,
        },
        _ => None,
    }
}

/// The row with an index.
pub open spec fn shard_row(shards: Seq<ShardRowView>, index: u64) -> Option<ShardRowView> {
    if exists|i: int| 0 <= i < shards.len() && (#[trigger] shards[i]).shard_index == index {
        Some(
            shards[choose|i: int|
                0 <= i < shards.len() && (#[trigger] shards[i]).shard_index == index],
        )
    } else {
        None
    }
}

/// The range of the indices that are there, where there are any.
pub open spec fn stored_range(shards: Seq<ShardRowView>) -> Option<(u64, u64)> {
    if shards.len() == 0 {
        None
    } else {
        Some((shards[0].shard_index, (shards.last().shard_index + 1) as u64))
    }
}

/// Whether an index stands apart from the indices that are there.
pub open spec fn discontinuous(shards: Seq<ShardRowView>, index: u64) -> bool {
    match stored_range(shards) {
        Some((start, end)) => start > index + 1 || index > end,
        None => false,
    }
}

/// Whether another shard has the root hash.
pub open spec fn root_taken(shards: Seq<ShardRowView>, row: ShardRowView) -> bool {
    row.root_hash is Some && exists|i: int|
        0 <= i < shards.len() && (#[trigger] shards[i]).shard_index != row.shard_index
            && shards[i].root_hash == row.root_hash
}

/// The shards with one put in, in place of the one with its index.
pub open spec fn with_shard(shards: Seq<ShardRowView>, row: ShardRowView) -> Seq<ShardRowView> {
    shards.filter(|r: ShardRowView| r.shard_index < row.shard_index).push(row) + shards.filter(
        |r: ShardRowView| r.shard_index > row.shard_index,
    )
}

/// The error on which putting a shard fails.
pub open spec fn put_error(shards: Seq<ShardRowView>, row: ShardRowView) -> Option<ErrorView> {
    if discontinuous(shards, row.shard_index) {
        Some(
            ErrorView::SubtreeDiscontinuity {
                attempted: (row.shard_index, (row.shard_index + 1) as u64),
                existing: stored_range(shards)->0,
            },
        )
    } else if row.shard_index > MAX_INTEGER {
        Some(ErrorView::Query(QueryError::OutOfRange))
    } else if root_taken(shards, row) {
        Some(ErrorView::Query(QueryError::NotUnique))
    } else {
        None
    }
}

/// The row that stores a shard.
pub open spec fn row_of(shard: Shard, index: u64) -> ShardRowView {
    ShardRowView {
        shard_index: index,
        root_hash: root_annotation(shard),
        shard_data: shard_bytes(shard),
    }
}

/// The checkpoint at a height.
pub open spec fn checkpoint_at(rows: Seq<(u32, CheckpointView)>, id: u32) -> Option<CheckpointView> {
    if exists|i: int| 0 <= i < rows.len() && (#[trigger] rows[i]).0 == id {
        Some(rows[choose|i: int| 0 <= i < rows.len() && (#[trigger] rows[i]).0 == id].1)
    } else {
        None
    }
}

/// The checkpoints without the one at a height.
pub open spec fn without_checkpoint(rows: Seq<(u32, CheckpointView)>, id: u32) -> Seq<
    (u32, CheckpointView),
> {
    rows.filter(|r: (u32, CheckpointView)| r.0 < id) + rows.filter(
        |r: (u32, CheckpointView)| r.0 > id,
    )
}

/// The checkpoints with one put at a height.
pub open spec fn with_checkpoint(
    rows: Seq<(u32, CheckpointView)>,
    id: u32,
    checkpoint: CheckpointView,
) -> Seq<(u32, CheckpointView)> {
    rows.filter(|r: (u32, CheckpointView)| r.0 < id).push((id, checkpoint)) + rows.filter(
        |r: (u32, CheckpointView)| r.0 > id,
    )
}

/// The marks that fit their column.
pub open spec fn storable(marks: Seq<u64>) -> Seq<u64> {
    marks.filter(|m: u64| m <= MAX_INTEGER)
}

/// The checkpoints after one was added at a height, and the error, where it was refused:
/// one that is there already must be the same.
pub open spec fn checkpoint_added(
    rows: Seq<(u32, CheckpointView)>,
    id: u32,
    checkpoint: CheckpointView,
) -> (Seq<(u32, CheckpointView)>, Option<ErrorView>) {
    match checkpoint_at(rows, id) {
        Some(extant) => if extant.tree_state != checkpoint.tree_state {
            (
                rows,
                Some(
                    ErrorView::CheckpointConflict {
                        checkpoint_id: id,
                        checkpoint,
                        extant_tree_state: extant.tree_state,
                        extant_marks_removed: None,
                    },
                ),
            )
        } else if extant.marks_removed == checkpoint.marks_removed {
            (rows, None)
        } else {
            (
                rows,
                Some(
                    ErrorView::CheckpointConflict {
                        checkpoint_id: id,
                        checkpoint,
                        extant_tree_state: extant.tree_state,
                        extant_marks_removed: Some(extant.marks_removed),
                    },
                ),
            )
        },
        None => if checkpoint.tree_state is AtPosition && checkpoint.tree_state->0 > MAX_INTEGER {
            (rows, Some(ErrorView::Query(QueryError::OutOfRange)))
        } else {
            let stored = CheckpointView {
                tree_state: checkpoint.tree_state,
                marks_removed: storable(checkpoint.marks_removed),
            };
            (
                with_checkpoint(rows, id, stored),
                if storable(checkpoint.marks_removed) == checkpoint.marks_removed {
                    None
                } else {
                    Some(ErrorView::Query(QueryError::OutOfRange))
                },
            )
        },
    }
}

/// The error of a result.
pub open spec fn error_of<T>(result: Result<T, Error>) -> Option<ErrorView> {
    match result {
        Ok(_) => None,
        Err(e) => Some(e@),
    }
}

/// The store of a commitment tree, over a connection to its tables.
#[derive(Debug)]
pub struct SqliteShardStore<C, const SHARD_HEIGHT: u8> {
    /// The connection.
    pub conn: C,
    /// The name that the tables start with.
    pub table_prefix: &'static str,
}

impl<C, const SHARD_HEIGHT: u8> SqliteShardStore<C, SHARD_HEIGHT> {
    /// A store over a connection.
    pub fn from_connection(conn: C, table_prefix: &'static str) -> (result: Result<Self, Error>)
        ensures
            result is Ok,
            (result->Ok_0).conn == conn,
            (result->Ok_0).table_prefix == table_prefix,
    {
        Ok(SqliteShardStore { conn, table_prefix })
    }
}

/// A store over the tables of the Orchard tree.
pub fn orchard_tree(tables: ShardTables) -> (result: Result<
    SqliteShardStore<ShardTables, ORCHARD_SHARD_HEIGHT>,
    Error,
>)
    ensures
        result is Ok,
        (result->Ok_0).conn == tables,
        (result->Ok_0).table_prefix@ == ORCHARD_TABLE_PREFIX@,
{
    SqliteShardStore::from_connection(tables, ORCHARD_TABLE_PREFIX)
}

/// The shards before an index, and whether the next has it.
fn find_shard(shards: &Vec<ShardRow>, index: u64) -> (found: (usize, bool))
    requires
        forall|i: int, j: int|
            0 <= i < j < shards@.len() ==> (#[trigger] shards@[i]).shard_index < (
            #[trigger] shards@[j]).shard_index,
    ensures
        found.0 <= shards@.len(),
        found.1 == (found.0 < shards@.len() && shards@[found.0 as int].shard_index == index),
        forall|i: int| 0 <= i < found.0 ==> (#[trigger] shards@[i]).shard_index < index,
        forall|i: int|
            found.0 <= i < shards@.len() ==> (#[trigger] shards@[i]).shard_index >= index,
        found.1 ==> shard_row(shard_views(shards@), index) == Some(shards@[found.0 as int]@),
        !found.1 ==> shard_row(shard_views(shards@), index) is None,
{
    let mut at: usize = 0;
    while at < shards.len()
        invariant
            0 <= at <= shards.len(),
            forall|i: int| 0 <= i < at ==> (#[trigger] shards@[i]).shard_index < index,
        ensures
            at < shards.len() ==> shards@[at as int].shard_index >= index,
        decreases shards.len() - at,
    {
        if shards[at].shard_index >= index {
            break;
        }
        at = at + 1;
    }
    let found = at < shards.len() && shards[at].shard_index == index;
    proof {
        let views = shard_views(shards@);
        assert forall|i: int| at <= i < shards@.len() implies (#[trigger] shards@[i]).shard_index
            >= index by {
            if i > at {
                assert(shards@[at as int].shard_index < shards@[i].shard_index);
            }
        }
        if found {
            assert(views[at as int].shard_index == index);
            let i = choose|i: int|
                0 <= i < views.len() && (#[trigger] views[i]).shard_index == index;
            assert(shards@[i].shard_index == index);
            if i > at {
                assert(shards@[at as int].shard_index < shards@[i].shard_index);
            }
        } else if exists|i: int| 0 <= i < views.len() && (#[trigger] views[i]).shard_index == index {
            let i = choose|i: int|
                0 <= i < views.len() && (#[trigger] views[i]).shard_index == index;
            assert(shards@[i].shard_index == index);
            if i > at {
                assert(shards@[at as int].shard_index < shards@[i].shard_index);
            }
        }
    }
    (at, found)
}

/// The checkpoints before a height, and whether the next is at it.
fn find_checkpoint(rows: &Vec<CheckpointRow>, id: u32) -> (found: (usize, bool))
    requires
        forall|i: int, j: int|
            0 <= i < j < rows@.len() ==> (#[trigger] rows@[i]).checkpoint_id < (
            #[trigger] rows@[j]).checkpoint_id,
    ensures
        found.0 <= rows@.len(),
        found.1 == (found.0 < rows@.len() && rows@[found.0 as int].checkpoint_id == id),
        forall|i: int| 0 <= i < found.0 ==> (#[trigger] rows@[i]).checkpoint_id < id,
        forall|i: int| found.0 <= i < rows@.len() ==> (#[trigger] rows@[i]).checkpoint_id >= id,
        found.1 ==> checkpoint_at(checkpoint_views(rows@), id) == Some(
            rows@[found.0 as int].checkpoint@,
        ),
        !found.1 ==> checkpoint_at(checkpoint_views(rows@), id) is None,
{
    let mut at: usize = 0;
    while at < rows.len()
        invariant
            0 <= at <= rows.len(),
            forall|i: int| 0 <= i < at ==> (#[trigger] rows@[i]).checkpoint_id < id,
        ensures
            at < rows.len() ==> rows@[at as int].checkpoint_id >= id,
        decreases rows.len() - at,
    {
        if rows[at].checkpoint_id >= id {
            break;
        }
        at = at + 1;
    }
    let found = at < rows.len() && rows[at].checkpoint_id == id;
    proof {
        let views = checkpoint_views(rows@);
        assert forall|i: int| at <= i < rows@.len() implies (#[trigger] rows@[i]).checkpoint_id
            >= id by {
            if i > at {
                assert(rows@[at as int].checkpoint_id < rows@[i].checkpoint_id);
            }
        }
        if found {
            assert(views[at as int].0 == id);
            let i = choose|i: int| 0 <= i < views.len() && (#[trigger] views[i]).0 == id;
            assert(rows@[i].checkpoint_id == id);
            if i > at {
                assert(rows@[at as int].checkpoint_id < rows@[i].checkpoint_id);
            }
        } else if exists|i: int| 0 <= i < views.len() && (#[trigger] views[i]).0 == id {
            let i = choose|i: int| 0 <= i < views.len() && (#[trigger] views[i]).0 == id;
            assert(rows@[i].checkpoint_id == id);
            if i > at {
                assert(rows@[at as int].checkpoint_id < rows@[i].checkpoint_id);
            }
        }
    }
    (at, found)
}

/// Where rows before a place are below an index and rows from it on are not, they are
/// cut there by the index.
proof fn lemma_shards_cut(shards: Seq<ShardRowView>, index: u64, n: int)
    requires
        0 <= n <= shards.len(),
        forall|i: int, j: int|
            0 <= i < j < shards.len() ==> (#[trigger] shards[i]).shard_index < (
            #[trigger] shards[j]).shard_index,
        forall|i: int| 0 <= i < n ==> (#[trigger] shards[i]).shard_index < index,
        forall|i: int| n <= i < shards.len() ==> (#[trigger] shards[i]).shard_index >= index,
    ensures
        shards.filter(|r: ShardRowView| r.shard_index < index) == shards.take(n),
        shards.filter(|r: ShardRowView| r.shard_index > index) == (if n < shards.len()
            && shards[n].shard_index == index {
            shards.skip(n + 1)
        } else {
            shards.skip(n)
        }),
{
    lemma_filter_take(shards, |r: ShardRowView| r.shard_index < index, n);
    if n < shards.len() && shards[n].shard_index == index {
        lemma_filter_skip(shards, |r: ShardRowView| r.shard_index > index, n + 1);
    } else {
        assert forall|i: int| n <= i < shards.len() implies (#[trigger] shards[i]).shard_index
            > index by {
            if i > n {
                assert(shards[n].shard_index < shards[i].shard_index);
            }
        }
        lemma_filter_skip(shards, |r: ShardRowView| r.shard_index > index, n);
    }
}

/// Where rows before a place are below a height and rows from it on are not, they are
/// cut there by the height.
proof fn lemma_checkpoints_cut(rows: Seq<(u32, CheckpointView)>, id: u32, n: int)
    requires
        0 <= n <= rows.len(),
        forall|i: int, j: int|
            0 <= i < j < rows.len() ==> (#[trigger] rows[i]).0 < (#[trigger] rows[j]).0,
        forall|i: int| 0 <= i < n ==> (#[trigger] rows[i]).0 < id,
        forall|i: int| n <= i < rows.len() ==> (#[trigger] rows[i]).0 >= id,
    ensures
        rows.filter(|r: (u32, CheckpointView)| r.0 < id) == rows.take(n),
        rows.filter(|r: (u32, CheckpointView)| r.0 > id) == (if n < rows.len() && rows[n].0 == id {
            rows.skip(n + 1)
        } else {
            rows.skip(n)
        }),
{
    lemma_filter_take(rows, |r: (u32, CheckpointView)| r.0 < id, n);
    if n < rows.len() && rows[n].0 == id {
        lemma_filter_skip(rows, |r: (u32, CheckpointView)| r.0 > id, n + 1);
    } else {
        assert forall|i: int| n <= i < rows.len() implies (#[trigger] rows[i]).0 > id by {
            if i > n {
                assert(rows[n].0 < rows[i].0);
            }
        }
        lemma_filter_skip(rows, |r: (u32, CheckpointView)| r.0 > id, n);
    }
}

/// Reads a shard at its place.
fn read_located(data: &Vec<u8>, level: u8, index: u64) -> (result: Result<Shard, Error>)
    ensures
        result == (match located(data@, level, index) {
            Ok(shard) => Ok::<Shard, Error>(shard),
            Err(e) => Err(Error::Serialization(e)),
        }),
{
    match read_shard(data.as_slice()) {
        Err(e) => Err(Error::Serialization(e)),
        Ok(shard) => match find_misplaced(&shard, level, index) {
            Some(at) => Err(Error::Serialization(ShardError::Misplaced(at))),
            None => Ok(shard),
        },
    }
}

/// The marks that fit their column, and whether all do.
fn fit_marks(marks: &Vec<u64>) -> (result: (Vec<u64>, bool))
    requires
        increasing(marks@),
    ensures
        result.0@ == storable(marks@),
        result.1 == (storable(marks@) == marks@),
        increasing(result.0@),
{
    let mut stored: Vec<u64> = Vec::new();
    let mut i: usize = 0;
    while i < marks.len()
        invariant
            0 <= i <= marks.len(),
            increasing(marks@),
            stored@ == marks@.take(i as int),
            forall|j: int| 0 <= j < i ==> #[trigger] marks@[j] <= MAX_INTEGER,
        ensures
            i < marks.len() ==> marks@[i as int] > MAX_INTEGER,
        decreases marks.len() - i,
    {
        if marks[i] > MAX_INTEGER {
            break;
        }
        stored.push(marks[i]);
        assert(stored@ =~= marks@.take(i as int + 1));
        i = i + 1;
    }
    proof {
        let fits = |m: u64| m <= MAX_INTEGER;
        assert forall|j: int| i <= j < marks@.len() implies !fits(#[trigger] marks@[j]) by {
            if j > i {
                assert(marks@[i as int] < marks@[j]);
            }
        }
        lemma_filter_take(marks@, fits, i as int);
        assert(i == marks.len() ==> marks@.take(i as int) =~= marks@);
        assert(i < marks.len() ==> marks@.take(i as int).len() != marks@.len());
    }
    (stored, i == marks.len())
}

impl<const SHARD_HEIGHT: u8> SqliteShardStore<ShardTables, SHARD_HEIGHT> {
    /// The shard at a place, with its root hash.
    pub fn get_shard(&self, shard_root: Address) -> (result: Result<Option<Shard>, Error>)
        requires
            self.conn@.wf(),
        ensures
            result == (if shard_root.index > MAX_INTEGER {
                Err::<Option<Shard>, Error>(Error::Query(QueryError::OutOfRange))
            } else {
                match shard_row(self.conn@.shards, shard_root.index) {
                    None => Ok(None),
                    Some(row) => match row_shard(row, shard_root.level, shard_root.index) {
                        Ok(shard) => Ok(Some(shard)),
                        Err(e) => Err(Error::Serialization(e)),
                    },
                }
            }),
    {
        if shard_root.index > MAX_INTEGER {
            return Err(Error::Query(QueryError::OutOfRange));
        }
        proof {
            self.lemma_rows();
        }
        let (at, found) = find_shard(&self.conn.shards, shard_root.index);
        if !found {
            return Ok(None);
        }
        let row = &self.conn.shards[at];
        let shard = match read_located(&row.shard_data, shard_root.level, shard_root.index) {
            Ok(shard) => shard,
            Err(e) => return Err(e),
        };
        match &row.root_hash {
            None => Ok(Some(shard)),
            Some(bytes) => match read_hash(bytes.as_slice(), 0) {
                Err(e) => Err(Error::Serialization(e)),
                Ok((hash, _)) => match shard {
                    Shard::Parent { ann: _, left, right } => Ok(
                        Some(Shard::Parent { ann: Some(hash), left, right }),
                    ),
                    other => Ok(Some(other)),
                },
            },
        }
    }

    /// What the invariant says of the rows.
    proof fn lemma_rows(&self)
        requires
            self.conn@.wf(),
        ensures
            forall|i: int, j: int|
                0 <= i < j < self.conn.shards@.len() ==> (
                #[trigger] self.conn.shards@[i]).shard_index < (
                #[trigger] self.conn.shards@[j]).shard_index,
            forall|i: int|
                0 <= i < self.conn.shards@.len() ==> (#[trigger] self.conn.shards@[i]).shard_index
                    <= MAX_INTEGER,
            forall|i: int, j: int|
                0 <= i < j < self.conn.checkpoints@.len() ==> (
                #[trigger] self.conn.checkpoints@[i]).checkpoint_id < (
                #[trigger] self.conn.checkpoints@[j]).checkpoint_id,
    {
        let shards = self.conn@.shards;
        let checkpoints = self.conn@.checkpoints;
        assert forall|i: int, j: int| 0 <= i < j < self.conn.shards@.len() implies (
        #[trigger] self.conn.shards@[i]).shard_index < (
        #[trigger] self.conn.shards@[j]).shard_index by {
            assert(shards[i].shard_index < shards[j].shard_index);
        }
        assert forall|i: int| 0 <= i < self.conn.shards@.len() implies (
        #[trigger] self.conn.shards@[i]).shard_index <= MAX_INTEGER by {
            assert(shards[i].shard_index <= MAX_INTEGER);
        }
        assert forall|i: int, j: int| 0 <= i < j < self.conn.checkpoints@.len() implies (
        #[trigger] self.conn.checkpoints@[i]).checkpoint_id < (
        #[trigger] self.conn.checkpoints@[j]).checkpoint_id by {
            assert(checkpoints[i].0 < checkpoints[j].0);
        }
    }

    /// The shard with the highest index, at its place.
    pub fn last_shard(&self) -> (result: Result<Option<LocatedShard>, Error>)
        ensures
            result == (if self.conn@.shards.len() == 0 {
                Ok::<Option<LocatedShard>, Error>(None)
            } else {
                let row = self.conn@.shards.last();
                match located(row.shard_data, SHARD_HEIGHT, row.shard_index) {
                    Ok(root) => Ok(
                        Some(
                            LocatedShard {
                                root_addr: Address { level: SHARD_HEIGHT, index: row.shard_index },
                                root,
                            },
                        ),
                    ),
                    Err(e) => Err(Error::Serialization(e)),
                }
            }),
    {
        let n: usize = self.conn.shards.len();
        if n == 0 {
            return Ok(None);
        }
        let row = &self.conn.shards[n - 1];
        assert(self.conn@.shards.last() == row@);
        let root_addr = Address { level: SHARD_HEIGHT, index: row.shard_index };
        match read_located(&row.shard_data, SHARD_HEIGHT, row.shard_index) {
            Ok(root) => Ok(Some(LocatedShard { root_addr, root })),
            Err(e) => Err(e),
        }
    }

    /// Checks that an index is one of the indices that are there or next to them.
    fn check_shard_discontinuity(&self, index: u64) -> (result: Result<(), Error>)
        requires
            self.conn@.wf(),
            index < u64::MAX,
        ensures
            error_of(result) == (if discontinuous(self.conn@.shards, index) {
                Some(
                    ErrorView::SubtreeDiscontinuity {
                        attempted: (index, (index + 1) as u64),
                        existing: stored_range(self.conn@.shards)->0,
                    },
                )
            } else {
                None
            }),
    {
        let n: usize = self.conn.shards.len();
        if n == 0 {
            return Ok(());
        }
        proof {
            self.lemma_rows();
        }
        let start: u64 = self.conn.shards[0].shard_index;
        let end: u64 = self.conn.shards[n - 1].shard_index + 1;
        assert(stored_range(self.conn@.shards) == Some((start, end)));
        if start > index + 1 || index > end {
            return Err(
                Error::SubtreeDiscontinuity {
                    attempted_insertion_range: Range { start: index, end: index + 1 },
                    existing_range: Range { start, end },
                },
            );
        }
        Ok(())
    }

    /// Whether another shard has the root hash.
    fn is_root_taken(&self, row: &ShardRow) -> (taken: bool)
        ensures
            taken == root_taken(self.conn@.shards, row@),
    {
        let hash = match &row.root_hash {
            Some(hash) => hash,
            None => return false,
        };
        let mut i: usize = 0;
        while i < self.conn.shards.len()
            invariant
                0 <= i <= self.conn.shards.len(),
                row@.root_hash == Some(hash@),
                forall|j: int|
                    0 <= j < i ==> (#[trigger] self.conn@.shards[j]).shard_index
                        == row.shard_index || self.conn@.shards[j].root_hash != row@.root_hash,
            decreases self.conn.shards.len() - i,
        {
            let other = &self.conn.shards[i];
            assert(self.conn@.shards[i as int] == other@);
            if other.shard_index != row.shard_index {
                if let Some(bytes) = &other.root_hash {
                    if same_bytes(bytes.as_slice(), hash.as_slice()) {
                        assert(self.conn@.shards[i as int].root_hash == row@.root_hash);
                        return true;
                    }
                }
            }
            i = i + 1;
        }
        false
    }

    /// Stores a shard, in place of the one at its index. It must be next to the shards
    /// that are there.
    pub fn put_shard(&mut self, subtree: &LocatedShard) -> (result: Result<(), Error>)
        requires
            old(self).conn@.wf(),
            subtree.root_addr.index < u64::MAX,
        ensures
            final(self).conn@.wf(),
            final(self).table_prefix == old(self).table_prefix,
            error_of(result) == put_error(
                old(self).conn@.shards,
                row_of(subtree.root, subtree.root_addr.index),
            ),
            final(self).conn@ == (if result is Ok {
                TablesView {
                    shards: with_shard(
                        old(self).conn@.shards,
                        row_of(subtree.root, subtree.root_addr.index),
                    ),
                    ..old(self).conn@
                }
            } else {
                old(self).conn@
            }),
    {
        let root_hash = match &subtree.root {
            Shard::Parent { ann: Some(hash), left: _, right: _ } => {
                let mut bytes: Vec<u8> = Vec::new();
                push_bytes(&mut bytes, hash.as_slice());
                assert(bytes@ =~= hash@);
                Some(bytes)
            },
            _ => None,
        };
        let mut shard_data: Vec<u8> = Vec::new();
        write_shard(&mut shard_data, &subtree.root);
        assert(shard_data@ =~= shard_bytes(subtree.root));
        let index: u64 = subtree.root_addr.index;
        if let Err(e) = self.check_shard_discontinuity(index) {
            return Err(e);
        }
        if index > MAX_INTEGER {
            return Err(Error::Query(QueryError::OutOfRange));
        }
        let row = ShardRow { shard_index: index, root_hash, shard_data };
        let ghost view = row_of(subtree.root, index);
        assert(row@ == view);
        if self.is_root_taken(&row) {
            return Err(Error::Query(QueryError::NotUnique));
        }
        proof {
            self.lemma_rows();
        }
        let ghost before = self.conn@.shards;
        let (at, found) = find_shard(&self.conn.shards, index);
        proof {
            assert forall|i: int| 0 <= i < at implies (#[trigger] before[i]).shard_index
                < index by {
                assert(self.conn.shards@[i].shard_index < index);
            }
            assert forall|i: int| at <= i < before.len() implies (#[trigger] before[i]).shard_index
                >= index by {
                assert(self.conn.shards@[i].shard_index >= index);
            }
            lemma_shards_cut(before, index, at as int);
        }
        if found {
            self.conn.shards.set(at, row);
            assert(self.conn@.shards =~= before.take(at as int).push(view) + before.skip(
                at as int + 1,
            ));
        } else {
            self.conn.shards.insert(at, row);
            assert(self.conn@.shards =~= before.take(at as int).push(view) + before.skip(
                at as int,
            ));
        }
        proof {
            assert(self.conn@.shards == with_shard(before, view));
            lemma_with_shard_wf(before, view, at as int);
        }
        Ok(())
    }

    /// The places of the shards, in the order of their indices.
    pub fn get_shard_roots(&self) -> (result: Result<Vec<Address>, Error>)
        ensures
            result is Ok,
            (result->Ok_0)@ == self.conn@.shards.map_values(
                |r: ShardRowView| Address { level: SHARD_HEIGHT, index: r.shard_index },
            ),
    {
        let mut roots: Vec<Address> = Vec::new();
        let ghost all = self.conn@.shards.map_values(
            |r: ShardRowView| Address { level: SHARD_HEIGHT, index: r.shard_index },
        );
        let mut i: usize = 0;
        while i < self.conn.shards.len()
            invariant
                0 <= i <= self.conn.shards.len(),
                all == self.conn@.shards.map_values(
                    |r: ShardRowView| Address { level: SHARD_HEIGHT, index: r.shard_index },
                ),
                roots@ == all.take(i as int),
            decreases self.conn.shards.len() - i,
        {
            roots.push(Address { level: SHARD_HEIGHT, index: self.conn.shards[i].shard_index });
            assert(roots@ =~= all.take(i as int + 1));
            i = i + 1;
        }
        assert(all.take(i as int) =~= all);
        Ok(roots)
    }

    /// Removes the shards from an index on.
    pub fn truncate_shards(&mut self, shard_index: u64) -> (result: Result<(), Error>)
        requires
            old(self).conn@.wf(),
        ensures
            final(self).conn@.wf(),
            final(self).table_prefix == old(self).table_prefix,
            error_of(result) == (if shard_index > MAX_INTEGER {
                Some(ErrorView::Query(QueryError::OutOfRange))
            } else {
                None
            }),
            final(self).conn@ == (if result is Ok {
                TablesView {
                    shards: old(self).conn@.shards.filter(
                        |r: ShardRowView| r.shard_index < shard_index,
                    ),
                    ..old(self).conn@
                }
            } else {
                old(self).conn@
            }),
    {
        if shard_index > MAX_INTEGER {
            return Err(Error::Query(QueryError::OutOfRange));
        }
        proof {
            self.lemma_rows();
        }
        let ghost before = self.conn@.shards;
        let (at, _) = find_shard(&self.conn.shards, shard_index);
        proof {
            assert forall|i: int| 0 <= i < at implies (#[trigger] before[i]).shard_index
                < shard_index by {
                assert(self.conn.shards@[i].shard_index < shard_index);
            }
            assert forall|i: int| at <= i < before.len() implies (#[trigger] before[i]).shard_index
                >= shard_index by {
                assert(self.conn.shards@[i].shard_index >= shard_index);
            }
            lemma_shards_cut(before, shard_index, at as int);
        }
        self.conn.shards.truncate(at);
        assert(self.conn@.shards =~= before.take(at as int));
        Ok(())
    }

    /// The cap; an empty one, where none was stored.
    pub fn get_cap(&self) -> (result: Result<Shard, Error>)
        ensures
            result == (match self.conn@.cap {
                None => Ok::<Shard, Error>(Shard::Nil),
                Some(bytes) => match shard_of(bytes) {
                    Ok(cap) => Ok(cap),
                    Err(e) => Err(Error::Serialization(e)),
                },
            }),
    {
        match &self.conn.cap {
            None => Ok(Shard::Nil),
            Some(bytes) => match read_shard(bytes.as_slice()) {
                Ok(cap) => Ok(cap),
                Err(e) => Err(Error::Serialization(e)),
            },
        }
    }

    /// Stores the cap.
    pub fn put_cap(&mut self, cap: &Shard) -> (result: Result<(), Error>)
        ensures
            result is Ok,
            final(self).table_prefix == old(self).table_prefix,
            final(self).conn@ == (TablesView { cap: Some(shard_bytes(*cap)), ..old(self).conn@ }),
    {
        let mut bytes: Vec<u8> = Vec::new();
        write_shard(&mut bytes, cap);
        assert(bytes@ =~= shard_bytes(*cap));
        self.conn.cap = Some(bytes);
        Ok(())
    }

    /// The lowest height of a checkpoint.
    pub fn min_checkpoint_id(&self) -> (result: Result<Option<u32>, Error>)
        ensures
            result == Ok::<Option<u32>, Error>(
                if self.conn@.checkpoints.len() == 0 {
                    None
                } else {
                    Some(self.conn@.checkpoints.first().0)
                },
            ),
    {
        if self.conn.checkpoints.len() == 0 {
            return Ok(None);
        }
        Ok(Some(self.conn.checkpoints[0].checkpoint_id))
    }

    /// The highest height of a checkpoint.
    pub fn max_checkpoint_id(&self) -> (result: Result<Option<u32>, Error>)
        ensures
            result == Ok::<Option<u32>, Error>(
                if self.conn@.checkpoints.len() == 0 {
                    None
                } else {
                    Some(self.conn@.checkpoints.last().0)
                },
            ),
    {
        let n: usize = self.conn.checkpoints.len();
        if n == 0 {
            return Ok(None);
        }
        Ok(Some(self.conn.checkpoints[n - 1].checkpoint_id))
    }

    /// The number of checkpoints.
    pub fn checkpoint_count(&self) -> (result: Result<usize, Error>)
        ensures
            result is Ok,
            result->Ok_0 == self.conn@.checkpoints.len(),
    {
        Ok(self.conn.checkpoints.len())
    }

    /// The checkpoint at a height.
    pub fn get_checkpoint(&self, checkpoint_id: u32) -> (result: Result<Option<Checkpoint>, Error>)
        requires
            self.conn@.wf(),
        ensures
            result is Ok,
            (match result->Ok_0 {
                Some(checkpoint) => Some(checkpoint@),
                None => None,
            }) == checkpoint_at(self.conn@.checkpoints, checkpoint_id),
            result->Ok_0 is Some ==> ((result->Ok_0)->0).wf(),
    {
        proof {
            self.lemma_rows();
        }
        let (at, found) = find_checkpoint(&self.conn.checkpoints, checkpoint_id);
        if !found {
            return Ok(None);
        }
        assert(increasing(self.conn@.checkpoints[at as int].1.marks_removed));
        Ok(Some(self.conn.checkpoints[at].checkpoint.duplicate()))
    }

    /// The checkpoint at a depth, with its height: depth 0 is the highest.
    pub fn get_checkpoint_at_depth(&self, checkpoint_depth: usize) -> (result: Result<
        Option<(u32, Checkpoint)>,
        Error,
    >)
        ensures
            error_of(result) == (if checkpoint_depth > MAX_INTEGER {
                Some(ErrorView::Query(QueryError::OutOfRange))
            } else {
                None
            }),
            result is Ok ==> (match result->Ok_0 {
                Some((id, checkpoint)) => Some((id, checkpoint@)),
                None => None,
            }) == (if checkpoint_depth < self.conn@.checkpoints.len() {
                Some(
                    self.conn@.checkpoints[self.conn@.checkpoints.len() - 1 - checkpoint_depth],
                )
            } else {
                None
            }),
    {
        if checkpoint_depth as u64 > MAX_INTEGER {
            return Err(Error::Query(QueryError::OutOfRange));
        }
        let n: usize = self.conn.checkpoints.len();
        if checkpoint_depth >= n {
            return Ok(None);
        }
        let row = &self.conn.checkpoints[n - 1 - checkpoint_depth];
        assert(self.conn@.checkpoints[n - 1 - checkpoint_depth] == row@);
        Ok(Some((row.checkpoint_id, row.checkpoint.duplicate())))
    }

    /// Adds a checkpoint at a height. One that is there already must be the same.
    pub fn add_checkpoint(&mut self, checkpoint_id: u32, checkpoint: Checkpoint) -> (result: Result<
        (),
        Error,
    >)
        requires
            old(self).conn@.wf(),
            checkpoint.wf(),
        ensures
            final(self).conn@.wf(),
            final(self).table_prefix == old(self).table_prefix,
            error_of(result) == checkpoint_added(
                old(self).conn@.checkpoints,
                checkpoint_id,
                checkpoint@,
            ).1,
            final(self).conn@ == (TablesView {
                checkpoints: checkpoint_added(
                    old(self).conn@.checkpoints,
                    checkpoint_id,
                    checkpoint@,
                ).0,
                ..old(self).conn@
            }),
    {
        proof {
            self.lemma_rows();
        }
        let ghost before = self.conn@.checkpoints;
        let (at, found) = find_checkpoint(&self.conn.checkpoints, checkpoint_id);
        if found {
            let extant_tree_state = self.conn.checkpoints[at].checkpoint.tree_state;
            if extant_tree_state != checkpoint.tree_state {
                return Err(
                    Error::CheckpointConflict {
                        checkpoint_id,
                        checkpoint,
                        extant_tree_state,
                        extant_marks_removed: None,
                    },
                );
            }
            let extant = &self.conn.checkpoints[at].checkpoint.marks_removed;
            if same_numbers(extant, &checkpoint.marks_removed) {
                return Ok(());
            }
            let extant_marks_removed = Some(copy_numbers(extant));
            return Err(
                Error::CheckpointConflict {
                    checkpoint_id,
                    checkpoint,
                    extant_tree_state,
                    extant_marks_removed,
                },
            );
        }
        if let TreeState::AtPosition(position) = checkpoint.tree_state {
            if position > MAX_INTEGER {
                return Err(Error::Query(QueryError::OutOfRange));
            }
        }
        let (marks_removed, all) = fit_marks(&checkpoint.marks_removed);
        let stored = Checkpoint { tree_state: checkpoint.tree_state, marks_removed };
        let ghost view = stored@;
        self.conn.checkpoints.insert(at, CheckpointRow { checkpoint_id, checkpoint: stored });
        proof {
            assert forall|i: int| 0 <= i < at implies (#[trigger] before[i]).0 < checkpoint_id by {
                assert(old(self).conn.checkpoints@[i].checkpoint_id < checkpoint_id);
            }
            assert forall|i: int| at <= i < before.len() implies (#[trigger] before[i]).0
                >= checkpoint_id by {
                assert(old(self).conn.checkpoints@[i].checkpoint_id >= checkpoint_id);
            }
            lemma_checkpoints_cut(before, checkpoint_id, at as int);
            let after = self.conn@.checkpoints;
            assert(after =~= before.take(at as int).push((checkpoint_id, view)) + before.skip(
                at as int,
            ));
            assert(after == with_checkpoint(before, checkpoint_id, view));
            assert forall|i: int, j: int| 0 <= i < j < after.len() implies (#[trigger] after[i]).0
                < (#[trigger] after[j]).0 by {
                let bi = if i < at { i } else { i - 1 };
                let bj = if j < at { j } else { j - 1 };
                if i != at && j != at {
                    assert(before[bi].0 < before[bj].0);
                } else if i == at {
                    assert(before[bj].0 >= checkpoint_id);
                    assert(old(self).conn.checkpoints@[bj].checkpoint_id == before[bj].0);
                    assert(before[at as int].0 != checkpoint_id);
                    if bj > at {
                        assert(before[at as int].0 < before[bj].0);
                    }
                } else {
                    assert(before[bi].0 < checkpoint_id);
                }
            }
            assert forall|i: int| 0 <= i < after.len() implies increasing(
                (#[trigger] after[i]).1.marks_removed,
            ) by {
                let bi = if i < at { i } else { i - 1 };
                if i != at {
                    assert(increasing(before[bi].1.marks_removed));
                }
            }
        }
        if all {
            Ok(())
        } else {
            Err(Error::Query(QueryError::OutOfRange))
        }
    }

    /// Removes the checkpoint at a height, where there is one.
    pub fn remove_checkpoint(&mut self, checkpoint_id: u32) -> (result: Result<(), Error>)
        requires
            old(self).conn@.wf(),
        ensures
            result is Ok,
            final(self).conn@.wf(),
            final(self).table_prefix == old(self).table_prefix,
            final(self).conn@ == (TablesView {
                checkpoints: without_checkpoint(old(self).conn@.checkpoints, checkpoint_id),
                ..old(self).conn@
            }),
    {
        let ghost tables = self.conn@;
        proof {
            self.lemma_rows();
            lemma_without_checkpoint_wf(tables, checkpoint_id);
        }
        drop_checkpoint(&mut self.conn.checkpoints, checkpoint_id);
        Ok(())
    }
}

/// Removes the row of the checkpoint at a height, where there is one.
fn drop_checkpoint(rows: &mut Vec<CheckpointRow>, id: u32)
    requires
        forall|i: int, j: int|
            0 <= i < j < old(rows)@.len() ==> (#[trigger] old(rows)@[i]).checkpoint_id < (
            #[trigger] old(rows)@[j]).checkpoint_id,
    ensures
        checkpoint_views(final(rows)@) == without_checkpoint(checkpoint_views(old(rows)@), id),
{
    let ghost before = checkpoint_views(rows@);
    let (at, found) = find_checkpoint(rows, id);
    proof {
        assert forall|i: int| 0 <= i < at implies (#[trigger] before[i]).0 < id by {
            assert(rows@[i].checkpoint_id < id);
        }
        assert forall|i: int| at <= i < before.len() implies (#[trigger] before[i]).0 >= id by {
            assert(rows@[i].checkpoint_id >= id);
        }
        assert forall|i: int, j: int| 0 <= i < j < before.len() implies (#[trigger] before[i]).0 < (
        #[trigger] before[j]).0 by {
            assert(rows@[i].checkpoint_id < rows@[j].checkpoint_id);
        }
        lemma_checkpoints_cut(before, id, at as int);
    }
    if found {
        rows.remove(at);
        assert(checkpoint_views(rows@) =~= before.take(at as int) + before.skip(at as int + 1));
    } else {
        assert(before =~= before.take(at as int) + before.skip(at as int));
    }
}

/// What a list keeps of what it holds was in it, in the same order.
proof fn lemma_filter_order(
    rows: Seq<(u32, CheckpointView)>,
    keep: spec_fn((u32, CheckpointView)) -> bool,
)
    requires
        forall|i: int, j: int|
            0 <= i < j < rows.len() ==> (#[trigger] rows[i]).0 < (#[trigger] rows[j]).0,
    ensures
        forall|i: int, j: int|
            0 <= i < j < rows.filter(keep).len() ==> (#[trigger] rows.filter(keep)[i]).0 < (
            #[trigger] rows.filter(keep)[j]).0,
        forall|i: int|
            0 <= i < rows.filter(keep).len() ==> keep(#[trigger] rows.filter(keep)[i])
                && rows.contains(rows.filter(keep)[i]),
    decreases rows.len(),
{
    reveal(Seq::filter);
    if rows.len() > 0 {
        let init = rows.drop_last();
        assert forall|i: int, j: int| 0 <= i < j < init.len() implies (#[trigger] init[i]).0 < (
        #[trigger] init[j]).0 by {
            assert(rows[i].0 < rows[j].0);
        }
        lemma_filter_order(init, keep);
        let before = init.filter(keep);
        let after = rows.filter(keep);
        assert forall|i: int| 0 <= i < after.len() implies keep(#[trigger] after[i])
            && rows.contains(after[i]) by {
            if i < before.len() {
                assert(init.contains(before[i]));
                let k = choose|k: int| 0 <= k < init.len() && init[k] == before[i];
                assert(rows[k] == after[i]);
            } else {
                assert(rows[rows.len() - 1] == after[i]);
            }
        }
        assert forall|i: int, j: int| 0 <= i < j < after.len() implies (#[trigger] after[i]).0 < (
        #[trigger] after[j]).0 by {
            if j < before.len() {
                assert(before[i].0 < before[j].0);
            } else {
                assert(init.contains(before[i]));
                let k = choose|k: int| 0 <= k < init.len() && init[k] == before[i];
                assert(rows[k].0 < rows[rows.len() - 1].0);
            }
        }
    }
}

/// Removing a checkpoint keeps the tables well formed.
proof fn lemma_without_checkpoint_wf(tables: TablesView, id: u32)
    requires
        tables.wf(),
    ensures
        (TablesView { checkpoints: without_checkpoint(tables.checkpoints, id), ..tables }).wf(),
{
    let rows = tables.checkpoints;
    let low = rows.filter(|r: (u32, CheckpointView)| r.0 < id);
    let high = rows.filter(|r: (u32, CheckpointView)| r.0 > id);
    lemma_filter_order(rows, |r: (u32, CheckpointView)| r.0 < id);
    lemma_filter_order(rows, |r: (u32, CheckpointView)| r.0 > id);
    let after = without_checkpoint(rows, id);
    assert(after == low + high);
    assert forall|i: int, j: int| 0 <= i < j < after.len() implies (#[trigger] after[i]).0 < (
    #[trigger] after[j]).0 by {
        if j < low.len() {
            assert(low[i].0 < low[j].0);
        } else if i < low.len() {
            assert(low[i].0 < id);
            assert(high[j - low.len()].0 > id);
        } else {
            assert(high[i - low.len()].0 < high[j - low.len()].0);
        }
    }
    assert forall|i: int| 0 <= i < after.len() implies increasing(
        (#[trigger] after[i]).1.marks_removed,
    ) by {
        let row = if i < low.len() { low[i] } else { high[i - low.len()] };
        assert(rows.contains(row));
        let k = choose|k: int| 0 <= k < rows.len() && rows[k] == row;
        assert(increasing(rows[k].1.marks_removed));
    }
}

/// Putting a shard in keeps the order of the rows and the root hashes apart.
proof fn lemma_with_shard_wf(before: Seq<ShardRowView>, row: ShardRowView, n: int)
    requires
        (TablesView { shards: before, cap: None, checkpoints: Seq::empty() }).wf(),
        0 <= n <= before.len(),
        forall|i: int| 0 <= i < n ==> (#[trigger] before[i]).shard_index < row.shard_index,
        forall|i: int|
            n <= i < before.len() ==> (#[trigger] before[i]).shard_index >= row.shard_index,
        row.shard_index <= MAX_INTEGER,
        !root_taken(before, row),
    ensures
        (TablesView {
            shards: with_shard(before, row),
            cap: None,
            checkpoints: Seq::empty(),
        }).wf(),
{
    let index = row.shard_index;
    lemma_shards_cut(before, index, n);
    let found = n < before.len() && before[n].shard_index == index;
    let after = with_shard(before, row);
    let shift: int = if found { 0 } else { 1 };
    assert forall|i: int| 0 <= i < after.len() && i != n implies (#[trigger] after[i])
        == before[if i < n { i } else { i - shift }] && after[i].shard_index != index by {
        let b = if i < n { i } else { i - shift };
        if i > n && b > n {
            assert(before[n].shard_index < before[b].shard_index);
        }
    }
    assert(after[n] == row);
    assert forall|i: int, j: int| 0 <= i < j < after.len() implies (#[trigger] after[i]).shard_index
        < (#[trigger] after[j]).shard_index by {
        let bi = if i < n { i } else { i - shift };
        let bj = if j < n { j } else { j - shift };
        if i != n && j != n {
            assert(before[bi].shard_index < before[bj].shard_index);
        } else if i == n {
            assert(before[bj].shard_index >= index);
        } else {
            assert(before[bi].shard_index < index);
        }
    }
    assert forall|i: int| 0 <= i < after.len() implies (#[trigger] after[i]).shard_index
        <= MAX_INTEGER by {
        if i != n {
            let b = if i < n { i } else { i - shift };
            assert(before[b].shard_index <= MAX_INTEGER);
        }
    }
    assert forall|i: int, j: int|
        0 <= i < j < after.len() && (#[trigger] after[i]).root_hash is Some implies after[i].root_hash
        != (#[trigger] after[j]).root_hash by {
        let bi = if i < n { i } else { i - shift };
        let bj = if j < n { j } else { j - shift };
        if i != n && j != n {
            assert(before[bi].root_hash != before[bj].root_hash);
        } else if i == n {
            assert(before[bj].shard_index != index);
        } else {
            assert(before[bi].shard_index != index);
        }
    }
}

/// A checkpoint with no marks removed, where it is at a height.
pub open spec fn marks_cleared(row: (u32, CheckpointView), id: u32) -> (u32, CheckpointView) {
    if row.0 == id {
        (row.0, CheckpointView { tree_state: row.1.tree_state, marks_removed: Seq::empty() })
    } else {
        row
    }
}

/// The checkpoints up to a height, the one at it with no marks removed.
pub open spec fn retained(rows: Seq<(u32, CheckpointView)>, id: u32) -> Seq<(u32, CheckpointView)> {
    rows.filter(|r: (u32, CheckpointView)| r.0 <= id).map_values(
        |r: (u32, CheckpointView)| marks_cleared(r, id),
    )
}

/// Whether checkpoints stand in the order of their positions.
pub open spec fn by_position(rows: Seq<(u32, CheckpointView)>) -> bool {
    forall|i: int, j: int|
        0 <= i < j < rows.len() ==> key_le(
            position_key(#[trigger] rows[i]),
            position_key(#[trigger] rows[j]),
        )
}

/// What checkpoints with their heights hold.
pub open spec fn pair_views(rows: Seq<(u32, Checkpoint)>) -> Seq<(u32, CheckpointView)> {
    rows.map_values(|r: (u32, Checkpoint)| (r.0, r.1@))
}

/// An insertion adds to the multiset.
proof fn lemma_inserted(s: Seq<(u32, CheckpointView)>, at: int, row: (u32, CheckpointView))
    requires
        0 <= at <= s.len(),
    ensures
        s.insert(at, row).to_multiset() == s.to_multiset().insert(row),
{
    broadcast use vstd::seq_lib::group_to_multiset_ensures;

}

impl<const SHARD_HEIGHT: u8> SqliteShardStore<ShardTables, SHARD_HEIGHT> {
    /// Removes the checkpoints above a height, and forgets the marks removed of the one
    /// at it.
    pub fn truncate_checkpoints_retaining(&mut self, checkpoint_id: u32) -> (result: Result<(), Error>)
        requires
            old(self).conn@.wf(),
        ensures
            result is Ok,
            final(self).conn@.wf(),
            final(self).table_prefix == old(self).table_prefix,
            final(self).conn@ == (TablesView {
                checkpoints: retained(old(self).conn@.checkpoints, checkpoint_id),
                ..old(self).conn@
            }),
    {
        proof {
            self.lemma_rows();
        }
        let ghost before = self.conn@.checkpoints;
        let (at, found) = find_checkpoint(&self.conn.checkpoints, checkpoint_id);
        let ghost kept: int = if found { at + 1 } else { at as int };
        proof {
            assert forall|i: int| 0 <= i < kept implies (#[trigger] before[i]).0
                <= checkpoint_id by {
                if i < at {
                    assert(self.conn.checkpoints@[i].checkpoint_id < checkpoint_id);
                }
            }
            assert forall|i: int| kept <= i < before.len() implies (#[trigger] before[i]).0
                > checkpoint_id by {
                assert(self.conn.checkpoints@[i].checkpoint_id >= checkpoint_id);
                assert(self.conn.checkpoints@[at as int].checkpoint_id >= checkpoint_id);
                if i > at {
                    assert(before[at as int].0 < before[i].0);
                }
            }
            lemma_filter_take(
                before,
                |r: (u32, CheckpointView)| r.0 <= checkpoint_id,
                kept,
            );
        }
        if found {
            assert(at < self.conn.checkpoints.len());
            self.conn.checkpoints.truncate(at + 1);
            let tree_state = self.conn.checkpoints[at].checkpoint.tree_state;
            self.conn.checkpoints.set(
                at,
                CheckpointRow {
                    checkpoint_id,
                    checkpoint: Checkpoint { tree_state, marks_removed: Vec::new() },
                },
            );
            assert(self.conn@.checkpoints[at as int].1.marks_removed =~= Seq::empty());
        } else {
            self.conn.checkpoints.truncate(at);
        }
        proof {
            let after = self.conn@.checkpoints;
            assert forall|i: int| 0 <= i < after.len() implies (#[trigger] after[i])
                == marks_cleared(before[i], checkpoint_id) by {
                if i < at {
                    assert(before[i].0 < checkpoint_id);
                }
            }
            assert(after =~= retained(before, checkpoint_id));
            assert forall|i: int, j: int| 0 <= i < j < after.len() implies (#[trigger] after[i]).0
                < (#[trigger] after[j]).0 by {
                assert(before[i].0 < before[j].0);
            }
            assert forall|i: int| 0 <= i < after.len() implies increasing(
                (#[trigger] after[i]).1.marks_removed,
            ) by {
                assert(increasing(before[i].1.marks_removed));
            }
        }
        Ok(())
    }

    /// Changes the checkpoint at a height, where there is one: it is removed, and what
    /// `update` makes of it is added.
    pub fn update_checkpoint_with<F: Fn(Checkpoint) -> Result<Checkpoint, Error>>(
        &mut self,
        checkpoint_id: u32,
        update: F,
    ) -> (result: Result<bool, Error>)
        requires
            old(self).conn@.wf(),
            forall|c: Checkpoint| c.wf() ==> call_requires(update, (c,)),
            forall|c: Checkpoint, r: Result<Checkpoint, Error>|
                call_ensures(update, (c,), r) && r is Ok ==> (r->Ok_0).wf(),
        ensures
            final(self).conn@.wf(),
            final(self).table_prefix == old(self).table_prefix,
            match checkpoint_at(old(self).conn@.checkpoints, checkpoint_id) {
                None => result == Ok::<bool, Error>(false) && final(self).conn@ == old(self).conn@,
                Some(extant) => exists|c: Checkpoint, updated: Result<Checkpoint, Error>|
                    c@ == extant && #[trigger] call_ensures(update, (c,), updated) && match updated {
                        Err(e) => result == Err::<bool, Error>(e) && final(self).conn@ == old(
                            self,
                        ).conn@,
                        Ok(new) => {
                            let added = checkpoint_added(
                                without_checkpoint(old(self).conn@.checkpoints, checkpoint_id),
                                checkpoint_id,
                                new@,
                            );
                            &&& error_of(result) == added.1
                            &&& result is Ok ==> result->Ok_0
                            &&& final(self).conn@ == (TablesView {
                                checkpoints: added.0,
                                ..old(self).conn@
                            })
                        },
                    },
            },
    {
        let checkpoint = match self.get_checkpoint(checkpoint_id) {
            Ok(Some(checkpoint)) => checkpoint,
            Ok(None) => return Ok(false),
            Err(e) => return Err(e),
        };
        let ghost extant = checkpoint;
        let updated = update(checkpoint);
        assert(call_ensures(update, (extant,), updated));
        match updated {
            Err(e) => Err(e),
            Ok(new) => {
                let ghost made = new;
                if let Err(e) = self.remove_checkpoint(checkpoint_id) {
                    return Err(e);
                }
                match self.add_checkpoint(checkpoint_id, new) {
                    Ok(()) => Ok(true),
                    Err(e) => Err(e),
                }
            },
        }
    }

    /// The first checkpoints in the order of their positions, with the empty tree first
    /// and equal positions by height; at most `limit` of them.
    pub fn with_checkpoints(&self, limit: usize) -> (result: Result<Vec<(u32, Checkpoint)>, Error>)
        ensures
            error_of(result) == (if limit > MAX_INTEGER {
                Some(ErrorView::Query(QueryError::OutOfRange))
            } else {
                None
            }),
            result is Ok ==> exists|all: Seq<(u32, CheckpointView)>| #[trigger]
                by_position(all) && all.to_multiset() == self.conn@.checkpoints.to_multiset()
                    && pair_views((result->Ok_0)@) == all.take(
                    if limit < all.len() {
                        limit as int
                    } else {
                        all.len() as int
                    },
                ),
    {
        if limit as u64 > MAX_INTEGER {
            return Err(Error::Query(QueryError::OutOfRange));
        }
        let mut sorted: Vec<CheckpointRow> = Vec::new();
        let mut i: usize = 0;
        let ghost rows = self.conn@.checkpoints;
        assert(checkpoint_views(sorted@) =~= rows.take(0));
        while i < self.conn.checkpoints.len()
            invariant
                0 <= i <= self.conn.checkpoints.len(),
                rows == self.conn@.checkpoints,
                in_order(sorted@),
                checkpoint_views(sorted@).to_multiset() == rows.take(i as int).to_multiset(),
            decreases self.conn.checkpoints.len() - i,
        {
            let row = &self.conn.checkpoints[i];
            let copy = CheckpointRow {
                checkpoint_id: row.checkpoint_id,
                checkpoint: row.checkpoint.duplicate(),
            };
            let ghost before = checkpoint_views(sorted@);
            let ghost view = copy@;
            let at = insert_in_order(&mut sorted, copy);
            proof {
                assert(checkpoint_views(sorted@) =~= before.insert(at as int, view));
                lemma_inserted(before, at as int, view);
                lemma_inserted(rows.take(i as int), i as int, view);
                assert(rows.take(i as int + 1) =~= rows.take(i as int).insert(i as int, view));
            }
            i = i + 1;
        }
        assert(rows.take(i as int) =~= rows);
        let ghost all = checkpoint_views(sorted@);
        proof {
            assert forall|i: int, j: int| 0 <= i < j < all.len() implies key_le(
                position_key(#[trigger] all[i]),
                position_key(#[trigger] all[j]),
            ) by {
                assert(key_le(sorted@[i].key(), sorted@[j].key()));
            }
            assert(by_position(all));
        }
        let mut out: Vec<(u32, Checkpoint)> = Vec::new();
        let mut k: usize = 0;
        while k < sorted.len() && k < limit
            invariant
                0 <= k <= sorted.len(),
                k <= limit,
                all == checkpoint_views(sorted@),
                pair_views(out@) == all.take(k as int),
            decreases sorted.len() - k,
        {
            let ghost before = out@;
            let pair = (sorted[k].checkpoint_id, sorted[k].checkpoint.duplicate());
            out.push(pair);
            proof {
                assert(pair_views(out@) =~= pair_views(before).push((pair.0, pair.1@)));
                assert(all[k as int] == (pair.0, pair.1@));
                assert(pair_views(out@) =~= all.take(k as int + 1));
            }
            k = k + 1;
        }
        Ok(out)
    }
}

impl Error {
    /// The error as one sentence.
    pub open spec fn text(self) -> Seq<char> {
        match self {
            Error::Serialization(e) => "commitment tree serialization error: "@ + e.text(),
            Error::Query(QueryError::OutOfRange) =>
                "commitment tree query/update error: integer out of range"@,
            Error::Query(QueryError::NotUnique) =>
                "commitment tree query/update error: root hash not unique"@,
            Error::CheckpointConflict { checkpoint_id, .. } =>
                "conflicting checkpoint at height "@ + decimal(checkpoint_id as nat),
            Error::SubtreeDiscontinuity { attempted_insertion_range, existing_range } =>
                "shard insertion "@ + decimal(attempted_insertion_range.start as nat) + ".."@
                + decimal(attempted_insertion_range.end as nat) + " is discontinuous with "@
                + decimal(existing_range.start as nat) + ".."@ + decimal(
                existing_range.end as nat,
            ),
        }
    }

    /// The error as one sentence.
    pub fn to_text(&self) -> (text: String)
        ensures
            text@ == self.text(),
    {
        match self {
            Error::Serialization(e) => {
                let mut text = "commitment tree serialization error: ".to_owned();
                text.append(e.to_text().as_str());
                text
            },
            Error::Query(QueryError::OutOfRange) => {
                "commitment tree query/update error: integer out of range".to_owned()
            },
            Error::Query(QueryError::NotUnique) => {
                "commitment tree query/update error: root hash not unique".to_owned()
            },
            Error::CheckpointConflict { checkpoint_id, .. } => {
                let mut text = "conflicting checkpoint at height ".to_owned();
                append_decimal(&mut text, *checkpoint_id as u64);
                text
            },
            Error::SubtreeDiscontinuity { attempted_insertion_range, existing_range } => {
                let mut text = "shard insertion ".to_owned();
                append_decimal(&mut text, attempted_insertion_range.start);
                text.append("..");
                append_decimal(&mut text, attempted_insertion_range.end);
                text.append(" is discontinuous with ");
                append_decimal(&mut text, existing_range.start);
                text.append("..");
                append_decimal(&mut text, existing_range.end);
                text
            },
        }
    }
}

/// Where rows before a place are below an index and rows from it on are not: such a place
/// there always is.
proof fn lemma_shard_place(shards: Seq<ShardRowView>, index: u64) -> (n: int)
    requires
        forall|i: int, j: int|
            0 <= i < j < shards.len() ==> (#[trigger] shards[i]).shard_index < (
            #[trigger] shards[j]).shard_index,
    ensures
        0 <= n <= shards.len(),
        forall|i: int| 0 <= i < n ==> (#[trigger] shards[i]).shard_index < index,
        forall|i: int| n <= i < shards.len() ==> (#[trigger] shards[i]).shard_index >= index,
    decreases shards.len(),
{
    if shards.len() == 0 || shards.last().shard_index < index {
        assert forall|i: int| 0 <= i < shards.len() implies (#[trigger] shards[i]).shard_index
            < index by {
            if i < shards.len() - 1 {
                assert(shards[i].shard_index < shards[shards.len() - 1].shard_index);
            }
        }
        shards.len() as int
    } else {
        let rest = shards.drop_last();
        let n = lemma_shard_place(rest, index);
        assert forall|i: int| 0 <= i < n implies (#[trigger] shards[i]).shard_index < index by {
            assert(rest[i].shard_index < index);
        }
        assert forall|i: int| n <= i < shards.len() implies (#[trigger] shards[i]).shard_index
            >= index by {
            if i < shards.len() - 1 {
                assert(rest[i].shard_index >= index);
            }
        }
        n
    }
}

/// The same of checkpoints.
proof fn lemma_checkpoint_place(rows: Seq<(u32, CheckpointView)>, id: u32) -> (n: int)
    requires
        forall|i: int, j: int|
            0 <= i < j < rows.len() ==> (#[trigger] rows[i]).0 < (#[trigger] rows[j]).0,
    ensures
        0 <= n <= rows.len(),
        forall|i: int| 0 <= i < n ==> (#[trigger] rows[i]).0 < id,
        forall|i: int| n <= i < rows.len() ==> (#[trigger] rows[i]).0 >= id,
    decreases rows.len(),
{
    if rows.len() == 0 || rows.last().0 < id {
        assert forall|i: int| 0 <= i < rows.len() implies (#[trigger] rows[i]).0 < id by {
            if i < rows.len() - 1 {
                assert(rows[i].0 < rows[rows.len() - 1].0);
            }
        }
        rows.len() as int
    } else {
        let rest = rows.drop_last();
        let n = lemma_checkpoint_place(rest, id);
        assert forall|i: int| 0 <= i < n implies (#[trigger] rows[i]).0 < id by {
            assert(rest[i].0 < id);
        }
        assert forall|i: int| n <= i < rows.len() implies (#[trigger] rows[i]).0 >= id by {
            if i < rows.len() - 1 {
                assert(rest[i].0 >= id);
            }
        }
        n
    }
}

/// A shard that was put is read back as it was, and every other shard is as it was.
pub proof fn law_put_shard_read_back(tables: TablesView, shard: Shard, level: u8, index: u64, other: u64)
    requires
        tables.wf(),
        valid_shard(shard),
        misplaced(shard, level, index) is None,
        put_error(tables.shards, row_of(shard, index)) is None,
    ensures
        shard_row(with_shard(tables.shards, row_of(shard, index)), index) == Some(
            row_of(shard, index),
        ),
        row_shard(row_of(shard, index), level, index) == Ok::<Shard, ShardError>(shard),
        other != index ==> shard_row(with_shard(tables.shards, row_of(shard, index)), other)
            == shard_row(tables.shards, other),
{
    let before = tables.shards;
    let row = row_of(shard, index);
    let after = with_shard(before, row);
    let n = lemma_shard_place(before, index);
    lemma_shards_cut(before, index, n);
    lemma_with_shard_wf(before, row, n);
    let wf = TablesView { shards: after, cap: None, checkpoints: Seq::empty() };
    assert(wf.wf());
    assert(after[n] == row);
    assert(after[n].shard_index == index);
    let i = choose|i: int| 0 <= i < after.len() && (#[trigger] after[i]).shard_index == index;
    if i < n {
        assert(wf.shards[i].shard_index < wf.shards[n].shard_index);
    } else if i > n {
        assert(wf.shards[n].shard_index < wf.shards[i].shard_index);
    }
    law_shard_round_trip(shard, Seq::empty());
    assert(shard_bytes(shard) + Seq::<u8>::empty() =~= shard_bytes(shard));
    if let Some(bytes) = row.root_hash {
        if let Shard::Parent { ann: Some(hash), left, right } = shard {
            assert(bytes.subrange(0, 32) =~= hash@);
            lemma_array32(hash);
            assert(hash_at(bytes, 0) == Ok::<([u8; 32], int), ShardError>((hash, 32)));
            assert(reannotated(shard, hash) == shard);
        }
    }
    if other != index {
        lemma_other_shard(before, after, n, index, other);
    }
}

/// Another row of the shards is as it was.
proof fn lemma_other_shard(
    before: Seq<ShardRowView>,
    after: Seq<ShardRowView>,
    n: int,
    index: u64,
    other: u64,
)
    requires
        0 <= n <= before.len(),
        forall|i: int, j: int|
            0 <= i < j < before.len() ==> (#[trigger] before[i]).shard_index < (
            #[trigger] before[j]).shard_index,
        forall|i: int, j: int|
            0 <= i < j < after.len() ==> (#[trigger] after[i]).shard_index < (
            #[trigger] after[j]).shard_index,
        n < after.len(),
        after[n].shard_index == index,
        other != index,
        after == before.take(n).push(after[n]) + (if n < before.len() && before[n].shard_index
            == index {
            before.skip(n + 1)
        } else {
            before.skip(n)
        }),
    ensures
        shard_row(after, other) == shard_row(before, other),
{
    let shift: int = if n < before.len() && before[n].shard_index == index { 0 } else { 1 };
    assert forall|i: int| 0 <= i < before.len() && (#[trigger] before[i]).shard_index
        != index implies after[if i < n { i } else { i + shift }] == before[i] by {}
    assert forall|i: int| 0 <= i < after.len() && i != n implies (#[trigger] after[i])
        == before[if i < n { i } else { i - shift }] by {}
    if exists|i: int| 0 <= i < before.len() && (#[trigger] before[i]).shard_index == other {
        let i = choose|i: int| 0 <= i < before.len() && (#[trigger] before[i]).shard_index == other;
        let a = if i < n { i } else { i + shift };
        assert(after[a].shard_index == other);
        let k = choose|k: int| 0 <= k < after.len() && (#[trigger] after[k]).shard_index == other;
        if k < a {
            assert(after[k].shard_index < after[a].shard_index);
        } else if a < k {
            assert(after[a].shard_index < after[k].shard_index);
        }
    } else if exists|k: int| 0 <= k < after.len() && (#[trigger] after[k]).shard_index == other {
        let k = choose|k: int| 0 <= k < after.len() && (#[trigger] after[k]).shard_index == other;
        let b = if k < n { k } else { k - shift };
        assert(before[b].shard_index == other);
    }
}

/// Whether no index is missing between the first and the last.
pub open spec fn contiguous(shards: Seq<ShardRowView>) -> bool {
    forall|i: int| 0 <= i < shards.len() ==> (#[trigger] shards[i]).shard_index == shards[0].shard_index + i
}

/// A shard that is put leaves no gap between shards.
pub proof fn law_put_shard_leaves_no_gap(tables: TablesView, row: ShardRowView)
    requires
        tables.wf(),
        contiguous(tables.shards),
        put_error(tables.shards, row) is None,
    ensures
        contiguous(with_shard(tables.shards, row)),
{
    let before = tables.shards;
    let index = row.shard_index;
    let n = lemma_shard_place(before, index);
    lemma_shards_cut(before, index, n);
    let after = with_shard(before, row);
    let found = n < before.len() && before[n].shard_index == index;
    if before.len() > 0 {
        assert(before.last().shard_index == before[0].shard_index + before.len() - 1);
        if !found {
            if n == 0 {
                assert(before[0].shard_index >= index);
                assert(before[0].shard_index == index + 1);
            } else if n < before.len() {
                assert(before[n - 1].shard_index < index);
                assert(before[n].shard_index >= index);
                assert(before[n].shard_index == before[n - 1].shard_index + 1);
                assert(false);
            } else {
                assert(before[n - 1].shard_index < index);
                assert(index == before[0].shard_index + before.len());
            }
        }
    }
    let shift: int = if found { 0 } else { 1 };
    assert forall|i: int| 0 <= i < after.len() implies (#[trigger] after[i]).shard_index
        == after[0].shard_index + i by {
        if i != n {
            let b = if i < n { i } else { i - shift };
            assert(after[i] == before[b]);
            assert(before[b].shard_index == before[0].shard_index + b);
        }
        if n != 0 {
            assert(after[0] == before[0]);
        }
    }
}

/// A cap that was put is read back as it was.
pub proof fn law_put_cap_read_back(cap: Shard)
    requires
        valid_shard(cap),
    ensures
        shard_of(shard_bytes(cap)) == Ok::<Shard, ShardError>(cap),
{
    law_shard_round_trip(cap, Seq::empty());
    assert(shard_bytes(cap) + Seq::<u8>::empty() =~= shard_bytes(cap));
}

/// A checkpoint that was added is found at its height, and adding it again changes
/// nothing.
pub proof fn law_add_checkpoint_read_back(
    tables: TablesView,
    id: u32,
    checkpoint: CheckpointView,
)
    requires
        tables.wf(),
        checkpoint_added(tables.checkpoints, id, checkpoint).1 is None,
    ensures
        ({
            let after = checkpoint_added(tables.checkpoints, id, checkpoint).0;
            &&& checkpoint_at(after, id) == Some(checkpoint)
            &&& checkpoint_added(after, id, checkpoint) == (after, None::<ErrorView>)
        }),
{
    let before = tables.checkpoints;
    let after = checkpoint_added(before, id, checkpoint).0;
    if checkpoint_at(before, id) is None {
        let n = lemma_checkpoint_place(before, id);
        lemma_checkpoints_cut(before, id, n);
        assert(after[n] == (id, checkpoint));
        let i = choose|i: int| 0 <= i < after.len() && (#[trigger] after[i]).0 == id;
        if i != n {
            let b = if i < n { i } else { i - 1 };
            assert(!(n < before.len() && before[n].0 == id));
            assert(after[i] == before[b]);
            assert(before[b].0 == id);
        }
    }
}

/// A checkpoint that was removed is not found, and one can be added at its height without
/// a conflict.
pub proof fn law_removed_checkpoint_is_gone(tables: TablesView, id: u32)
    requires
        tables.wf(),
    ensures
        checkpoint_at(without_checkpoint(tables.checkpoints, id), id) is None,
{
    let rows = tables.checkpoints;
    let n = lemma_checkpoint_place(rows, id);
    lemma_checkpoints_cut(rows, id, n);
    let after = without_checkpoint(rows, id);
    if exists|i: int| 0 <= i < after.len() && (#[trigger] after[i]).0 == id {
        let i = choose|i: int| 0 <= i < after.len() && (#[trigger] after[i]).0 == id;
        let found = n < rows.len() && rows[n].0 == id;
        let b = if i < n || !found { i } else { i + 1 };
        assert(after[i] == rows[b]);
        assert(rows[b].0 == id);
        if b > n {
            assert(rows[n].0 < rows[b].0);
        }
    }
}

/// After truncation no checkpoint is above the height, the one at the height has no marks
/// removed, and every lower one is as it was.
pub proof fn law_truncation_retains(tables: TablesView, id: u32)
    requires
        tables.wf(),
    ensures
        forall|i: int|
            0 <= i < retained(tables.checkpoints, id).len() ==> (#[trigger] retained(
                tables.checkpoints,
                id,
            )[i]).0 <= id && (retained(tables.checkpoints, id)[i].0 < id ==> tables.checkpoints[i]
                == retained(tables.checkpoints, id)[i]) && (retained(tables.checkpoints, id)[i].0
                == id ==> retained(tables.checkpoints, id)[i].1.marks_removed.len() == 0),
        forall|i: int|
            0 <= i < tables.checkpoints.len() && (#[trigger] tables.checkpoints[i]).0 <= id ==> i
                < retained(tables.checkpoints, id).len(),
{
    let rows = tables.checkpoints;
    let n = lemma_checkpoint_place(rows, id);
    let kept = if n < rows.len() && rows[n].0 == id { n + 1 } else { n };
    assert forall|i: int| kept <= i < rows.len() implies (#[trigger] rows[i]).0 > id by {
        assert(rows[i].0 >= id);
        assert(rows[n].0 >= id);
        if i > n {
            assert(rows[n].0 < rows[i].0);
        }
    }
    assert forall|i: int| 0 <= i < kept implies (#[trigger] rows[i]).0 <= id by {
        if i < n {
            assert(rows[i].0 < id);
        }
    }
    lemma_filter_take(rows, |r: (u32, CheckpointView)| r.0 <= id, kept);
}

} // verus!
