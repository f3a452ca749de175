//! The store behind the note commitment tree.

use std::collections::BTreeSet;
use std::sync::Arc;

use incrementalmerkletree::{Address as NodeAddress, Level, Position, Retention};
use orchard::note::ExtractedNoteCommitment;
use orchard::tree::MerkleHashOrchard;
use seer_sync::db::commitment_tree::{
    init_tables, orchard_tree, Address, Checkpoint, Error, LocatedShard, QueryError, ShardTables,
    SqliteShardStore, TreeState, ORCHARD_DEPTH, ORCHARD_SHARD_HEIGHT,
};
use seer_sync::db::shardtree_serialization::{read_shard, write_shard, Shard, ShardError};
use shardtree::store::{Checkpoint as TreeCheckpoint, ShardStore, TreeState as StoreTreeState};
use shardtree::{LocatedPrunableTree, Node, PrunableTree, RetentionFlags, ShardTree, Tree};

fn h(b: u8) -> MerkleHashOrchard {
    MerkleHashOrchard::from_bytes(&[b; 32]).into_option().unwrap()
}

fn to_shard(tree: &PrunableTree<MerkleHashOrchard>) -> Shard {
    match &**tree {
        Node::Parent { ann, left, right } => Shard::Parent {
            ann: ann.as_ref().map(|a| a.to_bytes()),
            left: Box::new(to_shard(left)),
            right: Box::new(to_shard(right)),
        },
        Node::Leaf { value } => Shard::Leaf {
            value: value.0.to_bytes(),
            flags: value.1.bits(),
        },
        Node::Nil => Shard::Nil,
    }
}

fn hash(bytes: &[u8; 32]) -> MerkleHashOrchard {
    MerkleHashOrchard::from_bytes(bytes).into_option().unwrap()
}

fn from_shard(shard: &Shard) -> PrunableTree<MerkleHashOrchard> {
    match shard {
        Shard::Parent { ann, left, right } => Tree::parent(
            ann.as_ref().map(|a| Arc::new(hash(a))),
            from_shard(left),
            from_shard(right),
        ),
        Shard::Leaf { value, flags } => {
            Tree::leaf((hash(value), RetentionFlags::from_bits(*flags).unwrap()))
        }
        Shard::Nil => Tree::empty(),
    }
}

fn to_checkpoint(c: &TreeCheckpoint) -> Checkpoint {
    Checkpoint {
        tree_state: match c.tree_state() {
            StoreTreeState::Empty => TreeState::Empty,
            StoreTreeState::AtPosition(p) => TreeState::AtPosition(u64::from(p)),
        },
        marks_removed: c.marks_removed().iter().map(|p| u64::from(*p)).collect(),
    }
}

fn from_checkpoint(c: &Checkpoint) -> TreeCheckpoint {
    TreeCheckpoint::from_parts(
        match c.tree_state {
            TreeState::Empty => StoreTreeState::Empty,
            TreeState::AtPosition(p) => StoreTreeState::AtPosition(Position::from(p)),
        },
        c.marks_removed.iter().map(|p| Position::from(*p)).collect(),
    )
}

type Store = SqliteShardStore<ShardTables, ORCHARD_SHARD_HEIGHT>;

struct Adapter {
    store: Store,
    retained: BTreeSet<u32>,
}

#[derive(Debug)]
struct Failed(#[allow(dead_code)] Error);

impl std::fmt::Display for Failed {
    fn fmt(&self, f: &mut std::fmt::Formatter<'_>) -> std::fmt::Result {
        f.write_str(&self.0.to_text())
    }
}

impl std::error::Error for Failed {}

impl ShardStore for Adapter {
    type H = MerkleHashOrchard;
    type CheckpointId = u32;
    type Error = Failed;

    fn get_shard(
        &self,
        root: NodeAddress,
    ) -> Result<Option<LocatedPrunableTree<MerkleHashOrchard>>, Failed> {
        let addr = Address { level: u8::from(root.level()), index: root.index() };
        let shard = self.store.get_shard(addr).map_err(Failed)?;
        Ok(shard.map(|s| LocatedPrunableTree::from_parts(root, from_shard(&s)).unwrap()))
    }

    fn last_shard(&self) -> Result<Option<LocatedPrunableTree<MerkleHashOrchard>>, Failed> {
        let shard = self.store.last_shard().map_err(Failed)?;
        Ok(shard.map(|s| {
            let root =
                NodeAddress::from_parts(Level::from(s.root_addr.level), s.root_addr.index);
            LocatedPrunableTree::from_parts(root, from_shard(&s.root)).unwrap()
        }))
    }

    fn put_shard(&mut self, subtree: LocatedPrunableTree<MerkleHashOrchard>) -> Result<(), Failed> {
        let root = subtree.root_addr();
        let located = LocatedShard {
            root_addr: Address { level: u8::from(root.level()), index: root.index() },
            root: to_shard(subtree.root()),
        };
        self.store.put_shard(&located).map_err(Failed)
    }

    fn get_shard_roots(&self) -> Result<Vec<NodeAddress>, Failed> {
        let roots = self.store.get_shard_roots().map_err(Failed)?;
        Ok(roots
            .iter()
            .map(|a| NodeAddress::from_parts(Level::from(a.level), a.index))
            .collect())
    }

    fn truncate_shards(&mut self, shard_index: u64) -> Result<(), Failed> {
        self.store.truncate_shards(shard_index).map_err(Failed)
    }

    fn get_cap(&self) -> Result<PrunableTree<MerkleHashOrchard>, Failed> {
        Ok(from_shard(&self.store.get_cap().map_err(Failed)?))
    }

    fn put_cap(&mut self, cap: PrunableTree<MerkleHashOrchard>) -> Result<(), Failed> {
        self.store.put_cap(&to_shard(&cap)).map_err(Failed)
    }

    fn min_checkpoint_id(&self) -> Result<Option<u32>, Failed> {
        self.store.min_checkpoint_id().map_err(Failed)
    }

    fn max_checkpoint_id(&self) -> Result<Option<u32>, Failed> {
        self.store.max_checkpoint_id().map_err(Failed)
    }

    fn add_checkpoint(&mut self, id: u32, checkpoint: TreeCheckpoint) -> Result<(), Failed> {
        self.store.add_checkpoint(id, to_checkpoint(&checkpoint)).map_err(Failed)
    }

    fn checkpoint_count(&self) -> Result<usize, Failed> {
        self.store.checkpoint_count().map_err(Failed)
    }

    fn get_checkpoint_at_depth(
        &self,
        depth: usize,
    ) -> Result<Option<(u32, TreeCheckpoint)>, Failed> {
        let found = self.store.get_checkpoint_at_depth(depth).map_err(Failed)?;
        Ok(found.map(|(id, c)| (id, from_checkpoint(&c))))
    }

    fn get_checkpoint(&self, id: &u32) -> Result<Option<TreeCheckpoint>, Failed> {
        let found = self.store.get_checkpoint(*id).map_err(Failed)?;
        Ok(found.map(|c| from_checkpoint(&c)))
    }

    fn with_checkpoints<F>(&mut self, limit: usize, mut callback: F) -> Result<(), Failed>
    where
        F: FnMut(&u32, &TreeCheckpoint) -> Result<(), Failed>,
    {
        for (id, c) in self.store.with_checkpoints(limit).map_err(Failed)? {
            callback(&id, &from_checkpoint(&c))?;
        }
        Ok(())
    }

    fn for_each_checkpoint<F>(&self, limit: usize, mut callback: F) -> Result<(), Failed>
    where
        F: FnMut(&u32, &TreeCheckpoint) -> Result<(), Failed>,
    {
        for (id, c) in self.store.with_checkpoints(limit).map_err(Failed)? {
            callback(&id, &from_checkpoint(&c))?;
        }
        Ok(())
    }

    fn update_checkpoint_with<F>(&mut self, id: &u32, update: F) -> Result<bool, Failed>
    where
        F: Fn(&mut TreeCheckpoint) -> Result<(), Failed>,
    {
        self.store
            .update_checkpoint_with(*id, |c: Checkpoint| {
                let mut changed = from_checkpoint(&c);
                update(&mut changed).map_err(|e| e.0)?;
                Ok(to_checkpoint(&changed))
            })
            .map_err(Failed)
    }

    fn remove_checkpoint(&mut self, id: &u32) -> Result<(), Failed> {
        self.store.remove_checkpoint(*id).map_err(Failed)
    }

    fn add_retained_checkpoint(&mut self, id: u32) -> Result<(), Failed> {
        self.retained.insert(id);
        Ok(())
    }

    fn remove_retained_checkpoint(&mut self, id: &u32) -> Result<(), Failed> {
        self.retained.remove(id);
        Ok(())
    }

    fn retained_checkpoints(&self) -> Result<BTreeSet<u32>, Failed> {
        Ok(self.retained.clone())
    }

    fn truncate_checkpoints_retaining(&mut self, id: &u32) -> Result<(), Failed> {
        self.store.truncate_checkpoints_retaining(*id).map_err(Failed)
    }
}

fn adapter(tables: ShardTables) -> Adapter {
    Adapter { store: orchard_tree(tables).unwrap(), retained: BTreeSet::new() }
}

fn cmx(b: u8) -> [u8; 32] {
    [b; 32]
}

fn leaf(b: u8) -> MerkleHashOrchard {
    hash(&cmx(b))
}

#[test]
fn sqlite_backed_witness_root_matches_and_survives_reopen() {
    let marked = leaf(3);

    let tables = {
        let mut tree: ShardTree<Adapter, { ORCHARD_DEPTH }, { ORCHARD_SHARD_HEIGHT }> =
            ShardTree::new(adapter(init_tables()), 100);
        tree.batch_insert(
            Position::from(0),
            (0u8..4).map(|i| {
                let h = leaf(i + 1);
                let r = if h == marked { Retention::Marked } else { Retention::Ephemeral };
                (h, r)
            }),
        )
        .unwrap();
        tree.checkpoint(100).unwrap();
        tree.into_store().store.conn
    };

    let tree: ShardTree<Adapter, { ORCHARD_DEPTH }, { ORCHARD_SHARD_HEIGHT }> =
        ShardTree::new(adapter(tables), 100);
    let path = tree.witness_at_checkpoint_id(Position::from(2), &100).unwrap().unwrap();
    let note_cmx = ExtractedNoteCommitment::from_bytes(&cmx(3)).into_option().unwrap();
    let root = tree.root_at_checkpoint_id(&100).unwrap().unwrap();
    let orchard_path = orchard::tree::MerklePath::from(path);
    assert_eq!(orchard_path.root(note_cmx), orchard::tree::Anchor::from(root));
}

#[test]
fn shard_roundtrips() {
    let tree: PrunableTree<MerkleHashOrchard> = Tree::parent(
        Some(Arc::new(h(9))),
        Tree::leaf((h(1), RetentionFlags::MARKED)),
        Tree::parent(
            None,
            Tree::leaf((h(2), RetentionFlags::EPHEMERAL)),
            Tree::empty(),
        ),
    );
    let shard = to_shard(&tree);
    let mut bytes = Vec::new();
    write_shard(&mut bytes, &shard);
    let read = read_shard(&bytes).unwrap();
    assert_eq!(read, shard);
    assert_eq!(from_shard(&read), tree);
}

#[test]
fn shards_that_cannot_be_read() {
    assert_eq!(read_shard(&[]), Err(ShardError::UnexpectedEnd));
    assert_eq!(read_shard(&[2]), Err(ShardError::Version(2)));
    assert_eq!(read_shard(&[1, 3]), Err(ShardError::Tag(3)));
    assert_eq!(read_shard(&[1, 2, 5]), Err(ShardError::Presence(5)));
    assert_eq!(read_shard(&[1, 1, 0]), Err(ShardError::UnexpectedEnd));
    let mut leaf = vec![1, 1];
    leaf.extend([0xff; 32]);
    leaf.push(0);
    assert_eq!(read_shard(&leaf), Err(ShardError::Hash));
    let mut flags = vec![1, 1];
    flags.extend([1; 32]);
    flags.push(8);
    assert_eq!(read_shard(&flags), Err(ShardError::Flags(8)));
    flags[34] = 7;
    flags.push(99);
    assert_eq!(read_shard(&flags), Ok(Shard::Leaf { value: [1; 32], flags: 7 }));
}

fn located(index: u64, b: u8) -> LocatedShard {
    LocatedShard {
        root_addr: Address { level: ORCHARD_SHARD_HEIGHT, index },
        root: Shard::Parent {
            ann: Some([b; 32]),
            left: Box::new(Shard::Leaf { value: [1; 32], flags: 0 }),
            right: Box::new(Shard::Nil),
        },
    }
}

#[test]
fn shards_are_read_back_in_order() {
    let mut store = orchard_tree(init_tables()).unwrap();
    assert_eq!(store.last_shard().unwrap(), None);
    store.put_shard(&located(4, 1)).unwrap();
    store.put_shard(&located(5, 2)).unwrap();
    store.put_shard(&located(3, 3)).unwrap();
    let roots: Vec<u64> = store.get_shard_roots().unwrap().iter().map(|a| a.index).collect();
    assert_eq!(roots, vec![3, 4, 5]);
    let at = |index| Address { level: ORCHARD_SHARD_HEIGHT, index };
    assert_eq!(store.get_shard(at(4)).unwrap(), Some(located(4, 1).root));
    assert_eq!(store.get_shard(at(9)).unwrap(), None);
    assert_eq!(store.last_shard().unwrap(), Some(located(5, 2)));
    store.put_shard(&located(4, 7)).unwrap();
    assert_eq!(store.get_shard(at(4)).unwrap(), Some(located(4, 7).root));
    store.truncate_shards(4).unwrap();
    let roots: Vec<u64> = store.get_shard_roots().unwrap().iter().map(|a| a.index).collect();
    assert_eq!(roots, vec![3]);
}

#[test]
fn a_gap_between_shards_is_refused() {
    let mut store = orchard_tree(init_tables()).unwrap();
    store.put_shard(&located(4, 1)).unwrap();
    let error = store.put_shard(&located(6, 2)).unwrap_err();
    assert_eq!(
        error.to_text(),
        "shard insertion 6..7 is discontinuous with 4..5"
    );
    let error = store.put_shard(&located(2, 2)).unwrap_err();
    assert_eq!(
        error,
        Error::SubtreeDiscontinuity {
            attempted_insertion_range: 2..3,
            existing_range: 4..5
        }
    );
}

#[test]
fn two_shards_cannot_have_one_root_hash() {
    let mut store = orchard_tree(init_tables()).unwrap();
    store.put_shard(&located(4, 1)).unwrap();
    let error = store.put_shard(&located(5, 1)).unwrap_err();
    assert_eq!(error, Error::Query(QueryError::NotUnique));
    assert_eq!(
        error.to_text(),
        "commitment tree query/update error: root hash not unique"
    );
}

#[test]
fn numbers_beyond_a_column_are_refused() {
    let mut store = orchard_tree(init_tables()).unwrap();
    let far = Address { level: ORCHARD_SHARD_HEIGHT, index: 1 << 63 };
    assert_eq!(store.get_shard(far), Err(Error::Query(QueryError::OutOfRange)));
    assert_eq!(store.truncate_shards(1 << 63), Err(Error::Query(QueryError::OutOfRange)));
    assert_eq!(
        store.put_shard(&located(1 << 63, 1)),
        Err(Error::Query(QueryError::OutOfRange))
    );
    assert_eq!(
        store.add_checkpoint(
            1,
            Checkpoint { tree_state: TreeState::AtPosition(1 << 63), marks_removed: vec![] }
        ),
        Err(Error::Query(QueryError::OutOfRange))
    );
    assert_eq!(store.checkpoint_count().unwrap(), 0);
}

#[test]
fn a_shard_deeper_than_its_place_is_misplaced() {
    let mut store = orchard_tree(init_tables()).unwrap();
    store.put_shard(&located(4, 1)).unwrap();
    let low = Address { level: 0, index: 4 };
    let error = store.get_shard(low).unwrap_err();
    assert_eq!(error, Error::Serialization(ShardError::Misplaced(4)));
    assert_eq!(
        error.to_text(),
        "commitment tree serialization error: Tree contained invalid data at address Address { level: Level(0), index: 4 }"
    );
}

#[test]
fn the_cap_is_read_back() {
    let mut store = orchard_tree(init_tables()).unwrap();
    assert_eq!(store.get_cap().unwrap(), Shard::Nil);
    store.put_cap(&located(0, 5).root).unwrap();
    assert_eq!(store.get_cap().unwrap(), located(0, 5).root);
}

fn point(position: Option<u64>, marks: Vec<u64>) -> Checkpoint {
    Checkpoint {
        tree_state: position.map_or(TreeState::Empty, TreeState::AtPosition),
        marks_removed: marks,
    }
}

#[test]
fn checkpoints_by_height_and_depth() {
    let mut store = orchard_tree(init_tables()).unwrap();
    assert_eq!(store.min_checkpoint_id().unwrap(), None);
    store.add_checkpoint(30, point(Some(7), vec![1, 2])).unwrap();
    store.add_checkpoint(10, point(None, vec![])).unwrap();
    store.add_checkpoint(20, point(Some(9), vec![])).unwrap();
    assert_eq!(store.min_checkpoint_id().unwrap(), Some(10));
    assert_eq!(store.max_checkpoint_id().unwrap(), Some(30));
    assert_eq!(store.checkpoint_count().unwrap(), 3);
    assert_eq!(
        store.get_checkpoint_at_depth(0).unwrap(),
        Some((30, point(Some(7), vec![1, 2])))
    );
    assert_eq!(store.get_checkpoint_at_depth(2).unwrap(), Some((10, point(None, vec![]))));
    assert_eq!(store.get_checkpoint_at_depth(3).unwrap(), None);
    let ids: Vec<u32> = store.with_checkpoints(2).unwrap().iter().map(|c| c.0).collect();
    assert_eq!(ids, vec![10, 30]);
    assert_eq!(store.get_checkpoint(11).unwrap(), None);
}

#[test]
fn a_checkpoint_that_differs_conflicts() {
    let mut store = orchard_tree(init_tables()).unwrap();
    store.add_checkpoint(30, point(Some(7), vec![1, 2])).unwrap();
    store.add_checkpoint(30, point(Some(7), vec![1, 2])).unwrap();
    let error = store.add_checkpoint(30, point(Some(8), vec![1, 2])).unwrap_err();
    assert_eq!(error.to_text(), "conflicting checkpoint at height 30");
    assert_eq!(
        error,
        Error::CheckpointConflict {
            checkpoint_id: 30,
            checkpoint: point(Some(8), vec![1, 2]),
            extant_tree_state: TreeState::AtPosition(7),
            extant_marks_removed: None,
        }
    );
    assert_eq!(
        store.add_checkpoint(30, point(Some(7), vec![1])),
        Err(Error::CheckpointConflict {
            checkpoint_id: 30,
            checkpoint: point(Some(7), vec![1]),
            extant_tree_state: TreeState::AtPosition(7),
            extant_marks_removed: Some(vec![1, 2]),
        })
    );
}

#[test]
fn a_checkpoint_can_be_changed_and_removed() {
    let mut store = orchard_tree(init_tables()).unwrap();
    store.add_checkpoint(30, point(Some(7), vec![])).unwrap();
    let changed = store
        .update_checkpoint_with(30, |c: Checkpoint| {
            Ok(Checkpoint { tree_state: c.tree_state, marks_removed: vec![3] })
        })
        .unwrap();
    assert!(changed);
    assert_eq!(store.get_checkpoint(30).unwrap(), Some(point(Some(7), vec![3])));
    assert_eq!(store.update_checkpoint_with(31, |c: Checkpoint| Ok(c)), Ok(false));
    store.remove_checkpoint(30).unwrap();
    store.remove_checkpoint(30).unwrap();
    assert_eq!(store.checkpoint_count().unwrap(), 0);
}

#[test]
fn truncation_retains_a_checkpoint_without_its_marks() {
    let mut store = orchard_tree(init_tables()).unwrap();
    store.add_checkpoint(10, point(Some(1), vec![0])).unwrap();
    store.add_checkpoint(20, point(Some(5), vec![2])).unwrap();
    store.add_checkpoint(30, point(Some(9), vec![3])).unwrap();
    store.truncate_checkpoints_retaining(20).unwrap();
    assert_eq!(store.max_checkpoint_id().unwrap(), Some(20));
    assert_eq!(store.get_checkpoint(20).unwrap(), Some(point(Some(5), vec![])));
    assert_eq!(store.get_checkpoint(10).unwrap(), Some(point(Some(1), vec![0])));
}

#[test]
fn a_store_keeps_its_connection_and_prefix() {
    let store: Store = SqliteShardStore::from_connection(init_tables(), "orchard").unwrap();
    assert_eq!(store.table_prefix, "orchard");
    assert_eq!(store.conn, init_tables());
}
