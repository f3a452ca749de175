//! The byte form of a shard, that is of a subtree of the note commitment tree.

use vstd::prelude::*;
use vstd::string::*;

use crate::bytes::{array32, lemma_array32, lemma_array32_bytes, push_bytes, to_array};
use crate::text::{append_decimal, decimal};
use crate::upstream::merkle_hashes::{orchard_hash_reads, orchard_hash_valid};

verus! {

/// The version byte.
pub const SER_V1: u8 = 1;

/// The tag of an empty subtree.
pub const NIL_TAG: u8 = 0;

/// The tag of a leaf.
pub const LEAF_TAG: u8 = 1;

/// The tag of a parent.
pub const PARENT_TAG: u8 = 2;

/// The largest set of retention flags: checkpoint (1), marked (2) and reference (4).
pub const ALL_FLAGS: u8 = 7;

/// A shard: a subtree whose parts may have been pruned.
#[derive(Debug, PartialEq, Eq)]
pub enum Shard {
    /// A node with two children.
    Parent {
        /// The node's hash, where it is cached.
        ann: Option<[u8; 32]>,
        /// The left child.
        left: Box<Shard>,
        /// The right child.
        right: Box<Shard>,
    },
    /// A leaf, or a pruned subtree.
    Leaf {
        /// The node's hash.
        value: [u8; 32],
        /// The retention flags.
        flags: u8,
    },
    /// Nothing.
    Nil,
}

/// Why bytes are no shard.
#[derive(Debug, Clone, Copy, PartialEq, Eq)]
pub enum ShardError {
    /// The bytes end too early.
    UnexpectedEnd,
    /// The version is unknown.
    Version(u8),
    /// A node's tag is unknown.
    Tag(u8),
    /// The byte before an optional hash is neither 0 nor 1.
    Presence(u8),
    /// The flags of a leaf are unknown.
    Flags(u8),
    /// A hash is not a canonical field element.
    Hash,
    /// A parent stands at level 0, at this index.
    Misplaced(u64),
}

/// The hashes and flags of a shard are valid.
pub open spec fn valid_shard(shard: Shard) -> bool
    decreases shard,
{
    match shard {
        Shard::Parent { ann, left, right } => {
            &&& ann is Some ==> orchard_hash_valid((ann->0)@)
            &&& valid_shard(*left)
            &&& valid_shard(*right)
        },
        Shard::Leaf { value, flags } => orchard_hash_valid(value@) && flags <= ALL_FLAGS,
        Shard::Nil => true,
    }
}

/// The bytes of an optional hash: 0, or 1 and the hash.
pub open spec fn optional_bytes(ann: Option<[u8; 32]>) -> Seq<u8> {
    match ann {
        Some(hash) => seq![1u8] + hash@,
        None => seq![0u8],
    }
}

/// The bytes of a node: its tag and what the node holds, a parent's children after it.
pub open spec fn node_bytes(shard: Shard) -> Seq<u8>
    decreases shard,
{
    match shard {
        Shard::Parent { ann, left, right } => seq![PARENT_TAG] + optional_bytes(ann) + node_bytes(*left)
            + node_bytes(*right),
        Shard::Leaf { value, flags } => seq![LEAF_TAG] + value@ + seq![flags],
        Shard::Nil => seq![NIL_TAG],
    }
}

/// The bytes of a shard: the version, then the root.
pub open spec fn shard_bytes(shard: Shard) -> Seq<u8> {
    seq![SER_V1] + node_bytes(shard)
}

/// The hash at an offset, with the offset after it.
pub open spec fn hash_at(bytes: Seq<u8>, at: int) -> Result<([u8; 32], int), ShardError> {
    if at + 32 > bytes.len() {
        Err(ShardError::UnexpectedEnd)
    } else if !orchard_hash_valid(bytes.subrange(at, at + 32)) {
        Err(ShardError::Hash)
    } else {
        Ok((array32(bytes.subrange(at, at + 32)), at + 32))
    }
}

/// The optional hash at an offset, with the offset after it.
pub open spec fn optional_at(bytes: Seq<u8>, at: int) -> Result<(Option<[u8; 32]>, int), ShardError> {
    if at >= bytes.len() {
        Err(ShardError::UnexpectedEnd)
    } else if bytes[at] == 0 {
        Ok((None, at + 1))
    } else if bytes[at] == 1 {
        match hash_at(bytes, at + 1) {
            Ok((hash, next)) => Ok((Some(hash), next)),
            Err(e) => Err(e),
        }
    } else {
        Err(ShardError::Presence(bytes[at]))
    }
}

/// The node at an offset, with the offset after it.
pub open spec fn node_at(bytes: Seq<u8>, at: int) -> Result<(Shard, int), ShardError>
    decreases bytes.len() - at,
{
    if at < 0 || at >= bytes.len() {
        Err(ShardError::UnexpectedEnd)
    } else if bytes[at] == PARENT_TAG {
        match optional_at(bytes, at + 1) {
            Err(e) => Err(e),
            Ok((ann, first)) => if first <= at {
                Err(ShardError::UnexpectedEnd)
            } else {
                match node_at(bytes, first) {
                    Err(e) => Err(e),
                    Ok((left, second)) => if second <= at || second > bytes.len() {
                        Err(ShardError::UnexpectedEnd)
                    } else {
                        match node_at(bytes, second) {
                            Err(e) => Err(e),
                            Ok((right, next)) => Ok(
                                (
                                    Shard::Parent {
                                        ann,
                                        left: Box::new(left),
                                        right: Box::new(right),
                                    },
                                    next,
                                ),
                            ),
                        }
                    },
                }
            },
        }
    } else if bytes[at] == LEAF_TAG {
        match hash_at(bytes, at + 1) {
            Err(e) => Err(e),
            Ok((value, next)) => if next >= bytes.len() {
                Err(ShardError::UnexpectedEnd)
            } else if bytes[next] > ALL_FLAGS {
                Err(ShardError::Flags(bytes[next]))
            } else {
                Ok((Shard::Leaf { value, flags: bytes[next] }, next + 1))
            },
        }
    } else if bytes[at] == NIL_TAG {
        Ok((Shard::Nil, at + 1))
    } else {
        Err(ShardError::Tag(bytes[at]))
    }
}

/// The shard that bytes start with.
pub open spec fn shard_of(bytes: Seq<u8>) -> Result<Shard, ShardError> {
    if bytes.len() == 0 {
        Err(ShardError::UnexpectedEnd)
    } else if bytes[0] != SER_V1 {
        Err(ShardError::Version(bytes[0]))
    } else {
        match node_at(bytes, 1) {
            Ok((shard, next)) => Ok(shard),
            Err(e) => Err(e),
        }
    }
}

/// A node ends after it starts, and not after the bytes do.
proof fn lemma_node_at_advances(bytes: Seq<u8>, at: int)
    ensures
        node_at(bytes, at) is Ok ==> at < (node_at(bytes, at)->Ok_0).1 <= bytes.len(),
    decreases bytes.len() - at,
{
    if 0 <= at < bytes.len() && bytes[at] == PARENT_TAG {
        if let Ok((ann, first)) = optional_at(bytes, at + 1) {
            lemma_node_at_advances(bytes, first);
            if let Ok((left, second)) = node_at(bytes, first) {
                lemma_node_at_advances(bytes, second);
            }
        }
    }
}

/// Reads a hash.
pub fn read_hash(bytes: &[u8], at: usize) -> (result: Result<([u8; 32], usize), ShardError>)
    requires
        at <= bytes@.len(),
    ensures
        match result {
            Ok((hash, next)) => hash_at(bytes@, at as int) == Ok::<([u8; 32], int), ShardError>(
                (hash, next as int),
            ),
            Err(e) => hash_at(bytes@, at as int) == Err::<([u8; 32], int), ShardError>(e),
        },
{
    if bytes.len() - at < 32 {
        return Err(ShardError::UnexpectedEnd);
    }
    let slice = vstd::slice::slice_subrange(bytes, at, at + 32);
    let hash: Option<[u8; 32]> = to_array(slice);
    match hash {
        Some(hash) => {
            proof {
                lemma_array32(hash);
            }
            if orchard_hash_reads(&hash) {
                Ok((hash, at + 32))
            } else {
                Err(ShardError::Hash)
            }
        },
        None => Err(ShardError::UnexpectedEnd),
    }
}

/// Reads an optional hash.
fn read_optional(bytes: &[u8], at: usize) -> (result: Result<
    (Option<[u8; 32]>, usize),
    ShardError,
>)
    requires
        at <= bytes@.len(),
    ensures
        match result {
            Ok((ann, next)) => optional_at(bytes@, at as int) == Ok::<
                (Option<[u8; 32]>, int),
                ShardError,
            >((ann, next as int)),
            Err(e) => optional_at(bytes@, at as int) == Err::<(Option<[u8; 32]>, int), ShardError>(e),
        },
{
    if at >= bytes.len() {
        return Err(ShardError::UnexpectedEnd);
    }
    match bytes[at] {
        0 => Ok((None, at + 1)),
        1 => match read_hash(bytes, at + 1) {
            Ok((hash, next)) => Ok((Some(hash), next)),
            Err(e) => Err(e),
        },
        other => Err(ShardError::Presence(other)),
    }
}

/// Reads a node.
fn read_shard_v1(bytes: &[u8], at: usize) -> (result: Result<(Shard, usize), ShardError>)
    requires
        at <= bytes@.len(),
    ensures
        match result {
            Ok((shard, next)) => node_at(bytes@, at as int) == Ok::<(Shard, int), ShardError>(
                (shard, next as int),
            ) && at < next <= bytes@.len(),
            Err(e) => node_at(bytes@, at as int) == Err::<(Shard, int), ShardError>(e),
        },
    decreases bytes@.len() - at,
{
    if at >= bytes.len() {
        return Err(ShardError::UnexpectedEnd);
    }
    let tag: u8 = bytes[at];
    if tag == PARENT_TAG {
        let (ann, first) = match read_optional(bytes, at + 1) {
            Ok(read) => read,
            Err(e) => return Err(e),
        };
        let (left, second) = match read_shard_v1(bytes, first) {
            Ok(read) => read,
            Err(e) => return Err(e),
        };
        let (right, next) = match read_shard_v1(bytes, second) {
            Ok(read) => read,
            Err(e) => return Err(e),
        };
        Ok((Shard::Parent { ann, left: Box::new(left), right: Box::new(right) }, next))
    } else if tag == LEAF_TAG {
        let (value, next) = match read_hash(bytes, at + 1) {
            Ok(read) => read,
            Err(e) => return Err(e),
        };
        if next >= bytes.len() {
            return Err(ShardError::UnexpectedEnd);
        }
        let flags: u8 = bytes[next];
        if flags > ALL_FLAGS {
            return Err(ShardError::Flags(flags));
        }
        Ok((Shard::Leaf { value, flags }, next + 1))
    } else if tag == NIL_TAG {
        Ok((Shard::Nil, at + 1))
    } else {
        Err(ShardError::Tag(tag))
    }
}

/// Reads the shard that the bytes start with; what follows it is left unread.
pub fn read_shard(bytes: &[u8]) -> (result: Result<Shard, ShardError>)
    ensures
        result == shard_of(bytes@),
{
    if bytes.len() == 0 {
        return Err(ShardError::UnexpectedEnd);
    }
    if bytes[0] != SER_V1 {
        return Err(ShardError::Version(bytes[0]));
    }
    match read_shard_v1(bytes, 1) {
        Ok((shard, next)) => Ok(shard),
        Err(e) => Err(e),
    }
}

/// Appends the bytes of a node.
fn write_inner(buf: &mut Vec<u8>, shard: &Shard)
    ensures
        final(buf)@ == old(buf)@ + node_bytes(*shard),
    decreases *shard,
{
    match shard {
        Shard::Parent { ann, left, right } => {
            buf.push(PARENT_TAG);
            match ann {
                Some(hash) => {
                    buf.push(1);
                    push_bytes(buf, hash.as_slice());
                },
                None => {
                    buf.push(0);
                },
            }
            assert(buf@ =~= old(buf)@ + seq![PARENT_TAG] + optional_bytes(*ann));
            write_inner(buf, left);
            write_inner(buf, right);
            assert(buf@ =~= old(buf)@ + node_bytes(*shard));
        },
        Shard::Leaf { value, flags } => {
            buf.push(LEAF_TAG);
            push_bytes(buf, value.as_slice());
            buf.push(*flags);
            assert(buf@ =~= old(buf)@ + node_bytes(*shard));
        },
        Shard::Nil => {
            buf.push(NIL_TAG);
            assert(buf@ =~= old(buf)@ + node_bytes(*shard));
        },
    }
}

/// Appends the bytes of a shard.
pub fn write_shard(buf: &mut Vec<u8>, shard: &Shard)
    ensures
        final(buf)@ == old(buf)@ + shard_bytes(*shard),
{
    buf.push(SER_V1);
    write_inner(buf, shard);
    assert(buf@ =~= old(buf)@ + shard_bytes(*shard));
}

/// A node stands where its bytes stand.
proof fn lemma_node_round_trip(before: Seq<u8>, shard: Shard, after: Seq<u8>)
    requires
        valid_shard(shard),
    ensures
        node_at(before + node_bytes(shard) + after, before.len() as int) == Ok::<
            (Shard, int),
            ShardError,
        >((shard, (before.len() + node_bytes(shard).len()) as int)),
        node_bytes(shard).len() > 0,
    decreases shard,
{
    let bytes = before + node_bytes(shard) + after;
    let at = before.len() as int;
    match shard {
        Shard::Parent { ann, left, right } => {
            let head = seq![PARENT_TAG] + optional_bytes(ann);
            let first = before + head;
            let second = first + node_bytes(*left);
            assert(bytes =~= first + node_bytes(*left) + (node_bytes(*right) + after));
            assert(bytes =~= second + node_bytes(*right) + after);
            assert(bytes[at] == PARENT_TAG);
            if let Some(hash) = ann {
                assert(bytes[at + 1] == 1);
                assert(bytes.subrange(at + 2, at + 34) =~= hash@);
                lemma_array32(hash);
            } else {
                assert(bytes[at + 1] == 0);
            }
            assert(optional_at(bytes, at + 1) == Ok::<(Option<[u8; 32]>, int), ShardError>(
                (ann, first.len() as int),
            ));
            lemma_node_round_trip(first, *left, node_bytes(*right) + after);
            lemma_node_round_trip(second, *right, after);
            let joined = Shard::Parent { ann, left: Box::new(*left), right: Box::new(*right) };
            assert(joined == shard);
        },
        Shard::Leaf { value, flags } => {
            assert(bytes[at] == LEAF_TAG);
            assert(bytes.subrange(at + 1, at + 33) =~= value@);
            lemma_array32(value);
            assert(bytes[at + 33] == flags);
        },
        Shard::Nil => {
            assert(bytes[at] == NIL_TAG);
        },
    }
}

/// A shard read back from its bytes is the shard that was written, whatever follows.
pub proof fn law_shard_round_trip(shard: Shard, after: Seq<u8>)
    requires
        valid_shard(shard),
    ensures
        shard_of(shard_bytes(shard) + after) == Ok::<Shard, ShardError>(shard),
{
    lemma_node_round_trip(seq![SER_V1], shard, after);
    assert(shard_bytes(shard) + after =~= seq![SER_V1] + node_bytes(shard) + after);
}

/// A node that was read is valid, and its bytes stand where it was read.
proof fn lemma_node_canonical(bytes: Seq<u8>, at: int)
    requires
        node_at(bytes, at) is Ok,
    ensures
        ({
            let (shard, next) = node_at(bytes, at)->Ok_0;
            &&& valid_shard(shard)
            &&& at < next <= bytes.len()
            &&& bytes.subrange(at, next) == node_bytes(shard)
        }),
    decreases bytes.len() - at,
{
    lemma_node_at_advances(bytes, at);
    let (shard, next) = node_at(bytes, at)->Ok_0;
    if bytes[at] == PARENT_TAG {
        let (ann, first) = optional_at(bytes, at + 1)->Ok_0;
        let (left, second) = node_at(bytes, first)->Ok_0;
        lemma_node_canonical(bytes, first);
        lemma_node_canonical(bytes, second);
        if bytes[at + 1] == 1 {
            lemma_array32_bytes(bytes.subrange(at + 2, at + 34));
        }
        assert(bytes.subrange(at + 1, first) =~= optional_bytes(ann));
        assert(bytes.subrange(at, next) =~= seq![PARENT_TAG] + bytes.subrange(at + 1, first)
            + bytes.subrange(first, second) + bytes.subrange(second, next));
    } else if bytes[at] == LEAF_TAG {
        lemma_array32_bytes(bytes.subrange(at + 1, at + 33));
        assert(bytes.subrange(at, next) =~= seq![LEAF_TAG] + bytes.subrange(at + 1, at + 33)
            + seq![bytes[at + 33]]);
    } else {
        assert(bytes.subrange(at, next) =~= seq![NIL_TAG]);
    }
}

/// A shard that can be read is valid, and has one byte form: the bytes start with it.
pub proof fn law_shard_canonical(bytes: Seq<u8>)
    requires
        shard_of(bytes) is Ok,
    ensures
        valid_shard(shard_of(bytes)->Ok_0),
        shard_bytes(shard_of(bytes)->Ok_0).is_prefix_of(bytes),
{
    lemma_node_canonical(bytes, 1);
    let (shard, next) = node_at(bytes, 1)->Ok_0;
    assert(shard_bytes(shard) =~= bytes.subrange(0, next));
}

impl ShardError {
    /// The error in words.
    pub open spec fn text(self) -> Seq<char> {
        match self {
            ShardError::UnexpectedEnd => "failed to fill whole buffer"@,
            ShardError::Version(other) => "Shard serialization version not recognized: "@ + decimal(
                other as nat,
            ),
            ShardError::Tag(other) => "Node tag not recognized: "@ + decimal(other as nat),
            ShardError::Presence(_) => "non-canonical Option<T>"@,
            ShardError::Flags(bits) => "Byte value "@ + decimal(bits as nat)
                + " does not correspond to a valid set of retention flags"@,
            ShardError::Hash => "Non-canonical encoding of Pallas base field value."@,
            ShardError::Misplaced(index) =>
                "Tree contained invalid data at address Address { level: Level(0), index: "@
                + decimal(index as nat) + " }"@,
        }
    }

    /// The error in words.
    pub fn to_text(&self) -> (text: String)
        ensures
            text@ == self.text(),
    {
        match *self {
            ShardError::UnexpectedEnd => "failed to fill whole buffer".to_owned(),
            ShardError::Version(other) => {
                let mut text = "Shard serialization version not recognized: ".to_owned();
                append_decimal(&mut text, other as u64);
                text
            },
            ShardError::Tag(other) => {
                let mut text = "Node tag not recognized: ".to_owned();
                append_decimal(&mut text, other as u64);
                text
            },
            ShardError::Presence(_) => "non-canonical Option<T>".to_owned(),
            ShardError::Flags(bits) => {
                let mut text = "Byte value ".to_owned();
                append_decimal(&mut text, bits as u64);
                text.append(" does not correspond to a valid set of retention flags");
                text
            },
            ShardError::Hash => "Non-canonical encoding of Pallas base field value.".to_owned(),
            ShardError::Misplaced(index) => {
                let mut text =
                    "Tree contained invalid data at address Address { level: Level(0), index: ".to_owned();
                append_decimal(&mut text, index);
                text.append(" }");
                text
            },
        }
    }
}

} // verus!
