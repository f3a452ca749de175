//! Byte strings: fixed-length arrays out of slices, and comparison.

use vstd::prelude::*;

verus! {

/// `<[u8; N]>::try_from` of a byte slice: an array of the slice's bytes, where the
/// slice has exactly `N` of them.
#[verifier::external_body]
pub(crate) fn to_array<const N: usize>(slice: &[u8]) -> (array: Option<[u8; N]>)
    ensures
        array is Some == (slice@.len() == N),
        array is Some ==> (array->0)@ == slice@,
{
    slice.try_into().ok()
}

/// The array that holds the 32 bytes of `bytes`.
pub open spec fn array32(bytes: Seq<u8>) -> [u8; 32] {
    choose|array: [u8; 32]| array@ == bytes
}

/// An array is determined by its bytes.
pub proof fn lemma_array32(array: [u8; 32])
    ensures
        array32(array@) == array,
{
    let other = array32(array@);
    assert(other@ == array@);
    assert(other =~= array);
}

/// An array that starts with the first `n` bytes of `bytes`.
proof fn lemma_array_with(bytes: Seq<u8>, n: int) -> (array: [u8; 32])
    requires
        bytes.len() == 32,
        0 <= n <= 32,
    ensures
        array@.take(n) == bytes.take(n),
    decreases n,
{
    if n == 0 {
        let array = vstd::array::spec_array_fill_for_copy_type::<u8, 32>(0);
        assert(array@.take(0) =~= bytes.take(0));
        array
    } else {
        let before = lemma_array_with(bytes, n - 1);
        let array = vstd::array::spec_array_update(before, n - 1, bytes[n - 1]);
        assert forall|i: int| 0 <= i < n implies array@[i] == bytes[i] by {
            if i < n - 1 {
                assert(before@.take(n - 1)[i] == bytes.take(n - 1)[i]);
            }
        }
        assert(array@.take(n) =~= bytes.take(n));
        array
    }
}

/// Any 32 bytes are the bytes of an array.
pub proof fn lemma_array32_bytes(bytes: Seq<u8>)
    requires
        bytes.len() == 32,
    ensures
        array32(bytes)@ == bytes,
{
    let array = lemma_array_with(bytes, 32);
    assert(array@.take(32) =~= array@);
    assert(bytes.take(32) =~= bytes);
    assert(array@ == bytes);
}

/// Whether two byte strings are equal.
pub fn same_bytes(a: &[u8], b: &[u8]) -> (same: bool)
    ensures
        same == (a@ == b@),
{
    if a.len() != b.len() {
        return false;
    }
    let mut i: usize = 0;
    while i < a.len()
        invariant
            0 <= i <= a.len(),
            a.len() == b.len(),
            forall|j: int| 0 <= j < i ==> a[j] == b[j],
        decreases a.len() - i,
    {
        if a[i] != b[i] {
            assert(a@[i as int] != b@[i as int]);
            return false;
        }
        i = i + 1;
    }
    assert(a@ =~= b@);
    true
}

/// Whether two 32-byte strings are equal.
pub fn same32(a: &[u8; 32], b: &[u8; 32]) -> (same: bool)
    ensures
        same == (*a == *b),
{
    let same = same_bytes(a, b);
    assert(same == (a@ == b@));
    assert(*a =~= *b <==> a@ =~= b@);
    same
}

/// A copy of a byte string.
pub fn copy_bytes(bytes: &Vec<u8>) -> (copy: Vec<u8>)
    ensures
        copy@ == bytes@,
{
    let copy = bytes.clone();
    assert(copy@ =~= bytes@);
    copy
}

/// Whether `set` holds `bytes`.
pub fn holds32(set: &Vec<[u8; 32]>, bytes: &[u8; 32]) -> (found: bool)
    ensures
        found == set@.contains(*bytes),
{
    let mut i: usize = 0;
    while i < set.len()
        invariant
            0 <= i <= set.len(),
            forall|j: int| 0 <= j < i ==> set[j] != *bytes,
        decreases set.len() - i,
    {
        if same32(&set[i], bytes) {
            assert(set@[i as int] == *bytes);
            return true;
        }
        i = i + 1;
    }
    false
}

/// The byte strings of a list.
pub open spec fn byte_strings(list: Seq<Vec<u8>>) -> Seq<Seq<u8>> {
    list.map_values(|bytes: Vec<u8>| bytes@)
}

/// Whether a list of byte strings holds `bytes`.
pub fn holds_bytes(list: &Vec<Vec<u8>>, bytes: &Vec<u8>) -> (found: bool)
    ensures
        found == byte_strings(list@).contains(bytes@),
{
    let mut i: usize = 0;
    while i < list.len()
        invariant
            0 <= i <= list.len(),
            forall|j: int| 0 <= j < i ==> (#[trigger] byte_strings(list@)[j]) != bytes@,
        decreases list.len() - i,
    {
        if same_bytes(list[i].as_slice(), bytes.as_slice()) {
            assert(byte_strings(list@)[i as int] == bytes@);
            return true;
        }
        i = i + 1;
    }
    false
}

/// The integer that eight bytes hold in little-endian order.
pub open spec fn le_value(b: Seq<u8>) -> int {
    b[0] + 0x100 * b[1] + 0x1_0000 * b[2] + 0x100_0000 * b[3] + 0x1_0000_0000 * b[4]
        + 0x100_0000_0000 * b[5] + 0x1_0000_0000_0000 * b[6] + 0x100_0000_0000_0000 * b[7]
}

/// The eight bytes that hold an integer in little-endian order.
pub open spec fn le_bytes(v: u64) -> Seq<u8> {
    seq![
        (v % 0x100) as u8,
        (v / 0x100 % 0x100) as u8,
        (v / 0x1_0000 % 0x100) as u8,
        (v / 0x100_0000 % 0x100) as u8,
        (v / 0x1_0000_0000 % 0x100) as u8,
        (v / 0x100_0000_0000 % 0x100) as u8,
        (v / 0x1_0000_0000_0000 % 0x100) as u8,
        (v / 0x100_0000_0000_0000) as u8,
    ]
}

/// What is left of an integer after some bytes is its next byte and what is left after
/// that.
proof fn lemma_next_byte(v: int, d: int, e: int)
    requires
        v >= 0,
        d > 0,
        e == d * 0x100,
    ensures
        v / d == 0x100 * (v / e) + (v / d) % 0x100,
{
    vstd::arithmetic::div_mod::lemma_div_denominator(v, d, 0x100);
    vstd::arithmetic::div_mod::lemma_fundamental_div_mod(v / d, 0x100);
}

/// The integer that is written is the integer that is read.
pub proof fn lemma_le_round_trip(v: u64)
    ensures
        le_bytes(v).len() == 8,
        le_value(le_bytes(v)) == v,
{
    lemma_next_byte(v as int, 1, 0x100);
    lemma_next_byte(v as int, 0x100, 0x1_0000);
    lemma_next_byte(v as int, 0x1_0000, 0x100_0000);
    lemma_next_byte(v as int, 0x100_0000, 0x1_0000_0000);
    lemma_next_byte(v as int, 0x1_0000_0000, 0x100_0000_0000);
    lemma_next_byte(v as int, 0x100_0000_0000, 0x1_0000_0000_0000);
    lemma_next_byte(v as int, 0x1_0000_0000_0000, 0x100_0000_0000_0000);
    assert(v / 0x100_0000_0000_0000 < 0x100);
}

/// Appends an integer in little-endian order.
pub fn push_le(buf: &mut Vec<u8>, v: u64)
    ensures
        final(buf)@ == old(buf)@ + le_bytes(v),
{
    buf.push((v % 0x100) as u8);
    buf.push((v / 0x100 % 0x100) as u8);
    buf.push((v / 0x1_0000 % 0x100) as u8);
    buf.push((v / 0x100_0000 % 0x100) as u8);
    buf.push((v / 0x1_0000_0000 % 0x100) as u8);
    buf.push((v / 0x100_0000_0000 % 0x100) as u8);
    buf.push((v / 0x1_0000_0000_0000 % 0x100) as u8);
    buf.push((v / 0x100_0000_0000_0000) as u8);
    assert(buf@ =~= old(buf)@ + le_bytes(v));
}

/// Reads the integer that the eight bytes from `at` on hold in little-endian order.
pub fn read_le(bytes: &Vec<u8>, at: usize) -> (v: u64)
    requires
        at + 8 <= bytes.len(),
    ensures
        v == le_value(bytes@.subrange(at as int, at + 8)),
{
    let ghost b = bytes@.subrange(at as int, at + 8);
    assert(forall|i: int| 0 <= i < 8 ==> b[i] == bytes@[at + i]);
    bytes[at] as u64 + 0x100 * (bytes[at + 1] as u64) + 0x1_0000 * (bytes[at + 2] as u64)
        + 0x100_0000 * (bytes[at + 3] as u64) + 0x1_0000_0000 * (bytes[at + 4] as u64)
        + 0x100_0000_0000 * (bytes[at + 5] as u64) + 0x1_0000_0000_0000 * (bytes[at + 6] as u64)
        + 0x100_0000_0000_0000 * (bytes[at + 7] as u64)
}

/// Appends a byte string.
pub fn push_bytes(buf: &mut Vec<u8>, bytes: &[u8])
    ensures
        final(buf)@ == old(buf)@ + bytes@,
{
    let mut i: usize = 0;
    assert(buf@ =~= old(buf)@ + bytes@.take(0));
    while i < bytes.len()
        invariant
            0 <= i <= bytes.len(),
            buf@ == old(buf)@ + bytes@.take(i as int),
        decreases bytes.len() - i,
    {
        buf.push(bytes[i]);
        assert(buf@ =~= old(buf)@ + bytes@.take(i as int + 1));
        i = i + 1;
    }
    assert(bytes@.take(i as int) =~= bytes@);
}

/// The bytes of a slice.
pub fn slice_bytes(bytes: &[u8]) -> (copy: Vec<u8>)
    ensures
        copy@ == bytes@,
{
    let mut copy: Vec<u8> = Vec::new();
    push_bytes(&mut copy, bytes);
    assert(copy@ =~= bytes@);
    copy
}

} // verus!
