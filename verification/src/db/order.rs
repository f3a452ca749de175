//! Rows in the order of their keys.

use vstd::prelude::*;

verus! {

/// Whether one key comes before another or equals it: entry by entry, a shorter key
/// before a longer one that it starts.
pub open spec fn key_le(a: Seq<u64>, b: Seq<u64>) -> bool
    decreases a.len(),
{
    if a.len() == 0 {
        true
    } else if b.len() == 0 {
        false
    } else {
        a[0] < b[0] || (a[0] == b[0] && key_le(a.drop_first(), b.drop_first()))
    }
}

/// Any two keys are ordered.
pub proof fn lemma_key_total(a: Seq<u64>, b: Seq<u64>)
    ensures
        key_le(a, b) || key_le(b, a),
    decreases a.len(),
{
    if a.len() > 0 && b.len() > 0 {
        lemma_key_total(a.drop_first(), b.drop_first());
    }
}

/// The order of keys is transitive.
pub proof fn lemma_key_transitive(a: Seq<u64>, b: Seq<u64>, c: Seq<u64>)
    requires
        key_le(a, b),
        key_le(b, c),
    ensures
        key_le(a, c),
    decreases a.len(),
{
    if a.len() > 0 && b.len() > 0 && c.len() > 0 && a[0] == b[0] && b[0] == c[0] {
        lemma_key_transitive(a.drop_first(), b.drop_first(), c.drop_first());
    }
}

/// Whether one key comes before another or equals it.
fn compare_keys(a: &Vec<u64>, b: &Vec<u64>) -> (le: bool)
    ensures
        le == key_le(a@, b@),
{
    let mut i: usize = 0;
    assert(a@.skip(0) =~= a@);
    assert(b@.skip(0) =~= b@);
    while i < a.len()
        invariant
            0 <= i <= a.len(),
            i <= b.len(),
            key_le(a@, b@) == key_le(a@.skip(i as int), b@.skip(i as int)),
        decreases a.len() - i,
    {
        if i >= b.len() {
            return false;
        }
        proof {
            let x = a@.skip(i as int);
            let y = b@.skip(i as int);
            assert(x[0] == a@[i as int]);
            assert(y[0] == b@[i as int]);
            assert(x.drop_first() =~= a@.skip(i as int + 1));
            assert(y.drop_first() =~= b@.skip(i as int + 1));
        }
        if a[i] < b[i] {
            return true;
        }
        if a[i] > b[i] {
            return false;
        }
        i = i + 1;
    }
    true
}

/// A row that has a sort key.
pub trait Keyed {
    /// The row's key.
    spec fn key(&self) -> Seq<u64>;

    /// The row's key.
    fn sort_key(&self) -> (key: Vec<u64>)
        ensures
            key@ == self.key(),
    ;
}

/// Whether rows stand in the order of their keys.
pub open spec fn in_order<T: Keyed>(rows: Seq<T>) -> bool {
    forall|i: int, j: int|
        0 <= i < j < rows.len() ==> key_le((#[trigger] rows[i]).key(), (#[trigger] rows[j]).key())
}

/// Puts a row where its key belongs, after the rows whose keys come before it or equal
/// it.
pub fn insert_in_order<T: Keyed>(rows: &mut Vec<T>, row: T) -> (at: usize)
    requires
        in_order(old(rows)@),
    ensures
        at <= old(rows).len(),
        final(rows)@ == old(rows)@.insert(at as int, row),
        in_order(final(rows)@),
        forall|j: int| 0 <= j < at ==> key_le((#[trigger] old(rows)@[j]).key(), row.key()),
{
    let key = row.sort_key();
    let mut at: usize = 0;
    while at < rows.len()
        invariant
            0 <= at <= rows.len(),
            rows@ == old(rows)@,
            in_order(rows@),
            key@ == row.key(),
            forall|j: int| 0 <= j < at ==> key_le((#[trigger] rows@[j]).key(), row.key()),
        ensures
            at < rows.len() ==> !key_le(rows@[at as int].key(), row.key()),
        decreases rows.len() - at,
    {
        let other = rows[at].sort_key();
        if !compare_keys(&other, &key) {
            break;
        }
        at = at + 1;
    }
    proof {
        let before = old(rows)@;
        assert forall|j: int| at <= j < before.len() implies key_le(
            row.key(),
            (#[trigger] before[j]).key(),
        ) by {
            lemma_key_total(before[at as int].key(), row.key());
            if j > at {
                assert(key_le(before[at as int].key(), before[j].key()));
                lemma_key_transitive(row.key(), before[at as int].key(), before[j].key());
            }
        }
        let after = before.insert(at as int, row);
        assert forall|i: int, j: int| 0 <= i < j < after.len() implies key_le(
            (#[trigger] after[i]).key(),
            (#[trigger] after[j]).key(),
        ) by {
            let bi = if i < at {
                i
            } else {
                i - 1
            };
            let bj = if j < at {
                j
            } else {
                j - 1
            };
            if i != at && j != at {
                assert(key_le(before[bi].key(), before[bj].key()));
            }
        }
    }
    rows.insert(at, row);
    at
}

} // verus!
