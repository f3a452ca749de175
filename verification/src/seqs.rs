//! Sequences of optional values.

use vstd::prelude::*;

verus! {

/// The first entry of `s` that is present, with its index.
pub open spec fn first_some<T>(s: Seq<Option<T>>) -> Option<(int, T)>
    decreases s.len(),
{
    if s.len() == 0 {
        None
    } else {
        match first_some(s.drop_last()) {
            Some(hit) => Some(hit),
            None => match s.last() {
                Some(t) => Some((s.len() - 1, t)),
                None => None,
            },
        }
    }
}

/// An entry that is present, with none before it, is the first.
pub proof fn lemma_first_some<T>(s: Seq<Option<T>>, k: int)
    requires
        0 <= k < s.len(),
        s[k] is Some,
        forall|j: int| 0 <= j < k ==> s[j] is None,
    ensures
        first_some(s) == Some((k, s[k]->0)),
    decreases s.len(),
{
    if k == s.len() - 1 {
        lemma_first_none(s.drop_last());
    } else {
        lemma_first_some(s.drop_last(), k);
    }
}

/// Where no entry is present, there is no first one.
pub proof fn lemma_first_none<T>(s: Seq<Option<T>>)
    requires
        forall|j: int| 0 <= j < s.len() ==> s[j] is None,
    ensures
        first_some(s) is None,
    decreases s.len(),
{
    if s.len() > 0 {
        lemma_first_none(s.drop_last());
    }
}

/// What the first entry says of the others.
pub proof fn lemma_first_some_found<T>(s: Seq<Option<T>>)
    ensures
        first_some(s) is None ==> forall|j: int| 0 <= j < s.len() ==> s[j] is None,
        first_some(s) matches Some(hit) ==> 0 <= hit.0 < s.len() && s[hit.0] == Some(hit.1) && forall|
            j: int,
        |
            0 <= j < hit.0 ==> s[j] is None,
    decreases s.len(),
{
    if s.len() > 0 {
        lemma_first_some_found(s.drop_last());
        assert forall|j: int| 0 <= j < s.len() - 1 implies s[j] == s.drop_last()[j] by {}
    }
}

/// The entries of `s` that are present, in order.
pub open spec fn collect_some<T>(s: Seq<Option<T>>) -> Seq<T>
    decreases s.len(),
{
    if s.len() == 0 {
        Seq::empty()
    } else {
        match s.last() {
            Some(t) => collect_some(s.drop_last()).push(t),
            None => collect_some(s.drop_last()),
        }
    }
}

/// One more entry at the end adds itself where it is present.
pub proof fn lemma_collect_push<T>(s: Seq<Option<T>>, x: Option<T>)
    ensures
        collect_some(s.push(x)) == match x {
            Some(t) => collect_some(s).push(t),
            None => collect_some(s),
        },
{
    assert(s.push(x).drop_last() =~= s);
}

/// Collecting is done piece by piece.
pub proof fn lemma_collect_concat<T>(a: Seq<Option<T>>, b: Seq<Option<T>>)
    ensures
        collect_some(a + b) == collect_some(a) + collect_some(b),
    decreases b.len(),
{
    if b.len() == 0 {
        assert(a + b =~= a);
        assert(collect_some(a) + collect_some(b) =~= collect_some(a));
    } else {
        lemma_collect_concat(a, b.drop_last());
        assert((a + b).drop_last() =~= a + b.drop_last());
        assert(collect_some(a + b) =~= collect_some(a) + collect_some(b));
    }
}

/// Whatever is collected was an entry.
pub proof fn lemma_collect_from<T>(s: Seq<Option<T>>, k: int)
    requires
        0 <= k < collect_some(s).len(),
    ensures
        exists|j: int| 0 <= j < s.len() && #[trigger] s[j] == Some(collect_some(s)[k]),
    decreases s.len(),
{
    if s.len() > 0 {
        let init = s.drop_last();
        if k < collect_some(init).len() {
            lemma_collect_from(init, k);
            let j = choose|j: int| 0 <= j < init.len() && #[trigger] init[j] == Some(collect_some(init)[k]);
            assert(s[j] == Some(collect_some(s)[k]));
        } else {
            assert(s[s.len() - 1] == Some(collect_some(s)[k]));
        }
    }
}

/// Whatever is collected stands in the order of its entries.
pub proof fn lemma_collect_order<T>(s: Seq<Option<T>>, i: int, j: int)
    requires
        0 <= i < j < collect_some(s).len(),
    ensures
        exists|p: int, q: int|
            0 <= p < q < s.len() && #[trigger] s[p] == Some(collect_some(s)[i]) && #[trigger] s[q]
                == Some(collect_some(s)[j]),
    decreases s.len(),
{
    if s.len() > 0 {
        let init = s.drop_last();
        if j < collect_some(init).len() {
            lemma_collect_order(init, i, j);
            let (p, q) = choose|p: int, q: int|
                0 <= p < q < init.len() && #[trigger] init[p] == Some(collect_some(init)[i])
                    && #[trigger] init[q] == Some(collect_some(init)[j]);
            assert(s[p] == Some(collect_some(s)[i]));
            assert(s[q] == Some(collect_some(s)[j]));
        } else {
            lemma_collect_from(init, i);
            let p = choose|p: int| 0 <= p < init.len() && #[trigger] init[p] == Some(collect_some(init)[i]);
            assert(s[p] == Some(collect_some(s)[i]));
            assert(s[s.len() - 1] == Some(collect_some(s)[j]));
        }
    }
}

/// Whatever entry is present is collected.
pub proof fn lemma_collect_has<T>(s: Seq<Option<T>>, j: int)
    requires
        0 <= j < s.len(),
        s[j] is Some,
    ensures
        collect_some(s).contains(s[j]->0),
    decreases s.len(),
{
    let init = s.drop_last();
    if j < init.len() {
        lemma_collect_has(init, j);
        let k = choose|k: int| 0 <= k < collect_some(init).len() && collect_some(init)[k] == s[j]->0;
        assert(collect_some(s)[k] == s[j]->0);
    } else {
        assert(collect_some(s).last() == s[j]->0);
        assert(collect_some(s)[collect_some(s).len() - 1] == s[j]->0);
    }
}

/// A vector of `n` entries in which `items[j]` stands at `indices[j]` and everything
/// else is absent.
pub fn scatter<T: Copy>(n: usize, indices: &Vec<usize>, items: &Vec<Option<T>>) -> (placed: Vec<Option<T>>)
    requires
        indices.len() == items.len(),
        forall|j: int| 0 <= j < indices.len() ==> (#[trigger] indices[j]) < n,
        forall|j: int, k: int| 0 <= j < k < indices.len() ==> indices[j] < indices[k],
    ensures
        placed.len() == n,
        forall|j: int| 0 <= j < indices.len() ==> placed[(#[trigger] indices[j]) as int] == items[j],
        forall|m: int| 0 <= m < n && (forall|j: int| 0 <= j < indices.len() ==> indices[j] != m) ==> (
        #[trigger] placed[m]) is None,
{
    let mut placed: Vec<Option<T>> = Vec::new();
    let mut next: usize = 0;
    let mut m: usize = 0;
    while m < n
        invariant
            0 <= m <= n,
            placed.len() == m,
            indices.len() == items.len(),
            0 <= next <= indices.len(),
            forall|j: int| 0 <= j < indices.len() ==> (#[trigger] indices[j]) < n,
            forall|j: int, k: int| 0 <= j < k < indices.len() ==> indices[j] < indices[k],
            forall|j: int| 0 <= j < next ==> (#[trigger] indices[j]) < m,
            forall|j: int| next <= j < indices.len() ==> (#[trigger] indices[j]) >= m,
            forall|j: int| 0 <= j < next ==> placed[(#[trigger] indices[j]) as int] == items[j],
            forall|i: int|
                0 <= i < m && (forall|j: int| 0 <= j < indices.len() ==> indices[j] != i) ==> (
                #[trigger] placed[i]) is None,
        decreases n - m,
    {
        if next < indices.len() && indices[next] == m {
            placed.push(items[next]);
            next = next + 1;
        } else {
            placed.push(None);
        }
        m = m + 1;
    }
    placed
}

/// Where a prefix passes a test and nothing after it does, the prefix is what passes.
pub proof fn lemma_filter_take<A>(s: Seq<A>, p: spec_fn(A) -> bool, n: int)
    requires
        0 <= n <= s.len(),
        forall|i: int| 0 <= i < n ==> p(#[trigger] s[i]),
        forall|i: int| n <= i < s.len() ==> !p(#[trigger] s[i]),
    ensures
        s.filter(p) == s.take(n),
    decreases s.len(),
{
    reveal(Seq::filter);
    if s.len() > 0 {
        let rest = s.drop_last();
        if n < s.len() {
            lemma_filter_take(rest, p, n);
            assert(rest.take(n) =~= s.take(n));
        } else {
            lemma_filter_take(rest, p, n - 1);
            assert(rest.take(n - 1).push(s.last()) =~= s.take(n));
        }
    } else {
        assert(s.take(n) =~= s);
    }
}

/// Where a prefix fails a test and nothing after it does, the rest is what passes.
pub proof fn lemma_filter_skip<A>(s: Seq<A>, p: spec_fn(A) -> bool, n: int)
    requires
        0 <= n <= s.len(),
        forall|i: int| 0 <= i < n ==> !p(#[trigger] s[i]),
        forall|i: int| n <= i < s.len() ==> p(#[trigger] s[i]),
    ensures
        s.filter(p) == s.skip(n),
    decreases s.len(),
{
    reveal(Seq::filter);
    if s.len() > 0 {
        let rest = s.drop_last();
        if n < s.len() {
            lemma_filter_skip(rest, p, n);
            assert(rest.skip(n).push(s.last()) =~= s.skip(n));
        } else {
            lemma_filter_skip(rest, p, n - 1);
            assert(rest.skip(n - 1) =~= s.skip(n));
        }
    } else {
        assert(s.skip(n) =~= s);
    }
}

/// Collecting through one function and then through another is collecting through both in
/// turn.
pub proof fn lemma_collect_compose<A, B, C>(
    s: Seq<A>,
    f: spec_fn(A) -> Option<B>,
    g: spec_fn(B) -> Option<C>,
    h: spec_fn(A) -> Option<C>,
)
    requires
        forall|i: int|
            0 <= i < s.len() ==> h(#[trigger] s[i]) == (match f(s[i]) {
                Some(x) => g(x),
                None => None,
            }),
    ensures
        collect_some(collect_some(s.map_values(f)).map_values(g)) == collect_some(s.map_values(h)),
    decreases s.len(),
{
    if s.len() > 0 {
        let init = s.drop_last();
        lemma_collect_compose(init, f, g, h);
        assert(s.map_values(f).drop_last() =~= init.map_values(f));
        assert(s.map_values(h).drop_last() =~= init.map_values(h));
        if let Some(x) = f(s.last()) {
            let before = collect_some(init.map_values(f));
            assert(collect_some(s.map_values(f)) =~= before.push(x));
            assert(before.push(x).map_values(g).drop_last() =~= before.map_values(g));
        }
    } else {
        assert(s.map_values(f) =~= Seq::empty());
        assert(s.map_values(h) =~= Seq::empty());
        assert(collect_some(s.map_values(f)).map_values(g) =~= Seq::empty());
    }
}

/// A joined list holds what either part holds.
pub proof fn lemma_joined_contains<T>(a: Seq<T>, b: Seq<T>, x: T)
    ensures
        (a + b).contains(x) == (a.contains(x) || b.contains(x)),
{
    if a.contains(x) {
        let i = choose|i: int| 0 <= i < a.len() && a[i] == x;
        assert((a + b)[i] == x);
    }
    if b.contains(x) {
        let i = choose|i: int| 0 <= i < b.len() && b[i] == x;
        assert((a + b)[a.len() + i] == x);
    }
}

/// A present entry that is collected stands in the list after those before it.
pub proof fn lemma_collect_at<T>(s: Seq<Option<T>>, k: int)
    requires
        0 <= k < collect_some(s).len(),
    ensures
        exists|j: int|
            0 <= j < s.len() && #[trigger] s[j] == Some(collect_some(s)[k]) && collect_some(s.take(j))
                == collect_some(s).take(k),
    decreases s.len(),
{
    if s.len() > 0 {
        let init = s.drop_last();
        if k < collect_some(init).len() {
            lemma_collect_at(init, k);
            let j = choose|j: int|
                0 <= j < init.len() && #[trigger] init[j] == Some(collect_some(init)[k])
                    && collect_some(init.take(j)) == collect_some(init).take(k);
            assert(init.take(j) =~= s.take(j));
            assert(collect_some(s).take(k) =~= collect_some(init).take(k));
            assert(s[j] == Some(collect_some(s)[k]));
        } else {
            let j = s.len() - 1;
            assert(s.take(j) =~= init);
            assert(collect_some(s).take(k) =~= collect_some(init));
            assert(s[j] == Some(collect_some(s)[k]));
        }
    }
}

/// Where every entry is present, every entry is collected.
pub proof fn lemma_collect_all<T>(s: Seq<Option<T>>)
    requires
        forall|j: int| 0 <= j < s.len() ==> (#[trigger] s[j]) is Some,
    ensures
        collect_some(s).len() == s.len(),
    decreases s.len(),
{
    if s.len() > 0 {
        let init = s.drop_last();
        assert forall|j: int| 0 <= j < init.len() implies (#[trigger] init[j]) is Some by {
            assert(init[j] == s[j]);
        }
        lemma_collect_all(init);
    }
}

/// Where each present entry tells its index, the entries collected are those at the indices
/// that they tell, in order, and none is missing.
pub proof fn lemma_collect_indexed<T>(s: Seq<Option<T>>, index: spec_fn(T) -> int)
    requires
        forall|i: int| 0 <= i < s.len() && (#[trigger] s[i]) is Some ==> index(s[i]->0) == i,
    ensures
        forall|k: int|
            0 <= k < collect_some(s).len() ==> 0 <= index(#[trigger] collect_some(s)[k]) < s.len()
                && s[index(collect_some(s)[k])] == Some(collect_some(s)[k]),
        forall|k: int, m: int|
            0 <= k < m < collect_some(s).len() ==> index(#[trigger] collect_some(s)[k]) < index(
                #[trigger] collect_some(s)[m],
            ),
        forall|i: int|
            0 <= i < s.len() && (#[trigger] s[i]) is Some ==> collect_some(s).contains(s[i]->0),
    decreases s.len(),
{
    if s.len() > 0 {
        let init = s.drop_last();
        assert forall|i: int| 0 <= i < init.len() && (#[trigger] init[i]) is Some implies index(
            init[i]->0,
        ) == i by {
            assert(init[i] == s[i]);
        }
        lemma_collect_indexed(init, index);
        let list = collect_some(s);
        let before = collect_some(init);
        assert forall|k: int| 0 <= k < list.len() implies 0 <= index(#[trigger] list[k]) < s.len()
            && s[index(list[k])] == Some(list[k]) by {
            if k < before.len() {
                assert(list[k] == before[k]);
                assert(init[index(before[k])] == s[index(before[k])]);
            } else {
                assert(s[s.len() - 1] == Some(list[k]));
            }
        }
        assert forall|k: int, m: int| 0 <= k < m < list.len() implies index(#[trigger] list[k])
            < index(#[trigger] list[m]) by {
            assert(list[k] == before[k]);
            if m < before.len() {
                assert(list[m] == before[m]);
            } else {
                assert(s[s.len() - 1] == Some(list[m]));
            }
        }
        assert forall|i: int| 0 <= i < s.len() && (#[trigger] s[i]) is Some implies list.contains(
            s[i]->0,
        ) by {
            lemma_collect_has(s, i);
        }
    }
}

/// The entries collected are those at some indices in order, and every index of a present entry
/// is among them.
pub proof fn lemma_collect_picks<T>(s: Seq<Option<T>>)
    ensures
        exists|at: Seq<int>| #[trigger] picks(collect_some(s), s, at),
    decreases s.len(),
{
    if s.len() == 0 {
        assert(picks(collect_some(s), s, Seq::empty()));
    } else {
        let init = s.drop_last();
        lemma_collect_picks(init);
        let at = choose|at: Seq<int>| #[trigger] picks(collect_some(init), init, at);
        if s.last() is Some {
            let more = at.push(s.len() - 1);
            assert forall|i: int| 0 <= i < s.len() && (#[trigger] s[i]) is Some implies more.contains(i) by {
                if i < init.len() {
                    assert(init[i] == s[i]);
                    let k = choose|k: int| 0 <= k < at.len() && at[k] == i;
                    assert(more[k] == i);
                } else {
                    assert(more[at.len() as int] == i);
                }
            }
            assert(picks(collect_some(s), s, more));
        } else {
            assert forall|i: int| 0 <= i < s.len() && (#[trigger] s[i]) is Some implies at.contains(i) by {
                assert(init[i] == s[i]);
            }
            assert(picks(collect_some(s), s, at));
        }
    }
}

/// Whether a list holds the present entries of `s`, which stand at the given indices.
pub open spec fn picks<T>(list: Seq<T>, s: Seq<Option<T>>, at: Seq<int>) -> bool {
    &&& at.len() == list.len()
    &&& forall|k: int| 0 <= k < at.len() ==> 0 <= #[trigger] at[k] < s.len() && s[at[k]] == Some(list[k])
    &&& forall|k: int, m: int| 0 <= k < m < at.len() ==> #[trigger] at[k] < #[trigger] at[m]
    &&& forall|i: int| 0 <= i < s.len() && (#[trigger] s[i]) is Some ==> at.contains(i)
}

/// No more entries are collected than there are.
pub proof fn lemma_collect_short<T>(s: Seq<Option<T>>)
    ensures
        collect_some(s).len() <= s.len(),
    decreases s.len(),
{
    if s.len() > 0 {
        lemma_collect_short(s.drop_last());
    }
}

} // verus!
