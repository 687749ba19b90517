//! Stable sorting by descending keys: elements with greater keys come first,
//! and elements with equal keys keep their order (as `slice::sort_by` does
//! with a comparator that compares the keys in reverse).
use vstd::prelude::*;
use vstd::relations::{sorted_by, total_ordering};

use crate::types::{entries, EntryModel, KbEntry};

verus! {

broadcast use vstd::seq_lib::group_to_multiset_ensures;

/// A sort key of four components, compared lexicographically.
#[derive(Clone, Copy)]
pub struct SortKey {
    pub first: i128,
    pub second: i128,
    pub third: i128,
    pub fourth: i128,
}

/// `x` is lexicographically greater than `y`.
pub open spec fn key_greater(x: SortKey, y: SortKey) -> bool {
    x.first > y.first || (x.first == y.first && (x.second > y.second || (x.second == y.second && (
    x.third > y.third || (x.third == y.third && x.fourth > y.fourth)))))
}

/// Element `i` comes before or is element `j` in the stable descending
/// order: its key is greater, or the keys are equal and `i <= j`.
pub open spec fn comes_first(keys: Seq<SortKey>) -> spec_fn(int, int) -> bool {
    |i: int, j: int| key_greater(keys[i], keys[j]) || (keys[i] == keys[j] && i <= j)
}

/// The positions `0..n` in the stable descending order of their keys.
pub open spec fn stable_order(keys: Seq<SortKey>) -> Seq<int> {
    Seq::new(keys.len(), |i: int| i).sort_by(comes_first(keys))
}

/// The elements of `es` in the stable descending order of `keys`.
pub open spec fn reordered<A>(es: Seq<A>, keys: Seq<SortKey>) -> Seq<A> {
    stable_order(keys).map_values(|i: int| es[i])
}

/// Reordering keeps the number of elements.
pub proof fn lemma_reordered_len<A>(es: Seq<A>, keys: Seq<SortKey>)
    requires
        keys.len() == es.len(),
    ensures
        reordered(es, keys).len() == es.len(),
{
    lemma_stable_order(keys);
}

/// `x` is lexicographically greater than or equal to `y`.
pub open spec fn key_geq(x: SortKey, y: SortKey) -> bool {
    key_greater(x, y) || x == y
}

/// A reordered sequence holds, at each place, the element of the input at
/// a position in range; the keys of its elements do not increase.
pub proof fn lemma_reordered_sorted<A>(es: Seq<A>, keys: Seq<SortKey>)
    requires
        keys.len() == es.len(),
    ensures
        reordered(es, keys).len() == es.len(),
        forall|i: int|
            0 <= i < es.len() ==> 0 <= #[trigger] stable_order(keys)[i] < es.len() && reordered(
                es,
                keys,
            )[i] == es[stable_order(keys)[i]],
        forall|i: int, j: int|
            0 <= i < j < es.len() ==> key_geq(
                #[trigger] keys[stable_order(keys)[i]],
                #[trigger] keys[stable_order(keys)[j]],
            ),
{
    lemma_stable_order(keys);
    let so = stable_order(keys);
    assert forall|i: int, j: int| 0 <= i < j < es.len() implies key_geq(
        #[trigger] keys[so[i]],
        #[trigger] keys[so[j]],
    ) by {
        assert(comes_first(keys)(so[i], so[j]));
    }
}

/// Reordering keeps every element.
pub proof fn lemma_reordered_contains<A>(es: Seq<A>, keys: Seq<SortKey>, k: int)
    requires
        keys.len() == es.len(),
        0 <= k < es.len(),
    ensures
        reordered(es, keys).contains(es[k]),
{
    lemma_stable_order(keys);
    let ids = Seq::new(keys.len(), |i: int| i);
    let so = stable_order(keys);
    assert(ids[k] == k);
    assert(ids.to_multiset().contains(k));
    assert(so.to_multiset().contains(k));
    let j = choose|j: int| 0 <= j < so.len() && so[j] == k;
    assert(reordered(es, keys)[j] == es[k]);
}

proof fn lemma_key_greater_transitive(x: SortKey, y: SortKey, z: SortKey)
    requires
        key_greater(x, y),
        key_greater(y, z),
    ensures
        key_greater(x, z),
{
}

/// The stable descending order is a total order on positions.
pub proof fn lemma_comes_first_total(keys: Seq<SortKey>)
    ensures
        total_ordering(comes_first(keys)),
{
    let r = comes_first(keys);
    assert forall|i: int| #[trigger] r(i, i) by {}
    assert forall|i: int, j: int| #[trigger] r(i, j) && #[trigger] r(j, i) implies i == j by {
        if key_greater(keys[i], keys[j]) && key_greater(keys[j], keys[i]) {
            lemma_key_greater_transitive(keys[i], keys[j], keys[i]);
        }
    }
    assert forall|i: int, j: int, k: int| #[trigger] r(i, j) && #[trigger] r(j, k) implies r(i, k) by {
        if key_greater(keys[i], keys[j]) && key_greater(keys[j], keys[k]) {
            lemma_key_greater_transitive(keys[i], keys[j], keys[k]);
        }
    }
    assert forall|i: int, j: int| #[trigger] r(i, j) || #[trigger] r(j, i) by {}
}

/// The sorted positions are exactly `0..n`, each once.
pub proof fn lemma_stable_order(keys: Seq<SortKey>)
    ensures
        stable_order(keys).len() == keys.len(),
        forall|k: int| 0 <= k < keys.len() ==> 0 <= #[trigger] stable_order(keys)[k] < keys.len(),
        sorted_by(stable_order(keys), comes_first(keys)),
        stable_order(keys).to_multiset() == Seq::new(keys.len(), |i: int| i).to_multiset(),
{
    let ids = Seq::new(keys.len(), |i: int| i);
    lemma_comes_first_total(keys);
    ids.lemma_sort_by_ensures(comes_first(keys));
    let s = stable_order(keys);
    vstd::seq_lib::to_multiset_len(s);
    vstd::seq_lib::to_multiset_len(ids);
    assert forall|k: int| 0 <= k < keys.len() implies 0 <= #[trigger] s[k] < keys.len() by {
        assert(s.contains(s[k]));
        assert(ids.contains(s[k]));
        let j = choose|j: int| 0 <= j < ids.len() && ids[j] == s[k];
        assert(ids[j] == j);
    }
}

fn greater(x: &SortKey, y: &SortKey) -> (r: bool)
    ensures
        r == key_greater(*x, *y),
{
    x.first > y.first || (x.first == y.first && (x.second > y.second || (x.second == y.second && (
    x.third > y.third || (x.third == y.third && x.fourth > y.fourth)))))
}

fn same_key(x: &SortKey, y: &SortKey) -> (r: bool)
    ensures
        r == (*x == *y),
{
    x.first == y.first && x.second == y.second && x.third == y.third && x.fourth == y.fourth
}

/// Sorts the positions of the keys: greater keys first, equal keys in
/// their order.
pub fn stable_sort_positions(keys: &Vec<SortKey>) -> (r: Vec<usize>)
    ensures
        r@.map_values(|i: usize| i as int) == stable_order(keys@),
{
    let ghost ids = Seq::new(keys@.len(), |i: int| i);
    let ghost ord = comes_first(keys@);
    let mut r: Vec<usize> = Vec::new();
    let mut i: usize = 0;
    proof {
        lemma_comes_first_total(keys@);
    }
    while i < keys.len()
        invariant
            i <= keys@.len(),
            ids == Seq::new(keys@.len(), |i: int| i),
            ord == comes_first(keys@),
            total_ordering(ord),
            forall|k: int| 0 <= k < r@.len() ==> (#[trigger] r@[k]) < i,
            sorted_by(r@.map_values(|x: usize| x as int), ord),
            r@.map_values(|x: usize| x as int).to_multiset() == ids.take(i as int).to_multiset(),
        decreases keys@.len() - i,
    {
        let mut p: usize = 0;
        while p < r.len() && (greater(&keys[r[p]], &keys[i]) || same_key(&keys[r[p]], &keys[i]))
            invariant
                p <= r@.len(),
                i < keys@.len(),
                forall|k: int| 0 <= k < r@.len() ==> (#[trigger] r@[k]) < i,
                forall|k: int| 0 <= k < p ==> ord(#[trigger] r@[k] as int, i as int),
                ord == comes_first(keys@),
            decreases r@.len() - p,
        {
            p = p + 1;
        }
        let ghost before = r@.map_values(|x: usize| x as int);
        r.insert(p, i);
        proof {
            let after = r@.map_values(|x: usize| x as int);
            assert(after =~= before.insert(p as int, i as int));
            assert(ids.take(i + 1) =~= ids.take(i as int).push(i as int));
            if p < before.len() {
                assert(ord(i as int, before[p as int]));
            }
            assert forall|a: int, b: int| 0 <= a < b < after.len() implies #[trigger] ord(
                after[a],
                after[b],
            ) by {
                if b < p {
                    assert(after[a] == before[a] && after[b] == before[b]);
                } else if b == p {
                    assert(after[a] == before[a]);
                } else if a == p {
                    assert(after[b] == before[b - 1]);
                    if b - 1 > p {
                        assert(ord(before[p as int], before[b - 1]));
                    }
                } else if a < p {
                    assert(after[a] == before[a] && after[b] == before[b - 1]);
                } else {
                    assert(after[a] == before[a - 1] && after[b] == before[b - 1]);
                }
            }
        }
        i = i + 1;
    }
    proof {
        assert(ids.take(keys@.len() as int) =~= ids);
        ids.lemma_sort_by_ensures(ord);
        vstd::seq_lib::lemma_sorted_unique(r@.map_values(|x: usize| x as int), ids.sort_by(ord), ord);
    }
    r
}

/// Sorts entries by descending keys, keeping the order of entries with
/// equal keys.
pub fn sort_entries_by_keys(es: &Vec<KbEntry>, keys: &Vec<SortKey>) -> (r: Vec<KbEntry>)
    requires
        keys@.len() == es@.len(),
    ensures
        entries(r) == reordered(entries(*es), keys@),
{
    let order = stable_sort_positions(keys);
    proof {
        lemma_stable_order(keys@);
    }
    let ghost pos = order@.map_values(|x: usize| x as int);
    let mut r: Vec<KbEntry> = Vec::new();
    let mut k: usize = 0;
    while k < order.len()
        invariant
            k <= order@.len(),
            pos == order@.map_values(|x: usize| x as int),
            pos == stable_order(keys@),
            pos.len() == es@.len(),
            keys@.len() == es@.len(),
            forall|m: int| 0 <= m < pos.len() ==> 0 <= #[trigger] pos[m] < es@.len(),
            r@.len() == k,
            forall|m: int| 0 <= m < k ==> (#[trigger] r@[m])@ == es@[pos[m]]@,
        decreases order@.len() - k,
    {
        assert(pos[k as int] == order@[k as int] as int);
        r.push(es[order[k]].clone());
        k = k + 1;
    }
    assert(entries(r) =~= reordered(entries(*es), keys@));
    r
}

} // verus!
