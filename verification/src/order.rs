//! Stable sorting of positions by a key.

use vstd::prelude::*;

use crate::text::{text_before, text_lt, text_lt_strict, text_lt_total, text_lt_transitive};

verus! {

/// A key by which items are put in order.
pub trait SortKey: Sized {
    /// The key comes strictly before the other.
    spec fn before(&self, other: &Self) -> bool;

    /// Whether the key comes strictly before the other.
    fn is_before(&self, other: &Self) -> (r: bool)
        ensures
            r == self.before(other),
    ;

    /// The order is strict, and "not after" is transitive.
    proof fn is_order(a: &Self, b: &Self, c: &Self)
        ensures
            a.before(b) ==> !b.before(a),
            !b.before(a) && !c.before(b) ==> !c.before(a),
    ;
}

impl SortKey for u64 {
    open spec fn before(&self, other: &Self) -> bool {
        *self < *other
    }

    fn is_before(&self, other: &Self) -> (r: bool) {
        *self < *other
    }

    proof fn is_order(a: &Self, b: &Self, c: &Self) {
    }
}

/// A timestamp; later ones come first.
pub struct NewestFirst(pub i64);

impl SortKey for NewestFirst {
    open spec fn before(&self, other: &Self) -> bool {
        self.0 > other.0
    }

    fn is_before(&self, other: &Self) -> (r: bool) {
        self.0 > other.0
    }

    proof fn is_order(a: &Self, b: &Self, c: &Self) {
    }
}

impl SortKey for String {
    open spec fn before(&self, other: &Self) -> bool {
        text_lt(self@, other@)
    }

    fn is_before(&self, other: &Self) -> (r: bool) {
        text_before(self.as_str(), other.as_str())
    }

    proof fn is_order(a: &Self, b: &Self, c: &Self) {
        if text_lt(a@, b@) {
            text_lt_strict(a@, b@);
        }
        if !text_lt(b@, a@) && !text_lt(c@, b@) && text_lt(c@, a@) {
            text_lt_total(a@, b@);
            text_lt_total(b@, c@);
            if a@ != b@ && b@ != c@ {
                text_lt_transitive(a@, b@, c@);
                text_lt_strict(a@, c@);
            }
        }
    }
}

/// Position `i` stands before position `j`: by key, and by position where the
/// keys do not tell them apart.
pub open spec fn position_before<K: SortKey>(keys: Seq<K>, i: int, j: int) -> bool {
    keys[i].before(&keys[j]) || (!keys[j].before(&keys[i]) && i < j)
}

/// The positions `0..n`, each once.
pub open spec fn is_permutation(order: Seq<usize>, n: nat) -> bool {
    &&& order.len() == n
    &&& forall|a: int| 0 <= a < n ==> (#[trigger] order[a] as int) < n
    &&& forall|a: int, b: int| 0 <= a < b < n ==> order[a] != order[b]
}

/// `order` lists positions in the order of their keys.
pub open spec fn in_order<K: SortKey>(keys: Seq<K>, order: Seq<usize>) -> bool {
    forall|a: int, b: int|
        0 <= a < b < order.len() ==> position_before(keys, order[a] as int, order[b] as int)
}

/// `order` is the stable sort of the positions of `keys`.
pub open spec fn is_stable_order<K: SortKey>(keys: Seq<K>, order: Seq<usize>) -> bool {
    is_permutation(order, keys.len()) && in_order(keys, order)
}

/// The items at these positions, in this order.
pub open spec fn reordered<T>(items: Seq<T>, order: Seq<usize>) -> Seq<T> {
    Seq::new(order.len(), |i: int| items[order[i] as int])
}

/// `sorted` is the stable sort of `items` by their keys.
pub open spec fn is_stable_sort<K: SortKey, T>(
    keys: Seq<K>,
    items: Seq<T>,
    sorted: Seq<T>,
) -> bool {
    exists|order: Seq<usize>| #[trigger]
        is_stable_order(keys, order) && sorted == reordered(items, order)
}

/// A stable sort keeps the items, each once, and puts the keys in order.
pub proof fn stable_sort_sorts<K: SortKey, T>(keys: Seq<K>, items: Seq<T>, sorted: Seq<T>) -> (
order: Seq<usize>)
    requires
        keys.len() == items.len(),
        is_stable_sort(keys, items, sorted),
    ensures
        is_permutation(order, items.len()),
        sorted == reordered(items, order),
        sorted.len() == items.len(),
        forall|a: int, b: int|
            0 <= a < b < sorted.len() ==> !keys[order[b] as int].before(&keys[order[a] as int]),
        forall|a: int| 0 <= a < sorted.len() ==> items.contains(#[trigger] sorted[a]),
{
    let order = choose|order: Seq<usize>| #[trigger]
        is_stable_order(keys, order) && sorted == reordered(items, order);
    assert forall|a: int, b: int| 0 <= a < b < sorted.len() implies !keys[order[b] as int].before(
        &keys[order[a] as int],
    ) by {
        let x = order[a] as int;
        let y = order[b] as int;
        assert(position_before(keys, x, y));
        K::is_order(&keys[x], &keys[y], &keys[x]);
    }
    assert forall|a: int| 0 <= a < sorted.len() implies items.contains(#[trigger] sorted[a]) by {
        assert(order[a] < items.len());
        assert(items[order[a] as int] == sorted[a]);
    }
    order
}

proof fn position_before_transitive<K: SortKey>(keys: Seq<K>, i: int, j: int, k: int)
    requires
        position_before(keys, i, j),
        position_before(keys, j, k),
    ensures
        position_before(keys, i, k),
{
    K::is_order(&keys[i], &keys[j], &keys[k]);
    K::is_order(&keys[j], &keys[k], &keys[i]);
    K::is_order(&keys[k], &keys[i], &keys[j]);
    K::is_order(&keys[j], &keys[i], &keys[k]);
}

/// Every member of `order` lies in `lo..hi`, and each such position is there once.
spec fn covers(order: Seq<usize>, lo: int, hi: int) -> bool {
    &&& order.len() == hi - lo
    &&& forall|a: int| 0 <= a < order.len() ==> lo <= (#[trigger] order[a]) < hi
    &&& forall|a: int, b: int| 0 <= a < b < order.len() ==> order[a] != order[b]
}

/// Putting items in another order keeps them.
pub proof fn reordered_keeps<T>(items: Seq<T>, order: Seq<usize>)
    requires
        is_permutation(order, items.len()),
    ensures
        forall|x: T| reordered(items, order).contains(x) <==> #[trigger] items.contains(x),
{
    let sorted = reordered(items, order);
    assert forall|x: T| sorted.contains(x) <==> #[trigger] items.contains(x) by {
        if sorted.contains(x) {
            let i = choose|i: int| 0 <= i < sorted.len() && sorted[i] == x;
            assert(order[i] < items.len());
            assert(items[order[i] as int] == x);
        }
        if items.contains(x) {
            let k = choose|k: int| 0 <= k < items.len() && items[k] == x;
            permutation_covers(order, items.len(), k);
            let i = choose|i: int| 0 <= i < order.len() && order[i] == k;
            assert(sorted[i] == x);
        }
    }
}

/// Putting items in another order keeps how often each of them occurs.
pub proof fn reordered_keeps_counts<T>(items: Seq<T>, order: Seq<usize>)
    requires
        is_permutation(order, items.len()),
    ensures
        reordered(items, order).to_multiset() == items.to_multiset(),
    decreases items.len(),
{
    let sorted = reordered(items, order);
    if items.len() == 0 {
        assert(sorted =~= items);
    } else {
        let n = items.len() - 1;
        permutation_covers(order, items.len(), n);
        let i = choose|i: int| 0 <= i < order.len() && order[i] == n;
        let fewer = order.remove(i);
        let rest = items.drop_last();
        assert forall|a: int| 0 <= a < n implies (#[trigger] fewer[a] as int) < n by {
            let b = if a < i {
                a
            } else {
                a + 1
            };
            assert(fewer[a] == order[b]);
            assert(order[b] != order[i]) by {
                if b < i {
                    assert(order[b] != order[i]);
                } else {
                    assert(order[i] != order[b]);
                }
            }
        }
        assert forall|a: int, b: int| 0 <= a < b < n implies fewer[a] != fewer[b] by {
            let x = if a < i {
                a
            } else {
                a + 1
            };
            let y = if b < i {
                b
            } else {
                b + 1
            };
            assert(fewer[a] == order[x] && fewer[b] == order[y]);
            assert(order[x] != order[y]);
        }
        reordered_keeps_counts(rest, fewer);
        assert(sorted.remove(i) =~= reordered(rest, fewer)) by {
            assert forall|a: int| 0 <= a < n implies sorted.remove(i)[a] == reordered(
                rest,
                fewer,
            )[a] by {
                assert((fewer[a] as int) < n);
            }
        }
        assert(sorted =~= sorted.remove(i).insert(i, items.last()));
        vstd::seq_lib::to_multiset_insert(sorted.remove(i), i, items.last());
        assert(items =~= rest.push(items.last()));
        vstd::seq_lib::to_multiset_build(rest, items.last());
    }
}

/// Every position below `n` is in a permutation of them.
proof fn permutation_covers(order: Seq<usize>, n: nat, k: int)
    requires
        is_permutation(order, n),
        0 <= k < n,
    ensures
        exists|i: int| 0 <= i < order.len() && order[i] == k,
{
    let values = order.map_values(|p: usize| p as int);
    assert(values.no_duplicates()) by {
        assert forall|i: int, j: int| 0 <= i < values.len() && 0 <= j < values.len() && i
            != j implies values[i] != values[j] by {
            if i < j {
                assert(order[i] != order[j]);
            } else {
                assert(order[j] != order[i]);
            }
        }
    }
    values.unique_seq_to_set();
    let all = vstd::set_lib::set_int_range(0, n as int);
    vstd::set_lib::lemma_int_range(0, n as int);
    assert(values.to_set().subset_of(all)) by {
        assert forall|x: int| values.to_set().contains(x) implies all.contains(x) by {
            let i = choose|i: int| 0 <= i < values.len() && values[i] == x;
            assert(order[i] < n);
        }
    }
    vstd::set_lib::lemma_subset_equality(values.to_set(), all);
    assert(values.to_set().contains(k));
    let i = choose|i: int| 0 <= i < values.len() && values[i] == k;
    assert(order[i] == k);
}

/// Merges two sorted runs of positions, the first all below the second.
fn merge<K: SortKey>(
    keys: &Vec<K>,
    left: Vec<usize>,
    right: Vec<usize>,
    Ghost(lo): Ghost<int>,
    Ghost(mid): Ghost<int>,
    Ghost(hi): Ghost<int>,
) -> (r: Vec<usize>)
    requires
        0 <= lo <= mid <= hi <= keys.len(),
        covers(left@, lo, mid),
        covers(right@, mid, hi),
        in_order(keys@, left@),
        in_order(keys@, right@),
    ensures
        covers(r@, lo, hi),
        in_order(keys@, r@),
{
    let mut out: Vec<usize> = Vec::new();
    let mut i: usize = 0;
    let mut j: usize = 0;
    while i < left.len() || j < right.len()
        invariant
            0 <= lo <= mid <= hi <= keys.len(),
            covers(left@, lo, mid),
            covers(right@, mid, hi),
            in_order(keys@, left@),
            in_order(keys@, right@),
            i <= left.len(),
            j <= right.len(),
            out.len() == i + j,
            in_order(keys@, out@),
            forall|a: int| 0 <= a < out.len() ==> lo <= (#[trigger] out@[a]) < hi,
            forall|a: int, b: int| 0 <= a < b < out.len() ==> out@[a] != out@[b],
            forall|a: int, b: int|
                0 <= a < out.len() && i <= b < left.len() ==> position_before(
                    keys@,
                    #[trigger] out@[a] as int,
                    #[trigger] left@[b] as int,
                ) && out@[a] != left@[b],
            forall|a: int, b: int|
                0 <= a < out.len() && j <= b < right.len() ==> position_before(
                    keys@,
                    #[trigger] out@[a] as int,
                    #[trigger] right@[b] as int,
                ) && out@[a] != right@[b],
        decreases left.len() + right.len() - i - j,
    {
        let from_left: bool = if i == left.len() {
            false
        } else if j == right.len() {
            true
        } else {
            !keys[right[j]].is_before(&keys[left[i]])
        };
        if from_left {
            let p: usize = left[i];
            proof {
                assert(forall|b: int|
                    i < b < left.len() ==> position_before(
                        keys@,
                        p as int,
                        #[trigger] left@[b] as int,
                    ));
                assert forall|b: int| j <= b < right.len() implies position_before(
                    keys@,
                    p as int,
                    #[trigger] right@[b] as int,
                ) by {
                    K::is_order(&keys@[p as int], &keys@[right@[j as int] as int], &keys@[p as int]);
                    assert(position_before(keys@, p as int, right@[j as int] as int));
                    if b > j {
                        position_before_transitive(
                            keys@,
                            p as int,
                            right@[j as int] as int,
                            right@[b] as int,
                        );
                    }
                }
            }
            out.push(p);
            i += 1;
        } else {
            let p: usize = right[j];
            proof {
                assert(forall|b: int|
                    j < b < right.len() ==> position_before(
                        keys@,
                        p as int,
                        #[trigger] right@[b] as int,
                    ));
                assert forall|b: int| i <= b < left.len() implies position_before(
                    keys@,
                    p as int,
                    #[trigger] left@[b] as int,
                ) by {
                    assert(position_before(keys@, p as int, left@[i as int] as int));
                    if b > i {
                        position_before_transitive(
                            keys@,
                            p as int,
                            left@[i as int] as int,
                            left@[b] as int,
                        );
                    }
                }
            }
            out.push(p);
            j += 1;
        }
    }
    out
}

fn sort_range<K: SortKey>(keys: &Vec<K>, lo: usize, hi: usize) -> (r: Vec<usize>)
    requires
        lo <= hi <= keys.len(),
    ensures
        covers(r@, lo as int, hi as int),
        in_order(keys@, r@),
    decreases hi - lo,
{
    let mut out: Vec<usize> = Vec::new();
    if lo == hi {
        return out;
    }
    if hi - lo == 1 {
        out.push(lo);
        return out;
    }
    let mid: usize = lo + (hi - lo) / 2;
    let left = sort_range(keys, lo, mid);
    let right = sort_range(keys, mid, hi);
    merge(keys, left, right, Ghost(lo as int), Ghost(mid as int), Ghost(hi as int))
}

/// The positions of `keys` in the order of the keys, equal keys in the order in
/// which they stand.
pub fn stable_order<K: SortKey>(keys: &Vec<K>) -> (r: Vec<usize>)
    ensures
        is_stable_order(keys@, r@),
{
    sort_range(keys, 0, keys.len())
}

/// A stable sort keeps items apart that their keys do not: they come out in the order in which
/// they went in.
pub proof fn equal_keys_keep_their_order<K: SortKey>(
    keys: Seq<K>,
    order: Seq<usize>,
    a: int,
    b: int,
)
    requires
        is_stable_order(keys, order),
        0 <= a < b < order.len(),
        !keys[order[a] as int].before(&keys[order[b] as int]),
    ensures
        order[a] < order[b],
{
    assert(position_before(keys, order[a] as int, order[b] as int));
}

} // verus!
