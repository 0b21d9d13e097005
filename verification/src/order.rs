//! Stable sorting by a text.

use vstd::prelude::*;

use crate::text::{
    precedes, text_le, text_le_antisymmetric, text_le_reflexive, text_le_total, text_le_transitive,
};

verus! {

/// What can be ordered by a text that it holds.
pub trait Keyed: View {
    /// The text that a value with these contents is ordered by.
    spec fn key_of(view: Self::V) -> Seq<char>;

    /// The text that the value is ordered by.
    fn key(&self) -> (key: &str)
        ensures
            key@ == Self::key_of(self@),
    ;
}

/// The contents of a list.
pub open spec fn views<T: View>(items: Seq<T>) -> Seq<T::V> {
    items.map_values(|t: T| t@)
}

/// Whether the items stand in the order of their keys.
pub open spec fn is_in_order<V>(items: Seq<V>, key: spec_fn(V) -> Seq<char>) -> bool {
    forall|i: int, j: int|
        0 <= i < j < items.len() ==> text_le(key(#[trigger] items[i]), key(#[trigger] items[j]))
}

/// The items with this key, in their order.
pub open spec fn with_key<V>(items: Seq<V>, key: spec_fn(V) -> Seq<char>, k: Seq<char>) -> Seq<V> {
    items.filter(|v: V| key(v) == k)
}

/// Whether `sorted` is `items` in the order of the keys, where items with the same key keep their
/// order.
pub open spec fn is_sorted_form<V>(
    items: Seq<V>,
    sorted: Seq<V>,
    key: spec_fn(V) -> Seq<char>,
) -> bool {
    &&& sorted.to_multiset() == items.to_multiset()
    &&& is_in_order(sorted, key)
    &&& forall|k: Seq<char>| #[trigger] with_key(sorted, key, k) == with_key(items, key, k)
}

/// A list without an item of this key has none to show for it.
pub proof fn lemma_none_with_key<V>(items: Seq<V>, key: spec_fn(V) -> Seq<char>, k: Seq<char>)
    requires
        forall|i: int| 0 <= i < items.len() ==> key(#[trigger] items[i]) != k,
    ensures
        with_key(items, key, k) == Seq::<V>::empty(),
    decreases items.len(),
{
    reveal(Seq::filter);
    if items.len() > 0 {
        lemma_none_with_key(items.drop_last(), key, k);
    }
}

/// The items with a key in a concatenation are those of the one list and those of the other.
proof fn lemma_with_key_concat<V>(
    a: Seq<V>,
    b: Seq<V>,
    key: spec_fn(V) -> Seq<char>,
    k: Seq<char>,
)
    ensures
        with_key(a + b, key, k) == with_key(a, key, k) + with_key(b, key, k),
{
    Seq::filter_distributes_over_add(a, b, |v: V| key(v) == k);
}

/// Putting `x` before the items with its key and with later keys is putting it first and sorting.
proof fn lemma_insert_in_order<V>(
    sorted: Seq<V>,
    rest: Seq<V>,
    key: spec_fn(V) -> Seq<char>,
    p: int,
    x: V,
)
    requires
        0 <= p <= sorted.len(),
        is_sorted_form(rest, sorted, key),
        forall|k: int| 0 <= k < p ==> !text_le(key(x), key(#[trigger] sorted[k])),
        forall|k: int| p <= k < sorted.len() ==> text_le(key(x), key(#[trigger] sorted[k])),
    ensures
        is_sorted_form(seq![x] + rest, sorted.insert(p, x), key),
{
    broadcast use vstd::seq_lib::group_to_multiset_ensures;

    let new = sorted.insert(p, x);
    assert(seq![x] + rest =~= rest.insert(0, x));
    assert(new.to_multiset() == (seq![x] + rest).to_multiset());
    assert forall|i: int, j: int| 0 <= i < j < new.len() implies text_le(
        key(#[trigger] new[i]),
        key(#[trigger] new[j]),
    ) by {
        let old_i = if i < p { i } else { i - 1 };
        let old_j = if j < p { j } else { j - 1 };
        if i == p {
            assert(new[j] == sorted[j - 1]);
        } else if j == p {
            assert(new[i] == sorted[i]);
            text_le_total(key(x), key(sorted[i]));
        } else {
            assert(new[i] == sorted[old_i]);
            assert(new[j] == sorted[old_j]);
        }
    }
    assert forall|k: Seq<char>| #[trigger]
        with_key(new, key, k) == with_key(seq![x] + rest, key, k) by {
        let head = sorted.take(p);
        let tail = sorted.skip(p);
        assert(new =~= head + (seq![x] + tail));
        assert(sorted =~= head + tail);
        lemma_with_key_concat(head, seq![x] + tail, key, k);
        lemma_with_key_concat(seq![x], tail, key, k);
        lemma_with_key_concat(head, tail, key, k);
        lemma_with_key_concat(seq![x], rest, key, k);
        assert(with_key(sorted, key, k) == with_key(rest, key, k));
        if k == key(x) {
            text_le_reflexive(k);
            assert forall|i: int| 0 <= i < head.len() implies key(#[trigger] head[i]) != k by {
                assert(head[i] == sorted[i]);
            }
            lemma_none_with_key(head, key, k);
        } else {
            lemma_none_with_key(seq![x], key, k);
        }
        assert(with_key(new, key, k) =~= with_key(seq![x], key, k) + with_key(sorted, key, k));
    }
}

/// The items in the order of their keys; items with the same key keep their order.
pub fn sort_by_key<T: Keyed>(items: Vec<T>) -> (sorted: Vec<T>)
    ensures
        is_sorted_form(views(items@), views(sorted@), |v: T::V| T::key_of(v)),
{
    let ghost all = views(items@);
    let ghost key = |v: T::V| T::key_of(v);
    let mut left = items;
    let mut sorted: Vec<T> = Vec::new();
    assert(all.skip(all.len() as int) =~= views(sorted@));
    while left.len() > 0
        invariant
            left.len() <= all.len(),
            key == (|v: T::V| T::key_of(v)),
            views(left@) == all.take(left.len() as int),
            is_sorted_form(all.skip(left.len() as int), views(sorted@), key),
        decreases left.len(),
    {
        let ghost n = left.len() as int;
        let ghost before = views(sorted@);
        assert(views(left@)[n - 1] == all[n - 1]);
        match left.pop() {
            Some(x) => {
                assert(x@ == all[n - 1]);
                let mut p: usize = 0;
                while p < sorted.len() && !precedes(x.key(), sorted[p].key())
                    invariant
                        p <= sorted.len(),
                        key == (|v: T::V| T::key_of(v)),
                        before == views(sorted@),
                        forall|k: int| 0 <= k < p ==> !text_le(key(x@), key(#[trigger] before[k])),
                    ensures
                        p <= sorted.len(),
                        forall|k: int| 0 <= k < p ==> !text_le(key(x@), key(#[trigger] before[k])),
                        p < sorted.len() ==> text_le(key(x@), key(before[p as int])),
                    decreases sorted.len() - p,
                {
                    assert(before[p as int] == sorted@[p as int]@);
                    p += 1;
                }
                proof {
                    assert forall|k: int| p <= k < before.len() implies text_le(
                        key(x@),
                        key(#[trigger] before[k]),
                    ) by {
                        if k > p {
                            text_le_transitive(key(x@), key(before[p as int]), key(before[k]));
                        }
                    }
                    lemma_insert_in_order(before, all.skip(n), key, p as int, x@);
                    assert(seq![x@] + all.skip(n) =~= all.skip(n - 1));
                }
                sorted.insert(p, x);
                assert(views(sorted@) =~= before.insert(p as int, x@));
                assert(views(left@) =~= all.take(n - 1));
            },
            None => {},
        }
    }
    assert(all.skip(0) =~= all);
    sorted
}

/// A list has only one sorted form: how the items were ordered before does not show, but for the
/// order of items with the same key.
pub proof fn sorted_form_is_unique<V>(a: Seq<V>, b: Seq<V>, key: spec_fn(V) -> Seq<char>)
    requires
        is_in_order(a, key),
        is_in_order(b, key),
        forall|k: Seq<char>| #[trigger] with_key(a, key, k) == with_key(b, key, k),
    ensures
        a == b,
    decreases a.len(),
{
    if a.len() == 0 {
        if b.len() > 0 {
            let k = key(b[0]);
            assert(with_key(a, key, k) == with_key(b, key, k));
            lemma_none_with_key(a, key, k);
            lemma_first_has_its_key(b, key);
        }
        assert(a =~= b);
    } else {
        lemma_first_has_its_key(a, key);
        lemma_first_is_earliest(a, b, key);
        if b.len() > 0 {
            lemma_first_has_its_key(b, key);
            lemma_first_is_earliest(b, a, key);
            text_le_antisymmetric(key(a[0]), key(b[0]));
            assert(with_key(a, key, key(a[0])) == with_key(b, key, key(a[0])));
            assert(a[0] == b[0]);
            let (x, y) = (a.skip(1), b.skip(1));
            assert(a =~= seq![a[0]] + x);
            assert(b =~= seq![b[0]] + y);
            assert forall|k: Seq<char>| #[trigger] with_key(x, key, k) == with_key(y, key, k) by {
                lemma_with_key_concat(seq![a[0]], x, key, k);
                lemma_with_key_concat(seq![a[0]], y, key, k);
                assert(with_key(a, key, k) == with_key(b, key, k));
                let n = with_key(seq![a[0]], key, k).len() as int;
                assert(with_key(x, key, k) =~= with_key(a, key, k).skip(n));
                assert(with_key(y, key, k) =~= with_key(b, key, k).skip(n));
            }
            assert forall|i: int, j: int| 0 <= i < j < x.len() implies text_le(
                key(#[trigger] x[i]),
                key(#[trigger] x[j]),
            ) by {
                assert(x[i] == a[i + 1] && x[j] == a[j + 1]);
            }
            assert forall|i: int, j: int| 0 <= i < j < y.len() implies text_le(
                key(#[trigger] y[i]),
                key(#[trigger] y[j]),
            ) by {
                assert(y[i] == b[i + 1] && y[j] == b[j + 1]);
            }
            sorted_form_is_unique(x, y, key);
        }
    }
}

/// The first item of a list is the first with its key.
proof fn lemma_first_has_its_key<V>(items: Seq<V>, key: spec_fn(V) -> Seq<char>)
    requires
        items.len() > 0,
    ensures
        with_key(items, key, key(items[0])).len() > 0,
        with_key(items, key, key(items[0]))[0] == items[0],
{
    let k = key(items[0]);
    let x = seq![items[0]];
    assert(items =~= x + items.skip(1));
    lemma_with_key_concat(x, items.skip(1), key, k);
    reveal(Seq::filter);
    assert(x.drop_last() =~= Seq::<V>::empty());
    assert(with_key(x.drop_last(), key, k) =~= Seq::<V>::empty());
    assert(with_key(x, key, k) =~= x);
}

/// The first key of an ordered list is not behind any key of a list with the same items.
proof fn lemma_first_is_earliest<V>(a: Seq<V>, b: Seq<V>, key: spec_fn(V) -> Seq<char>)
    requires
        a.len() > 0,
        is_in_order(b, key),
        forall|k: Seq<char>| #[trigger] with_key(a, key, k) == with_key(b, key, k),
    ensures
        b.len() > 0,
        text_le(key(b[0]), key(a[0])),
{
    let k = key(a[0]);
    lemma_first_has_its_key(a, key);
    assert(with_key(a, key, k) == with_key(b, key, k));
    if forall|i: int| 0 <= i < b.len() ==> key(#[trigger] b[i]) != k {
        lemma_none_with_key(b, key, k);
    }
    let i = choose|i: int| 0 <= i < b.len() && key(#[trigger] b[i]) == k;
    if i == 0 {
        text_le_reflexive(k);
    } else {
        assert(text_le(key(b[0]), key(b[i])));
    }
}

/// The place where `x` goes in an ordered list: behind the items with earlier keys.
proof fn lemma_place<V>(sorted: Seq<V>, key: spec_fn(V) -> Seq<char>, x: V) -> (p: int)
    requires
        is_in_order(sorted, key),
    ensures
        0 <= p <= sorted.len(),
        forall|k: int| 0 <= k < p ==> !text_le(key(x), key(#[trigger] sorted[k])),
        forall|k: int| p <= k < sorted.len() ==> text_le(key(x), key(#[trigger] sorted[k])),
    decreases sorted.len(),
{
    if sorted.len() == 0 {
        0
    } else {
        let shorter = sorted.drop_last();
        let p = lemma_place(shorter, key, x);
        let last = sorted.len() - 1;
        assert forall|k: int| 0 <= k < p implies !text_le(key(x), key(#[trigger] sorted[k])) by {
            assert(sorted[k] == shorter[k]);
        }
        assert forall|k: int| p <= k < last implies text_le(key(x), key(#[trigger] sorted[k])) by {
            assert(sorted[k] == shorter[k]);
        }
        if p < last {
            text_le_transitive(key(x), key(sorted[p]), key(sorted[last]));
            p
        } else if text_le(key(x), key(sorted[last])) {
            p
        } else {
            p + 1
        }
    }
}

/// Every list has a sorted form.
pub proof fn sorted_form_exists<V>(items: Seq<V>, key: spec_fn(V) -> Seq<char>) -> (sorted: Seq<V>)
    ensures
        is_sorted_form(items, sorted, key),
    decreases items.len(),
{
    if items.len() == 0 {
        items
    } else {
        let sorted = sorted_form_exists(items.skip(1), key);
        let p = lemma_place(sorted, key, items[0]);
        lemma_insert_in_order(sorted, items.skip(1), key, p, items[0]);
        assert(seq![items[0]] + items.skip(1) =~= items);
        sorted.insert(p, items[0])
    }
}

} // verus!
