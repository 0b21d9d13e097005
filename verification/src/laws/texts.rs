//! Laws of texts: joining, numbers, the order of texts, and sorting by it.

use vstd::prelude::*;

use crate::order::{is_sorted_form, sorted_form_is_unique, with_key};
use crate::text::{decimal, joined, text_le};

verus! {

/// Joining two lists is joining each and putting the separator between; one part alone is itself,
/// and no part is nothing.
pub proof fn joining_goes_part_by_part(a: Seq<Seq<char>>, b: Seq<Seq<char>>, sep: Seq<char>)
    ensures
        a.len() > 0 && b.len() > 0 ==> joined(a + b, sep) == joined(a, sep) + sep + joined(b, sep),
        a.len() == 1 ==> joined(a, sep) == a[0],
        a.len() == 0 ==> joined(a, sep).len() == 0,
    decreases b.len(),
{
    if a.len() > 0 && b.len() > 0 {
        let shorter = b.drop_last();
        assert((a + b).drop_last() =~= a + shorter);
        assert((a + b).last() == b.last());
        if b.len() == 1 {
            assert(a + shorter =~= a);
            assert(joined(a + b, sep) =~= joined(a, sep) + sep + joined(b, sep));
        } else {
            joining_goes_part_by_part(a, shorter, sep);
            assert(joined(a + b, sep) =~= joined(a, sep) + sep + joined(b, sep));
        }
    }
}

/// A joined text is as long as its parts and the separators between them.
pub proof fn joining_keeps_the_length(a: Seq<Seq<char>>, p: Seq<char>, sep: Seq<char>)
    requires
        a.len() > 0,
    ensures
        joined(a.push(p), sep).len() == joined(a, sep).len() + sep.len() + p.len(),
{
    assert(a.push(p) =~= a + seq![p]);
    joining_goes_part_by_part(a, seq![p], sep);
    joining_goes_part_by_part(seq![p], a, sep);
}

/// A number in decimal: a digit stands for itself, and a digit behind a number is ten times the
/// number and the digit.
pub proof fn decimals_are_read_digit_by_digit(n: nat, d: nat, c: char)
    requires
        d < 10,
        c as int == '0' as int + d,
    ensures
        decimal(d) == seq![c],
        n > 0 ==> decimal(10 * n + d) == decimal(n) + seq![c],
{
    let m = 10 * n + d;
    assert(m / 10 == n && m % 10 == d);
    assert(decimal(d) =~= seq![c]);
    if n > 0 {
        assert(decimal(m) =~= decimal(n) + seq![c]);
    }
}

/// The order of texts is decided where they first differ: by the characters there, or by which of
/// them ends there.
pub proof fn texts_are_ordered_where_they_first_differ(a: Seq<char>, b: Seq<char>, n: int)
    requires
        0 <= n <= a.len(),
        n <= b.len(),
        forall|k: int| 0 <= k < n ==> #[trigger] a[k] == b[k],
    ensures
        n == a.len() ==> text_le(a, b),
        n == b.len() && n < a.len() ==> !text_le(a, b),
        n < a.len() && n < b.len() && a[n] != b[n] ==> (text_le(a, b) <==> (a[n] as int) < (
        b[n] as int)),
    decreases n,
{
    if n > 0 {
        assert(a[0] == b[0]);
        assert forall|k: int| 0 <= k < n - 1 implies #[trigger] a.skip(1)[k] == b.skip(1)[k] by {
            assert(a[k + 1] == b[k + 1]);
        }
        texts_are_ordered_where_they_first_differ(a.skip(1), b.skip(1), n - 1);
        if n < a.len() {
            assert(a.skip(1)[n - 1] == a[n]);
        }
        if n < b.len() {
            assert(b.skip(1)[n - 1] == b[n]);
        }
    }
}

proof fn lemma_with_key<V>(
    items: Seq<V>,
    key: spec_fn(V) -> Seq<char>,
    k: Seq<char>,
    has_key: spec_fn(V) -> bool,
)
    requires
        forall|v: V| #[trigger] has_key(v) <==> key(v) == k,
    ensures
        items.filter(has_key) == with_key(items, key, k),
    decreases items.len(),
{
    reveal(Seq::filter);
    if items.len() > 0 {
        lemma_with_key(items.drop_last(), key, k, has_key);
        assert(has_key(items.last()) <==> key(items.last()) == k);
    }
}

/// A sorted form holds the same items, none more and none less often, in the order of their keys;
/// those with one key keep the order in which they were given. There is no other.
pub proof fn a_sorted_form_is_ordered_and_stable<V>(
    items: Seq<V>,
    sorted: Seq<V>,
    other: Seq<V>,
    key: spec_fn(V) -> Seq<char>,
    k: Seq<char>,
    has_key: spec_fn(V) -> bool,
    i: int,
    j: int,
)
    requires
        is_sorted_form(items, sorted, key),
        forall|v: V| #[trigger] has_key(v) <==> key(v) == k,
    ensures
        sorted.to_multiset() == items.to_multiset(),
        sorted.len() == items.len(),
        0 <= i < j < sorted.len() ==> text_le(key(sorted[i]), key(sorted[j])),
        sorted.filter(has_key) == items.filter(has_key),
        is_sorted_form(items, other, key) ==> other == sorted,
{
    vstd::seq_lib::to_multiset_len(sorted);
    vstd::seq_lib::to_multiset_len(items);
    assert(with_key(sorted, key, k) == with_key(items, key, k));
    lemma_with_key(sorted, key, k, has_key);
    lemma_with_key(items, key, k, has_key);
    if is_sorted_form(items, other, key) {
        assert forall|k: Seq<char>| #[trigger]
            with_key(other, key, k) == with_key(sorted, key, k) by {
            assert(with_key(other, key, k) == with_key(items, key, k));
            assert(with_key(sorted, key, k) == with_key(items, key, k));
        }
        sorted_form_is_unique(other, sorted, key);
    }
}

/// What stands in the order of its keys is its own sorted form.
pub proof fn what_is_in_order_stays<V>(items: Seq<V>, key: spec_fn(V) -> Seq<char>)
    requires
        forall|i: int, j: int|
            0 <= i < j < items.len() ==> text_le(
                key(#[trigger] items[i]),
                key(#[trigger] items[j]),
            ),
    ensures
        is_sorted_form(items, items, key),
{
}

} // verus!
