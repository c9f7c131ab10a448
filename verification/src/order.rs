//! Stable sorting, as mathematical sequences.

use vstd::prelude::*;

verus! {

/// Where an item is put before a sorted list: before the first item that does
/// not come before it.
pub open spec fn place<T>(s: Seq<T>, less: spec_fn(T, T) -> bool, item: T) -> int
    decreases s.len(),
{
    if s.len() == 0 || !less(s.first(), item) {
        0
    } else {
        1 + place(s.drop_first(), less, item)
    }
}

/// A list in order, with items of which neither comes before the other in the
/// order in which they stood.
pub open spec fn sorted<T>(s: Seq<T>, less: spec_fn(T, T) -> bool) -> Seq<T>
    decreases s.len(),
{
    if s.len() == 0 {
        s
    } else {
        let rest = sorted(s.drop_first(), less);
        rest.insert(place(rest, less, s.first()), s.first())
    }
}

/// Whether an order tells before from after: no item comes before itself, what
/// comes before is passed on, and items that neither comes before the other of
/// compare alike with every other.
pub open spec fn is_weak_order<T>(less: spec_fn(T, T) -> bool) -> bool {
    &&& forall|a: T| !#[trigger] less(a, a)
    &&& forall|a: T, b: T, c: T| #[trigger] less(a, b) && #[trigger] less(b, c) ==> less(a, c)
    &&& forall|a: T, b: T, c: T| #[trigger] less(a, c) && !less(a, b) ==> #[trigger] less(b, c)
}

/// Whether no item of a list comes before an earlier one.
pub open spec fn is_sorted<T>(s: Seq<T>, less: spec_fn(T, T) -> bool) -> bool {
    forall|i: int, j: int| 0 <= i < j < s.len() ==> !less(#[trigger] s[j], #[trigger] s[i])
}

/// The place of an item is within the list; the items before it come before the
/// item, and the one at it does not.
pub proof fn lemma_place<T>(s: Seq<T>, less: spec_fn(T, T) -> bool, item: T)
    ensures
        0 <= place(s, less, item) <= s.len(),
        forall|i: int| 0 <= i < place(s, less, item) ==> less(#[trigger] s[i], item),
        place(s, less, item) < s.len() ==> !less(s[place(s, less, item)], item),
    decreases s.len(),
{
    if s.len() > 0 && less(s.first(), item) {
        let rest = s.drop_first();
        lemma_place(rest, less, item);
        assert forall|i: int| 0 <= i < place(s, less, item) implies less(#[trigger] s[i], item) by {
            if i > 0 {
                assert(rest[i - 1] == s[i]);
            }
        }
    }
}

/// A place is the only one with what holds of it.
pub proof fn lemma_place_is_unique<T>(
    s: Seq<T>,
    less: spec_fn(T, T) -> bool,
    item: T,
    index: int,
)
    requires
        0 <= index <= s.len(),
        forall|i: int| 0 <= i < index ==> less(#[trigger] s[i], item),
        index < s.len() ==> !less(s[index], item),
    ensures
        index == place(s, less, item),
{
    lemma_place(s, less, item);
    let found = place(s, less, item);
    if found < index {
        assert(less(s[found], item));
    } else if index < found {
        assert(less(s[index], item));
    }
}

/// Sorting keeps the items.
pub proof fn law_sorted_keeps_items<T>(s: Seq<T>, less: spec_fn(T, T) -> bool)
    ensures
        sorted(s, less).to_multiset() == s.to_multiset(),
        sorted(s, less).len() == s.len(),
    decreases s.len(),
{
    if s.len() > 0 {
        let first = s.first();
        let rest = sorted(s.drop_first(), less);
        let at = place(rest, less, first);
        law_sorted_keeps_items(s.drop_first(), less);
        lemma_place(rest, less, first);
        vstd::seq_lib::to_multiset_insert(rest, at, first);
        vstd::seq_lib::to_multiset_insert(s.drop_first(), 0, first);
        assert(s.drop_first().insert(0, first) =~= s);
    }
}

/// Sorting puts the items in order.
pub proof fn law_sorted_is_in_order<T>(s: Seq<T>, less: spec_fn(T, T) -> bool)
    requires
        is_weak_order(less),
    ensures
        is_sorted(sorted(s, less), less),
    decreases s.len(),
{
    if s.len() > 0 {
        let first = s.first();
        let rest = sorted(s.drop_first(), less);
        let at = place(rest, less, first);
        let all = rest.insert(at, first);
        law_sorted_is_in_order(s.drop_first(), less);
        lemma_place(rest, less, first);
        assert forall|i: int, j: int| 0 <= i < j < all.len() implies !less(
            #[trigger] all[j],
            #[trigger] all[i],
        ) by {
            if j < at {
                assert(all[i] == rest[i] && all[j] == rest[j]);
            } else if j == at {
                assert(all[i] == rest[i]);
                assert(less(rest[i], first));
                if less(first, rest[i]) {
                    assert(less(first, first));
                }
            } else if i < at {
                assert(all[i] == rest[i] && all[j] == rest[j - 1]);
            } else if i == at {
                assert(all[j] == rest[j - 1]);
                assert(!less(rest[at], first));
                if less(rest[j - 1], first) {
                    if at < j - 1 {
                        assert(!less(rest[j - 1], rest[at]));
                        assert(less(rest[at], first));
                    }
                }
            } else {
                assert(all[i] == rest[i - 1] && all[j] == rest[j - 1]);
            }
        }
    }
}

/// The items of a list that are alike to a given one, neither coming before the
/// other.
pub open spec fn alike<T>(s: Seq<T>, less: spec_fn(T, T) -> bool, item: T) -> Seq<T>
    decreases s.len(),
{
    if s.len() == 0 {
        s
    } else if !less(s.first(), item) && !less(item, s.first()) {
        seq![s.first()] + alike(s.drop_first(), less, item)
    } else {
        alike(s.drop_first(), less, item)
    }
}

proof fn lemma_alike_insert<T>(
    s: Seq<T>,
    less: spec_fn(T, T) -> bool,
    item: T,
    other: T,
)
    requires
        is_weak_order(less),
    ensures
        alike(s.insert(place(s, less, item), item), less, other) == alike(
            seq![item] + s,
            less,
            other,
        ),
    decreases s.len(),
{
    let at = place(s, less, item);
    lemma_place(s, less, item);
    if at == 0 {
        assert(s.insert(0, item) =~= seq![item] + s);
    } else {
        let rest = s.drop_first();
        lemma_alike_insert(rest, less, item, other);
        let put = s.insert(at, item);
        assert(put.drop_first() =~= rest.insert(at - 1, item));
        assert((seq![item] + s).drop_first() =~= s);
        assert((seq![item] + rest).drop_first() =~= rest);
        assert(put.first() == s.first());
        assert((seq![item] + s).first() == item);
        assert((seq![item] + rest).first() == item);
        assert(less(s.first(), item));
        if !less(s.first(), other) && !less(other, s.first()) {
            assert(less(other, item));
        }
        reveal_with_fuel(alike, 2);
    }
}

/// Sorting leaves items that are alike in the order in which they stood.
pub proof fn law_sorted_is_stable<T>(s: Seq<T>, less: spec_fn(T, T) -> bool, item: T)
    requires
        is_weak_order(less),
    ensures
        alike(sorted(s, less), less, item) == alike(s, less, item),
    decreases s.len(),
{
    if s.len() > 0 {
        let rest = sorted(s.drop_first(), less);
        law_sorted_is_stable(s.drop_first(), less, item);
        lemma_alike_insert(rest, less, s.first(), item);
        assert((seq![s.first()] + rest).drop_first() =~= rest);
    }
}

/// Whether of any two different items of a list one comes before the other.
pub open spec fn tells_apart<T>(s: Seq<T>, less: spec_fn(T, T) -> bool) -> bool {
    forall|a: T, b: T|
        s.contains(a) && s.contains(b) && !#[trigger] less(a, b) && !less(b, a) ==> a == b
}

proof fn lemma_head_and_tail<T>(s: Seq<T>)
    requires
        s.len() > 0,
    ensures
        s.drop_first().to_multiset() == s.to_multiset().remove(s.first()),
{
    vstd::seq_lib::to_multiset_insert(s.drop_first(), 0, s.first());
    assert(s.drop_first().insert(0, s.first()) =~= s);
    assert(s.drop_first().to_multiset() =~= s.to_multiset().remove(s.first()));
}

proof fn lemma_in_order_is_unique<T>(a: Seq<T>, b: Seq<T>, less: spec_fn(T, T) -> bool)
    requires
        is_sorted(a, less),
        is_sorted(b, less),
        a.to_multiset() == b.to_multiset(),
        tells_apart(a, less),
    ensures
        a == b,
    decreases a.len(),
{
    broadcast use vstd::seq_lib::group_to_multiset_ensures;

    assert(a.to_multiset().len() == a.len());
    assert(b.to_multiset().len() == b.len());
    if a.len() > 0 {
        let first = a.first();
        let other = b.first();
        assert(a.contains(a[0]) && b.contains(b[0]));
        assert(a.to_multiset().count(first) > 0);
        assert(b.to_multiset().count(other) > 0);
        assert(b.contains(first) && a.contains(other));
        let i = b.index_of(first);
        let j = a.index_of(other);
        if first != other {
            assert(!less(b[i], b[0]));
            assert(!less(a[j], a[0]));
        }
        let rest = a.drop_first();
        let tail = b.drop_first();
        lemma_head_and_tail(a);
        lemma_head_and_tail(b);
        assert forall|x: int, y: int| 0 <= x < y < rest.len() implies !less(
            #[trigger] rest[y],
            #[trigger] rest[x],
        ) by {
            assert(rest[x] == a[x + 1] && rest[y] == a[y + 1]);
        }
        assert forall|x: int, y: int| 0 <= x < y < tail.len() implies !less(
            #[trigger] tail[y],
            #[trigger] tail[x],
        ) by {
            assert(tail[x] == b[x + 1] && tail[y] == b[y + 1]);
        }
        assert forall|x: T, y: T|
            rest.contains(x) && rest.contains(y) && !#[trigger] less(x, y) && !less(y, x) implies x
            == y by {
            assert(a[rest.index_of(x) + 1] == x);
            assert(a[rest.index_of(y) + 1] == y);
            assert(a.contains(x) && a.contains(y));
        }
        lemma_in_order_is_unique(rest, tail, less);
        assert(a =~= seq![first] + rest);
        assert(b =~= seq![other] + tail);
    } else {
        assert(a =~= b);
    }
}

/// Sorting does not depend on the order in which the items stood, where of any
/// two different items one comes before the other.
pub proof fn law_sorted_ignores_order<T>(a: Seq<T>, b: Seq<T>, less: spec_fn(T, T) -> bool)
    requires
        is_weak_order(less),
        a.to_multiset() == b.to_multiset(),
        tells_apart(a, less),
    ensures
        sorted(a, less) == sorted(b, less),
{
    broadcast use vstd::seq_lib::group_to_multiset_ensures;

    let first = sorted(a, less);
    law_sorted_keeps_items(a, less);
    law_sorted_keeps_items(b, less);
    law_sorted_is_in_order(a, less);
    law_sorted_is_in_order(b, less);
    assert forall|x: T, y: T|
        first.contains(x) && first.contains(y) && !#[trigger] less(x, y) && !less(y, x) implies x
        == y by {
        assert(first.to_multiset().count(x) > 0 && first.to_multiset().count(y) > 0);
        assert(a.contains(x) && a.contains(y));
    }
    lemma_in_order_is_unique(first, sorted(b, less), less);
}

} // verus!
