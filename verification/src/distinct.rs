//! Lists from which repeated items are left out, the first of equals kept.

use vstd::prelude::*;

verus! {

/// Whether some item of a list has the key `k`.
pub open spec fn occurs<T, K>(s: Seq<T>, key: spec_fn(T) -> K, k: K) -> bool {
    exists|i: int| 0 <= i < s.len() && key(#[trigger] s[i]) == k
}

/// The keys of the items of a list.
pub open spec fn keys<T, K>(s: Seq<T>, key: spec_fn(T) -> K) -> Seq<K> {
    s.map_values(key)
}

/// Some item has a key where the list of keys holds it.
pub proof fn lemma_keys_hold<T, K>(s: Seq<T>, key: spec_fn(T) -> K, k: K)
    ensures
        keys(s, key).contains(k) == occurs(s, key, k),
{
    if keys(s, key).contains(k) {
        let i = choose|i: int| 0 <= i < keys(s, key).len() && keys(s, key)[i] == k;
        assert(key(s[i]) == k);
    }
    if occurs(s, key, k) {
        let i = choose|i: int| 0 <= i < s.len() && key(#[trigger] s[i]) == k;
        assert(keys(s, key)[i] == k);
    }
}

/// A list without the items whose key an earlier item has.
pub open spec fn kept_first<T, K>(s: Seq<T>, key: spec_fn(T) -> K) -> Seq<T>
    decreases s.len(),
{
    if s.len() == 0 {
        s
    } else if occurs(s.drop_last(), key, key(s.last())) {
        kept_first(s.drop_last(), key)
    } else {
        kept_first(s.drop_last(), key).push(s.last())
    }
}

/// Where the kept items of a list stand in it.
pub open spec fn kept_places<T, K>(s: Seq<T>, key: spec_fn(T) -> K) -> Seq<int>
    decreases s.len(),
{
    if s.len() == 0 {
        Seq::empty()
    } else if occurs(s.drop_last(), key, key(s.last())) {
        kept_places(s.drop_last(), key)
    } else {
        kept_places(s.drop_last(), key).push(s.len() - 1)
    }
}

/// Whether no two items of a list have the same key.
pub open spec fn all_distinct<T, K>(s: Seq<T>, key: spec_fn(T) -> K) -> bool {
    forall|i: int, j: int|
        0 <= i < j < s.len() ==> key(#[trigger] s[i]) != key(#[trigger] s[j])
}

/// The keys of a list are the keys of what is kept of it.
pub proof fn law_kept_first_keeps_keys<T, K>(s: Seq<T>, key: spec_fn(T) -> K, k: K)
    ensures
        occurs(kept_first(s, key), key, k) == occurs(s, key, k),
    decreases s.len(),
{
    if s.len() > 0 {
        let before = s.drop_last();
        let kept = kept_first(before, key);
        law_kept_first_keeps_keys(before, key, k);
        if occurs(s, key, k) {
            let i = choose|i: int| 0 <= i < s.len() && key(#[trigger] s[i]) == k;
            if i < before.len() {
                assert(before[i] == s[i]);
            }
        }
        if occurs(before, key, k) {
            let i = choose|i: int| 0 <= i < before.len() && key(#[trigger] before[i]) == k;
            assert(s[i] == before[i]);
            let j = choose|j: int| 0 <= j < kept.len() && key(#[trigger] kept[j]) == k;
            assert(kept.push(s.last())[j] == kept[j]);
        }
        if !occurs(before, key, key(s.last())) {
            assert(kept.push(s.last())[kept.len() as int] == s.last());
            assert(s[s.len() - 1] == s.last());
            if occurs(kept.push(s.last()), key, k) && !occurs(before, key, k) {
                let j = choose|j: int|
                    0 <= j < kept.push(s.last()).len() && key(#[trigger] kept.push(s.last())[j])
                        == k;
                if j < kept.len() {
                    assert(kept[j] == kept.push(s.last())[j]);
                }
            }
        }
    }
}

/// No two of the kept items have the same key.
pub proof fn law_kept_first_is_distinct<T, K>(s: Seq<T>, key: spec_fn(T) -> K)
    ensures
        all_distinct(kept_first(s, key), key),
    decreases s.len(),
{
    if s.len() > 0 {
        let before = s.drop_last();
        let kept = kept_first(before, key);
        law_kept_first_is_distinct(before, key);
        law_kept_first_keeps_keys(before, key, key(s.last()));
        if !occurs(before, key, key(s.last())) {
            let more = kept.push(s.last());
            assert forall|i: int, j: int| 0 <= i < j < more.len() implies key(
                #[trigger] more[i],
            ) != key(#[trigger] more[j]) by {
                if j < kept.len() {
                    assert(kept[i] == more[i] && kept[j] == more[j]);
                } else {
                    assert(kept[i] == more[i]);
                }
            }
        }
    }
}

/// A list without repeated keys is kept as it is.
pub proof fn law_kept_first_of_distinct<T, K>(s: Seq<T>, key: spec_fn(T) -> K)
    requires
        all_distinct(s, key),
    ensures
        kept_first(s, key) == s,
    decreases s.len(),
{
    if s.len() > 0 {
        let before = s.drop_last();
        assert forall|i: int, j: int| 0 <= i < j < before.len() implies key(
            #[trigger] before[i],
        ) != key(#[trigger] before[j]) by {
            assert(s[i] == before[i] && s[j] == before[j]);
        }
        law_kept_first_of_distinct(before, key);
        if occurs(before, key, key(s.last())) {
            let i = choose|i: int|
                0 <= i < before.len() && key(#[trigger] before[i]) == key(s.last());
            assert(s[i] == before[i]);
            assert(s[s.len() - 1] == s.last());
        }
        assert(before.push(s.last()) =~= s);
    }
}

/// The first item of a list is kept, as the first.
pub proof fn law_kept_first_keeps_the_head<T, K>(s: Seq<T>, key: spec_fn(T) -> K)
    requires
        s.len() > 0,
    ensures
        kept_first(s, key).len() > 0,
        kept_first(s, key).first() == s.first(),
    decreases s.len(),
{
    let before = s.drop_last();
    if s.len() == 1 {
        assert(!occurs(before, key, key(s.last())));
        assert(kept_first(before, key) =~= Seq::empty());
    } else {
        law_kept_first_keeps_the_head(before, key);
    }
}

/// The kept items are those of the places where a key first appears, in the
/// order of those places.
pub proof fn law_kept_first_in_order<T, K>(s: Seq<T>, key: spec_fn(T) -> K)
    ensures
        kept_places(s, key).len() == kept_first(s, key).len(),
        forall|i: int|
            0 <= i < kept_first(s, key).len() ==> {
                let place = #[trigger] kept_places(s, key)[i];
                &&& 0 <= place < s.len()
                &&& kept_first(s, key)[i] == s[place]
                &&& !occurs(s.take(place), key, key(s[place]))
            },
        forall|i: int, j: int|
            0 <= i < j < kept_places(s, key).len() ==> #[trigger] kept_places(s, key)[i]
                < #[trigger] kept_places(s, key)[j],
    decreases s.len(),
{
    if s.len() > 0 {
        let before = s.drop_last();
        law_kept_first_in_order(before, key);
        let places = kept_places(before, key);
        assert forall|i: int| 0 <= i < kept_first(s, key).len() implies {
            let place = #[trigger] kept_places(s, key)[i];
            &&& 0 <= place < s.len()
            &&& kept_first(s, key)[i] == s[place]
            &&& !occurs(s.take(place), key, key(s[place]))
        } by {
            if i < places.len() {
                let place = places[i];
                assert(kept_places(s, key)[i] == place);
                assert(before.take(place) =~= s.take(place));
            } else {
                assert(s.take(s.len() - 1) =~= before);
            }
        }
        assert forall|i: int, j: int| 0 <= i < j < kept_places(s, key).len() implies (
        #[trigger] kept_places(s, key)[i]) < #[trigger] kept_places(s, key)[j] by {
            assert(kept_places(s, key)[i] == places[i]);
            if j < places.len() {
                assert(kept_places(s, key)[j] == places[j]);
            }
        }
    }
}

proof fn lemma_occurs_in_either<T, K>(a: Seq<T>, b: Seq<T>, key: spec_fn(T) -> K, k: K)
    ensures
        occurs(a + b, key, k) == (occurs(a, key, k) || occurs(b, key, k)),
{
    if occurs(a + b, key, k) {
        let i = choose|i: int| 0 <= i < (a + b).len() && key(#[trigger] (a + b)[i]) == k;
        if i < a.len() {
            assert(key(a[i]) == k);
        } else {
            assert(key(b[i - a.len()]) == k);
        }
    }
    if occurs(a, key, k) {
        let i = choose|i: int| 0 <= i < a.len() && key(#[trigger] a[i]) == k;
        assert((a + b)[i] == a[i]);
    }
    if occurs(b, key, k) {
        let i = choose|i: int| 0 <= i < b.len() && key(#[trigger] b[i]) == k;
        assert((a + b)[a.len() + i] == b[i]);
    }
}

/// Of two lists one after the other the same is kept as of what is kept of each.
pub proof fn law_kept_first_of_two<T, K>(a: Seq<T>, b: Seq<T>, key: spec_fn(T) -> K)
    ensures
        kept_first(a + b, key) == kept_first(kept_first(a, key) + kept_first(b, key), key),
    decreases b.len(),
{
    let kept = kept_first(a, key);
    if b.len() == 0 {
        assert(a + b =~= a);
        assert(kept + kept_first(b, key) =~= kept);
        law_kept_first_is_distinct(a, key);
        law_kept_first_of_distinct(kept, key);
    } else {
        let rest = b.drop_last();
        let k = key(b.last());
        law_kept_first_of_two(a, rest, key);
        assert((a + b).drop_last() =~= a + rest);
        lemma_occurs_in_either(a, rest, key, k);
        lemma_occurs_in_either(kept, kept_first(rest, key), key, k);
        law_kept_first_keeps_keys(a, key, k);
        law_kept_first_keeps_keys(rest, key, k);
        if !occurs(rest, key, k) {
            let both = kept + kept_first(b, key);
            assert(both.drop_last() =~= kept + kept_first(rest, key));
            assert(both.last() == b.last());
        }
    }
}

} // verus!
