//! Tallies: saturating counts by key, as mathematical maps.

use vstd::prelude::*;

verus! {

/// The sum of two counts, held at the largest count when it does not fit.
pub open spec fn sat_add(a: u64, b: u64) -> u64 {
    if a + b <= u64::MAX {
        (a + b) as u64
    } else {
        u64::MAX
    }
}

/// The tally without any key.
pub open spec fn blank<K>() -> Map<K, u64> {
    Map::empty()
}

/// The count of a key, which is zero where the tally does not hold the key.
pub open spec fn count<K>(tally: Map<K, u64>, key: K) -> u64 {
    if tally.contains_key(key) {
        tally[key]
    } else {
        0
    }
}

/// The tally after `amount` more of `key`.
pub open spec fn plus<K>(tally: Map<K, u64>, key: K, amount: u64) -> Map<K, u64> {
    tally.insert(key, sat_add(count(tally, key), amount))
}

/// The tally that holds the keys of both, with their counts added.
pub open spec fn merged<K>(left: Map<K, u64>, right: Map<K, u64>) -> Map<K, u64> {
    Map::new(
        |key: K| left.contains_key(key) || right.contains_key(key),
        |key: K| sat_add(count(left, key), count(right, key)),
    )
}

/// The sum of the counts of all keys.
pub open spec fn total<K>(tally: Map<K, u64>) -> nat
    decreases tally.dom().len(),
{
    if tally.dom().finite() && tally.dom().len() > 0 {
        let key = tally.dom().choose();
        tally[key] as nat + total(tally.remove(key))
    } else {
        0
    }
}

/// Saturating addition is addition, up to the largest count.
pub proof fn law_sat_add_adds(a: u64, b: u64)
    ensures
        sat_add(a, b) <= a + b,
        sat_add(a, b) < 0xffff_ffff_ffff_ffff ==> sat_add(a, b) == a + b,
        a + b <= 0xffff_ffff_ffff_ffff ==> sat_add(a, b) == a + b,
{
}

/// Saturating addition does not depend on the order of its operands.
pub proof fn law_sat_add_commutes(a: u64, b: u64)
    ensures
        sat_add(a, b) == sat_add(b, a),
{
}

/// Saturating addition does not depend on how its operands are grouped.
pub proof fn law_sat_add_associates(a: u64, b: u64, c: u64)
    ensures
        sat_add(sat_add(a, b), c) == sat_add(a, sat_add(b, c)),
{
}

/// Merging two tallies does not depend on their order.
pub proof fn law_merged_commutes<K>(left: Map<K, u64>, right: Map<K, u64>)
    ensures
        merged(left, right) == merged(right, left),
{
    assert(merged(left, right) =~= merged(right, left));
}

/// Merging three tallies does not depend on how they are grouped.
pub proof fn law_merged_associates<K>(a: Map<K, u64>, b: Map<K, u64>, c: Map<K, u64>)
    ensures
        merged(merged(a, b), c) == merged(a, merged(b, c)),
{
    assert(merged(merged(a, b), c) =~= merged(a, merged(b, c)));
}

/// The empty tally adds nothing to another.
pub proof fn law_merged_with_empty<K>(tally: Map<K, u64>)
    ensures
        merged(tally, blank()) == tally,
        merged(blank(), tally) == tally,
{
    assert(merged(tally, blank()) =~= tally);
    assert(merged(blank(), tally) =~= tally);
}

/// Counting and then merging gives the same tally as merging and then counting.
pub proof fn law_plus_then_merged<K>(left: Map<K, u64>, right: Map<K, u64>, key: K, amount: u64)
    ensures
        merged(plus(left, key, amount), right) == plus(merged(left, right), key, amount),
{
    assert(merged(plus(left, key, amount), right) =~= plus(merged(left, right), key, amount));
}

/// The sum of the counts is the count of any one key and the sum of the rest.
pub proof fn lemma_total_split<K>(tally: Map<K, u64>, key: K)
    requires
        tally.dom().finite(),
        tally.contains_key(key),
    ensures
        total(tally) == tally[key] + total(tally.remove(key)),
    decreases tally.dom().len(),
{
    let first = tally.dom().choose();
    assert(tally.dom().contains(key));
    assert(tally.dom().contains(first));
    assert(tally.remove(first).dom() =~= tally.dom().remove(first));
    assert(tally.remove(key).dom() =~= tally.dom().remove(key));
    if first != key {
        lemma_total_split(tally.remove(first), key);
        assert(tally.remove(first).remove(key) =~= tally.remove(key).remove(first));
        lemma_total_split(tally.remove(key), first);
    }
}

/// A number, at most the largest `u64`.
pub open spec fn held(n: nat) -> u64 {
    if n <= u64::MAX {
        n as u64
    } else {
        u64::MAX
    }
}

/// Counting an amount adds it to the sum of the counts, up to the largest count.
pub proof fn lemma_total_plus<K>(tally: Map<K, u64>, key: K, amount: u64)
    requires
        tally.dom().finite(),
    ensures
        plus(tally, key, amount).dom().finite(),
        held(total(plus(tally, key, amount))) == sat_add(held(total(tally)), amount),
{
    let more = plus(tally, key, amount);
    assert(more.dom() =~= tally.dom().insert(key));
    lemma_total_split(more, key);
    assert(more.remove(key) =~= tally.remove(key));
    if tally.contains_key(key) {
        lemma_total_split(tally, key);
    } else {
        assert(tally.remove(key) =~= tally);
    }
}

/// The sum of the counts of two merged tallies is the sum of both, up to the
/// largest count.
pub proof fn lemma_total_merged<K>(left: Map<K, u64>, right: Map<K, u64>)
    requires
        left.dom().finite(),
        right.dom().finite(),
    ensures
        merged(left, right).dom().finite(),
        held(total(merged(left, right))) == sat_add(held(total(left)), held(total(right))),
    decreases right.dom().len(),
{
    let both = merged(left, right);
    assert(both.dom() =~= left.dom().union(right.dom()));
    if right.dom().len() == 0 {
        assert(right =~= blank());
        law_merged_with_empty(left);
    } else {
        let key = right.dom().choose();
        assert(right.dom().contains(key));
        let rest = right.remove(key);
        assert(rest.dom() =~= right.dom().remove(key));
        lemma_total_merged(left, rest);
        let fewer = merged(left, rest);
        lemma_total_split(right, key);
        lemma_total_split(both, key);
        assert(fewer.remove(key) =~= both.remove(key));
        if left.contains_key(key) {
            lemma_total_split(fewer, key);
        } else {
            assert(fewer.remove(key) =~= fewer);
        }
    }
}

/// Whether each key of a tally was counted at least once.
pub open spec fn all_counted<K>(tally: Map<K, u64>) -> bool {
    forall|key: K| #[trigger] tally.contains_key(key) ==> tally[key] > 0
}

/// The sum of the counts is zero only where nothing was counted.
pub proof fn lemma_total_of_counted<K>(tally: Map<K, u64>)
    requires
        tally.dom().finite(),
        all_counted(tally),
    ensures
        total(tally) == 0 <==> tally == blank::<K>(),
{
    if tally.dom().len() > 0 {
        let key = tally.dom().choose();
        assert(tally.dom().contains(key));
        assert(tally.contains_key(key));
        lemma_total_split(tally, key);
        assert(!blank::<K>().contains_key(key));
    } else {
        assert(tally =~= blank::<K>());
    }
}

/// The sum of no counts but zeros is zero.
pub proof fn lemma_total_of_zeros<K>(tally: Map<K, u64>)
    requires
        tally.dom().finite(),
        forall|key: K| #[trigger] tally.contains_key(key) ==> tally[key] == 0,
    ensures
        total(tally) == 0,
    decreases tally.dom().len(),
{
    if tally.dom().len() > 0 {
        let key = tally.dom().choose();
        let rest = tally.remove(key);
        assert(tally.dom().contains(key));
        assert(tally.contains_key(key));
        assert(rest.dom() =~= tally.dom().remove(key));
        assert forall|other: K| #[trigger] rest.contains_key(other) implies rest[other] == 0 by {
            assert(tally.contains_key(other));
        }
        lemma_total_of_zeros(rest);
    }
}

} // verus!
