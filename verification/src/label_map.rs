//! Maps from labels to values, in the order of the labels.

use vstd::prelude::*;

use crate::tally;
use crate::text;

verus! {

/// A map from labels to values, held in the order of the labels.
#[derive(Debug, Clone)]
pub struct LabelMap<V> {
    pub labels: Vec<String>,
    pub values: Vec<V>,
}

/// Whether each text of a list comes before the next.
pub open spec fn is_ascending(labels: Seq<Seq<char>>) -> bool {
    forall|i: int, j: int|
        0 <= i < j < labels.len() ==> text::less(#[trigger] labels[i], #[trigger] labels[j])
}

/// The map that gives each label of a list the value at its place.
pub open spec fn paired<V>(labels: Seq<Seq<char>>, values: Seq<V>) -> Map<Seq<char>, V> {
    Map::new(
        |label: Seq<char>| labels.contains(label),
        |label: Seq<char>| values[labels.index_of(label)],
    )
}

/// Where a label has its place in an ascending list: before it stand the labels
/// that come before it, and after it those that do not.
pub open spec fn is_place(labels: Seq<Seq<char>>, label: Seq<char>, place: int) -> bool {
    &&& 0 <= place <= labels.len()
    &&& forall|i: int| 0 <= i < place ==> text::less(#[trigger] labels[i], label)
    &&& forall|i: int| place <= i < labels.len() ==> !text::less(#[trigger] labels[i], label)
}

/// In an ascending list each label stands once.
pub proof fn lemma_index_in_ascending(labels: Seq<Seq<char>>, i: int)
    requires
        is_ascending(labels),
        0 <= i < labels.len(),
    ensures
        labels.contains(labels[i]),
        labels.index_of(labels[i]) == i,
{
    let j = labels.index_of(labels[i]);
    assert(labels.contains(labels[i]));
    assert(0 <= j < labels.len() && labels[j] == labels[i]);
    text::lemma_less_irreflexive(labels[i]);
}

/// A label is in an ascending list only at its place.
pub proof fn lemma_at_its_place(labels: Seq<Seq<char>>, label: Seq<char>, place: int)
    requires
        is_ascending(labels),
        is_place(labels, label, place),
    ensures
        labels.contains(label) == (place < labels.len() && labels[place] == label),
{
    text::lemma_less_irreflexive(label);
    if labels.contains(label) {
        let i = labels.index_of(label);
        assert(labels[i] == label);
        assert(i >= place);
        if place < i {
            assert(text::less(labels[place], labels[i]));
        }
    }
}

/// Two ascending lists of the same labels are the same.
pub proof fn lemma_ascending_is_unique(left: Seq<Seq<char>>, right: Seq<Seq<char>>)
    requires
        is_ascending(left),
        is_ascending(right),
        forall|label: Seq<char>| left.contains(label) == right.contains(label),
    ensures
        left == right,
    decreases left.len(),
{
    if left.len() == 0 {
        if right.len() > 0 {
            assert(right.contains(right[0]));
        }
        assert(left =~= right);
    } else {
        assert(left.contains(left[0]));
        assert(right.len() > 0);
        assert(right.contains(right[0]));
        lemma_heads_are_equal(left, right);
        let a = left.drop_first();
        let b = right.drop_first();
        assert forall|i: int, j: int| 0 <= i < j < a.len() implies text::less(
            #[trigger] a[i],
            #[trigger] a[j],
        ) by {
            assert(a[i] == left[i + 1] && a[j] == left[j + 1]);
        }
        assert forall|i: int, j: int| 0 <= i < j < b.len() implies text::less(
            #[trigger] b[i],
            #[trigger] b[j],
        ) by {
            assert(b[i] == right[i + 1] && b[j] == right[j + 1]);
        }
        assert forall|label: Seq<char>| a.contains(label) == b.contains(label) by {
            lemma_tail_contains(left, label);
            lemma_tail_contains(right, label);
        }
        lemma_ascending_is_unique(a, b);
        assert(left =~= seq![left[0]] + a);
        assert(right =~= seq![right[0]] + b);
    }
}

proof fn lemma_heads_are_equal(left: Seq<Seq<char>>, right: Seq<Seq<char>>)
    requires
        is_ascending(left),
        is_ascending(right),
        left.len() > 0,
        right.len() > 0,
        right.contains(left[0]),
        left.contains(right[0]),
    ensures
        left[0] == right[0],
{
    let i = right.index_of(left[0]);
    let j = left.index_of(right[0]);
    if i > 0 && j > 0 {
        assert(text::less(right[0], right[i]));
        assert(text::less(left[0], left[j]));
        text::lemma_less_transitive(left[0], right[0], left[0]);
        text::lemma_less_irreflexive(left[0]);
    }
}

/// What stands after the head of an ascending list is in it, and is not the
/// head.
proof fn lemma_tail_contains(labels: Seq<Seq<char>>, label: Seq<char>)
    requires
        is_ascending(labels),
        labels.len() > 0,
    ensures
        labels.drop_first().contains(label) == (labels.contains(label) && label != labels[0]),
{
    let tail = labels.drop_first();
    if tail.contains(label) {
        let i = tail.index_of(label);
        assert(labels[i + 1] == label);
        assert(text::less(labels[0], labels[i + 1]));
        text::lemma_less_irreflexive(label);
    }
    if labels.contains(label) && label != labels[0] {
        let i = labels.index_of(label);
        assert(tail[i - 1] == label);
    }
}

/// A list stays ascending when a new label is put at its place.
proof fn lemma_insert_keeps_ascending(labels: Seq<Seq<char>>, label: Seq<char>, place: int)
    requires
        is_ascending(labels),
        is_place(labels, label, place),
        !labels.contains(label),
    ensures
        is_ascending(labels.insert(place, label)),
{
    let more = labels.insert(place, label);
    assert forall|i: int, j: int| 0 <= i < j < more.len() implies text::less(
        #[trigger] more[i],
        #[trigger] more[j],
    ) by {
        if i < place && j < place {
            assert(more[i] == labels[i] && more[j] == labels[j]);
        } else if i < place && j == place {
            assert(more[i] == labels[i]);
        } else if i < place {
            assert(more[i] == labels[i] && more[j] == labels[j - 1]);
        } else if i == place {
            assert(more[j] == labels[j - 1]);
            assert(labels.contains(labels[j - 1]));
            text::lemma_less_total(label, labels[j - 1]);
        } else {
            assert(more[i] == labels[i - 1] && more[j] == labels[j - 1]);
        }
    }
}

/// The map of the first labels of a list with their counts.
pub open spec fn first_counts(labels: Seq<Seq<char>>, counts: Seq<u64>, n: int) -> Map<
    Seq<char>,
    u64,
> {
    paired(labels.take(n), counts.take(n))
}

/// The counts of the first labels and one more are those of the first labels with
/// that of the next.
pub proof fn lemma_first_counts(labels: Seq<Seq<char>>, counts: Seq<u64>, n: int)
    requires
        is_ascending(labels),
        labels.len() == counts.len(),
        0 <= n < labels.len(),
    ensures
        !first_counts(labels, counts, n).contains_key(labels[n]),
        first_counts(labels, counts, n + 1) == first_counts(labels, counts, n).insert(
            labels[n],
            counts[n],
        ),
{
    let fewer = labels.take(n);
    let more = labels.take(n + 1);
    assert(is_ascending(more)) by {
        assert forall|i: int, j: int| 0 <= i < j < more.len() implies text::less(
            #[trigger] more[i],
            #[trigger] more[j],
        ) by {
            assert(more[i] == labels[i] && more[j] == labels[j]);
        }
    }
    assert(is_ascending(fewer)) by {
        assert forall|i: int, j: int| 0 <= i < j < fewer.len() implies text::less(
            #[trigger] fewer[i],
            #[trigger] fewer[j],
        ) by {
            assert(fewer[i] == labels[i] && fewer[j] == labels[j]);
        }
    }
    if fewer.contains(labels[n]) {
        let i = fewer.index_of(labels[n]);
        assert(labels[i] == labels[n]);
        text::lemma_less_irreflexive(labels[n]);
    }
    lemma_index_in_ascending(more, n);
    assert(more[n] == labels[n]);
    assert forall|label: Seq<char>| #[trigger] more.contains(label) implies label == labels[n] || (
    fewer.contains(label) && more.index_of(label) == fewer.index_of(label)) by {
        let i = more.index_of(label);
        if i < n {
            assert(fewer[i] == label);
            lemma_index_in_ascending(fewer, i);
        }
    }
    assert forall|label: Seq<char>| #[trigger] fewer.contains(label) implies more.contains(
        label,
    ) by {
        assert(more[fewer.index_of(label)] == label);
    }
    assert(first_counts(labels, counts, n + 1) =~= first_counts(labels, counts, n).insert(
        labels[n],
        counts[n],
    ));
}

/// The sum of a list of counts.
pub open spec fn sum(counts: Seq<u64>) -> nat
    decreases counts.len(),
{
    if counts.len() == 0 {
        0
    } else {
        sum(counts.drop_last()) + counts.last() as nat
    }
}

/// The sum of the counts of a map is that of the list of its values.
pub proof fn lemma_total_is_sum(labels: Seq<Seq<char>>, counts: Seq<u64>)
    requires
        is_ascending(labels),
        labels.len() == counts.len(),
    ensures
        paired(labels, counts).dom().finite(),
        tally::total(paired(labels, counts)) == sum(counts),
{
    lemma_total_of_first(labels, counts, labels.len() as int);
    assert(labels.take(labels.len() as int) =~= labels);
    assert(counts.take(counts.len() as int) =~= counts);
}

proof fn lemma_total_of_first(labels: Seq<Seq<char>>, counts: Seq<u64>, n: int)
    requires
        is_ascending(labels),
        labels.len() == counts.len(),
        0 <= n <= labels.len(),
    ensures
        first_counts(labels, counts, n).dom().finite(),
        tally::total(first_counts(labels, counts, n)) == sum(counts.take(n)),
    decreases n,
{
    if n == 0 {
        assert(first_counts(labels, counts, 0) =~= tally::blank::<Seq<char>>());
    } else {
        lemma_total_of_first(labels, counts, n - 1);
        lemma_first_counts(labels, counts, n - 1);
        let fewer = first_counts(labels, counts, n - 1);
        let more = first_counts(labels, counts, n);
        let label = labels[n - 1];
        assert(more.dom() =~= fewer.dom().insert(label));
        tally::lemma_total_split(more, label);
        assert(more.remove(label) =~= fewer);
        assert(counts.take(n).drop_last() =~= counts.take(n - 1));
    }
}

impl<V> LabelMap<V> {
    /// The labels, in order.
    pub open spec fn label_texts(self) -> Seq<Seq<char>> {
        text::texts(self.labels@)
    }

    /// Whether the labels ascend, and each has a value.
    pub open spec fn wf(self) -> bool {
        &&& self.labels.len() == self.values.len()
        &&& is_ascending(self.label_texts())
    }

    /// The value of each label.
    pub open spec fn view(self) -> Map<Seq<char>, V> {
        paired(self.label_texts(), self.values@)
    }

    /// The map without labels.
    pub fn new() -> (map: LabelMap<V>)
        ensures
            map.wf(),
            map@ == Map::<Seq<char>, V>::empty(),
            map.labels.len() == 0,
    {
        let map: LabelMap<V> = LabelMap { labels: Vec::new(), values: Vec::new() };
        assert(map@ =~= Map::<Seq<char>, V>::empty());
        map
    }

    /// Where a label has its place, and whether it stands there.
    pub fn find(&self, label: &str) -> (found: (usize, bool))
        requires
            self.wf(),
        ensures
            is_place(self.label_texts(), label@, found.0 as int),
            found.1 == self@.contains_key(label@),
            found.1 ==> found.0 < self.labels.len() && self.label_texts()[found.0 as int] == label@
                && self@[label@] == self.values[found.0 as int],
    {
        let ghost labels = self.label_texts();
        let mut place: usize = 0;
        while place < self.labels.len() && text::str_less(&self.labels[place], label)
            invariant
                self.wf(),
                labels == self.label_texts(),
                place <= self.labels.len(),
                forall|i: int| 0 <= i < place ==> text::less(#[trigger] labels[i], label@),
            ensures
                place <= self.labels.len(),
                forall|i: int| 0 <= i < place ==> text::less(#[trigger] labels[i], label@),
                place < self.labels.len() ==> !text::less(labels[place as int], label@),
            decreases self.labels.len() - place,
        {
            assert(labels[place as int] == self.labels[place as int]@);
            place += 1;
        }
        proof {
            assert forall|i: int| place <= i < labels.len() implies !text::less(
                #[trigger] labels[i],
                label@,
            ) by {
                if place < i && text::less(labels[i], label@) {
                    text::lemma_less_transitive(labels[place as int], labels[i], label@);
                }
            }
            lemma_at_its_place(labels, label@, place as int);
            if labels.contains(label@) {
                lemma_index_in_ascending(labels, place as int);
            }
        }
        if place < self.labels.len() {
            assert(labels[place as int] == self.labels[place as int]@);
            let stands = text::str_same(&self.labels[place], label);
            (place, stands)
        } else {
            (place, false)
        }
    }

    /// Puts a new label with its value in the map.
    pub fn add(&mut self, place: usize, label: String, value: V)
        requires
            old(self).wf(),
            is_place(old(self).label_texts(), label@, place as int),
            !old(self)@.contains_key(label@),
        ensures
            final(self).wf(),
            final(self)@ == old(self)@.insert(label@, value),
            final(self).label_texts() == old(self).label_texts().insert(place as int, label@),
            final(self).values@ == old(self).values@.insert(place as int, value),
    {
        let ghost labels = self.label_texts();
        let ghost values = self.values@;
        self.labels.insert(place, label);
        self.values.insert(place, value);
        let ghost more = labels.insert(place as int, label@);
        assert(self.label_texts() =~= more);
        proof {
            lemma_insert_keeps_ascending(labels, label@, place as int);
            assert forall|key: Seq<char>| more.contains(key) == (labels.contains(key) || key
                == label@) by {
                if labels.contains(key) {
                    let i = labels.index_of(key);
                    assert(more[if i < place { i } else { i + 1 }] == key);
                }
                if more.contains(key) && key != label@ {
                    let i = more.index_of(key);
                    assert(labels[if i < place { i } else { i - 1 }] == key);
                }
                assert(more[place as int] == label@);
            }
            assert forall|key: Seq<char>| more.contains(key) implies self.values@[more.index_of(
                key,
            )] == paired(labels, values).insert(label@, value)[key] by {
                if key == label@ {
                    lemma_index_in_ascending(more, place as int);
                } else {
                    let i = labels.index_of(key);
                    let j: int = if i < place {
                        i
                    } else {
                        i + 1
                    };
                    assert(more[j] == key);
                    lemma_index_in_ascending(more, j);
                }
            }
            assert(self@ =~= paired(labels, values).insert(label@, value));
        }
    }

    /// Giving the label at a place another value changes the map at that label.
    pub proof fn lemma_set(before: LabelMap<V>, after: LabelMap<V>, place: int, value: V)
        requires
            before.wf(),
            0 <= place < before.labels.len(),
            after.label_texts() == before.label_texts(),
            after.values@ == before.values@.update(place, value),
        ensures
            after.wf(),
            after@ == before@.insert(before.label_texts()[place], value),
    {
        let labels = before.label_texts();
        assert(after.label_texts().len() == before.label_texts().len());
        lemma_index_in_ascending(labels, place);
        assert forall|key: Seq<char>| labels.contains(key) && labels.index_of(key)
            == place implies key == labels[place] by {
            assert(labels[labels.index_of(key)] == key);
        }
        assert(after@ =~= before@.insert(labels[place], value));
    }
}

/// The labels of a map ascend in the order of their characters, so that none
/// stands twice, and each label has the value at its place and no other label has
/// one.
pub proof fn law_labels_ascend<V>(map: LabelMap<V>, i: int, j: int)
    requires
        map.wf(),
        0 <= i < map.labels.len(),
        0 <= j < map.labels.len(),
    ensures
        map.values.len() == map.labels.len(),
        i < j <==> text::less(map.labels[i]@, map.labels[j]@),
        map@.contains_key(map.labels[i]@),
        map@[map.labels[i]@] == map.values[i],
        forall|label: Seq<char>|
            #[trigger] map@.contains_key(label) ==> exists|k: int|
                0 <= k < map.labels.len() && #[trigger] map.labels[k]@ == label,
{
    let labels = map.label_texts();
    assert(labels[i] == map.labels[i]@ && labels[j] == map.labels[j]@);
    lemma_index_in_ascending(labels, i);
    text::lemma_less_irreflexive(labels[i]);
    if j < i && text::less(labels[i], labels[j]) {
        text::lemma_less_transitive(labels[i], labels[j], labels[i]);
    }
    assert(labels.contains(labels[i]));
    assert forall|label: Seq<char>| #[trigger] map@.contains_key(label) implies exists|k: int|
        0 <= k < map.labels.len() && #[trigger] map.labels[k]@ == label by {
        let k = labels.index_of(label);
        assert(labels.contains(label));
        assert(map.labels[k]@ == labels[k]);
    }
}

} // verus!
