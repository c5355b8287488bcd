//! Lists in the order of a label, items that share one staying in the order in
//! which they came.

use vstd::prelude::*;
use vstd::string::*;

use crate::ordered::{bytes_precede, text_before, Ordered};

verus! {

/// An item that is listed by a label.
pub trait Labelled: Sized {
    /// The model of the item beside its label.
    type Rest;

    /// The label and the rest of the item.
    spec fn pair(&self) -> (Seq<char>, Self::Rest);

    /// The label.
    fn label(&self) -> (label: &str)
        ensures
            label@ == self.pair().0,
    ;
}

/// The models of a list of items.
pub open spec fn pairs<T: Labelled>(items: Seq<T>) -> Seq<(Seq<char>, T::Rest)> {
    items.map_values(|item: T| item.pair())
}

/// No item comes after one with a greater label.
pub open spec fn labels_in_order<A>(items: Seq<(Seq<char>, A)>) -> bool {
    forall|i: int, j: int|
        0 <= i < j < items.len() ==> !text_before((#[trigger] items[j]).0, (#[trigger] items[i]).0)
}

/// The items with this label, in their order.
pub open spec fn with_label<A>(items: Seq<(Seq<char>, A)>, label: Seq<char>) -> Seq<
    (Seq<char>, A),
> {
    items.filter(|item: (Seq<char>, A)| item.0 == label)
}

/// `list` holds `items` in the order of their labels, items that share a label
/// staying in the order in which they came.
pub open spec fn is_sorted_list<A>(
    list: Seq<(Seq<char>, A)>,
    items: Seq<(Seq<char>, A)>,
) -> bool {
    &&& labels_in_order(list)
    &&& list.to_multiset() == items.to_multiset()
    &&& forall|label: Seq<char>| #[trigger] with_label(list, label) == with_label(items, label)
}

/// Where an item goes: behind the items whose labels are not greater than its
/// own.
fn place_of<T: Labelled>(list: &Vec<T>, item: &T) -> (at: usize)
    requires
        labels_in_order(pairs(list@)),
    ensures
        at <= list.len(),
        forall|i: int| 0 <= i < at ==> !text_before(item.pair().0, (#[trigger] list@[i]).pair().0),
        forall|i: int|
            at <= i < list.len() ==> text_before(item.pair().0, (#[trigger] list@[i]).pair().0),
{
    let mut at: usize = list.len();
    while at > 0 && bytes_precede(item.label().as_bytes(), list[at - 1].label().as_bytes())
        invariant
            at <= list.len(),
            forall|i: int|
                at <= i < list.len() ==> text_before(
                    item.pair().0,
                    (#[trigger] list@[i]).pair().0,
                ),
        decreases at,
    {
        at -= 1;
    }
    assert forall|i: int| 0 <= i < at implies !text_before(
        item.pair().0,
        (#[trigger] list@[i]).pair().0,
    ) by {
        let all = pairs(list@);
        let label = item.pair().0;
        assert(all[i] == list@[i].pair() && all[at - 1] == list@[at - 1].pair());
        if text_before(label, all[i].0) {
            // What the item precedes at `i` it precedes right before its place too.
            String::lemma_total(all[at - 1].0, all[i].0);
            if i < at - 1 {
                assert(!text_before(all[at - 1].0, all[i].0));
                if all[at - 1].0 != all[i].0 {
                    String::lemma_transitive(label, all[i].0, all[at - 1].0);
                }
            }
        }
    }
    at
}

/// Items that all have a greater label leave none with this one.
proof fn lemma_none_with_label<A>(items: Seq<(Seq<char>, A)>, label: Seq<char>)
    requires
        forall|i: int| 0 <= i < items.len() ==> text_before(label, (#[trigger] items[i]).0),
    ensures
        with_label(items, label) == Seq::<(Seq<char>, A)>::empty(),
    decreases items.len(),
{
    reveal(Seq::filter);
    if items.len() > 0 {
        String::lemma_irreflexive(label);
        assert(text_before(label, items[items.len() - 1].0));
        lemma_none_with_label(items.drop_last(), label);
    }
}

/// Puts an item in its place.
proof fn lemma_placed<A>(
    list: Seq<(Seq<char>, A)>,
    items: Seq<(Seq<char>, A)>,
    at: int,
    item: (Seq<char>, A),
)
    requires
        is_sorted_list(list, items),
        0 <= at <= list.len(),
        forall|i: int| 0 <= i < at ==> !text_before(item.0, (#[trigger] list[i]).0),
        forall|i: int| at <= i < list.len() ==> text_before(item.0, (#[trigger] list[i]).0),
    ensures
        is_sorted_list(list.insert(at, item), items.push(item)),
{
    let after = list.insert(at, item);
    assert forall|i: int, j: int| 0 <= i < j < after.len() implies !text_before(
        (#[trigger] after[j]).0,
        (#[trigger] after[i]).0,
    ) by {
        if i != at && j != at {
            let oi = if i < at { i } else { i - 1 };
            let oj = if j < at { j } else { j - 1 };
            assert(after[i] == list[oi] && after[j] == list[oj]);
        } else if j == at {
            assert(after[i] == list[i]);
        } else {
            assert(after[j] == list[j - 1]);
            if text_before(list[j - 1].0, item.0) {
                String::lemma_transitive(item.0, list[j - 1].0, item.0);
                String::lemma_irreflexive(item.0);
            }
        }
    }
    vstd::seq_lib::to_multiset_insert(list, at, item);
    vstd::seq_lib::to_multiset_build(items, item);
    let front = list.take(at);
    let back = list.skip(at);
    assert(list =~= front + back);
    assert(after =~= front.push(item) + back);
    assert forall|label: Seq<char>| #[trigger]
        with_label(after, label) == with_label(items.push(item), label) by {
        let same = |other: (Seq<char>, A)| other.0 == label;
        Seq::filter_distributes_over_add(front, back, same);
        Seq::filter_distributes_over_add(front.push(item), back, same);
        front.lemma_filter_push(item, same);
        items.lemma_filter_push(item, same);
        assert(with_label(list, label) == with_label(items, label));
        if label == item.0 {
            lemma_none_with_label(back, label);
            assert(front.filter(same).push(item) + back.filter(same) =~= (front.filter(same)
                + back.filter(same)).push(item));
        }
    }
}

/// Lists items by their labels.
pub fn sort_by_label<T: Labelled>(items: Vec<T>) -> (list: Vec<T>)
    ensures
        is_sorted_list(pairs(list@), pairs(items@)),
{
    let ghost all = pairs(items@);
    let mut rest = items;
    let mut list: Vec<T> = Vec::new();
    let ghost mut i: int = 0;
    assert(pairs(list@) =~= all.take(0));
    assert(pairs(rest@) =~= all.skip(0));
    while rest.len() > 0
        invariant
            0 <= i <= all.len(),
            pairs(rest@) == all.skip(i),
            is_sorted_list(pairs(list@), all.take(i)),
        decreases rest.len(),
    {
        let ghost old_rest = rest@;
        let ghost before = list@;
        let item = rest.remove(0);
        let ghost pair = item.pair();
        proof {
            assert(pairs(old_rest).len() == all.len() - i);
            assert(pair == pairs(old_rest)[0]);
            assert(all.skip(i)[0] == all[i]);
            assert(pairs(rest@) =~= pairs(old_rest).skip(1));
            assert(pairs(rest@) =~= all.skip(i + 1));
        }
        let at = place_of(&list, &item);
        list.insert(at, item);
        proof {
            assert forall|k: int| 0 <= k < at implies !text_before(
                pair.0,
                (#[trigger] pairs(before)[k]).0,
            ) by {
                assert(pairs(before)[k] == before[k].pair());
            }
            assert forall|k: int| at <= k < before.len() implies text_before(
                pair.0,
                (#[trigger] pairs(before)[k]).0,
            ) by {
                assert(pairs(before)[k] == before[k].pair());
            }
            lemma_placed(pairs(before), all.take(i), at as int, pair);
            assert(pairs(list@) =~= pairs(before).insert(at as int, pair));
            assert(all.take(i + 1) =~= all.take(i).push(all[i]));
            i = i + 1;
        }
    }
    assert(all.take(i) =~= all) by {
        assert(all.skip(i).len() == 0);
    }
    list
}

proof fn lemma_filter_holds<A>(items: Seq<(Seq<char>, A)>, k: int)
    requires
        0 <= k < items.len(),
    ensures
        with_label(items, items[k].0).len() > 0,
{
    let same = |other: (Seq<char>, A)| other.0 == items[k].0;
    items.lemma_filter_contains(same, k);
    assert(with_label(items, items[k].0).contains(items[k]));
}

proof fn lemma_label_occurs<A>(items: Seq<(Seq<char>, A)>, label: Seq<char>) -> (k: int)
    requires
        with_label(items, label).len() > 0,
    ensures
        0 <= k < items.len(),
        items[k].0 == label,
    decreases items.len(),
{
    reveal(Seq::filter);
    let last = items.len() - 1;
    if items[last].0 == label {
        last
    } else {
        lemma_label_occurs(items.drop_last(), label)
    }
}

proof fn lemma_lists_agree<A>(a: Seq<(Seq<char>, A)>, b: Seq<(Seq<char>, A)>)
    requires
        labels_in_order(a),
        labels_in_order(b),
        forall|label: Seq<char>| #[trigger] with_label(a, label) == with_label(b, label),
    ensures
        a == b,
    decreases a.len(),
{
    if a.len() == 0 {
        if b.len() > 0 {
            lemma_filter_holds(b, 0);
            assert(with_label(a, b[0].0) == with_label(b, b[0].0));
            reveal(Seq::filter);
        }
        assert(a =~= b);
    } else {
        let x = a.last();
        lemma_filter_holds(a, a.len() - 1);
        assert(with_label(a, x.0) == with_label(b, x.0));
        let i = lemma_label_occurs(b, x.0);
        let y = b.last();
        lemma_filter_holds(b, b.len() - 1);
        assert(with_label(a, y.0) == with_label(b, y.0));
        let j = lemma_label_occurs(a, y.0);
        assert(i < b.len() - 1 ==> !text_before(b[b.len() - 1].0, b[i].0));
        assert(j < a.len() - 1 ==> !text_before(a[a.len() - 1].0, a[j].0));
        String::lemma_irreflexive(x.0);
        String::lemma_total(x.0, y.0);
        assert(x.0 == y.0);
        let front_a = a.drop_last();
        let front_b = b.drop_last();
        assert(a =~= front_a.push(x));
        assert(b =~= front_b.push(y));
        let here = |other: (Seq<char>, A)| other.0 == x.0;
        front_a.lemma_filter_push(x, here);
        front_b.lemma_filter_push(y, here);
        assert(with_label(a, x.0) == with_label(front_a, x.0).push(x));
        assert(with_label(b, x.0) == with_label(front_b, x.0).push(y));
        assert(with_label(a, x.0).last() == x && with_label(b, x.0).last() == y);
        assert forall|label: Seq<char>| #[trigger]
            with_label(front_a, label) == with_label(front_b, label) by {
            let same = |other: (Seq<char>, A)| other.0 == label;
            front_a.lemma_filter_push(x, same);
            front_b.lemma_filter_push(y, same);
            assert(with_label(a, label) == with_label(b, label));
            if label == x.0 {
                assert(with_label(front_a, label) =~= with_label(a, label).drop_last());
                assert(with_label(front_b, label) =~= with_label(b, label).drop_last());
            }
        }
        lemma_lists_agree(front_a, front_b);
    }
}

/// Items have one sorted list.
pub proof fn lemma_sorted_list_is_unique<A>(
    a: Seq<(Seq<char>, A)>,
    b: Seq<(Seq<char>, A)>,
    items: Seq<(Seq<char>, A)>,
)
    requires
        is_sorted_list(a, items),
        is_sorted_list(b, items),
    ensures
        a == b,
{
    assert forall|label: Seq<char>| #[trigger] with_label(a, label) == with_label(b, label) by {
        assert(with_label(a, label) == with_label(items, label));
    }
    lemma_lists_agree(a, b);
}

} // verus!
