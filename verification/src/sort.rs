//! Sorting by texts.

use vstd::prelude::*;

use crate::text;
use crate::text::{same_text, text_at_most};

verus! {

/// What is sorted by: a text, and another one between equal texts.
pub type Key = (Seq<char>, Seq<char>);

/// The keys of a list.
pub open spec fn keys(list: Seq<(String, String)>) -> Seq<Key> {
    list.map_values(|key: (String, String)| (key.0@, key.1@))
}

/// Whether one key comes before another, or is the same.
pub open spec fn key_le(a: Key, b: Key) -> bool {
    if a.0 == b.0 {
        text::text_le(a.1, b.1)
    } else {
        text::text_le(a.0, b.0)
    }
}

/// Whether places are those of a list of some length, each once.
pub open spec fn is_order(order: Seq<usize>, len: int) -> bool {
    &&& order.len() == len
    &&& order.no_duplicates()
    &&& forall|i: int| 0 <= i < order.len() ==> (#[trigger] order[i]) < len
}

/// Whether keys come in order at some places.
pub open spec fn in_key_order(list: Seq<Key>, order: Seq<usize>) -> bool {
    forall|i: int, j: int|
        0 <= i <= j < order.len() ==> key_le(
            list[(#[trigger] order[i]) as int],
            list[(#[trigger] order[j]) as int],
        )
}

/// Of two keys, one comes before the other.
pub proof fn lemma_key_total(a: Key, b: Key)
    ensures
        key_le(a, b) || key_le(b, a),
{
    text::lemma_text_le_total(a.0, b.0);
    text::lemma_text_le_total(a.1, b.1);
}

/// A key that comes before one that comes before another comes before that.
pub proof fn lemma_key_transitive(a: Key, b: Key, c: Key)
    requires
        key_le(a, b),
        key_le(b, c),
    ensures
        key_le(a, c),
{
    if a.0 == b.0 {
        if b.0 == c.0 {
            text::lemma_text_le_transitive(a.1, b.1, c.1);
        }
    } else if b.0 != c.0 {
        text::lemma_text_le_transitive(a.0, b.0, c.0);
        if a.0 == c.0 {
            text::lemma_text_le_antisymmetric(a.0, b.0);
        }
    }
}

/// Whether one key comes before another, or is the same.
fn key_at_most(a: &(String, String), b: &(String, String)) -> (ordered: bool)
    ensures
        ordered == key_le((a.0@, a.1@), (b.0@, b.1@)),
{
    if same_text(a.0.as_str(), b.0.as_str()) {
        text_at_most(a.1.as_str(), b.1.as_str())
    } else {
        text_at_most(a.0.as_str(), b.0.as_str())
    }
}

/// The places of a list in the order of its keys.
pub fn sorted_order(list: &Vec<(String, String)>) -> (order: Vec<usize>)
    ensures
        is_order(order@, list@.len() as int),
        in_key_order(keys(list@), order@),
{
    let ghost all = keys(list@);
    let mut order: Vec<usize> = Vec::new();
    let mut next: usize = 0;
    while next < list.len()
        invariant
            next <= list.len(),
            all == keys(list@),
            is_order(order@, next as int),
            in_key_order(all, order@),
        decreases list.len() - next,
    {
        let ghost before = order@;
        let mut at: usize = order.len();
        while at > 0 && !key_at_most(&list[order[at - 1]], &list[next])
            invariant
                at <= order.len(),
                next < list.len(),
                order@ == before,
                all == keys(list@),
                is_order(order@, next as int),
                forall|i: int|
                    at <= i < order@.len() ==> !key_le(
                        all[(#[trigger] order@[i]) as int],
                        all[next as int],
                    ),
            decreases at,
        {
            at -= 1;
        }
        order.insert(at, next);
        proof {
            assert(order@ =~= before.insert(at as int, next));
            lemma_inserted(all, before, at as int, next);
        }
        next += 1;
    }
    order
}

/// A place that is put where its key belongs keeps the order.
proof fn lemma_inserted(list: Seq<Key>, before: Seq<usize>, at: int, next: usize)
    requires
        next < list.len(),
        is_order(before, next as int),
        in_key_order(list, before),
        0 <= at <= before.len(),
        at > 0 ==> key_le(list[before[at - 1] as int], list[next as int]),
        forall|i: int|
            at <= i < before.len() ==> !key_le(
                list[(#[trigger] before[i]) as int],
                list[next as int],
            ),
    ensures
        is_order(before.insert(at, next), next + 1),
        in_key_order(list, before.insert(at, next)),
{
    let after = before.insert(at, next);
    assert forall|i: int| 0 <= i < after.len() implies (#[trigger] after[i]) < next + 1 by {
        if i < at {
            assert(after[i] == before[i]);
        } else if i > at {
            assert(after[i] == before[i - 1]);
        }
    }
    assert forall|i: int, j: int| 0 <= i < j < after.len() implies after[i] != after[j] by {
        let a = if i < at {
            i
        } else {
            i - 1
        };
        let b = if j < at {
            j
        } else {
            j - 1
        };
        if i != at {
            assert(after[i] == before[a]);
        }
        if j != at {
            assert(after[j] == before[b]);
        }
    }
    assert forall|i: int, j: int| 0 <= i <= j < after.len() implies key_le(
        list[(#[trigger] after[i]) as int],
        list[(#[trigger] after[j]) as int],
    ) by {
        let a = if i < at {
            i
        } else {
            i - 1
        };
        let b = if j < at {
            j
        } else {
            j - 1
        };
        if i == j {
            lemma_key_total(list[after[i] as int], list[after[i] as int]);
        } else if i == at {
            assert(after[j] == before[b]);
            lemma_key_total(list[next as int], list[before[b] as int]);
        } else if j == at {
            assert(after[i] == before[a]);
            assert(key_le(list[before[a] as int], list[before[at - 1] as int]));
            lemma_key_transitive(
                list[before[a] as int],
                list[before[at - 1] as int],
                list[next as int],
            );
        } else {
            assert(after[i] == before[a] && after[j] == before[b]);
        }
    }
}

/// Whether texts come in order.
pub open spec fn in_text_order(list: Seq<Seq<char>>) -> bool {
    forall|i: int, j: int|
        0 <= i <= j < list.len() ==> text::text_le(#[trigger] list[i], #[trigger] list[j])
}

/// Sorts texts.
pub fn sort_texts(list: Vec<String>) -> (sorted: Vec<String>)
    ensures
        in_text_order(text::texts(sorted@)),
        text::texts(sorted@).to_multiset() == text::texts(list@).to_multiset(),
{
    let ghost all = text::texts(list@);
    let mut sorted: Vec<String> = Vec::new();
    let mut next: usize = 0;
    assert(text::texts(sorted@) =~= all.take(0));
    while next < list.len()
        invariant
            next <= list.len(),
            all == text::texts(list@),
            in_text_order(text::texts(sorted@)),
            text::texts(sorted@).to_multiset() == all.take(next as int).to_multiset(),
        decreases list.len() - next,
    {
        let ghost before = text::texts(sorted@);
        let ghost old_sorted = sorted@;
        let mut at: usize = sorted.len();
        while at > 0 && !text_at_most(sorted[at - 1].as_str(), list[next].as_str())
            invariant
                at <= sorted.len(),
                next < list.len(),
                sorted@ == old_sorted,
                before == text::texts(sorted@),
                all == text::texts(list@),
                forall|i: int|
                    at <= i < before.len() ==> !text::text_le(
                        #[trigger] before[i],
                        all[next as int],
                    ),
            decreases at,
        {
            assert(before[at - 1] == sorted@[at - 1]@);
            at -= 1;
        }
        proof {
            if at > 0 {
                assert(before[at - 1] == sorted@[at - 1]@);
            }
        }
        sorted.insert(at, list[next].clone());
        proof {
            assert(text::texts(sorted@) =~= before.insert(at as int, all[next as int]));
            lemma_text_inserted(before, at as int, all[next as int]);
            lemma_insert_multiset(before, at as int, all[next as int]);
            assert(all.take(next + 1) =~= all.take(next as int).push(all[next as int]));
            vstd::seq_lib::to_multiset_build(all.take(next as int), all[next as int]);
        }
        next += 1;
    }
    assert(all.take(all.len() as int) =~= all);
    sorted
}

/// A sequence with one more value has one more of it.
proof fn lemma_insert_multiset(before: Seq<Seq<char>>, at: int, value: Seq<char>)
    requires
        0 <= at <= before.len(),
    ensures
        before.insert(at, value).to_multiset() == before.to_multiset().insert(value),
{
    let after = before.insert(at, value);
    assert(after.remove(at) =~= before);
    assert(after[at] == value);
    vstd::seq_lib::to_multiset_remove(after, at);
    after.to_multiset_ensures();
    assert(after.contains(value));
    assert(before.to_multiset().insert(value) =~= after.to_multiset());
}

/// A text that is put where it belongs keeps the order.
proof fn lemma_text_inserted(before: Seq<Seq<char>>, at: int, value: Seq<char>)
    requires
        in_text_order(before),
        0 <= at <= before.len(),
        at > 0 ==> text::text_le(before[at - 1], value),
        forall|i: int| at <= i < before.len() ==> !text::text_le(#[trigger] before[i], value),
    ensures
        in_text_order(before.insert(at, value)),
{
    let after = before.insert(at, value);
    assert forall|i: int, j: int| 0 <= i <= j < after.len() implies text::text_le(
        #[trigger] after[i],
        #[trigger] after[j],
    ) by {
        let a = if i < at {
            i
        } else {
            i - 1
        };
        let b = if j < at {
            j
        } else {
            j - 1
        };
        if i == j {
            text::lemma_text_le_total(after[i], after[i]);
        } else if i == at {
            assert(after[j] == before[b]);
            text::lemma_text_le_total(value, before[b]);
        } else if j == at {
            assert(after[i] == before[a]);
            assert(text::text_le(before[a], before[at - 1]));
            text::lemma_text_le_transitive(before[a], before[at - 1], value);
        } else {
            assert(after[i] == before[a] && after[j] == before[b]);
        }
    }
}

/// Texts that are sorted are the same list wherever they are the same texts.
pub proof fn sorted_texts_are_unique(first: Seq<Seq<char>>, second: Seq<Seq<char>>)
    requires
        in_text_order(first),
        in_text_order(second),
        first.to_multiset() == second.to_multiset(),
    ensures
        first == second,
{
    let leq = |a: Seq<char>, b: Seq<char>| text::text_le(a, b);
    assert forall|a: Seq<char>| #[trigger] leq(a, a) by {
        text::lemma_text_le_total(a, a);
    }
    assert forall|a: Seq<char>, b: Seq<char>| #[trigger] leq(a, b) && #[trigger] leq(
        b,
        a,
    ) implies a == b by {
        text::lemma_text_le_antisymmetric(a, b);
    }
    assert forall|a: Seq<char>, b: Seq<char>, c: Seq<char>| #[trigger] leq(a, b) && #[trigger] leq(
        b,
        c,
    ) implies leq(a, c) by {
        text::lemma_text_le_transitive(a, b, c);
    }
    assert forall|a: Seq<char>, b: Seq<char>| #[trigger] leq(a, b) || #[trigger] leq(b, a) by {
        text::lemma_text_le_total(a, b);
    }
    assert(vstd::relations::total_ordering(leq));
    assert(vstd::relations::sorted_by(first, leq));
    assert(vstd::relations::sorted_by(second, leq));
    vstd::seq_lib::lemma_sorted_unique(first, second, leq);
}

/// A sorted order has every place of the list exactly once. Between two
/// neighbours, the first text decides, and between equal first texts the second.
pub proof fn lists_are_sorted_by_their_keys(
    list: Vec<(String, String)>,
    order: Vec<usize>,
    place: int,
    first: int,
    second: int,
)
    requires
        call_ensures(sorted_order, (&list,), order),
        0 <= place < list@.len(),
        0 <= first < second < list@.len(),
    ensures
        order@.len() == list@.len(),
        exists|i: int| 0 <= i < order@.len() && (#[trigger] order@[i]) == place,
        order@[first] != order@[second],
        order@[first] < list@.len() && order@[second] < list@.len(),
        ({
            let a = list@[order@[first] as int];
            let b = list@[order@[second] as int];
            &&& text::text_le(a.0@, b.0@)
            &&& a.0@ == b.0@ ==> text::text_le(a.1@, b.1@)
        }),
{
    lemma_every_place(order@, list@.len() as int, place);
    let a = order@[first] as int;
    let b = order@[second] as int;
    assert(key_le(keys(list@)[a], keys(list@)[b]));
    text::lemma_text_le_total(list@[a].0@, list@[a].0@);
}

/// An order of the places of a list has every one.
pub proof fn lemma_every_place(order: Seq<usize>, len: int, place: int)
    requires
        is_order(order, len),
        0 <= place < len,
    ensures
        exists|i: int| 0 <= i < order.len() && (#[trigger] order[i]) == place,
    decreases len,
{
    if !(exists|i: int| 0 <= i < order.len() && (#[trigger] order[i]) == place) {
        let values = order.map_values(|n: usize| n as int);
        assert(values.no_duplicates()) by {
            assert forall|i: int, j: int| 0 <= i < j < values.len() implies values[i]
                != values[j] by {
                assert(order[i] != order[j]);
            }
        }
        values.unique_seq_to_set();
        let range = vstd::set_lib::set_int_range(0, len).remove(place);
        vstd::set_lib::lemma_int_range(0, len);
        assert forall|n: int| values.to_set().contains(n) implies range.contains(n) by {
            let i = values.index_of(n);
            assert(order[i] == n);
        }
        vstd::set_lib::lemma_len_subset(values.to_set(), range);
    }
}

/// Sorted texts are the same texts, as often as before, each at most the next.
pub proof fn texts_are_sorted(list: Vec<String>, sorted: Vec<String>, first: int, second: int)
    requires
        call_ensures(sort_texts, (list,), sorted),
    ensures
        text::texts(sorted@).to_multiset() == text::texts(list@).to_multiset(),
        sorted@.len() == list@.len(),
        0 <= first < second < sorted@.len() ==> text::text_le(sorted@[first]@, sorted@[second]@),
{
    let all = text::texts(list@);
    let done = text::texts(sorted@);
    all.to_multiset_ensures();
    done.to_multiset_ensures();
    assert(all.len() == list@.len() && done.len() == sorted@.len());
    if 0 <= first < second < sorted@.len() {
        assert(text::text_le(done[first], done[second]));
    }
}

} // verus!
