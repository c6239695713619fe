//! Partition of the spans of a trace by parent identifier.
//!
//! A span stands here as the pair of its parent identifier and its place in
//! the list it came from. Sorting and run detection are done by `itertools`,
//! and each group is held in a `nonempty::NonEmpty`.

use itertools::Itertools;
use nonempty::NonEmpty;
use std::collections::HashMap;
use crate::span::Span;
use vstd::prelude::*;
use vstd::set_lib::lemma_int_range;
use vstd::set_lib::lemma_len_subset;
use vstd::set_lib::lemma_subset_equality;
use vstd::set_lib::set_int_range;

verus! {

/// A span reduced to what the partition needs: `(parent_span_id, index)`.
pub type Keyed = (i64, usize);

#[verifier::external_type_specification]
#[verifier::external_body]
#[verifier::reject_recursive_types(T)]
pub struct ExNonEmpty<T>(NonEmpty<T>);

/// The elements that a `NonEmpty` holds, head first.
pub uninterp spec fn group_items(group: NonEmpty<(i64, usize)>) -> Seq<(i64, usize)>;

/// `sorted` is `items` sorted stably by key: `sorted[j]` is the pair that
/// stood at `from[j]` in `items`, every place of `items` is taken once, keys
/// ascend, and pairs of one key keep their order.
pub open spec fn is_stable_sort(items: Seq<Keyed>, sorted: Seq<Keyed>, from: Seq<int>) -> bool {
    &&& sorted.len() == items.len()
    &&& from.len() == items.len()
    &&& from.no_duplicates()
    &&& forall|j: int|
        0 <= j < from.len() ==> 0 <= #[trigger] from[j] < items.len() && sorted[j]
            == items[from[j]]
    &&& forall|a: int, b: int|
        0 <= a < b < from.len() ==> sorted[a].0 < sorted[b].0 || (sorted[a].0 == sorted[b].0 && (
        #[trigger] from[a]) < (#[trigger] from[b]))
}

/// The elements of all runs, one run after the other.
pub open spec fn concat_runs(runs: Seq<(i64, Vec<Keyed>)>) -> Seq<Keyed>
    decreases runs.len(),
{
    if runs.len() == 0 {
        Seq::empty()
    } else {
        concat_runs(runs.drop_last()) + runs.last().1@
    }
}

/// `Itertools::sorted_by_key` with the parent identifier as key. It sorts with
/// the stable `slice::sort_by_key`: the result holds the same pairs, in
/// ascending order of key, and pairs of one key keep their order.
#[verifier::external_body]
fn sort_by_key(items: Vec<Keyed>) -> (sorted: Vec<Keyed>)
    ensures
        exists|from: Seq<int>| is_stable_sort(items@, sorted@, from),
{
    items.into_iter().sorted_by_key(|item| item.0).collect()
}

/// `Itertools::group_by` with the parent identifier as key. It cuts the list
/// into its runs of consecutive pairs with equal key: the runs are not empty,
/// each is returned with its key, neighbouring runs differ in their key, and
/// together they give the list back.
#[verifier::external_body]
fn runs_by_key(items: Vec<Keyed>) -> (runs: Vec<(i64, Vec<Keyed>)>)
    ensures
        concat_runs(runs@) == items@,
        forall|r: int| 0 <= r < runs.len() ==> (#[trigger] runs[r]).1.len() > 0,
        forall|r: int, j: int|
            0 <= r < runs.len() && 0 <= j < runs[r].1.len() ==> (#[trigger] runs[r].1[j]).0
                == runs[r].0,
        forall|r: int| 0 < r < runs.len() ==> runs[r - 1].0 != (#[trigger] runs[r]).0,
{
    items.into_iter().group_by(|item| item.0).into_iter().map(
        |(key, run)| (key, run.collect()),
    ).collect()
}

/// `NonEmpty::from_vec`: `None` for an empty vector, else the same elements
/// in the same order.
#[verifier::external_body]
fn group_from_vec(items: Vec<Keyed>) -> (group: Option<NonEmpty<Keyed>>)
    ensures
        match group {
            Some(g) => items.len() > 0 && group_items(g) == items@,
            None => items.len() == 0,
        },
{
    NonEmpty::from_vec(items)
}

/// `NonEmpty::len`: the number of elements, which is at least one.
#[verifier::external_body]
pub(crate) fn group_len(group: &NonEmpty<Keyed>) -> (len: usize)
    ensures
        len == group_items(*group).len(),
        len >= 1,
{
    group.len()
}

/// `NonEmpty::first`: the head of the list.
#[verifier::external_body]
pub(crate) fn group_first(group: &NonEmpty<Keyed>) -> (first: Keyed)
    ensures
        first == group_items(*group)[0],
{
    *group.first()
}

/// `NonEmpty::into_iter`, collected: the elements, head first.
#[verifier::external_body]
pub(crate) fn group_into_vec(group: NonEmpty<Keyed>) -> (items: Vec<Keyed>)
    ensures
        items@ == group_items(group),
        items.len() >= 1,
{
    group.into_iter().collect()
}

/// `item` is the pair that stands for one of `spans`.
pub open spec fn stands_for_span(spans: Seq<Span>, item: Keyed) -> bool {
    item.1 < spans.len() && spans[item.1 as int].parent_span_id == item.0
}

/// The pairs of `items` come in the order of the places they stand for.
pub open spec fn in_given_order(items: Seq<Keyed>) -> bool {
    forall|a: int, b: int| 0 <= a < b < items.len() ==> items[a].1 < items[b].1
}

/// `items` is a group under `key`: not empty, without repetition, in the
/// order in which the spans were given, and made of pairs that stand for
/// spans whose parent identifier is `key`.
pub open spec fn is_group_of(spans: Seq<Span>, key: i64, items: Seq<Keyed>) -> bool {
    &&& items.len() >= 1
    &&& items.no_duplicates()
    &&& in_given_order(items)
    &&& forall|j: int|
        0 <= j < items.len() ==> stands_for_span(spans, #[trigger] items[j]) && items[j].0 == key
}

/// `groups` is the partition of `spans` by parent identifier: every group is
/// one in the sense of [`is_group_of`], and every span lies in the group of
/// its parent identifier.
pub open spec fn is_partition_by_parent(spans: Seq<Span>, groups: Map<i64, NonEmpty<Keyed>>) -> bool {
    &&& forall|key: i64| #[trigger]
        groups.contains_key(key) ==> is_group_of(spans, key, group_items(groups[key]))
    &&& forall|i: int|
        0 <= i < spans.len() ==> {
            let key = (#[trigger] spans[i]).parent_span_id;
            groups.contains_key(key) && group_items(groups[key]).contains((key, i as usize))
        }
}

/// A list of `n` different numbers below `n` holds every number below `n`.
pub proof fn lemma_numbers_all_occur(numbers: Seq<int>, n: int, wanted: int)
    requires
        numbers.len() == n,
        numbers.no_duplicates(),
        forall|j: int| 0 <= j < numbers.len() ==> 0 <= #[trigger] numbers[j] < n,
        0 <= wanted < n,
    ensures
        numbers.contains(wanted),
{
    lemma_int_range(0, n);
    numbers.unique_seq_to_set();
    lemma_len_subset(numbers.to_set(), set_int_range(0, n));
    lemma_subset_equality(numbers.to_set(), set_int_range(0, n));
    assert(set_int_range(0, n).contains(wanted));
}

/// The pairs come in ascending order of key, and pairs of one key in
/// ascending order of the place they stand for.
pub open spec fn by_key_then_place(items: Seq<Keyed>) -> bool {
    forall|a: int, b: int|
        0 <= a < b < items.len() ==> (#[trigger] items[a]).0 < (#[trigger] items[b]).0 || (
        items[a].0 == items[b].0 && items[a].1 < items[b].1)
}

/// What a stable sort by key makes of the pairs that stand for `spans`.
proof fn lemma_sorted_pairs(spans: Seq<Span>, source: Seq<Keyed>, sorted: Seq<Keyed>, from: Seq<int>)
    requires
        spans.len() <= usize::MAX,
        source.len() == spans.len(),
        forall|i: int|
            0 <= i < source.len() ==> #[trigger] source[i] == (
                spans[i].parent_span_id,
                i as usize,
            ),
        is_stable_sort(source, sorted, from),
    ensures
        sorted.len() == spans.len(),
        by_key_then_place(sorted),
        forall|j: int| 0 <= j < sorted.len() ==> stands_for_span(spans, #[trigger] sorted[j]),
        forall|i: int| 0 <= i < source.len() ==> sorted.contains(#[trigger] source[i]),
{
    assert forall|j: int| 0 <= j < sorted.len() implies stands_for_span(
        spans,
        #[trigger] sorted[j],
    ) && sorted[j].1 == from[j] by {
        assert(sorted[j] == source[from[j]]);
    }
    assert forall|i: int| 0 <= i < source.len() implies sorted.contains(#[trigger] source[i]) by {
        lemma_numbers_all_occur(from, source.len() as int, i);
    }
}

proof fn lemma_split_concat(front: Seq<Keyed>, back: Seq<Keyed>, all: Seq<Keyed>, end: int)
    requires
        0 <= end <= all.len(),
        front + back == all.take(end),
    ensures
        back.len() <= end,
        front == all.take(end - back.len()),
        back == all.subrange(end - back.len(), end),
{
    let joined = front + back;
    assert(joined.len() == end);
    let cut = end - back.len();
    assert forall|i: int| 0 <= i < cut implies front[i] == all[i] by {
        assert(joined[i] == front[i]);
    }
    assert forall|i: int| 0 <= i < back.len() implies back[i] == all[cut + i] by {
        assert(joined[cut + i] == back[i]);
    }
}

/// Partitions the spans by parent identifier: the pairs `(parent_span_id,
/// index)` are sorted by key, cut into runs of equal key, and each run is
/// stored under its key.
pub fn group_by_parent(spans: &Vec<Span>) -> (groups: HashMap<i64, NonEmpty<Keyed>>)
    ensures
        is_partition_by_parent(spans@, groups@),
{
    broadcast use vstd::std_specs::hash::group_hash_axioms;

    let mut keyed: Vec<Keyed> = Vec::new();
    let mut i: usize = 0;
    while i < spans.len()
        invariant
            i <= spans.len(),
            keyed.len() == i,
            forall|j: int| 0 <= j < i ==> keyed[j] == (spans[j].parent_span_id, j as usize),
        decreases spans.len() - i,
    {
        keyed.push((spans[i].parent_span_id, i));
        i += 1;
    }
    let ghost source = keyed@;
    let sorted = sort_by_key(keyed);
    let ghost all = sorted@;
    proof {
        let from = choose|from: Seq<int>| is_stable_sort(source, all, from);
        lemma_sorted_pairs(spans@, source, all, from);
    }
    let mut runs = runs_by_key(sorted);
    let mut groups: HashMap<i64, NonEmpty<Keyed>> = HashMap::new();
    let ghost mut end: int = all.len() as int;
    while runs.len() > 0
        invariant
            0 <= end <= all.len(),
            concat_runs(runs@) == all.take(end),
            forall|r: int| 0 <= r < runs.len() ==> (#[trigger] runs[r]).1.len() > 0,
            forall|r: int, j: int|
                0 <= r < runs.len() && 0 <= j < runs[r].1.len() ==> (#[trigger] runs[r].1[j]).0
                    == runs[r].0,
            forall|r: int| 0 < r < runs.len() ==> runs[r - 1].0 != (#[trigger] runs[r]).0,
            by_key_then_place(all),
            forall|j: int| 0 <= j < all.len() ==> stands_for_span(spans@, #[trigger] all[j]),
            forall|key: i64| #[trigger]
                groups@.contains_key(key) ==> is_group_of(spans@, key, group_items(groups@[key]))
                    && forall|j: int| 0 <= j < end ==> (#[trigger] all[j]).0 < key,
            forall|j: int|
                end <= j < all.len() ==> groups@.contains_key((#[trigger] all[j]).0) && group_items(
                    groups@[all[j].0],
                ).contains(all[j]),
        decreases runs.len(),
    {
        let (key, run) = runs.pop().unwrap();
        let ghost items = run@;
        let ghost start = end - items.len();
        proof {
            lemma_split_concat(concat_runs(runs@), items, all, end);
            assert(all[end - 1].0 == key) by {
                assert(items[items.len() - 1] == all[end - 1]);
            }
            assert forall|j: int| 0 <= j < start implies (#[trigger] all[j]).0 < key by {
                let prev = runs@.last();
                let tail = prev.1@;
                assert(concat_runs(runs@)[start - 1] == tail[tail.len() - 1]);
                assert(all[start].0 == key) by {
                    assert(items[0] == all[start]);
                }
            }
        }
        match group_from_vec(run) {
            Some(group) => {
                groups.insert(key, group);
                proof {
                    assert forall|j: int| start <= j < all.len() implies groups@.contains_key(
                        (#[trigger] all[j]).0,
                    ) && group_items(groups@[all[j].0]).contains(all[j]) by {
                        if j < end {
                            assert(items[j - start] == all[j]);
                        }
                    }
                }
            },
            None => {},
        }
        proof {
            end = start;
        }
    }
    proof {
        assert forall|i: int| 0 <= i < spans.len() implies {
            let key = (#[trigger] spans@[i]).parent_span_id;
            groups@.contains_key(key) && group_items(groups@[key]).contains((key, i as usize))
        } by {
            let item = (spans[i].parent_span_id, i as usize);
            assert(source[i] == item);
        }
    }
    groups
}

} // verus!
