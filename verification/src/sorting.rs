//! Stable sorting by an integer key.

use vstd::prelude::*;

verus! {

/// A value with an integer key.
pub trait Keyed: Sized {
    /// The key.
    spec fn spec_key(&self) -> u64;

    /// The key.
    fn key(&self) -> (key: u64)
        ensures
            key == self.spec_key(),
    ;
}

/// `items` with `item` put behind every item whose key is not larger, where `items` is sorted.
pub open spec fn inserted<T: Keyed>(items: Seq<T>, item: T) -> Seq<T>
    decreases items.len(),
{
    if items.len() == 0 || items.last().spec_key() <= item.spec_key() {
        items.push(item)
    } else {
        inserted(items.drop_last(), item).push(items.last())
    }
}

/// The first `count` of `items` by ascending key, equal keys in the order in which they came.
pub open spec fn sorted_prefix<T: Keyed>(items: Seq<T>, count: nat) -> Seq<T>
    decreases count,
{
    if count == 0 {
        Seq::empty()
    } else {
        inserted(sorted_prefix(items, (count - 1) as nat), items[count - 1])
    }
}

/// `items` by ascending key, equal keys in the order in which they came.
pub open spec fn sorted_by_key<T: Keyed>(items: Seq<T>) -> Seq<T> {
    sorted_prefix(items, items.len())
}

/// Whether the keys of `items` ascend.
pub open spec fn is_sorted<T: Keyed>(items: Seq<T>) -> bool {
    forall|i: int, j: int|
        0 <= i <= j < items.len() ==> (#[trigger] items[i]).spec_key() <= (
        #[trigger] items[j]).spec_key()
}

/// The items whose key is `key`, in order.
pub open spec fn with_key<T: Keyed>(items: Seq<T>, key: u64) -> Seq<T>
    decreases items.len(),
{
    if items.len() == 0 {
        Seq::empty()
    } else if items.last().spec_key() == key {
        with_key(items.drop_last(), key).push(items.last())
    } else {
        with_key(items.drop_last(), key)
    }
}

proof fn lemma_inserted<T: Keyed>(items: Seq<T>, item: T)
    requires
        is_sorted(items),
    ensures
        is_sorted(inserted(items, item)),
        inserted(items, item).to_multiset() == items.to_multiset().insert(item),
        inserted(items, item).len() == items.len() + 1,
        forall|key: u64| #[trigger]
            with_key(inserted(items, item), key) == (if item.spec_key() == key {
                with_key(items, key).push(item)
            } else {
                with_key(items, key)
            }),
    decreases items.len(),
{
    broadcast use vstd::seq_lib::group_to_multiset_ensures;

    if items.len() == 0 || items.last().spec_key() <= item.spec_key() {
        assert(items.push(item).drop_last() =~= items);
    } else {
        let shorter = items.drop_last();
        lemma_inserted(shorter, item);
        let placed = inserted(shorter, item);
        assert(placed.push(items.last()).drop_last() =~= placed);
        assert(shorter.push(items.last()) =~= items);
        assert forall|i: int, j: int| 0 <= i <= j < placed.push(items.last()).len() implies (
        #[trigger] placed.push(items.last())[i]).spec_key() <= (#[trigger] placed.push(
            items.last(),
        )[j]).spec_key() by {
            if j == placed.len() && i < j {
                lemma_inserted_from(shorter, item, i);
            }
        }
        assert forall|key: u64| #[trigger]
            with_key(inserted(items, item), key) == (if item.spec_key() == key {
                with_key(items, key).push(item)
            } else {
                with_key(items, key)
            }) by {
            assert(with_key(placed, key) == (if item.spec_key() == key {
                with_key(shorter, key).push(item)
            } else {
                with_key(shorter, key)
            }));
        }
    }
}

proof fn lemma_inserted_from<T: Keyed>(items: Seq<T>, item: T, index: int)
    requires
        0 <= index <= items.len(),
    ensures
        inserted(items, item).len() == items.len() + 1,
        inserted(items, item)[index] == item || items.contains(inserted(items, item)[index]),
    decreases items.len(),
{
    if items.len() == 0 || items.last().spec_key() <= item.spec_key() {
        if index < items.len() {
            assert(items[index] == items.push(item)[index]);
        }
    } else {
        let shorter = items.drop_last();
        if index < items.len() {
            lemma_inserted_from(shorter, item, index);
            let found = inserted(shorter, item)[index];
            if found != item {
                let at = choose|at: int| 0 <= at < shorter.len() && shorter[at] == found;
                assert(items[at] == found);
            }
        } else {
            lemma_inserted_from(shorter, item, 0);
            assert(items[items.len() - 1] == items.last());
        }
    }
}

proof fn lemma_sorted_prefix<T: Keyed>(items: Seq<T>, count: nat)
    requires
        count <= items.len(),
    ensures
        is_sorted(sorted_prefix(items, count)),
        sorted_prefix(items, count).len() == count,
        sorted_prefix(items, count).to_multiset() == items.take(count as int).to_multiset(),
        forall|key: u64| #[trigger]
            with_key(sorted_prefix(items, count), key) == with_key(items.take(count as int), key),
    decreases count,
{
    broadcast use vstd::seq_lib::group_to_multiset_ensures;

    if count > 0 {
        let before = (count - 1) as nat;
        lemma_sorted_prefix(items, before);
        lemma_inserted(sorted_prefix(items, before), items[count - 1]);
        assert(items.take(count as int) =~= items.take(before as int).push(items[count - 1]));
        assert(items.take(count as int).drop_last() =~= items.take(before as int));
        assert forall|key: u64| #[trigger]
            with_key(sorted_prefix(items, count), key) == with_key(
                items.take(count as int),
                key,
            ) by {
            assert(with_key(sorted_prefix(items, before), key) == with_key(
                items.take(before as int),
                key,
            ));
        }
    } else {
        assert(items.take(0) =~= Seq::empty());
        assert(sorted_prefix(items, 0) =~= Seq::empty());
    }
}

/// Sorting yields the same items with ascending keys, and keeps the order of items with one key.
pub proof fn law_sorted_by_key<T: Keyed>(items: Seq<T>, key: u64)
    ensures
        is_sorted(sorted_by_key(items)),
        sorted_by_key(items).len() == items.len(),
        sorted_by_key(items).to_multiset() == items.to_multiset(),
        with_key(sorted_by_key(items), key) == with_key(items, key),
{
    lemma_sorted_prefix(items, items.len());
    assert(items.take(items.len() as int) =~= items);
}

/// The index at which an item with key `key` is inserted.
fn insertion_index<T: Keyed>(items: &Vec<T>, item: &T) -> (index: usize)
    ensures
        index <= items@.len(),
        inserted(items@, *item) == items@.insert(index as int, *item),
{
    let mut index: usize = items.len();
    proof {
        assert(items@.take(index as int) =~= items@);
        assert(inserted(items@, *item) + items@.skip(index as int) =~= inserted(items@, *item));
    }
    while index > 0 && items[index - 1].key() > item.key()
        invariant
            index <= items@.len(),
            inserted(items@, *item) == inserted(items@.take(index as int), *item) + items@.skip(
                index as int,
            ),
        decreases index,
    {
        proof {
            let part = items@.take(index as int);
            assert(part.drop_last() =~= items@.take(index - 1));
            assert(inserted(part, *item) + items@.skip(index as int) =~= inserted(
                items@.take(index - 1),
                *item,
            ) + items@.skip(index - 1));
        }
        index -= 1;
    }
    proof {
        let part = items@.take(index as int);
        assert(index > 0 ==> part.last() == items@[index - 1]);
        assert(inserted(part, *item) =~= part.push(*item));
        assert(part.push(*item) + items@.skip(index as int) =~= items@.insert(
            index as int,
            *item,
        ));
    }
    index
}

/// Sorts `items` by ascending key, equal keys in the order in which they came.
pub fn sort_by_key<T: Keyed + Copy>(items: &Vec<T>) -> (sorted: Vec<T>)
    ensures
        sorted@ == sorted_by_key(items@),
{
    let mut sorted: Vec<T> = Vec::new();
    let mut i: usize = 0;
    while i < items.len()
        invariant
            i <= items@.len(),
            sorted@ == sorted_prefix(items@, i as nat),
        decreases items@.len() - i,
    {
        let item: T = items[i];
        let index: usize = insertion_index(&sorted, &item);
        sorted.insert(index, item);
        i += 1;
    }
    sorted
}

} // verus!
