//! Bounds on the height of trees.

use vstd::prelude::*;

verus! {

/// The largest number of items that can be left at `level` of a tree whose levels shrink by at
/// least half, from at most 2^64 items at level 0.
pub open spec fn level_capacity(level: nat) -> nat
    decreases level,
{
    if level == 0 {
        0x1_0000_0000_0000_0000
    } else {
        level_capacity((level - 1) as nat) / 2
    }
}

/// Only 64 levels have more than one item.
pub proof fn lemma_level_capacity(level: nat)
    ensures
        level_capacity(level) > 1 ==> level < 64,
    decreases level,
{
    if level > 64 {
        lemma_level_capacity((level - 1) as nat);
    } else if level == 64 {
        reveal_with_fuel(level_capacity, 66);
    }
}

/// The number of groups of `size` items that `count` items fall into.
pub open spec fn group_count(count: int, size: int) -> int {
    (count + size - 1) / size
}

/// The end of the group of at most `size` of `count` items that starts at `start`.
pub open spec fn group_end(start: int, size: int, count: int) -> int {
    if start + size < count {
        start + size
    } else {
        count
    }
}

/// The end of the group of at most `size` of `count` items that starts at `start`.
pub fn next_group(start: usize, size: usize, count: usize) -> (end: usize)
    requires
        start < count,
        0 < size,
    ensures
        end == group_end(start as int, size as int, count as int),
        start < end <= count,
        end - start <= size,
{
    if count - start > size {
        start + size
    } else {
        count
    }
}

} // verus!
