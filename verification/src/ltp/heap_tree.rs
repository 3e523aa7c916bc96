//! Trees of keyed records in a heap.

use vstd::prelude::*;

use crate::bytes;
use crate::error::PstError;
use crate::ltp::heap;
use crate::ltp::heap::{HeapBuilder, HeapId};
use crate::ndb::levels;

verus! {

/// The number of records in a leaf allocation.
pub const HEAP_TREE_LEAF_CAPACITY: usize = 750;

/// An allocation of a tree and the first key below it.
#[derive(Clone, Copy, PartialEq, Eq, Debug, Structural)]
pub struct HeapTreeChild {
    pub key: u32,
    pub id: HeapId,
}

/// The layout of a tree: the sizes of its keys and of its records behind their keys, and the number
/// of children of an intermediate allocation.
#[derive(Clone, Copy, PartialEq, Eq, Debug, Structural)]
pub struct HeapTreeLayout {
    pub key_size: u8,
    pub entry_size: u8,
    pub group: usize,
}

/// The bytes of a key.
pub open spec fn key_bytes(key: u32, key_size: u8) -> Seq<u8> {
    if key_size == 2 {
        bytes::le16(key as u16)
    } else {
        bytes::le32(key)
    }
}

/// The first `count` entries of an intermediate allocation, of the children from `start` on.
pub open spec fn child_entries(
    children: Seq<HeapTreeChild>,
    start: int,
    count: nat,
    key_size: u8,
) -> Seq<u8>
    decreases count,
{
    if count == 0 {
        Seq::empty()
    } else {
        let child = children[start + count - 1];
        child_entries(children, start, (count - 1) as nat, key_size) + key_bytes(
            child.key,
            key_size,
        ) + bytes::le32(child.id.value)
    }
}

/// The heap with one intermediate allocation for every group of children from `start` on, after the
/// allocations in `done`.
pub open spec fn with_heap_level(
    pages: Seq<Seq<Seq<u8>>>,
    children: Seq<HeapTreeChild>,
    start: int,
    layout: HeapTreeLayout,
    done: Seq<HeapTreeChild>,
) -> (Seq<Seq<Seq<u8>>>, Result<Seq<HeapTreeChild>, PstError>)
    decreases children.len() - start,
    when layout.group > 0
{
    if start >= children.len() {
        (pages, Ok(done))
    } else {
        let end = levels::group_end(start, layout.group as int, children.len() as int);
        match heap::heap_alloc(
            pages,
            child_entries(children, start, (end - start) as nat, layout.key_size),
        ) {
            (after, Err(error)) => (after, Err(error)),
            (after, Ok(id)) => with_heap_level(
                after,
                children,
                end,
                layout,
                done.push(HeapTreeChild { key: children[start].key, id }),
            ),
        }
    }
}

pub proof fn lemma_heap_level_length(
    pages: Seq<Seq<Seq<u8>>>,
    children: Seq<HeapTreeChild>,
    start: int,
    layout: HeapTreeLayout,
    done: Seq<HeapTreeChild>,
)
    requires
        0 <= start <= children.len(),
        layout.group >= 4,
    ensures
        with_heap_level(pages, children, start, layout, done).1 matches Ok(next) ==> done.len()
            <= next.len() && 4 * (next.len() - done.len()) <= children.len() - start + 3 && (start
            < children.len() ==> done.len() < next.len()),
    decreases children.len() - start,
{
    if start < children.len() {
        let end = levels::group_end(start, layout.group as int, children.len() as int);
        if let (after, Ok(id)) = heap::heap_alloc(
            pages,
            child_entries(children, start, (end - start) as nat, layout.key_size),
        ) {
            lemma_heap_level_length(
                after,
                children,
                end,
                layout,
                done.push(HeapTreeChild { key: children[start].key, id }),
            );
        }
    }
}

/// The header of a tree.
pub open spec fn tree_header(layout: HeapTreeLayout, levels: u8, root: HeapId) -> Seq<u8> {
    seq![0xB5u8, layout.key_size, layout.entry_size, levels] + bytes::le32(root.value)
}

/// The heap with the intermediate levels above `children` and the header of the tree, and the
/// identifier of the header. A tree without children has no root.
pub open spec fn with_heap_tree(
    pages: Seq<Seq<Seq<u8>>>,
    children: Seq<HeapTreeChild>,
    layout: HeapTreeLayout,
    levels: u8,
) -> (Seq<Seq<Seq<u8>>>, Result<HeapId, PstError>)
    decreases children.len(),
    when layout.group >= 4
{
    if children.len() <= 1 {
        let root = if children.len() == 0 {
            HeapId { value: 0 }
        } else {
            children[0].id
        };
        heap::heap_alloc(pages, tree_header(layout, levels, root))
    } else {
        proof {
            lemma_heap_level_length(pages, children, 0, layout, Seq::empty());
        }
        match with_heap_level(pages, children, 0, layout, Seq::empty()) {
            (after, Err(error)) => (after, Err(error)),
            (after, Ok(next)) => with_heap_tree(after, next, layout, (levels + 1) as u8),
        }
    }
}

/// Allocates one intermediate allocation for every group of children.
fn build_level(
    heap: &mut HeapBuilder,
    children: &Vec<HeapTreeChild>,
    layout: HeapTreeLayout,
) -> (parents: Result<Vec<HeapTreeChild>, PstError>)
    requires
        heap::heap_wf(old(heap)@),
        layout.group >= 4,
        layout.key_size == 2 ==> forall|i: int|
            0 <= i < children@.len() ==> (#[trigger] children@[i]).key <= u16::MAX,
    ensures
        (final(heap)@, crate::error::result_view(parents)) == with_heap_level(
            old(heap)@,
            children@,
            0,
            layout,
            Seq::empty(),
        ),
        heap::heap_wf(final(heap)@),
        layout.key_size == 2 ==> (parents matches Ok(parents) ==> forall|i: int|
            0 <= i < parents@.len() ==> (#[trigger] parents@[i]).key <= u16::MAX),
{
    let mut parents: Vec<HeapTreeChild> = Vec::new();
    let mut start: usize = 0;
    while start < children.len()
        invariant
            start <= children@.len(),
            heap::heap_wf(heap@),
            layout.group >= 4,
            layout.key_size == 2 ==> forall|i: int|
                0 <= i < children@.len() ==> (#[trigger] children@[i]).key <= u16::MAX,
            layout.key_size == 2 ==> forall|i: int|
                0 <= i < parents@.len() ==> (#[trigger] parents@[i]).key <= u16::MAX,
            with_heap_level(old(heap)@, children@, 0, layout, Seq::empty()) == with_heap_level(
                heap@,
                children@,
                start as int,
                layout,
                parents@,
            ),
        decreases children@.len() - start,
    {
        let end: usize = levels::next_group(start, layout.group, children.len());
        let mut data: Vec<u8> = Vec::new();
        let mut i: usize = start;
        while i < end
            invariant
                start <= i <= end <= children@.len(),
                layout.key_size == 2 ==> forall|i: int|
                    0 <= i < children@.len() ==> (#[trigger] children@[i]).key <= u16::MAX,
                data@ == child_entries(
                    children@,
                    start as int,
                    (i - start) as nat,
                    layout.key_size,
                ),
            decreases end - i,
        {
            let child: HeapTreeChild = children[i];
            if layout.key_size == 2 {
                bytes::push_u16(&mut data, child.key as u16);
            } else {
                bytes::push_u32(&mut data, child.key);
            }
            bytes::push_u32(&mut data, child.id.value);
            i += 1;
        }
        let id = heap.allocate(data)?;
        parents.push(HeapTreeChild { key: children[start].key, id });
        start = end;
    }
    Ok(parents)
}

/// Allocates the intermediate levels above `children` and the header of the tree.
pub fn build_heap_tree(
    heap: &mut HeapBuilder,
    children: Vec<HeapTreeChild>,
    layout: HeapTreeLayout,
) -> (header: Result<HeapId, PstError>)
    requires
        heap::heap_wf(old(heap)@),
        layout.group >= 4,
        layout.key_size == 2 ==> forall|i: int|
            0 <= i < children@.len() ==> (#[trigger] children@[i]).key <= u16::MAX,
    ensures
        (final(heap)@, header) == with_heap_tree(old(heap)@, children@, layout, 0),
        heap::heap_wf(final(heap)@),
{
    let mut current: Vec<HeapTreeChild> = children;
    let mut levels: u8 = 0;
    let _count: usize = current.len();
    while current.len() > 1
        invariant
            heap::heap_wf(heap@),
            layout.group >= 4,
            current@.len() <= levels::level_capacity(levels as nat) || current@.len() <= 1,
            layout.key_size == 2 ==> forall|i: int|
                0 <= i < current@.len() ==> (#[trigger] current@[i]).key <= u16::MAX,
            with_heap_tree(old(heap)@, children@, layout, 0) == with_heap_tree(
                heap@,
                current@,
                layout,
                levels,
            ),
        decreases current@.len(),
    {
        proof {
            lemma_heap_level_length(heap@, current@, 0, layout, Seq::empty());
            levels::lemma_level_capacity(levels as nat);
        }
        current = build_level(heap, &current, layout)?;
        levels += 1;
    }
    let root: HeapId = if current.len() == 0 {
        HeapId::none()
    } else {
        current[0].id
    };
    let mut header: Vec<u8> = Vec::new();
    header.push(0xB5);
    header.push(layout.key_size);
    header.push(layout.entry_size);
    header.push(levels);
    bytes::push_u32(&mut header, root.value);
    assert(header@ =~= tree_header(layout, levels, root));
    heap.allocate(header)
}

} // verus!
