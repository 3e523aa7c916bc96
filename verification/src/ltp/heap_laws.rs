//! What heaps and the trees in them give back.

use vstd::prelude::*;

use crate::bytes;
use crate::error::PstError;
use crate::ltp::heap;
use crate::ltp::heap::{HeapId, HeapNodeType};
use crate::ltp::heap_tree;
use crate::ltp::heap_tree::{HeapTreeChild, HeapTreeLayout};
use crate::ndb::block_laws;
use crate::ndb::levels;

verus! {

/// What a heap holds under an identifier.
pub open spec fn slot_data(pages: Seq<Seq<Seq<u8>>>, id: HeapId) -> Option<Seq<u8>> {
    if id.spec_block() < pages.len() && 1 <= id.spec_index() < pages[id.spec_block()].len() {
        Some(pages[id.spec_block()][id.spec_index()])
    } else {
        None
    }
}

/// Whether `after` holds everything that `before` holds, under the same identifiers.
pub open spec fn heap_keeps(before: Seq<Seq<Seq<u8>>>, after: Seq<Seq<Seq<u8>>>) -> bool {
    forall|id: HeapId|
        slot_data(before, id) is Some ==> #[trigger] slot_data(after, id) == slot_data(before, id)
}

/// An allocation keeps the heap well formed and everything that it holds, and adds the new data under
/// the identifier it returns.
pub proof fn law_alloc_reads_back(pages: Seq<Seq<Seq<u8>>>, data: Seq<u8>)
    requires
        heap::heap_wf(pages),
    ensures
        ({
            let (after, result) = heap::heap_alloc(pages, data);
            &&& heap::heap_wf(after)
            &&& heap_keeps(pages, after)
            &&& result matches Ok(id) ==> slot_data(after, id) == Some(data) && id.value != 0
                && id.value % 32 == 0
        }),
{
    heap::law_alloc_keeps_allocations(pages, data);
    let (after, result) = heap::heap_alloc(pages, data);
    assert forall|id: HeapId| slot_data(pages, id) is Some implies #[trigger] slot_data(after, id)
        == slot_data(pages, id) by {
        assert(after[id.spec_block()][id.spec_index()]
            == pages[id.spec_block()][id.spec_index()]);
    }
}

/// A finished heap gives back everything that the heap holds.
pub proof fn law_finished_heap_reads_back(
    pages: Seq<Seq<Seq<u8>>>,
    client_signature: HeapNodeType,
    user_root: HeapId,
    data: Seq<Seq<u8>>,
    id: HeapId,
)
    requires
        heap::heap_wf(pages),
        heap::finished_pages(pages, 0, Seq::empty(), client_signature, user_root) == Ok::<
            _,
            PstError,
        >(data),
        slot_data(pages, id) is Some,
    ensures
        heap::read_heap(data, id) == slot_data(pages, id),
{
    let page = id.spec_block() as u16;
    let slot = id.spec_index() as u16;
    heap::law_heap_round_trip(pages, client_signature, user_root, data, page, slot);
    heap::law_heap_id_round_trip(slot, page);
    heap::law_heap_page_sizes(pages, client_signature, user_root, data, 0);
}

/// The identifier that the header of a heap names as its root.
pub open spec fn read_user_root(data: Seq<Seq<u8>>) -> HeapId {
    HeapId { value: bytes::get32(data[0], 4) as u32 }
}

/// Whether the header of a heap has the mark of a heap, and says what the heap holds: 0x7C is a table, and 0xBC are
/// properties.
pub open spec fn heap_is_for(data: Seq<Seq<u8>>, client: u8) -> bool {
    data.len() > 0 && data[0].len() >= 12 && data[0][2] == 0xEC && data[0][3] == client
}

/// The size of an entry of an intermediate allocation.
pub open spec fn entry_start(key_size: u8, index: int) -> int {
    if key_size == 2 {
        6 * index
    } else {
        8 * index
    }
}

/// The number of entries in an intermediate allocation.
pub open spec fn entry_count(key_size: u8, size: nat) -> nat {
    if key_size == 2 {
        size / 6
    } else {
        size / 8
    }
}

/// The allocation that entry `index` of an intermediate allocation names.
pub open spec fn child_at(data: Seq<u8>, key_size: u8, index: int) -> HeapId {
    HeapId { value: bytes::get32(data, entry_start(key_size, index) + key_size) as u32 }
}

/// The key of entry `index` of an intermediate allocation.
pub open spec fn key_at(data: Seq<u8>, key_size: u8, index: int) -> int {
    if key_size == 2 {
        bytes::get16(data, entry_start(key_size, index))
    } else {
        bytes::get32(data, entry_start(key_size, index))
    }
}

/// The key of the first of the records in a leaf.
pub open spec fn first_key(records: Seq<u8>, key_size: u8) -> int {
    if key_size == 2 {
        bytes::get16(records, 0)
    } else {
        bytes::get32(records, 0)
    }
}

/// The records of a tree below an allocation, `level` levels above the leaves, one after the other. Every
/// intermediate allocation has to name the first key below each child.
pub open spec fn read_tree(
    lookup: spec_fn(HeapId) -> Option<Seq<u8>>,
    id: HeapId,
    key_size: u8,
    level: nat,
) -> Option<Seq<u8>>
    decreases level, 0nat,
{
    match lookup(id) {
        None => None,
        Some(data) => if level == 0 {
            Some(data)
        } else {
            read_children(
                lookup,
                data,
                key_size,
                (level - 1) as nat,
                entry_count(key_size, data.len()),
            )
        },
    }
}

/// The records below the first `count` entries of an intermediate allocation.
pub open spec fn read_children(
    lookup: spec_fn(HeapId) -> Option<Seq<u8>>,
    data: Seq<u8>,
    key_size: u8,
    level: nat,
    count: nat,
) -> Option<Seq<u8>>
    decreases level, count + 1,
{
    if count == 0 {
        Some(Seq::empty())
    } else {
        match (
            read_children(lookup, data, key_size, level, (count - 1) as nat),
            read_tree(lookup, child_at(data, key_size, count - 1), key_size, level),
        ) {
            (Some(before), Some(last)) => if last.len() >= key_size && key_at(
                data,
                key_size,
                count - 1,
            ) == first_key(last, key_size) {
                Some(before + last)
            } else {
                None
            },
            _ => None,
        }
    }
}

/// The records of the tree whose header an allocation holds, where its keys and records have the given
/// sizes.
pub open spec fn read_records(
    lookup: spec_fn(HeapId) -> Option<Seq<u8>>,
    header: HeapId,
    key_size: u8,
    entry_size: u8,
) -> Option<Seq<u8>> {
    match lookup(header) {
        None => None,
        Some(data) => {
            let root = HeapId { value: bytes::get32(data, 4) as u32 };
            if data.len() != 8 || data[0] != 0xB5 || data[1] != key_size || data[2]
                != entry_size {
                None
            } else if root.value == 0 {
                Some(Seq::empty())
            } else {
                read_tree(lookup, root, key_size, data[3] as nat)
            }
        },
    }
}

/// Whether `after` finds everything that `before` finds.
pub open spec fn finds_more(
    before: spec_fn(HeapId) -> Option<Seq<u8>>,
    after: spec_fn(HeapId) -> Option<Seq<u8>>,
) -> bool {
    forall|id: HeapId| before(id) is Some ==> #[trigger] after(id) == before(id)
}

proof fn lemma_read_tree_grows(
    before: spec_fn(HeapId) -> Option<Seq<u8>>,
    after: spec_fn(HeapId) -> Option<Seq<u8>>,
    id: HeapId,
    key_size: u8,
    level: nat,
)
    requires
        finds_more(before, after),
        read_tree(before, id, key_size, level) is Some,
    ensures
        read_tree(after, id, key_size, level) == read_tree(before, id, key_size, level),
    decreases level, 0nat,
{
    assert(after(id) == before(id));
    if level > 0 {
        let data = before(id)->Some_0;
        lemma_read_children_grows(
            before,
            after,
            data,
            key_size,
            (level - 1) as nat,
            entry_count(key_size, data.len()),
        );
    }
}

proof fn lemma_read_children_grows(
    before: spec_fn(HeapId) -> Option<Seq<u8>>,
    after: spec_fn(HeapId) -> Option<Seq<u8>>,
    data: Seq<u8>,
    key_size: u8,
    level: nat,
    count: nat,
)
    requires
        finds_more(before, after),
        read_children(before, data, key_size, level, count) is Some,
    ensures
        read_children(after, data, key_size, level, count) == read_children(
            before,
            data,
            key_size,
            level,
            count,
        ),
    decreases level, count + 1,
{
    if count > 0 {
        lemma_read_children_grows(before, after, data, key_size, level, (count - 1) as nat);
        lemma_read_tree_grows(
            before,
            after,
            child_at(data, key_size, count - 1),
            key_size,
            level,
        );
    }
}

/// What can be read of a tree can still be read where more is found.
pub proof fn law_read_records_grows(
    before: spec_fn(HeapId) -> Option<Seq<u8>>,
    after: spec_fn(HeapId) -> Option<Seq<u8>>,
    header: HeapId,
    key_size: u8,
    entry_size: u8,
)
    requires
        finds_more(before, after),
        read_records(before, header, key_size, entry_size) is Some,
    ensures
        read_records(after, header, key_size, entry_size) == read_records(
            before,
            header,
            key_size,
            entry_size,
        ),
{
    assert(after(header) == before(header));
    let data = before(header)->Some_0;
    let root = HeapId { value: bytes::get32(data, 4) as u32 };
    if root.value != 0 {
        lemma_read_tree_grows(before, after, root, key_size, data[3] as nat);
    }
}

/// What a heap finds.
pub open spec fn in_heap(pages: Seq<Seq<Seq<u8>>>) -> spec_fn(HeapId) -> Option<Seq<u8>> {
    |id: HeapId| slot_data(pages, id)
}

/// What a finished heap finds.
pub open spec fn in_pages(data: Seq<Seq<u8>>) -> spec_fn(HeapId) -> Option<Seq<u8>> {
    |id: HeapId| heap::read_heap(data, id)
}

/// Whether every child is the root of a tree with the given records, and has the key of the first of them.
pub open spec fn children_hold(
    pages: Seq<Seq<Seq<u8>>>,
    children: Seq<HeapTreeChild>,
    parts: Seq<Seq<u8>>,
    key_size: u8,
    level: nat,
) -> bool {
    &&& children.len() == parts.len()
    &&& forall|i: int|
        0 <= i < children.len() ==> read_tree(
            in_heap(pages),
            (#[trigger] children[i]).id,
            key_size,
            level,
        ) == Some(parts[i]) && parts[i].len() >= key_size && children[i].key == first_key(
            parts[i],
            key_size,
        )
}

pub proof fn lemma_children_hold_grows(
    before: Seq<Seq<Seq<u8>>>,
    after: Seq<Seq<Seq<u8>>>,
    children: Seq<HeapTreeChild>,
    parts: Seq<Seq<u8>>,
    key_size: u8,
    level: nat,
)
    requires
        heap_keeps(before, after),
        children_hold(before, children, parts, key_size, level),
    ensures
        children_hold(after, children, parts, key_size, level),
{
    assert(finds_more(in_heap(before), in_heap(after))) by {
        assert forall|id: HeapId| in_heap(before)(id) is Some implies #[trigger] in_heap(after)(id)
            == in_heap(before)(id) by {
            assert(slot_data(after, id) == slot_data(before, id));
        }
    }
    assert forall|i: int| 0 <= i < children.len() implies read_tree(
        in_heap(after),
        (#[trigger] children[i]).id,
        key_size,
        level,
    ) == Some(parts[i]) && parts[i].len() >= key_size && children[i].key == first_key(
        parts[i],
        key_size,
    ) by {
        lemma_read_tree_grows(in_heap(before), in_heap(after), children[i].id, key_size, level);
    }
}

proof fn lemma_child_entries(
    children: Seq<HeapTreeChild>,
    start: int,
    count: nat,
    key_size: u8,
    index: int,
)
    requires
        key_size == 2 || key_size == 4,
        0 <= index < count,
    ensures
        heap_tree::child_entries(children, start, count, key_size).len() == entry_start(
            key_size,
            count as int,
        ),
        child_at(
            heap_tree::child_entries(children, start, count, key_size),
            key_size,
            index,
        ) == children[start + index].id,
        key_size == 4 || children[start + index].key <= u16::MAX ==> key_at(
            heap_tree::child_entries(children, start, count, key_size),
            key_size,
            index,
        ) == children[start + index].key,
    decreases count,
{
    let data = heap_tree::child_entries(children, start, count, key_size);
    let before = heap_tree::child_entries(children, start, (count - 1) as nat, key_size);
    let child = children[start + count - 1];
    if count > 1 {
        lemma_child_entries(
            children,
            start,
            (count - 1) as nat,
            key_size,
            if index < count - 1 {
                index
            } else {
                0
            },
        );
    } else {
        assert(before =~= Seq::empty());
    }
    let at = entry_start(key_size, index) + key_size;
    let from = entry_start(key_size, index);
    if index == count - 1 {
        if key_size == 2 {
            assert(data.subrange(from, from + 2) =~= bytes::le16(child.key as u16));
            bytes::lemma_get16_le16(data, from, child.key as u16);
        } else {
            assert(data.subrange(from, from + 4) =~= bytes::le32(child.key));
            bytes::lemma_get32_le32(data, from, child.key);
        }
        assert(data.subrange(at, at + 4) =~= bytes::le32(child.id.value));
        bytes::lemma_get32_le32(data, at, child.id.value);
    } else {
        assert(data[from] == before[from]);
        assert(data[from + 1] == before[from + 1]);
        assert(data[from + 2] == before[from + 2]);
        assert(data[from + 3] == before[from + 3]);
        assert(data[at] == before[at]);
        assert(data[at + 1] == before[at + 1]);
        assert(data[at + 2] == before[at + 2]);
        assert(data[at + 3] == before[at + 3]);
    }
}

proof fn lemma_group_reads(
    pages: Seq<Seq<Seq<u8>>>,
    children: Seq<HeapTreeChild>,
    parts: Seq<Seq<u8>>,
    start: int,
    total: nat,
    count: nat,
    key_size: u8,
    level: nat,
)
    requires
        key_size == 2 || key_size == 4,
        children_hold(pages, children, parts, key_size, level),
        0 <= start,
        start + total <= children.len(),
        count <= total,
    ensures
        read_children(
            in_heap(pages),
            heap_tree::child_entries(children, start, total, key_size),
            key_size,
            level,
            count,
        ) == Some(block_laws::joined(parts, start, start + count)),
    decreases count,
{
    if count > 0 {
        lemma_group_reads(
            pages,
            children,
            parts,
            start,
            total,
            (count - 1) as nat,
            key_size,
            level,
        );
        lemma_child_entries(children, start, total, key_size, count - 1);
        assert(children_hold(pages, children, parts, key_size, level));
        assert(read_tree(in_heap(pages), children[start + count - 1].id, key_size, level) == Some(
            parts[start + count - 1],
        ));
    }
}

/// Joined records start with the first of them.
pub proof fn lemma_joined_starts(parts: Seq<Seq<u8>>, start: int, end: int, key_size: u8)
    requires
        0 <= start < end,
        key_size == 2 || key_size == 4,
        parts[start].len() >= key_size,
    ensures
        block_laws::joined(parts, start, end).len() >= key_size,
        first_key(block_laws::joined(parts, start, end), key_size) == first_key(
            parts[start],
            key_size,
        ),
    decreases end - start,
{
    let whole = block_laws::joined(parts, start, end);
    if end == start + 1 {
        assert(block_laws::joined(parts, start, start) =~= Seq::empty());
        assert(whole =~= parts[start]);
    } else {
        lemma_joined_starts(parts, start, end - 1, key_size);
        let before = block_laws::joined(parts, start, end - 1);
        assert(whole[0] == before[0]);
        assert(whole[1] == before[1]);
        if key_size == 4 {
            assert(whole[2] == before[2]);
            assert(whole[3] == before[3]);
        }
    }
}

proof fn lemma_heap_level(
    pages: Seq<Seq<Seq<u8>>>,
    children: Seq<HeapTreeChild>,
    parts: Seq<Seq<u8>>,
    start: int,
    layout: HeapTreeLayout,
    done: Seq<HeapTreeChild>,
    done_parts: Seq<Seq<u8>>,
    level: nat,
)
    requires
        layout.key_size == 2 || layout.key_size == 4,
        layout.group >= 4,
        heap::heap_wf(pages),
        0 <= start <= children.len(),
        children_hold(pages, children, parts, layout.key_size, level),
        children_hold(pages, done, done_parts, layout.key_size, level + 1),
    ensures
        ({
            let (after, result) = heap_tree::with_heap_level(
                pages,
                children,
                start,
                layout,
                done,
            );
            &&& heap::heap_wf(after)
            &&& heap_keeps(pages, after)
            &&& result matches Ok(next) ==> children_hold(
                after,
                next,
                done_parts + block_laws::level_parts(parts, start, layout.group as int),
                layout.key_size,
                level + 1,
            )
        }),
    decreases children.len() - start,
{
    let key_size = layout.key_size;
    let size = layout.group as int;
    if start < children.len() {
        let end = levels::group_end(start, size, children.len() as int);
        let total = (end - start) as nat;
        let data = heap_tree::child_entries(children, start, total, key_size);
        law_alloc_reads_back(pages, data);
        if let (after, Ok(id)) = heap::heap_alloc(pages, data) {
            let whole = block_laws::joined(parts, start, end);
            let next = done.push(HeapTreeChild { key: children[start].key, id });
            let next_parts = done_parts.push(whole);
            lemma_children_hold_grows(pages, after, children, parts, key_size, level);
            lemma_children_hold_grows(pages, after, done, done_parts, key_size, level + 1);
            lemma_group_reads(after, children, parts, start, total, total, key_size, level);
            lemma_child_entries(children, start, total, key_size, 0);
            assert(in_heap(after)(id) == Some(data));
            assert(entry_count(key_size, data.len()) == total);
            assert(read_tree(in_heap(after), id, key_size, level + 1) == Some(whole));
            lemma_joined_starts(parts, start, end, key_size);
            assert(children[start].key == first_key(parts[start], key_size));
            assert(children_hold(after, next, next_parts, key_size, level + 1)) by {
                assert forall|i: int| 0 <= i < next.len() implies read_tree(
                    in_heap(after),
                    (#[trigger] next[i]).id,
                    key_size,
                    level + 1,
                ) == Some(next_parts[i]) && next_parts[i].len() >= key_size && next[i].key
                    == first_key(next_parts[i], key_size) by {
                    if i < done.len() {
                        assert(next[i] == done[i]);
                    }
                }
            }
            lemma_heap_level(after, children, parts, end, layout, next, next_parts, level);
            assert(next_parts + block_laws::level_parts(parts, end, size) =~= done_parts
                + block_laws::level_parts(parts, start, size));
        }
    } else {
        assert(done_parts + block_laws::level_parts(parts, start, size) =~= done_parts);
    }
}

/// A tree in a heap gives back the records of its children, in their order.
pub proof fn law_heap_tree_reads_back(
    pages: Seq<Seq<Seq<u8>>>,
    children: Seq<HeapTreeChild>,
    parts: Seq<Seq<u8>>,
    layout: HeapTreeLayout,
    level: u8,
)
    requires
        layout.key_size == 2 || layout.key_size == 4,
        layout.group >= 4,
        heap::heap_wf(pages),
        children.len() <= levels::level_capacity(level as nat) || children.len() <= 1,
        children_hold(pages, children, parts, layout.key_size, level as nat),
    ensures
        ({
            let (after, result) = heap_tree::with_heap_tree(pages, children, layout, level);
            &&& heap::heap_wf(after)
            &&& heap_keeps(pages, after)
            &&& result matches Ok(header) ==> header.value != 0 && read_records(
                in_heap(after),
                header,
                layout.key_size,
                layout.entry_size,
            ) == Some(block_laws::joined(parts, 0, parts.len() as int))
        }),
    decreases children.len(),
{
    let key_size = layout.key_size;
    if children.len() <= 1 {
        let root = if children.len() == 0 {
            HeapId { value: 0 }
        } else {
            children[0].id
        };
        let data = heap_tree::tree_header(layout, level, root);
        law_alloc_reads_back(pages, data);
        if let (after, Ok(header)) = heap::heap_alloc(pages, data) {
            assert(in_heap(after)(header) == Some(data));
            assert(data.subrange(4, 8) =~= bytes::le32(root.value));
            bytes::lemma_get32_le32(data, 4, root.value);
            if children.len() == 1 {
                lemma_children_hold_grows(pages, after, children, parts, key_size, level as nat);
                assert(read_tree(in_heap(after), children[0].id, key_size, level as nat) == Some(
                    parts[0],
                ));
                assert(slot_data(after, root) is Some) by {
                    assert(in_heap(after)(root) is Some);
                }
                assert(block_laws::joined(parts, 0, 0) =~= Seq::empty());
                assert(block_laws::joined(parts, 0, 1) =~= parts[0]);
            }
        }
    } else {
        heap_tree::lemma_heap_level_length(pages, children, 0, layout, Seq::empty());
        levels::lemma_level_capacity(level as nat);
        lemma_heap_level(
            pages,
            children,
            parts,
            0,
            layout,
            Seq::empty(),
            Seq::empty(),
            level as nat,
        );
        let (after, result) = heap_tree::with_heap_level(
            pages,
            children,
            0,
            layout,
            Seq::empty(),
        );
        if let Ok(next) = result {
            let above = block_laws::level_parts(parts, 0, layout.group as int);
            assert(Seq::<Seq<u8>>::empty() + above =~= above);
            law_heap_tree_reads_back(after, next, above, layout, (level + 1) as u8);
            block_laws::lemma_level_parts_join(parts, 0, layout.group as int);
        }
    }
}

/// Finished heap pages fill their blocks.
pub proof fn lemma_heap_pages_full(
    pages: Seq<Seq<Seq<u8>>>,
    client_signature: HeapNodeType,
    user_root: HeapId,
    data: Seq<Seq<u8>>,
)
    requires
        heap::heap_wf(pages),
        heap::finished_pages(pages, 0, Seq::empty(), client_signature, user_root) == Ok::<
            _,
            PstError,
        >(data),
    ensures
        block_laws::chunks_full(data),
{
    heap::law_heap_page_sizes(pages, client_signature, user_root, data, pages.len() - 1);
    heap::law_heap_page_not_empty(pages, client_signature, user_root, data, pages.len() - 1);
    assert forall|i: int| 0 <= i < data.len() - 1 implies (#[trigger] data[i]).len()
        == heap::MAX_DATA_BLOCK_SIZE by {
        heap::law_heap_page_sizes(pages, client_signature, user_root, data, i);
    }
}

} // verus!
