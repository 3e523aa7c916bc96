//! How large heaps, property contexts and tables become. That depends on how long their values are, and
//! not on what the values are.

use vstd::prelude::*;

use crate::bytes;
use crate::ltp::heap;
use crate::ltp::heap::{HeapId, HeapNodeType};
use crate::ltp::heap_tree;
use crate::ltp::heap_tree::{HeapTreeChild, HeapTreeLayout, HEAP_TREE_LEAF_CAPACITY};
use crate::ltp::property::EncodedValue;
use crate::ltp::property_context;
use crate::ltp::property_context::{PlacedProperties, PropertyTreeRecord, SimpleContents};
use crate::ltp::rebuild;
use crate::ltp::rebuild::RowsSoFar;
use crate::ltp::table;
use crate::ltp::table::{CellContents, TableLayout};
use crate::ndb::ids::NodeId;
use crate::ndb::levels;
use crate::sorting;

verus! {

/// Whether two lists hold byte strings of the same lengths.
pub open spec fn same_lengths(left: Seq<Seq<u8>>, right: Seq<Seq<u8>>) -> bool {
    left.len() == right.len() && forall|i: int|
        0 <= i < left.len() ==> (#[trigger] left[i]).len() == (#[trigger] right[i]).len()
}

/// Whether two heaps have slots of the same lengths.
pub open spec fn same_shape(left: Seq<Seq<Seq<u8>>>, right: Seq<Seq<Seq<u8>>>) -> bool {
    left.len() == right.len() && forall|i: int|
        0 <= i < left.len() ==> same_lengths(#[trigger] left[i], #[trigger] right[i])
}

pub proof fn lemma_same_total(left: Seq<Seq<u8>>, right: Seq<Seq<u8>>, count: nat)
    requires
        same_lengths(left, right),
        count <= left.len(),
    ensures
        bytes::length_prefix(left, count) == bytes::length_prefix(right, count),
    decreases count,
{
    if count > 0 {
        lemma_same_total(left, right, (count - 1) as nat);
        assert(left[count - 1].len() == right[count - 1].len());
    }
}

proof fn lemma_same_alloc(
    left: Seq<Seq<Seq<u8>>>,
    right: Seq<Seq<Seq<u8>>>,
    first: Seq<u8>,
    second: Seq<u8>,
)
    requires
        heap::heap_wf(left),
        same_shape(left, right),
        first.len() == second.len(),
    ensures
        heap::heap_wf(heap::heap_alloc(left, first).0),
        same_shape(heap::heap_alloc(left, first).0, heap::heap_alloc(right, second).0),
        heap::heap_alloc(left, first).1 == heap::heap_alloc(right, second).1,
{
    let last = left.len() - 1;
    assert(same_lengths(left[last], right[last]));
    lemma_same_total(left[last], right[last], left[last].len());
    let fresh = seq![Seq::<u8>::empty()];
    let (wide, broad) = (left.push(fresh), right.push(fresh));
    assert(same_shape(wide, broad)) by {
        assert forall|i: int| 0 <= i < wide.len() implies same_lengths(
            #[trigger] wide[i],
            #[trigger] broad[i],
        ) by {
            if i < left.len() {
                assert(same_lengths(left[i], right[i]));
            }
        }
    }
    lemma_same_store(left, right, first, second);
    lemma_same_store(wide, broad, first, second);
}

proof fn lemma_same_store(
    left: Seq<Seq<Seq<u8>>>,
    right: Seq<Seq<Seq<u8>>>,
    first: Seq<u8>,
    second: Seq<u8>,
)
    requires
        heap::heap_wf(left),
        same_shape(left, right),
        first.len() == second.len(),
    ensures
        heap::heap_wf(heap::heap_store(left, first).0),
        same_shape(heap::heap_store(left, first).0, heap::heap_store(right, second).0),
        heap::heap_store(left, first).1 == heap::heap_store(right, second).1,
{
    let last = left.len() - 1;
    assert(same_lengths(left[last], right[last]));
    let (after, other) = (heap::heap_store(left, first).0, heap::heap_store(right, second).0);
    assert forall|i: int| 0 <= i < after.len() implies same_lengths(
        #[trigger] after[i],
        #[trigger] other[i],
    ) by {
        assert(same_lengths(left[i], right[i]));
        if after[i] != left[i] {
            let (slots, others) = (left[last].push(first), right[last].push(second));
            assert forall|j: int| 0 <= j < slots.len() implies (#[trigger] slots[j]).len() == (
            #[trigger] others[j]).len() by {
                if j < left[last].len() {
                    assert(left[last][j].len() == right[last][j].len());
                }
            }
        }
    }
}

proof fn lemma_slot_table_length(slots: Seq<Seq<u8>>, count: nat)
    ensures
        heap::slot_offsets(slots, count).len() == 2 * count,
    decreases count,
{
    if count > 0 {
        lemma_slot_table_length(slots, (count - 1) as nat);
    }
}

proof fn lemma_heap_page_length(slots: Seq<Seq<u8>>, free_count: u16)
    ensures
        heap::heap_page(slots, free_count).len() == heap::round_to_even(bytes::total_length(slots))
            + 4 + 2 * slots.len(),
{
    bytes::lemma_concat_length(slots, slots.len());
    lemma_slot_table_length(slots, slots.len());
}

proof fn lemma_same_page(
    page: int,
    last: bool,
    left: Seq<Seq<u8>>,
    right: Seq<Seq<u8>>,
    client: HeapNodeType,
    first: HeapId,
    second: HeapId,
)
    requires
        0 <= page,
        left.len() > 0,
        same_lengths(left, right),
    ensures
        heap::finished_page(page, last, left, client, first) matches Ok(data) ==> (
        heap::finished_page(page, last, right, client, second) matches Ok(other) ==> data.len()
            == other.len()),
{
    lemma_same_total(left, right, left.len());
    assert(left[0].len() == right[0].len());
    if let Ok(slots) = heap::filled_slots(page, last, left) {
        if let Ok(others) = heap::filled_slots(page, last, right) {
            assert forall|i: int| 0 <= i < slots.len() implies (#[trigger] slots[i]).len() == (
            #[trigger] others[i]).len() by {
                if i < left.len() {
                    assert(left[i].len() == right[i].len());
                }
            }
            lemma_same_total(slots, others, slots.len());
            assert(slots[0].len() == others[0].len());
            let size = (heap::spec_header_size(page) + heap::allocated_length(slots)) as nat;
            let map = heap::round_to_even(size) as u16;
            let header = heap::heap_page_header(page, map, client, first);
            let other = heap::heap_page_header(page, map, client, second);
            let parts = slots.update(0, header);
            let other_parts = others.update(0, other);
            assert(same_lengths(parts, other_parts)) by {
                assert forall|i: int| 0 <= i < parts.len() implies (#[trigger] parts[i]).len() == (
                #[trigger] other_parts[i]).len() by {
                    if i > 0 {
                        assert(slots[i].len() == others[i].len());
                    }
                }
            }
            lemma_same_total(parts, other_parts, parts.len());
            lemma_heap_page_length(parts, heap::empty_slots(slots, slots.len()) as u16);
            lemma_heap_page_length(other_parts, heap::empty_slots(others, others.len()) as u16);
        }
    }
}

proof fn lemma_same_pages(
    left: Seq<Seq<Seq<u8>>>,
    right: Seq<Seq<Seq<u8>>>,
    page: int,
    done: Seq<Seq<u8>>,
    other: Seq<Seq<u8>>,
    client: HeapNodeType,
    first: HeapId,
    second: HeapId,
)
    requires
        0 <= page <= left.len(),
        heap::heap_wf(left),
        same_shape(left, right),
        same_lengths(done, other),
    ensures
        heap::finished_pages(left, page, done, client, first) matches Ok(data) ==> (
        heap::finished_pages(right, page, other, client, second) matches Ok(others)
            ==> same_lengths(data, others)),
    decreases left.len() - page,
{
    if page < left.len() {
        let last = page + 1 == left.len();
        assert(same_lengths(left[page], right[page]));
        lemma_same_page(page, last, left[page], right[page], client, first, second);
        if let Ok(data) = heap::finished_page(page, last, left[page], client, first) {
            if let Ok(others) = heap::finished_page(page, last, right[page], client, second) {
                lemma_same_push(done, other, data, others);
                lemma_same_pages(
                    left,
                    right,
                    page + 1,
                    done.push(data),
                    other.push(others),
                    client,
                    first,
                    second,
                );
            }
        }
    }
}

proof fn lemma_same_push(
    left: Seq<Seq<u8>>,
    right: Seq<Seq<u8>>,
    first: Seq<u8>,
    second: Seq<u8>,
)
    requires
        same_lengths(left, right),
        first.len() == second.len(),
    ensures
        same_lengths(left.push(first), right.push(second)),
{
    let (all, others) = (left.push(first), right.push(second));
    assert forall|i: int| 0 <= i < all.len() implies (#[trigger] all[i]).len() == (
    #[trigger] others[i]).len() by {
        if i < left.len() {
            assert(left[i].len() == right[i].len());
        }
    }
}

/// A heap is finished with a page size for each page that only depends on the lengths of its slots.
pub proof fn lemma_same_heap(
    left: Seq<Seq<Seq<u8>>>,
    right: Seq<Seq<Seq<u8>>>,
    client: HeapNodeType,
    first: HeapId,
    second: HeapId,
)
    requires
        heap::heap_wf(left),
        same_shape(left, right),
    ensures
        heap::finished_pages(left, 0, Seq::empty(), client, first) matches Ok(data) ==> (
        heap::finished_pages(right, 0, Seq::empty(), client, second) matches Ok(others)
            ==> same_lengths(data, others)),
{
    lemma_same_pages(left, right, 0, Seq::empty(), Seq::empty(), client, first, second);
}

proof fn lemma_child_entries_length(
    children: Seq<HeapTreeChild>,
    start: int,
    count: nat,
    key_size: u8,
)
    ensures
        heap_tree::child_entries(children, start, count, key_size).len() == count * (if key_size
            == 2 {
            6int
        } else {
            8int
        }),
    decreases count,
{
    if count > 0 {
        lemma_child_entries_length(children, start, (count - 1) as nat, key_size);
    }
}

proof fn lemma_same_level(
    left: Seq<Seq<Seq<u8>>>,
    right: Seq<Seq<Seq<u8>>>,
    first: Seq<HeapTreeChild>,
    second: Seq<HeapTreeChild>,
    start: int,
    layout: HeapTreeLayout,
    done: Seq<HeapTreeChild>,
    other: Seq<HeapTreeChild>,
)
    requires
        0 <= start,
        layout.group > 0,
        heap::heap_wf(left),
        same_shape(left, right),
        first.len() == second.len(),
        done.len() == other.len(),
    ensures
        ({
            let (after, result) = heap_tree::with_heap_level(left, first, start, layout, done);
            let (others, other_result) = heap_tree::with_heap_level(
                right,
                second,
                start,
                layout,
                other,
            );
            &&& heap::heap_wf(after)
            &&& same_shape(after, others)
            &&& result matches Ok(children) ==> (other_result matches Ok(other_children)
                ==> children.len() == other_children.len())
        }),
    decreases first.len() - start,
{
    if start < first.len() {
        let end = levels::group_end(start, layout.group as int, first.len() as int);
        let count = (end - start) as nat;
        let data = heap_tree::child_entries(first, start, count, layout.key_size);
        let other_data = heap_tree::child_entries(second, start, count, layout.key_size);
        lemma_child_entries_length(first, start, count, layout.key_size);
        lemma_child_entries_length(second, start, count, layout.key_size);
        lemma_same_alloc(left, right, data, other_data);
        let (after, result) = heap::heap_alloc(left, data);
        let (others, _) = heap::heap_alloc(right, other_data);
        if let Ok(id) = result {
            lemma_same_level(
                after,
                others,
                first,
                second,
                end,
                layout,
                done.push(HeapTreeChild { key: first[start].key, id }),
                other.push(HeapTreeChild { key: second[start].key, id }),
            );
        }
    }
}

proof fn lemma_same_tree(
    left: Seq<Seq<Seq<u8>>>,
    right: Seq<Seq<Seq<u8>>>,
    first: Seq<HeapTreeChild>,
    second: Seq<HeapTreeChild>,
    layout: HeapTreeLayout,
    levels: u8,
)
    requires
        layout.group >= 4,
        heap::heap_wf(left),
        same_shape(left, right),
        first.len() == second.len(),
    ensures
        heap::heap_wf(heap_tree::with_heap_tree(left, first, layout, levels).0),
        heap_tree::with_heap_tree(left, first, layout, levels).1 is Ok
            && heap_tree::with_heap_tree(right, second, layout, levels).1 is Ok ==> same_shape(
            heap_tree::with_heap_tree(left, first, layout, levels).0,
            heap_tree::with_heap_tree(right, second, layout, levels).0,
        ),
    decreases first.len(),
{
    if first.len() <= 1 {
        let root = if first.len() == 0 {
            HeapId { value: 0 }
        } else {
            first[0].id
        };
        let other = if first.len() == 0 {
            HeapId { value: 0 }
        } else {
            second[0].id
        };
        lemma_same_alloc(
            left,
            right,
            heap_tree::tree_header(layout, levels, root),
            heap_tree::tree_header(layout, levels, other),
        );
    } else {
        let nothing = Seq::<HeapTreeChild>::empty();
        lemma_same_level(left, right, first, second, 0, layout, nothing, nothing);
        heap_tree::lemma_heap_level_length(left, first, 0, layout, nothing);
        let (after, result) = heap_tree::with_heap_level(left, first, 0, layout, nothing);
        let (others, other_result) = heap_tree::with_heap_level(right, second, 0, layout, nothing);
        if let Ok(children) = result {
            if let Ok(other_children) = other_result {
                lemma_same_tree(
                    after,
                    others,
                    children,
                    other_children,
                    layout,
                    (levels + 1) as u8,
                );
            } else {
                lemma_same_tree(after, after, children, children, layout, (levels + 1) as u8);
            }
        }
    }
}

proof fn lemma_same_reflexive(pages: Seq<Seq<Seq<u8>>>)
    ensures
        same_shape(pages, pages),
{
}

proof fn lemma_records_length(records: Seq<PropertyTreeRecord>, start: int, count: nat)
    ensures
        property_context::records_bytes(records, start, count).len() == 8 * count,
    decreases count,
{
    if count > 0 {
        lemma_records_length(records, start, (count - 1) as nat);
    }
}

proof fn lemma_same_leaves(
    left: Seq<Seq<Seq<u8>>>,
    right: Seq<Seq<Seq<u8>>>,
    first: Seq<PropertyTreeRecord>,
    second: Seq<PropertyTreeRecord>,
    start: int,
    done: Seq<HeapTreeChild>,
    other: Seq<HeapTreeChild>,
)
    requires
        0 <= start,
        heap::heap_wf(left),
        same_shape(left, right),
        first.len() == second.len(),
        done.len() == other.len(),
    ensures
        ({
            let (after, result) = property_context::with_property_leaves(left, first, start, done);
            let (others, other_result) = property_context::with_property_leaves(
                right,
                second,
                start,
                other,
            );
            &&& heap::heap_wf(after)
            &&& same_shape(after, others)
            &&& result matches Ok(children) ==> (other_result matches Ok(other_children)
                ==> children.len() == other_children.len())
        }),
    decreases first.len() - start,
{
    if start < first.len() {
        let end = levels::group_end(start, HEAP_TREE_LEAF_CAPACITY as int, first.len() as int);
        let count = (end - start) as nat;
        let data = property_context::records_bytes(first, start, count);
        let other_data = property_context::records_bytes(second, start, count);
        lemma_records_length(first, start, count);
        lemma_records_length(second, start, count);
        lemma_same_alloc(left, right, data, other_data);
        let (after, result) = heap::heap_alloc(left, data);
        let (others, _) = heap::heap_alloc(right, other_data);
        if let Ok(id) = result {
            lemma_same_leaves(
                after,
                others,
                first,
                second,
                end,
                done.push(HeapTreeChild { key: first[start].id as u32, id }),
                other.push(HeapTreeChild { key: second[start].id as u32, id }),
            );
        }
    }
}

/// Whether two lists of properties have values of the same types and lengths, in the same order.
pub open spec fn same_properties(
    left: Seq<(u16, EncodedValue)>,
    right: Seq<(u16, EncodedValue)>,
) -> bool {
    left.len() == right.len() && forall|i: int|
        0 <= i < left.len() ==> (#[trigger] left[i]).1.prop_type == (
        #[trigger] right[i]).1.prop_type && left[i].1.data.len() == right[i].1.data.len()
}

/// Whether two lists of values in subnodes have the same lengths.
pub open spec fn same_external(
    left: Seq<(NodeId, Seq<u8>)>,
    right: Seq<(NodeId, Seq<u8>)>,
) -> bool {
    left.len() == right.len() && forall|i: int|
        0 <= i < left.len() ==> (#[trigger] left[i]).1.len() == (#[trigger] right[i]).1.len()
}

spec fn same_placed(left: PlacedProperties, right: PlacedProperties) -> bool {
    &&& heap::heap_wf(left.pages)
    &&& same_shape(left.pages, right.pages)
    &&& same_external(left.external, right.external)
    &&& left.next_index == right.next_index
    &&& left.records.len() == right.records.len()
}

proof fn lemma_same_placing(
    left: PlacedProperties,
    right: PlacedProperties,
    first: Seq<(u16, EncodedValue)>,
    second: Seq<(u16, EncodedValue)>,
    index: int,
)
    requires
        0 <= index,
        same_placed(left, right),
        same_properties(first, second),
    ensures
        property_context::with_properties(left, first, index) matches Ok(after) ==> (
        property_context::with_properties(right, second, index) matches Ok(other) ==> same_placed(
            after,
            other,
        )),
    decreases first.len() - index,
{
    if index < first.len() {
        let (one, two) = (first[index], second[index]);
        assert(one.1.prop_type == two.1.prop_type && one.1.data.len() == two.1.data.len());
        lemma_same_alloc(left.pages, right.pages, one.1.data, two.1.data);
        if let Ok(after) = property_context::with_property(left, one.0, one.1) {
            if let Ok(other) = property_context::with_property(right, two.0, two.1) {
                assert forall|i: int| 0 <= i < after.external.len() implies (
                #[trigger] after.external[i]).1.len() == (#[trigger] other.external[i]).1.len() by {
                    if i < left.external.len() {
                        assert(left.external[i].1.len() == right.external[i].1.len());
                    }
                }
                lemma_same_placing(after, other, first, second, index + 1);
            }
        }
    }
}

/// Property contexts of values of the same types and lengths take the same room, page by page and
/// subnode by subnode.
pub proof fn law_property_context_size(
    left: Seq<(u16, EncodedValue)>,
    right: Seq<(u16, EncodedValue)>,
    next_index: u32,
)
    requires
        same_properties(left, right),
    ensures
        property_context::spec_property_context_pages(left, next_index) matches Ok((pages, external))
            ==> (property_context::spec_property_context_pages(right, next_index) matches Ok(
            (others, other_external),
        ) ==> same_lengths(pages, others) && same_external(external, other_external)),
{
    reveal(property_context::spec_property_context_pages);
    let start = property_context::no_properties(next_index);
    lemma_same_reflexive(start.pages);
    lemma_same_placing(start, start, left, right, 0);
    if let Ok(placed) = property_context::with_properties(start, left, 0) {
        if let Ok(other) = property_context::with_properties(start, right, 0) {
            let records = sorting::sorted_by_key(placed.records);
            let others = sorting::sorted_by_key(other.records);
            sorting::law_sorted_by_key(placed.records, 0);
            sorting::law_sorted_by_key(other.records, 0);
            let nothing = Seq::<HeapTreeChild>::empty();
            lemma_same_leaves(placed.pages, other.pages, records, others, 0, nothing, nothing);
            let (leaves, result) = property_context::with_property_leaves(
                placed.pages,
                records,
                0,
                nothing,
            );
            let (other_leaves, other_result) = property_context::with_property_leaves(
                other.pages,
                others,
                0,
                nothing,
            );
            if result is Ok && other_result is Ok {
                let layout = property_context::property_layout();
                lemma_same_tree(
                    leaves,
                    other_leaves,
                    result->Ok_0,
                    other_result->Ok_0,
                    layout,
                    0,
                );
                let (pages, root) = heap_tree::with_heap_tree(leaves, result->Ok_0, layout, 0);
                let (other_pages, other_root) = heap_tree::with_heap_tree(
                    other_leaves,
                    other_result->Ok_0,
                    layout,
                    0,
                );
                if root is Ok && other_root is Ok {
                    lemma_same_heap(
                        pages,
                        other_pages,
                        HeapNodeType::Properties,
                        root->Ok_0,
                        other_root->Ok_0,
                    );
                }
            }
        }
    }
}

/// Whether two cells are of the same kind and length.
pub open spec fn same_cell(left: Option<CellContents>, right: Option<CellContents>) -> bool {
    match (left, right) {
        (None, None) => true,
        (Some(CellContents::Value(one)), Some(CellContents::Value(two))) => one.prop_type
            == two.prop_type && one.data.len() == two.data.len(),
        (Some(CellContents::Bytes(one)), Some(CellContents::Bytes(two))) => one.len() == two.len(),
        (Some(CellContents::Node(_)), Some(CellContents::Node(_))) => true,
        _ => false,
    }
}

/// Whether two rows have cells of the same kinds and lengths.
pub open spec fn same_cells(
    left: Seq<Option<CellContents>>,
    right: Seq<Option<CellContents>>,
) -> bool {
    left.len() == right.len() && forall|i: int|
        0 <= i < left.len() ==> same_cell(#[trigger] left[i], #[trigger] right[i])
}

proof fn lemma_same_row(
    layout: TableLayout,
    left: Seq<Seq<Seq<u8>>>,
    right: Seq<Seq<Seq<u8>>>,
    row: Seq<u8>,
    other: Seq<u8>,
    first: Seq<Option<CellContents>>,
    second: Seq<Option<CellContents>>,
    index: int,
)
    requires
        0 <= index,
        heap::heap_wf(left),
        same_shape(left, right),
        table::layout_wf(layout),
        row.len() == layout.end_existence_bitmap,
        other.len() == layout.end_existence_bitmap,
        same_cells(first, second),
    ensures
        heap::heap_wf(table::with_cells(layout, left, row, first, index).0),
        table::with_cells(layout, left, row, first, index).1 matches Ok(data) ==> (
        table::with_cells(layout, right, other, second, index).1 matches Ok(other_data)
            ==> data.len() == layout.end_existence_bitmap && other_data.len()
            == layout.end_existence_bitmap && same_shape(
            table::with_cells(layout, left, row, first, index).0,
            table::with_cells(layout, right, other, second, index).0,
        )),
    decreases first.len() - index,
{
    if index < first.len() && index < layout.columns.len() {
        assert(same_cell(first[index], second[index]));
        let column = layout.columns[index];
        assert(table::column_wf(column, layout));
        match (first[index], second[index]) {
            (Some(one), Some(two)) => {
                match (one, two) {
                    (CellContents::Value(a), CellContents::Value(b)) => {
                        lemma_same_alloc(left, right, a.data, b.data);
                    },
                    (CellContents::Bytes(a), CellContents::Bytes(b)) => {
                        lemma_same_alloc(left, right, a, b);
                    },
                    _ => {},
                }
                let (after, result) = table::with_cell(layout, left, row, column, one);
                let (others, other_result) = table::with_cell(layout, right, other, column, two);
                if let Ok(next) = result {
                    if let Ok(other_next) = other_result {
                        lemma_same_row(
                            layout,
                            after,
                            others,
                            next,
                            other_next,
                            first,
                            second,
                            index + 1,
                        );
                    } else {
                        lemma_same_row(layout, after, after, next, next, first, first, index + 1);
                    }
                }
            },
            _ => {
                lemma_same_row(layout, left, right, row, other, first, second, index + 1);
            },
        }
    }
}

/// Whether two tables have taken the same room so far.
pub open spec fn same_rows(left: RowsSoFar, right: RowsSoFar) -> bool {
    &&& heap::heap_wf(left.pages)
    &&& same_shape(left.pages, right.pages)
    &&& same_lengths(left.chunks, right.chunks)
    &&& left.ids.len() == right.ids.len()
}

/// Rows with cells of the same kinds and lengths take the same room.
pub proof fn lemma_same_encoded_row(
    left: RowsSoFar,
    right: RowsSoFar,
    layout: TableLayout,
    first: (u32, u32, Seq<Option<CellContents>>),
    second: (u32, u32, Seq<Option<CellContents>>),
)
    requires
        same_rows(left, right),
        table::layout_wf(layout),
        same_cells(first.2, second.2),
    ensures
        rebuild::with_encoded_row(left, layout, first.0, first.1, first.2) matches Ok(after) ==> (
        rebuild::with_encoded_row(right, layout, second.0, second.1, second.2) matches Ok(other)
            ==> same_rows(after, other)),
{
    reveal(rebuild::with_encoded_row);
    let row = table::blank_row(layout, first.0, first.1);
    let other = table::blank_row(layout, second.0, second.1);
    lemma_same_row(layout, left.pages, right.pages, row, other, first.2, second.2, 0);
    let (_, result) = table::with_cells(layout, left.pages, row, first.2, 0);
    let (_, other_result) = table::with_cells(layout, right.pages, other, second.2, 0);
    if let Ok(data) = result {
        if let Ok(other_data) = other_result {
            lemma_same_push(left.chunks, right.chunks, data, other_data);
            if left.chunks.len() > 0 {
                let last = left.chunks.len() - 1;
                assert(left.chunks[last].len() == right.chunks[last].len());
                let grown = left.chunks.update(last, left.chunks.last() + data);
                let others = right.chunks.update(last, right.chunks.last() + other_data);
                assert forall|i: int| 0 <= i < grown.len() implies (#[trigger] grown[i]).len() == (
                #[trigger] others[i]).len() by {
                    assert(left.chunks[i].len() == right.chunks[i].len());
                }
            }
        }
    }
}

proof fn lemma_row_entries_length(rows: Seq<u32>, start: int, count: nat)
    ensures
        table::row_entries(rows, start, count).len() == 8 * count,
    decreases count,
{
    if count > 0 {
        lemma_row_entries_length(rows, start, (count - 1) as nat);
    }
}

proof fn lemma_same_row_leaves(
    left: Seq<Seq<Seq<u8>>>,
    right: Seq<Seq<Seq<u8>>>,
    first: Seq<u32>,
    second: Seq<u32>,
    start: int,
    done: Seq<HeapTreeChild>,
    other: Seq<HeapTreeChild>,
)
    requires
        0 <= start,
        heap::heap_wf(left),
        same_shape(left, right),
        first.len() == second.len(),
        done.len() == other.len(),
    ensures
        ({
            let (after, result) = table::with_row_leaves(left, first, start, done);
            let (others, other_result) = table::with_row_leaves(right, second, start, other);
            &&& heap::heap_wf(after)
            &&& same_shape(after, others)
            &&& result matches Ok(children) ==> (other_result matches Ok(other_children)
                ==> children.len() == other_children.len())
        }),
    decreases first.len() - start,
{
    if start < first.len() {
        let end = levels::group_end(start, HEAP_TREE_LEAF_CAPACITY as int, first.len() as int);
        if end - 1 <= u32::MAX {
            let count = (end - start) as nat;
            let data = table::row_entries(first, start, count);
            let other_data = table::row_entries(second, start, count);
            lemma_row_entries_length(first, start, count);
            lemma_row_entries_length(second, start, count);
            lemma_same_alloc(left, right, data, other_data);
            let (after, result) = heap::heap_alloc(left, data);
            let (others, _) = heap::heap_alloc(right, other_data);
            if let Ok(id) = result {
                lemma_same_row_leaves(
                    after,
                    others,
                    first,
                    second,
                    end,
                    done.push(HeapTreeChild { key: first[start], id }),
                    other.push(HeapTreeChild { key: second[start], id }),
                );
            }
        }
    }
}

/// Tables whose rows take the same room take the same room, page by page.
pub proof fn lemma_same_table(
    left: RowsSoFar,
    right: RowsSoFar,
    layout: TableLayout,
    node: Option<NodeId>,
)
    requires
        same_rows(left, right),
    ensures
        rebuild::finished_table(left, layout, node) matches Ok(done) ==> (rebuild::finished_table(
            right,
            layout,
            node,
        ) matches Ok(other) ==> same_lengths(done.heap_pages, other.heap_pages) && same_lengths(
            done.row_chunks,
            other.row_chunks,
        )),
{
    reveal(rebuild::finished_table);
    let nothing = Seq::<HeapTreeChild>::empty();
    lemma_same_row_leaves(left.pages, right.pages, left.ids, right.ids, 0, nothing, nothing);
    let (leaves, result) = table::with_row_leaves(left.pages, left.ids, 0, nothing);
    let (other_leaves, other_result) = table::with_row_leaves(right.pages, right.ids, 0, nothing);
    if result is Ok && other_result is Ok {
        let tree = table::row_index_layout();
        lemma_same_tree(leaves, other_leaves, result->Ok_0, other_result->Ok_0, tree, 0);
        let (pages, index) = heap_tree::with_heap_tree(leaves, result->Ok_0, tree, 0);
        let (other_pages, other_index) = heap_tree::with_heap_tree(
            other_leaves,
            other_result->Ok_0,
            tree,
            0,
        );
        if index is Ok && other_index is Ok {
            let rows = if left.ids.len() == 0 {
                None
            } else {
                node
            };
            let context = table::context_bytes(layout, index->Ok_0, rows);
            let other = table::context_bytes(layout, other_index->Ok_0, rows);
            if context is Ok && other is Ok {
                assert(context->Ok_0.len() == other->Ok_0.len());
                lemma_same_alloc(pages, other_pages, context->Ok_0, other->Ok_0);
                let (heap, root) = heap::heap_alloc(pages, context->Ok_0);
                let (other_heap, other_root) = heap::heap_alloc(other_pages, other->Ok_0);
                if root is Ok && other_root is Ok {
                    lemma_same_heap(
                        heap,
                        other_heap,
                        HeapNodeType::Table,
                        root->Ok_0,
                        other_root->Ok_0,
                    );
                }
            }
        }
    }
}

/// Whether two properties are encoded with values of the same length, or both in their records.
pub open spec fn same_simple(left: SimpleContents, right: SimpleContents) -> bool {
    left.id == right.id && match (left.value, right.value) {
        (Some(one), Some(two)) => one.len() == two.len(),
        (None, None) => true,
        _ => false,
    }
}

/// Whether the properties have values of the same lengths, and only properties without one stand in
/// nodes.
pub open spec fn same_simple_properties(
    left: Seq<SimpleContents>,
    right: Seq<SimpleContents>,
    first: Seq<(u16, NodeId)>,
    second: Seq<(u16, NodeId)>,
) -> bool {
    &&& left.len() == right.len()
    &&& forall|i: int|
        0 <= i < left.len() ==> same_simple(#[trigger] left[i], #[trigger] right[i]) && (
        left[i].value is Some ==> property_context::node_of(first, left[i].id, 0) is None
            && property_context::node_of(second, left[i].id, 0) is None)
}

proof fn lemma_same_simple_slots(
    left: Seq<SimpleContents>,
    right: Seq<SimpleContents>,
    first: Seq<(u16, NodeId)>,
    second: Seq<(u16, NodeId)>,
    index: int,
    slots: Seq<Seq<u8>>,
    others: Seq<Seq<u8>>,
    records: Seq<u8>,
    other_records: Seq<u8>,
)
    requires
        0 <= index,
        same_simple_properties(left, right, first, second),
        same_lengths(slots, others),
        records.len() == other_records.len(),
    ensures
        property_context::simple_slots(left, first, index, slots, records) matches Ok((after, data))
            ==> (property_context::simple_slots(right, second, index, others, other_records) matches
        Ok((other_after, other_data)) ==> same_lengths(after, other_after) && data.len()
            == other_data.len() && after.len() >= slots.len()),
    decreases left.len() - index,
{
    if index < left.len() {
        let (one, two) = (left[index], right[index]);
        assert(same_simple(one, two));
        let record = property_context::simple_record(one, first, slots.len());
        let other = property_context::simple_record(two, second, others.len());
        if record is Ok && other is Ok {
            let (value, stored) = record->Ok_0;
            let (other_value, other_stored) = other->Ok_0;
            assert(stored == other_stored);
            if stored {
                lemma_same_push(slots, others, one.value->Some_0, two.value->Some_0);
            }
            lemma_same_simple_slots(
                left,
                right,
                first,
                second,
                index + 1,
                if stored {
                    slots.push(one.value->Some_0)
                } else {
                    slots
                },
                if stored {
                    others.push(two.value->Some_0)
                } else {
                    others
                },
                records + property_context::record_bytes(
                    PropertyTreeRecord { id: one.id, prop_type: one.prop_type, value },
                ),
                other_records + property_context::record_bytes(
                    PropertyTreeRecord { id: two.id, prop_type: two.prop_type, value: other_value },
                ),
            );
        }
    }
}

/// Property contexts of one page take the same room where their values have the same lengths.
pub proof fn law_simple_context_size(
    left: Seq<SimpleContents>,
    right: Seq<SimpleContents>,
    first: Seq<(u16, NodeId)>,
    second: Seq<(u16, NodeId)>,
)
    requires
        same_simple_properties(left, right, first, second),
    ensures
        property_context::simple_context(left, first) matches Ok(data) ==> (
        property_context::simple_context(right, second) matches Ok(other) ==> data.len()
            == other.len()),
{
    reveal(property_context::simple_context);
    let fixed = seq![Seq::<u8>::empty(), Seq::<u8>::empty(), Seq::<u8>::empty()];
    let nothing = Seq::<u8>::empty();
    lemma_same_simple_slots(left, right, first, second, 0, fixed, fixed, nothing, nothing);
    let result = property_context::simple_slots(left, first, 0, fixed, nothing);
    let other = property_context::simple_slots(right, second, 0, fixed, nothing);
    if result is Ok && other is Ok {
        let (slots, records) = result->Ok_0;
        let (others, other_records) = other->Ok_0;
        let header = heap_tree::tree_header(
            property_context::property_layout(),
            0,
            HeapId { value: 64 },
        );
        let all = slots.update(1, header).update(2, records);
        let other_all = others.update(1, header).update(2, other_records);
        assert forall|i: int| 0 <= i < all.len() implies (#[trigger] all[i]).len() == (
        #[trigger] other_all[i]).len() by {
            assert(slots[i].len() == others[i].len());
        }
        lemma_same_total(all, other_all, all.len());
        let map = heap::round_to_even(bytes::total_length(all) + 12) as u16;
        let start = heap::heap_node_header(map, HeapNodeType::Properties, HeapId { value: 32 });
        let parts = all.update(0, all[0] + start);
        let other_parts = other_all.update(0, other_all[0] + start);
        assert forall|i: int| 0 <= i < parts.len() implies (#[trigger] parts[i]).len() == (
        #[trigger] other_parts[i]).len() by {
            assert(all[i].len() == other_all[i].len());
        }
        lemma_same_total(parts, other_parts, parts.len());
        lemma_heap_page_length(parts, 0);
        lemma_heap_page_length(other_parts, 0);
    }
}

} // verus!
