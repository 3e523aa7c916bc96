//! How deep the trees of a heap are.

use vstd::prelude::*;

use crate::bytes;
use crate::error::{IoError, PstError};
use crate::ltp::heap;
use crate::ltp::heap::HeapId;
use crate::ltp::heap_laws;
use crate::ltp::heap_tree;
use crate::ltp::heap_tree::{HeapTreeChild, HeapTreeLayout};
use crate::ltp::property_context;
use crate::ltp::property_context::PropertyTreeRecord;
use crate::ltp::table;
use crate::ndb::level_laws;
use crate::ndb::levels;

verus! {

/// Whether the allocation that a reader finds is the header of a tree with keys and records of the given sizes and the
/// given number of levels above its leaves.
pub open spec fn is_tree_header(
    pages: Seq<Seq<Seq<u8>>>,
    id: HeapId,
    key_size: u8,
    entry_size: u8,
    levels: int,
) -> bool {
    heap_laws::in_heap(pages)(id) matches Some(header) && header.len() == 8 && header[0] == 0xB5
        && header[1] == key_size && header[2] == entry_size && header[3] == levels
}

proof fn lemma_groups_step(count: int, size: int)
    requires
        size >= 2,
        count > size,
    ensures
        level_laws::groups(count, size) == 1 + level_laws::groups(count - size, size),
{
    vstd::arithmetic::div_mod::lemma_fundamental_div_mod(count, size);
    vstd::arithmetic::div_mod::lemma_fundamental_div_mod(count - size, size);
    let less = count / size - 1;
    assert(count - size == size * less + count % size) by (nonlinear_arith)
        requires
            count == size * (count / size) + count % size,
            less == count / size - 1,
    ;
    vstd::arithmetic::div_mod::lemma_mod_bound(count, size);
    vstd::arithmetic::div_mod::lemma_fundamental_div_mod_converse(
        count - size,
        size,
        less,
        count % size,
    );
}

proof fn lemma_groups_one(count: int, size: int)
    requires
        size >= 2,
        0 < count <= size,
    ensures
        level_laws::groups(count, size) == 1,
{
    if count == size {
        vstd::arithmetic::div_mod::lemma_fundamental_div_mod_converse(count, size, 1, 0);
    } else {
        vstd::arithmetic::div_mod::lemma_fundamental_div_mod_converse(count, size, 0, count);
    }
}

proof fn lemma_heap_level(
    pages: Seq<Seq<Seq<u8>>>,
    children: Seq<HeapTreeChild>,
    start: int,
    layout: HeapTreeLayout,
    done: Seq<HeapTreeChild>,
)
    requires
        heap::heap_wf(pages),
        layout.group >= 4,
        0 <= start < children.len(),
    ensures
        heap_tree::with_heap_level(pages, children, start, layout, done) matches (after, Ok(next))
            ==> {
            &&& heap::heap_wf(after)
            &&& next.len() - done.len() == level_laws::groups(
                children.len() - start,
                layout.group as int,
            )
        },
    decreases children.len() - start,
{
    let end = levels::group_end(start, layout.group as int, children.len() as int);
    let data = heap_tree::child_entries(children, start, (end - start) as nat, layout.key_size);
    heap_laws::law_alloc_reads_back(pages, data);
    if let (after, Ok(id)) = heap::heap_alloc(pages, data) {
        let more = done.push(HeapTreeChild { key: children[start].key, id });
        if end < children.len() {
            lemma_heap_level(after, children, end, layout, more);
            lemma_groups_step(children.len() - start, layout.group as int);
        } else {
            lemma_groups_one(children.len() - start, layout.group as int);
            assert(heap_tree::with_heap_level(after, children, end, layout, more) == (
                after,
                Ok::<_, PstError>(more),
            ));
        }
    }
}

proof fn lemma_heap_tree(
    pages: Seq<Seq<Seq<u8>>>,
    children: Seq<HeapTreeChild>,
    layout: HeapTreeLayout,
    level: u8,
)
    requires
        heap::heap_wf(pages),
        layout.group >= 4,
        children.len() <= levels::level_capacity(level as nat) || children.len() <= 1,
    ensures
        heap_tree::with_heap_tree(pages, children, layout, level) matches (after, Ok(id))
            ==> is_tree_header(
            after,
            id,
            layout.key_size,
            layout.entry_size,
            level + level_laws::depth(children.len() as int, layout.group as int),
        ),
    decreases children.len(),
{
    if children.len() <= 1 {
        let root = if children.len() == 0 {
            HeapId { value: 0 }
        } else {
            children[0].id
        };
        heap_laws::law_alloc_reads_back(pages, heap_tree::tree_header(layout, level, root));
    } else {
        levels::lemma_level_capacity(level as nat);
        heap_tree::lemma_heap_level_length(pages, children, 0, layout, Seq::empty());
        lemma_heap_level(pages, children, 0, layout, Seq::empty());
        if let (after, Ok(next)) = heap_tree::with_heap_level(
            pages,
            children,
            0,
            layout,
            Seq::empty(),
        ) {
            lemma_heap_tree(after, next, layout, (level + 1) as u8);
        }
    }
}

proof fn lemma_row_leaves(
    pages: Seq<Seq<Seq<u8>>>,
    rows: Seq<u32>,
    start: int,
    done: Seq<HeapTreeChild>,
)
    requires
        heap::heap_wf(pages),
        0 <= start <= rows.len(),
    ensures
        table::with_row_leaves(pages, rows, start, done) matches (after, Ok(children)) ==> {
            &&& heap::heap_wf(after)
            &&& children.len() - done.len() == level_laws::groups(rows.len() - start, 750)
        },
    decreases rows.len() - start,
{
    if start < rows.len() {
        let end = levels::group_end(start, 750, rows.len() as int);
        let data = table::row_entries(rows, start, (end - start) as nat);
        heap_laws::law_alloc_reads_back(pages, data);
        if let (after, Ok(id)) = heap::heap_alloc(pages, data) {
            lemma_row_leaves(after, rows, end, done.push(HeapTreeChild { key: rows[start], id }));
        }
    }
}

/// The index of the rows of a table has keys of four bytes and numbers of four bytes, leaves of 750 rows, and allocations
/// above that name 750 others. Its header says how many levels that takes.
pub proof fn law_row_index_levels(pages: Seq<Seq<Seq<u8>>>, rows: Seq<u32>)
    requires
        heap::heap_wf(pages),
        rows.len() <= u64::MAX,
    ensures
        table::with_row_index(pages, rows) matches (after, Ok(id)) ==> is_tree_header(
            after,
            id,
            4,
            4,
            level_laws::depth(level_laws::groups(rows.len() as int, 750), 750),
        ),
{
    lemma_row_leaves(pages, rows, 0, Seq::empty());
    if let (after, Ok(children)) = table::with_row_leaves(pages, rows, 0, Seq::empty()) {
        lemma_heap_tree(after, children, table::row_index_layout(), 0);
    }
}

proof fn lemma_property_leaves(
    pages: Seq<Seq<Seq<u8>>>,
    records: Seq<PropertyTreeRecord>,
    start: int,
    done: Seq<HeapTreeChild>,
)
    requires
        heap::heap_wf(pages),
        0 <= start <= records.len(),
    ensures
        property_context::with_property_leaves(pages, records, start, done) matches (
            after,
            Ok(children),
        ) ==> {
            &&& heap::heap_wf(after)
            &&& children.len() - done.len() == level_laws::groups(records.len() - start, 750)
        },
    decreases records.len() - start,
{
    if start < records.len() {
        let end = levels::group_end(start, 750, records.len() as int);
        let data = property_context::records_bytes(records, start, (end - start) as nat);
        heap_laws::law_alloc_reads_back(pages, data);
        if let (after, Ok(id)) = heap::heap_alloc(pages, data) {
            lemma_property_leaves(
                after,
                records,
                end,
                done.push(HeapTreeChild { key: records[start].id as u32, id }),
            );
        }
    }
}

/// The tree of properties has keys of two bytes and records of six bytes behind them, leaves of 750 properties, and
/// allocations above that name 900 others. Its header says how many levels that takes.
pub proof fn law_property_tree_levels(
    pages: Seq<Seq<Seq<u8>>>,
    records: Seq<PropertyTreeRecord>,
)
    requires
        heap::heap_wf(pages),
        records.len() <= u64::MAX,
    ensures
        property_context::with_property_tree(pages, records) matches (after, Ok(id))
            ==> is_tree_header(
            after,
            id,
            2,
            6,
            level_laws::depth(level_laws::groups(records.len() as int, 750), 900),
        ),
{
    lemma_property_leaves(pages, records, 0, Seq::empty());
    if let (after, Ok(children)) = property_context::with_property_leaves(
        pages,
        records,
        0,
        Seq::empty(),
    ) {
        lemma_heap_tree(after, children, property_context::property_layout(), 0);
    }
}

/// The bytes in front of the allocations of a heap page: 12 on the first page, 66 on the page with index 8 and every 128
/// behind it, which hold a map of fill levels, and 2 on every other.
pub open spec fn bytes_in_front(page: int) -> int {
    if page == 0 {
        12
    } else if page >= 8 && (page - 8) % 128 == 0 {
        66
    } else {
        2
    }
}

/// What is stored goes to the last page of a heap, behind what that holds, as long as the page has room for it in 8176
/// bytes, with two bytes for every allocation and ten more. Else it is the first allocation of a new page. More than
/// 8164 bytes are refused.
pub proof fn law_heap_fills_pages(pages: Seq<Seq<Seq<u8>>>, data: Seq<u8>)
    requires
        heap::heap_wf(pages),
    ensures
        ({
            let (after, result) = heap::heap_alloc(pages, data);
            let last = pages.last();
            let has_room = bytes_in_front(pages.len() - 1) + bytes::total_length(last) + data.len()
                + 2 * last.len() + 10 < 8176;
            &&& result is Ok ==> data.len() <= 8164
            &&& result is Ok && has_room ==> after.len() == pages.len() && after.last()
                == last.push(data)
            &&& result is Ok && !has_room ==> after.len() == pages.len() + 1 && after.last()
                == seq![Seq::<u8>::empty(), data]
            &&& data.len() > 8164 ==> result == Err::<HeapId, PstError>(
                PstError::Io(IoError::HeapAllocationTooLarge),
            )
            &&& data.len() <= 8164 && has_room && last.len() <= 2047 && pages.len() <= 65536
                ==> result is Ok
        }),
{
    let grown = pages.push(seq![Seq::empty()]);
    assert(seq![Seq::<u8>::empty()].push(data) =~= seq![Seq::<u8>::empty(), data]);
    assert(grown.last() == seq![Seq::<u8>::empty()]);
}

} // verus!
