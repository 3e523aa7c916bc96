//! What a reader finds in a table of one heap page that holds nothing but rows.

use vstd::prelude::*;

use crate::bytes;
use crate::error::PstError;
use crate::ltp::column_laws;
use crate::ltp::heap;
use crate::ltp::heap::{HeapId, HeapNodeType};
use crate::ltp::heap_laws;
use crate::ltp::heap_tree;
use crate::ltp::property;
use crate::ltp::row_table;
use crate::ltp::table;
use crate::ltp::table::CellContents;
use crate::ltp::table_laws;
use crate::ndb::ids::NodeId;

verus! {

/// The identifiers of rows.
pub open spec fn row_ids(rows: Seq<NodeId>) -> Seq<u32> {
    Seq::new(rows.len(), |i: int| rows[i].value)
}

proof fn lemma_index(rows: Seq<NodeId>, count: nat)
    requires
        count <= rows.len(),
    ensures
        row_table::index_bytes(rows, count) == table::row_entries(row_ids(rows), 0, count),
    decreases count,
{
    if count > 0 {
        lemma_index(rows, (count - 1) as nat);
        assert(row_ids(rows)[count - 1] == rows[count - 1].value);
    }
}

proof fn lemma_row(rows: Seq<NodeId>, count: nat, index: int)
    requires
        0 <= index < count <= rows.len(),
    ensures
        row_table::row_bytes(rows, count).len() == 9 * count,
        row_table::row_bytes(rows, count).subrange(9 * index, 9 * index + 9) == bytes::le32(
            rows[index].value,
        ) + bytes::le32(0) + seq![0xC0u8],
    decreases count,
{
    let all = row_table::row_bytes(rows, count);
    let before = row_table::row_bytes(rows, (count - 1) as nat);
    let own = bytes::le32(rows[index].value) + bytes::le32(0) + seq![0xC0u8];
    if count > 1 {
        lemma_row(
            rows,
            (count - 1) as nat,
            if index < count - 1 {
                index
            } else {
                0
            },
        );
    } else {
        assert(before =~= Seq::empty());
    }
    if index == count - 1 {
        assert(all.subrange(9 * index, 9 * index + 9) =~= own);
    } else {
        assert(all.subrange(9 * index, 9 * index + 9) =~= before.subrange(
            9 * index,
            9 * index + 9,
        ));
    }
}

proof fn lemma_row_columns(
    lookup: spec_fn(HeapId) -> Option<Seq<u8>>,
    context: Seq<u8>,
    row: Seq<u8>,
    id: u32,
)
    requires
        table_laws::has_layout(context, row_table::row_layout()),
        row == bytes::le32(id) + bytes::le32(0) + seq![0xC0u8],
    ensures
        column_laws::read_column(lookup, context, row, 0x67F2) == Some(
            (3int, column_laws::ColumnValue::Fixed(bytes::le32(id))),
        ),
        column_laws::read_column(lookup, context, row, 0x67F3) == Some(
            (3int, column_laws::ColumnValue::Fixed(bytes::le32(0))),
        ),
{
    let layout = row_table::row_layout();
    assert(0xC0u8 & (0x80u8 >> 0u8) != 0 && 0xC0u8 & (0x80u8 >> 1u8) != 0) by (bit_vector);
    assert(row[8] == 0xC0);
    let first = Some(CellContents::Value(property::integer32_value(id)));
    let second = Some(CellContents::Value(property::integer32_value(0)));
    assert(row.subrange(0, 4) =~= bytes::le32(id));
    assert(row.subrange(4, 8) =~= bytes::le32(0));
    assert(table_laws::cell_reads(layout, lookup, row, layout.columns[0], first));
    assert(table_laws::cell_reads(layout, lookup, row, layout.columns[1], second));
    column_laws::law_column_reads_back(lookup, context, layout, row, 0, first);
    column_laws::law_column_reads_back(lookup, context, layout, row, 1, second);
}

/// The bytes of row `index` of a table whose rows stand in the heap allocation that its context names.
pub open spec fn row_in_heap(data: Seq<u8>, context: Seq<u8>, index: int) -> Option<Seq<u8>> {
    let size = bytes::get16(context, 8);
    match heap_laws::in_pages(seq![data])(HeapId { value: table_laws::context_rows(context) }) {
        None => None,
        Some(rows) => if 0 <= index && size * (index + 1) <= rows.len() {
            Some(rows.subrange(size * index, size * index + size))
        } else {
            None
        },
    }
}

proof fn lemma_id_place(slot: int, id: HeapId)
    requires
        1 <= slot < 5,
        id.value == 32 * slot,
    ensures
        id.spec_index() == slot,
        id.spec_block() == 0,
{
}

#[verifier::spinoff_prover]
#[verifier::rlimit(30)]
proof fn lemma_slot(slots: Seq<Seq<u8>>, data: Seq<u8>, slot: int, id: HeapId)
    requires
        heap::spec_finish_heap(slots, HeapNodeType::Table, HeapId { value: 32 }) == Ok::<
            _,
            PstError,
        >(data),
        1 <= slot < slots.len() <= 5,
        slots[0].len() == 0,
        id.value == 32 * slot,
    ensures
        heap_laws::in_pages(seq![data])(id) == Some(slots[slot]),
        heap_laws::read_user_root(seq![data]) == (HeapId { value: 32 }),
{
    lemma_id_place(slot, id);
    heap::law_single_page_heap(slots, HeapNodeType::Table, HeapId { value: 32 }, data, slot);
}

proof fn lemma_allocation(rows: Seq<NodeId>, data: Seq<u8>, slot: int)
    requires
        row_table::row_table(rows) == Ok::<_, PstError>(data),
        1 <= slot < row_table::row_table_slots(rows).len(),
    ensures
        heap_laws::in_pages(seq![data])(HeapId { value: (32 * slot) as u32 }) == Some(
            row_table::row_table_slots(rows)[slot],
        ),
        heap_laws::read_user_root(seq![data]) == (HeapId { value: 32 }),
{
    reveal(row_table::row_table);
    let slots = row_table::row_table_slots(rows);
    lemma_slot(slots, data, slot, HeapId { value: (32 * slot) as u32 });
}

/// What the allocations of a table of rows hold.
proof fn lemma_allocations(rows: Seq<NodeId>, data: Seq<u8>) -> (context: Seq<u8>)
    requires
        row_table::row_table(rows) == Ok::<_, PstError>(data),
        0 < rows.len() <= u32::MAX,
    ensures
        table_laws::read_context(seq![data]) == Some(context),
        table_laws::has_layout(context, row_table::row_layout()),
        bytes::get32(context, 10) == 64,
        table_laws::context_rows(context) == 128,
        heap_laws::in_pages(seq![data])(HeapId { value: 64 }) == Some(
            seq![0xB5u8, 4, 4, 0] + bytes::le32(96),
        ),
        heap_laws::in_pages(seq![data])(HeapId { value: 96 }) == Some(
            row_table::index_bytes(rows, rows.len()),
        ),
        heap_laws::in_pages(seq![data])(HeapId { value: 128 }) == Some(
            row_table::row_bytes(rows, rows.len()),
        ),
{
    let layout = row_table::row_layout();
    let context = table::context_bytes(
        layout,
        HeapId { value: 64 },
        Some(NodeId { value: 128 }),
    )->Ok_0;
    lemma_allocation(rows, data, 1);
    lemma_allocation(rows, data, 2);
    lemma_allocation(rows, data, 3);
    lemma_allocation(rows, data, 4);
    table_laws::lemma_context(layout, HeapId { value: 64 }, Some(NodeId { value: 128 }), context);
    assert(heap_tree::tree_header(table::row_index_layout(), 0, HeapId { value: 96 })
        =~= seq![0xB5u8, 4, 4, 0] + bytes::le32(96));
    context
}

proof fn lemma_row_index(rows: Seq<NodeId>, data: Seq<u8>, id: u32)
    requires
        row_table::row_table(rows) == Ok::<_, PstError>(data),
        0 < rows.len() <= u32::MAX,
    ensures
        table_laws::row_position(seq![data], id) == table_laws::first_position(
            row_ids(rows),
            id,
            0,
        ),
{
    let context = lemma_allocations(rows, data);
    let lookup = heap_laws::in_pages(seq![data]);
    let header = seq![0xB5u8, 4, 4, 0] + bytes::le32(96);
    assert(header.subrange(4, 8) =~= bytes::le32(96));
    bytes::lemma_get32_le32(header, 4, 96);
    let entries = row_table::index_bytes(rows, rows.len());
    assert(heap_laws::read_tree(lookup, HeapId { value: 96 }, 4, 0) == Some(entries));
    lemma_index(rows, rows.len());
    table_laws::lemma_find_row(row_ids(rows), id, 0);
}

/// A table of rows has a row for every node, in their order: its identifier under 0x67F2, version 0 under 0x67F3,
/// and no other value. The row index finds each row at its position, and nothing else.
pub proof fn law_row_table_reads_back(rows: Seq<NodeId>, data: Seq<u8>, index: int, id: u32)
    requires
        row_table::row_table(rows) == Ok::<_, PstError>(data),
        0 < rows.len() <= u32::MAX,
        0 <= index < rows.len(),
    ensures
        table_laws::row_position(seq![data], id) == table_laws::first_position(
            row_ids(rows),
            id,
            0,
        ),
        table_laws::read_context(seq![data]) matches Some(context) && context[1] == 2 && (
        row_in_heap(data, context, index) matches Some(row) && column_laws::read_column(
            heap_laws::in_pages(seq![data]),
            context,
            row,
            0x67F2,
        ) == Some((3int, column_laws::ColumnValue::Fixed(bytes::le32(rows[index].value))))
            && column_laws::read_column(
            heap_laws::in_pages(seq![data]),
            context,
            row,
            0x67F3,
        ) == Some((3int, column_laws::ColumnValue::Fixed(bytes::le32(0)))))
            && row_in_heap(data, context, rows.len() as int) is None,
{
    lemma_row_index(rows, data, id);
    let context = lemma_allocations(rows, data);
    let all = row_table::row_bytes(rows, rows.len());
    let lookup = heap_laws::in_pages(seq![data]);
    column_laws::lemma_context_row_size(context, row_table::row_layout());
    lemma_row(rows, rows.len(), index);
    let row = all.subrange(9 * index, 9 * index + 9);
    assert(row_in_heap(data, context, index) == Some(row));
    assert(context[1] == context.subrange(0, 10)[1]);
    lemma_row_columns(lookup, context, row, rows[index].value);
}

} // verus!
