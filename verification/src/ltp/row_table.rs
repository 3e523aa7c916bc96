//! Tables of one heap page that hold nothing but rows: each has an identifier and a version.

use vstd::prelude::*;

use crate::bytes;
use crate::error::PstError;
use crate::ltp::heap;
use crate::ltp::heap::{HeapId, HeapNodeType};
use crate::ltp::heap_tree;
use crate::ltp::property::PropertyType;
use crate::ltp::table;
use crate::ltp::table::{
    TableColumnDescriptor, TableContextInfo, TableLayout, LTP_ROW_ID_PROP_ID,
    LTP_ROW_VERSION_PROP_ID,
};
use crate::ndb::ids::NodeId;

verus! {

/// The columns of the row identifier and the row version.
pub open spec fn row_layout() -> TableLayout {
    TableLayout {
        end_4byte_values: 8,
        end_2byte_values: 8,
        end_1byte_values: 8,
        end_existence_bitmap: 9,
        columns: seq![
            TableColumnDescriptor {
                prop_type: PropertyType::Integer32,
                prop_id: LTP_ROW_ID_PROP_ID,
                offset: 0,
                size: 4,
                existence_bitmap_index: 0,
            },
            TableColumnDescriptor {
                prop_type: PropertyType::Integer32,
                prop_id: LTP_ROW_VERSION_PROP_ID,
                offset: 4,
                size: 4,
                existence_bitmap_index: 1,
            },
        ],
    }
}

/// The index entries of the first `count` rows: the identifier of each and its position.
pub open spec fn index_bytes(rows: Seq<NodeId>, count: nat) -> Seq<u8>
    decreases count,
{
    if count == 0 {
        Seq::empty()
    } else {
        index_bytes(rows, (count - 1) as nat) + bytes::le32(rows[count - 1].value) + bytes::le32(
            (count - 1) as u32,
        )
    }
}

/// The first `count` rows: the identifier of each, version 0, and the mark that both are there.
pub open spec fn row_bytes(rows: Seq<NodeId>, count: nat) -> Seq<u8>
    decreases count,
{
    if count == 0 {
        Seq::empty()
    } else {
        row_bytes(rows, (count - 1) as nat) + bytes::le32(rows[count - 1].value) + bytes::le32(0)
            + seq![0xC0u8]
    }
}

/// The slots of a table with the given rows: the context, the header of the row index, and where
/// there are rows the index and the rows.
pub open spec fn row_table_slots(rows: Seq<NodeId>) -> Seq<Seq<u8>> {
    let no_rows = rows.len() == 0;
    let context = table::context_bytes(
        row_layout(),
        HeapId { value: 64 },
        if no_rows {
            None
        } else {
            Some(NodeId { value: 128 })
        },
    )->Ok_0;
    let header = heap_tree::tree_header(
        table::row_index_layout(),
        0,
        if no_rows {
            HeapId { value: 0 }
        } else {
            HeapId { value: 96 }
        },
    );
    if no_rows {
        seq![Seq::empty(), context, header]
    } else {
        seq![
            Seq::empty(),
            context,
            header,
            index_bytes(rows, rows.len()),
            row_bytes(rows, rows.len()),
        ]
    }
}

/// The bytes of a table with the given rows.
#[verifier::opaque]
pub open spec fn row_table(rows: Seq<NodeId>) -> Result<Seq<u8>, PstError> {
    heap::spec_finish_heap(row_table_slots(rows), HeapNodeType::Table, HeapId { value: 32 })
}

/// The number of bytes of an index.
proof fn lemma_index_length(rows: Seq<NodeId>, count: nat)
    ensures
        index_bytes(rows, count).len() == 8 * count,
    decreases count,
{
    if count > 0 {
        lemma_index_length(rows, (count - 1) as nat);
        bytes::lemma_le_lengths(0, rows[count - 1].value, 0);
        bytes::lemma_le_lengths(0, (count - 1) as u32, 0);
    }
}

/// Too many rows to number do not fit on a heap page.
proof fn lemma_numbered_rows(rows: Seq<NodeId>)
    requires
        rows.len() > u32::MAX,
    ensures
        row_table(rows) == Err::<Seq<u8>, PstError>(PstError::IntegerConversion),
{
    reveal(row_table);
    let slots = row_table_slots(rows);
    lemma_index_length(rows, rows.len());
    reveal_with_fuel(bytes::length_prefix, 6);
    assert(slots[3].len() == 8 * rows.len());
    assert(bytes::total_length(slots) >= slots[3].len());
}

/// The bytes of a table of one heap page with the given rows.
pub fn table_context_data(row_ids: &[NodeId]) -> (data: Result<Vec<u8>, PstError>)
    ensures
        crate::error::result_view(data) == row_table(row_ids@),
{
    let no_rows: bool = row_ids.len() == 0;
    let mut columns: Vec<TableColumnDescriptor> = Vec::new();
    columns.push(
        TableColumnDescriptor {
            prop_type: PropertyType::Integer32,
            prop_id: LTP_ROW_ID_PROP_ID,
            offset: 0,
            size: 4,
            existence_bitmap_index: 0,
        },
    );
    columns.push(
        TableColumnDescriptor {
            prop_type: PropertyType::Integer32,
            prop_id: LTP_ROW_VERSION_PROP_ID,
            offset: 4,
            size: 4,
            existence_bitmap_index: 1,
        },
    );
    let row_index = HeapId { value: 64 };
    let rows_heap: Option<NodeId> = if no_rows {
        None
    } else {
        Some(NodeId { value: 128 })
    };
    let context = TableContextInfo {
        end_4byte_values: 8,
        end_2byte_values: 8,
        end_1byte_values: 8,
        end_existence_bitmap: 9,
        row_index,
        rows: rows_heap,
        columns,
    };
    assert(context@ =~= row_layout());
    let context_data = table::encode_context(&context, row_index, rows_heap)?;

    let mut header: Vec<u8> = Vec::new();
    header.push(0xB5);
    header.push(4);
    header.push(4);
    header.push(0);
    bytes::push_u32(
        &mut header,
        if no_rows {
            0
        } else {
            96
        },
    );
    assert(header@ =~= heap_tree::tree_header(
        table::row_index_layout(),
        0,
        if no_rows {
            HeapId { value: 0 }
        } else {
            HeapId { value: 96 }
        },
    ));

    let mut index: Vec<u8> = Vec::new();
    let mut rows: Vec<u8> = Vec::new();
    let mut i: usize = 0;
    while i < row_ids.len()
        invariant
            i <= row_ids@.len(),
            index@ == index_bytes(row_ids@, i as nat),
            rows@ == row_bytes(row_ids@, i as nat),
        decreases row_ids@.len() - i,
    {
        if i > u32::MAX as usize {
            proof {
                lemma_numbered_rows(row_ids@);
            }
            return Err(PstError::IntegerConversion);
        }
        let ghost index_before = index@;
        let ghost rows_before = rows@;
        bytes::push_u32(&mut index, row_ids[i].value);
        bytes::push_u32(&mut index, i as u32);
        bytes::push_u32(&mut rows, row_ids[i].value);
        bytes::push_u32(&mut rows, 0);
        rows.push(0xC0);
        assert(rows@ =~= rows_before + bytes::le32(row_ids@[i as int].value) + bytes::le32(0)
            + seq![0xC0u8]);
        i += 1;
    }

    let mut allocations: Vec<Vec<u8>> = Vec::new();
    allocations.push(Vec::new());
    allocations.push(context_data);
    allocations.push(header);
    if !no_rows {
        allocations.push(index);
        allocations.push(rows);
    }
    assert(bytes::views(allocations@) =~= row_table_slots(row_ids@));
    reveal(row_table);
    heap::finish_heap(allocations, HeapNodeType::Table, HeapId { value: 32 })
}

} // verus!
