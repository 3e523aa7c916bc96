//! What a reader of a table finds in a column of a row, by the identifier of the property.

use vstd::prelude::*;

use crate::bytes;
use crate::ltp::heap::HeapId;
use crate::ltp::heap_laws;
use crate::ltp::property::PropertyType;
use crate::ltp::table;
use crate::ltp::table::{CellContents, TableColumnDescriptor, TableLayout};
use crate::ltp::table_laws;
use crate::ndb::ids::NodeId;
use crate::text;

verus! {

/// What a column of a row leads to.
#[verifier::ext_equal]
pub enum ColumnValue {
    /// Bytes in the row itself.
    Fixed(Seq<u8>),
    /// Bytes in the heap.
    Bytes(Seq<u8>),
    /// The subnode that holds the bytes.
    Node(NodeId),
}

/// The number of bytes of a value in a row, by the code of its type. Values of all other types stand
/// elsewhere, and the row holds where.
pub open spec fn fixed_width(code: int) -> Option<int> {
    if code == 0x0B {
        Some(1)
    } else if code == 0x02 {
        Some(2)
    } else if code == 0x03 || code == 0x04 || code == 0x0A {
        Some(4)
    } else if code == 0x05 || code == 0x06 || code == 0x07 || code == 0x14 || code == 0x40 {
        Some(8)
    } else if code == 0x01 {
        Some(0)
    } else {
        None
    }
}

/// The position of the first column of a property that a table context names, from column `index` on.
pub open spec fn find_column(context: Seq<u8>, id: u16, index: nat) -> Option<int>
    decreases context.len() - 8 * index,
{
    if index >= context[1] || 22 + 8 * (index + 1) > context.len() {
        None
    } else if bytes::get16(context, 22 + 8 * (index as int) + 2) == id {
        Some(index as int)
    } else {
        find_column(context, id, index + 1)
    }
}

/// The type code and the value of a property in a row, where the row has it, as the context of the table
/// says where it stands.
pub open spec fn read_column(
    lookup: spec_fn(HeapId) -> Option<Seq<u8>>,
    context: Seq<u8>,
    row: Seq<u8>,
    id: u16,
) -> Option<(int, ColumnValue)> {
    match find_column(context, id, 0) {
        None => None,
        Some(index) => {
            let at = 22 + 8 * index;
            let code = bytes::get16(context, at);
            let offset = bytes::get16(context, at + 4);
            let bit = context[at + 7];
            let byte = row[bytes::get16(context, 6) + bit / 8];
            if byte & (0x80u8 >> (bit % 8)) == 0 {
                None
            } else {
                match fixed_width(code) {
                    Some(width) => Some(
                        (code, ColumnValue::Fixed(row.subrange(offset, offset + width))),
                    ),
                    None => {
                        let number = bytes::get32(row, offset) as u32;
                        if number % 32 != 0 {
                            Some((code, ColumnValue::Node(NodeId { value: number })))
                        } else {
                            match lookup(HeapId { value: number }) {
                                Some(data) => Some((code, ColumnValue::Bytes(data))),
                                None => None,
                            }
                        }
                    },
                }
            }
        },
    }
}

/// What a reader is to find for a cell in a column of the given type.
pub open spec fn found(prop_type: PropertyType, cell: Option<CellContents>) -> Option<
    (int, ColumnValue),
> {
    match cell {
        None => None,
        Some(CellContents::Bytes(data)) => Some(
            (prop_type.spec_code() as int, ColumnValue::Bytes(data)),
        ),
        Some(CellContents::Node(node)) => Some(
            (prop_type.spec_code() as int, ColumnValue::Node(node)),
        ),
        Some(CellContents::Value(value)) => Some(
            (
                prop_type.spec_code() as int,
                if fixed_width(prop_type.spec_code() as int) is Some {
                    ColumnValue::Fixed(value.data)
                } else {
                    ColumnValue::Bytes(value.data)
                },
            ),
        ),
    }
}

/// Whether a cell has the width of its column's type, and a node has a type.
pub open spec fn cell_is_plain(prop_type: PropertyType, cell: Option<CellContents>) -> bool {
    match cell {
        None => true,
        Some(CellContents::Bytes(_)) => true,
        Some(CellContents::Node(node)) => node.value % 32 != 0,
        Some(CellContents::Value(value)) => fixed_width(
            prop_type.spec_code() as int,
        ) matches Some(width) ==> value.data.len() == width,
    }
}

/// Whether a column is the first of its property.
pub open spec fn is_first(columns: Seq<TableColumnDescriptor>, index: int) -> bool {
    &&& 0 <= index < columns.len()
    &&& forall|i: int|
        0 <= i < index ==> (#[trigger] columns[i]).prop_id != columns[index].prop_id
}

/// A column of each type that is not a pointer has a width, and no other.
proof fn lemma_widths(prop_type: PropertyType)
    ensures
        fixed_width(prop_type.spec_code() as int) is Some == !prop_type.is_pointer(),
{
}

proof fn lemma_columns_length(columns: Seq<TableColumnDescriptor>, count: nat)
    requires
        count <= columns.len(),
    ensures
        table::columns_bytes(columns, count).len() == 8 * count,
    decreases count,
{
    if count > 0 {
        lemma_columns_length(columns, (count - 1) as nat);
    }
}

/// The eight bytes of a column in a context.
proof fn lemma_column_bytes(columns: Seq<TableColumnDescriptor>, count: nat, index: int)
    requires
        0 <= index < count <= columns.len(),
    ensures
        ({
            let data = table::columns_bytes(columns, count);
            let at = 8 * index;
            &&& at + 8 <= data.len()
            &&& bytes::get16(data, at) == columns[index].prop_type.spec_code()
            &&& bytes::get16(data, at + 2) == columns[index].prop_id
            &&& bytes::get16(data, at + 4) == columns[index].offset
            &&& data[at + 6] == columns[index].size
            &&& data[at + 7] == columns[index].existence_bitmap_index
        }),
    decreases count,
{
    let data = table::columns_bytes(columns, count);
    let before = table::columns_bytes(columns, (count - 1) as nat);
    let column = columns[index];
    let at = 8 * index;
    lemma_columns_length(columns, count);
    lemma_columns_length(columns, (count - 1) as nat);
    if index < count - 1 {
        lemma_column_bytes(columns, (count - 1) as nat, index);
        assert forall|k: int| 0 <= k < 8 implies #[trigger] data[at + k] == before[at + k] by {}
        assert(data[at + 0] == before[at + 0]);
        assert(data[at + 1] == before[at + 1]);
        assert(data[at + 2] == before[at + 2]);
        assert(data[at + 3] == before[at + 3]);
        assert(data[at + 4] == before[at + 4]);
        assert(data[at + 5] == before[at + 5]);
        assert(data[at + 6] == before[at + 6]);
        assert(data[at + 7] == before[at + 7]);
        assert(data[at + 2 + 1] == before[at + 2 + 1]);
        assert(data[at + 4 + 1] == before[at + 4 + 1]);
    } else {
        assert(data.subrange(at, at + 2) =~= bytes::le16(column.prop_type.spec_code()));
        assert(data.subrange(at + 2, at + 4) =~= bytes::le16(column.prop_id));
        assert(data.subrange(at + 4, at + 6) =~= bytes::le16(column.offset));
        bytes::lemma_get16_le16(data, at, column.prop_type.spec_code());
        bytes::lemma_get16_le16(data, at + 2, column.prop_id);
        bytes::lemma_get16_le16(data, at + 4, column.offset);
    }
}

/// What a context says of a column.
proof fn lemma_context_column(context: Seq<u8>, layout: TableLayout, index: int)
    requires
        table_laws::has_layout(context, layout),
        0 <= index < layout.columns.len(),
    ensures
        context[1] == layout.columns.len(),
        bytes::get16(context, 6) == layout.end_1byte_values,
        context.len() == 22 + 8 * layout.columns.len(),
        bytes::get16(context, 22 + 8 * index) == layout.columns[index].prop_type.spec_code(),
        bytes::get16(context, 22 + 8 * index + 2) == layout.columns[index].prop_id,
        bytes::get16(context, 22 + 8 * index + 4) == layout.columns[index].offset,
        context[22 + 8 * index + 7] == layout.columns[index].existence_bitmap_index,
{
    let head = context.subrange(0, 10);
    let rest = context.skip(22);
    let columns = layout.columns;
    lemma_columns_length(columns, columns.len());
    lemma_column_bytes(columns, columns.len(), index);
    assert(context[1] == head[1]);
    assert(context.subrange(6, 8) =~= head.subrange(6, 8));
    assert(head.subrange(6, 8) =~= bytes::le16(layout.end_1byte_values));
    bytes::lemma_get16_le16(context, 6, layout.end_1byte_values);
    let at = 8 * index;
    assert(rest[at] == context[22 + at]);
    assert(rest[at + 1] == context[22 + at + 1]);
    assert(rest[at + 2] == context[22 + at + 2]);
    assert(rest[at + 2 + 1] == context[22 + at + 2 + 1]);
    assert(rest[at + 4] == context[22 + at + 4]);
    assert(rest[at + 4 + 1] == context[22 + at + 4 + 1]);
    assert(rest[at + 7] == context[22 + at + 7]);
}

proof fn lemma_find_column(context: Seq<u8>, layout: TableLayout, index: int, from: nat)
    requires
        table_laws::has_layout(context, layout),
        is_first(layout.columns, index),
        from <= index,
    ensures
        find_column(context, layout.columns[index].prop_id, from) == Some(index),
    decreases index - from,
{
    lemma_context_column(context, layout, from as int);
    if from < index {
        assert(layout.columns[from as int].prop_id != layout.columns[index].prop_id);
        lemma_find_column(context, layout, index, from + 1);
    }
}

/// A reader that goes by the context of a table finds the cell of the first column of a property.
pub proof fn law_column_reads_back(
    lookup: spec_fn(HeapId) -> Option<Seq<u8>>,
    context: Seq<u8>,
    layout: TableLayout,
    row: Seq<u8>,
    index: int,
    cell: Option<CellContents>,
)
    requires
        table_laws::has_layout(context, layout),
        is_first(layout.columns, index),
        table_laws::cell_reads(layout, lookup, row, layout.columns[index], cell),
        cell_is_plain(layout.columns[index].prop_type, cell),
    ensures
        read_column(lookup, context, row, layout.columns[index].prop_id) == found(
            layout.columns[index].prop_type,
            cell,
        ),
{
    lemma_find_column(context, layout, index, 0);
    lemma_context_column(context, layout, index);
    lemma_widths(layout.columns[index].prop_type);
}

/// A reader that goes by the context of a table finds nothing for a property without a column.
pub proof fn law_missing_column(
    lookup: spec_fn(HeapId) -> Option<Seq<u8>>,
    context: Seq<u8>,
    layout: TableLayout,
    row: Seq<u8>,
    id: u16,
)
    requires
        table_laws::has_layout(context, layout),
        forall|i: int| 0 <= i < layout.columns.len() ==> (#[trigger] layout.columns[i]).prop_id != id,
    ensures
        read_column(lookup, context, row, id) is None,
{
    lemma_no_column(context, layout, id, 0);
}

proof fn lemma_no_column(context: Seq<u8>, layout: TableLayout, id: u16, from: nat)
    requires
        table_laws::has_layout(context, layout),
        from <= layout.columns.len(),
        forall|i: int| 0 <= i < layout.columns.len() ==> (#[trigger] layout.columns[i]).prop_id != id,
    ensures
        find_column(context, id, from) is None,
    decreases layout.columns.len() - from,
{
    if from < layout.columns.len() {
        lemma_context_column(context, layout, from as int);
        assert(layout.columns[from as int].prop_id != id);
        lemma_no_column(context, layout, id, from + 1);
    } else {
        let head = context.subrange(0, 10);
        assert(context[1] == head[1]);
    }
}

/// The type code and the value of a property in row `index` of a table, found through the context of the
/// table alone.
#[verifier::opaque]
pub open spec fn table_column(
    pages: Seq<Seq<u8>>,
    chunks: Seq<Seq<u8>>,
    index: int,
    id: u16,
) -> Option<(int, ColumnValue)> {
    match table_laws::read_context(pages) {
        None => None,
        Some(context) => match table_laws::read_row(chunks, bytes::get16(context, 8), index) {
            None => None,
            Some(row) => read_column(heap_laws::in_pages(pages), context, row, id),
        },
    }
}

/// Whether a property of a row is the given number.
pub open spec fn column_number(
    pages: Seq<Seq<u8>>,
    chunks: Seq<Seq<u8>>,
    index: int,
    id: u16,
    number: u32,
) -> bool {
    table_column(pages, chunks, index, id) matches Some((code, ColumnValue::Fixed(data))) && code
        == 0x0003 && data.len() == 4 && bytes::get32(data, 0) == number
}

/// Whether a property of a row is the given time.
pub open spec fn column_time(
    pages: Seq<Seq<u8>>,
    chunks: Seq<Seq<u8>>,
    index: int,
    id: u16,
    time: i64,
) -> bool {
    table_column(pages, chunks, index, id) matches Some((code, ColumnValue::Fixed(data))) && code
        == 0x0040 && data.len() == 8 && bytes::get64(data, 0) == time as u64
}

/// Whether a property of a row is the given truth value.
pub open spec fn column_flag(
    pages: Seq<Seq<u8>>,
    chunks: Seq<Seq<u8>>,
    index: int,
    id: u16,
    flag: bool,
) -> bool {
    table_column(pages, chunks, index, id) matches Some((code, ColumnValue::Fixed(data))) && code
        == 0x000B && data.len() == 1 && data[0] == (if flag {
        1u8
    } else {
        0u8
    })
}

/// Whether a property of a row is the given text.
pub open spec fn column_text(
    pages: Seq<Seq<u8>>,
    chunks: Seq<Seq<u8>>,
    index: int,
    id: u16,
    value: Seq<char>,
) -> bool {
    table_column(pages, chunks, index, id) matches Some((code, ColumnValue::Bytes(data))) && code
        == 0x001F && text::read_utf16(data) == Some(value)
}

/// Whether a property of a row has the given bytes.
pub open spec fn column_binary(
    pages: Seq<Seq<u8>>,
    chunks: Seq<Seq<u8>>,
    index: int,
    id: u16,
    data: Seq<u8>,
) -> bool {
    table_column(pages, chunks, index, id) == Some((0x0102int, ColumnValue::Bytes(data)))
}

/// Whether a row has no such property.
pub open spec fn column_none(
    pages: Seq<Seq<u8>>,
    chunks: Seq<Seq<u8>>,
    index: int,
    id: u16,
) -> bool {
    table_column(pages, chunks, index, id) is None
}

/// The size of a row, as a context says it.
pub proof fn lemma_context_row_size(context: Seq<u8>, layout: TableLayout)
    requires
        table_laws::has_layout(context, layout),
    ensures
        bytes::get16(context, 8) == layout.end_existence_bitmap,
{
    let head = context.subrange(0, 10);
    assert(context.subrange(8, 10) =~= head.subrange(8, 10));
    assert(head.subrange(8, 10) =~= bytes::le16(layout.end_existence_bitmap));
    bytes::lemma_get16_le16(context, 8, layout.end_existence_bitmap);
}

/// Whether row `index` of a table holds cells in the columns of a layout.
#[verifier::opaque]
pub open spec fn row_holds(
    pages: Seq<Seq<u8>>,
    chunks: Seq<Seq<u8>>,
    index: int,
    layout: TableLayout,
    cells: Seq<Option<CellContents>>,
) -> bool {
    &&& table_laws::read_context(pages) matches Some(context) && table_laws::has_layout(
        context,
        layout,
    )
    &&& table_laws::read_row(chunks, layout.end_existence_bitmap as int, index) matches Some(data)
        && table_laws::row_reads(
        layout,
        heap_laws::in_pages(pages),
        data,
        cells,
        cells.len() as int,
    )
}

/// A reader of a table finds the cell of the first column of a property.
pub proof fn law_table_column(
    pages: Seq<Seq<u8>>,
    chunks: Seq<Seq<u8>>,
    index: int,
    layout: TableLayout,
    cells: Seq<Option<CellContents>>,
    column: int,
)
    requires
        row_holds(pages, chunks, index, layout, cells),
        is_first(layout.columns, column),
        column < cells.len(),
        cell_is_plain(layout.columns[column].prop_type, cells[column]),
    ensures
        table_column(pages, chunks, index, layout.columns[column].prop_id) == found(
            layout.columns[column].prop_type,
            cells[column],
        ),
{
    reveal(table_column);
    reveal(row_holds);
    let context = table_laws::read_context(pages)->Some_0;
    let size = layout.end_existence_bitmap as int;
    let row = table_laws::read_row(chunks, size, index)->Some_0;
    lemma_context_row_size(context, layout);
    assert(table_laws::cell_reads(
        layout,
        heap_laws::in_pages(pages),
        row,
        layout.columns[column],
        cells[column],
    ));
    law_column_reads_back(
        heap_laws::in_pages(pages),
        context,
        layout,
        row,
        column,
        cells[column],
    );
}

/// A reader of a table finds nothing of a property that has no column.
pub proof fn law_no_table_column(
    pages: Seq<Seq<u8>>,
    chunks: Seq<Seq<u8>>,
    index: int,
    layout: TableLayout,
    cells: Seq<Option<CellContents>>,
    id: u16,
)
    requires
        row_holds(pages, chunks, index, layout, cells),
        forall|i: int|
            0 <= i < layout.columns.len() ==> (#[trigger] layout.columns[i]).prop_id != id,
    ensures
        table_column(pages, chunks, index, id) is None,
{
    reveal(table_column);
    reveal(row_holds);
    let context = table_laws::read_context(pages)->Some_0;
    let row = table_laws::read_row(chunks, bytes::get16(context, 8), index);
    if row is Some {
        law_missing_column(heap_laws::in_pages(pages), context, layout, row->Some_0, id);
    }
}

/// The bytes of a number in a row.
pub proof fn lemma_fixed_number(number: u32)
    ensures
        bytes::le32(number).len() == 4,
        bytes::get32(bytes::le32(number), 0) == number,
{
    let data = bytes::le32(number);
    assert(data.subrange(0, 4) =~= data);
    bytes::lemma_get32_le32(data, 0, number);
}

/// The bytes of a time in a row.
pub proof fn lemma_fixed_time(time: i64)
    ensures
        bytes::le64(time as u64).len() == 8,
        bytes::get64(bytes::le64(time as u64), 0) == time as u64,
{
    let data = bytes::le64(time as u64);
    assert(data.subrange(0, 8) =~= data);
    bytes::lemma_get64_le64(data, 0, time as u64);
}

/// The bytes of a number are fixed by it.
pub proof fn lemma_number_bytes(data: Seq<u8>, number: u32)
    requires
        data.len() == 4,
        bytes::get32(data, 0) == number,
    ensures
        data == bytes::le32(number),
{
    let other = bytes::le32(number);
    lemma_fixed_number(number);
    assert(data[0] == other[0] && data[1] == other[1] && data[2] == other[2] && data[3] == other[3]);
    assert(data =~= other);
}

} // verus!
