//! Table contexts: the layout of a table, its rows and the index of its rows.

use vstd::prelude::*;

use crate::bytes;
use crate::error::{IoError, PstError};
use crate::ltp::heap;
use crate::ltp::heap::{HeapBuilder, HeapId};
use crate::ltp::heap_tree;
use crate::ltp::heap_tree::{HeapTreeChild, HeapTreeLayout, HEAP_TREE_LEAF_CAPACITY};
use crate::ltp::property;
use crate::ltp::property::{EncodedValue, PropertyType, PropertyValue};
use crate::ndb::ids::NodeId;
use crate::ndb::levels;

verus! {

/// The column of the row identifier.
pub const LTP_ROW_ID_PROP_ID: u16 = 0x67F2;

/// The column of the row version.
pub const LTP_ROW_VERSION_PROP_ID: u16 = 0x67F3;

/// The number of children of an intermediate allocation of a row index.
pub const ROW_INDEX_GROUP: usize = 750;

/// A column of a table.
#[derive(Clone, Copy, PartialEq, Eq, Debug, Structural)]
pub struct TableColumnDescriptor {
    pub prop_type: PropertyType,
    pub prop_id: u16,
    pub offset: u16,
    pub size: u8,
    pub existence_bitmap_index: u8,
}

/// The layout of a table, where its row index stands, and the node of its rows.
pub struct TableContextInfo {
    pub end_4byte_values: u16,
    pub end_2byte_values: u16,
    pub end_1byte_values: u16,
    pub end_existence_bitmap: u16,
    pub row_index: HeapId,
    pub rows: Option<NodeId>,
    pub columns: Vec<TableColumnDescriptor>,
}

/// The layout of a table.
#[verifier::ext_equal]
pub struct TableLayout {
    pub end_4byte_values: u16,
    pub end_2byte_values: u16,
    pub end_1byte_values: u16,
    pub end_existence_bitmap: u16,
    pub columns: Seq<TableColumnDescriptor>,
}

impl View for TableContextInfo {
    type V = TableLayout;

    open spec fn view(&self) -> TableLayout {
        TableLayout {
            end_4byte_values: self.end_4byte_values,
            end_2byte_values: self.end_2byte_values,
            end_1byte_values: self.end_1byte_values,
            end_existence_bitmap: self.end_existence_bitmap,
            columns: self.columns@,
        }
    }
}

/// Whether every column and its existence bit lie inside a row.
pub open spec fn layout_wf(layout: TableLayout) -> bool {
    &&& layout.end_existence_bitmap >= 8
    &&& forall|i: int|
        0 <= i < layout.columns.len() ==> column_wf(#[trigger] layout.columns[i], layout)
}

/// Whether a column and its existence bit lie inside a row.
pub open spec fn column_wf(column: TableColumnDescriptor, layout: TableLayout) -> bool {
    &&& column.offset + column.size <= layout.end_existence_bitmap
    &&& layout.end_1byte_values + column.existence_bitmap_index / 8 < layout.end_existence_bitmap
}

/// The bytes of the first `count` columns.
pub open spec fn columns_bytes(columns: Seq<TableColumnDescriptor>, count: nat) -> Seq<u8>
    decreases count,
{
    if count == 0 {
        Seq::empty()
    } else {
        let column = columns[count - 1];
        columns_bytes(columns, (count - 1) as nat) + bytes::le16(column.prop_type.spec_code())
            + bytes::le16(column.prop_id) + bytes::le16(column.offset) + seq![
            column.size,
            column.existence_bitmap_index,
        ]
    }
}

/// The bytes of a table context. A table has at most 255 columns.
pub open spec fn context_bytes(
    layout: TableLayout,
    row_index: HeapId,
    rows: Option<NodeId>,
) -> Result<Seq<u8>, PstError> {
    if layout.columns.len() > u8::MAX {
        Err(PstError::Io(IoError::TooManyTableColumns))
    } else {
        Ok(
            seq![0x7Cu8, layout.columns.len() as u8] + bytes::le16(layout.end_4byte_values)
                + bytes::le16(layout.end_2byte_values) + bytes::le16(layout.end_1byte_values)
                + bytes::le16(layout.end_existence_bitmap) + bytes::le32(row_index.value)
                + bytes::le32(
                match rows {
                    Some(node) => node.value,
                    None => 0,
                },
            ) + bytes::zeros(4) + columns_bytes(layout.columns, layout.columns.len()),
        )
    }
}

/// A value for a table column.
pub enum TableCell {
    Value(PropertyValue),
    Bytes(Vec<u8>),
    Node(NodeId),
}

/// A value for a table column by its encoded bytes.
pub enum CellContents {
    Value(EncodedValue),
    Bytes(Seq<u8>),
    Node(NodeId),
}

impl View for TableCell {
    type V = CellContents;

    open spec fn view(&self) -> CellContents {
        match self {
            TableCell::Value(value) => CellContents::Value(value@),
            TableCell::Bytes(data) => CellContents::Bytes(data@),
            TableCell::Node(node) => CellContents::Node(*node),
        }
    }
}

/// The contents of an optional cell.
pub open spec fn cell_view(cell: Option<TableCell>) -> Option<CellContents> {
    match cell {
        Some(cell) => Some(cell@),
        None => None,
    }
}

/// The contents of optional cells.
pub open spec fn cell_views(cells: Seq<Option<TableCell>>) -> Seq<Option<CellContents>> {
    Seq::new(cells.len(), |i: int| cell_view(cells[i]))
}

/// Whether a table column of the given type holds the identifier of its value.
pub fn table_pointer_type(prop_type: PropertyType) -> (pointer: bool)
    ensures
        pointer == prop_type.is_pointer(),
{
    match prop_type {
        PropertyType::String8
        | PropertyType::Unicode
        | PropertyType::Guid
        | PropertyType::Binary
        | PropertyType::Object
        | PropertyType::MultipleInteger16
        | PropertyType::MultipleInteger32
        | PropertyType::MultipleFloating32
        | PropertyType::MultipleFloating64
        | PropertyType::MultipleCurrency
        | PropertyType::MultipleFloatingTime
        | PropertyType::MultipleInteger64
        | PropertyType::MultipleString8
        | PropertyType::MultipleUnicode
        | PropertyType::MultipleTime
        | PropertyType::MultipleGuid
        | PropertyType::MultipleBinary => true,
        _ => false,
    }
}

/// `row` with a value of fixed width written at a column. The value has to have the type of the
/// column and fit in it.
pub open spec fn with_fixed_value(
    row: Seq<u8>,
    column: TableColumnDescriptor,
    value: EncodedValue,
) -> Result<Seq<u8>, PstError> {
    if column.prop_type.is_pointer() || column.prop_type == PropertyType::Null || column.prop_type
        != value.prop_type {
        Err(PstError::Io(IoError::TableValueMismatch(column.prop_type)))
    } else if value.data.len() > column.size {
        Err(PstError::Io(IoError::TableColumnTooNarrow))
    } else {
        Ok(bytes::spliced(row, column.offset as int, value.data))
    }
}

/// `row` with the existence bit of a column set.
pub open spec fn with_existence_bit(
    row: Seq<u8>,
    layout: TableLayout,
    column: TableColumnDescriptor,
) -> Seq<u8> {
    let at = layout.end_1byte_values + column.existence_bitmap_index / 8;
    row.update(at, row[at] | (0x80u8 >> (column.existence_bitmap_index % 8)))
}

/// The heap after a value for a column of pointers was stored, and the identifier of the value.
pub open spec fn with_pointer(pages: Seq<Seq<Seq<u8>>>, cell: CellContents) -> (
    Seq<Seq<Seq<u8>>>,
    Result<u32, PstError>,
) {
    match cell {
        CellContents::Node(node) => (pages, Ok(node.value)),
        CellContents::Bytes(data) | CellContents::Value(EncodedValue { data, .. }) => match heap::heap_alloc(
            pages,
            data,
        ) {
            (after, Ok(id)) => (after, Ok(id.value)),
            (after, Err(error)) => (after, Err(error)),
        },
    }
}

/// The heap and the row after a cell was written to its column.
pub open spec fn with_cell(
    layout: TableLayout,
    pages: Seq<Seq<Seq<u8>>>,
    row: Seq<u8>,
    column: TableColumnDescriptor,
    cell: CellContents,
) -> (Seq<Seq<Seq<u8>>>, Result<Seq<u8>, PstError>) {
    let marked = with_existence_bit(row, layout, column);
    if column.prop_type.is_pointer() {
        match with_pointer(pages, cell) {
            (after, Err(error)) => (after, Err(error)),
            (after, Ok(pointer)) => if column.size < 4 {
                (after, Err(PstError::Io(IoError::TableColumnTooNarrow)))
            } else {
                (after, Ok(bytes::spliced(marked, column.offset as int, bytes::le32(pointer))))
            },
        }
    } else {
        match cell {
            CellContents::Value(value) => (pages, with_fixed_value(marked, column, value)),
            _ => (pages, Err(PstError::Io(IoError::IndirectFixedWidthValue))),
        }
    }
}

/// The heap and the row after the cells from `index` on were written to their columns. Cells and
/// columns without a counterpart are left out.
pub open spec fn with_cells(
    layout: TableLayout,
    pages: Seq<Seq<Seq<u8>>>,
    row: Seq<u8>,
    cells: Seq<Option<CellContents>>,
    index: int,
) -> (Seq<Seq<Seq<u8>>>, Result<Seq<u8>, PstError>)
    decreases cells.len() - index,
{
    if index >= cells.len() || index >= layout.columns.len() {
        (pages, Ok(row))
    } else {
        match cells[index] {
            None => with_cells(layout, pages, row, cells, index + 1),
            Some(cell) => match with_cell(layout, pages, row, layout.columns[index], cell) {
                (after, Err(error)) => (after, Err(error)),
                (after, Ok(next)) => with_cells(layout, after, next, cells, index + 1),
            },
        }
    }
}

/// A row that holds its identifier and its version, and nothing else yet.
pub open spec fn blank_row(layout: TableLayout, row_id: u32, unique: u32) -> Seq<u8> {
    bytes::le32(row_id) + bytes::le32(unique) + bytes::zeros(
        (layout.end_existence_bitmap - 8) as nat,
    )
}

/// The heap and the row with the given cells.
pub open spec fn with_row(
    layout: TableLayout,
    pages: Seq<Seq<Seq<u8>>>,
    row_id: u32,
    unique: u32,
    cells: Seq<Option<CellContents>>,
) -> (Seq<Seq<Seq<u8>>>, Result<Seq<u8>, PstError>) {
    with_cells(layout, pages, blank_row(layout, row_id, unique), cells, 0)
}

/// The bytes of `count` entries of a row index from `start` on: each row and its number.
pub open spec fn row_entries(rows: Seq<u32>, start: int, count: nat) -> Seq<u8>
    decreases count,
{
    if count == 0 {
        Seq::empty()
    } else {
        row_entries(rows, start, (count - 1) as nat) + bytes::le32(rows[start + count - 1])
            + bytes::le32((start + count - 1) as u32)
    }
}

/// The heap with one leaf allocation for every group of rows from `start` on, after the
/// allocations in `done`.
pub open spec fn with_row_leaves(
    pages: Seq<Seq<Seq<u8>>>,
    rows: Seq<u32>,
    start: int,
    done: Seq<HeapTreeChild>,
) -> (Seq<Seq<Seq<u8>>>, Result<Seq<HeapTreeChild>, PstError>)
    decreases rows.len() - start,
{
    if start >= rows.len() {
        (pages, Ok(done))
    } else {
        let end = levels::group_end(start, HEAP_TREE_LEAF_CAPACITY as int, rows.len() as int);
        if end - 1 > u32::MAX {
            (pages, Err(PstError::IntegerConversion))
        } else {
            match heap::heap_alloc(pages, row_entries(rows, start, (end - start) as nat)) {
                (after, Err(error)) => (after, Err(error)),
                (after, Ok(id)) => with_row_leaves(
                    after,
                    rows,
                    end,
                    done.push(HeapTreeChild { key: rows[start], id }),
                ),
            }
        }
    }
}

/// The layout of a row index: keys of four bytes and four bytes behind them.
pub open spec fn row_index_layout() -> HeapTreeLayout {
    HeapTreeLayout { key_size: 4, entry_size: 4, group: ROW_INDEX_GROUP }
}

/// The heap with an index of the given rows, and the identifier of its header.
pub open spec fn with_row_index(pages: Seq<Seq<Seq<u8>>>, rows: Seq<u32>) -> (
    Seq<Seq<Seq<u8>>>,
    Result<HeapId, PstError>,
) {
    match with_row_leaves(pages, rows, 0, Seq::empty()) {
        (after, Err(error)) => (after, Err(error)),
        (after, Ok(children)) => heap_tree::with_heap_tree(
            after,
            children,
            row_index_layout(),
            0,
        ),
    }
}

/// The bytes of a table context.
pub fn encode_context(
    context: &TableContextInfo,
    row_index: HeapId,
    rows: Option<NodeId>,
) -> (data: Result<Vec<u8>, PstError>)
    ensures
        crate::error::result_view(data) == context_bytes(context@, row_index, rows),
{
    if context.columns.len() > u8::MAX as usize {
        return Err(PstError::Io(IoError::TooManyTableColumns));
    }
    let mut data: Vec<u8> = Vec::new();
    data.push(0x7C);
    data.push(context.columns.len() as u8);
    bytes::push_u16(&mut data, context.end_4byte_values);
    bytes::push_u16(&mut data, context.end_2byte_values);
    bytes::push_u16(&mut data, context.end_1byte_values);
    bytes::push_u16(&mut data, context.end_existence_bitmap);
    bytes::push_u32(&mut data, row_index.value);
    bytes::push_u32(
        &mut data,
        match rows {
            Some(node) => node.value,
            None => 0,
        },
    );
    bytes::push_zeros(&mut data, 4);
    let mut columns: Vec<u8> = Vec::new();
    let mut i: usize = 0;
    while i < context.columns.len()
        invariant
            i <= context.columns@.len(),
            columns@ == columns_bytes(context.columns@, i as nat),
        decreases context.columns@.len() - i,
    {
        let column: TableColumnDescriptor = context.columns[i];
        bytes::push_u16(&mut columns, column.prop_type.code());
        bytes::push_u16(&mut columns, column.prop_id);
        bytes::push_u16(&mut columns, column.offset);
        columns.push(column.size);
        columns.push(column.existence_bitmap_index);
        i += 1;
        assert(columns@ =~= columns_bytes(context.columns@, i as nat));
    }
    bytes::push_bytes(&mut data, columns.as_slice());
    assert(data@ =~= context_bytes(context@, row_index, rows)->Ok_0);
    Ok(data)
}

/// Writes a value of fixed width at a column of `row`.
pub fn write_fixed_table_value(
    row: &mut Vec<u8>,
    column: &TableColumnDescriptor,
    value: &PropertyValue,
) -> (result: Result<(), PstError>)
    requires
        column.offset + column.size <= old(row)@.len(),
    ensures
        match with_fixed_value(old(row)@, *column, value@) {
            Ok(written) => result is Ok && final(row)@ == written,
            Err(error) => result == Err::<(), PstError>(error) && final(row)@ == old(row)@,
        },
{
    let prop_type: PropertyType = column.prop_type;
    if table_pointer_type(prop_type) || prop_type == PropertyType::Null || prop_type
        != value.property_type() {
        return Err(PstError::Io(IoError::TableValueMismatch(prop_type)));
    }
    let data = property::property_value_bytes(value);
    if data.len() > column.size as usize {
        return Err(PstError::Io(IoError::TableColumnTooNarrow));
    }
    bytes::write_at(row, column.offset as usize, data.as_slice());
    Ok(())
}

/// Stores a value for a column of pointers and returns its identifier.
fn store_pointer(heap: &mut HeapBuilder, cell: TableCell) -> (pointer: Result<u32, PstError>)
    requires
        heap::heap_wf(old(heap)@),
    ensures
        (final(heap)@, pointer) == with_pointer(old(heap)@, cell@),
        heap::heap_wf(final(heap)@),
{
    match cell {
        TableCell::Node(node) => Ok(node.value),
        TableCell::Bytes(data) => {
            let id = heap.allocate(data)?;
            Ok(id.value)
        },
        TableCell::Value(value) => {
            let id = heap.allocate(property::property_value_bytes(&value))?;
            Ok(id.value)
        },
    }
}

/// Writes a cell to its column of `row`.
fn write_cell(
    context: &TableContextInfo,
    heap: &mut HeapBuilder,
    row: Vec<u8>,
    column: &TableColumnDescriptor,
    cell: TableCell,
) -> (written: Result<Vec<u8>, PstError>)
    requires
        heap::heap_wf(old(heap)@),
        row@.len() == context.end_existence_bitmap,
        column_wf(*column, context@),
    ensures
        (final(heap)@, crate::error::result_view(written)) == with_cell(
            context@,
            old(heap)@,
            row@,
            *column,
            cell@,
        ),
        heap::heap_wf(final(heap)@),
        written matches Ok(written) ==> written@.len() == row@.len(),
{
    let mut row = row;
    let at: usize = context.end_1byte_values as usize + column.existence_bitmap_index as usize / 8;
    let bit: u8 = 0x80u8 >> (column.existence_bitmap_index % 8);
    let byte: u8 = row[at] | bit;
    row.set(at, byte);
    if table_pointer_type(column.prop_type) {
        let pointer: u32 = store_pointer(heap, cell)?;
        if column.size < 4 {
            return Err(PstError::Io(IoError::TableColumnTooNarrow));
        }
        bytes::write_u32_at(&mut row, column.offset as usize, pointer);
    } else {
        match cell {
            TableCell::Value(value) => {
                write_fixed_table_value(&mut row, column, &value)?;
            },
            _ => {
                return Err(PstError::Io(IoError::IndirectFixedWidthValue));
            },
        }
    }
    Ok(row)
}

/// Whether a row can hold its identifier, its version and its cells: every column that gets a cell lies
/// inside the row, with its existence bit.
pub open spec fn row_fits(layout: TableLayout, cells: Seq<Option<CellContents>>) -> bool {
    &&& layout.end_existence_bitmap >= 8
    &&& forall|i: int|
        0 <= i < cells.len() && i < layout.columns.len() && cells[i] is Some ==> column_wf(
            #[trigger] layout.columns[i],
            layout,
        )
}

/// Whether a row can hold the given cells.
pub fn cells_fit(context: &TableContextInfo, cells: &Vec<Option<TableCell>>) -> (fit: bool)
    ensures
        fit == row_fits(context@, cell_views(cells@)),
{
    let ghost given = cell_views(cells@);
    if context.end_existence_bitmap < 8 {
        return false;
    }
    let mut i: usize = 0;
    while i < cells.len() && i < context.columns.len()
        invariant
            i <= cells@.len(),
            i <= context.columns@.len(),
            given == cell_views(cells@),
            context.end_existence_bitmap >= 8,
            forall|j: int|
                0 <= j < i && given[j] is Some ==> column_wf(
                    #[trigger] context.columns@[j],
                    context@,
                ),
        decreases cells@.len() - i,
    {
        let column: TableColumnDescriptor = context.columns[i];
        assert(given[i as int] == cell_view(cells@[i as int]));
        if cells[i].is_some() && (column.offset as u32 + column.size as u32
            > context.end_existence_bitmap as u32 || context.end_1byte_values as u32
            + column.existence_bitmap_index as u32 / 8 >= context.end_existence_bitmap as u32) {
            assert(!column_wf(context@.columns[i as int], context@));
            return false;
        }
        i += 1;
    }
    true
}

/// The row with the given cells. Values that do not stand in the row go to the heap.
pub fn encode_table_row(
    context: &TableContextInfo,
    heap: &mut HeapBuilder,
    row_id: u32,
    unique: u32,
    cells: Vec<Option<TableCell>>,
) -> (row: Result<Vec<u8>, PstError>)
    requires
        heap::heap_wf(old(heap)@),
        row_fits(context@, cell_views(cells@)),
    ensures
        (final(heap)@, crate::error::result_view(row)) == with_row(
            context@,
            old(heap)@,
            row_id,
            unique,
            cell_views(cells@),
        ),
        heap::heap_wf(final(heap)@),
        row matches Ok(row) ==> row@.len() == context.end_existence_bitmap,
{
    let ghost given = cell_views(cells@);
    let mut rest = cells;
    let mut row: Vec<u8> = Vec::new();
    bytes::push_u32(&mut row, row_id);
    bytes::push_u32(&mut row, unique);
    bytes::push_zeros(&mut row, context.end_existence_bitmap as usize - 8);
    assert(row@ =~= blank_row(context@, row_id, unique));
    let mut i: usize = 0;
    while i < rest.len() && i < context.columns.len()
        invariant
            i <= rest@.len(),
            i <= context.columns@.len(),
            rest@.len() == given.len(),
            given == cell_views(cells@),
            row_fits(context@, given),
            heap::heap_wf(heap@),
            row@.len() == context.end_existence_bitmap,
            forall|j: int| i <= j < given.len() ==> cell_view(#[trigger] rest@[j]) == given[j],
            with_row(context@, old(heap)@, row_id, unique, given) == with_cells(
                context@,
                heap@,
                row@,
                given,
                i as int,
            ),
        decreases rest@.len() - i,
    {
        let mut cell: Option<TableCell> = None;
        std::mem::swap(&mut cell, &mut rest[i]);
        assert(cell_view(cell) == given[i as int]);
        match cell {
            Some(cell) => {
                assert(column_wf(context@.columns[i as int], context@));
                row = write_cell(context, heap, row, &context.columns[i], cell)?;
            },
            None => {},
        }
        i += 1;
    }
    Ok(row)
}

/// Builds an index of the given rows.
pub fn build_row_index(heap: &mut HeapBuilder, rows: &Vec<u32>) -> (header: Result<
    HeapId,
    PstError,
>)
    requires
        heap::heap_wf(old(heap)@),
    ensures
        (final(heap)@, header) == with_row_index(old(heap)@, rows@),
        heap::heap_wf(final(heap)@),
{
    let mut children: Vec<HeapTreeChild> = Vec::new();
    let mut start: usize = 0;
    while start < rows.len()
        invariant
            start <= rows@.len(),
            heap::heap_wf(heap@),
            with_row_leaves(old(heap)@, rows@, 0, Seq::empty()) == with_row_leaves(
                heap@,
                rows@,
                start as int,
                children@,
            ),
        decreases rows@.len() - start,
    {
        let end: usize = levels::next_group(start, HEAP_TREE_LEAF_CAPACITY, rows.len());
        if end - 1 > u32::MAX as usize {
            return Err(PstError::IntegerConversion);
        }
        let mut data: Vec<u8> = Vec::new();
        let mut i: usize = start;
        while i < end
            invariant
                start <= i <= end <= rows@.len(),
                end - 1 <= u32::MAX,
                data@ == row_entries(rows@, start as int, (i - start) as nat),
            decreases end - i,
        {
            bytes::push_u32(&mut data, rows[i]);
            bytes::push_u32(&mut data, i as u32);
            i += 1;
        }
        let id = heap.allocate(data)?;
        children.push(HeapTreeChild { key: rows[start], id });
        start = end;
    }
    let layout = HeapTreeLayout { key_size: 4, entry_size: 4, group: ROW_INDEX_GROUP };
    heap_tree::build_heap_tree(heap, children, layout)
}

} // verus!
