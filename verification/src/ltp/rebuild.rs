//! Tables written anew with more rows or changed values.

use vstd::prelude::*;

use crate::bytes;
use crate::error::{IoError, PstError};
use crate::ltp::heap;
use crate::ltp::heap::{HeapBuilder, HeapId, HeapNodeType, MAX_DATA_BLOCK_SIZE};
use crate::ltp::property;
use crate::ltp::property::{EncodedValue, PropertyType, PropertyValue};
use crate::ltp::table;
use crate::ltp::table::{
    CellContents, TableCell, TableColumnDescriptor, TableContextInfo, TableLayout,
    LTP_ROW_VERSION_PROP_ID,
};
use crate::ndb::ids::NodeId;

verus! {

/// The value of a column in a row that was read: in the row, in the heap of the table with its
/// value, or in a subnode.
pub enum TableRowColumnValue {
    Small(PropertyValue),
    Heap(HeapId, PropertyValue),
    Node(NodeId),
}

/// A row that was read: its identifier, its version, its bytes, and the values of its columns. The
/// values are only needed of a row that is encoded anew.
pub struct TableRow {
    pub id: u32,
    pub unique: u32,
    pub data: Vec<u8>,
    pub columns: Vec<Option<TableRowColumnValue>>,
}

/// A table that was read: its layout, its rows, and the slots of its heap pages. The heap is only
/// needed where existing rows are kept.
pub struct TableContext {
    pub context: TableContextInfo,
    pub rows: Vec<TableRow>,
    pub heap_pages: Vec<Vec<Vec<u8>>>,
}

/// A row that is added to a table.
pub struct NewTableRow {
    pub id: NodeId,
    pub cells: Vec<Option<TableCell>>,
}

/// A value to be set in one row of a table.
pub struct TableUpdate {
    pub row: NodeId,
    pub property: u16,
    pub value: PropertyValue,
}

/// A rebuilt table: its heap pages, its rows in chunks of a data block, and the identifiers of its
/// rows.
pub struct RebuiltTable {
    pub heap_pages: Vec<Vec<u8>>,
    pub row_chunks: Vec<Vec<u8>>,
    pub row_ids: Vec<u32>,
}

/// The cell that stands for an existing value of a column. An identifier of nothing is no value.
pub open spec fn existing_cell(value: Option<TableRowColumnValue>) -> Option<CellContents> {
    match value {
        None => None,
        Some(TableRowColumnValue::Small(value)) => Some(CellContents::Value(value@)),
        Some(TableRowColumnValue::Heap(id, value)) => if id.value == 0 {
            None
        } else {
            Some(CellContents::Value(value@))
        },
        Some(TableRowColumnValue::Node(node)) => if node.value == 0 {
            None
        } else {
            Some(CellContents::Node(node))
        },
    }
}

/// A row that was read.
#[verifier::ext_equal]
pub struct RowContents {
    pub id: u32,
    pub unique: u32,
    pub data: Seq<u8>,
    pub cells: Seq<Option<CellContents>>,
}

impl View for TableRow {
    type V = RowContents;

    open spec fn view(&self) -> RowContents {
        RowContents {
            id: self.id,
            unique: self.unique,
            data: self.data@,
            cells: Seq::new(self.columns@.len(), |i: int| existing_cell(self.columns@[i])),
        }
    }
}

/// A table that was read.
#[verifier::ext_equal]
pub struct TableContents {
    pub layout: TableLayout,
    pub rows: Seq<RowContents>,
    pub pages: Seq<Seq<Seq<u8>>>,
}

impl View for TableContext {
    type V = TableContents;

    open spec fn view(&self) -> TableContents {
        TableContents {
            layout: self.context@,
            rows: bytes::views(self.rows@),
            pages: heap::page_views(self.heap_pages@),
        }
    }
}

/// A row that is added to a table.
#[verifier::ext_equal]
pub struct NewRowContents {
    pub id: NodeId,
    pub cells: Seq<Option<CellContents>>,
}

impl View for NewTableRow {
    type V = NewRowContents;

    open spec fn view(&self) -> NewRowContents {
        NewRowContents { id: self.id, cells: table::cell_views(self.cells@) }
    }
}

/// A value to be set in one row of a table.
#[verifier::ext_equal]
pub struct UpdateContents {
    pub row: NodeId,
    pub property: u16,
    pub value: EncodedValue,
}

/// The contents of an optional update.
pub open spec fn update_view(update: Option<TableUpdate>) -> Option<UpdateContents> {
    match update {
        Some(update) => Some(
            UpdateContents {
                row: update.row,
                property: update.property,
                value: update.value@,
            },
        ),
        None => None,
    }
}

/// A rebuilt table.
#[verifier::ext_equal]
pub struct RebuiltContents {
    pub heap_pages: Seq<Seq<u8>>,
    pub row_chunks: Seq<Seq<u8>>,
    pub row_ids: Seq<u32>,
}

impl View for RebuiltTable {
    type V = RebuiltContents;

    open spec fn view(&self) -> RebuiltContents {
        RebuiltContents {
            heap_pages: bytes::views(self.heap_pages@),
            row_chunks: bytes::views(self.row_chunks@),
            row_ids: self.row_ids@,
        }
    }
}

/// `chunks` with one more row: in the last chunk, or in a new one where it does not fit there.
pub open spec fn with_chunked_row(chunks: Seq<Seq<u8>>, row_size: int, row: Seq<u8>) -> Result<
    Seq<Seq<u8>>,
    PstError,
> {
    if row_size == 0 || row_size > MAX_DATA_BLOCK_SIZE {
        Err(PstError::Io(IoError::TableRowDoesNotFit))
    } else if chunks.len() == 0 || chunks.last().len() + row_size > MAX_DATA_BLOCK_SIZE {
        Ok(chunks.push(row))
    } else {
        Ok(chunks.update(chunks.len() - 1, chunks.last() + row))
    }
}

/// The rows of a table so far: the heap, the chunks, and the identifiers.
#[verifier::ext_equal]
pub struct RowsSoFar {
    pub pages: Seq<Seq<Seq<u8>>>,
    pub chunks: Seq<Seq<u8>>,
    pub ids: Seq<u32>,
}

/// `rows` with one more row, whose bytes are given.
pub open spec fn with_raw_row(
    rows: RowsSoFar,
    layout: TableLayout,
    id: u32,
    data: Seq<u8>,
) -> Result<RowsSoFar, PstError> {
    match with_chunked_row(rows.chunks, layout.end_existence_bitmap as int, data) {
        Err(error) => Err(error),
        Ok(chunks) => Ok(RowsSoFar { pages: rows.pages, chunks, ids: rows.ids.push(id) }),
    }
}

/// `rows` with one more row, encoded from its cells.
#[verifier::opaque]
pub open spec fn with_encoded_row(
    rows: RowsSoFar,
    layout: TableLayout,
    id: u32,
    unique: u32,
    cells: Seq<Option<CellContents>>,
) -> Result<RowsSoFar, PstError> {
    match table::with_row(layout, rows.pages, id, unique, cells) {
        (_, Err(error)) => Err(error),
        (pages, Ok(data)) => with_raw_row(RowsSoFar { pages, ..rows }, layout, id, data),
    }
}

/// Whether a property is left out of an existing row that is encoded anew beside kept rows.
pub open spec fn is_replication_property(id: u16) -> bool {
    id == 0x0E30 || id == 0x0E33 || id == 0x0E34
}

/// The cell of an existing row that is encoded anew.
pub open spec fn changed_cell(
    column: TableColumnDescriptor,
    cell: Option<CellContents>,
    preserve: bool,
    update: Option<UpdateContents>,
    row_version: u32,
) -> Option<CellContents> {
    let kept = if preserve && is_replication_property(column.prop_id) {
        None
    } else {
        cell
    };
    match update {
        None => kept,
        Some(update) => if column.prop_id == update.property && column.prop_type
            == update.value.prop_type {
            Some(CellContents::Value(update.value))
        } else if column.prop_id == LTP_ROW_VERSION_PROP_ID && column.prop_type
            == PropertyType::Integer32 {
            Some(CellContents::Value(property::integer32_value(row_version)))
        } else {
            kept
        },
    }
}

/// The cells of an existing row that is encoded anew.
pub open spec fn changed_cells(
    layout: TableLayout,
    cells: Seq<Option<CellContents>>,
    preserve: bool,
    update: Option<UpdateContents>,
    row_version: u32,
) -> Seq<Option<CellContents>> {
    Seq::new(
        if cells.len() < layout.columns.len() {
            cells.len()
        } else {
            layout.columns.len()
        },
        |i: int| changed_cell(layout.columns[i], cells[i], preserve, update, row_version),
    )
}

/// An update, where it is the row's own.
pub open spec fn own_update(
    row: RowContents,
    update: Option<UpdateContents>,
) -> Option<UpdateContents> {
    match update {
        Some(update) => if update.row.value == row.id {
            Some(update)
        } else {
            None
        },
        None => None,
    }
}

/// Whether an existing row is kept byte by byte, or can hold the cells with which it is encoded anew.
pub open spec fn existing_row_fits(
    layout: TableLayout,
    row: RowContents,
    preserve: bool,
    update: Option<UpdateContents>,
    row_version: u32,
) -> bool {
    let own = own_update(row, update);
    (preserve && own is None) || table::row_fits(
        layout,
        changed_cells(layout, row.cells, preserve, own, row_version),
    )
}

/// Whether every row of a table that is encoded can hold its cells.
pub open spec fn rows_fit(
    table: TableContents,
    new_rows: Seq<NewRowContents>,
    row_version: u32,
    update: Option<UpdateContents>,
    preserve: bool,
) -> bool {
    &&& forall|i: int|
        0 <= i < table.rows.len() ==> existing_row_fits(
            table.layout,
            #[trigger] table.rows[i],
            preserve,
            update,
            row_version,
        )
    &&& forall|i: int|
        0 <= i < new_rows.len() ==> table::row_fits(
            table.layout,
            (#[trigger] new_rows[i]).cells,
        )
}

/// `rows` with an existing row. Where existing rows are kept, a row without an update is kept byte
/// by byte. Every other row is encoded anew, with the update where it is the row's own.
pub open spec fn with_existing_row(
    rows: RowsSoFar,
    layout: TableLayout,
    row: RowContents,
    preserve: bool,
    update: Option<UpdateContents>,
    row_version: u32,
) -> Result<RowsSoFar, PstError> {
    let own = own_update(row, update);
    if preserve && own is None {
        with_raw_row(rows, layout, row.id, row.data)
    } else {
        let unique = if own is Some {
            row_version
        } else {
            row.unique
        };
        with_encoded_row(
            rows,
            layout,
            row.id,
            unique,
            changed_cells(layout, row.cells, preserve, own, row_version),
        )
    }
}

/// `rows` with the existing rows from `index` on.
pub open spec fn with_existing_rows(
    rows: RowsSoFar,
    layout: TableLayout,
    existing: Seq<RowContents>,
    index: int,
    preserve: bool,
    update: Option<UpdateContents>,
    row_version: u32,
) -> Result<RowsSoFar, PstError>
    decreases existing.len() - index,
{
    if index >= existing.len() {
        Ok(rows)
    } else {
        match with_existing_row(rows, layout, existing[index], preserve, update, row_version) {
            Err(error) => Err(error),
            Ok(next) => with_existing_rows(
                next,
                layout,
                existing,
                index + 1,
                preserve,
                update,
                row_version,
            ),
        }
    }
}

/// `rows` with the new rows from `index` on.
pub open spec fn with_new_rows(
    rows: RowsSoFar,
    layout: TableLayout,
    new_rows: Seq<NewRowContents>,
    index: int,
    row_version: u32,
) -> Result<RowsSoFar, PstError>
    decreases new_rows.len() - index,
{
    if index >= new_rows.len() {
        Ok(rows)
    } else {
        match with_encoded_row(
            rows,
            layout,
            new_rows[index].id.value,
            row_version,
            new_rows[index].cells,
        ) {
            Err(error) => Err(error),
            Ok(next) => with_new_rows(next, layout, new_rows, index + 1, row_version),
        }
    }
}

/// The finished table with the given rows: the row index and the table context go to the heap.
#[verifier::opaque]
pub open spec fn finished_table(
    rows: RowsSoFar,
    layout: TableLayout,
    rows_node: Option<NodeId>,
) -> Result<RebuiltContents, PstError> {
    match table::with_row_index(rows.pages, rows.ids) {
        (_, Err(error)) => Err(error),
        (pages, Ok(row_index)) => if rows.ids.len() > 0 && rows_node is None {
            Err(PstError::Io(IoError::TableRowsNodeMissing))
        } else {
            let node = if rows.ids.len() == 0 {
                None
            } else {
                rows_node
            };
            match table::context_bytes(layout, row_index, node) {
                Err(error) => Err(error),
                Ok(context) => match heap::heap_alloc(pages, context) {
                    (_, Err(error)) => Err(error),
                    (pages, Ok(root)) => match heap::finished_pages(
                        pages,
                        0,
                        Seq::empty(),
                        HeapNodeType::Table,
                        root,
                    ) {
                        Err(error) => Err(error),
                        Ok(heap_pages) => Ok(
                            RebuiltContents {
                                heap_pages,
                                row_chunks: rows.chunks,
                                row_ids: rows.ids,
                            },
                        ),
                    },
                },
            }
        },
    }
}

/// The table with its existing rows and then the new ones.
pub open spec fn spec_rebuild_table(
    table: TableContents,
    new_rows: Seq<NewRowContents>,
    rows_node: Option<NodeId>,
    row_version: u32,
    update: Option<UpdateContents>,
    preserve: bool,
) -> Result<RebuiltContents, PstError> {
    let start = RowsSoFar {
        pages: if preserve {
            table.pages
        } else {
            heap::empty_heap()
        },
        chunks: Seq::empty(),
        ids: Seq::empty(),
    };
    match with_existing_rows(
        start,
        table.layout,
        table.rows,
        0,
        preserve,
        update,
        row_version,
    ) {
        Err(error) => Err(error),
        Ok(rows) => match with_new_rows(rows, table.layout, new_rows, 0, row_version) {
            Err(error) => Err(error),
            Ok(rows) => finished_table(rows, table.layout, rows_node),
        },
    }
}

proof fn lemma_existing_count(
    rows: RowsSoFar,
    layout: TableLayout,
    existing: Seq<RowContents>,
    index: int,
    preserve: bool,
    update: Option<UpdateContents>,
    row_version: u32,
)
    requires
        0 <= index <= existing.len(),
    ensures
        with_existing_rows(
            rows,
            layout,
            existing,
            index,
            preserve,
            update,
            row_version,
        ) matches Ok(after) ==> after.ids.len() == rows.ids.len() + existing.len() - index,
    decreases existing.len() - index,
{
    reveal(with_encoded_row);
    if index < existing.len() {
        if let Ok(next) = with_existing_row(
            rows,
            layout,
            existing[index],
            preserve,
            update,
            row_version,
        ) {
            lemma_existing_count(
                next,
                layout,
                existing,
                index + 1,
                preserve,
                update,
                row_version,
            );
        }
    }
}

proof fn lemma_new_count(
    rows: RowsSoFar,
    layout: TableLayout,
    new_rows: Seq<NewRowContents>,
    index: int,
    row_version: u32,
)
    requires
        0 <= index <= new_rows.len(),
    ensures
        with_new_rows(rows, layout, new_rows, index, row_version) matches Ok(after)
            ==> after.ids.len() == rows.ids.len() + new_rows.len() - index,
    decreases new_rows.len() - index,
{
    reveal(with_encoded_row);
    if index < new_rows.len() {
        let row = new_rows[index];
        if let Ok(next) = with_encoded_row(rows, layout, row.id.value, row_version, row.cells) {
            lemma_new_count(next, layout, new_rows, index + 1, row_version);
        }
    }
}

/// A rebuilt table has as many rows as it had, and the new ones.
pub proof fn law_rebuilt_row_count(
    table: TableContents,
    new_rows: Seq<NewRowContents>,
    rows_node: Option<NodeId>,
    row_version: u32,
    update: Option<UpdateContents>,
    preserve: bool,
)
    ensures
        spec_rebuild_table(
            table,
            new_rows,
            rows_node,
            row_version,
            update,
            preserve,
        ) matches Ok(rebuilt) ==> rebuilt.row_ids.len() == table.rows.len() + new_rows.len(),
{
    reveal(finished_table);
    let start = RowsSoFar {
        pages: if preserve {
            table.pages
        } else {
            heap::empty_heap()
        },
        chunks: Seq::empty(),
        ids: Seq::empty(),
    };
    lemma_existing_count(start, table.layout, table.rows, 0, preserve, update, row_version);
    if let Ok(rows) = with_existing_rows(
        start,
        table.layout,
        table.rows,
        0,
        preserve,
        update,
        row_version,
    ) {
        lemma_new_count(rows, table.layout, new_rows, 0, row_version);
    }
}

/// A copy of the slots of a page.
fn copy_slots(slots: &Vec<Vec<u8>>) -> (copy: Vec<Vec<u8>>)
    ensures
        bytes::views(copy@) == bytes::views(slots@),
{
    let mut copy: Vec<Vec<u8>> = Vec::new();
    let mut i: usize = 0;
    while i < slots.len()
        invariant
            i <= slots@.len(),
            copy@.len() == i,
            forall|j: int| 0 <= j < i ==> (#[trigger] copy@[j])@ == slots@[j]@,
        decreases slots@.len() - i,
    {
        copy.push(bytes::copy(slots[i].as_slice()));
        i += 1;
    }
    assert(bytes::views(copy@) =~= bytes::views(slots@));
    copy
}

/// A copy of the pages of a heap.
fn copy_pages(pages: &Vec<Vec<Vec<u8>>>) -> (copy: Vec<Vec<Vec<u8>>>)
    ensures
        heap::page_views(copy@) == heap::page_views(pages@),
{
    let mut copy: Vec<Vec<Vec<u8>>> = Vec::new();
    let mut i: usize = 0;
    while i < pages.len()
        invariant
            i <= pages@.len(),
            copy@.len() == i,
            forall|j: int|
                0 <= j < i ==> bytes::views((#[trigger] copy@[j])@) == bytes::views(pages@[j]@),
        decreases pages@.len() - i,
    {
        copy.push(copy_slots(&pages[i]));
        i += 1;
    }
    assert(heap::page_views(copy@) =~= heap::page_views(pages@));
    copy
}

/// Adds a row to the last chunk, or to a new one where it does not fit there.
fn push_row(chunks: &mut Vec<Vec<u8>>, row_size: u16, row: &Vec<u8>) -> (result: Result<
    (),
    PstError,
>)
    ensures
        match with_chunked_row(bytes::views(old(chunks)@), row_size as int, row@) {
            Ok(after) => result is Ok && bytes::views(final(chunks)@) == after,
            Err(error) => result == Err::<(), PstError>(error),
        },
{
    if row_size == 0 || row_size as usize > MAX_DATA_BLOCK_SIZE {
        return Err(PstError::Io(IoError::TableRowDoesNotFit));
    }
    let ghost before = bytes::views(chunks@);
    let count: usize = chunks.len();
    if count == 0 {
        chunks.push(bytes::copy(row.as_slice()));
        assert(bytes::views(chunks@) =~= before.push(row@));
        return Ok(());
    }
    assert(before.last() == chunks@[count - 1]@);
    if chunks[count - 1].len() > MAX_DATA_BLOCK_SIZE - row_size as usize {
        chunks.push(bytes::copy(row.as_slice()));
        assert(bytes::views(chunks@) =~= before.push(row@));
        return Ok(());
    }
    match chunks.pop() {
        Some(mut last) => {
            bytes::push_bytes(&mut last, row.as_slice());
            chunks.push(last);
        },
        None => {},
    }
    assert(bytes::views(chunks@) =~= before.update(count - 1, before.last() + row@));
    Ok(())
}

/// The cell of an existing row that is encoded anew.
fn change_cell(
    column: &TableColumnDescriptor,
    value: &Option<TableRowColumnValue>,
    preserve: bool,
    update: Option<&TableUpdate>,
    row_version: u32,
) -> (cell: Option<TableCell>)
    ensures
        table::cell_view(cell) == changed_cell(
            *column,
            existing_cell(*value),
            preserve,
            match update {
                Some(update) => update_view(Some(*update)),
                None => None,
            },
            row_version,
        ),
{
    match update {
        Some(update) => {
            if column.prop_id == update.property && column.prop_type
                == update.value.property_type() {
                return Some(TableCell::Value(update.value.copy()));
            }
            if column.prop_id == LTP_ROW_VERSION_PROP_ID && column.prop_type
                == PropertyType::Integer32 {
                return Some(TableCell::Value(property::integer32(row_version)));
            }
        },
        None => {},
    }
    if preserve && (column.prop_id == 0x0E30 || column.prop_id == 0x0E33 || column.prop_id
        == 0x0E34) {
        return None;
    }
    match value {
        None => None,
        Some(TableRowColumnValue::Small(value)) => Some(TableCell::Value(value.copy())),
        Some(TableRowColumnValue::Heap(id, value)) => if id.value == 0 {
            None
        } else {
            Some(TableCell::Value(value.copy()))
        },
        Some(TableRowColumnValue::Node(node)) => if node.value == 0 {
            None
        } else {
            Some(TableCell::Node(*node))
        },
    }
}

/// The cells of an existing row that is encoded anew.
fn change_cells(
    context: &TableContextInfo,
    row: &TableRow,
    preserve: bool,
    update: Option<&TableUpdate>,
    row_version: u32,
) -> (cells: Vec<Option<TableCell>>)
    ensures
        table::cell_views(cells@) == changed_cells(
            context@,
            row@.cells,
            preserve,
            match update {
                Some(update) => update_view(Some(*update)),
                None => None,
            },
            row_version,
        ),
{
    let mut cells: Vec<Option<TableCell>> = Vec::new();
    let ghost expected = changed_cells(
        context@,
        row@.cells,
        preserve,
        match update {
            Some(update) => update_view(Some(*update)),
            None => None,
        },
        row_version,
    );
    let mut i: usize = 0;
    while i < row.columns.len() && i < context.columns.len()
        invariant
            i <= row.columns@.len(),
            i <= context.columns@.len(),
            cells@.len() == i,
            expected == changed_cells(
                context@,
                row@.cells,
                preserve,
                match update {
                    Some(update) => update_view(Some(*update)),
                    None => None,
                },
                row_version,
            ),
            forall|j: int| 0 <= j < i ==> table::cell_view(#[trigger] cells@[j]) == expected[j],
        decreases row.columns@.len() - i,
    {
        cells.push(
            change_cell(&context.columns[i], &row.columns[i], preserve, update, row_version),
        );
        i += 1;
    }
    assert(table::cell_views(cells@) =~= expected);
    cells
}

/// Adds a row encoded from its cells.
pub(crate) fn push_encoded_row(
    context: &TableContextInfo,
    heap: &mut HeapBuilder,
    chunks: &mut Vec<Vec<u8>>,
    ids: &mut Vec<u32>,
    row_id: u32,
    unique: u32,
    cells: Vec<Option<TableCell>>,
) -> (result: Result<(), PstError>)
    requires
        heap::heap_wf(old(heap)@),
        table::row_fits(context@, table::cell_views(cells@)),
    ensures
        heap::heap_wf(final(heap)@),
        match with_encoded_row(
            (RowsSoFar {
                pages: old(heap)@,
                chunks: bytes::views(old(chunks)@),
                ids: old(ids)@,
            }),
            context@,
            row_id,
            unique,
            table::cell_views(cells@),
        ) {
            Ok(after) => result is Ok && after == (RowsSoFar {
                pages: final(heap)@,
                chunks: bytes::views(final(chunks)@),
                ids: final(ids)@,
            }),
            Err(error) => result == Err::<(), PstError>(error),
        },
{
    reveal(with_encoded_row);
    let data = table::encode_table_row(context, heap, row_id, unique, cells)?;
    push_row(chunks, context.end_existence_bitmap, &data)?;
    ids.push(row_id);
    Ok(())
}

/// Adds an existing row.
fn push_existing_row(
    context: &TableContextInfo,
    heap: &mut HeapBuilder,
    chunks: &mut Vec<Vec<u8>>,
    ids: &mut Vec<u32>,
    row: &TableRow,
    preserve: bool,
    update: &Option<TableUpdate>,
    row_version: u32,
) -> (result: Result<(), PstError>)
    requires
        heap::heap_wf(old(heap)@),
        existing_row_fits(context@, row@, preserve, update_view(*update), row_version),
    ensures
        heap::heap_wf(final(heap)@),
        match with_existing_row(
            (RowsSoFar {
                pages: old(heap)@,
                chunks: bytes::views(old(chunks)@),
                ids: old(ids)@,
            }),
            context@,
            row@,
            preserve,
            update_view(*update),
            row_version,
        ) {
            Ok(after) => result is Ok && after == (RowsSoFar {
                pages: final(heap)@,
                chunks: bytes::views(final(chunks)@),
                ids: final(ids)@,
            }),
            Err(error) => result == Err::<(), PstError>(error),
        },
{
    let own: Option<&TableUpdate> = match update {
        Some(update) => if update.row.value == row.id {
            Some(update)
        } else {
            None
        },
        None => None,
    };
    if preserve && own.is_none() {
        push_row(chunks, context.end_existence_bitmap, &row.data)?;
        ids.push(row.id);
        return Ok(());
    }
    let unique: u32 = if own.is_some() {
        row_version
    } else {
        row.unique
    };
    let cells = change_cells(context, row, preserve, own, row_version);
    push_encoded_row(context, heap, chunks, ids, row.id, unique, cells)
}

/// Whether an existing row is kept byte by byte, or can hold the cells with which it is encoded anew.
fn row_can_be_rebuilt(
    context: &TableContextInfo,
    row: &TableRow,
    preserve: bool,
    update: &Option<TableUpdate>,
    row_version: u32,
) -> (fits: bool)
    ensures
        fits == existing_row_fits(context@, row@, preserve, update_view(*update), row_version),
{
    let own: Option<&TableUpdate> = match update {
        Some(update) => if update.row.value == row.id {
            Some(update)
        } else {
            None
        },
        None => None,
    };
    if preserve && own.is_none() {
        return true;
    }
    let cells = change_cells(context, row, preserve, own, row_version);
    table::cells_fit(context, &cells)
}

/// Whether every row of a table that is encoded can hold its cells.
pub fn can_rebuild_table(
    table: &TableContext,
    new_rows: &Vec<NewTableRow>,
    row_version: u32,
    update: &Option<TableUpdate>,
    preserve_existing_rows: bool,
) -> (fits: bool)
    ensures
        fits == rows_fit(
            table@,
            bytes::views(new_rows@),
            row_version,
            update_view(*update),
            preserve_existing_rows,
        ),
{
    let ghost layout = table@.layout;
    let ghost existing = table@.rows;
    let ghost added = bytes::views(new_rows@);
    let mut i: usize = 0;
    while i < table.rows.len()
        invariant
            i <= table.rows@.len(),
            layout == table.context@,
            existing == bytes::views(table.rows@),
            forall|k: int|
                0 <= k < i ==> existing_row_fits(
                    layout,
                    #[trigger] existing[k],
                    preserve_existing_rows,
                    update_view(*update),
                    row_version,
                ),
        decreases table.rows@.len() - i,
    {
        assert(existing[i as int] == table.rows@[i as int]@);
        if !row_can_be_rebuilt(
            &table.context,
            &table.rows[i],
            preserve_existing_rows,
            update,
            row_version,
        ) {
            assert(!existing_row_fits(
                table@.layout,
                table@.rows[i as int],
                preserve_existing_rows,
                update_view(*update),
                row_version,
            ));
            return false;
        }
        i += 1;
    }
    let mut j: usize = 0;
    while j < new_rows.len()
        invariant
            j <= new_rows@.len(),
            layout == table.context@,
            added == bytes::views(new_rows@),
            forall|k: int|
                0 <= k < j ==> table::row_fits(layout, (#[trigger] added[k]).cells),
        decreases new_rows@.len() - j,
    {
        assert(added[j as int] == new_rows@[j as int]@);
        if !table::cells_fit(&table.context, &new_rows[j].cells) {
            return false;
        }
        j += 1;
    }
    true
}

/// Whether the heap of a table can be written to.
pub fn has_heap(table: &TableContext) -> (has: bool)
    ensures
        has == heap::heap_wf(table@.pages),
{
    if table.heap_pages.len() == 0 {
        return false;
    }
    let mut i: usize = 0;
    while i < table.heap_pages.len()
        invariant
            i <= table.heap_pages@.len(),
            table.heap_pages@.len() > 0,
            forall|j: int| 0 <= j < i ==> (#[trigger] table.heap_pages@[j])@.len() > 0,
        decreases table.heap_pages@.len() - i,
    {
        if table.heap_pages[i].len() == 0 {
            assert(table@.pages[i as int].len() == 0);
            return false;
        }
        i += 1;
    }
    assert forall|j: int| 0 <= j < table@.pages.len() implies (
    #[trigger] table@.pages[j]).len() > 0 by {
        assert(table.heap_pages@[j]@.len() > 0);
    }
    true
}

/// Puts the row index and the table context into the heap and finishes it.
pub(crate) fn finish_table(
    context: &TableContextInfo,
    heap: HeapBuilder,
    chunks: Vec<Vec<u8>>,
    ids: Vec<u32>,
    rows_node: Option<NodeId>,
) -> (result: Result<RebuiltTable, PstError>)
    requires
        heap::heap_wf(heap@),
    ensures
        crate::error::result_view(result) == finished_table(
            (RowsSoFar { pages: heap@, chunks: bytes::views(chunks@), ids: ids@ }),
            context@,
            rows_node,
        ),
{
    reveal(finished_table);
    let mut heap = heap;
    let row_index = table::build_row_index(&mut heap, &ids)?;
    let node: Option<NodeId> = if ids.len() == 0 {
        None
    } else {
        match rows_node {
            Some(node) => Some(node),
            None => {
                return Err(PstError::Io(IoError::TableRowsNodeMissing));
            },
        }
    };
    let data = table::encode_context(context, row_index, node)?;
    let root = heap.allocate(data)?;
    let heap_pages = heap.finish(HeapNodeType::Table, root)?;
    Ok(RebuiltTable { heap_pages, row_chunks: chunks, row_ids: ids })
}

/// Writes a table anew with its existing rows and then the new ones. Where existing rows are kept,
/// their bytes and the heap they point into stay as they are.
pub fn rebuild_table(
    table: &TableContext,
    new_rows: Vec<NewTableRow>,
    rows_node: Option<NodeId>,
    row_version: u32,
    property_update: Option<TableUpdate>,
    preserve_existing_rows: bool,
) -> (result: Result<RebuiltTable, PstError>)
    requires
        rows_fit(
            table@,
            bytes::views(new_rows@),
            row_version,
            update_view(property_update),
            preserve_existing_rows,
        ),
        preserve_existing_rows ==> heap::heap_wf(table@.pages),
    ensures
        crate::error::result_view(result) == spec_rebuild_table(
            table@,
            bytes::views(new_rows@),
            rows_node,
            row_version,
            update_view(property_update),
            preserve_existing_rows,
        ),
{
    let ghost layout = table@.layout;
    let ghost existing = table@.rows;
    let ghost added = bytes::views(new_rows@);
    let ghost update = update_view(property_update);
    let mut heap = if preserve_existing_rows {
        HeapBuilder::from_pages(copy_pages(&table.heap_pages))
    } else {
        HeapBuilder::new()
    };
    let mut chunks: Vec<Vec<u8>> = Vec::new();
    let mut ids: Vec<u32> = Vec::new();
    assert(bytes::views(chunks@) =~= Seq::empty());
    let ghost start = RowsSoFar { pages: heap@, chunks: bytes::views(chunks@), ids: ids@ };
    let mut i: usize = 0;
    while i < table.rows.len()
        invariant
            i <= table.rows@.len(),
            layout == table.context@,
            existing == bytes::views(table.rows@),
            update == update_view(property_update),
            rows_fit(
                table@,
                bytes::views(new_rows@),
                row_version,
                update,
                preserve_existing_rows,
            ),
            table@.rows == existing,
            heap::heap_wf(heap@),
            start.chunks == Seq::<Seq<u8>>::empty(),
            start.ids == Seq::<u32>::empty(),
            spec_rebuild_table(
                table@,
                bytes::views(new_rows@),
                rows_node,
                row_version,
                update,
                preserve_existing_rows,
            ) == match with_existing_rows(
                start,
                layout,
                existing,
                0,
                preserve_existing_rows,
                update,
                row_version,
            ) {
                Err(error) => Err(error),
                Ok(rows) => match with_new_rows(
                    rows,
                    layout,
                    bytes::views(new_rows@),
                    0,
                    row_version,
                ) {
                    Err(error) => Err(error),
                    Ok(rows) => finished_table(rows, layout, rows_node),
                },
            },
            with_existing_rows(
                start,
                layout,
                existing,
                0,
                preserve_existing_rows,
                update,
                row_version,
            ) == with_existing_rows(
                RowsSoFar { pages: heap@, chunks: bytes::views(chunks@), ids: ids@ },
                layout,
                existing,
                i as int,
                preserve_existing_rows,
                update,
                row_version,
            ),
        decreases table.rows@.len() - i,
    {
        assert(existing[i as int] == table.rows@[i as int]@);
        push_existing_row(
            &table.context,
            &mut heap,
            &mut chunks,
            &mut ids,
            &table.rows[i],
            preserve_existing_rows,
            &property_update,
            row_version,
        )?;
        i += 1;
    }
    let ghost middle = RowsSoFar { pages: heap@, chunks: bytes::views(chunks@), ids: ids@ };
    let mut rest = new_rows;
    let count: usize = rest.len();
    let mut j: usize = 0;
    while j < count
        invariant
            j <= count,
            rest@.len() == count,
            added.len() == count,
            layout == table.context@,
            forall|k: int|
                0 <= k < added.len() ==> table::row_fits(layout, (#[trigger] added[k]).cells),
            heap::heap_wf(heap@),
            forall|k: int| j <= k < count ==> (#[trigger] rest@[k])@ == added[k],
            spec_rebuild_table(
                table@,
                bytes::views(new_rows@),
                rows_node,
                row_version,
                update_view(property_update),
                preserve_existing_rows,
            ) == match with_new_rows(middle, layout, added, 0, row_version) {
                Err(error) => Err(error),
                Ok(rows) => finished_table(rows, layout, rows_node),
            },
            with_new_rows(middle, layout, added, 0, row_version) == with_new_rows(
                RowsSoFar { pages: heap@, chunks: bytes::views(chunks@), ids: ids@ },
                layout,
                added,
                j as int,
                row_version,
            ),
        decreases count - j,
    {
        let mut row = NewTableRow { id: NodeId { value: 0 }, cells: Vec::new() };
        std::mem::swap(&mut row, &mut rest[j]);
        assert(row@ == added[j as int]);
        let id: u32 = row.id.value;
        push_encoded_row(
            &table.context,
            &mut heap,
            &mut chunks,
            &mut ids,
            id,
            row_version,
            row.cells,
        )?;
        j += 1;
    }
    finish_table(&table.context, heap, chunks, ids, rows_node)
}

/// Writes a table anew with its existing rows, encoded anew, and then the new ones.
pub fn rebuild_table_with_rows_and_version(
    table: &TableContext,
    new_rows: Vec<NewTableRow>,
    rows_node: Option<NodeId>,
    row_version: u32,
) -> (result: Result<RebuiltTable, PstError>)
    requires
        rows_fit(table@, bytes::views(new_rows@), row_version, None, false),
    ensures
        crate::error::result_view(result) == spec_rebuild_table(
            table@,
            bytes::views(new_rows@),
            rows_node,
            row_version,
            None,
            false,
        ),
{
    rebuild_table(table, new_rows, rows_node, row_version, None, false)
}

} // verus!
