//! What tables give back.

use vstd::arithmetic::div_mod::{
    lemma_div_multiples_vanish_fancy, lemma_fundamental_div_mod, lemma_mod_multiples_vanish,
    lemma_small_mod,
};
use vstd::prelude::*;

use crate::bytes;
use crate::error::PstError;
use crate::ltp::heap;
use crate::ltp::heap::{HeapId, HeapNodeType, MAX_DATA_BLOCK_SIZE};
use crate::ltp::heap_laws;
use crate::ltp::heap_tree::{HeapTreeChild, HEAP_TREE_LEAF_CAPACITY};
use crate::ltp::rebuild;
use crate::ltp::rebuild::{RebuiltContents, RowsSoFar};
use crate::ltp::table;
use crate::ltp::table::{CellContents, TableColumnDescriptor, TableLayout};
use crate::ndb::block_laws;
use crate::ndb::data_tree;
use crate::ndb::ids::NodeId;
use crate::ndb::levels;

verus! {

/// Whether no two columns of a row overlap or share an existence bit, and none reaches into the bits,
/// which stand behind the identifier and the version of the row.
pub open spec fn layout_distinct(layout: TableLayout) -> bool {
    &&& table::layout_wf(layout)
    &&& layout.end_1byte_values >= 8
    &&& forall|i: int|
        0 <= i < layout.columns.len() ==> (#[trigger] layout.columns[i]).offset
            + layout.columns[i].size <= layout.end_1byte_values
    &&& forall|i: int, j: int|
        0 <= i < j < layout.columns.len() ==> columns_distinct(
            #[trigger] layout.columns[i],
            #[trigger] layout.columns[j],
        )
}

/// Whether two columns neither overlap nor share an existence bit.
pub open spec fn columns_distinct(
    left: TableColumnDescriptor,
    right: TableColumnDescriptor,
) -> bool {
    &&& left.existence_bitmap_index != right.existence_bitmap_index
    &&& left.offset + left.size <= right.offset || right.offset + right.size <= left.offset
}

/// Whether the existence bit of a column is set.
pub open spec fn exists_in(row: Seq<u8>, layout: TableLayout, column: TableColumnDescriptor) -> bool {
    let at = layout.end_1byte_values + column.existence_bitmap_index / 8;
    row[at] & (0x80u8 >> (column.existence_bitmap_index % 8)) != 0
}

/// Whether a row gives back a cell at its column.
pub open spec fn cell_reads(
    layout: TableLayout,
    lookup: spec_fn(HeapId) -> Option<Seq<u8>>,
    row: Seq<u8>,
    column: TableColumnDescriptor,
    cell: Option<CellContents>,
) -> bool {
    match cell {
        None => !exists_in(row, layout, column),
        Some(cell) => exists_in(row, layout, column) && if column.prop_type.is_pointer() {
            let number = bytes::get32(row, column.offset as int) as u32;
            match cell {
                CellContents::Node(node) => number == node.value,
                CellContents::Bytes(data) => number % 32 == 0 && lookup(HeapId { value: number })
                    == Some(data),
                CellContents::Value(value) => number % 32 == 0 && lookup(HeapId { value: number })
                    == Some(value.data),
            }
        } else {
            cell matches CellContents::Value(value) && column.offset + value.data.len()
                <= row.len() && row.subrange(
                column.offset as int,
                column.offset + value.data.len(),
            ) == value.data
        },
    }
}

/// Whether a row gives back the cells before `count`.
pub open spec fn row_reads(
    layout: TableLayout,
    lookup: spec_fn(HeapId) -> Option<Seq<u8>>,
    row: Seq<u8>,
    cells: Seq<Option<CellContents>>,
    count: int,
) -> bool {
    forall|i: int|
        0 <= i < count && i < cells.len() && i < layout.columns.len() ==> cell_reads(
            layout,
            lookup,
            row,
            #[trigger] layout.columns[i],
            cells[i],
        )
}

proof fn lemma_bits(byte: u8, left: u8, right: u8)
    requires
        left < 8,
        right < 8,
    ensures
        ((byte | (0x80u8 >> left)) & (0x80u8 >> right) != 0) == (left == right || byte & (0x80u8
            >> right) != 0),
{
    assert(((byte | (0x80u8 >> left)) & (0x80u8 >> right) != 0) == (left == right || byte & (0x80u8
        >> right) != 0)) by (bit_vector)
        requires
            left < 8,
            right < 8,
    ;
}

proof fn lemma_no_bits(bit: u8)
    ensures
        0u8 & bit == 0,
{
    assert(0u8 & bit == 0) by (bit_vector);
}

/// Setting the existence bit of a column sets it, and changes no other.
proof fn lemma_existence(
    row: Seq<u8>,
    layout: TableLayout,
    column: TableColumnDescriptor,
    other: TableColumnDescriptor,
)
    requires
        row.len() == layout.end_existence_bitmap,
        table::column_wf(column, layout),
        table::column_wf(other, layout),
    ensures
        exists_in(table::with_existence_bit(row, layout, column), layout, other) == (
        column.existence_bitmap_index == other.existence_bitmap_index || exists_in(
            row,
            layout,
            other,
        )),
{
    let at = layout.end_1byte_values + column.existence_bitmap_index / 8;
    let own = (column.existence_bitmap_index % 8) as u8;
    let theirs = (other.existence_bitmap_index % 8) as u8;
    lemma_bits(row[at], own, theirs);
}

/// Writing inside one column leaves the cells of another as they are.
proof fn lemma_other_cell(
    layout: TableLayout,
    lookup: spec_fn(HeapId) -> Option<Seq<u8>>,
    more: spec_fn(HeapId) -> Option<Seq<u8>>,
    row: Seq<u8>,
    column: TableColumnDescriptor,
    part: Seq<u8>,
    other: TableColumnDescriptor,
    cell: Option<CellContents>,
)
    requires
        row.len() == layout.end_existence_bitmap,
        table::column_wf(column, layout),
        table::column_wf(other, layout),
        column.offset + column.size <= layout.end_1byte_values,
        other.offset + other.size <= layout.end_1byte_values,
        part.len() <= column.size,
        columns_distinct(column, other),
        heap_laws::finds_more(lookup, more),
        cell_reads(layout, lookup, row, other, cell),
        cell_fits(other, cell),
    ensures
        cell_reads(
            layout,
            more,
            bytes::spliced(
                table::with_existence_bit(row, layout, column),
                column.offset as int,
                part,
            ),
            other,
            cell,
        ),
{
    let marked = table::with_existence_bit(row, layout, column);
    let after = bytes::spliced(marked, column.offset as int, part);
    lemma_existence(row, layout, column, other);
    let bit = layout.end_1byte_values + other.existence_bitmap_index / 8;
    assert(after[bit] == marked[bit]);
    assert(exists_in(after, layout, other) == exists_in(row, layout, other));
    let offset = other.offset as int;
    if let Some(cell) = cell {
        if other.prop_type.is_pointer() {
            assert(after[offset] == row[offset]);
            assert(after[offset + 1] == row[offset + 1]);
            assert(after[offset + 2] == row[offset + 2]);
            assert(after[offset + 3] == row[offset + 3]);
            let number = bytes::get32(row, offset) as u32;
            assert(lookup(HeapId { value: number }) is Some ==> more(HeapId { value: number })
                == lookup(HeapId { value: number }));
        } else if let CellContents::Value(value) = cell {
            let end = offset + value.data.len();
            assert forall|k: int| offset <= k < end implies after[k] == row[k] by {}
            assert(after.subrange(offset, end) =~= row.subrange(offset, end));
        }
    }
}

/// Whether the bytes of a cell fit in its column.
pub open spec fn cell_fits(column: TableColumnDescriptor, cell: Option<CellContents>) -> bool {
    match cell {
        None => true,
        Some(cell) => if column.prop_type.is_pointer() {
            column.size >= 4
        } else {
            cell matches CellContents::Value(value) && value.data.len() <= column.size
        },
    }
}

/// Writing a cell gives it back, and keeps what the heap holds.
proof fn lemma_with_cell(
    layout: TableLayout,
    pages: Seq<Seq<Seq<u8>>>,
    row: Seq<u8>,
    column: TableColumnDescriptor,
    cell: CellContents,
) -> (part: Seq<u8>)
    requires
        heap::heap_wf(pages),
        row.len() == layout.end_existence_bitmap,
        table::column_wf(column, layout),
        column.offset + column.size <= layout.end_1byte_values,
    ensures
        ({
            let (after, result) = table::with_cell(layout, pages, row, column, cell);
            &&& heap::heap_wf(after)
            &&& heap_laws::heap_keeps(pages, after)
            &&& result matches Ok(next) ==> part.len() <= column.size && next == bytes::spliced(
                table::with_existence_bit(row, layout, column),
                column.offset as int,
                part,
            ) && cell_fits(column, Some(cell)) && cell_reads(
                layout,
                heap_laws::in_heap(after),
                next,
                column,
                Some(cell),
            )
        }),
{
    let marked = table::with_existence_bit(row, layout, column);
    let (after, result) = table::with_cell(layout, pages, row, column, cell);
    let offset = column.offset as int;
    lemma_existence(row, layout, column, column);
    let bit = layout.end_1byte_values + column.existence_bitmap_index / 8;
    if column.prop_type.is_pointer() {
        match cell {
            CellContents::Node(_) => {},
            CellContents::Bytes(data) => heap_laws::law_alloc_reads_back(pages, data),
            CellContents::Value(value) => heap_laws::law_alloc_reads_back(pages, value.data),
        }
        if let (_, Ok(pointer)) = table::with_pointer(pages, cell) {
            let part = bytes::le32(pointer);
            if let Ok(next) = result {
                assert(next[bit] == marked[bit]);
                assert(next.subrange(offset, offset + 4) =~= part);
                bytes::lemma_get32_le32(next, offset, pointer);
                assert(cell_reads(
                    layout,
                    heap_laws::in_heap(after),
                    next,
                    column,
                    Some(cell),
                ));
            }
            part
        } else {
            Seq::empty()
        }
    } else if let CellContents::Value(value) = cell {
        if let Ok(next) = result {
            assert(next[bit] == marked[bit]);
            assert(next.subrange(offset, offset + value.data.len()) =~= value.data);
        }
        value.data
    } else {
        Seq::empty()
    }
}

proof fn lemma_with_cells(
    layout: TableLayout,
    pages: Seq<Seq<Seq<u8>>>,
    row: Seq<u8>,
    cells: Seq<Option<CellContents>>,
    index: int,
)
    requires
        layout_distinct(layout),
        heap::heap_wf(pages),
        row.len() == layout.end_existence_bitmap,
        0 <= index,
        row_reads(layout, heap_laws::in_heap(pages), row, cells, index),
        forall|i: int|
            0 <= i < index && i < cells.len() && i < layout.columns.len() ==> cell_fits(
                #[trigger] layout.columns[i],
                cells[i],
            ),
        forall|i: int|
            index <= i < layout.columns.len() ==> !exists_in(
                row,
                layout,
                #[trigger] layout.columns[i],
            ),
    ensures
        ({
            let (after, result) = table::with_cells(layout, pages, row, cells, index);
            &&& heap::heap_wf(after)
            &&& heap_laws::heap_keeps(pages, after)
            &&& result matches Ok(next) ==> next.len() == layout.end_existence_bitmap && row_reads(
                layout,
                heap_laws::in_heap(after),
                next,
                cells,
                cells.len() as int,
            )
        }),
    decreases cells.len() - index,
{
    if index < cells.len() && index < layout.columns.len() {
        let column = layout.columns[index];
        match cells[index] {
            None => {
                lemma_with_cells(layout, pages, row, cells, index + 1);
            },
            Some(cell) => {
                let part = lemma_with_cell(layout, pages, row, column, cell);
                let (after, result) = table::with_cell(layout, pages, row, column, cell);
                if let Ok(next) = result {
                    let before_find = heap_laws::in_heap(pages);
                    let after_find = heap_laws::in_heap(after);
                    lemma_finds_more(pages, after);
                    assert forall|i: int|
                        0 <= i < index + 1 && i < cells.len() && i
                            < layout.columns.len() implies cell_reads(
                        layout,
                        after_find,
                        next,
                        #[trigger] layout.columns[i],
                        cells[i],
                    ) && cell_fits(layout.columns[i], cells[i]) by {
                        if i < index {
                            assert(columns_distinct(layout.columns[i], column));
                            lemma_other_cell(
                                layout,
                                before_find,
                                after_find,
                                row,
                                column,
                                part,
                                layout.columns[i],
                                cells[i],
                            );
                        }
                    }
                    assert forall|i: int|
                        index + 1 <= i < layout.columns.len() implies !exists_in(
                        next,
                        layout,
                        #[trigger] layout.columns[i],
                    ) by {
                        assert(columns_distinct(column, layout.columns[i]));
                        lemma_other_cell(
                            layout,
                            before_find,
                            after_find,
                            row,
                            column,
                            part,
                            layout.columns[i],
                            None,
                        );
                    }
                    lemma_with_cells(layout, after, next, cells, index + 1);
                }
            },
        }
    }
}

pub proof fn lemma_finds_more(before: Seq<Seq<Seq<u8>>>, after: Seq<Seq<Seq<u8>>>)
    requires
        heap_laws::heap_keeps(before, after),
    ensures
        heap_laws::finds_more(heap_laws::in_heap(before), heap_laws::in_heap(after)),
{
    assert forall|id: HeapId|
        heap_laws::in_heap(before)(id) is Some implies #[trigger] heap_laws::in_heap(after)(id)
        == heap_laws::in_heap(before)(id) by {
        assert(heap_laws::slot_data(after, id) == heap_laws::slot_data(before, id));
    }
}

/// A row gives back its cells: those that are there under their columns, and of the others none.
pub proof fn law_row_reads_back(
    layout: TableLayout,
    pages: Seq<Seq<Seq<u8>>>,
    row_id: u32,
    unique: u32,
    cells: Seq<Option<CellContents>>,
)
    requires
        layout_distinct(layout),
        heap::heap_wf(pages),
    ensures
        ({
            let (after, result) = table::with_row(layout, pages, row_id, unique, cells);
            &&& heap::heap_wf(after)
            &&& heap_laws::heap_keeps(pages, after)
            &&& result matches Ok(row) ==> row.len() == layout.end_existence_bitmap && row_reads(
                layout,
                heap_laws::in_heap(after),
                row,
                cells,
                cells.len() as int,
            )
        }),
{
    let blank = table::blank_row(layout, row_id, unique);
    assert forall|i: int| 0 <= i < layout.columns.len() implies !exists_in(
        blank,
        layout,
        #[trigger] layout.columns[i],
    ) by {
        let column = layout.columns[i];
        let at = layout.end_1byte_values + column.existence_bitmap_index / 8;
        assert(column.offset + column.size <= layout.end_1byte_values);
        lemma_no_bits(0x80u8 >> (column.existence_bitmap_index % 8));
        lemma_blank_bit(layout, row_id, unique, at);
    }
    lemma_with_cells(layout, pages, blank, cells, 0);
}

proof fn lemma_blank_bit(layout: TableLayout, row_id: u32, unique: u32, at: int)
    requires
        8 <= layout.end_1byte_values <= at < layout.end_existence_bitmap,
    ensures
        table::blank_row(layout, row_id, unique)[at] == 0,
{
}

/// The number of rows in a data block.
pub open spec fn rows_per_block(row_size: int) -> int {
    MAX_DATA_BLOCK_SIZE as int / row_size
}

/// The bytes of row `index`, in chunks of as many rows as fit in a data block.
pub open spec fn read_row(chunks: Seq<Seq<u8>>, row_size: int, index: int) -> Option<Seq<u8>> {
    let chunk = index / rows_per_block(row_size);
    let start = index % rows_per_block(row_size) * row_size;
    if 0 <= chunk < chunks.len() && start + row_size <= chunks[chunk].len() {
        Some(chunks[chunk].subrange(start, start + row_size))
    } else {
        None
    }
}

/// The number of rows in chunks of as many rows as fit in a data block.
pub open spec fn row_count(chunks: Seq<Seq<u8>>, row_size: int) -> int {
    if chunks.len() == 0 {
        0
    } else {
        (chunks.len() - 1) * rows_per_block(row_size) + chunks.last().len() as int / row_size
    }
}

/// Whether chunks hold the given rows: every chunk but the last is full, and the last has `last` rows.
pub open spec fn chunks_hold(
    chunks: Seq<Seq<u8>>,
    row_size: int,
    rows: Seq<Seq<u8>>,
    last: int,
) -> bool {
    let full = rows_per_block(row_size);
    &&& 1 <= row_size <= MAX_DATA_BLOCK_SIZE
    &&& chunks.len() == 0 ==> rows.len() == 0
    &&& chunks.len() > 0 ==> 1 <= last <= full && rows.len() == (chunks.len() - 1) * full + last
        && chunks.last().len() == last * row_size
    &&& forall|i: int|
        0 <= i < chunks.len() - 1 ==> (#[trigger] chunks[i]).len() == full * row_size
    &&& forall|i: int|
        0 <= i < rows.len() ==> (#[trigger] rows[i]).len() == row_size && read_row(
            chunks,
            row_size,
            i,
        ) == Some(rows[i])
}

/// Rows are found again in the blocks of their data tree, where every chunk but the last is filled up, and
/// there are no others.
pub proof fn law_filled_chunks_hold_rows(
    chunks: Seq<Seq<u8>>,
    row_size: int,
    rows: Seq<Seq<u8>>,
    last: int,
)
    requires
        chunks_hold(chunks, row_size, rows, last),
        rows.len() > 0,
    ensures
        block_laws::chunks_full(data_tree::filled_chunks(chunks)),
        row_count(data_tree::filled_chunks(chunks), row_size) == rows.len(),
        forall|i: int|
            0 <= i < rows.len() ==> #[trigger] read_row(
                data_tree::filled_chunks(chunks),
                row_size,
                i,
            ) == read_row(chunks, row_size, i),
{
    let full = rows_per_block(row_size);
    let filled = data_tree::filled_chunks(chunks);
    lemma_room(row_size, full - 1);
    lemma_room(row_size, last - 1);
    assert(full * row_size <= MAX_DATA_BLOCK_SIZE) by {
        assert((full - 1) * row_size + row_size == full * row_size) by (nonlinear_arith);
    }
    assert(1 <= last * row_size <= full * row_size) by (nonlinear_arith)
        requires
            1 <= last <= full,
            1 <= row_size,
    ;
    assert(filled.last() == chunks.last());
    assert forall|i: int| 0 <= i < filled.len() - 1 implies (#[trigger] filled[i]).len()
        == MAX_DATA_BLOCK_SIZE by {
        assert(chunks[i].len() == full * row_size);
    }
    lemma_div_multiples_vanish_fancy(last, 0, row_size);
    assert(last * row_size == row_size * last) by (nonlinear_arith);
    assert forall|i: int| 0 <= i < rows.len() implies #[trigger] read_row(filled, row_size, i)
        == read_row(chunks, row_size, i) by {
        assert(rows[i].len() == row_size && read_row(chunks, row_size, i) == Some(rows[i]));
        let chunk = i / full;
        let start = i % full * row_size;
        assert(0 <= chunk < chunks.len());
        assert(0 <= start) by (nonlinear_arith)
            requires
                start == i % full * row_size,
                0 <= i,
                1 <= full,
                1 <= row_size,
        ;
        assert(filled[chunk].subrange(start, start + row_size) =~= chunks[chunk].subrange(
            start,
            start + row_size,
        ));
    }
}

proof fn lemma_room(row_size: int, count: int)
    requires
        1 <= row_size <= MAX_DATA_BLOCK_SIZE,
        0 <= count,
    ensures
        (count * row_size + row_size > MAX_DATA_BLOCK_SIZE) == (count >= rows_per_block(row_size)),
        rows_per_block(row_size) >= 1,
{
    let size = MAX_DATA_BLOCK_SIZE as int;
    let full = rows_per_block(row_size);
    lemma_fundamental_div_mod(size, row_size);
    assert(0 <= size % row_size < row_size);
    assert(row_size * full <= size < row_size * full + row_size);
    assert((count * row_size + row_size > size) == (count >= full)) by (nonlinear_arith)
        requires
            row_size * full <= size < row_size * full + row_size,
            1 <= row_size,
    ;
    assert(full >= 1) by (nonlinear_arith)
        requires
            size < row_size * full + row_size,
            row_size <= size,
            1 <= row_size,
    ;
}

proof fn lemma_row_place(full: int, chunk: int, place: int)
    requires
        full >= 1,
        0 <= chunk,
        0 <= place < full,
    ensures
        (chunk * full + place) / full == chunk,
        (chunk * full + place) % full == place,
{
    lemma_div_multiples_vanish_fancy(chunk, place, full);
    lemma_mod_multiples_vanish(chunk, place, full);
    assert(full * chunk == chunk * full) by (nonlinear_arith);
    lemma_small_mod(place as nat, full as nat);
}

/// A row that is added is the last one, and every other one stays where it is.
pub proof fn lemma_chunked_row(
    chunks: Seq<Seq<u8>>,
    row_size: int,
    rows: Seq<Seq<u8>>,
    last: int,
    row: Seq<u8>,
) -> (after_last: int)
    requires
        chunks_hold(chunks, row_size, rows, last),
        row.len() == row_size,
    ensures
        rebuild::with_chunked_row(chunks, row_size, row) matches Ok(after) && chunks_hold(
            after,
            row_size,
            rows.push(row),
            after_last,
        ),
{
    let full = rows_per_block(row_size);
    let after = rebuild::with_chunked_row(chunks, row_size, row)->Ok_0;
    let all = rows.push(row);
    lemma_room(row_size, if chunks.len() == 0 {
        0
    } else {
        last
    });
    let fresh = chunks.len() == 0 || last >= full;
    let after_last = if fresh {
        1
    } else {
        last + 1
    };
    let chunk = if fresh {
        chunks.len() as int
    } else {
        chunks.len() - 1
    };
    let place = after_last - 1;
    let start = place * row_size;
    if fresh {
        assert(after == chunks.push(row));
        if chunks.len() > 0 {
            assert(last == full);
            assert(rows.len() == chunk * full) by (nonlinear_arith)
                requires
                    rows.len() == (chunks.len() - 1) * full + full,
                    chunk == chunks.len(),
            ;
        } else {
            assert(rows.len() == chunk * full) by (nonlinear_arith)
                requires
                    rows.len() == 0,
                    chunk == 0,
            ;
        }
    } else {
        assert(after == chunks.update(chunks.len() - 1, chunks.last() + row));
        assert(start == chunks.last().len());
        assert(after_last * row_size == last * row_size + row_size) by (nonlinear_arith)
            requires
                after_last == last + 1,
        ;
    }
    assert(rows.len() == chunk * full + place);
    assert(start + row_size == after_last * row_size) by (nonlinear_arith)
        requires
            start == place * row_size,
            after_last == place + 1,
    ;
    lemma_row_place(full, chunk, place);
    assert(after[chunk].subrange(start, start + row_size) =~= row);
    assert forall|i: int| 0 <= i < all.len() implies (#[trigger] all[i]).len() == row_size
        && read_row(after, row_size, i) == Some(all[i]) by {
        if i < rows.len() {
            assert(rows[i].len() == row_size && read_row(chunks, row_size, i) == Some(rows[i]));
            let at = i / full;
            let from = i % full * row_size;
            if at < chunks.len() - 1 || fresh {
                assert(after[at] == chunks[at]);
            } else {
                assert(after[at].subrange(from, from + row_size) =~= chunks[at].subrange(
                    from,
                    from + row_size,
                ));
            }
        } else {
            assert(i == chunk * full + place);
        }
    }
    assert forall|i: int| 0 <= i < after.len() - 1 implies (#[trigger] after[i]).len() == full
        * row_size by {
        if i < chunks.len() - 1 {
            assert(after[i] == chunks[i]);
        } else {
            assert(after[i] == chunks.last());
        }
    }
    after_last
}

/// The position that a row index gives for a row, from entry `index` on.
pub open spec fn find_row(data: Seq<u8>, id: u32, index: nat) -> Option<u32>
    decreases data.len() - 8 * index,
{
    if 8 * (index + 1) > data.len() {
        None
    } else if bytes::get32(data, 8 * (index as int)) == id {
        Some(bytes::get32(data, 8 * (index as int) + 4) as u32)
    } else {
        find_row(data, id, index + 1)
    }
}

/// The first position of a row, from `index` on.
pub open spec fn first_position(ids: Seq<u32>, id: u32, index: int) -> Option<u32>
    decreases ids.len() - index,
{
    if index >= ids.len() {
        None
    } else if ids[index] == id {
        Some(index as u32)
    } else {
        first_position(ids, id, index + 1)
    }
}

proof fn lemma_row_entry(ids: Seq<u32>, start: int, count: nat, index: int)
    requires
        0 <= index < count,
        0 <= start,
        start + count <= u32::MAX + 1,
    ensures
        table::row_entries(ids, start, count).len() == 8 * count,
        bytes::get32(table::row_entries(ids, start, count), 8 * index) == ids[start + index],
        bytes::get32(table::row_entries(ids, start, count), 8 * index + 4) == start + index,
    decreases count,
{
    let data = table::row_entries(ids, start, count);
    let before = table::row_entries(ids, start, (count - 1) as nat);
    if count > 1 {
        lemma_row_entry(
            ids,
            start,
            (count - 1) as nat,
            if index < count - 1 {
                index
            } else {
                0
            },
        );
    } else {
        assert(before =~= Seq::empty());
    }
    let at = 8 * index;
    if index == count - 1 {
        assert(data.subrange(at, at + 4) =~= bytes::le32(ids[start + index]));
        assert(data.subrange(at + 4, at + 8) =~= bytes::le32((start + index) as u32));
        bytes::lemma_get32_le32(data, at, ids[start + index]);
        bytes::lemma_get32_le32(data, at + 4, (start + index) as u32);
    } else {
        assert(forall|k: int| at <= k < at + 8 ==> data[k] == before[k]);
    }
}

pub proof fn lemma_find_row(ids: Seq<u32>, id: u32, index: nat)
    requires
        index <= ids.len() <= u32::MAX + 1,
    ensures
        find_row(table::row_entries(ids, 0, ids.len()), id, index) == first_position(
            ids,
            id,
            index as int,
        ),
    decreases ids.len() - index,
{
    if index < ids.len() {
        lemma_row_entry(ids, 0, ids.len(), index as int);
        lemma_find_row(ids, id, index + 1);
    } else if ids.len() > 0 {
        lemma_row_entry(ids, 0, ids.len(), 0);
    }
}

/// The entries of a row index, each by its bytes.
pub open spec fn row_parts(ids: Seq<u32>) -> Seq<Seq<u8>> {
    Seq::new(ids.len(), |i: int| bytes::le32(ids[i]) + bytes::le32(i as u32))
}

proof fn lemma_joined_rows(ids: Seq<u32>, start: int, count: nat)
    requires
        0 <= start,
        start + count <= ids.len(),
    ensures
        block_laws::joined(row_parts(ids), start, start + count) == table::row_entries(
            ids,
            start,
            count,
        ),
    decreases count,
{
    if count > 0 {
        lemma_joined_rows(ids, start, (count - 1) as nat);
        assert(block_laws::joined(row_parts(ids), start, start + count) =~= table::row_entries(
            ids,
            start,
            count,
        ));
    }
}

proof fn lemma_row_leaves(
    pages: Seq<Seq<Seq<u8>>>,
    ids: Seq<u32>,
    start: int,
    done: Seq<HeapTreeChild>,
    done_parts: Seq<Seq<u8>>,
)
    requires
        heap::heap_wf(pages),
        0 <= start <= ids.len(),
        start <= u32::MAX + 1,
        heap_laws::children_hold(pages, done, done_parts, 4, 0),
    ensures
        ({
            let (after, result) = table::with_row_leaves(pages, ids, start, done);
            &&& heap::heap_wf(after)
            &&& heap_laws::heap_keeps(pages, after)
            &&& result matches Ok(children) ==> children.len() <= done.len() + ids.len() - start
                && ids.len() <= u32::MAX + 1 && heap_laws::children_hold(
                after,
                children,
                done_parts + block_laws::level_parts(
                    row_parts(ids),
                    start,
                    HEAP_TREE_LEAF_CAPACITY as int,
                ),
                4,
                0,
            )
        }),
    decreases ids.len() - start,
{
    let size = HEAP_TREE_LEAF_CAPACITY as int;
    let parts = row_parts(ids);
    if start < ids.len() {
        let end = levels::group_end(start, size, ids.len() as int);
        let data = table::row_entries(ids, start, (end - start) as nat);
        if end - 1 <= u32::MAX {
            heap_laws::law_alloc_reads_back(pages, data);
            if let (after, Ok(id)) = heap::heap_alloc(pages, data) {
                let next = done.push(HeapTreeChild { key: ids[start], id });
                let next_parts = done_parts.push(block_laws::joined(parts, start, end));
                lemma_joined_rows(ids, start, (end - start) as nat);
                heap_laws::lemma_children_hold_grows(pages, after, done, done_parts, 4, 0);
                assert(heap_laws::in_heap(after)(id) == Some(data));
                assert(parts[start].subrange(0, 4) =~= bytes::le32(ids[start]));
                bytes::lemma_get32_le32(parts[start], 0, ids[start]);
                heap_laws::lemma_joined_starts(parts, start, end, 4);
                assert(heap_laws::children_hold(after, next, next_parts, 4, 0)) by {
                    assert forall|i: int| 0 <= i < next.len() implies heap_laws::read_tree(
                        heap_laws::in_heap(after),
                        (#[trigger] next[i]).id,
                        4,
                        0,
                    ) == Some(next_parts[i]) && next_parts[i].len() >= 4 && next[i].key
                        == heap_laws::first_key(next_parts[i], 4) by {
                        if i < done.len() {
                            assert(next[i] == done[i]);
                        }
                    }
                }
                lemma_row_leaves(after, ids, end, next, next_parts);
                assert(next_parts + block_laws::level_parts(parts, end, size) =~= done_parts
                    + block_laws::level_parts(parts, start, size));
            }
        }
    } else {
        assert(done_parts + block_laws::level_parts(parts, start, size) =~= done_parts);
    }
}

/// A row index gives back its entries, in the order of the rows.
pub proof fn law_row_index_reads_back(pages: Seq<Seq<Seq<u8>>>, ids: Seq<u32>)
    requires
        heap::heap_wf(pages),
    ensures
        ({
            let (after, result) = table::with_row_index(pages, ids);
            &&& heap::heap_wf(after)
            &&& heap_laws::heap_keeps(pages, after)
            &&& result matches Ok(header) ==> ids.len() <= u32::MAX + 1
                && heap_laws::read_records(heap_laws::in_heap(after), header, 4, 4) == Some(
                table::row_entries(ids, 0, ids.len()),
            )
        }),
{
    let size = HEAP_TREE_LEAF_CAPACITY as int;
    lemma_row_leaves(pages, ids, 0, Seq::empty(), Seq::empty());
    if let (after, Ok(children)) = table::with_row_leaves(pages, ids, 0, Seq::empty()) {
        let parts = block_laws::level_parts(row_parts(ids), 0, size);
        assert(Seq::<Seq<u8>>::empty() + parts =~= parts);
        heap_laws::law_heap_tree_reads_back(
            after,
            children,
            parts,
            table::row_index_layout(),
            0,
        );
        block_laws::lemma_level_parts_join(row_parts(ids), 0, size);
        lemma_joined_rows(ids, 0, ids.len());
    }
}

/// The context of a table, found through the header of its heap.
pub open spec fn read_context(heap_pages: Seq<Seq<u8>>) -> Option<Seq<u8>> {
    heap::read_heap(heap_pages, heap_laws::read_user_root(heap_pages))
}

/// The position of a row, found through the row index that the context of the table names.
pub open spec fn row_position(heap_pages: Seq<Seq<u8>>, id: u32) -> Option<u32> {
    match read_context(heap_pages) {
        None => None,
        Some(context) => match heap_laws::read_records(
            heap_laws::in_pages(heap_pages),
            HeapId { value: bytes::get32(context, 10) as u32 },
            4,
            4,
        ) {
            None => None,
            Some(data) => find_row(data, id, 0),
        },
    }
}

/// The node with the rows of a table, as its context names it.
pub open spec fn context_rows(context: Seq<u8>) -> u32 {
    bytes::get32(context, 14) as u32
}

/// Whether a context says that the table has the given layout.
pub open spec fn has_layout(context: Seq<u8>, layout: TableLayout) -> bool {
    &&& context.len() >= 22
    &&& layout.columns.len() <= u8::MAX
    &&& context.subrange(0, 10) == seq![0x7Cu8, layout.columns.len() as u8] + bytes::le16(
        layout.end_4byte_values,
    ) + bytes::le16(layout.end_2byte_values) + bytes::le16(layout.end_1byte_values) + bytes::le16(
        layout.end_existence_bitmap,
    )
    &&& context.skip(22) == table::columns_bytes(layout.columns, layout.columns.len())
}

pub proof fn lemma_context(
    layout: TableLayout,
    row_index: HeapId,
    rows: Option<NodeId>,
    context: Seq<u8>,
)
    requires
        table::context_bytes(layout, row_index, rows) == Ok::<_, PstError>(context),
    ensures
        has_layout(context, layout),
        bytes::get32(context, 10) == row_index.value,
        context_rows(context) == match rows {
            Some(node) => node.value,
            None => 0,
        },
{
    let node = match rows {
        Some(node) => node.value,
        None => 0,
    };
    let head = seq![0x7Cu8, layout.columns.len() as u8] + bytes::le16(layout.end_4byte_values)
        + bytes::le16(layout.end_2byte_values) + bytes::le16(layout.end_1byte_values)
        + bytes::le16(layout.end_existence_bitmap);
    let columns = table::columns_bytes(layout.columns, layout.columns.len());
    lemma_context_parts(head, row_index.value, node, columns);
    assert(context == head + bytes::le32(row_index.value) + bytes::le32(node) + bytes::zeros(4)
        + columns);
}

proof fn lemma_context_parts(head: Seq<u8>, row_index: u32, node: u32, columns: Seq<u8>)
    requires
        head.len() == 10,
    ensures
        ({
            let context = head + bytes::le32(row_index) + bytes::le32(node) + bytes::zeros(4)
                + columns;
            &&& context.len() == 22 + columns.len()
            &&& context.subrange(0, 10) == head
            &&& bytes::get32(context, 10) == row_index
            &&& bytes::get32(context, 14) == node
            &&& context.skip(22) == columns
        }),
{
    let context = head + bytes::le32(row_index) + bytes::le32(node) + bytes::zeros(4) + columns;
    assert(context.subrange(10, 14) =~= bytes::le32(row_index));
    assert(context.subrange(14, 18) =~= bytes::le32(node));
    bytes::lemma_get32_le32(context, 10, row_index);
    bytes::lemma_get32_le32(context, 14, node);
    assert(context.subrange(0, 10) =~= head);
    assert(context.skip(22) =~= columns);
}

/// A finished table keeps its layout and everything in its heap, gives back the position of every row,
/// and names the node with its rows, where it has any.
pub proof fn law_finished_table_reads_back(
    rows: RowsSoFar,
    layout: TableLayout,
    rows_node: Option<NodeId>,
    table: RebuiltContents,
    id: u32,
)
    requires
        heap::heap_wf(rows.pages),
        rebuild::finished_table(rows, layout, rows_node) == Ok::<_, PstError>(table),
    ensures
        table.row_chunks == rows.chunks,
        table.row_ids == rows.ids,
        heap_laws::heap_is_for(table.heap_pages, 0x7C),
        block_laws::chunks_full(table.heap_pages),
        heap_laws::finds_more(
            heap_laws::in_heap(rows.pages),
            heap_laws::in_pages(table.heap_pages),
        ),
        row_position(table.heap_pages, id) == first_position(rows.ids, id, 0),
        read_context(table.heap_pages) matches Some(context) && has_layout(context, layout)
            && context_rows(context) == (if rows.ids.len() == 0 {
            0
        } else {
            rows_node->Some_0.value
        }),
{
    reveal(rebuild::finished_table);
    law_row_index_reads_back(rows.pages, rows.ids);
    let (indexed, result) = table::with_row_index(rows.pages, rows.ids);
    let row_index = result->Ok_0;
    let node = if rows.ids.len() == 0 {
        None
    } else {
        rows_node
    };
    let context = table::context_bytes(layout, row_index, node)->Ok_0;
    heap_laws::law_alloc_reads_back(indexed, context);
    let (pages, result) = heap::heap_alloc(indexed, context);
    let root = result->Ok_0;
    let found = heap_laws::in_pages(table.heap_pages);
    heap::law_heap_header(pages, HeapNodeType::Table, root, table.heap_pages);
    heap_laws::lemma_heap_pages_full(pages, HeapNodeType::Table, root, table.heap_pages);
    assert forall|id: HeapId|
        heap_laws::in_heap(pages)(id) is Some implies #[trigger] found(id) == heap_laws::in_heap(
        pages,
    )(id) by {
        heap_laws::law_finished_heap_reads_back(
            pages,
            HeapNodeType::Table,
            root,
            table.heap_pages,
            id,
        );
    }
    lemma_finds_more(rows.pages, indexed);
    lemma_finds_more(indexed, pages);
    assert(found(root) == heap_laws::in_heap(pages)(root));
    lemma_context(layout, row_index, node, context);
    heap_laws::law_read_records_grows(
        heap_laws::in_heap(indexed),
        heap_laws::in_heap(pages),
        row_index,
        4,
        4,
    );
    heap_laws::law_read_records_grows(heap_laws::in_heap(pages), found, row_index, 4, 4);
    lemma_find_row(rows.ids, id, 0);
    assert forall|id: HeapId|
        heap_laws::in_heap(rows.pages)(id) is Some implies #[trigger] found(id)
        == heap_laws::in_heap(rows.pages)(id) by {
        assert(heap_laws::in_heap(indexed)(id) == heap_laws::in_heap(rows.pages)(id));
        assert(heap_laws::in_heap(pages)(id) == heap_laws::in_heap(indexed)(id));
    }
}

} // verus!
