//! What rebuilt tables give back.

use vstd::prelude::*;

use crate::error::PstError;
use crate::ltp::heap;
use crate::ltp::heap::HeapId;
use crate::ltp::heap_laws;
use crate::ltp::rebuild;
use crate::ltp::rebuild::{
    NewRowContents, RebuiltContents, RowContents, RowsSoFar, TableContents, UpdateContents,
};
use crate::ltp::table;
use crate::ltp::table::{CellContents, TableLayout};
use crate::ltp::table_laws;
use crate::ndb::block_laws;
use crate::ndb::data_tree;
use crate::ndb::ids::NodeId;

verus! {

/// Whether the chunks hold the given rows.
pub open spec fn rows_hold(chunks: Seq<Seq<u8>>, row_size: int, rows: Seq<Seq<u8>>) -> bool {
    if rows.len() == 0 {
        chunks.len() == 0
    } else {
        exists|last: int| table_laws::chunks_hold(chunks, row_size, rows, last)
    }
}

proof fn lemma_row_added(
    chunks: Seq<Seq<u8>>,
    row_size: int,
    rows: Seq<Seq<u8>>,
    row: Seq<u8>,
)
    requires
        rows_hold(chunks, row_size, rows),
        row.len() == row_size,
        0 <= row_size,
    ensures
        rebuild::with_chunked_row(chunks, row_size, row) matches Ok(after) ==> rows_hold(
            after,
            row_size,
            rows.push(row),
        ),
{
    if rebuild::with_chunked_row(chunks, row_size, row) is Ok {
        let last = if rows.len() == 0 {
            assert(table_laws::chunks_hold(chunks, row_size, rows, 0));
            0
        } else {
            choose|last: int| table_laws::chunks_hold(chunks, row_size, rows, last)
        };
        let after_last = table_laws::lemma_chunked_row(chunks, row_size, rows, last, row);
        let after = rebuild::with_chunked_row(chunks, row_size, row)->Ok_0;
        assert(table_laws::chunks_hold(after, row_size, rows.push(row), after_last));
    }
}

/// Whether `data` is an existing row: byte by byte where rows are kept and it has no update, and else by
/// its cells, with the update.
pub open spec fn existing_row_is(
    layout: TableLayout,
    lookup: spec_fn(HeapId) -> Option<Seq<u8>>,
    data: Seq<u8>,
    row: RowContents,
    preserve: bool,
    update: Option<UpdateContents>,
    row_version: u32,
) -> bool {
    let own = rebuild::own_update(row, update);
    if preserve && own is None {
        data == row.data
    } else {
        let cells = rebuild::changed_cells(layout, row.cells, preserve, own, row_version);
        table_laws::row_reads(layout, lookup, data, cells, cells.len() as int)
    }
}

/// Whether `data` is a new row, by its cells.
pub open spec fn new_row_is(
    layout: TableLayout,
    lookup: spec_fn(HeapId) -> Option<Seq<u8>>,
    data: Seq<u8>,
    row: NewRowContents,
) -> bool {
    table_laws::row_reads(layout, lookup, data, row.cells, row.cells.len() as int)
}

proof fn lemma_row_reads_grows(
    layout: TableLayout,
    before: spec_fn(HeapId) -> Option<Seq<u8>>,
    after: spec_fn(HeapId) -> Option<Seq<u8>>,
    row: Seq<u8>,
    cells: Seq<Option<CellContents>>,
    count: int,
)
    requires
        heap_laws::finds_more(before, after),
        table_laws::row_reads(layout, before, row, cells, count),
    ensures
        table_laws::row_reads(layout, after, row, cells, count),
{
    assert forall|i: int|
        0 <= i < count && i < cells.len() && i < layout.columns.len() implies table_laws::cell_reads(
        layout,
        after,
        row,
        #[trigger] layout.columns[i],
        cells[i],
    ) by {
        assert(table_laws::cell_reads(layout, before, row, layout.columns[i], cells[i]));
        let id = HeapId {
            value: crate::bytes::get32(row, layout.columns[i].offset as int) as u32,
        };
        assert(before(id) is Some ==> after(id) == before(id));
    }
}

proof fn lemma_encoded_row(
    rows: RowsSoFar,
    done: Seq<Seq<u8>>,
    layout: TableLayout,
    id: u32,
    unique: u32,
    cells: Seq<Option<CellContents>>,
) -> (row: Seq<u8>)
    requires
        table_laws::layout_distinct(layout),
        heap::heap_wf(rows.pages),
        rows_hold(rows.chunks, layout.end_existence_bitmap as int, done),
    ensures
        rebuild::with_encoded_row(rows, layout, id, unique, cells) matches Ok(after) ==> ({
            &&& heap::heap_wf(after.pages)
            &&& heap_laws::heap_keeps(rows.pages, after.pages)
            &&& rows_hold(after.chunks, layout.end_existence_bitmap as int, done.push(row))
            &&& after.ids == rows.ids.push(id)
            &&& table_laws::row_reads(
                layout,
                heap_laws::in_heap(after.pages),
                row,
                cells,
                cells.len() as int,
            )
        }),
{
    reveal(rebuild::with_encoded_row);
    table_laws::law_row_reads_back(layout, rows.pages, id, unique, cells);
    if let (pages, Ok(row)) = table::with_row(layout, rows.pages, id, unique, cells) {
        lemma_row_added(rows.chunks, layout.end_existence_bitmap as int, done, row);
        row
    } else {
        Seq::empty()
    }
}

/// Whether the chunks hold a number of rows.
pub open spec fn holds_rows(chunks: Seq<Seq<u8>>, row_size: int, count: nat) -> bool {
    exists|rows: Seq<Seq<u8>>| rows.len() == count && #[trigger] rows_hold(chunks, row_size, rows)
}

/// The blocks of the data tree with some rows give each of them back, and no others.
pub proof fn law_blocks_hold_rows(chunks: Seq<Seq<u8>>, row_size: int, count: nat)
    requires
        holds_rows(chunks, row_size, count),
        count > 0,
    ensures
        block_laws::chunks_full(data_tree::filled_chunks(chunks)),
        table_laws::row_count(data_tree::filled_chunks(chunks), row_size) == count,
        forall|i: int|
            0 <= i < count ==> #[trigger] table_laws::read_row(
                data_tree::filled_chunks(chunks),
                row_size,
                i,
            ) == table_laws::read_row(chunks, row_size, i),
{
    let rows = choose|rows: Seq<Seq<u8>>|
        rows.len() == count && #[trigger] rows_hold(chunks, row_size, rows);
    let last = choose|last: int| table_laws::chunks_hold(chunks, row_size, rows, last);
    table_laws::law_filled_chunks_hold_rows(chunks, row_size, rows, last);
}

/// Whether the rows of a table have the size that its layout says.
pub open spec fn rows_wf(table: TableContents) -> bool {
    forall|i: int|
        0 <= i < table.rows.len() ==> (#[trigger] table.rows[i]).data.len()
            == table.layout.end_existence_bitmap
}

proof fn lemma_existing_row(
    rows: RowsSoFar,
    done: Seq<Seq<u8>>,
    layout: TableLayout,
    row: RowContents,
    preserve: bool,
    update: Option<UpdateContents>,
    row_version: u32,
) -> (data: Seq<u8>)
    requires
        table_laws::layout_distinct(layout),
        heap::heap_wf(rows.pages),
        rows_hold(rows.chunks, layout.end_existence_bitmap as int, done),
        row.data.len() == layout.end_existence_bitmap,
    ensures
        rebuild::with_existing_row(rows, layout, row, preserve, update, row_version) matches Ok(
            after,
        ) ==> ({
            &&& heap::heap_wf(after.pages)
            &&& heap_laws::heap_keeps(rows.pages, after.pages)
            &&& rows_hold(after.chunks, layout.end_existence_bitmap as int, done.push(data))
            &&& after.ids == rows.ids.push(row.id)
            &&& existing_row_is(
                layout,
                heap_laws::in_heap(after.pages),
                data,
                row,
                preserve,
                update,
                row_version,
            )
        }),
{
    let own = rebuild::own_update(row, update);
    if preserve && own is None {
        lemma_row_added(rows.chunks, layout.end_existence_bitmap as int, done, row.data);
        row.data
    } else {
        let unique = if own is Some {
            row_version
        } else {
            row.unique
        };
        lemma_encoded_row(
            rows,
            done,
            layout,
            row.id,
            unique,
            rebuild::changed_cells(layout, row.cells, preserve, own, row_version),
        )
    }
}

/// The identifiers of existing rows from `index` on.
pub open spec fn ids_from(rows: Seq<RowContents>, index: int) -> Seq<u32> {
    Seq::new((rows.len() - index) as nat, |i: int| rows[index + i].id)
}

/// The identifiers of new rows from `index` on.
pub open spec fn new_ids_from(rows: Seq<NewRowContents>, index: int) -> Seq<u32> {
    Seq::new((rows.len() - index) as nat, |i: int| rows[index + i].id.value)
}

proof fn lemma_existing_rows(
    rows: RowsSoFar,
    done: Seq<Seq<u8>>,
    table: TableContents,
    index: int,
    preserve: bool,
    update: Option<UpdateContents>,
    row_version: u32,
) -> (all: Seq<Seq<u8>>)
    requires
        table_laws::layout_distinct(table.layout),
        rows_wf(table),
        heap::heap_wf(rows.pages),
        rows_hold(rows.chunks, table.layout.end_existence_bitmap as int, done),
        0 <= index <= table.rows.len(),
        done.len() == index,
        forall|i: int|
            0 <= i < index ==> existing_row_is(
                table.layout,
                heap_laws::in_heap(rows.pages),
                #[trigger] done[i],
                table.rows[i],
                preserve,
                update,
                row_version,
            ),
    ensures
        rebuild::with_existing_rows(
            rows,
            table.layout,
            table.rows,
            index,
            preserve,
            update,
            row_version,
        ) matches Ok(after) ==> ({
            &&& heap::heap_wf(after.pages)
            &&& heap_laws::heap_keeps(rows.pages, after.pages)
            &&& rows_hold(after.chunks, table.layout.end_existence_bitmap as int, all)
            &&& all.len() == table.rows.len()
            &&& after.ids == rows.ids + ids_from(table.rows, index)
            &&& forall|i: int|
                0 <= i < all.len() ==> existing_row_is(
                    table.layout,
                    heap_laws::in_heap(after.pages),
                    #[trigger] all[i],
                    table.rows[i],
                    preserve,
                    update,
                    row_version,
                )
        }),
    decreases table.rows.len() - index,
{
    let layout = table.layout;
    if index < table.rows.len() {
        let row = table.rows[index];
        let data = lemma_existing_row(rows, done, layout, row, preserve, update, row_version);
        match rebuild::with_existing_row(rows, layout, row, preserve, update, row_version) {
            Err(_) => done,
            Ok(next) => {
                let grown = done.push(data);
                table_laws::lemma_finds_more(rows.pages, next.pages);
                assert forall|i: int| 0 <= i < grown.len() implies existing_row_is(
                    layout,
                    heap_laws::in_heap(next.pages),
                    #[trigger] grown[i],
                    table.rows[i],
                    preserve,
                    update,
                    row_version,
                ) by {
                    if i < index {
                        assert(existing_row_is(
                            layout,
                            heap_laws::in_heap(rows.pages),
                            done[i],
                            table.rows[i],
                            preserve,
                            update,
                            row_version,
                        ));
                        lemma_existing_row_grows(
                            layout,
                            heap_laws::in_heap(rows.pages),
                            heap_laws::in_heap(next.pages),
                            done[i],
                            table.rows[i],
                            preserve,
                            update,
                            row_version,
                        );
                    }
                }
                let all = lemma_existing_rows(
                    next,
                    grown,
                    table,
                    index + 1,
                    preserve,
                    update,
                    row_version,
                );
                assert(rows.ids.push(row.id) + ids_from(table.rows, index + 1) =~= rows.ids
                    + ids_from(table.rows, index));
                all
            },
        }
    } else {
        assert(rows.ids + ids_from(table.rows, index) =~= rows.ids);
        done
    }
}

proof fn lemma_existing_row_grows(
    layout: TableLayout,
    before: spec_fn(HeapId) -> Option<Seq<u8>>,
    after: spec_fn(HeapId) -> Option<Seq<u8>>,
    data: Seq<u8>,
    row: RowContents,
    preserve: bool,
    update: Option<UpdateContents>,
    row_version: u32,
)
    requires
        heap_laws::finds_more(before, after),
        existing_row_is(layout, before, data, row, preserve, update, row_version),
    ensures
        existing_row_is(layout, after, data, row, preserve, update, row_version),
{
    let own = rebuild::own_update(row, update);
    if !(preserve && own is None) {
        let cells = rebuild::changed_cells(layout, row.cells, preserve, own, row_version);
        lemma_row_reads_grows(layout, before, after, data, cells, cells.len() as int);
    }
}

proof fn lemma_new_rows(
    rows: RowsSoFar,
    done: Seq<Seq<u8>>,
    layout: TableLayout,
    new_rows: Seq<NewRowContents>,
    index: int,
    row_version: u32,
    from: int,
) -> (all: Seq<Seq<u8>>)
    requires
        table_laws::layout_distinct(layout),
        heap::heap_wf(rows.pages),
        rows_hold(rows.chunks, layout.end_existence_bitmap as int, done),
        0 <= index <= new_rows.len(),
        0 <= from,
        done.len() == from + index,
        forall|i: int|
            from <= i < done.len() ==> new_row_is(
                layout,
                heap_laws::in_heap(rows.pages),
                #[trigger] done[i],
                new_rows[i - from],
            ),
    ensures
        rebuild::with_new_rows(rows, layout, new_rows, index, row_version) matches Ok(after) ==> ({
            &&& heap::heap_wf(after.pages)
            &&& heap_laws::heap_keeps(rows.pages, after.pages)
            &&& rows_hold(after.chunks, layout.end_existence_bitmap as int, all)
            &&& all.len() == from + new_rows.len()
            &&& after.ids == rows.ids + new_ids_from(new_rows, index)
            &&& forall|i: int| 0 <= i < done.len() ==> #[trigger] all[i] == done[i]
            &&& forall|i: int|
                from <= i < all.len() ==> new_row_is(
                    layout,
                    heap_laws::in_heap(after.pages),
                    #[trigger] all[i],
                    new_rows[i - from],
                )
        }),
    decreases new_rows.len() - index,
{
    if index < new_rows.len() {
        let row = new_rows[index];
        let data = lemma_encoded_row(rows, done, layout, row.id.value, row_version, row.cells);
        match rebuild::with_encoded_row(rows, layout, row.id.value, row_version, row.cells) {
            Err(_) => done,
            Ok(next) => {
                let grown = done.push(data);
                table_laws::lemma_finds_more(rows.pages, next.pages);
                assert forall|i: int| from <= i < grown.len() implies new_row_is(
                    layout,
                    heap_laws::in_heap(next.pages),
                    #[trigger] grown[i],
                    new_rows[i - from],
                ) by {
                    if i < done.len() {
                        let cells = new_rows[i - from].cells;
                        assert(new_row_is(
                            layout,
                            heap_laws::in_heap(rows.pages),
                            done[i],
                            new_rows[i - from],
                        ));
                        lemma_row_reads_grows(
                            layout,
                            heap_laws::in_heap(rows.pages),
                            heap_laws::in_heap(next.pages),
                            done[i],
                            cells,
                            cells.len() as int,
                        );
                    }
                }
                let all = lemma_new_rows(
                    next,
                    grown,
                    layout,
                    new_rows,
                    index + 1,
                    row_version,
                    from,
                );
                assert(rows.ids.push(row.id.value) + new_ids_from(new_rows, index + 1)
                    =~= rows.ids + new_ids_from(new_rows, index));
                if let Ok(after) = rebuild::with_new_rows(
                    next,
                    layout,
                    new_rows,
                    index + 1,
                    row_version,
                ) {
                    assert forall|i: int| 0 <= i < done.len() implies #[trigger] all[i]
                        == done[i] by {
                        assert(all[i] == grown[i]);
                    }
                }
                all
            },
        }
    } else {
        assert(rows.ids + new_ids_from(new_rows, index) =~= rows.ids);
        done
    }
}

/// The identifiers of the rows of a rebuilt table: those that it had, then the new ones.
pub open spec fn rebuilt_ids(table: TableContents, new_rows: Seq<NewRowContents>) -> Seq<u32> {
    ids_from(table.rows, 0) + new_ids_from(new_rows, 0)
}

/// A rebuilt table keeps its layout and has the rows that it had, then the new ones. Every row is found
/// under its identifier and gives back what it holds; one that is kept gives back the same bytes, and
/// everything that the heap held is still there for it.
pub proof fn law_rebuilt_table_reads_back(
    table: TableContents,
    new_rows: Seq<NewRowContents>,
    rows_node: Option<NodeId>,
    row_version: u32,
    update: Option<UpdateContents>,
    preserve: bool,
    rebuilt: RebuiltContents,
    index: int,
    id: u32,
)
    requires
        table_laws::layout_distinct(table.layout),
        rows_wf(table),
        preserve ==> heap::heap_wf(table.pages),
        rebuild::spec_rebuild_table(
            table,
            new_rows,
            rows_node,
            row_version,
            update,
            preserve,
        ) == Ok::<_, PstError>(rebuilt),
    ensures
        rebuilt.row_ids == rebuilt_ids(table, new_rows),
        heap_laws::heap_is_for(rebuilt.heap_pages, 0x7C),
        block_laws::chunks_full(rebuilt.heap_pages),
        holds_rows(
            rebuilt.row_chunks,
            table.layout.end_existence_bitmap as int,
            table.rows.len() + new_rows.len(),
        ),
        table_laws::row_position(rebuilt.heap_pages, id) == table_laws::first_position(
            rebuilt.row_ids,
            id,
            0,
        ),
        table_laws::read_context(rebuilt.heap_pages) matches Some(context)
            && table_laws::has_layout(context, table.layout) && table_laws::context_rows(context)
            == (if rebuilt.row_ids.len() == 0 {
            0
        } else {
            rows_node->Some_0.value
        }),
        preserve ==> heap_laws::finds_more(
            heap_laws::in_heap(table.pages),
            heap_laws::in_pages(rebuilt.heap_pages),
        ),
        0 <= index < rebuilt.row_ids.len() ==> (table_laws::read_row(
            rebuilt.row_chunks,
            table.layout.end_existence_bitmap as int,
            index,
        ) matches Some(data) && (if index < table.rows.len() {
            existing_row_is(
                table.layout,
                heap_laws::in_pages(rebuilt.heap_pages),
                data,
                table.rows[index],
                preserve,
                update,
                row_version,
            )
        } else {
            new_row_is(
                table.layout,
                heap_laws::in_pages(rebuilt.heap_pages),
                data,
                new_rows[index - table.rows.len()],
            )
        })),
{
    let layout = table.layout;
    let size = layout.end_existence_bitmap as int;
    let start = RowsSoFar {
        pages: if preserve {
            table.pages
        } else {
            heap::empty_heap()
        },
        chunks: Seq::empty(),
        ids: Seq::empty(),
    };
    let existing = lemma_existing_rows(
        start,
        Seq::empty(),
        table,
        0,
        preserve,
        update,
        row_version,
    );
    let middle = rebuild::with_existing_rows(
        start,
        layout,
        table.rows,
        0,
        preserve,
        update,
        row_version,
    )->Ok_0;
    let all = lemma_new_rows(
        middle,
        existing,
        layout,
        new_rows,
        0,
        row_version,
        existing.len() as int,
    );
    let after = rebuild::with_new_rows(middle, layout, new_rows, 0, row_version)->Ok_0;
    table_laws::law_finished_table_reads_back(after, layout, rows_node, rebuilt, id);
    assert(rows_hold(rebuilt.row_chunks, size, all));
    assert(Seq::<u32>::empty() + ids_from(table.rows, 0) =~= ids_from(table.rows, 0));
    let found = heap_laws::in_pages(rebuilt.heap_pages);
    let held = heap_laws::in_heap(after.pages);
    table_laws::lemma_finds_more(middle.pages, after.pages);
    if preserve {
        table_laws::lemma_finds_more(start.pages, middle.pages);
        assert forall|id: HeapId|
            heap_laws::in_heap(table.pages)(id) is Some implies #[trigger] found(id)
            == heap_laws::in_heap(table.pages)(id) by {
            assert(heap_laws::in_heap(middle.pages)(id) == heap_laws::in_heap(table.pages)(id));
            assert(held(id) == heap_laws::in_heap(middle.pages)(id));
        }
    }
    if 0 <= index < rebuilt.row_ids.len() {
        let last = choose|last: int| table_laws::chunks_hold(after.chunks, size, all, last);
        assert(table_laws::chunks_hold(after.chunks, size, all, last));
        assert(all[index].len() == size && table_laws::read_row(after.chunks, size, index) == Some(
            all[index],
        ));
        if index < table.rows.len() {
            assert(all[index] == existing[index]);
            lemma_existing_row_grows(
                layout,
                heap_laws::in_heap(middle.pages),
                held,
                all[index],
                table.rows[index],
                preserve,
                update,
                row_version,
            );
            lemma_existing_row_grows(
                layout,
                held,
                found,
                all[index],
                table.rows[index],
                preserve,
                update,
                row_version,
            );
        } else {
            let cells = new_rows[index - table.rows.len()].cells;
            lemma_row_reads_grows(layout, held, found, all[index], cells, cells.len() as int);
        }
    }
}

} // verus!
