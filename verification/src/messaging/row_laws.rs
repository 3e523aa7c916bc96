//! What the tables of messages and folders give back.

use vstd::prelude::*;

use crate::error::PstError;
use crate::ltp::heap;
use crate::ltp::heap::MAX_HEAP_ALLOCATION_SIZE;
use crate::ltp::heap_laws;
use crate::ltp::rebuild;
use crate::ltp::rebuild::{
    NewRowContents, RebuiltContents, RowsSoFar, TableContents, UpdateContents,
};
use crate::ltp::rebuild_laws;
use crate::ltp::table;
use crate::ltp::table::{CellContents, TableLayout};
use crate::ltp::table_laws;
use crate::messaging::attachment;
use crate::messaging::folder;
use crate::messaging::input::{
    UnicodePstAttachment, UnicodePstBatchMessage, UnicodePstRecipient,
};
use crate::messaging::message;
use crate::messaging::message::{ContentRows, MovedCells};
use crate::messaging::recipient;
use crate::messaging::recipient::ROWS_NODE;
use crate::ndb::block_laws;
use crate::ndb::ids::{NodeId, NodeIdType};

verus! {

/// A table with a layout and no rows.
pub open spec fn empty_table(layout: TableLayout) -> TableContents {
    TableContents { layout, rows: Seq::empty(), pages: heap::empty_heap() }
}

/// The row of recipient `index`.
pub open spec fn recipient_row(
    recipients: Seq<UnicodePstRecipient<'_>>,
    row_version: u32,
    index: int,
) -> NewRowContents {
    NewRowContents {
        id: NodeId { value: (index + 1) as u32 },
        cells: recipient::recipient_cells(recipients[index], (index + 1) as u32, row_version),
    }
}

/// The rows of recipients.
pub open spec fn recipient_rows(
    recipients: Seq<UnicodePstRecipient<'_>>,
    row_version: u32,
) -> Seq<NewRowContents> {
    Seq::new(recipients.len(), |i: int| recipient_row(recipients, row_version, i))
}

proof fn lemma_recipient_rows(
    rows: RowsSoFar,
    recipients: Seq<UnicodePstRecipient<'_>>,
    index: int,
    row_version: u32,
)
    requires
        0 <= index <= recipients.len(),
        recipient::with_recipients(rows, recipients, index, row_version) is Ok,
    ensures
        recipient::with_recipients(rows, recipients, index, row_version) == rebuild::with_new_rows(
            rows,
            recipient::recipient_layout(),
            recipient_rows(recipients, row_version),
            index,
            row_version,
        ),
    decreases recipients.len() - index,
{
    if index < recipients.len() {
        let row = recipient_row(recipients, row_version, index);
        let next = rebuild::with_encoded_row(
            rows,
            recipient::recipient_layout(),
            row.id.value,
            row_version,
            row.cells,
        )->Ok_0;
        lemma_recipient_rows(next, recipients, index + 1, row_version);
    }
}

proof fn lemma_recipient_layout()
    ensures
        table_laws::layout_distinct(recipient::recipient_layout()),
{
}

/// A recipient table gives back a row for every recipient, in their order, with the cells of the
/// recipient, and finds it under its number.
pub proof fn law_recipient_table_reads_back(
    recipients: Seq<UnicodePstRecipient<'_>>,
    row_version: u32,
    table: RebuiltContents,
    index: int,
)
    requires
        recipient::recipient_table(recipients, row_version) == Ok::<_, PstError>(table),
        0 <= index < recipients.len(),
    ensures
        table.row_ids.len() == recipients.len(),
        table.row_ids[index] == index + 1,
        table_laws::read_context(table.heap_pages) matches Some(context)
            && table_laws::has_layout(context, recipient::recipient_layout())
            && table_laws::context_rows(context) == 0x1001,
        table_laws::read_row(table.row_chunks, 56, index) matches Some(data)
            && rebuild_laws::new_row_is(
            recipient::recipient_layout(),
            heap_laws::in_pages(table.heap_pages),
            data,
            recipient_row(recipients, row_version, index),
        ),
        table_laws::row_position(table.heap_pages, (index + 1) as u32) == Some(index as u32),
{
    reveal(recipient::recipient_table);
    let layout = recipient::recipient_layout();
    let new_rows = recipient_rows(recipients, row_version);
    let id = (index + 1) as u32;
    lemma_recipient_rows(recipient::no_rows(), recipients, 0, row_version);
    lemma_recipient_layout();
    rebuild_laws::law_rebuilt_table_reads_back(
        empty_table(layout),
        new_rows,
        Some(NodeId { value: ROWS_NODE }),
        row_version,
        None,
        false,
        table,
        index,
        id,
    );
    lemma_numbered_position(table.row_ids, 0, index);
}

proof fn lemma_numbered_position(row_ids: Seq<u32>, from: int, index: int)
    requires
        0 <= from <= index < row_ids.len() <= u32::MAX,
        forall|i: int| 0 <= i < row_ids.len() ==> #[trigger] row_ids[i] == i + 1,
    ensures
        table_laws::first_position(row_ids, (index + 1) as u32, from) == Some(index as u32),
    decreases index - from,
{
    if from < index {
        assert(row_ids[from] == from + 1);
        lemma_numbered_position(row_ids, from + 1, index);
    } else {
        assert(row_ids[index] == index + 1);
    }
}

/// The recipient table of a message without recipients has no rows.
pub proof fn law_no_recipients(
    recipients: Seq<UnicodePstRecipient<'_>>,
    row_version: u32,
    table: RebuiltContents,
)
    requires
        recipient::recipient_table(recipients, row_version) == Ok::<_, PstError>(table),
        recipients.len() == 0,
    ensures
        table.row_ids.len() == 0,
{
    reveal(recipient::recipient_table);
    let layout = recipient::recipient_layout();
    lemma_recipient_rows(recipient::no_rows(), recipients, 0, row_version);
    lemma_recipient_layout();
    rebuild_laws::law_rebuilt_table_reads_back(
        empty_table(layout),
        recipient_rows(recipients, row_version),
        Some(NodeId { value: ROWS_NODE }),
        row_version,
        None,
        false,
        table,
        0,
        0,
    );
}

/// The row of attachment `index`.
pub open spec fn attachment_row(
    row_ids: Seq<NodeId>,
    files: Seq<UnicodePstAttachment<'_>>,
    row_version: u32,
    index: int,
) -> NewRowContents {
    NewRowContents {
        id: row_ids[index],
        cells: attachment::attachment_cells(
            files[index],
            attachment::spec_attachment_size(files[index])->Ok_0 as u32,
            row_ids[index],
            row_version,
        ),
    }
}

/// The rows of attachments.
pub open spec fn attachment_rows(
    row_ids: Seq<NodeId>,
    files: Seq<UnicodePstAttachment<'_>>,
    row_version: u32,
) -> Seq<NewRowContents> {
    Seq::new(files.len(), |i: int| attachment_row(row_ids, files, row_version, i))
}

proof fn lemma_attachment_rows(
    rows: RowsSoFar,
    row_ids: Seq<NodeId>,
    files: Seq<UnicodePstAttachment<'_>>,
    index: int,
    row_version: u32,
)
    requires
        0 <= index <= files.len(),
        attachment::with_attachment_rows(rows, row_ids, files, index, row_version) is Ok,
    ensures
        attachment::with_attachment_rows(rows, row_ids, files, index, row_version)
            == rebuild::with_new_rows(
            rows,
            attachment::attachment_layout(),
            attachment_rows(row_ids, files, row_version),
            index,
            row_version,
        ),
    decreases files.len() - index,
{
    if index < files.len() {
        let row = attachment_row(row_ids, files, row_version, index);
        let next = rebuild::with_encoded_row(
            rows,
            attachment::attachment_layout(),
            row.id.value,
            row_version,
            row.cells,
        )->Ok_0;
        lemma_attachment_rows(next, row_ids, files, index + 1, row_version);
    }
}

proof fn lemma_attachment_layout()
    ensures
        table_laws::layout_distinct(attachment::attachment_layout()),
{
}

/// An attachment table gives back a row for every attachment, in their order, with the cells of the
/// attachment.
pub proof fn law_attachment_table_reads_back(
    row_ids: Seq<NodeId>,
    files: Seq<UnicodePstAttachment<'_>>,
    row_version: u32,
    table: RebuiltContents,
    index: int,
)
    requires
        attachment::attachment_table(row_ids, files, row_version) == Ok::<_, PstError>(table),
        row_ids.len() == files.len(),
        0 <= index < files.len(),
    ensures
        table.row_ids.len() == files.len(),
        table.row_ids[index] == row_ids[index].value,
        table_laws::read_context(table.heap_pages) matches Some(context)
            && table_laws::has_layout(context, attachment::attachment_layout())
            && table_laws::context_rows(context) == 0x1001,
        table_laws::read_row(table.row_chunks, 25, index) matches Some(data)
            && rebuild_laws::new_row_is(
            attachment::attachment_layout(),
            heap_laws::in_pages(table.heap_pages),
            data,
            attachment_row(row_ids, files, row_version, index),
        ),
{
    reveal(attachment::attachment_table);
    let layout = attachment::attachment_layout();
    lemma_attachment_rows(recipient::no_rows(), row_ids, files, 0, row_version);
    lemma_attachment_layout();
    rebuild_laws::law_rebuilt_table_reads_back(
        empty_table(layout),
        attachment_rows(row_ids, files, row_version),
        Some(NodeId { value: ROWS_NODE }),
        row_version,
        None,
        false,
        table,
        index,
        0,
    );
}

/// Whether a cell stands for another: it is the same, or a subnode that holds its bytes.
pub open spec fn cell_stands(
    moved: Option<CellContents>,
    external: Seq<(NodeId, Seq<u8>)>,
    cell: Option<CellContents>,
) -> bool {
    moved == cell || match (cell, moved) {
        (Some(CellContents::Bytes(data)), Some(CellContents::Node(node))) => data.len()
            > 8164 && external.contains((node, data)) && node.value % 32 != 0,
        _ => false,
    }
}

/// Whether cells stand for others, one by one.
pub open spec fn cells_stand(
    moved: Seq<Option<CellContents>>,
    external: Seq<(NodeId, Seq<u8>)>,
    cells: Seq<Option<CellContents>>,
) -> bool {
    moved.len() == cells.len() && forall|i: int|
        0 <= i < cells.len() ==> cell_stands(#[trigger] moved[i], external, cells[i])
}

/// Whether values are only added.
pub open spec fn external_grows(
    before: Seq<(NodeId, Seq<u8>)>,
    after: Seq<(NodeId, Seq<u8>)>,
) -> bool {
    before.len() <= after.len() && forall|i: int|
        0 <= i < before.len() ==> #[trigger] after[i] == before[i]
}

proof fn lemma_cells_stand_grows(
    moved: Seq<Option<CellContents>>,
    before: Seq<(NodeId, Seq<u8>)>,
    after: Seq<(NodeId, Seq<u8>)>,
    cells: Seq<Option<CellContents>>,
)
    requires
        external_grows(before, after),
        cells_stand(moved, before, cells),
    ensures
        cells_stand(moved, after, cells),
{
    assert forall|i: int| 0 <= i < cells.len() implies cell_stands(
        #[trigger] moved[i],
        after,
        cells[i],
    ) by {
        assert(cell_stands(moved[i], before, cells[i]));
        if moved[i] != cells[i] {
            let data = cells[i]->Some_0->Bytes_0;
            let node = moved[i]->Some_0->Node_0;
            let at = before.index_of((node, data));
            assert(after[at] == before[at]);
        }
    }
}

proof fn lemma_moved_cells(moved: MovedCells, index: int, cells: Seq<Option<CellContents>>)
    requires
        0 <= index <= cells.len(),
        cells_stand(moved.cells, moved.external, cells),
        forall|i: int| index <= i < cells.len() ==> #[trigger] moved.cells[i] == cells[i],
    ensures
        message::with_moved_cells(moved, index) matches Ok(after) ==> cells_stand(
            after.cells,
            after.external,
            cells,
        ) && external_grows(moved.external, after.external),
    decreases cells.len() - index,
{
    if index < cells.len() {
        match moved.cells[index] {
            Some(CellContents::Bytes(data)) => {
                if data.len() > MAX_HEAP_ALLOCATION_SIZE {
                    if let Ok(node) = NodeId::spec_new(NodeIdType::Internal, moved.next_index) {
                        let next = MovedCells {
                            cells: moved.cells.update(index, Some(CellContents::Node(node))),
                            external: moved.external.push((node, data)),
                            next_index: (moved.next_index + 1) as u32,
                        };
                        lemma_cells_stand_grows(
                            moved.cells,
                            moved.external,
                            next.external,
                            cells,
                        );
                        assert(next.external[moved.external.len() as int] == (node, data));
                        assert forall|i: int| 0 <= i < cells.len() implies cell_stands(
                            #[trigger] next.cells[i],
                            next.external,
                            cells[i],
                        ) by {
                            if i != index {
                                assert(cell_stands(moved.cells[i], next.external, cells[i]));
                            }
                        }
                        lemma_moved_cells(next, index + 1, cells);
                        if let Ok(after) = message::with_moved_cells(next, index + 1) {
                            assert forall|i: int|
                                0 <= i < moved.external.len() implies #[trigger] after.external[i]
                                == moved.external[i] by {
                                assert(after.external[i] == next.external[i]);
                            }
                        }
                    }
                } else {
                    lemma_moved_cells(moved, index + 1, cells);
                }
            },
            _ => {
                lemma_moved_cells(moved, index + 1, cells);
            },
        }
    }
}

/// The cells of message `index` of a batch.
pub open spec fn batch_cells(
    layout: TableLayout,
    inputs: Seq<UnicodePstBatchMessage<'_>>,
    store_record_key: Seq<u8>,
    folder: NodeId,
    messages: Seq<NodeId>,
    message_sizes: Seq<i32>,
    row_version: u32,
    index: int,
) -> Seq<Option<CellContents>> {
    message::message_cells(
        layout.columns,
        inputs[index].message,
        inputs[index].attachments@.len() > 0,
        store_record_key,
        folder,
        messages[index],
        row_version,
        message_sizes[index] as u32,
    )
}

/// Whether the rows stand for the messages of a batch.
pub open spec fn content_rows_stand(
    done: ContentRows,
    layout: TableLayout,
    inputs: Seq<UnicodePstBatchMessage<'_>>,
    store_record_key: Seq<u8>,
    folder: NodeId,
    messages: Seq<NodeId>,
    message_sizes: Seq<i32>,
    row_version: u32,
) -> bool {
    forall|i: int|
        0 <= i < done.rows.len() ==> (#[trigger] done.rows[i]).id == messages[i] && cells_stand(
            done.rows[i].cells,
            done.external,
            batch_cells(
                layout,
                inputs,
                store_record_key,
                folder,
                messages,
                message_sizes,
                row_version,
                i,
            ),
        )
}

proof fn lemma_content_rows(
    done: ContentRows,
    layout: TableLayout,
    inputs: Seq<UnicodePstBatchMessage<'_>>,
    store_record_key: Seq<u8>,
    folder: NodeId,
    messages: Seq<NodeId>,
    message_sizes: Seq<i32>,
    row_version: u32,
    index: int,
)
    requires
        0 <= index <= inputs.len(),
        messages.len() == inputs.len(),
        message_sizes.len() == inputs.len(),
        done.rows.len() == index,
        content_rows_stand(
            done,
            layout,
            inputs,
            store_record_key,
            folder,
            messages,
            message_sizes,
            row_version,
        ),
    ensures
        message::with_content_rows(
            done,
            layout.columns,
            inputs,
            store_record_key,
            folder,
            messages,
            message_sizes,
            row_version,
            index,
        ) matches Ok(after) ==> after.rows.len() == inputs.len() && content_rows_stand(
            after,
            layout,
            inputs,
            store_record_key,
            folder,
            messages,
            message_sizes,
            row_version,
        ),
    decreases inputs.len() - index,
{
    if index < inputs.len() {
        let cells = batch_cells(
            layout,
            inputs,
            store_record_key,
            folder,
            messages,
            message_sizes,
            row_version,
            index,
        );
        let start = MovedCells { cells, external: done.external, next_index: done.next_index };
        assert(cells_stand(cells, done.external, cells));
        lemma_moved_cells(start, 0, cells);
        if let Ok(moved) = message::with_moved_cells(start, 0) {
            let next = ContentRows {
                rows: done.rows.push(NewRowContents { id: messages[index], cells: moved.cells }),
                external: moved.external,
                next_index: moved.next_index,
            };
            assert forall|i: int| 0 <= i < next.rows.len() implies (#[trigger] next.rows[i]).id
                == messages[i] && cells_stand(
                next.rows[i].cells,
                next.external,
                batch_cells(
                    layout,
                    inputs,
                    store_record_key,
                    folder,
                    messages,
                    message_sizes,
                    row_version,
                    i,
                ),
            ) by {
                if i < index {
                    assert(next.rows[i] == done.rows[i]);
                    lemma_cells_stand_grows(
                        done.rows[i].cells,
                        done.external,
                        next.external,
                        batch_cells(
                            layout,
                            inputs,
                            store_record_key,
                            folder,
                            messages,
                            message_sizes,
                            row_version,
                            i,
                        ),
                    );
                }
            }
            lemma_content_rows(
                next,
                layout,
                inputs,
                store_record_key,
                folder,
                messages,
                message_sizes,
                row_version,
                index + 1,
            );
        }
    }
}

/// Whether a row of the contents table is that of a message: it gives back the cells of the message,
/// or subnodes that hold those too large for the heap.
pub open spec fn message_row_is(
    layout: TableLayout,
    lookup: spec_fn(heap::HeapId) -> Option<Seq<u8>>,
    data: Seq<u8>,
    external: Seq<(NodeId, Seq<u8>)>,
    cells: Seq<Option<CellContents>>,
) -> bool {
    exists|moved: Seq<Option<CellContents>>| #[trigger]
        cells_stand(moved, external, cells) && table_laws::row_reads(
            layout,
            lookup,
            data,
            moved,
            moved.len() as int,
        )
}

/// Appending messages keeps the contents table of the folder: its layout, its rows and their cells, in
/// their order. The rows of the messages follow, in the order of the batch.
pub proof fn law_contents_table_keeps_rows(
    table: TableContents,
    inputs: Seq<UnicodePstBatchMessage<'_>>,
    store_record_key: Seq<u8>,
    folder: NodeId,
    messages: Seq<NodeId>,
    message_sizes: Seq<i32>,
    rows_node: NodeId,
    next_subnode_index: u32,
    row_version: u32,
    rebuilt: RebuiltContents,
    external: Seq<(NodeId, Seq<u8>)>,
    index: int,
)
    requires
        table_laws::layout_distinct(table.layout),
        rebuild_laws::rows_wf(table),
        messages.len() == inputs.len(),
        message_sizes.len() == inputs.len(),
        message::spec_rebuild_contents_table(
            table,
            inputs,
            store_record_key,
            folder,
            messages,
            message_sizes,
            rows_node,
            next_subnode_index,
            row_version,
        ) == Ok::<_, PstError>((rebuilt, external)),
        0 <= index < table.rows.len() + inputs.len(),
    ensures
        block_laws::chunks_full(rebuilt.heap_pages),
        rebuild_laws::holds_rows(
            rebuilt.row_chunks,
            table.layout.end_existence_bitmap as int,
            rebuilt.row_ids.len(),
        ),
        forall|id: u32| #[trigger]
            table_laws::row_position(rebuilt.heap_pages, id) == table_laws::first_position(
                rebuilt.row_ids,
                id,
                0,
            ),
        rebuilt.row_ids.len() == table.rows.len() + inputs.len(),
        rebuilt.row_ids[index] == (if index < table.rows.len() {
            table.rows[index].id
        } else {
            messages[index - table.rows.len()].value
        }),
        table_laws::read_context(rebuilt.heap_pages) matches Some(context)
            && table_laws::has_layout(context, table.layout) && table_laws::context_rows(context)
            == rows_node.value,
        table_laws::read_row(
            rebuilt.row_chunks,
            table.layout.end_existence_bitmap as int,
            index,
        ) matches Some(data) && (if index < table.rows.len() {
            table_laws::row_reads(
                table.layout,
                heap_laws::in_pages(rebuilt.heap_pages),
                data,
                table.rows[index].cells,
                table.rows[index].cells.len() as int,
            )
        } else {
            message_row_is(
                table.layout,
                heap_laws::in_pages(rebuilt.heap_pages),
                data,
                external,
                batch_cells(
                    table.layout,
                    inputs,
                    store_record_key,
                    folder,
                    messages,
                    message_sizes,
                    row_version,
                    index - table.rows.len(),
                ),
            )
        }),
{
    reveal(message::spec_rebuild_contents_table);
    let start = message::no_content_rows(next_subnode_index);
    lemma_content_rows(
        start,
        table.layout,
        inputs,
        store_record_key,
        folder,
        messages,
        message_sizes,
        row_version,
        0,
    );
    let done = message::with_content_rows(
        start,
        table.layout.columns,
        inputs,
        store_record_key,
        folder,
        messages,
        message_sizes,
        row_version,
        0,
    )->Ok_0;
    rebuild_laws::law_rebuilt_table_reads_back(
        table,
        done.rows,
        Some(rows_node),
        row_version,
        None,
        false,
        rebuilt,
        index,
        0,
    );
    assert forall|id: u32| #[trigger]
        table_laws::row_position(rebuilt.heap_pages, id) == table_laws::first_position(
            rebuilt.row_ids,
            id,
            0,
        ) by {
        rebuild_laws::law_rebuilt_table_reads_back(
            table,
            done.rows,
            Some(rows_node),
            row_version,
            None,
            false,
            rebuilt,
            index,
            id,
        );
    }
    let size = table.layout.end_existence_bitmap as int;
    let data = table_laws::read_row(rebuilt.row_chunks, size, index)->Some_0;
    let found = heap_laws::in_pages(rebuilt.heap_pages);
    if index < table.rows.len() {
        let cells = table.rows[index].cells;
        let changed = rebuild::changed_cells(table.layout, cells, false, None, row_version);
        assert forall|i: int|
            0 <= i < cells.len() && i < cells.len() && i
                < table.layout.columns.len() implies table_laws::cell_reads(
            table.layout,
            found,
            data,
            #[trigger] table.layout.columns[i],
            cells[i],
        ) by {
            assert(changed[i] == cells[i]);
            assert(i < changed.len());
        }
    } else {
        let row = done.rows[index - table.rows.len()];
        assert(cells_stand(
            row.cells,
            external,
            batch_cells(
                table.layout,
                inputs,
                store_record_key,
                folder,
                messages,
                message_sizes,
                row_version,
                index - table.rows.len(),
            ),
        ));
    }
}

/// A new folder gets a row in the hierarchy table of its parent, and every row that was there is kept
/// byte by byte, with everything that it refers to in the heap.
pub proof fn law_hierarchy_table_keeps_rows(
    table: TableContents,
    store_record_key: Seq<u8>,
    folder: NodeId,
    name: Seq<char>,
    has_subfolders: bool,
    rows_node: NodeId,
    row_version: u32,
    rebuilt: RebuiltContents,
    index: int,
)
    requires
        table_laws::layout_distinct(table.layout),
        rebuild_laws::rows_wf(table),
        heap::heap_wf(table.pages),
        folder::hierarchy_table(
            table,
            store_record_key,
            folder,
            name,
            has_subfolders,
            rows_node,
            row_version,
        ) == Ok::<_, PstError>(rebuilt),
        0 <= index <= table.rows.len(),
    ensures
        block_laws::chunks_full(rebuilt.heap_pages),
        rebuild_laws::holds_rows(
            rebuilt.row_chunks,
            table.layout.end_existence_bitmap as int,
            rebuilt.row_ids.len(),
        ),
        forall|id: u32| #[trigger]
            table_laws::row_position(rebuilt.heap_pages, id) == table_laws::first_position(
                rebuilt.row_ids,
                id,
                0,
            ),
        rebuilt.row_ids == rebuild_laws::ids_from(table.rows, 0).push(folder.value),
        heap_laws::finds_more(
            heap_laws::in_heap(table.pages),
            heap_laws::in_pages(rebuilt.heap_pages),
        ),
        table_laws::read_context(rebuilt.heap_pages) matches Some(context)
            && table_laws::has_layout(context, table.layout) && table_laws::context_rows(context)
            == rows_node.value,
        table_laws::read_row(
            rebuilt.row_chunks,
            table.layout.end_existence_bitmap as int,
            index,
        ) matches Some(data) && (if index < table.rows.len() {
            data == table.rows[index].data
        } else {
            rebuild_laws::new_row_is(
                table.layout,
                heap_laws::in_pages(rebuilt.heap_pages),
                data,
                folder::folder_row(
                    table.layout.columns,
                    store_record_key,
                    folder,
                    name,
                    has_subfolders,
                    row_version,
                ),
            )
        }),
{
    let row = folder::folder_row(
        table.layout.columns,
        store_record_key,
        folder,
        name,
        has_subfolders,
        row_version,
    );
    rebuild_laws::law_rebuilt_table_reads_back(
        table,
        seq![row],
        Some(rows_node),
        row_version,
        None,
        true,
        rebuilt,
        index,
        0,
    );
    assert forall|id: u32| #[trigger]
        table_laws::row_position(rebuilt.heap_pages, id) == table_laws::first_position(
            rebuilt.row_ids,
            id,
            0,
        ) by {
        rebuild_laws::law_rebuilt_table_reads_back(
            table,
            seq![row],
            Some(rows_node),
            row_version,
            None,
            true,
            rebuilt,
            index,
            id,
        );
    }
    assert(rebuild_laws::rebuilt_ids(table, seq![row]) =~= rebuild_laws::ids_from(
        table.rows,
        0,
    ).push(folder.value));
}

/// Changing a value in one row of a table keeps every other row byte by byte, with everything that it
/// refers to in the heap. The row gives back the new value, its new version, and its other cells.
pub proof fn law_updated_table_keeps_rows(
    table: TableContents,
    rows_node: NodeId,
    row_version: u32,
    update: UpdateContents,
    rebuilt: RebuiltContents,
    index: int,
)
    requires
        table_laws::layout_distinct(table.layout),
        rebuild_laws::rows_wf(table),
        heap::heap_wf(table.pages),
        rebuild::spec_rebuild_table(
            table,
            Seq::empty(),
            Some(rows_node),
            row_version,
            Some(update),
            true,
        ) == Ok::<_, PstError>(rebuilt),
        0 <= index < table.rows.len(),
    ensures
        block_laws::chunks_full(rebuilt.heap_pages),
        rebuild_laws::holds_rows(
            rebuilt.row_chunks,
            table.layout.end_existence_bitmap as int,
            rebuilt.row_ids.len(),
        ),
        forall|id: u32| #[trigger]
            table_laws::row_position(rebuilt.heap_pages, id) == table_laws::first_position(
                rebuilt.row_ids,
                id,
                0,
            ),
        rebuilt.row_ids == rebuild_laws::ids_from(table.rows, 0),
        table_laws::read_context(rebuilt.heap_pages) matches Some(context)
            && table_laws::has_layout(context, table.layout) && table_laws::context_rows(context)
            == rows_node.value,
        heap_laws::finds_more(
            heap_laws::in_heap(table.pages),
            heap_laws::in_pages(rebuilt.heap_pages),
        ),
        table_laws::read_row(
            rebuilt.row_chunks,
            table.layout.end_existence_bitmap as int,
            index,
        ) matches Some(data) && (if table.rows[index].id != update.row.value {
            data == table.rows[index].data
        } else {
            let cells = rebuild::changed_cells(
                table.layout,
                table.rows[index].cells,
                true,
                Some(update),
                row_version,
            );
            table_laws::row_reads(
                table.layout,
                heap_laws::in_pages(rebuilt.heap_pages),
                data,
                cells,
                cells.len() as int,
            )
        }),
{
    rebuild_laws::law_rebuilt_table_reads_back(
        table,
        Seq::empty(),
        Some(rows_node),
        row_version,
        Some(update),
        true,
        rebuilt,
        index,
        0,
    );
    assert forall|id: u32| #[trigger]
        table_laws::row_position(rebuilt.heap_pages, id) == table_laws::first_position(
            rebuilt.row_ids,
            id,
            0,
        ) by {
        rebuild_laws::law_rebuilt_table_reads_back(
            table,
            Seq::empty(),
            Some(rows_node),
            row_version,
            Some(update),
            true,
            rebuilt,
            index,
            id,
        );
    }
    assert(rebuild_laws::rebuilt_ids(table, Seq::empty()) =~= rebuild_laws::ids_from(
        table.rows,
        0,
    ));
}

} // verus!
