//! What a reader finds in the rows of a table in which one value of one row was changed.

use vstd::prelude::*;

use crate::error::PstError;
use crate::ltp::column_laws;
use crate::ltp::column_laws::ColumnValue;
use crate::ltp::heap;
use crate::ltp::heap_laws;
use crate::ltp::rebuild;
use crate::ltp::rebuild::{RebuiltContents, TableContents, UpdateContents};
use crate::ltp::rebuild_laws;
use crate::ltp::table::CellContents;
use crate::ltp::table_laws;
use crate::ndb::ids::NodeId;

verus! {

/// Whether a property is one of the three that say how a row was replicated.
pub open spec fn says_replication(id: u16) -> bool {
    id == 0x0E30 || id == 0x0E33 || id == 0x0E34
}

/// Whether a column of a row is the first of its property, and the row has a cell there of the width of its
/// type.
pub open spec fn is_plain_column(table: TableContents, index: int, column: int) -> bool {
    &&& column_laws::is_first(table.layout.columns, column)
    &&& column < table.rows[index].cells.len()
    &&& column_laws::cell_is_plain(
        table.layout.columns[column].prop_type,
        table.rows[index].cells[column],
    )
}

/// Whether row `index` of a table still has the values of its cells, but for the given property, the version
/// of the row and what says how it was replicated.
pub open spec fn keeps_other_values(
    pages: Seq<Seq<u8>>,
    chunks: Seq<Seq<u8>>,
    table: TableContents,
    index: int,
    property: u16,
) -> bool {
    forall|column: int| #[trigger]
        is_plain_column(table, index, column) && table.layout.columns[column].prop_id != property
            && table.layout.columns[column].prop_id != 0x67F3 && !says_replication(
            table.layout.columns[column].prop_id,
        ) ==> column_laws::table_column(pages, chunks, index, table.layout.columns[column].prop_id)
            == column_laws::found(
            table.layout.columns[column].prop_type,
            table.rows[index].cells[column],
        )
}

/// Whether row `index` of a table has a new value of a property, where the table has a column of its type for
/// it.
pub open spec fn has_new_value(
    pages: Seq<Seq<u8>>,
    chunks: Seq<Seq<u8>>,
    table: TableContents,
    index: int,
    update: UpdateContents,
) -> bool {
    forall|column: int| #[trigger]
        is_plain_column(table, index, column) && table.layout.columns[column].prop_id
            == update.property && table.layout.columns[column].prop_type == update.value.prop_type
            ==> column_laws::table_column(pages, chunks, index, update.property) == Some(
            (
                update.value.prop_type.spec_code() as int,
                if column_laws::fixed_width(update.value.prop_type.spec_code() as int) is Some {
                    ColumnValue::Fixed(update.value.data)
                } else {
                    ColumnValue::Bytes(update.value.data)
                },
            ),
        )
}

/// Whether row `index` of a table has a new version and nothing that says how it was replicated, where the
/// table has columns for them and they are not the given property.
pub open spec fn has_new_version(
    pages: Seq<Seq<u8>>,
    chunks: Seq<Seq<u8>>,
    table: TableContents,
    index: int,
    property: u16,
    row_version: u32,
) -> bool {
    forall|column: int| #[trigger]
        is_plain_column(table, index, column) && table.layout.columns[column].prop_id != property
            ==> {
            let id = table.layout.columns[column].prop_id;
            &&& id == 0x67F3 && table.layout.columns[column].prop_type is Integer32
                ==> column_laws::column_number(pages, chunks, index, 0x67F3, row_version)
            &&& says_replication(id) ==> column_laws::column_none(pages, chunks, index, id)
        }
}

/// The cells with which a row is written that has the update: each is read in its column.
pub proof fn law_changed_row_is_found(
    pages: Seq<Seq<u8>>,
    chunks: Seq<Seq<u8>>,
    table: TableContents,
    index: int,
    update: UpdateContents,
    row_version: u32,
)
    requires
        column_laws::row_holds(
            pages,
            chunks,
            index,
            table.layout,
            rebuild::changed_cells(
                table.layout,
                table.rows[index].cells,
                true,
                Some(update),
                row_version,
            ),
        ),
        column_laws::cell_is_plain(
            update.value.prop_type,
            Some(CellContents::Value(update.value)),
        ),
    ensures
        keeps_other_values(pages, chunks, table, index, update.property),
        has_new_value(pages, chunks, table, index, update),
        has_new_version(pages, chunks, table, index, update.property, row_version),
{
    let layout = table.layout;
    let old_cells = table.rows[index].cells;
    let cells = rebuild::changed_cells(layout, old_cells, true, Some(update), row_version);
    column_laws::lemma_fixed_number(row_version);
    assert forall|column: int| #[trigger] is_plain_column(table, index, column) implies ({
        let id = layout.columns[column].prop_id;
        let prop_type = layout.columns[column].prop_type;
        let read = column_laws::table_column(pages, chunks, index, id);
        &&& id == update.property && prop_type == update.value.prop_type ==> read
            == column_laws::found(prop_type, Some(CellContents::Value(update.value)))
        &&& id != update.property && id == 0x67F3 && prop_type is Integer32
            ==> column_laws::column_number(pages, chunks, index, id, row_version)
        &&& id != update.property && says_replication(id) ==> read is None
        &&& id != update.property && id != 0x67F3 && !says_replication(id) ==> read
            == column_laws::found(prop_type, old_cells[column])
    }) by {
        column_laws::law_table_column(pages, chunks, index, layout, cells, column);
    }
}

/// Changing a value of one row of a table leaves all other values of the row as they were, but for the
/// version of the row, which is the new one, and for what says how it was replicated, which is gone.
pub proof fn law_update_changes_one_value(
    table: TableContents,
    rows_node: NodeId,
    row_version: u32,
    update: UpdateContents,
    rebuilt: RebuiltContents,
    index: int,
)
    requires
        table_laws::layout_distinct(table.layout),
        rebuild_laws::rows_wf(table),
        heap::heap_wf(table.pages),
        rebuild::spec_rebuild_table(
            table,
            Seq::empty(),
            Some(rows_node),
            row_version,
            Some(update),
            true,
        ) == Ok::<_, PstError>(rebuilt),
        0 <= index < table.rows.len(),
        table.rows[index].id == update.row.value,
        column_laws::cell_is_plain(
            update.value.prop_type,
            Some(CellContents::Value(update.value)),
        ),
    ensures
        keeps_other_values(
            rebuilt.heap_pages,
            rebuilt.row_chunks,
            table,
            index,
            update.property,
        ),
        has_new_value(rebuilt.heap_pages, rebuilt.row_chunks, table, index, update),
        has_new_version(
            rebuilt.heap_pages,
            rebuilt.row_chunks,
            table,
            index,
            update.property,
            row_version,
        ),
{
    rebuild_laws::law_rebuilt_table_reads_back(
        table,
        Seq::empty(),
        Some(rows_node),
        row_version,
        Some(update),
        true,
        rebuilt,
        index,
        0,
    );
    assert(rebuilt.row_ids.len() == table.rows.len());
    reveal(column_laws::row_holds);
    law_changed_row_is_found(
        rebuilt.heap_pages,
        rebuilt.row_chunks,
        table,
        index,
        update,
        row_version,
    );
}

/// Where the cells of the row are those that a reader found in it, a reader finds in every column but those
/// of the changed property, the version and the replication what it found before.
pub proof fn law_update_keeps_what_was_read(
    table: TableContents,
    rows_node: NodeId,
    row_version: u32,
    update: UpdateContents,
    rebuilt: RebuiltContents,
    index: int,
    column: int,
    context: Seq<u8>,
)
    requires
        table_laws::layout_distinct(table.layout),
        rebuild_laws::rows_wf(table),
        heap::heap_wf(table.pages),
        rebuild::spec_rebuild_table(
            table,
            Seq::empty(),
            Some(rows_node),
            row_version,
            Some(update),
            true,
        ) == Ok::<_, PstError>(rebuilt),
        0 <= index < table.rows.len(),
        table.rows[index].id == update.row.value,
        column_laws::cell_is_plain(
            update.value.prop_type,
            Some(CellContents::Value(update.value)),
        ),
        table_laws::has_layout(context, table.layout),
        is_plain_column(table, index, column),
        table_laws::cell_reads(
            table.layout,
            heap_laws::in_heap(table.pages),
            table.rows[index].data,
            table.layout.columns[column],
            table.rows[index].cells[column],
        ),
        table.layout.columns[column].prop_id != update.property,
        table.layout.columns[column].prop_id != 0x67F3,
        table.layout.columns[column].prop_id != 0x0E30,
        table.layout.columns[column].prop_id != 0x0E33,
        table.layout.columns[column].prop_id != 0x0E34,
    ensures
        column_laws::table_column(
            rebuilt.heap_pages,
            rebuilt.row_chunks,
            index,
            table.layout.columns[column].prop_id,
        ) == column_laws::read_column(
            heap_laws::in_heap(table.pages),
            context,
            table.rows[index].data,
            table.layout.columns[column].prop_id,
        ),
{
    law_update_changes_one_value(table, rows_node, row_version, update, rebuilt, index);
    column_laws::law_column_reads_back(
        heap_laws::in_heap(table.pages),
        context,
        table.layout,
        table.rows[index].data,
        column,
        table.rows[index].cells[column],
    );
}

} // verus!
