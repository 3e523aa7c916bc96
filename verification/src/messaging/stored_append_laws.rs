//! What a reader finds in the tables and the properties of a folder after messages were appended to it, or a
//! folder was created in it, property by property.

use vstd::prelude::*;

use crate::ltp::column_laws;
use crate::ltp::property;
use crate::ltp::property::EncodedValue;
use crate::ltp::rebuild;
use crate::ltp::rebuild::UpdateContents;
use crate::ltp::table::CellContents;
use crate::ltp::table_laws;
use crate::ltp::update_laws;
use crate::messaging::append;
use crate::messaging::create;
use crate::messaging::input::UnicodePstBatchMessage;
use crate::messaging::row_laws;
use crate::messaging::stored_contents_laws;
use crate::messaging::stored_laws;
use crate::messaging::update::TableNodeContents;
use crate::messaging::whole_laws;
use crate::ndb::block::{BlockPlan, UnicodeLeafSubNodeTreeEntry};
use crate::ndb::btree::UnicodeNodeBTreeEntry;
use crate::ndb::ids::NodeId;

verus! {

/// The contents table that a node holds after an append lists message `index` of the batch behind the rows that
/// were there, with its parts under their properties.
pub proof fn law_contents_list_messages(
    plan: BlockPlan,
    entry: UnicodeNodeBTreeEntry,
    contents: TableNodeContents,
    inputs: Seq<UnicodePstBatchMessage<'_>>,
    store_record_key: Seq<u8>,
    folder: NodeId,
    messages: Seq<NodeId>,
    message_sizes: Seq<i32>,
    row_version: u32,
    pages: Seq<Seq<u8>>,
    chunks: Seq<Seq<u8>>,
    subnodes: Seq<UnicodeLeafSubNodeTreeEntry>,
    external: Seq<(NodeId, Seq<u8>)>,
    index: int,
    column: int,
)
    requires
        whole_laws::contents_hold(
            plan,
            entry,
            contents,
            inputs,
            store_record_key,
            folder,
            messages,
            message_sizes,
            row_version,
            pages,
            chunks,
            subnodes,
            external,
        ),
        0 <= index < inputs.len(),
        column_laws::is_first(contents.table.layout.columns, column),
    ensures
        stored_contents_laws::lists_message(
            pages,
            chunks,
            external,
            contents.table.rows.len() + index,
            contents.table.layout.columns[column],
            inputs[index].message,
            inputs[index].attachments@.len() > 0,
            store_record_key,
            folder,
            messages[index],
            row_version,
            message_sizes[index] as u32,
        ),
{
    let table = contents.table;
    let row = table.rows.len() + index;
    assert(whole_laws::appended_row_is(
        table,
        inputs,
        store_record_key,
        folder,
        messages,
        message_sizes,
        row_version,
        pages,
        chunks,
        external,
        row,
    ));
    let size = table.layout.end_existence_bitmap as int;
    stored_contents_laws::lemma_message_row(
        pages,
        chunks,
        external,
        row,
        table.layout,
        row_laws::batch_cells(
            table.layout,
            inputs,
            store_record_key,
            folder,
            messages,
            message_sizes,
            row_version,
            index,
        ),
        table_laws::read_row(chunks, size, row)->Some_0,
        column,
        inputs[index].message,
        inputs[index].attachments@.len() > 0,
        store_record_key,
        folder,
        messages[index],
        row_version,
        message_sizes[index] as u32,
    );
}

/// The contents table that a node holds after an append still has the cells of the rows that were there.
pub proof fn law_contents_keep_rows(
    plan: BlockPlan,
    entry: UnicodeNodeBTreeEntry,
    contents: TableNodeContents,
    inputs: Seq<UnicodePstBatchMessage<'_>>,
    store_record_key: Seq<u8>,
    folder: NodeId,
    messages: Seq<NodeId>,
    message_sizes: Seq<i32>,
    row_version: u32,
    pages: Seq<Seq<u8>>,
    chunks: Seq<Seq<u8>>,
    subnodes: Seq<UnicodeLeafSubNodeTreeEntry>,
    external: Seq<(NodeId, Seq<u8>)>,
    index: int,
    column: int,
)
    requires
        whole_laws::contents_hold(
            plan,
            entry,
            contents,
            inputs,
            store_record_key,
            folder,
            messages,
            message_sizes,
            row_version,
            pages,
            chunks,
            subnodes,
            external,
        ),
        0 <= index < contents.table.rows.len(),
        update_laws::is_plain_column(contents.table, index, column),
    ensures
        column_laws::table_column(
            pages,
            chunks,
            index,
            contents.table.layout.columns[column].prop_id,
        ) == column_laws::found(
            contents.table.layout.columns[column].prop_type,
            contents.table.rows[index].cells[column],
        ),
{
    let table = contents.table;
    assert(whole_laws::appended_row_is(
        table,
        inputs,
        store_record_key,
        folder,
        messages,
        message_sizes,
        row_version,
        pages,
        chunks,
        external,
        index,
    ));
    let cells = table.rows[index].cells;
    assert(column_laws::row_holds(pages, chunks, index, table.layout, cells)) by {
        reveal(column_laws::row_holds);
    }
    column_laws::law_table_column(pages, chunks, index, table.layout, cells, column);
}

/// The table that a node holds after one value of one row was changed keeps the other values of that row, and
/// every other row byte by byte.
pub proof fn law_changed_table_keeps_values(
    plan: BlockPlan,
    entry: UnicodeNodeBTreeEntry,
    node: TableNodeContents,
    row_version: u32,
    update: UpdateContents,
    pages: Seq<Seq<u8>>,
    chunks: Seq<Seq<u8>>,
    subnodes: Seq<UnicodeLeafSubNodeTreeEntry>,
    index: int,
)
    requires
        whole_laws::updated_table_reads(
            plan,
            entry,
            node,
            row_version,
            update,
            pages,
            chunks,
            subnodes,
        ),
        column_laws::cell_is_plain(
            update.value.prop_type,
            Some(CellContents::Value(update.value)),
        ),
        0 <= index < node.table.rows.len(),
    ensures
        if node.table.rows[index].id == update.row.value {
            &&& update_laws::keeps_other_values(
                pages,
                chunks,
                node.table,
                index,
                update.property,
            )
            &&& update_laws::has_new_value(pages, chunks, node.table, index, update)
            &&& update_laws::has_new_version(
                pages,
                chunks,
                node.table,
                index,
                update.property,
                row_version,
            )
        } else {
            table_laws::read_row(
                chunks,
                node.table.layout.end_existence_bitmap as int,
                index,
            ) == Some(node.table.rows[index].data)
        },
{
    let table = node.table;
    assert(whole_laws::updated_row_is(table, row_version, update, pages, chunks, index));
    if table.rows[index].id == update.row.value {
        let cells = rebuild::changed_cells(
            table.layout,
            table.rows[index].cells,
            true,
            Some(update),
            row_version,
        );
        assert(column_laws::row_holds(pages, chunks, index, table.layout, cells)) by {
            reveal(column_laws::row_holds);
        }
        update_laws::law_changed_row_is_found(pages, chunks, table, index, update, row_version);
    }
}

/// After an append the row of the folder in the hierarchy table above has the number of its messages under
/// 0x3602, and its other values.
pub proof fn law_message_count_is_read(
    plan: BlockPlan,
    entry: UnicodeNodeBTreeEntry,
    node: TableNodeContents,
    row_version: u32,
    folder: NodeId,
    count: nat,
    pages: Seq<Seq<u8>>,
    chunks: Seq<Seq<u8>>,
    subnodes: Seq<UnicodeLeafSubNodeTreeEntry>,
    index: int,
    column: int,
)
    requires
        whole_laws::updated_table_reads(
            plan,
            entry,
            node,
            row_version,
            append::count_update(folder, count),
            pages,
            chunks,
            subnodes,
        ),
        count <= i32::MAX,
        0 <= index < node.table.rows.len(),
        node.table.rows[index].id == folder.value,
        update_laws::is_plain_column(node.table, index, column),
    ensures
        node.table.layout.columns[column].prop_id == 0x3602
            && node.table.layout.columns[column].prop_type is Integer32
            ==> column_laws::column_number(pages, chunks, index, 0x3602, count as u32),
        update_laws::keeps_other_values(pages, chunks, node.table, index, 0x3602),
        update_laws::has_new_version(pages, chunks, node.table, index, 0x3602, row_version),
{
    law_changed_table_keeps_values(
        plan,
        entry,
        node,
        row_version,
        append::count_update(folder, count),
        pages,
        chunks,
        subnodes,
        index,
    );
    column_laws::lemma_fixed_number(count as u32);
}

/// After a folder was created the row of its parent in the hierarchy table above says under 0x360A that it has
/// folders, and has its other values.
pub proof fn law_subfolders_are_read(
    plan: BlockPlan,
    entry: UnicodeNodeBTreeEntry,
    node: TableNodeContents,
    row_version: u32,
    folder: NodeId,
    pages: Seq<Seq<u8>>,
    chunks: Seq<Seq<u8>>,
    subnodes: Seq<UnicodeLeafSubNodeTreeEntry>,
    index: int,
    column: int,
)
    requires
        whole_laws::updated_table_reads(
            plan,
            entry,
            node,
            row_version,
            create::subfolders_update(folder),
            pages,
            chunks,
            subnodes,
        ),
        0 <= index < node.table.rows.len(),
        node.table.rows[index].id == folder.value,
        update_laws::is_plain_column(node.table, index, column),
    ensures
        node.table.layout.columns[column].prop_id == 0x360A
            && node.table.layout.columns[column].prop_type is Boolean ==> column_laws::column_flag(
            pages,
            chunks,
            index,
            0x360A,
            true,
        ),
        update_laws::keeps_other_values(pages, chunks, node.table, index, 0x360A),
        update_laws::has_new_version(pages, chunks, node.table, index, 0x360A, row_version),
{
    law_changed_table_keeps_values(
        plan,
        entry,
        node,
        row_version,
        create::subfolders_update(folder),
        pages,
        chunks,
        subnodes,
        index,
    );
}

/// The properties of a folder after a number was set in them, or a truth value, have it under its identifier.
pub proof fn law_set_property_is_read(
    plan: BlockPlan,
    entry: UnicodeNodeBTreeEntry,
    properties: Seq<(u16, EncodedValue)>,
    subnodes: Seq<UnicodeLeafSubNodeTreeEntry>,
    set: u16,
    value: EncodedValue,
    pages: Seq<Seq<u8>>,
    external: Seq<(NodeId, Seq<u8>)>,
    entries: Seq<UnicodeLeafSubNodeTreeEntry>,
    number: u32,
    flag: bool,
)
    requires
        whole_laws::changed_properties_read(
            plan,
            entry,
            properties,
            subnodes,
            set,
            value,
            pages,
            external,
            entries,
        ),
    ensures
        value == property::integer32_value(number) ==> stored_laws::has_number(pages, set, number),
        value == property::boolean_value(flag) ==> stored_laws::has_flag(pages, set, flag),
{
    assert(whole_laws::changed_property_is(properties, set, value, pages, external, set));
    if value == property::integer32_value(number) {
        stored_laws::lemma_number_value(pages, external, set, number);
    }
}

} // verus!
