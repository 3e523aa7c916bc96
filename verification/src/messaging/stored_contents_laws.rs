//! What a reader finds in the row of a message in the contents table of its folder, property by property.

use vstd::prelude::*;

use crate::bytes;
use crate::error::PstError;
use crate::ltp::column_laws;
use crate::ltp::column_laws::ColumnValue;
use crate::ltp::heap_laws;
use crate::ltp::property::PropertyType;
use crate::ltp::rebuild::{RebuiltContents, TableContents};
use crate::ltp::rebuild_laws;
use crate::ltp::table::{CellContents, TableColumnDescriptor, TableLayout};
use crate::ltp::table_laws;
use crate::messaging::input::{
    UnicodePstBatchMessage, UnicodePstMessage, UnicodePstRecipientType,
};
use crate::messaging::message;
use crate::messaging::recipient;
use crate::messaging::row_laws;
use crate::ndb::ids::NodeId;
use crate::text;

verus! {

/// Whether a property of a row has the given bytes, in the heap or in one of the given subnodes.
pub open spec fn column_bytes(
    pages: Seq<Seq<u8>>,
    chunks: Seq<Seq<u8>>,
    external: Seq<(NodeId, Seq<u8>)>,
    index: int,
    id: u16,
    code: int,
    data: Seq<u8>,
) -> bool {
    match column_laws::table_column(pages, chunks, index, id) {
        Some((found, ColumnValue::Bytes(bytes))) => found == code && bytes == data,
        Some((found, ColumnValue::Node(node))) => found == code && external.contains((node, data)),
        _ => false,
    }
}

/// Whether a property of a row is the given text: as UTF-16 in a column of Unicode text, as terminated UTF-8
/// in a column of narrow text, and nowhere else.
pub open spec fn lists_text(
    pages: Seq<Seq<u8>>,
    chunks: Seq<Seq<u8>>,
    external: Seq<(NodeId, Seq<u8>)>,
    index: int,
    column: TableColumnDescriptor,
    value: Seq<char>,
) -> bool {
    let id = column.prop_id;
    match column.prop_type {
        PropertyType::Unicode => exists|data: Seq<u8>| #[trigger]
            column_bytes(pages, chunks, external, index, id, 0x001F, data) && text::read_utf16(data)
                == Some(value),
        PropertyType::String8 => column_bytes(
            pages,
            chunks,
            external,
            index,
            id,
            0x001E,
            vstd::utf8::encode_utf8(value).push(0),
        ),
        _ => column_laws::column_none(pages, chunks, index, id),
    }
}

/// Whether bytes are the identifier of an object of the store: four flag bytes, the key of the store and the
/// node of the object.
pub open spec fn is_entry_id(data: Seq<u8>, store_record_key: Seq<u8>, node: NodeId) -> bool {
    let size = store_record_key.len() as int;
    &&& data.len() == size + 8
    &&& data.take(4) == seq![0u8, 0, 0, 0]
    &&& data.subrange(4, 4 + size) == store_record_key
    &&& bytes::get32(data, 4 + size) == node.value
}

/// Whether a property of a row is the identifier of an object of the store.
pub open spec fn lists_entry_id(
    pages: Seq<Seq<u8>>,
    chunks: Seq<Seq<u8>>,
    external: Seq<(NodeId, Seq<u8>)>,
    index: int,
    id: u16,
    store_record_key: Seq<u8>,
    node: NodeId,
) -> bool {
    exists|data: Seq<u8>| #[trigger]
        column_bytes(pages, chunks, external, index, id, 0x0102, data) && is_entry_id(
            data,
            store_record_key,
            node,
        )
}

/// Whether a property of a row has the names of the recipients of one type, where there are any with a name.
pub open spec fn lists_display(
    pages: Seq<Seq<u8>>,
    chunks: Seq<Seq<u8>>,
    external: Seq<(NodeId, Seq<u8>)>,
    index: int,
    column: TableColumnDescriptor,
    input: UnicodePstMessage<'_>,
    recipient_type: UnicodePstRecipientType,
) -> bool {
    let display = recipient::spec_recipient_display(input.recipients@, recipient_type);
    if display.len() == 0 {
        column_laws::column_none(pages, chunks, index, column.prop_id)
    } else {
        lists_text(pages, chunks, external, index, column, display)
    }
}

/// Whether a column of a row is that of a message: the subject, the sender, the recipients, the times and the
/// identifiers stand under their properties, in columns of their types, and nothing under any other.
pub open spec fn lists_message(
    pages: Seq<Seq<u8>>,
    chunks: Seq<Seq<u8>>,
    external: Seq<(NodeId, Seq<u8>)>,
    index: int,
    column: TableColumnDescriptor,
    input: UnicodePstMessage<'_>,
    has_attachments: bool,
    store_record_key: Seq<u8>,
    folder: NodeId,
    message: NodeId,
    row_version: u32,
    message_size: u32,
) -> bool {
    let id = column.prop_id;
    let kind = column.prop_type;
    &&& id == 0x001A ==> lists_text(pages, chunks, external, index, column, "IPM.Note"@)
    &&& id == 0x0037 ==> lists_text(pages, chunks, external, index, column, input.subject@)
    &&& id == 0x0070 ==> lists_text(pages, chunks, external, index, column, input.subject@)
    &&& id == 0x0E1D ==> lists_text(pages, chunks, external, index, column, input.subject@)
    &&& id == 0x3001 ==> lists_text(pages, chunks, external, index, column, input.subject@)
    &&& id == 0x0042 ==> lists_text(pages, chunks, external, index, column, input.sender_name@)
    &&& id == 0x0C1A ==> lists_text(pages, chunks, external, index, column, input.sender_name@)
    &&& id == 0x0C1F ==> lists_text(pages, chunks, external, index, column, input.sender_email@)
    &&& id == 0x1035 ==> lists_text(pages, chunks, external, index, column, input.message_id@)
    &&& id == 0x0E02 ==> lists_display(
        pages,
        chunks,
        external,
        index,
        column,
        input,
        UnicodePstRecipientType::Bcc,
    )
    &&& id == 0x0E03 ==> lists_display(
        pages,
        chunks,
        external,
        index,
        column,
        input,
        UnicodePstRecipientType::Cc,
    )
    &&& id == 0x0E04 ==> lists_display(
        pages,
        chunks,
        external,
        index,
        column,
        input,
        UnicodePstRecipientType::To,
    )
    &&& id == 0x67F2 && kind is Integer32 ==> column_laws::column_number(
        pages,
        chunks,
        index,
        id,
        message.value,
    )
    &&& id == 0x67F3 && kind is Integer32 ==> column_laws::column_number(
        pages,
        chunks,
        index,
        id,
        row_version,
    )
    &&& id == 0x0E17 && kind is Integer32 ==> column_laws::column_number(pages, chunks, index, id, 0)
    &&& id == 0x0E07 && kind is Integer32 ==> column_laws::column_number(
        pages,
        chunks,
        index,
        id,
        if has_attachments {
            0x11
        } else {
            0x01
        },
    )
    &&& id == 0x0E08 && kind is Integer32 ==> column_laws::column_number(
        pages,
        chunks,
        index,
        id,
        message_size,
    )
    &&& id == 0x3FDE && kind is Integer32 ==> column_laws::column_number(
        pages,
        chunks,
        index,
        id,
        65001,
    )
    &&& (id == 0x0039 || id == 0x0E06 || id == 0x3008) && kind is Time ==> column_laws::column_time(
        pages,
        chunks,
        index,
        id,
        input.delivery_time,
    )
    &&& id == 0x0E1B && kind is Boolean ==> column_laws::column_flag(
        pages,
        chunks,
        index,
        id,
        has_attachments,
    )
    &&& id == 0x0E09 && kind is Binary ==> lists_entry_id(
        pages,
        chunks,
        external,
        index,
        id,
        store_record_key,
        folder,
    )
    &&& id == 0x0FFF && kind is Binary ==> lists_entry_id(
        pages,
        chunks,
        external,
        index,
        id,
        store_record_key,
        message,
    )
    &&& id == 0x300B && kind is Binary ==> column_bytes(
        pages,
        chunks,
        external,
        index,
        id,
        0x0102,
        vstd::utf8::encode_utf8(input.message_id@),
    )
    &&& !is_listed(id, kind) ==> column_laws::column_none(pages, chunks, index, id)
}

/// Whether the row of a message has a value for a property of the given type, or can have one.
pub open spec fn is_listed(id: u16, kind: PropertyType) -> bool {
    match kind {
        PropertyType::Unicode | PropertyType::String8 => id == 0x001A || id == 0x0037 || id == 0x0070
            || id == 0x0E1D || id == 0x3001 || id == 0x0042 || id == 0x0C1A || id == 0x0C1F || id
            == 0x1035 || id == 0x0E02 || id == 0x0E03 || id == 0x0E04,
        PropertyType::Integer32 => id == 0x67F2 || id == 0x67F3 || id == 0x0E17 || id == 0x0E07
            || id == 0x0E08 || id == 0x3FDE,
        PropertyType::Time => id == 0x0039 || id == 0x0E06 || id == 0x3008,
        PropertyType::Boolean => id == 0x0E1B,
        PropertyType::Binary => id == 0x0E09 || id == 0x0FFF || id == 0x300B,
        _ => false,
    }
}

pub proof fn lemma_entry_id(store_record_key: Seq<u8>, node: NodeId)
    ensures
        is_entry_id(message::entry_id(store_record_key, node), store_record_key, node),
{
    let data = message::entry_id(store_record_key, node);
    let size = store_record_key.len() as int;
    assert(data.take(4) =~= seq![0u8, 0, 0, 0]);
    assert(data.subrange(4, 4 + size) =~= store_record_key);
    assert(data.subrange(4 + size, 8 + size) =~= bytes::le32(node.value));
    bytes::lemma_get32_le32(data, 4 + size, node.value);
}

/// What is read of a cell that may stand in a subnode.
pub open spec fn stands_for(
    pages: Seq<Seq<u8>>,
    chunks: Seq<Seq<u8>>,
    external: Seq<(NodeId, Seq<u8>)>,
    index: int,
    column: TableColumnDescriptor,
    cell: Option<CellContents>,
) -> bool {
    let id = column.prop_id;
    match cell {
        Some(CellContents::Bytes(data)) => column_bytes(
            pages,
            chunks,
            external,
            index,
            id,
            column.prop_type.spec_code() as int,
            data,
        ),
        _ => column_laws::table_column(pages, chunks, index, id) == column_laws::found(
            column.prop_type,
            cell,
        ),
    }
}

proof fn lemma_stands_for(
    pages: Seq<Seq<u8>>,
    chunks: Seq<Seq<u8>>,
    external: Seq<(NodeId, Seq<u8>)>,
    index: int,
    layout: TableLayout,
    moved: Seq<Option<CellContents>>,
    cells: Seq<Option<CellContents>>,
    column: int,
)
    requires
        column_laws::row_holds(pages, chunks, index, layout, moved),
        row_laws::cells_stand(moved, external, cells),
        column_laws::is_first(layout.columns, column),
        column < cells.len(),
        column_laws::cell_is_plain(layout.columns[column].prop_type, cells[column]),
    ensures
        stands_for(pages, chunks, external, index, layout.columns[column], cells[column]),
{
    assert(row_laws::cell_stands(moved[column], external, cells[column]));
    column_laws::law_table_column(pages, chunks, index, layout, moved, column);
}

proof fn lemma_lists_text(
    pages: Seq<Seq<u8>>,
    chunks: Seq<Seq<u8>>,
    external: Seq<(NodeId, Seq<u8>)>,
    index: int,
    column: TableColumnDescriptor,
    value: Seq<char>,
)
    requires
        stands_for(
            pages,
            chunks,
            external,
            index,
            column,
            recipient::text_cell(column.prop_type, value),
        ),
    ensures
        lists_text(pages, chunks, external, index, column, value),
{
    text::law_utf16_reads_back(value);
    let narrow = vstd::utf8::encode_utf8(value);
    assert(narrow.push(0) =~= narrow + seq![0u8]);
}

proof fn lemma_plain_cell(
    column: TableColumnDescriptor,
    input: UnicodePstMessage<'_>,
    has_attachments: bool,
    store_record_key: Seq<u8>,
    folder: NodeId,
    message: NodeId,
    row_version: u32,
    message_size: u32,
)
    ensures
        column_laws::cell_is_plain(
            column.prop_type,
            message::message_cell(
                column,
                input,
                has_attachments,
                store_record_key,
                folder,
                message,
                row_version,
                message_size,
            ),
        ),
{
}

proof fn lemma_lists_message(
    pages: Seq<Seq<u8>>,
    chunks: Seq<Seq<u8>>,
    external: Seq<(NodeId, Seq<u8>)>,
    index: int,
    column: TableColumnDescriptor,
    input: UnicodePstMessage<'_>,
    has_attachments: bool,
    store_record_key: Seq<u8>,
    folder: NodeId,
    message: NodeId,
    row_version: u32,
    message_size: u32,
)
    requires
        stands_for(
            pages,
            chunks,
            external,
            index,
            column,
            message::message_cell(
                column,
                input,
                has_attachments,
                store_record_key,
                folder,
                message,
                row_version,
                message_size,
            ),
        ),
    ensures
        lists_message(
            pages,
            chunks,
            external,
            index,
            column,
            input,
            has_attachments,
            store_record_key,
            folder,
            message,
            row_version,
            message_size,
        ),
{
    let id = column.prop_id;
    let (p, c, e, i) = (pages, chunks, external, index);
    let names = input.recipients@;
    if id == 0x001A {
        lemma_lists_text(p, c, e, i, column, "IPM.Note"@);
    } else if id == 0x0037 || id == 0x0E1D || id == 0x0070 || id == 0x3001 {
        lemma_lists_text(p, c, e, i, column, input.subject@);
    } else if id == 0x0042 || id == 0x0C1A {
        lemma_lists_text(p, c, e, i, column, input.sender_name@);
    } else if id == 0x0C1F {
        lemma_lists_text(p, c, e, i, column, input.sender_email@);
    } else if id == 0x1035 {
        lemma_lists_text(p, c, e, i, column, input.message_id@);
    } else if id == 0x0E02 || id == 0x0E03 || id == 0x0E04 {
        let recipient_type = if id == 0x0E02 {
            UnicodePstRecipientType::Bcc
        } else if id == 0x0E03 {
            UnicodePstRecipientType::Cc
        } else {
            UnicodePstRecipientType::To
        };
        let display = recipient::spec_recipient_display(names, recipient_type);
        if display.len() > 0 {
            lemma_lists_text(p, c, e, i, column, display);
        }
    } else {
        column_laws::lemma_fixed_number(message.value);
        column_laws::lemma_fixed_number(row_version);
        column_laws::lemma_fixed_number(0);
        column_laws::lemma_fixed_number(0x11);
        column_laws::lemma_fixed_number(0x01);
        column_laws::lemma_fixed_number(message_size);
        column_laws::lemma_fixed_number(65001);
        column_laws::lemma_fixed_time(input.delivery_time);
        lemma_entry_id(store_record_key, folder);
        lemma_entry_id(store_record_key, message);
    }
}

/// The row of an appended message in the contents table has the parts of the message under their properties.
pub proof fn law_message_is_listed(
    table: TableContents,
    inputs: Seq<UnicodePstBatchMessage<'_>>,
    store_record_key: Seq<u8>,
    folder: NodeId,
    messages: Seq<NodeId>,
    message_sizes: Seq<i32>,
    rows_node: NodeId,
    next_subnode_index: u32,
    row_version: u32,
    rebuilt: RebuiltContents,
    external: Seq<(NodeId, Seq<u8>)>,
    index: int,
    column: int,
)
    requires
        table_laws::layout_distinct(table.layout),
        rebuild_laws::rows_wf(table),
        messages.len() == inputs.len(),
        message_sizes.len() == inputs.len(),
        message::spec_rebuild_contents_table(
            table,
            inputs,
            store_record_key,
            folder,
            messages,
            message_sizes,
            rows_node,
            next_subnode_index,
            row_version,
        ) == Ok::<_, PstError>((rebuilt, external)),
        0 <= index < inputs.len(),
        column_laws::is_first(table.layout.columns, column),
    ensures
        rebuilt.row_ids[table.rows.len() + index] == messages[index].value,
        lists_message(
            rebuilt.heap_pages,
            rebuilt.row_chunks,
            external,
            table.rows.len() + index,
            table.layout.columns[column],
            inputs[index].message,
            inputs[index].attachments@.len() > 0,
            store_record_key,
            folder,
            messages[index],
            row_version,
            message_sizes[index] as u32,
        ),
{
    let row = table.rows.len() + index;
    let layout = table.layout;
    row_laws::law_contents_table_keeps_rows(
        table,
        inputs,
        store_record_key,
        folder,
        messages,
        message_sizes,
        rows_node,
        next_subnode_index,
        row_version,
        rebuilt,
        external,
        row,
    );
    let size = layout.end_existence_bitmap as int;
    let data = table_laws::read_row(rebuilt.row_chunks, size, row)->Some_0;
    let cells = row_laws::batch_cells(
        layout,
        inputs,
        store_record_key,
        folder,
        messages,
        message_sizes,
        row_version,
        index,
    );
    assert(row_laws::message_row_is(
        layout,
        heap_laws::in_pages(rebuilt.heap_pages),
        data,
        external,
        cells,
    ));
    lemma_message_row(
        rebuilt.heap_pages,
        rebuilt.row_chunks,
        external,
        row,
        layout,
        cells,
        data,
        column,
        inputs[index].message,
        inputs[index].attachments@.len() > 0,
        store_record_key,
        folder,
        messages[index],
        row_version,
        message_sizes[index] as u32,
    );
}

/// The columns of a row that is that of a message.
pub proof fn lemma_message_row(
    pages: Seq<Seq<u8>>,
    chunks: Seq<Seq<u8>>,
    external: Seq<(NodeId, Seq<u8>)>,
    index: int,
    layout: TableLayout,
    cells: Seq<Option<CellContents>>,
    data: Seq<u8>,
    column: int,
    input: UnicodePstMessage<'_>,
    has_attachments: bool,
    store_record_key: Seq<u8>,
    folder: NodeId,
    message: NodeId,
    row_version: u32,
    message_size: u32,
)
    requires
        table_laws::read_context(pages) matches Some(context) && table_laws::has_layout(
            context,
            layout,
        ),
        table_laws::read_row(chunks, layout.end_existence_bitmap as int, index) == Some(data),
        row_laws::message_row_is(layout, heap_laws::in_pages(pages), data, external, cells),
        cells == message::message_cells(
            layout.columns,
            input,
            has_attachments,
            store_record_key,
            folder,
            message,
            row_version,
            message_size,
        ),
        column_laws::is_first(layout.columns, column),
    ensures
        lists_message(
            pages,
            chunks,
            external,
            index,
            layout.columns[column],
            input,
            has_attachments,
            store_record_key,
            folder,
            message,
            row_version,
            message_size,
        ),
{
    let moved = choose|moved: Seq<Option<CellContents>>| #[trigger]
        row_laws::cells_stand(moved, external, cells) && table_laws::row_reads(
            layout,
            heap_laws::in_pages(pages),
            data,
            moved,
            moved.len() as int,
        );
    assert(column_laws::row_holds(pages, chunks, index, layout, moved)) by {
        reveal(column_laws::row_holds);
    }
    lemma_plain_cell(
        layout.columns[column],
        input,
        has_attachments,
        store_record_key,
        folder,
        message,
        row_version,
        message_size,
    );
    lemma_stands_for(pages, chunks, external, index, layout, moved, cells, column);
    lemma_lists_message(
        pages,
        chunks,
        external,
        index,
        layout.columns[column],
        input,
        has_attachments,
        store_record_key,
        folder,
        message,
        row_version,
        message_size,
    );
}

} // verus!
