//! Messages: their properties, their size and their row in the contents table of a folder.

use vstd::prelude::*;

use crate::bytes;
use crate::error::PstError;
use crate::ltp::heap::MAX_HEAP_ALLOCATION_SIZE;
use crate::ltp::property;
use crate::ltp::property::{EncodedValue, PropertyType, PropertyValue};
use crate::ltp::property_context;
use crate::ltp::rebuild;
use crate::ltp::rebuild::{
    NewRowContents, NewTableRow, RebuiltContents, RebuiltTable, TableContents, TableContext,
};
use crate::ltp::table;
use crate::ltp::table::{
    CellContents, TableCell, TableColumnDescriptor, LTP_ROW_ID_PROP_ID, LTP_ROW_VERSION_PROP_ID,
};
use crate::messaging::attachment;
use crate::messaging::input::{
    UnicodePstAttachment, UnicodePstBatchMessage, UnicodePstMessage, UnicodePstRecipientType,
};
use crate::messaging::recipient;
use crate::ndb::ids::{NodeId, NodeIdType};
use crate::text;

verus! {

/// The index of the first subnode with a large property of a message.
pub const FIRST_PROPERTY_INDEX: u32 = 0x80;

/// The number of new messages: as many as have an input, a node and a size.
pub open spec fn batch_count(
    inputs: Seq<UnicodePstBatchMessage<'_>>,
    messages: Seq<NodeId>,
    message_sizes: Seq<i32>,
) -> nat {
    if inputs.len() <= messages.len() && inputs.len() <= message_sizes.len() {
        inputs.len()
    } else if messages.len() <= message_sizes.len() {
        messages.len()
    } else {
        message_sizes.len()
    }
}

proof fn lemma_content_count(
    done: ContentRows,
    columns: Seq<TableColumnDescriptor>,
    inputs: Seq<UnicodePstBatchMessage<'_>>,
    store_record_key: Seq<u8>,
    folder: NodeId,
    messages: Seq<NodeId>,
    message_sizes: Seq<i32>,
    row_version: u32,
    index: int,
)
    requires
        0 <= index <= batch_count(inputs, messages, message_sizes),
        done.rows.len() == index,
    ensures
        with_content_rows(
            done,
            columns,
            inputs,
            store_record_key,
            folder,
            messages,
            message_sizes,
            row_version,
            index,
        ) matches Ok(after) ==> after.rows.len() == batch_count(inputs, messages, message_sizes),
    decreases inputs.len() - index,
{
    if index < batch_count(inputs, messages, message_sizes) {
        let cells = message_cells(
            columns,
            inputs[index].message,
            inputs[index].attachments@.len() > 0,
            store_record_key,
            folder,
            messages[index],
            row_version,
            message_sizes[index] as u32,
        );
        if let Ok(moved) = with_moved_cells(
            MovedCells { cells, external: done.external, next_index: done.next_index },
            0,
        ) {
            lemma_content_count(
                ContentRows {
                    rows: done.rows.push(
                        NewRowContents { id: messages[index], cells: moved.cells },
                    ),
                    external: moved.external,
                    next_index: moved.next_index,
                },
                columns,
                inputs,
                store_record_key,
                folder,
                messages,
                message_sizes,
                row_version,
                index + 1,
            );
        }
    }
}

/// The contents table with new messages has as many rows as it had, and one for each of them.
pub proof fn law_contents_row_count(
    table: TableContents,
    inputs: Seq<UnicodePstBatchMessage<'_>>,
    store_record_key: Seq<u8>,
    folder: NodeId,
    messages: Seq<NodeId>,
    message_sizes: Seq<i32>,
    rows_node: NodeId,
    next_subnode_index: u32,
    row_version: u32,
)
    ensures
        spec_rebuild_contents_table(
            table,
            inputs,
            store_record_key,
            folder,
            messages,
            message_sizes,
            rows_node,
            next_subnode_index,
            row_version,
        ) matches Ok((rebuilt, _)) ==> rebuilt.row_ids.len() == table.rows.len() + batch_count(
            inputs,
            messages,
            message_sizes,
        ),
{
    reveal(spec_rebuild_contents_table);
    let start = no_content_rows(next_subnode_index);
    lemma_content_count(
        start,
        table.layout.columns,
        inputs,
        store_record_key,
        folder,
        messages,
        message_sizes,
        row_version,
        0,
    );
    if let Ok(done) = with_content_rows(
        start,
        table.layout.columns,
        inputs,
        store_record_key,
        folder,
        messages,
        message_sizes,
        row_version,
        0,
    ) {
        rebuild::law_rebuilt_row_count(
            table,
            done.rows,
            Some(rows_node),
            row_version,
            None,
            false,
        );
    }
}

/// The bytes of the entry identifier of a node in the store with the given record key.
pub open spec fn entry_id(store_record_key: Seq<u8>, node: NodeId) -> Seq<u8> {
    bytes::zeros(4) + store_record_key + bytes::le32(node.value)
}

/// The message flags: read, and whether there are attachments.
pub open spec fn message_flags(has_attachments: bool) -> u32 {
    if has_attachments {
        0x11
    } else {
        0x01
    }
}

/// The properties that every message has.
pub open spec fn fixed_properties(
    input: UnicodePstMessage<'_>,
    has_attachments: bool,
    message: NodeId,
    row_version: u32,
    message_size: u32,
) -> Seq<(u16, EncodedValue)> {
    seq![
        (0x001Au16, property::unicode_value("IPM.Note"@)),
        (0x0037u16, property::unicode_value(input.subject@)),
        (0x0039u16, property::time_value(input.delivery_time)),
        (0x0042u16, property::unicode_value(input.sender_name@)),
        (0x0070u16, property::unicode_value(input.subject@)),
        (0x0C1Au16, property::unicode_value(input.sender_name@)),
        (0x0C1Fu16, property::unicode_value(input.sender_email@)),
        (0x0E06u16, property::time_value(input.delivery_time)),
        (0x0E07u16, property::integer32_value(message_flags(has_attachments))),
        (0x0E08u16, property::integer32_value(message_size)),
        (0x0E17u16, property::integer32_value(0)),
        (0x0E1Bu16, property::boolean_value(has_attachments)),
        (0x1000u16, property::unicode_value(input.body@)),
        (0x1035u16, property::unicode_value(input.message_id@)),
        (0x3007u16, property::time_value(input.delivery_time)),
        (0x3008u16, property::time_value(input.delivery_time)),
        (0x300Bu16, property::binary_value(text::utf8_text(input.message_id@))),
        (0x3FDEu16, property::integer32_value(65001)),
        (LTP_ROW_ID_PROP_ID, property::integer32_value(message.value)),
        (LTP_ROW_VERSION_PROP_ID, property::integer32_value(row_version)),
    ]
}

/// `properties` with the names of the recipients of one type, where there are any.
pub open spec fn with_display(
    properties: Seq<(u16, EncodedValue)>,
    input: UnicodePstMessage<'_>,
    id: u16,
    recipient_type: UnicodePstRecipientType,
) -> Seq<(u16, EncodedValue)> {
    let display = recipient::spec_recipient_display(input.recipients@, recipient_type);
    if display.len() == 0 {
        properties
    } else {
        properties.push((id, property::unicode_value(display)))
    }
}

/// The properties of a message.
pub open spec fn message_properties(
    input: UnicodePstMessage<'_>,
    has_attachments: bool,
    message: NodeId,
    row_version: u32,
    message_size: u32,
) -> Seq<(u16, EncodedValue)> {
    let fixed = fixed_properties(input, has_attachments, message, row_version, message_size);
    let bcc = with_display(fixed, input, 0x0E02, UnicodePstRecipientType::Bcc);
    let cc = with_display(bcc, input, 0x0E03, UnicodePstRecipientType::Cc);
    let to = with_display(cc, input, 0x0E04, UnicodePstRecipientType::To);
    match input.html_body {
        None => to,
        Some(html) => to.push((0x1013, property::binary_value(text::utf8_text(html@)))),
    }
}

/// The property context of a message.
pub open spec fn message_context(
    input: UnicodePstMessage<'_>,
    has_attachments: bool,
    message: NodeId,
    row_version: u32,
    message_size: u32,
) -> Result<(Seq<Seq<u8>>, Seq<(NodeId, Seq<u8>)>), PstError> {
    property_context::spec_property_context_pages(
        message_properties(input, has_attachments, message, row_version, message_size),
        FIRST_PROPERTY_INDEX,
    )
}

/// The number of bytes in the first `count` subnodes.
pub open spec fn external_length(external: Seq<(NodeId, Seq<u8>)>, count: nat) -> nat
    decreases count,
{
    if count == 0 {
        0
    } else {
        external_length(external, (count - 1) as nat) + external[count - 1].1.len()
    }
}

/// `size` with the property contexts and the data of the attachments from `index` on.
pub open spec fn with_attachment_sizes(
    size: nat,
    attachments: Seq<UnicodePstAttachment<'_>>,
    index: int,
) -> Result<nat, PstError>
    decreases attachments.len() - index,
{
    if index >= attachments.len() {
        Ok(size)
    } else {
        match attachment::data_node(attachments[index], index) {
            Err(error) => Err(error),
            Ok(node) => match attachment::attachment_context(attachments[index], node) {
                Err(error) => Err(error),
                Ok(context) => {
                    let next = size + context.len() + attachments[index].data@.len();
                    if next > usize::MAX {
                        Err(PstError::IntegerConversion)
                    } else {
                        with_attachment_sizes(next, attachments, index + 1)
                    }
                },
            },
        }
    }
}

/// The size of the property context and the tables of a message.
pub open spec fn own_size(
    context: (Seq<Seq<u8>>, Seq<(NodeId, Seq<u8>)>),
    recipients: RebuiltContents,
    attachments: RebuiltContents,
) -> nat {
    bytes::total_length(context.0) + bytes::total_length(recipients.heap_pages)
        + bytes::total_length(attachments.heap_pages) + external_length(
        context.1,
        context.1.len(),
    ) + bytes::total_length(recipients.row_chunks) + bytes::total_length(attachments.row_chunks)
}

/// The size of a message from the sizes of its parts. Six bytes of the heap header do not count.
pub open spec fn sized_message(size: nat, attachments: Seq<UnicodePstAttachment<'_>>) -> Result<
    i32,
    PstError,
> {
    if size > usize::MAX {
        Err(PstError::IntegerConversion)
    } else {
        match with_attachment_sizes(size, attachments, 0) {
            Err(error) => Err(error),
            Ok(size) => if size < 6 || size - 6 > i32::MAX {
                Err(PstError::IntegerConversion)
            } else {
                Ok((size - 6) as i32)
            },
        }
    }
}

/// The size of a message as `PR_MESSAGE_SIZE` holds it: everything that is stored for it, without
/// six bytes of its heap header.
#[verifier::opaque]
pub open spec fn spec_message_size(
    input: UnicodePstMessage<'_>,
    attachments: Seq<UnicodePstAttachment<'_>>,
    message: NodeId,
    row_version: u32,
) -> Result<i32, PstError> {
    match message_context(input, attachments.len() > 0, message, row_version, 0) {
        Err(error) => Err(error),
        Ok(context) => match recipient::recipient_table(input.recipients@, row_version) {
            Err(error) => Err(error),
            Ok(recipients) => match attachment::spec_attachment_ids(attachments.len()) {
                Err(error) => Err(error),
                Ok(ids) => match attachment::attachment_table(ids, attachments, row_version) {
                    Err(error) => Err(error),
                    Ok(table) => sized_message(
                        own_size(context, recipients, table),
                        attachments,
                    ),
                },
            },
        },
    }
}

/// The cell of a message in a column of text, numbers, times or flags.
pub open spec fn message_cell(
    column: TableColumnDescriptor,
    input: UnicodePstMessage<'_>,
    has_attachments: bool,
    store_record_key: Seq<u8>,
    folder: NodeId,
    message: NodeId,
    row_version: u32,
    message_size: u32,
) -> Option<CellContents> {
    let id = column.prop_id;
    let prop_type = column.prop_type;
    if id == 0x001A {
        recipient::text_cell(prop_type, "IPM.Note"@)
    } else if id == 0x0037 || id == 0x0E1D || id == 0x0070 || id == 0x3001 {
        recipient::text_cell(prop_type, input.subject@)
    } else if id == 0x0042 || id == 0x0C1A {
        recipient::text_cell(prop_type, input.sender_name@)
    } else if id == 0x0C1F {
        recipient::text_cell(prop_type, input.sender_email@)
    } else if id == 0x1035 {
        recipient::text_cell(prop_type, input.message_id@)
    } else if id == 0x0E02 {
        recipient::display_cell(prop_type, input.recipients@, UnicodePstRecipientType::Bcc)
    } else if id == 0x0E03 {
        recipient::display_cell(prop_type, input.recipients@, UnicodePstRecipientType::Cc)
    } else if id == 0x0E04 {
        recipient::display_cell(prop_type, input.recipients@, UnicodePstRecipientType::To)
    } else if prop_type == PropertyType::Integer32 {
        if id == LTP_ROW_ID_PROP_ID {
            recipient::number_cell(message.value)
        } else if id == LTP_ROW_VERSION_PROP_ID {
            recipient::number_cell(row_version)
        } else if id == 0x0E17 {
            recipient::number_cell(0)
        } else if id == 0x0E07 {
            recipient::number_cell(message_flags(has_attachments))
        } else if id == 0x0E08 {
            recipient::number_cell(message_size)
        } else if id == 0x3FDE {
            recipient::number_cell(65001)
        } else {
            None
        }
    } else if prop_type == PropertyType::Time {
        if id == 0x0039 || id == 0x0E06 || id == 0x3008 {
            Some(CellContents::Value(property::time_value(input.delivery_time)))
        } else {
            None
        }
    } else if prop_type == PropertyType::Boolean {
        if id == 0x0E1B {
            recipient::flag_cell(has_attachments)
        } else {
            None
        }
    } else if prop_type == PropertyType::Binary {
        if id == 0x0E09 {
            Some(CellContents::Bytes(entry_id(store_record_key, folder)))
        } else if id == 0x0FFF {
            Some(CellContents::Bytes(entry_id(store_record_key, message)))
        } else if id == 0x300B {
            Some(CellContents::Bytes(text::utf8_text(input.message_id@)))
        } else {
            None
        }
    } else {
        None
    }
}

/// The cells of a message.
pub open spec fn message_cells(
    columns: Seq<TableColumnDescriptor>,
    input: UnicodePstMessage<'_>,
    has_attachments: bool,
    store_record_key: Seq<u8>,
    folder: NodeId,
    message: NodeId,
    row_version: u32,
    message_size: u32,
) -> Seq<Option<CellContents>> {
    Seq::new(
        columns.len(),
        |i: int|
            message_cell(
                columns[i],
                input,
                has_attachments,
                store_record_key,
                folder,
                message,
                row_version,
                message_size,
            ),
    )
}

/// Cells, the values that were moved from them to subnodes, and the index of the next subnode.
#[verifier::ext_equal]
pub struct MovedCells {
    pub cells: Seq<Option<CellContents>>,
    pub external: Seq<(NodeId, Seq<u8>)>,
    pub next_index: u32,
}

/// `moved` with the values of the cells from `index` on that are too large for a heap allocation
/// moved to subnodes.
pub open spec fn with_moved_cells(moved: MovedCells, index: int) -> Result<MovedCells, PstError>
    decreases moved.cells.len() - index,
{
    if index < 0 || index >= moved.cells.len() {
        Ok(moved)
    } else {
        match moved.cells[index] {
            Some(CellContents::Bytes(data)) => if data.len() > MAX_HEAP_ALLOCATION_SIZE {
                match NodeId::spec_new(NodeIdType::Internal, moved.next_index) {
                    Err(error) => Err(error),
                    Ok(node) => with_moved_cells(
                        MovedCells {
                            cells: moved.cells.update(index, Some(CellContents::Node(node))),
                            external: moved.external.push((node, data)),
                            next_index: (moved.next_index + 1) as u32,
                        },
                        index + 1,
                    ),
                }
            } else {
                with_moved_cells(moved, index + 1)
            },
            _ => with_moved_cells(moved, index + 1),
        }
    }
}

/// The rows of new messages, the values in subnodes, and the index of the next subnode.
#[verifier::ext_equal]
pub struct ContentRows {
    pub rows: Seq<NewRowContents>,
    pub external: Seq<(NodeId, Seq<u8>)>,
    pub next_index: u32,
}

/// No rows yet.
pub open spec fn no_content_rows(next_index: u32) -> ContentRows {
    ContentRows { rows: Seq::empty(), external: Seq::empty(), next_index }
}

/// `done` with the messages from `index` on.
pub open spec fn with_content_rows(
    done: ContentRows,
    columns: Seq<TableColumnDescriptor>,
    inputs: Seq<UnicodePstBatchMessage<'_>>,
    store_record_key: Seq<u8>,
    folder: NodeId,
    messages: Seq<NodeId>,
    message_sizes: Seq<i32>,
    row_version: u32,
    index: int,
) -> Result<ContentRows, PstError>
    decreases inputs.len() - index,
{
    if index >= inputs.len() || index >= messages.len() || index >= message_sizes.len() {
        Ok(done)
    } else {
        let cells = message_cells(
            columns,
            inputs[index].message,
            inputs[index].attachments@.len() > 0,
            store_record_key,
            folder,
            messages[index],
            row_version,
            message_sizes[index] as u32,
        );
        match with_moved_cells(
            MovedCells { cells, external: done.external, next_index: done.next_index },
            0,
        ) {
            Err(error) => Err(error),
            Ok(moved) => with_content_rows(
                ContentRows {
                    rows: done.rows.push(
                        NewRowContents { id: messages[index], cells: moved.cells },
                    ),
                    external: moved.external,
                    next_index: moved.next_index,
                },
                columns,
                inputs,
                store_record_key,
                folder,
                messages,
                message_sizes,
                row_version,
                index + 1,
            ),
        }
    }
}

/// The contents table of a folder with new messages, and the values that stand in subnodes.
#[verifier::opaque]
pub open spec fn spec_rebuild_contents_table(
    table: TableContents,
    inputs: Seq<UnicodePstBatchMessage<'_>>,
    store_record_key: Seq<u8>,
    folder: NodeId,
    messages: Seq<NodeId>,
    message_sizes: Seq<i32>,
    rows_node: NodeId,
    next_subnode_index: u32,
    row_version: u32,
) -> Result<(RebuiltContents, Seq<(NodeId, Seq<u8>)>), PstError> {
    match with_content_rows(
        no_content_rows(next_subnode_index),
        table.layout.columns,
        inputs,
        store_record_key,
        folder,
        messages,
        message_sizes,
        row_version,
        0,
    ) {
        Err(error) => Err(error),
        Ok(done) => match rebuild::spec_rebuild_table(
            table,
            done.rows,
            Some(rows_node),
            row_version,
            None,
            false,
        ) {
            Err(error) => Err(error),
            Ok(rebuilt) => Ok((rebuilt, done.external)),
        },
    }
}

/// The bytes of the entry identifier of a node in the store with the given record key.
pub fn entry_id_bytes(store_record_key: &[u8; 16], node: NodeId) -> (data: Vec<u8>)
    ensures
        data@ == entry_id(store_record_key@, node),
{
    let mut data: Vec<u8> = Vec::new();
    bytes::push_zeros(&mut data, 4);
    bytes::push_bytes(&mut data, store_record_key.as_slice());
    bytes::push_u32(&mut data, node.value);
    assert(data@ =~= entry_id(store_record_key@, node));
    data
}

fn new_time(time: i64) -> (value: PropertyValue)
    ensures
        value@ == property::time_value(time),
{
    PropertyValue::Time(time)
}

fn new_boolean(flag: bool) -> (value: PropertyValue)
    ensures
        value@ == property::boolean_value(flag),
{
    let value = PropertyValue::Boolean(flag);
    assert(value@ == property::boolean_value(flag));
    value
}

fn new_binary_text(text: &str) -> (value: PropertyValue)
    ensures
        value@ == property::binary_value(text::utf8_text(text@)),
{
    PropertyValue::Binary(text::utf8_bytes(text))
}

/// The properties that every message has.
fn new_fixed_properties(
    input: &UnicodePstMessage<'_>,
    has_attachments: bool,
    message: NodeId,
    row_version: u32,
    message_size: u32,
) -> (properties: Vec<(u16, PropertyValue)>)
    ensures
        bytes::views(properties@) == fixed_properties(
            *input,
            has_attachments,
            message,
            row_version,
            message_size,
        ),
{
    let flags: u32 = if has_attachments {
        0x11
    } else {
        0x01
    };
    let properties: Vec<(u16, PropertyValue)> = vec![
        (0x001A, property::unicode("IPM.Note")),
        (0x0037, property::unicode(input.subject)),
        (0x0039, new_time(input.delivery_time)),
        (0x0042, property::unicode(input.sender_name)),
        (0x0070, property::unicode(input.subject)),
        (0x0C1A, property::unicode(input.sender_name)),
        (0x0C1F, property::unicode(input.sender_email)),
        (0x0E06, new_time(input.delivery_time)),
        (0x0E07, property::integer32(flags)),
        (0x0E08, property::integer32(message_size)),
        (0x0E17, property::integer32(0)),
        (0x0E1B, new_boolean(has_attachments)),
        (0x1000, property::unicode(input.body)),
        (0x1035, property::unicode(input.message_id)),
        (0x3007, new_time(input.delivery_time)),
        (0x3008, new_time(input.delivery_time)),
        (0x300B, new_binary_text(input.message_id)),
        (0x3FDE, property::integer32(65001)),
        (LTP_ROW_ID_PROP_ID, property::integer32(message.value)),
        (LTP_ROW_VERSION_PROP_ID, property::integer32(row_version)),
    ];
    assert(bytes::views(properties@) =~= fixed_properties(
        *input,
        has_attachments,
        message,
        row_version,
        message_size,
    ));
    properties
}

/// Adds the names of the recipients of one type, where there are any.
fn push_display(
    properties: &mut Vec<(u16, PropertyValue)>,
    input: &UnicodePstMessage<'_>,
    id: u16,
    recipient_type: UnicodePstRecipientType,
)
    ensures
        bytes::views(final(properties)@) == with_display(
            bytes::views(old(properties)@),
            *input,
            id,
            recipient_type,
        ),
{
    let display = recipient::recipient_display(input.recipients, recipient_type);
    if !display.as_str().is_empty() {
        let value = property::unicode(display.as_str());
        properties.push((id, value));
        assert(bytes::views(properties@) =~= bytes::views(old(properties)@).push((id, value@)));
    }
}

/// The property context of a message.
pub fn message_data(
    input: &UnicodePstMessage<'_>,
    attachments: &[UnicodePstAttachment<'_>],
    message: NodeId,
    row_version: u32,
    message_size: i32,
) -> (result: Result<(Vec<Vec<u8>>, Vec<(NodeId, Vec<u8>)>), PstError>)
    ensures
        property_context::context_view(result) == message_context(
            *input,
            attachments@.len() > 0,
            message,
            row_version,
            message_size as u32,
        ),
{
    let has_attachments: bool = attachments.len() > 0;
    let size: u32 = #[verifier::truncate]
    (message_size as u32);
    let mut properties = new_fixed_properties(
        input,
        has_attachments,
        message,
        row_version,
        size,
    );
    push_display(&mut properties, input, 0x0E02, UnicodePstRecipientType::Bcc);
    push_display(&mut properties, input, 0x0E03, UnicodePstRecipientType::Cc);
    push_display(&mut properties, input, 0x0E04, UnicodePstRecipientType::To);
    match input.html_body {
        Some(html) => {
            let ghost before = bytes::views(properties@);
            let value = new_binary_text(html);
            properties.push((0x1013, value));
            assert(bytes::views(properties@) =~= before.push((0x1013, value@)));
        },
        None => {},
    }
    property_context::property_context_pages(properties, FIRST_PROPERTY_INDEX)
}

/// `size` and the number of bytes in `parts`.
fn add_lengths(size: usize, parts: &Vec<Vec<u8>>) -> (total: Result<usize, PstError>)
    ensures
        total == (if size + bytes::total_length(bytes::views(parts@)) > usize::MAX {
            Err(PstError::IntegerConversion)
        } else {
            Ok((size + bytes::total_length(bytes::views(parts@))) as usize)
        }),
{
    let ghost all = bytes::views(parts@);
    let mut total: usize = size;
    let mut i: usize = 0;
    while i < parts.len()
        invariant
            i <= parts@.len(),
            all == bytes::views(parts@),
            total == size + bytes::length_prefix(all, i as nat),
        decreases parts@.len() - i,
    {
        proof {
            assert(all[i as int] == parts@[i as int]@);
            bytes::lemma_length_prefix_monotone(all, (i + 1) as nat, all.len());
        }
        match total.checked_add(parts[i].len()) {
            Some(next) => {
                total = next;
            },
            None => {
                return Err(PstError::IntegerConversion);
            },
        }
        i += 1;
    }
    Ok(total)
}

proof fn lemma_external_monotone(external: Seq<(NodeId, Seq<u8>)>, low: nat, high: nat)
    requires
        low <= high,
    ensures
        external_length(external, low) <= external_length(external, high),
    decreases high - low,
{
    if low < high {
        lemma_external_monotone(external, low, (high - 1) as nat);
    }
}

/// `size` and the number of bytes in the subnodes.
fn add_external(size: usize, external: &Vec<(NodeId, Vec<u8>)>) -> (total: Result<usize, PstError>)
    ensures
        ({
            let all = bytes::views(external@);
            total == (if size + external_length(all, all.len()) > usize::MAX {
                Err(PstError::IntegerConversion)
            } else {
                Ok((size + external_length(all, all.len())) as usize)
            })
        }),
{
    let ghost all = bytes::views(external@);
    let mut total: usize = size;
    let mut i: usize = 0;
    while i < external.len()
        invariant
            i <= external@.len(),
            all == bytes::views(external@),
            total == size + external_length(all, i as nat),
        decreases external@.len() - i,
    {
        proof {
            assert(all[i as int].1 == external@[i as int].1@);
            lemma_external_monotone(all, (i + 1) as nat, all.len());
        }
        match total.checked_add(external[i].1.len()) {
            Some(next) => {
                total = next;
            },
            None => {
                return Err(PstError::IntegerConversion);
            },
        }
        i += 1;
    }
    Ok(total)
}

/// The size of the property context and the tables of a message.
fn measure_parts(
    pages: &Vec<Vec<u8>>,
    external: &Vec<(NodeId, Vec<u8>)>,
    recipients: &RebuiltTable,
    attachments: &RebuiltTable,
) -> (size: Result<usize, PstError>)
    ensures
        ({
            let total = own_size(
                (bytes::views(pages@), bytes::views(external@)),
                recipients@,
                attachments@,
            );
            size == (if total > usize::MAX {
                Err(PstError::IntegerConversion)
            } else {
                Ok(total as usize)
            })
        }),
{
    let size: usize = add_lengths(0, pages)?;
    let size: usize = add_lengths(size, &recipients.heap_pages)?;
    let size: usize = add_lengths(size, &attachments.heap_pages)?;
    let size: usize = add_external(size, external)?;
    let size: usize = add_lengths(size, &recipients.row_chunks)?;
    add_lengths(size, &attachments.row_chunks)
}

/// The size of a message whose other parts have the given size.
fn add_attachments(size: usize, attachments: &[UnicodePstAttachment<'_>]) -> (total: Result<
    i32,
    PstError,
>)
    requires
        attachments@.len() <= crate::ndb::ids::NODE_INDEX_LIMIT,
    ensures
        total == sized_message(size as nat, attachments@),
{
    let mut total: usize = size;
    let mut i: usize = 0;
    while i < attachments.len()
        invariant
            i <= attachments@.len(),
            attachments@.len() <= crate::ndb::ids::NODE_INDEX_LIMIT,
            with_attachment_sizes(size as nat, attachments@, 0) == with_attachment_sizes(
                total as nat,
                attachments@,
                i as int,
            ),
        decreases attachments@.len() - i,
    {
        let input: &UnicodePstAttachment<'_> = &attachments[i];
        let node: Option<NodeId> = if input.data.len() == 0 {
            None
        } else {
            Some(NodeId::new(NodeIdType::Internal, attachment::FIRST_DATA_INDEX + i as u32)?)
        };
        let context = attachment::attachment_data(input, node)?;
        let next: u128 = total as u128 + context.len() as u128 + input.data.len() as u128;
        if next > usize::MAX as u128 {
            return Err(PstError::IntegerConversion);
        }
        total = next as usize;
        i += 1;
    }
    if total < 6 || total - 6 > i32::MAX as usize {
        return Err(PstError::IntegerConversion);
    }
    Ok((total - 6) as i32)
}

/// The size of a message as `PR_MESSAGE_SIZE` holds it.
pub fn message_size(
    input: &UnicodePstMessage<'_>,
    attachments: &[UnicodePstAttachment<'_>],
    message: NodeId,
    row_version: u32,
) -> (size: Result<i32, PstError>)
    ensures
        size == spec_message_size(*input, attachments@, message, row_version),
{
    reveal(spec_message_size);
    let (pages, external) = message_data(input, attachments, message, row_version, 0)?;
    let recipients = recipient::recipient_table_data(input.recipients, row_version)?;
    let ids = attachment::attachment_ids(attachments.len())?;
    let table = attachment::attachment_table_data(&ids, attachments, row_version)?;
    let size: usize = measure_parts(&pages, &external, &recipients, &table)?;
    add_attachments(size, attachments)
}

/// The cell of a message in a column with a number.
fn new_number_message_cell(
    id: u16,
    has_attachments: bool,
    message: NodeId,
    row_version: u32,
    message_size: u32,
) -> (cell: Option<TableCell>)
    ensures
        table::cell_view(cell) == (if id == LTP_ROW_ID_PROP_ID {
            recipient::number_cell(message.value)
        } else if id == LTP_ROW_VERSION_PROP_ID {
            recipient::number_cell(row_version)
        } else if id == 0x0E17 {
            recipient::number_cell(0)
        } else if id == 0x0E07 {
            recipient::number_cell(message_flags(has_attachments))
        } else if id == 0x0E08 {
            recipient::number_cell(message_size)
        } else if id == 0x3FDE {
            recipient::number_cell(65001)
        } else {
            None
        }),
{
    let number: u32 = match id {
        LTP_ROW_ID_PROP_ID => message.value,
        LTP_ROW_VERSION_PROP_ID => row_version,
        0x0E17 => 0,
        0x0E07 => if has_attachments {
            0x11
        } else {
            0x01
        },
        0x0E08 => message_size,
        0x3FDE => 65001,
        _ => {
            return None;
        },
    };
    recipient::new_number_cell(number)
}

/// The cell of a message in a column of the contents table of its folder.
pub fn new_message_table_cell(
    column: &TableColumnDescriptor,
    input: &UnicodePstMessage<'_>,
    attachments: &[UnicodePstAttachment<'_>],
    store_record_key: &[u8; 16],
    folder: NodeId,
    message: NodeId,
    row_version: u32,
    message_size: i32,
) -> (cell: Option<TableCell>)
    ensures
        table::cell_view(cell) == message_cell(
            *column,
            *input,
            attachments@.len() > 0,
            store_record_key@,
            folder,
            message,
            row_version,
            message_size as u32,
        ),
{
    let has_attachments: bool = attachments.len() > 0;
    let prop_type: PropertyType = column.prop_type;
    match column.prop_id {
        0x001A => recipient::string_table_cell(prop_type, "IPM.Note"),
        0x0037 | 0x0E1D | 0x0070 | 0x3001 => recipient::string_table_cell(
            prop_type,
            input.subject,
        ),
        0x0042 | 0x0C1A => recipient::string_table_cell(prop_type, input.sender_name),
        0x0C1F => recipient::string_table_cell(prop_type, input.sender_email),
        0x0E02 => recipient::recipient_display_table_cell(
            prop_type,
            input.recipients,
            UnicodePstRecipientType::Bcc,
        ),
        0x0E03 => recipient::recipient_display_table_cell(
            prop_type,
            input.recipients,
            UnicodePstRecipientType::Cc,
        ),
        0x0E04 => recipient::recipient_display_table_cell(
            prop_type,
            input.recipients,
            UnicodePstRecipientType::To,
        ),
        0x1035 => recipient::string_table_cell(prop_type, input.message_id),
        id => match prop_type {
            PropertyType::Integer32 => new_number_message_cell(
                id,
                has_attachments,
                message,
                row_version,
                #[verifier::truncate]
                (message_size as u32),
            ),
            PropertyType::Time => if id == 0x0039 || id == 0x0E06 || id == 0x3008 {
                Some(TableCell::Value(new_time(input.delivery_time)))
            } else {
                None
            },
            PropertyType::Boolean => if id == 0x0E1B {
                recipient::new_flag_cell(has_attachments)
            } else {
                None
            },
            PropertyType::Binary => if id == 0x0E09 {
                Some(TableCell::Bytes(entry_id_bytes(store_record_key, folder)))
            } else if id == 0x0FFF {
                Some(TableCell::Bytes(entry_id_bytes(store_record_key, message)))
            } else if id == 0x300B {
                Some(TableCell::Bytes(text::utf8_bytes(input.message_id)))
            } else {
                None
            },
            _ => None,
        },
    }
}

/// The cells of a message in the contents table of its folder.
fn new_message_cells(
    columns: &Vec<TableColumnDescriptor>,
    input: &UnicodePstBatchMessage<'_>,
    store_record_key: &[u8; 16],
    folder: NodeId,
    message: NodeId,
    row_version: u32,
    message_size: i32,
) -> (cells: Vec<Option<TableCell>>)
    ensures
        table::cell_views(cells@) == message_cells(
            columns@,
            input.message,
            input.attachments@.len() > 0,
            store_record_key@,
            folder,
            message,
            row_version,
            message_size as u32,
        ),
{
    let ghost expected = message_cells(
        columns@,
        input.message,
        input.attachments@.len() > 0,
        store_record_key@,
        folder,
        message,
        row_version,
        message_size as u32,
    );
    let mut cells: Vec<Option<TableCell>> = Vec::new();
    let mut i: usize = 0;
    while i < columns.len()
        invariant
            i <= columns@.len(),
            cells@.len() == i,
            expected == message_cells(
                columns@,
                input.message,
                input.attachments@.len() > 0,
                store_record_key@,
                folder,
                message,
                row_version,
                message_size as u32,
            ),
            forall|j: int| 0 <= j < i ==> table::cell_view(#[trigger] cells@[j]) == expected[j],
        decreases columns@.len() - i,
    {
        cells.push(
            new_message_table_cell(
                &columns[i],
                &input.message,
                input.attachments,
                store_record_key,
                folder,
                message,
                row_version,
                message_size,
            ),
        );
        i += 1;
    }
    assert(table::cell_views(cells@) =~= expected);
    cells
}

/// Moves the values of cells that are too large for a heap allocation to subnodes.
fn move_large_cells(
    cells: Vec<Option<TableCell>>,
    external: &mut Vec<(NodeId, Vec<u8>)>,
    next_index: &mut u32,
) -> (result: Result<Vec<Option<TableCell>>, PstError>)
    ensures
        match with_moved_cells(
            (MovedCells {
                cells: table::cell_views(cells@),
                external: bytes::views(old(external)@),
                next_index: *old(next_index),
            }),
            0,
        ) {
            Ok(moved) => result matches Ok(cells) && moved == (MovedCells {
                cells: table::cell_views(cells@),
                external: bytes::views(final(external)@),
                next_index: *final(next_index),
            }),
            Err(error) => result == Err::<Vec<Option<TableCell>>, PstError>(error),
        },
{
    let ghost start = MovedCells {
        cells: table::cell_views(cells@),
        external: bytes::views(external@),
        next_index: *next_index,
    };
    let mut moved = cells;
    let count: usize = moved.len();
    let mut i: usize = 0;
    while i < count
        invariant
            i <= count,
            moved@.len() == count,
            start == (MovedCells {
                cells: table::cell_views(cells@),
                external: bytes::views(old(external)@),
                next_index: *old(next_index),
            }),
            with_moved_cells(start, 0) == with_moved_cells(
                MovedCells {
                    cells: table::cell_views(moved@),
                    external: bytes::views(external@),
                    next_index: *next_index,
                },
                i as int,
            ),
        decreases count - i,
    {
        let ghost before = table::cell_views(moved@);
        let ghost external_before = bytes::views(external@);
        assert(before[i as int] == table::cell_view(moved@[i as int]));
        let large: bool = match &moved[i] {
            Some(TableCell::Bytes(data)) => data.len() > MAX_HEAP_ALLOCATION_SIZE,
            _ => false,
        };
        if large {
            let node = NodeId::new(NodeIdType::Internal, *next_index)?;
            *next_index = *next_index + 1;
            let mut cell: Option<TableCell> = Some(TableCell::Node(node));
            std::mem::swap(&mut cell, &mut moved[i]);
            assert(table::cell_views(moved@) =~= before.update(
                i as int,
                Some(CellContents::Node(node)),
            ));
            match cell {
                Some(TableCell::Bytes(data)) => {
                    external.push((node, data));
                    assert(bytes::views(external@) =~= external_before.push((node, data@)));
                },
                _ => {},
            }
        }
        i += 1;
    }
    Ok(moved)
}

/// The rows of new messages, and the values that stand in subnodes.
fn new_content_rows(
    columns: &Vec<TableColumnDescriptor>,
    inputs: &[UnicodePstBatchMessage<'_>],
    store_record_key: &[u8; 16],
    folder: NodeId,
    messages: &Vec<NodeId>,
    message_sizes: &Vec<i32>,
    next_subnode_index: u32,
    row_version: u32,
) -> (result: Result<(Vec<NewTableRow>, Vec<(NodeId, Vec<u8>)>), PstError>)
    ensures
        match with_content_rows(
            no_content_rows(next_subnode_index),
            columns@,
            inputs@,
            store_record_key@,
            folder,
            messages@,
            message_sizes@,
            row_version,
            0,
        ) {
            Ok(done) => result matches Ok((rows, external)) && bytes::views(rows@) == done.rows
                && bytes::views(external@) == done.external,
            Err(error) => result == Err::<(Vec<NewTableRow>, Vec<(NodeId, Vec<u8>)>), _>(error),
        },
{
    let mut external: Vec<(NodeId, Vec<u8>)> = Vec::new();
    let mut next_index: u32 = next_subnode_index;
    let mut rows: Vec<NewTableRow> = Vec::new();
    assert(bytes::views(external@) =~= Seq::empty());
    assert(bytes::views(rows@) =~= Seq::empty());
    let mut i: usize = 0;
    while i < inputs.len() && i < messages.len() && i < message_sizes.len()
        invariant
            i <= inputs@.len(),
            with_content_rows(
                no_content_rows(next_subnode_index),
                columns@,
                inputs@,
                store_record_key@,
                folder,
                messages@,
                message_sizes@,
                row_version,
                0,
            ) == with_content_rows(
                ContentRows {
                    rows: bytes::views(rows@),
                    external: bytes::views(external@),
                    next_index,
                },
                columns@,
                inputs@,
                store_record_key@,
                folder,
                messages@,
                message_sizes@,
                row_version,
                i as int,
            ),
        decreases inputs@.len() - i,
    {
        let ghost before = bytes::views(rows@);
        let cells = new_message_cells(
            columns,
            &inputs[i],
            store_record_key,
            folder,
            messages[i],
            row_version,
            message_sizes[i],
        );
        let moved = move_large_cells(cells, &mut external, &mut next_index)?;
        let row = NewTableRow { id: messages[i], cells: moved };
        rows.push(row);
        assert(bytes::views(rows@) =~= before.push(row@));
        i += 1;
    }
    Ok((rows, external))
}

/// Whether the contents table of a folder can be written anew with new messages: its rows can hold their
/// cells. Where a value finds no subnode, no row is encoded.
pub open spec fn contents_fit(
    table: TableContents,
    inputs: Seq<UnicodePstBatchMessage<'_>>,
    store_record_key: Seq<u8>,
    folder: NodeId,
    messages: Seq<NodeId>,
    message_sizes: Seq<i32>,
    next_subnode_index: u32,
    row_version: u32,
) -> bool {
    with_content_rows(
        no_content_rows(next_subnode_index),
        table.layout.columns,
        inputs,
        store_record_key,
        folder,
        messages,
        message_sizes,
        row_version,
        0,
    ) matches Ok(done) ==> rebuild::rows_fit(table, done.rows, row_version, None, false)
}

/// Whether the contents table of a folder can be written anew with new messages.
pub fn can_rebuild_contents_table(
    table: &TableContext,
    inputs: &[UnicodePstBatchMessage<'_>],
    store_record_key: &[u8; 16],
    folder: NodeId,
    messages: &Vec<NodeId>,
    message_sizes: &Vec<i32>,
    next_subnode_index: u32,
    row_version: u32,
) -> (can: bool)
    ensures
        can == contents_fit(
            table@,
            inputs@,
            store_record_key@,
            folder,
            messages@,
            message_sizes@,
            next_subnode_index,
            row_version,
        ),
{
    match new_content_rows(
        &table.context.columns,
        inputs,
        store_record_key,
        folder,
        messages,
        message_sizes,
        next_subnode_index,
        row_version,
    ) {
        Ok((rows, _)) => rebuild::can_rebuild_table(table, &rows, row_version, &None, false),
        Err(_) => true,
    }
}

/// Writes the contents table of a folder anew with new messages. Values that are too large for a
/// heap allocation go to subnodes, numbered from `next_subnode_index` on.
pub fn rebuild_contents_table(
    table: &TableContext,
    inputs: &[UnicodePstBatchMessage<'_>],
    store_record_key: &[u8; 16],
    folder: NodeId,
    messages: &Vec<NodeId>,
    message_sizes: &Vec<i32>,
    rows_node: NodeId,
    next_subnode_index: u32,
    row_version: u32,
) -> (result: Result<(RebuiltTable, Vec<(NodeId, Vec<u8>)>), PstError>)
    requires
        contents_fit(
            table@,
            inputs@,
            store_record_key@,
            folder,
            messages@,
            message_sizes@,
            next_subnode_index,
            row_version,
        ),
    ensures
        (match result {
            Ok((rebuilt, external)) => Ok((rebuilt@, bytes::views(external@))),
            Err(error) => Err(error),
        }) == spec_rebuild_contents_table(
            table@,
            inputs@,
            store_record_key@,
            folder,
            messages@,
            message_sizes@,
            rows_node,
            next_subnode_index,
            row_version,
        ),
{
    reveal(spec_rebuild_contents_table);
    let (rows, external) = new_content_rows(
        &table.context.columns,
        inputs,
        store_record_key,
        folder,
        messages,
        message_sizes,
        next_subnode_index,
        row_version,
    )?;
    let rebuilt = rebuild::rebuild_table_with_rows_and_version(
        table,
        rows,
        Some(rows_node),
        row_version,
    )?;
    Ok((rebuilt, external))
}

} // verus!
