//! Attachments: their properties, their table and their subnodes.

use vstd::prelude::*;

use crate::bytes;
use crate::error::{IoError, NdbError, PstError};
use crate::ltp::heap;
use crate::ltp::heap::{HeapBuilder, HeapId};
use crate::ltp::property::PropertyType;
use crate::ltp::property_context;
use crate::ltp::property_context::{SimpleContents, SimpleProperty};
use crate::ltp::rebuild;
use crate::ltp::rebuild::{RebuiltContents, RebuiltTable, RowsSoFar};
use crate::ltp::table;
use crate::ltp::table::{
    CellContents, TableCell, TableColumnDescriptor, TableContextInfo, TableLayout,
    LTP_ROW_ID_PROP_ID, LTP_ROW_VERSION_PROP_ID,
};
use crate::messaging::input::{UnicodePstAttachment, UnicodePstRecipient};
use crate::messaging::recipient;
use crate::messaging::recipient::ROWS_NODE;
use crate::ndb::block;
use crate::ndb::block::{
    BlockContents, BlockPlan, NewBlock, NewBlockData, UnicodeLeafSubNodeTreeEntry,
};
use crate::ndb::data_tree;
use crate::ndb::ids::{
    NodeId, NodeIdType, UnicodeBlockId, NID_ATTACHMENT_TABLE, NODE_INDEX_LIMIT,
};
use crate::ndb::subnode_tree;
use crate::text;

verus! {

/// The index of the first attachment node.
pub const FIRST_ATTACHMENT_INDEX: u32 = 0x100;

/// The index of the first node with the data of an attachment.
pub const FIRST_DATA_INDEX: u32 = 0x200;

/// `text` without an opening angle bracket at its start and a closing one at its end.
pub open spec fn without_brackets(text: Seq<char>) -> Seq<char> {
    let opened = if text.len() > 0 && text[0] == '<' {
        text.skip(1)
    } else {
        text
    };
    if opened.len() > 0 && opened.last() == '>' {
        opened.drop_last()
    } else {
        opened
    }
}

/// The normalized Content-ID of an attachment. One that is empty is refused.
pub open spec fn content_id(attachment: UnicodePstAttachment<'_>) -> Result<
    Option<Seq<char>>,
    PstError,
> {
    match attachment.content_id {
        None => Ok(None),
        Some(text) => if without_brackets(text@).len() == 0 {
            Err(PstError::Io(IoError::EmptyContentId))
        } else {
            Ok(Some(without_brackets(text@)))
        },
    }
}

/// The size of an attachment without its Content-ID: its data, its name twice, its MIME type and
/// three numbers.
pub open spec fn base_size(attachment: UnicodePstAttachment<'_>) -> nat {
    attachment.data@.len() + 12 + 2 * text::utf16_text(attachment.filename@).len()
        + text::utf16_text(attachment.mime_type@).len()
}

/// The size of an attachment as `PR_ATTACH_SIZE` holds it.
pub open spec fn spec_attachment_size(attachment: UnicodePstAttachment<'_>) -> Result<
    i32,
    PstError,
> {
    if base_size(attachment) > usize::MAX {
        Err(PstError::IntegerConversion)
    } else {
        match content_id(attachment) {
            Err(error) => Err(error),
            Ok(id) => {
                let size = base_size(attachment) + match id {
                    None => 0nat,
                    Some(id) => text::utf16_text(id).len() + 4,
                };
                if size > i32::MAX {
                    Err(PstError::IntegerConversion)
                } else {
                    Ok(size as i32)
                }
            },
        }
    }
}

/// A property with text.
pub open spec fn text_property(id: u16, value: Seq<char>) -> SimpleContents {
    SimpleContents {
        id,
        prop_type: PropertyType::Unicode,
        value: Some(text::utf16_text(value)),
        small: 0,
    }
}

/// A property with a number.
pub open spec fn number_property(id: u16, number: u32) -> SimpleContents {
    SimpleContents { id, prop_type: PropertyType::Integer32, value: None, small: number }
}

/// The properties of an attachment of the given size and Content-ID.
pub open spec fn attachment_properties(
    attachment: UnicodePstAttachment<'_>,
    size: u32,
    id: Option<Seq<char>>,
) -> Seq<SimpleContents> {
    let properties = seq![
        number_property(0x0E20, size),
        SimpleContents { id: 0x3701, prop_type: PropertyType::Binary, value: None, small: 0 },
        text_property(0x3704, attachment.filename@),
        number_property(0x3705, 1),
        text_property(0x3707, attachment.filename@),
        number_property(0x370B, u32::MAX),
        text_property(0x370E, attachment.mime_type@),
    ];
    match id {
        None => properties,
        Some(id) => properties + seq![text_property(0x3712, id), number_property(0x3714, 4)],
    }
}

/// The node that holds the data of an attachment, for its property context.
pub open spec fn data_nodes(data_node: Option<NodeId>) -> Seq<(u16, NodeId)> {
    match data_node {
        None => Seq::empty(),
        Some(node) => seq![(0x3701u16, node)],
    }
}

/// The property context of an attachment.
pub open spec fn attachment_context(
    attachment: UnicodePstAttachment<'_>,
    data_node: Option<NodeId>,
) -> Result<Seq<u8>, PstError> {
    match (spec_attachment_size(attachment), content_id(attachment)) {
        (Err(error), _) => Err(error),
        (Ok(_), Err(error)) => Err(error),
        (Ok(size), Ok(id)) => property_context::simple_context(
            attachment_properties(attachment, size as u32, id),
            data_nodes(data_node),
        ),
    }
}

/// The layout of an attachment table.
pub open spec fn attachment_layout() -> TableLayout {
    TableLayout {
        end_4byte_values: 24,
        end_2byte_values: 24,
        end_1byte_values: 24,
        end_existence_bitmap: 25,
        columns: seq![
            recipient::column(PropertyType::Integer32, 0x0E20, 8, 4, 2),
            recipient::column(PropertyType::Unicode, 0x3704, 12, 4, 3),
            recipient::column(PropertyType::Integer32, 0x3705, 16, 4, 4),
            recipient::column(PropertyType::Integer32, 0x370B, 20, 4, 5),
            recipient::column(PropertyType::Integer32, LTP_ROW_ID_PROP_ID, 0, 4, 0),
            recipient::column(PropertyType::Integer32, LTP_ROW_VERSION_PROP_ID, 4, 4, 1),
        ],
    }
}

/// The cells of an attachment.
pub open spec fn attachment_cells(
    attachment: UnicodePstAttachment<'_>,
    size: u32,
    id: NodeId,
    row_version: u32,
) -> Seq<Option<CellContents>> {
    seq![
        recipient::number_cell(size),
        recipient::text_cell(PropertyType::Unicode, attachment.filename@),
        recipient::number_cell(1),
        recipient::number_cell(u32::MAX),
        recipient::number_cell(id.value),
        recipient::number_cell(row_version),
    ]
}

/// The node of attachment `index`.
pub open spec fn attachment_node(index: int) -> NodeId {
    NodeId { value: ((FIRST_ATTACHMENT_INDEX + index) * 32 + 5) as u32 }
}

/// The nodes of `count` attachments, where there are that many node indices.
pub open spec fn spec_attachment_ids(count: nat) -> Result<Seq<NodeId>, PstError> {
    if count > NODE_INDEX_LIMIT - FIRST_ATTACHMENT_INDEX {
        Err(PstError::NodeDatabaseError(NdbError::InvalidNodeIndex(NODE_INDEX_LIMIT)))
    } else {
        Ok(Seq::new(count, |i: int| attachment_node(i)))
    }
}

/// `rows` with the attachments from `index` on.
pub open spec fn with_attachment_rows(
    rows: RowsSoFar,
    ids: Seq<NodeId>,
    attachments: Seq<UnicodePstAttachment<'_>>,
    index: int,
    row_version: u32,
) -> Result<RowsSoFar, PstError>
    decreases attachments.len() - index,
{
    if index >= attachments.len() {
        Ok(rows)
    } else {
        match spec_attachment_size(attachments[index]) {
            Err(error) => Err(error),
            Ok(size) => match rebuild::with_encoded_row(
                rows,
                attachment_layout(),
                ids[index].value,
                row_version,
                attachment_cells(attachments[index], size as u32, ids[index], row_version),
            ) {
                Err(error) => Err(error),
                Ok(next) => with_attachment_rows(
                    next,
                    ids,
                    attachments,
                    index + 1,
                    row_version,
                ),
            },
        }
    }
}

/// The attachment table of a message.
#[verifier::opaque]
pub open spec fn attachment_table(
    ids: Seq<NodeId>,
    attachments: Seq<UnicodePstAttachment<'_>>,
    row_version: u32,
) -> Result<RebuiltContents, PstError> {
    match with_attachment_rows(recipient::no_rows(), ids, attachments, 0, row_version) {
        Err(error) => Err(error),
        Ok(rows) => rebuild::finished_table(
            rows,
            attachment_layout(),
            Some(NodeId { value: ROWS_NODE }),
        ),
    }
}

/// The plan with the blocks of a table: its heap, and its rows in a subnode where it has any.
pub open spec fn with_table(plan: BlockPlan, table: RebuiltContents) -> (
    BlockPlan,
    Result<(UnicodeBlockId, Option<UnicodeBlockId>), PstError>,
) {
    match data_tree::with_data_tree(plan, table.heap_pages) {
        (after, Err(error)) => (after, Err(error)),
        (after, Ok(data)) => if table.row_ids.len() == 0 {
            (after, Ok((data, None)))
        } else {
            match data_tree::with_data_tree(after, table.row_chunks) {
                (after, Err(error)) => (after, Err(error)),
                (after, Ok(rows)) => match subnode_tree::with_subnode_tree(
                    after,
                    seq![
                        UnicodeLeafSubNodeTreeEntry {
                            node: NodeId { value: ROWS_NODE },
                            block: rows,
                            sub_node: None,
                        },
                    ],
                ) {
                    (after, Err(error)) => (after, Err(error)),
                    (after, Ok(subnodes)) => (after, Ok((data, Some(subnodes)))),
                },
            }
        },
    }
}

/// The plan with the blocks of a recipient table.
pub open spec fn with_recipient_table(
    plan: BlockPlan,
    recipients: Seq<UnicodePstRecipient<'_>>,
    row_version: u32,
) -> (BlockPlan, Result<(UnicodeBlockId, Option<UnicodeBlockId>), PstError>) {
    match recipient::recipient_table(recipients, row_version) {
        Err(error) => (plan, Err(error)),
        Ok(table) => with_table(plan, table),
    }
}

/// The node with the data of attachment `index`, where the attachment has data.
pub open spec fn data_node(attachment: UnicodePstAttachment<'_>, index: int) -> Result<
    Option<NodeId>,
    PstError,
> {
    if attachment.data@.len() == 0 {
        Ok(None)
    } else {
        match NodeId::spec_new(NodeIdType::Internal, (FIRST_DATA_INDEX + index) as u32) {
            Ok(node) => Ok(Some(node)),
            Err(error) => Err(error),
        }
    }
}

/// The plan with the data of an attachment in a subnode of its own, where it has data.
pub open spec fn with_attachment_data(
    plan: BlockPlan,
    attachment: UnicodePstAttachment<'_>,
    node: Option<NodeId>,
) -> (BlockPlan, Result<Option<UnicodeBlockId>, PstError>) {
    match node {
        None => (plan, Ok(None)),
        Some(node) => match data_tree::with_data_tree(
            plan,
            data_tree::data_chunks(attachment.data@),
        ) {
            (after, Err(error)) => (after, Err(error)),
            (after, Ok(data)) => match block::with_next_block(
                after,
                true,
                BlockContents::SubNodes(
                    seq![UnicodeLeafSubNodeTreeEntry { node, block: data, sub_node: None }],
                ),
            ) {
                (after, Err(error)) => (after, Err(error)),
                (after, Ok(subnode)) => (after, Ok(Some(subnode))),
            },
        },
    }
}

/// The plan with the blocks of attachment `index`, and its subnode entry.
pub open spec fn with_attachment(
    plan: BlockPlan,
    attachment: UnicodePstAttachment<'_>,
    index: int,
) -> (BlockPlan, Result<UnicodeLeafSubNodeTreeEntry, PstError>) {
    match data_node(attachment, index) {
        Err(error) => (plan, Err(error)),
        Ok(node) => match with_attachment_data(plan, attachment, node) {
            (after, Err(error)) => (after, Err(error)),
            (after, Ok(sub_node)) => match attachment_context(attachment, node) {
                Err(error) => (after, Err(error)),
                Ok(data) => match block::with_next_block(
                    after,
                    false,
                    BlockContents::Data(data),
                ) {
                    (after, Err(error)) => (after, Err(error)),
                    (after, Ok(block)) => (
                        after,
                        Ok(
                            UnicodeLeafSubNodeTreeEntry {
                                node: attachment_node(index),
                                block,
                                sub_node,
                            },
                        ),
                    ),
                },
            },
        },
    }
}

/// The plan with the blocks of the attachments from `index` on, after the subnodes in `done`.
pub open spec fn with_attachments_from(
    plan: BlockPlan,
    attachments: Seq<UnicodePstAttachment<'_>>,
    index: int,
    done: Seq<UnicodeLeafSubNodeTreeEntry>,
) -> (BlockPlan, Result<Seq<UnicodeLeafSubNodeTreeEntry>, PstError>)
    decreases attachments.len() - index,
{
    if index >= attachments.len() {
        (plan, Ok(done))
    } else {
        match with_attachment(plan, attachments[index], index) {
            (after, Err(error)) => (after, Err(error)),
            (after, Ok(entry)) => with_attachments_from(
                after,
                attachments,
                index + 1,
                done.push(entry),
            ),
        }
    }
}

/// The plan with the blocks of the attachments of a message, and the subnodes in `done` with the
/// attachment table and the attachments behind them. No attachments add nothing.
pub open spec fn with_attachments(
    plan: BlockPlan,
    attachments: Seq<UnicodePstAttachment<'_>>,
    row_version: u32,
    done: Seq<UnicodeLeafSubNodeTreeEntry>,
) -> (BlockPlan, Result<Seq<UnicodeLeafSubNodeTreeEntry>, PstError>) {
    if attachments.len() == 0 {
        (plan, Ok(done))
    } else {
        match spec_attachment_ids(attachments.len()) {
            Err(error) => (plan, Err(error)),
            Ok(ids) => match attachment_table(ids, attachments, row_version) {
                Err(error) => (plan, Err(error)),
                Ok(table) => match with_table(plan, table) {
                    (after, Err(error)) => (after, Err(error)),
                    (after, Ok((block, sub_node))) => with_attachments_from(
                        after,
                        attachments,
                        0,
                        done.push(
                            UnicodeLeafSubNodeTreeEntry {
                                node: NodeId { value: NID_ATTACHMENT_TABLE },
                                block,
                                sub_node,
                            },
                        ),
                    ),
                },
            },
        }
    }
}

/// The normalized Content-ID of an attachment. One that is empty is refused.
pub fn attachment_content_id<'a>(input: &'a UnicodePstAttachment<'_>) -> (id: Result<
    Option<&'a str>,
    PstError,
>)
    ensures
        match id {
            Ok(None) => content_id(*input) == Ok::<Option<Seq<char>>, PstError>(None),
            Ok(Some(id)) => content_id(*input) == Ok::<_, PstError>(Some(id@)),
            Err(error) => content_id(*input) == Err::<Option<Seq<char>>, _>(error),
        },
{
    let given: &str = match input.content_id {
        None => {
            return Ok(None);
        },
        Some(given) => given,
    };
    let mut start: usize = 0;
    let mut end: usize = given.unicode_len();
    if end > 0 && given.get_char(0) == '<' {
        start = 1;
    }
    if end > start && given.get_char(end - 1) == '>' {
        end -= 1;
    }
    let stripped = given.substring_char(start, end);
    assert(stripped@ =~= without_brackets(given@));
    if stripped.is_empty() {
        return Err(PstError::Io(IoError::EmptyContentId));
    }
    Ok(Some(stripped))
}

/// The size of an attachment as `PR_ATTACH_SIZE` holds it.
pub fn attachment_size(input: &UnicodePstAttachment<'_>) -> (size: Result<i32, PstError>)
    ensures
        size == spec_attachment_size(*input),
        size matches Ok(size) ==> size >= 0,
{
    let mut size: u128 = input.data.len() as u128 + 12 + 2 * (text::utf16_bytes(
        input.filename,
    ).len() as u128) + text::utf16_bytes(input.mime_type).len() as u128;
    if size > usize::MAX as u128 {
        return Err(PstError::IntegerConversion);
    }
    match attachment_content_id(input)? {
        Some(id) => {
            size = size + text::utf16_bytes(id).len() as u128 + 4;
        },
        None => {},
    }
    if size > i32::MAX as u128 {
        return Err(PstError::IntegerConversion);
    }
    Ok(size as i32)
}

/// A property with text.
pub fn new_text_property(id: u16, value: &str) -> (property: SimpleProperty)
    ensures
        property@ == text_property(id, value@),
{
    SimpleProperty::with_value(id, PropertyType::Unicode, text::utf16_bytes(value))
}

/// A property with a number.
pub fn new_number_property(id: u16, number: u32) -> (property: SimpleProperty)
    ensures
        property@ == number_property(id, number),
{
    SimpleProperty::with_small(id, PropertyType::Integer32, number)
}

/// The property context of an attachment, whose data stands in `data_node` where there is one.
pub fn attachment_data(input: &UnicodePstAttachment<'_>, data_node: Option<NodeId>) -> (data:
    Result<Vec<u8>, PstError>)
    ensures
        crate::error::result_view(data) == attachment_context(*input, data_node),
{
    let size: i32 = attachment_size(input)?;
    let mut properties: Vec<SimpleProperty> = vec![
        new_number_property(0x0E20, size as u32),
        SimpleProperty::with_small(0x3701, PropertyType::Binary, 0),
        new_text_property(0x3704, input.filename),
        new_number_property(0x3705, 1),
        new_text_property(0x3707, input.filename),
        new_number_property(0x370B, u32::MAX),
        new_text_property(0x370E, input.mime_type),
    ];
    assert(bytes::views(properties@) =~= attachment_properties(*input, size as u32, None));
    match attachment_content_id(input)? {
        Some(id) => {
            properties.push(new_text_property(0x3712, id));
            properties.push(new_number_property(0x3714, 4));
            assert(bytes::views(properties@) =~= attachment_properties(
                *input,
                size as u32,
                Some(id@),
            ));
        },
        None => {},
    }
    let mut nodes: Vec<(u16, NodeId)> = Vec::new();
    match data_node {
        Some(node) => {
            nodes.push((0x3701, node));
        },
        None => {},
    }
    assert(nodes@ =~= data_nodes(data_node));
    property_context::property_context_data_with_nodes(properties, &nodes)
}

/// The nodes of `count` attachments.
pub fn attachment_ids(count: usize) -> (ids: Result<Vec<NodeId>, PstError>)
    ensures
        crate::error::result_view(ids) == spec_attachment_ids(count as nat),
{
    let mut ids: Vec<NodeId> = Vec::new();
    let mut i: usize = 0;
    while i < count
        invariant
            i <= count,
            i <= NODE_INDEX_LIMIT - FIRST_ATTACHMENT_INDEX,
            ids@ == Seq::new(i as nat, |j: int| attachment_node(j)),
        decreases count - i,
    {
        let id = NodeId::new(NodeIdType::Attachment, FIRST_ATTACHMENT_INDEX + i as u32)?;
        ids.push(id);
        i += 1;
        assert(ids@ =~= Seq::new(i as nat, |j: int| attachment_node(j)));
    }
    Ok(ids)
}

/// The layout of an attachment table.
fn attachment_table_context() -> (context: TableContextInfo)
    ensures
        context@ == attachment_layout(),
        table::layout_wf(context@),
{
    let columns: Vec<TableColumnDescriptor> = vec![
        recipient::new_column(PropertyType::Integer32, 0x0E20, 8, 4, 2),
        recipient::new_column(PropertyType::Unicode, 0x3704, 12, 4, 3),
        recipient::new_column(PropertyType::Integer32, 0x3705, 16, 4, 4),
        recipient::new_column(PropertyType::Integer32, 0x370B, 20, 4, 5),
        recipient::new_column(PropertyType::Integer32, LTP_ROW_ID_PROP_ID, 0, 4, 0),
        recipient::new_column(PropertyType::Integer32, LTP_ROW_VERSION_PROP_ID, 4, 4, 1),
    ];
    assert(columns@ =~= attachment_layout().columns);
    TableContextInfo {
        end_4byte_values: 24,
        end_2byte_values: 24,
        end_1byte_values: 24,
        end_existence_bitmap: 25,
        row_index: HeapId::none(),
        rows: None,
        columns,
    }
}

/// Adds the rows of the attachments.
fn push_attachment_rows(
    context: &TableContextInfo,
    heap: &mut HeapBuilder,
    chunks: &mut Vec<Vec<u8>>,
    ids: &mut Vec<u32>,
    attachment_ids: &Vec<NodeId>,
    attachments: &[UnicodePstAttachment<'_>],
    row_version: u32,
) -> (result: Result<(), PstError>)
    requires
        attachment_ids@.len() == attachments@.len(),
        heap::heap_wf(old(heap)@),
        context@ == attachment_layout(),
        table::layout_wf(context@),
    ensures
        heap::heap_wf(final(heap)@),
        match with_attachment_rows(
            (RowsSoFar {
                pages: old(heap)@,
                chunks: bytes::views(old(chunks)@),
                ids: old(ids)@,
            }),
            attachment_ids@,
            attachments@,
            0,
            row_version,
        ) {
            Ok(after) => result is Ok && after == (RowsSoFar {
                pages: final(heap)@,
                chunks: bytes::views(final(chunks)@),
                ids: final(ids)@,
            }),
            Err(error) => result == Err::<(), PstError>(error),
        },
{
    let mut i: usize = 0;
    while i < attachments.len()
        invariant
            i <= attachments@.len(),
            attachment_ids@.len() == attachments@.len(),
            context@ == attachment_layout(),
            table::layout_wf(context@),
            heap::heap_wf(heap@),
            with_attachment_rows(
                RowsSoFar {
                    pages: old(heap)@,
                    chunks: bytes::views(old(chunks)@),
                    ids: old(ids)@,
                },
                attachment_ids@,
                attachments@,
                0,
                row_version,
            ) == with_attachment_rows(
                RowsSoFar { pages: heap@, chunks: bytes::views(chunks@), ids: ids@ },
                attachment_ids@,
                attachments@,
                i as int,
                row_version,
            ),
        decreases attachments@.len() - i,
    {
        let attachment: &UnicodePstAttachment<'_> = &attachments[i];
        let id: NodeId = attachment_ids[i];
        let size: i32 = attachment_size(attachment)?;
        let cells = new_attachment_cells(attachment, size as u32, id, row_version);
        rebuild::push_encoded_row(context, heap, chunks, ids, id.value, row_version, cells)?;
        i += 1;
    }
    Ok(())
}

/// The cells of an attachment.
fn new_attachment_cells(
    attachment: &UnicodePstAttachment<'_>,
    size: u32,
    id: NodeId,
    row_version: u32,
) -> (cells: Vec<Option<TableCell>>)
    ensures
        table::cell_views(cells@) == attachment_cells(*attachment, size, id, row_version),
{
    let cells: Vec<Option<TableCell>> = vec![
        recipient::new_number_cell(size),
        recipient::string_table_cell(PropertyType::Unicode, attachment.filename),
        recipient::new_number_cell(1),
        recipient::new_number_cell(u32::MAX),
        recipient::new_number_cell(id.value),
        recipient::new_number_cell(row_version),
    ];
    assert(table::cell_views(cells@) =~= attachment_cells(*attachment, size, id, row_version));
    cells
}

/// The attachment table of a message whose attachments have the given nodes.
pub fn attachment_table_data(
    attachment_ids: &Vec<NodeId>,
    attachments: &[UnicodePstAttachment<'_>],
    row_version: u32,
) -> (result: Result<RebuiltTable, PstError>)
    requires
        attachment_ids@.len() == attachments@.len(),
    ensures
        crate::error::result_view(result) == attachment_table(
            attachment_ids@,
            attachments@,
            row_version,
        ),
{
    reveal(attachment_table);
    let context = attachment_table_context();
    let mut heap = HeapBuilder::new();
    let mut chunks: Vec<Vec<u8>> = Vec::new();
    let mut ids: Vec<u32> = Vec::new();
    assert(bytes::views(chunks@) =~= Seq::empty());
    push_attachment_rows(
        &context,
        &mut heap,
        &mut chunks,
        &mut ids,
        attachment_ids,
        attachments,
        row_version,
    )?;
    rebuild::finish_table(&context, heap, chunks, ids, Some(NodeId { value: ROWS_NODE }))
}

/// Plans the blocks of a table.
fn push_table(
    blocks: &mut Vec<NewBlock>,
    next_bid: &mut u64,
    next_offset: &mut u64,
    table: RebuiltTable,
) -> (result: Result<(UnicodeBlockId, Option<UnicodeBlockId>), PstError>)
    ensures
        (block::plan(final(blocks)@, *final(next_bid), *final(next_offset)), result) == with_table(
            block::plan(old(blocks)@, *old(next_bid), *old(next_offset)),
            table@,
        ),
{
    let data = data_tree::push_data_tree_chunks(
        blocks,
        next_bid,
        next_offset,
        table.heap_pages,
    )?;
    if table.row_ids.len() == 0 {
        return Ok((data, None));
    }
    let rows = data_tree::push_data_tree_chunks(
        blocks,
        next_bid,
        next_offset,
        table.row_chunks,
    )?;
    let entries: Vec<UnicodeLeafSubNodeTreeEntry> = vec![
        UnicodeLeafSubNodeTreeEntry::new(NodeId { value: ROWS_NODE }, rows, None),
    ];
    assert(entries@ =~= seq![
        UnicodeLeafSubNodeTreeEntry {
            node: NodeId { value: ROWS_NODE },
            block: rows,
            sub_node: None,
        },
    ]);
    let subnodes = subnode_tree::push_subnode_tree(blocks, next_bid, next_offset, entries)?;
    Ok((data, Some(subnodes)))
}

/// Plans the blocks of a recipient table and returns its data and its subnodes.
pub fn push_recipient_table(
    blocks: &mut Vec<NewBlock>,
    next_bid: &mut u64,
    next_offset: &mut u64,
    recipients: &[UnicodePstRecipient<'_>],
    row_version: u32,
) -> (result: Result<(UnicodeBlockId, Option<UnicodeBlockId>), PstError>)
    ensures
        (block::plan(final(blocks)@, *final(next_bid), *final(next_offset)), result)
            == with_recipient_table(
            block::plan(old(blocks)@, *old(next_bid), *old(next_offset)),
            recipients@,
            row_version,
        ),
{
    let table = recipient::recipient_table_data(recipients, row_version)?;
    push_table(blocks, next_bid, next_offset, table)
}

/// Plans the data of an attachment in a subnode of its own.
fn push_attachment_data(
    blocks: &mut Vec<NewBlock>,
    next_bid: &mut u64,
    next_offset: &mut u64,
    attachment: &UnicodePstAttachment<'_>,
    node: Option<NodeId>,
) -> (subnode: Result<Option<UnicodeBlockId>, PstError>)
    ensures
        (block::plan(final(blocks)@, *final(next_bid), *final(next_offset)), subnode)
            == with_attachment_data(
            block::plan(old(blocks)@, *old(next_bid), *old(next_offset)),
            *attachment,
            node,
        ),
{
    match node {
        None => Ok(None),
        Some(node) => {
            let data = data_tree::push_data_tree(blocks, next_bid, next_offset, attachment.data)?;
            let entries: Vec<UnicodeLeafSubNodeTreeEntry> = vec![
                UnicodeLeafSubNodeTreeEntry::new(node, data, None),
            ];
            assert(entries@ =~= seq![
                UnicodeLeafSubNodeTreeEntry { node, block: data, sub_node: None },
            ]);
            let subnode = block::push_block(
                blocks,
                next_bid,
                next_offset,
                true,
                NewBlockData::SubNodes(entries),
            )?;
            Ok(Some(subnode))
        },
    }
}

/// Plans the blocks of attachment `index`.
fn push_attachment(
    blocks: &mut Vec<NewBlock>,
    next_bid: &mut u64,
    next_offset: &mut u64,
    attachment: &UnicodePstAttachment<'_>,
    index: u32,
) -> (entry: Result<UnicodeLeafSubNodeTreeEntry, PstError>)
    requires
        index + FIRST_ATTACHMENT_INDEX < NODE_INDEX_LIMIT,
    ensures
        (block::plan(final(blocks)@, *final(next_bid), *final(next_offset)), entry)
            == with_attachment(
            block::plan(old(blocks)@, *old(next_bid), *old(next_offset)),
            *attachment,
            index as int,
        ),
{
    let node: Option<NodeId> = if attachment.data.len() == 0 {
        None
    } else {
        Some(NodeId::new(NodeIdType::Internal, FIRST_DATA_INDEX + index)?)
    };
    let sub_node = push_attachment_data(blocks, next_bid, next_offset, attachment, node)?;
    let data = attachment_data(attachment, node)?;
    let block = block::push_block(
        blocks,
        next_bid,
        next_offset,
        false,
        NewBlockData::Data(data),
    )?;
    let id = NodeId { value: (FIRST_ATTACHMENT_INDEX + index) * 32 + 5 };
    Ok(UnicodeLeafSubNodeTreeEntry::new(id, block, sub_node))
}

/// Plans the blocks of the attachments of a message and adds the attachment table and the
/// attachments to its subnodes. No attachments add nothing.
pub fn push_attachments(
    blocks: &mut Vec<NewBlock>,
    next_bid: &mut u64,
    next_offset: &mut u64,
    attachments: &[UnicodePstAttachment<'_>],
    row_version: u32,
    sub_nodes: &mut Vec<UnicodeLeafSubNodeTreeEntry>,
) -> (result: Result<(), PstError>)
    ensures
        ({
            let (after, spec_result) = with_attachments(
                block::plan(old(blocks)@, *old(next_bid), *old(next_offset)),
                attachments@,
                row_version,
                old(sub_nodes)@,
            );
            &&& block::plan(final(blocks)@, *final(next_bid), *final(next_offset)) == after
            &&& match spec_result {
                Ok(entries) => result is Ok && final(sub_nodes)@ == entries,
                Err(error) => result == Err::<(), PstError>(error),
            }
        }),
{
    if attachments.len() == 0 {
        return Ok(());
    }
    let ids = attachment_ids(attachments.len())?;
    let table = attachment_table_data(&ids, attachments, row_version)?;
    let (table_block, table_subnodes) = push_table(blocks, next_bid, next_offset, table)?;
    sub_nodes.push(
        UnicodeLeafSubNodeTreeEntry::new(
            NodeId { value: NID_ATTACHMENT_TABLE },
            table_block,
            table_subnodes,
        ),
    );
    let mut i: usize = 0;
    while i < attachments.len()
        invariant
            i <= attachments@.len(),
            attachments@.len() <= NODE_INDEX_LIMIT - FIRST_ATTACHMENT_INDEX,
            with_attachments(
                block::plan(old(blocks)@, *old(next_bid), *old(next_offset)),
                attachments@,
                row_version,
                old(sub_nodes)@,
            ) == with_attachments_from(
                block::plan(blocks@, *next_bid, *next_offset),
                attachments@,
                i as int,
                sub_nodes@,
            ),
        decreases attachments@.len() - i,
    {
        let entry = push_attachment(blocks, next_bid, next_offset, &attachments[i], i as u32)?;
        sub_nodes.push(entry);
        i += 1;
    }
    Ok(())
}

} // verus!
