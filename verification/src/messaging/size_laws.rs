//! What the size of a message depends on.

use vstd::prelude::*;

use crate::bytes;
use crate::error::PstError;
use crate::ltp::property;
use crate::ltp::property::EncodedValue;
use crate::ltp::property_context;
use crate::ltp::rebuild;
use crate::ltp::rebuild::{RebuiltContents, RowsSoFar};
use crate::ltp::shape;
use crate::ltp::table;
use crate::messaging::attachment;
use crate::messaging::input::{
    UnicodePstAttachment, UnicodePstMessage, UnicodePstRecipient, UnicodePstRecipientType,
};
use crate::messaging::message;
use crate::messaging::recipient;
use crate::messaging::recipient::ROWS_NODE;
use crate::ndb::ids::NodeId;
use crate::text;

verus! {

/// Whether two attachments are the same but for their data.
pub open spec fn same_but_data(
    left: UnicodePstAttachment<'_>,
    right: UnicodePstAttachment<'_>,
) -> bool {
    left.filename == right.filename && left.mime_type == right.mime_type && left.content_id
        == right.content_id
}

/// Whether two lists of attachments are the same but for the data of each.
pub open spec fn all_same_but_data(
    left: Seq<UnicodePstAttachment<'_>>,
    right: Seq<UnicodePstAttachment<'_>>,
) -> bool {
    left.len() == right.len() && forall|i: int|
        0 <= i < left.len() ==> same_but_data(#[trigger] left[i], #[trigger] right[i])
}

/// The number of data bytes in the attachments from `index` on.
pub open spec fn data_from(attachments: Seq<UnicodePstAttachment<'_>>, index: int) -> nat
    decreases attachments.len() - index,
{
    if index >= attachments.len() {
        0
    } else {
        attachments[index].data@.len() + data_from(attachments, index + 1)
    }
}

proof fn lemma_same_recipients(
    left: RowsSoFar,
    right: RowsSoFar,
    recipients: Seq<UnicodePstRecipient<'_>>,
    index: int,
    first: u32,
    second: u32,
)
    requires
        0 <= index,
        shape::same_rows(left, right),
    ensures
        recipient::with_recipients(left, recipients, index, first) matches Ok(after) ==> (
        recipient::with_recipients(right, recipients, index, second) matches Ok(other)
            ==> shape::same_rows(after, other)),
    decreases recipients.len() - index,
{
    if index < recipients.len() && index + 1 <= i32::MAX {
        let layout = recipient::recipient_layout();
        let row_id = (index + 1) as u32;
        let cells = recipient::recipient_cells(recipients[index], row_id, first);
        let others = recipient::recipient_cells(recipients[index], row_id, second);
        assert(table::layout_wf(layout));
        assert(shape::same_cells(cells, others));
        shape::lemma_same_encoded_row(
            left,
            right,
            layout,
            (row_id, first, cells),
            (row_id, second, others),
        );
        let row = rebuild::with_encoded_row(left, layout, row_id, first, cells);
        let other = rebuild::with_encoded_row(right, layout, row_id, second, others);
        if row is Ok && other is Ok {
            lemma_same_recipients(row->Ok_0, other->Ok_0, recipients, index + 1, first, second);
        }
    }
}

proof fn lemma_same_attachment_rows(
    left: RowsSoFar,
    right: RowsSoFar,
    ids: Seq<NodeId>,
    attachments: Seq<UnicodePstAttachment<'_>>,
    others: Seq<UnicodePstAttachment<'_>>,
    index: int,
    first: u32,
    second: u32,
)
    requires
        0 <= index,
        all_same_but_data(attachments, others),
        shape::same_rows(left, right),
    ensures
        attachment::with_attachment_rows(left, ids, attachments, index, first) matches Ok(after)
            ==> (attachment::with_attachment_rows(right, ids, others, index, second) matches Ok(
            other,
        ) ==> shape::same_rows(after, other)),
    decreases attachments.len() - index,
{
    if index < attachments.len() {
        assert(same_but_data(attachments[index], others[index]));
        let layout = attachment::attachment_layout();
        let size = attachment::spec_attachment_size(attachments[index]);
        let other_size = attachment::spec_attachment_size(others[index]);
        if size is Ok && other_size is Ok {
            let id = ids[index];
            let cells = attachment::attachment_cells(
                attachments[index],
                size->Ok_0 as u32,
                id,
                first,
            );
            let other_cells = attachment::attachment_cells(
                others[index],
                other_size->Ok_0 as u32,
                id,
                second,
            );
            assert(table::layout_wf(layout));
            assert(shape::same_cells(cells, other_cells));
            shape::lemma_same_encoded_row(
                left,
                right,
                layout,
                (id.value, first, cells),
                (id.value, second, other_cells),
            );
            let row = rebuild::with_encoded_row(left, layout, id.value, first, cells);
            let other = rebuild::with_encoded_row(right, layout, id.value, second, other_cells);
            if row is Ok && other is Ok {
                lemma_same_attachment_rows(
                    row->Ok_0,
                    other->Ok_0,
                    ids,
                    attachments,
                    others,
                    index + 1,
                    first,
                    second,
                );
            }
        }
    }
}

/// The property context of an attachment takes the same room whatever its data is.
proof fn lemma_same_attachment_context(
    left: UnicodePstAttachment<'_>,
    right: UnicodePstAttachment<'_>,
    first: Option<NodeId>,
    second: Option<NodeId>,
)
    requires
        same_but_data(left, right),
    ensures
        attachment::attachment_context(left, first) matches Ok(data) ==> (
        attachment::attachment_context(right, second) matches Ok(other) ==> data.len()
            == other.len()),
{
    let size = attachment::spec_attachment_size(left);
    let other_size = attachment::spec_attachment_size(right);
    let id = attachment::content_id(left);
    assert(id == attachment::content_id(right));
    if size is Ok && other_size is Ok && id is Ok {
        let properties = attachment::attachment_properties(left, size->Ok_0 as u32, id->Ok_0);
        let others = attachment::attachment_properties(right, other_size->Ok_0 as u32, id->Ok_0);
        let nodes = attachment::data_nodes(first);
        let other_nodes = attachment::data_nodes(second);
        assert forall|i: int| 0 <= i < properties.len() implies shape::same_simple(
            #[trigger] properties[i],
            #[trigger] others[i],
        ) && (properties[i].value is Some ==> property_context::node_of(
            nodes,
            properties[i].id,
            0,
        ) is None && property_context::node_of(other_nodes, properties[i].id, 0) is None) by {
            reveal_with_fuel(property_context::node_of, 3);
        }
        shape::law_simple_context_size(properties, others, nodes, other_nodes);
    }
}

proof fn lemma_same_sizes(
    size: nat,
    other: nat,
    left: Seq<UnicodePstAttachment<'_>>,
    right: Seq<UnicodePstAttachment<'_>>,
    index: int,
)
    requires
        0 <= index,
        all_same_but_data(left, right),
    ensures
        message::with_attachment_sizes(size, left, index) matches Ok(total) ==> (
        message::with_attachment_sizes(other, right, index) matches Ok(other_total) ==> total - size
            - data_from(left, index) == other_total - other - data_from(right, index)),
    decreases left.len() - index,
{
    if index < left.len() {
        assert(same_but_data(left[index], right[index]));
        let node = attachment::data_node(left[index], index);
        let other_node = attachment::data_node(right[index], index);
        if node is Ok && other_node is Ok {
            lemma_same_attachment_context(
                left[index],
                right[index],
                node->Ok_0,
                other_node->Ok_0,
            );
            let context = attachment::attachment_context(left[index], node->Ok_0);
            let other_context = attachment::attachment_context(right[index], other_node->Ok_0);
            if context is Ok && other_context is Ok {
                lemma_same_sizes(
                    size + context->Ok_0.len() + left[index].data@.len(),
                    other + other_context->Ok_0.len() + right[index].data@.len(),
                    left,
                    right,
                    index + 1,
                );
            }
        }
    }
}

proof fn lemma_same_external_length(
    left: Seq<(NodeId, Seq<u8>)>,
    right: Seq<(NodeId, Seq<u8>)>,
    count: nat,
)
    requires
        shape::same_external(left, right),
        count <= left.len(),
    ensures
        message::external_length(left, count) == message::external_length(right, count),
    decreases count,
{
    if count > 0 {
        lemma_same_external_length(left, right, (count - 1) as nat);
        assert(left[count - 1].1.len() == right[count - 1].1.len());
    }
}

proof fn lemma_same_tables(
    input: UnicodePstMessage<'_>,
    ids: Seq<NodeId>,
    left: Seq<UnicodePstAttachment<'_>>,
    right: Seq<UnicodePstAttachment<'_>>,
    first: u32,
    second: u32,
)
    requires
        all_same_but_data(left, right),
    ensures
        recipient::recipient_table(input.recipients@, first) matches Ok(done) ==> (
        recipient::recipient_table(input.recipients@, second) matches Ok(other)
            ==> shape::same_lengths(done.heap_pages, other.heap_pages) && shape::same_lengths(
            done.row_chunks,
            other.row_chunks,
        )),
        attachment::attachment_table(ids, left, first) matches Ok(done) ==> (
        attachment::attachment_table(ids, right, second) matches Ok(other) ==> shape::same_lengths(
            done.heap_pages,
            other.heap_pages,
        ) && shape::same_lengths(done.row_chunks, other.row_chunks)),
{
    reveal(recipient::recipient_table);
    reveal(attachment::attachment_table);
    let start = recipient::no_rows();
    let node = Some(NodeId { value: ROWS_NODE });
    assert(shape::same_rows(start, start));
    lemma_same_recipients(start, start, input.recipients@, 0, first, second);
    let rows = recipient::with_recipients(start, input.recipients@, 0, first);
    let others = recipient::with_recipients(start, input.recipients@, 0, second);
    if rows is Ok && others is Ok {
        shape::lemma_same_table(rows->Ok_0, others->Ok_0, recipient::recipient_layout(), node);
    }
    lemma_same_attachment_rows(start, start, ids, left, right, 0, first, second);
    let rows = attachment::with_attachment_rows(start, ids, left, 0, first);
    let others = attachment::with_attachment_rows(start, ids, right, 0, second);
    if rows is Ok && others is Ok {
        shape::lemma_same_table(rows->Ok_0, others->Ok_0, attachment::attachment_layout(), node);
    }
}

proof fn lemma_same_fixed_properties(
    input: UnicodePstMessage<'_>,
    has: bool,
    one: NodeId,
    two: NodeId,
    first: u32,
    second: u32,
)
    ensures
        shape::same_properties(
            message::fixed_properties(input, has, one, first, 0),
            message::fixed_properties(input, has, two, second, 0),
        ),
{
}

proof fn lemma_same_message_properties(
    input: UnicodePstMessage<'_>,
    has: bool,
    one: NodeId,
    two: NodeId,
    first: u32,
    second: u32,
)
    ensures
        shape::same_properties(
            message::message_properties(input, has, one, first, 0),
            message::message_properties(input, has, two, second, 0),
        ),
{
    lemma_same_fixed_properties(input, has, one, two, first, second);
    let fixed = message::fixed_properties(input, has, one, first, 0);
    let other = message::fixed_properties(input, has, two, second, 0);
    lemma_same_display(fixed, other, input, 0x0E02, UnicodePstRecipientType::Bcc);
    let bcc = message::with_display(fixed, input, 0x0E02, UnicodePstRecipientType::Bcc);
    let other_bcc = message::with_display(other, input, 0x0E02, UnicodePstRecipientType::Bcc);
    lemma_same_display(bcc, other_bcc, input, 0x0E03, UnicodePstRecipientType::Cc);
    let cc = message::with_display(bcc, input, 0x0E03, UnicodePstRecipientType::Cc);
    let other_cc = message::with_display(other_bcc, input, 0x0E03, UnicodePstRecipientType::Cc);
    lemma_same_display(cc, other_cc, input, 0x0E04, UnicodePstRecipientType::To);
    let to = message::with_display(cc, input, 0x0E04, UnicodePstRecipientType::To);
    let other_to = message::with_display(other_cc, input, 0x0E04, UnicodePstRecipientType::To);
    if let Some(html) = input.html_body {
        lemma_same_pushed(
            to,
            other_to,
            (0x1013, property::binary_value(text::utf8_text(html@))),
        );
    }
}

proof fn lemma_same_pushed(
    left: Seq<(u16, EncodedValue)>,
    right: Seq<(u16, EncodedValue)>,
    added: (u16, EncodedValue),
)
    requires
        shape::same_properties(left, right),
    ensures
        shape::same_properties(left.push(added), right.push(added)),
{
    let (all, others) = (left.push(added), right.push(added));
    assert forall|i: int| 0 <= i < all.len() implies (#[trigger] all[i]).1.prop_type == (
    #[trigger] others[i]).1.prop_type && all[i].1.data.len() == others[i].1.data.len() by {
        if i < left.len() {
            assert(left[i].1.prop_type == right[i].1.prop_type);
        }
    }
}

proof fn lemma_same_display(
    left: Seq<(u16, EncodedValue)>,
    right: Seq<(u16, EncodedValue)>,
    input: UnicodePstMessage<'_>,
    id: u16,
    recipient_type: UnicodePstRecipientType,
)
    requires
        shape::same_properties(left, right),
    ensures
        shape::same_properties(
            message::with_display(left, input, id, recipient_type),
            message::with_display(right, input, id, recipient_type),
        ),
{
    let display = recipient::spec_recipient_display(input.recipients@, recipient_type);
    lemma_same_pushed(left, right, (id, property::unicode_value(display)));
}

proof fn lemma_same_own_size(
    left: (Seq<Seq<u8>>, Seq<(NodeId, Seq<u8>)>),
    right: (Seq<Seq<u8>>, Seq<(NodeId, Seq<u8>)>),
    recipients: RebuiltContents,
    other_recipients: RebuiltContents,
    table: RebuiltContents,
    other_table: RebuiltContents,
)
    requires
        shape::same_lengths(left.0, right.0),
        shape::same_external(left.1, right.1),
        shape::same_lengths(recipients.heap_pages, other_recipients.heap_pages),
        shape::same_lengths(recipients.row_chunks, other_recipients.row_chunks),
        shape::same_lengths(table.heap_pages, other_table.heap_pages),
        shape::same_lengths(table.row_chunks, other_table.row_chunks),
    ensures
        message::own_size(left, recipients, table) == message::own_size(
            right,
            other_recipients,
            other_table,
        ),
{
    shape::lemma_same_total(left.0, right.0, left.0.len());
    lemma_same_external_length(left.1, right.1, left.1.len());
    let (c, d) = (recipients, other_recipients);
    let (e, f) = (table, other_table);
    shape::lemma_same_total(c.heap_pages, d.heap_pages, c.heap_pages.len());
    shape::lemma_same_total(c.row_chunks, d.row_chunks, c.row_chunks.len());
    shape::lemma_same_total(e.heap_pages, f.heap_pages, e.heap_pages.len());
    shape::lemma_same_total(e.row_chunks, f.row_chunks, e.row_chunks.len());
}

/// Every byte of the data of an attachment counts exactly once in the size of its message, and neither
/// the node of the message nor the row version matters: two messages that are the same but for the data
/// of their attachments differ in size as their data does.
pub proof fn law_message_size(
    input: UnicodePstMessage<'_>,
    left: Seq<UnicodePstAttachment<'_>>,
    right: Seq<UnicodePstAttachment<'_>>,
    one: NodeId,
    two: NodeId,
    first: u32,
    second: u32,
)
    requires
        all_same_but_data(left, right),
    ensures
        message::spec_message_size(input, left, one, first) matches Ok(size) ==> (
        message::spec_message_size(input, right, two, second) matches Ok(other) ==> size - data_from(
            left,
            0,
        ) == other - data_from(right, 0)),
{
    reveal(message::spec_message_size);
    let has = left.len() > 0;
    let properties = message::message_properties(input, has, one, first, 0);
    let others = message::message_properties(input, has, two, second, 0);
    lemma_same_message_properties(input, has, one, two, first, second);
    shape::law_property_context_size(properties, others, message::FIRST_PROPERTY_INDEX);
    let context = message::message_context(input, has, one, first, 0);
    let other_context = message::message_context(input, has, two, second, 0);
    let ids = attachment::spec_attachment_ids(left.len());
    if context is Ok && other_context is Ok && ids is Ok {
        lemma_same_tables(input, ids->Ok_0, left, right, first, second);
        let recipients = recipient::recipient_table(input.recipients@, first);
        let other_recipients = recipient::recipient_table(input.recipients@, second);
        let table = attachment::attachment_table(ids->Ok_0, left, first);
        let other_table = attachment::attachment_table(ids->Ok_0, right, second);
        if recipients is Ok && other_recipients is Ok && table is Ok && other_table is Ok {
            let (a, b) = (context->Ok_0, other_context->Ok_0);
            let (c, d) = (recipients->Ok_0, other_recipients->Ok_0);
            let (e, f) = (table->Ok_0, other_table->Ok_0);
            lemma_same_own_size(a, b, c, d, e, f);
            lemma_same_sizes(
                message::own_size(a, c, e),
                message::own_size(b, d, f),
                left,
                right,
                0,
            );
        }
    }
}

/// The bytes of the values in subnodes, from value `index` on.
pub open spec fn value_bytes(external: Seq<(NodeId, Seq<u8>)>, index: int) -> nat
    decreases external.len() - index,
{
    if index >= external.len() {
        0
    } else {
        external[index].1.len() + value_bytes(external, index + 1)
    }
}

/// The bytes of attachments with their property contexts, from attachment `index` on.
pub open spec fn attachment_bytes(
    attachments: Seq<UnicodePstAttachment<'_>>,
    contexts: Seq<Seq<u8>>,
    index: int,
) -> nat
    decreases attachments.len() - index,
{
    if index >= attachments.len() {
        0
    } else {
        contexts[index].len() + attachments[index].data@.len() + attachment_bytes(
            attachments,
            contexts,
            index + 1,
        )
    }
}

proof fn lemma_value_bytes(external: Seq<(NodeId, Seq<u8>)>, count: nat)
    requires
        count <= external.len(),
    ensures
        message::external_length(external, count) + value_bytes(external, count as int)
            == value_bytes(external, 0),
    decreases count,
{
    if count > 0 {
        lemma_value_bytes(external, (count - 1) as nat);
    }
}

proof fn lemma_attachment_bytes(
    size: nat,
    attachments: Seq<UnicodePstAttachment<'_>>,
    contexts: Seq<Seq<u8>>,
    index: int,
)
    requires
        0 <= index <= attachments.len(),
        contexts.len() == attachments.len(),
        forall|i: int|
            0 <= i < attachments.len() ==> (attachment::data_node(#[trigger] attachments[i], i)
                matches Ok(node) && attachment::attachment_context(attachments[i], node) == Ok::<
                _,
                PstError,
            >(contexts[i])),
    ensures
        message::with_attachment_sizes(size, attachments, index) matches Ok(all) ==> all == size
            + attachment_bytes(attachments, contexts, index),
    decreases attachments.len() - index,
{
    if index < attachments.len() {
        let node = attachment::data_node(attachments[index], index)->Ok_0;
        assert(attachment::attachment_context(attachments[index], node) == Ok::<_, PstError>(
            contexts[index],
        ));
        let next = size + contexts[index].len() + attachments[index].data@.len();
        lemma_attachment_bytes(next, attachments, contexts, index + 1);
    }
}

/// The size of a message is that of everything that is stored for it, each part once, less six bytes: the pages of its
/// property context and the values that stand in subnodes, the pages and the rows of its recipient table and of its
/// attachment table, and the property context and the data of every attachment.
pub proof fn law_message_size_is_that_of_its_parts(
    input: UnicodePstMessage<'_>,
    attachments: Seq<UnicodePstAttachment<'_>>,
    message: NodeId,
    row_version: u32,
    size: i32,
    pages: Seq<Seq<u8>>,
    external: Seq<(NodeId, Seq<u8>)>,
    recipients: RebuiltContents,
    ids: Seq<NodeId>,
    table: RebuiltContents,
    contexts: Seq<Seq<u8>>,
)
    requires
        message::spec_message_size(input, attachments, message, row_version) == Ok::<_, PstError>(
            size,
        ),
        message::message_context(input, attachments.len() > 0, message, row_version, 0) == Ok::<
            _,
            PstError,
        >((pages, external)),
        recipient::recipient_table(input.recipients@, row_version) == Ok::<_, PstError>(recipients),
        attachment::spec_attachment_ids(attachments.len()) == Ok::<_, PstError>(ids),
        attachment::attachment_table(ids, attachments, row_version) == Ok::<_, PstError>(table),
        contexts.len() == attachments.len(),
        forall|i: int|
            0 <= i < attachments.len() ==> (attachment::data_node(#[trigger] attachments[i], i)
                matches Ok(node) && attachment::attachment_context(attachments[i], node) == Ok::<
                _,
                PstError,
            >(contexts[i])),
    ensures
        size + 6 == bytes::concat(pages).len() + value_bytes(external, 0) + bytes::concat(
            recipients.heap_pages,
        ).len() + bytes::concat(recipients.row_chunks).len() + bytes::concat(
            table.heap_pages,
        ).len() + bytes::concat(table.row_chunks).len() + attachment_bytes(
            attachments,
            contexts,
            0,
        ),
{
    reveal(message::spec_message_size);
    lemma_value_bytes(external, external.len());
    bytes::lemma_concat_length(pages, pages.len());
    bytes::lemma_concat_length(recipients.heap_pages, recipients.heap_pages.len());
    bytes::lemma_concat_length(recipients.row_chunks, recipients.row_chunks.len());
    bytes::lemma_concat_length(table.heap_pages, table.heap_pages.len());
    bytes::lemma_concat_length(table.row_chunks, table.row_chunks.len());
    let own = message::own_size((pages, external), recipients, table);
    lemma_attachment_bytes(own, attachments, contexts, 0);
}

} // verus!
