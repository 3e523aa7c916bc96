//! What a reader finds in the attachments of a stored message, property by property.

use vstd::prelude::*;

use crate::error::PstError;
use crate::ltp::column_laws;
use crate::ltp::property_context;
use crate::ltp::property_context::SimpleContents;
use crate::ltp::property_laws;
use crate::ltp::property_laws::ReadValue;
use crate::ltp::rebuild::RebuiltContents;
use crate::messaging::attachment;
use crate::messaging::input::UnicodePstAttachment;
use crate::messaging::plan_laws;
use crate::messaging::row_laws;
use crate::messaging::stored_laws;
use crate::messaging::stored_row_laws;
use crate::ndb::block::{BlockPlan, UnicodeLeafSubNodeTreeEntry};
use crate::ndb::ids::NodeId;
use crate::text;

verus! {

/// Whether `id` is a Content-ID without the angle bracket at its start and the one at its end, where it has
/// them.
pub open spec fn is_bare(content_id: Seq<char>, id: Seq<char>) -> bool {
    ||| content_id == id && !(id.len() > 0 && (id[0] == '<' || id.last() == '>'))
    ||| content_id == seq!['<'] + id && !(id.len() > 0 && id.last() == '>')
    ||| content_id == id + seq!['>'] && !(content_id[0] == '<')
    ||| content_id == seq!['<'] + id + seq!['>']
}

/// The number of bytes that a reader finds for a property, where it does not stand in the record itself.
pub open spec fn stored_length(context: Seq<u8>, id: u16) -> nat {
    match property_laws::property_in_pages(seq![context], id) {
        Some((_, ReadValue::Bytes(data))) => data.len(),
        _ => 0,
    }
}

/// Whether a property of a context is the given text.
pub open spec fn has_text(context: Seq<u8>, id: u16, value: Seq<char>) -> bool {
    stored_laws::has_text(seq![context], Seq::empty(), id, value)
}

/// Whether a property context is that of an attachment, whose data stands in the given subnode where it has
/// data.
pub open spec fn is_stored_attachment(
    context: Seq<u8>,
    node: Option<NodeId>,
    input: UnicodePstAttachment<'_>,
) -> bool {
    let pages = seq![context];
    &&& has_text(context, 0x3704, input.filename@)
    &&& has_text(context, 0x3707, input.filename@)
    &&& has_text(context, 0x370E, input.mime_type@)
    &&& stored_laws::has_number(pages, 0x3705, 1)
    &&& stored_laws::has_number(pages, 0x370B, 0xFFFF_FFFF)
    &&& property_laws::property_in_pages(pages, 0x3701) == Some(
        (
            0x0102int,
            match node {
                None => ReadValue::Bytes(Seq::empty()),
                Some(node) => ReadValue::Node(node),
            },
        ),
    )
    &&& match input.content_id {
        None => stored_laws::has_none(pages, 0x3712) && stored_laws::has_none(pages, 0x3714),
        Some(content_id) => stored_laws::has_number(pages, 0x3714, 4) && exists|id: Seq<char>|
            #[trigger] has_text(context, 0x3712, id) && is_bare(content_id@, id) && id.len() > 0,
    }
    &&& stored_laws::has_number(pages, 0x0E20, attachment_length(context, input) as u32)
    &&& attachment_length(context, input) <= i32::MAX
    &&& forall|id: u16|
        !is_attachment_property(id) ==> #[trigger] stored_laws::has_none(pages, id)
}

/// The number of bytes of an attachment: its data and all the values of its properties but the length itself.
pub open spec fn attachment_length(context: Seq<u8>, input: UnicodePstAttachment<'_>) -> nat {
    input.data@.len() + stored_length(context, 0x3704) + stored_length(context, 0x3707)
        + stored_length(context, 0x370E) + 12 + if input.content_id is Some {
        stored_length(context, 0x3712) + 4
    } else {
        0
    }
}

/// The identifiers of the properties that an attachment can have.
pub open spec fn is_attachment_property(id: u16) -> bool {
    ||| id == 0x0E20 || id == 0x3701 || id == 0x3704 || id == 0x3705 || id == 0x3707
    ||| id == 0x370B || id == 0x370E || id == 0x3712 || id == 0x3714
}

/// Whether row `index` of an attachment table is that of an attachment with the given property context.
pub open spec fn is_attachment_row(
    table: RebuiltContents,
    index: int,
    input: UnicodePstAttachment<'_>,
    id: u32,
    row_version: u32,
) -> bool {
    let (pages, chunks) = (table.heap_pages, table.row_chunks);
    &&& column_laws::column_text(pages, chunks, index, 0x3704, input.filename@)
    &&& column_laws::column_number(pages, chunks, index, 0x3705, 1)
    &&& column_laws::column_number(pages, chunks, index, 0x370B, 0xFFFF_FFFF)
    &&& column_laws::column_number(pages, chunks, index, 0x67F2, id)
    &&& column_laws::column_number(pages, chunks, index, 0x67F3, row_version)
    &&& forall|id: u16|
        id != 0x0E20 && id != 0x3704 && id != 0x3705 && id != 0x370B && id != 0x67F2 && id
            != 0x67F3 ==> #[trigger] column_laws::column_none(pages, chunks, index, id)
}

proof fn lemma_bare(content_id: Seq<char>)
    ensures
        is_bare(content_id, attachment::without_brackets(content_id)),
{
    let id = attachment::without_brackets(content_id);
    let opened = if content_id.len() > 0 && content_id[0] == '<' {
        content_id.skip(1)
    } else {
        content_id
    };
    if content_id.len() > 0 && content_id[0] == '<' {
        if opened.len() > 0 && opened.last() == '>' {
            assert(content_id =~= seq!['<'] + id + seq!['>']);
        } else {
            assert(content_id =~= seq!['<'] + id);
        }
    } else {
        if opened.len() > 0 && opened.last() == '>' {
            assert(content_id =~= id + seq!['>']);
        }
    }
}

/// The properties of an attachment whose context was made.
pub open spec fn properties_of(input: UnicodePstAttachment<'_>) -> Seq<SimpleContents> {
    attachment::attachment_properties(
        input,
        attachment::spec_attachment_size(input)->Ok_0 as u32,
        attachment::content_id(input)->Ok_0,
    )
}

proof fn lemma_text_at(
    input: UnicodePstAttachment<'_>,
    node: Option<NodeId>,
    context: Seq<u8>,
    at: int,
    id: u16,
    value: Seq<char>,
)
    requires
        attachment::attachment_context(input, node) == Ok::<_, PstError>(context),
        node matches Some(node) ==> node.value % 32 != 0,
        0 <= at < properties_of(input).len(),
        properties_of(input)[at] == attachment::text_property(id, value),
        id != 0x3701,
    ensures
        has_text(context, id, value),
        stored_length(context, id) == text::utf16_text(value).len(),
{
    reveal_with_fuel(property_context::node_of, 3);
    plan_laws::law_attachment_properties_read_back(input, node, context, at);
    text::law_utf16_reads_back(value);
}

proof fn lemma_number_at(
    input: UnicodePstAttachment<'_>,
    node: Option<NodeId>,
    context: Seq<u8>,
    at: int,
    id: u16,
    number: u32,
)
    requires
        attachment::attachment_context(input, node) == Ok::<_, PstError>(context),
        node matches Some(node) ==> node.value % 32 != 0,
        0 <= at < properties_of(input).len(),
        properties_of(input)[at] == attachment::number_property(id, number),
        id != 0x3701,
    ensures
        stored_laws::has_number(seq![context], id, number),
{
    reveal_with_fuel(property_context::node_of, 3);
    plan_laws::law_attachment_properties_read_back(input, node, context, at);
}

proof fn lemma_no_simple(properties: Seq<SimpleContents>, id: u16, index: int)
    requires
        0 <= index,
        forall|i: int| 0 <= i < properties.len() ==> (#[trigger] properties[i]).id != id,
    ensures
        property_laws::first_simple(properties, id, index) is None,
    decreases properties.len() - index,
{
    if index < properties.len() {
        assert(properties[index].id != id);
        lemma_no_simple(properties, id, index + 1);
    }
}

proof fn lemma_absent(
    input: UnicodePstAttachment<'_>,
    node: Option<NodeId>,
    context: Seq<u8>,
    id: u16,
)
    requires
        attachment::attachment_context(input, node) == Ok::<_, PstError>(context),
        forall|i: int|
            0 <= i < properties_of(input).len() ==> (#[trigger] properties_of(input)[i]).id != id,
    ensures
        stored_laws::has_none(seq![context], id),
{
    lemma_no_simple(properties_of(input), id, 0);
    property_laws::law_simple_context_reads_back(
        properties_of(input),
        attachment::data_nodes(node),
        context,
        id,
    );
}

/// The property context of a stored attachment has the name, the MIME type and the Content-ID of the
/// attachment and the way it is attached under their identifiers, and no others.
pub proof fn law_attachment_is_stored(
    input: UnicodePstAttachment<'_>,
    node: Option<NodeId>,
    context: Seq<u8>,
)
    requires
        attachment::attachment_context(input, node) == Ok::<_, PstError>(context),
        node matches Some(node) ==> node.value % 32 != 0,
    ensures
        is_stored_attachment(context, node, input),
{
    let size = attachment::spec_attachment_size(input)->Ok_0 as u32;
    let properties = properties_of(input);
    let pages = seq![context];
    lemma_number_at(input, node, context, 0, 0x0E20, size);
    assert(property_laws::property_in_pages(pages, 0x3701) == Some(
        (
            0x0102int,
            match node {
                None => ReadValue::Bytes(Seq::empty()),
                Some(node) => ReadValue::Node(node),
            },
        ),
    )) by {
        reveal_with_fuel(property_context::node_of, 3);
        plan_laws::law_attachment_properties_read_back(input, node, context, 1);
    }
    lemma_text_at(input, node, context, 2, 0x3704, input.filename@);
    lemma_number_at(input, node, context, 3, 0x3705, 1);
    lemma_text_at(input, node, context, 4, 0x3707, input.filename@);
    lemma_number_at(input, node, context, 5, 0x370B, 0xFFFF_FFFF);
    lemma_text_at(input, node, context, 6, 0x370E, input.mime_type@);
    match input.content_id {
        None => {
            lemma_absent(input, node, context, 0x3712);
            lemma_absent(input, node, context, 0x3714);
        },
        Some(content_id) => {
            let id = attachment::without_brackets(content_id@);
            lemma_bare(content_id@);
            lemma_text_at(input, node, context, 7, 0x3712, id);
            lemma_number_at(input, node, context, 8, 0x3714, 4);
        },
    }
    assert(attachment_length(context, input) == size);
    assert forall|id: u16| !is_attachment_property(id) implies #[trigger] stored_laws::has_none(
        pages,
        id,
    ) by {
        lemma_absent(input, node, context, id);
    }
}

/// The properties of an attachment stand in the order of their identifiers.
pub proof fn law_attachment_properties_are_ordered(
    input: UnicodePstAttachment<'_>,
    node: Option<NodeId>,
    context: Seq<u8>,
)
    requires
        attachment::attachment_context(input, node) == Ok::<_, PstError>(context),
    ensures
        property_laws::records_in_pages(seq![context]) matches Some(records)
            && property_laws::is_ascending(records),
{
    property_laws::law_simple_properties_are_ordered(
        properties_of(input),
        attachment::data_nodes(node),
        context,
    );
}

/// The cells of an attachment in a stored table.
pub proof fn lemma_attachment_row(
    row_ids: Seq<NodeId>,
    files: Seq<UnicodePstAttachment<'_>>,
    row_version: u32,
    table: RebuiltContents,
    index: int,
)
    requires
        attachment::attachment_table(row_ids, files, row_version) == Ok::<_, PstError>(table),
        row_ids.len() == files.len(),
        0 <= index < files.len(),
    ensures
        table.row_ids.len() == files.len(),
        table.row_ids[index] == row_ids[index].value,
        column_laws::row_holds(
            table.heap_pages,
            table.row_chunks,
            index,
            attachment::attachment_layout(),
            attachment::attachment_cells(
                files[index],
                attachment::spec_attachment_size(files[index])->Ok_0 as u32,
                row_ids[index],
                row_version,
            ),
        ),
{
    reveal(column_laws::row_holds);
    row_laws::law_attachment_table_reads_back(row_ids, files, row_version, table, index);
    let size = attachment::attachment_layout().end_existence_bitmap;
    assert(size == 25);
}

proof fn lemma_attachment_columns(
    row_ids: Seq<NodeId>,
    files: Seq<UnicodePstAttachment<'_>>,
    row_version: u32,
    table: RebuiltContents,
    index: int,
    size: u32,
)
    requires
        attachment::attachment_table(row_ids, files, row_version) == Ok::<_, PstError>(table),
        row_ids.len() == files.len(),
        0 <= index < files.len(),
        size == attachment::spec_attachment_size(files[index])->Ok_0 as u32,
    ensures
        table.row_ids.len() == files.len(),
        is_attachment_row(table, index, files[index], row_ids[index].value, row_version),
        column_laws::column_number(table.heap_pages, table.row_chunks, index, 0x0E20, size),
{
    lemma_attachment_row(row_ids, files, row_version, table, index);
    let input = files[index];
    let layout = attachment::attachment_layout();
    let cells = attachment::attachment_cells(input, size, row_ids[index], row_version);
    let (pages, chunks) = (table.heap_pages, table.row_chunks);
    let name = input.filename@;
    let id = row_ids[index].value;
    assert(column_laws::column_number(pages, chunks, index, 0x0E20, size)) by {
        stored_row_laws::lemma_number_column(pages, chunks, index, layout, cells, 0, size);
    }
    assert(column_laws::column_text(pages, chunks, index, 0x3704, name)) by {
        stored_row_laws::lemma_text_column(pages, chunks, index, layout, cells, 1, name);
    }
    assert(column_laws::column_number(pages, chunks, index, 0x3705, 1)) by {
        stored_row_laws::lemma_number_column(pages, chunks, index, layout, cells, 2, 1);
    }
    assert(column_laws::column_number(pages, chunks, index, 0x370B, 0xFFFF_FFFF)) by {
        stored_row_laws::lemma_number_column(pages, chunks, index, layout, cells, 3, 0xFFFF_FFFF);
    }
    assert(column_laws::column_number(pages, chunks, index, 0x67F2, id)) by {
        stored_row_laws::lemma_number_column(pages, chunks, index, layout, cells, 4, id);
    }
    assert(column_laws::column_number(pages, chunks, index, 0x67F3, row_version)) by {
        stored_row_laws::lemma_number_column(pages, chunks, index, layout, cells, 5, row_version);
    }
    assert forall|id: u16|
        id != 0x0E20 && id != 0x3704 && id != 0x3705 && id != 0x370B && id != 0x67F2 && id
            != 0x67F3 implies #[trigger] column_laws::column_none(pages, chunks, index, id) by {
        column_laws::law_no_table_column(pages, chunks, index, layout, cells, id);
    }
}

/// Every attachment has its row in the attachment table, in their order.
pub proof fn law_attachment_is_listed(
    row_ids: Seq<NodeId>,
    files: Seq<UnicodePstAttachment<'_>>,
    row_version: u32,
    table: RebuiltContents,
    index: int,
)
    requires
        attachment::attachment_table(row_ids, files, row_version) == Ok::<_, PstError>(table),
        row_ids.len() == files.len(),
        0 <= index < files.len(),
    ensures
        table.row_ids.len() == files.len(),
        is_attachment_row(table, index, files[index], row_ids[index].value, row_version),
{
    lemma_attachment_columns(
        row_ids,
        files,
        row_version,
        table,
        index,
        attachment::spec_attachment_size(files[index])->Ok_0 as u32,
    );
}

/// The row of an attachment in the attachment table and its property context agree: both have its name, the
/// way it is attached, which is 1, and its length.
pub proof fn law_attachment_row_is_stored(
    row_ids: Seq<NodeId>,
    files: Seq<UnicodePstAttachment<'_>>,
    row_version: u32,
    table: RebuiltContents,
    index: int,
    node: Option<NodeId>,
    context: Seq<u8>,
)
    requires
        attachment::attachment_table(row_ids, files, row_version) == Ok::<_, PstError>(table),
        row_ids.len() == files.len(),
        0 <= index < files.len(),
        attachment::attachment_context(files[index], node) == Ok::<_, PstError>(context),
        node matches Some(node) ==> node.value % 32 != 0,
    ensures
        table.row_ids.len() == files.len(),
        is_attachment_row(table, index, files[index], row_ids[index].value, row_version),
        is_stored_attachment(context, node, files[index]),
        column_laws::column_number(
            table.heap_pages,
            table.row_chunks,
            index,
            0x0E20,
            attachment_length(context, files[index]) as u32,
        ),
{
    let input = files[index];
    law_attachment_is_stored(input, node, context);
    lemma_number_at(
        input,
        node,
        context,
        0,
        0x0E20,
        attachment::spec_attachment_size(input)->Ok_0 as u32,
    );
    let size = attachment_length(context, input) as u32;
    assert(size == attachment::spec_attachment_size(input)->Ok_0 as u32);
    lemma_attachment_columns(row_ids, files, row_version, table, index, size);
}

/// Whether a subnode of a message is an attachment: a reader of its blocks finds the properties and the data.
pub open spec fn attachment_is_found(
    plan: BlockPlan,
    entry: UnicodeLeafSubNodeTreeEntry,
    input: UnicodePstAttachment<'_>,
    index: int,
) -> bool {
    &&& entry.node.value == (0x100 + index) * 32 + 5
    &&& exists|context: Seq<u8>, node: Option<NodeId>|
        plan_laws::data_reads(plan, entry.block, context) && #[trigger] is_stored_attachment(
            context,
            node,
            input,
        ) && match node {
            None => input.data@.len() == 0 && entry.sub_node is None,
            Some(node) => input.data@.len() > 0 && node.value == (0x200 + index) * 32 + 1 && (
            entry.sub_node matches Some(root) && plan_laws::data_tree_reads(
                plan,
                root,
                node,
                input.data@,
            )),
        }
}

/// The subnodes of stored attachments are found by a reader of their blocks.
pub proof fn law_attachment_is_found(
    plan: BlockPlan,
    entry: UnicodeLeafSubNodeTreeEntry,
    input: UnicodePstAttachment<'_>,
    index: int,
)
    requires
        plan_laws::attachment_reads(plan, entry, input, index),
        0 <= index < 0x0800_0000 - 0x100,
    ensures
        attachment_is_found(plan, entry, input, index),
{
    let node = attachment::data_node(input, index)->Ok_0;
    let context = choose|context: Seq<u8>| #[trigger]
        plan_laws::data_reads(plan, entry.block, context) && attachment::attachment_context(
            input,
            node,
        ) == Ok::<_, PstError>(context);
    law_attachment_is_stored(input, node, context);
}

} // verus!
