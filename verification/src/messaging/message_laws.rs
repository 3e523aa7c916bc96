//! What an appended message gives back.

use vstd::prelude::*;

use crate::bytes;
use crate::error::PstError;
use crate::ltp::heap::HeapNodeType;
use crate::ltp::heap_laws;
use crate::ltp::property::{EncodedValue, PropertyType};
use crate::ltp::property_context;
use crate::ltp::property_laws;
use crate::messaging::append;
use crate::messaging::attachment;
use crate::messaging::input::{UnicodePstAttachment, UnicodePstBatchMessage, UnicodePstMessage};
use crate::messaging::message;
use crate::messaging::plan_laws;
use crate::messaging::recipient;
use crate::messaging::update;
use crate::ndb::block::{BlockPlan, UnicodeLeafSubNodeTreeEntry};
use crate::ndb::block_laws;
use crate::ndb::btree::UnicodeNodeBTreeEntry;
use crate::ndb::data_tree;
use crate::ndb::ids::{NodeId, NID_ATTACHMENT_TABLE, NID_RECIPIENT_TABLE};
use crate::ndb::subnode_tree;
use crate::sorting;

verus! {

/// No two properties of a message have the same identifier, and each has a value.
pub proof fn lemma_message_properties(
    input: UnicodePstMessage<'_>,
    has_attachments: bool,
    message: NodeId,
    row_version: u32,
    message_size: u32,
)
    ensures
        ({
            let properties = message::message_properties(
                input,
                has_attachments,
                message,
                row_version,
                message_size,
            );
            &&& property_laws::properties_distinct(properties)
            &&& properties.len() <= 30
            &&& forall|i: int|
                0 <= i < properties.len() ==> (#[trigger] properties[i]).1.prop_type
                    != PropertyType::Null
        }),
{
}

/// The pages of a property context fill their blocks.
pub proof fn lemma_context_pages_full(
    properties: Seq<(u16, EncodedValue)>,
    next_index: u32,
    pages: Seq<Seq<u8>>,
    external: Seq<(NodeId, Seq<u8>)>,
)
    requires
        property_context::spec_property_context_pages(properties, next_index) == Ok::<
            _,
            PstError,
        >((pages, external)),
        properties.len() <= u64::MAX,
    ensures
        block_laws::chunks_full(pages),
{
    property_laws::lemma_context_heap(properties, next_index);
    reveal(property_context::spec_property_context_pages);
    let placed = property_context::with_properties(
        property_context::no_properties(next_index),
        properties,
        0,
    )->Ok_0;
    let (heap_pages, root) = property_context::with_property_tree(
        placed.pages,
        sorting::sorted_by_key(placed.records),
    );
    heap_laws::lemma_heap_pages_full(heap_pages, HeapNodeType::Properties, root->Ok_0, pages);
}

/// Whether the subnodes of a message give it back: its recipient table, its large properties, and its
/// attachment table and attachments, where it has any.
pub open spec fn message_subnodes_read(
    plan: BlockPlan,
    subnodes: Seq<UnicodeLeafSubNodeTreeEntry>,
    input: UnicodePstBatchMessage<'_>,
    external: Seq<(NodeId, Seq<u8>)>,
    row_version: u32,
) -> bool {
    let files = input.attachments@;
    let first = external.len() + 1;
    &&& subnodes.len() == first + if files.len() == 0 {
        0
    } else {
        files.len() + 1
    }
    &&& recipient_table_reads(plan, subnodes[0], input, row_version)
    &&& forall|i: int|
        0 <= i < external.len() ==> plan_laws::external_entry_reads(
            plan,
            #[trigger] subnodes[i + 1],
            external[i],
        )
    &&& files.len() > 0 ==> attachment_table_reads(plan, subnodes[first as int], files, row_version)
    &&& forall|i: int|
        0 <= i < files.len() ==> plan_laws::attachment_reads(
            plan,
            #[trigger] subnodes[first + 1 + i],
            files[i],
            i,
        )
}

/// Whether a subnode entry is that of the recipient table of a message and gives it back.
pub open spec fn recipient_table_reads(
    plan: BlockPlan,
    entry: UnicodeLeafSubNodeTreeEntry,
    input: UnicodePstBatchMessage<'_>,
    row_version: u32,
) -> bool {
    &&& entry.node.value == NID_RECIPIENT_TABLE
    &&& recipient::recipient_table(input.message.recipients@, row_version) matches Ok(table)
        && plan_laws::table_reads(plan, table, entry.block, entry.sub_node)
}

/// Whether a subnode entry is that of the attachment table of a message and gives it back.
pub open spec fn attachment_table_reads(
    plan: BlockPlan,
    entry: UnicodeLeafSubNodeTreeEntry,
    files: Seq<UnicodePstAttachment<'_>>,
    row_version: u32,
) -> bool {
    &&& entry.node.value == NID_ATTACHMENT_TABLE
    &&& attachment::spec_attachment_ids(files.len()) matches Ok(ids)
        && attachment::attachment_table(ids, files, row_version) matches Ok(table)
        && plan_laws::table_reads(plan, table, entry.block, entry.sub_node)
}

proof fn lemma_external_grows(
    before: BlockPlan,
    after: BlockPlan,
    entry: UnicodeLeafSubNodeTreeEntry,
    value: (NodeId, Seq<u8>),
)
    requires
        block_laws::plan_wf(before),
        block_laws::plan_grows(before, after),
        plan_laws::external_entry_reads(before, entry, value),
    ensures
        plan_laws::external_entry_reads(after, entry, value),
{
    plan_laws::lemma_data_reads_grows(before, after, entry.block, value.1);
}

proof fn lemma_subnodes_read_grows(
    before: BlockPlan,
    after: BlockPlan,
    subnodes: Seq<UnicodeLeafSubNodeTreeEntry>,
    input: UnicodePstBatchMessage<'_>,
    external: Seq<(NodeId, Seq<u8>)>,
    row_version: u32,
)
    requires
        block_laws::plan_wf(before),
        block_laws::plan_grows(before, after),
        message_subnodes_read(before, subnodes, input, external, row_version),
    ensures
        message_subnodes_read(after, subnodes, input, external, row_version),
{
    let files = input.attachments@;
    let first = external.len() + 1;
    let table = recipient::recipient_table(input.message.recipients@, row_version)->Ok_0;
    plan_laws::lemma_table_reads_grows(
        before,
        after,
        table,
        subnodes[0].block,
        subnodes[0].sub_node,
    );
    assert forall|i: int| 0 <= i < external.len() implies plan_laws::external_entry_reads(
        after,
        #[trigger] subnodes[i + 1],
        external[i],
    ) by {
        lemma_external_grows(before, after, subnodes[i + 1], external[i]);
    }
    if files.len() > 0 {
        let ids = attachment::spec_attachment_ids(files.len())->Ok_0;
        let table = attachment::attachment_table(ids, files, row_version)->Ok_0;
        let entry = subnodes[first as int];
        plan_laws::lemma_table_reads_grows(before, after, table, entry.block, entry.sub_node);
    }
    assert forall|i: int| 0 <= i < files.len() implies plan_laws::attachment_reads(
        after,
        #[trigger] subnodes[first + 1 + i],
        files[i],
        i,
    ) by {
        plan_laws::lemma_attachment_reads_grows(
            before,
            after,
            subnodes[first + 1 + i],
            files[i],
            i,
        );
    }
}

/// Everything up to the attachments.
proof fn lemma_own_subnodes(
    plan: BlockPlan,
    input: UnicodePstBatchMessage<'_>,
    external: Seq<(NodeId, Seq<u8>)>,
    row_version: u32,
) -> (found: (BlockPlan, Result<Seq<UnicodeLeafSubNodeTreeEntry>, PstError>))
    requires
        block_laws::plan_wf(plan),
    ensures
        block_laws::plan_wf(found.0),
        block_laws::plan_grows(plan, found.0),
        match found.1 {
            Err(error) => append::with_message_subnodes(plan, input, external, row_version) == (
                found.0,
                Err::<Seq<UnicodeLeafSubNodeTreeEntry>, PstError>(error),
            ),
            Ok(subnodes) => ({
                &&& append::with_message_subnodes(plan, input, external, row_version)
                    == attachment::with_attachments(
                    found.0,
                    input.attachments@,
                    row_version,
                    subnodes,
                )
                &&& subnodes.len() == external.len() + 1
                &&& recipient_table_reads(found.0, subnodes[0], input, row_version)
                &&& forall|i: int|
                    0 <= i < external.len() ==> plan_laws::external_entry_reads(
                        found.0,
                        #[trigger] subnodes[i + 1],
                        external[i],
                    )
            }),
        },
{
    let recipients = input.message.recipients@;
    assert(plan.blocks.take(plan.blocks.len() as int) =~= plan.blocks);
    match recipient::recipient_table(recipients, row_version) {
        Err(error) => (plan, Err(error)),
        Ok(table) => {
            plan_laws::law_table_reads_back(plan, table);
            let (first, result) = attachment::with_table(plan, table);
            match result {
                Err(error) => (first, Err(error)),
                Ok((block, sub_node)) => {
                    let entry = UnicodeLeafSubNodeTreeEntry {
                        node: NodeId { value: NID_RECIPIENT_TABLE },
                        block,
                        sub_node,
                    };
                    plan_laws::law_external_reads_back(first, external, 0, seq![entry]);
                    let (second, result) = update::with_external(first, external, 0, seq![entry]);
                    block_laws::lemma_grows_transitive(plan, first, second);
                    plan_laws::lemma_table_reads_grows(first, second, table, block, sub_node);
                    if let Ok(subnodes) = result {
                        assert(subnodes[0] == seq![entry][0]);
                        assert forall|i: int|
                            0 <= i < external.len() implies plan_laws::external_entry_reads(
                            second,
                            #[trigger] subnodes[i + 1],
                            external[i],
                        ) by {
                            assert(plan_laws::external_entry_reads(
                                second,
                                subnodes[i + 1],
                                external[(i + 1) - 1 + 0],
                            ));
                        }
                    }
                    (second, result)
                },
            }
        },
    }
}

/// The subnodes of a message give it back.
pub proof fn law_message_subnodes_read_back(
    plan: BlockPlan,
    input: UnicodePstBatchMessage<'_>,
    external: Seq<(NodeId, Seq<u8>)>,
    row_version: u32,
)
    requires
        block_laws::plan_wf(plan),
    ensures
        ({
            let (after, result) = append::with_message_subnodes(
                plan,
                input,
                external,
                row_version,
            );
            &&& block_laws::plan_wf(after)
            &&& block_laws::plan_grows(plan, after)
            &&& result matches Ok(subnodes) ==> message_subnodes_read(
                after,
                subnodes,
                input,
                external,
                row_version,
            )
        }),
{
    let files = input.attachments@;
    let found = lemma_own_subnodes(plan, input, external, row_version);
    if let (own, Ok(subnodes)) = found {
        if files.len() > 0 {
            assert(own.blocks.take(own.blocks.len() as int) =~= own.blocks);
            if let Ok(ids) = attachment::spec_attachment_ids(files.len()) {
                if let Ok(table) = attachment::attachment_table(ids, files, row_version) {
                    plan_laws::law_table_reads_back(own, table);
                    let (middle, result) = attachment::with_table(own, table);
                    block_laws::lemma_grows_transitive(plan, own, middle);
                    if let Ok((block, sub_node)) = result {
                        lemma_with_files(
                            plan,
                            own,
                            middle,
                            input,
                            external,
                            row_version,
                            subnodes,
                            table,
                            UnicodeLeafSubNodeTreeEntry {
                                node: NodeId { value: NID_ATTACHMENT_TABLE },
                                block,
                                sub_node,
                            },
                        );
                    }
                }
            }
        }
    }
}

/// The attachments behind everything else.
proof fn lemma_with_files(
    plan: BlockPlan,
    own: BlockPlan,
    middle: BlockPlan,
    input: UnicodePstBatchMessage<'_>,
    external: Seq<(NodeId, Seq<u8>)>,
    row_version: u32,
    subnodes: Seq<UnicodeLeafSubNodeTreeEntry>,
    table: crate::ltp::rebuild::RebuiltContents,
    entry: UnicodeLeafSubNodeTreeEntry,
)
    requires
        input.attachments@.len() > 0,
        block_laws::plan_wf(own),
        block_laws::plan_wf(middle),
        block_laws::plan_grows(own, middle),
        block_laws::plan_grows(plan, middle),
        subnodes.len() == external.len() + 1,
        recipient_table_reads(own, subnodes[0], input, row_version),
        forall|i: int|
            0 <= i < external.len() ==> plan_laws::external_entry_reads(
                own,
                #[trigger] subnodes[i + 1],
                external[i],
            ),
        entry.node.value == NID_ATTACHMENT_TABLE,
        attachment::spec_attachment_ids(input.attachments@.len()) matches Ok(ids)
            && attachment::attachment_table(ids, input.attachments@, row_version) == Ok::<
            _,
            PstError,
        >(table),
        plan_laws::table_reads(middle, table, entry.block, entry.sub_node),
    ensures
        ({
            let (after, result) = attachment::with_attachments_from(
                middle,
                input.attachments@,
                0,
                subnodes.push(entry),
            );
            &&& block_laws::plan_wf(after)
            &&& block_laws::plan_grows(plan, after)
            &&& result matches Ok(entries) ==> message_subnodes_read(
                after,
                entries,
                input,
                external,
                row_version,
            )
        }),
{
    let files = input.attachments@;
    let done = subnodes.push(entry);
    let first = external.len() + 1;
    plan_laws::law_attachments_read_back(middle, files, 0, done);
    let (after, result) = attachment::with_attachments_from(middle, files, 0, done);
    block_laws::lemma_grows_transitive(plan, middle, after);
    block_laws::lemma_grows_transitive(own, middle, after);
    plan_laws::lemma_table_reads_grows(middle, after, table, entry.block, entry.sub_node);
    let own_table = recipient::recipient_table(input.message.recipients@, row_version)->Ok_0;
    plan_laws::lemma_table_reads_grows(
        own,
        after,
        own_table,
        subnodes[0].block,
        subnodes[0].sub_node,
    );
    if let Ok(entries) = result {
        assert(entries[0] == done[0]);
        assert(entries[first as int] == done[first as int]);
        assert forall|i: int| 0 <= i < external.len() implies plan_laws::external_entry_reads(
            after,
            #[trigger] entries[i + 1],
            external[i],
        ) by {
            assert(entries[i + 1] == done[i + 1]);
            assert(done[i + 1] == subnodes[i + 1]);
            lemma_external_grows(own, after, subnodes[i + 1], external[i]);
        }
        assert forall|i: int| 0 <= i < files.len() implies plan_laws::attachment_reads(
            after,
            #[trigger] entries[first + 1 + i],
            files[i],
            i,
        ) by {
            let k = first + 1 + i;
            assert(k - done.len() + 0 == i);
            assert(plan_laws::attachment_reads(
                after,
                entries[k],
                files[k - done.len() + 0],
                k - done.len() + 0,
            ));
        }
    }
}

/// Whether the blocks of a message give it back: its property context, which fills `data`, and its
/// subnodes.
pub open spec fn message_reads(
    plan: BlockPlan,
    entry: UnicodeNodeBTreeEntry,
    input: UnicodePstBatchMessage<'_>,
    message: NodeId,
    message_size: i32,
    row_version: u32,
    data: Seq<u8>,
    external: Seq<(NodeId, Seq<u8>)>,
    subnodes: Seq<UnicodeLeafSubNodeTreeEntry>,
) -> bool {
    &&& message::message_context(
        input.message,
        input.attachments@.len() > 0,
        message,
        row_version,
        message_size as u32,
    ) == Ok::<_, PstError>((data_tree::data_chunks(data), external))
    &&& plan_laws::data_reads(plan, entry.data, data)
    &&& entry.sub_node matches Some(root) && plan_laws::subnodes_read(
        plan,
        root,
        sorting::sorted_by_key(subnodes),
    )
    &&& message_subnodes_read(plan, subnodes, input, external, row_version)
}

/// Whether the blocks of a message give it back.
pub open spec fn message_is(
    plan: BlockPlan,
    entry: UnicodeNodeBTreeEntry,
    input: UnicodePstBatchMessage<'_>,
    message: NodeId,
    message_size: i32,
    row_version: u32,
) -> bool {
    exists|
        data: Seq<u8>,
        external: Seq<(NodeId, Seq<u8>)>,
        subnodes: Seq<UnicodeLeafSubNodeTreeEntry>,
    |
        message_reads(
            plan,
            entry,
            input,
            message,
            message_size,
            row_version,
            data,
            external,
            subnodes,
        )
}

/// A planned message gives back everything that was given: its property context, its recipients, its
/// large properties and its attachments. Planning it only adds blocks.
pub proof fn law_message_reads_back(
    plan: BlockPlan,
    input: UnicodePstBatchMessage<'_>,
    message: NodeId,
    message_size: i32,
    folder: NodeId,
    row_version: u32,
)
    requires
        block_laws::plan_wf(plan),
    ensures
        ({
            let (after, result) = append::with_message(
                plan,
                input,
                message,
                message_size,
                folder,
                row_version,
            );
            &&& block_laws::plan_wf(after)
            &&& block_laws::plan_grows(plan, after)
            &&& result matches Ok(entry) ==> entry.node == message && entry.parent == Some(folder)
                && message_is(after, entry, input, message, message_size, row_version)
        }),
{
    reveal(append::with_message);
    assert(plan.blocks.take(plan.blocks.len() as int) =~= plan.blocks);
    let has_attachments = input.attachments@.len() > 0;
    let context = message::message_context(
        input.message,
        has_attachments,
        message,
        row_version,
        message_size as u32,
    );
    if let Ok((pages, external)) = context {
        lemma_message_properties(
            input.message,
            has_attachments,
            message,
            row_version,
            message_size as u32,
        );
        lemma_context_pages_full(
            message::message_properties(
                input.message,
                has_attachments,
                message,
                row_version,
                message_size as u32,
            ),
            message::FIRST_PROPERTY_INDEX,
            pages,
            external,
        );
        block_laws::law_full_chunks_split(pages);
        block_laws::law_data_tree_round_trip(plan, pages);
        let data = bytes::concat(pages);
        let (first, result) = data_tree::with_data_tree(plan, pages);
        if let Ok(block) = result {
            assert(plan_laws::data_reads(first, block, data));
            law_message_subnodes_read_back(first, input, external, row_version);
            let (second, result) = append::with_message_subnodes(
                first,
                input,
                external,
                row_version,
            );
            block_laws::lemma_grows_transitive(plan, first, second);
            if let Ok(subnodes) = result {
                block_laws::law_subnode_tree_round_trip(second, subnodes);
                let (after, result) = subnode_tree::with_subnode_tree(second, subnodes);
                block_laws::lemma_grows_transitive(plan, second, after);
                block_laws::lemma_grows_transitive(first, second, after);
                plan_laws::lemma_data_reads_grows(first, after, block, data);
                lemma_subnodes_read_grows(second, after, subnodes, input, external, row_version);
                if let Ok(root) = result {
                    assert(plan_laws::subnodes_read(
                        after,
                        root,
                        sorting::sorted_by_key(subnodes),
                    ));
                    let entry = UnicodeNodeBTreeEntry {
                        node: message,
                        data: block,
                        sub_node: Some(root),
                        parent: Some(folder),
                    };
                    assert(message_reads(
                        after,
                        entry,
                        input,
                        message,
                        message_size,
                        row_version,
                        data,
                        external,
                        subnodes,
                    ));
                    assert(message_is(
                        after,
                        entry,
                        input,
                        message,
                        message_size,
                        row_version,
                    ));
                }
            }
        }
    }
}

/// The property context of a message gives back each of its properties, its body and its HTML among
/// them.
pub proof fn law_message_properties_read_back(
    input: UnicodePstMessage<'_>,
    has_attachments: bool,
    message: NodeId,
    row_version: u32,
    message_size: u32,
    pages: Seq<Seq<u8>>,
    external: Seq<(NodeId, Seq<u8>)>,
    at: int,
)
    requires
        message::message_context(input, has_attachments, message, row_version, message_size)
            == Ok::<_, PstError>((pages, external)),
        0 <= at < message::message_properties(
            input,
            has_attachments,
            message,
            row_version,
            message_size,
        ).len(),
    ensures
        ({
            let (id, value) = message::message_properties(
                input,
                has_attachments,
                message,
                row_version,
                message_size,
            )[at];
            property_laws::is_value(property_laws::property_in_pages(pages, id), external, value)
        }),
{
    let properties = message::message_properties(
        input,
        has_attachments,
        message,
        row_version,
        message_size,
    );
    lemma_message_properties(input, has_attachments, message, row_version, message_size);
    property_laws::lemma_first_property_at(properties, 0, at);
    property_laws::law_property_context_reads_back(
        properties,
        message::FIRST_PROPERTY_INDEX,
        pages,
        external,
        properties[at].0,
    );
}

} // verus!
