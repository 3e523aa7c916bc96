//! What a reader finds of a whole stored message: its properties, its recipients and its attachments.

use vstd::prelude::*;

use crate::ltp::rebuild::RebuiltContents;
use crate::messaging::attachment;
use crate::messaging::input::UnicodePstBatchMessage;
use crate::messaging::message_laws;
use crate::messaging::plan_laws;
use crate::messaging::recipient;
use crate::messaging::row_laws;
use crate::messaging::stored_attachment_laws;
use crate::messaging::stored_laws;
use crate::messaging::stored_row_laws;
use crate::ndb::block::{BlockPlan, UnicodeLeafSubNodeTreeEntry};
use crate::ndb::btree::UnicodeNodeBTreeEntry;
use crate::ndb::data_tree;
use crate::ndb::ids::NodeId;

verus! {

/// Whether a subnode holds a recipient table with a row for every recipient of a message.
pub open spec fn holds_recipients(
    plan: BlockPlan,
    subnode: UnicodeLeafSubNodeTreeEntry,
    input: UnicodePstBatchMessage<'_>,
    row_version: u32,
    table: RebuiltContents,
) -> bool {
    &&& subnode.node.value == 0x692
    &&& plan_laws::table_reads(plan, table, subnode.block, subnode.sub_node)
    &&& table.row_ids.len() == input.message.recipients@.len()
    &&& forall|i: int|
        0 <= i < input.message.recipients@.len() ==> #[trigger] stored_row_laws::is_stored_recipient(
            table,
            i,
            input.message.recipients@[i],
            row_version,
        )
}

/// Whether a subnode holds an attachment table with a row for every attachment of a message.
pub open spec fn holds_attachments(
    plan: BlockPlan,
    subnode: UnicodeLeafSubNodeTreeEntry,
    input: UnicodePstBatchMessage<'_>,
    row_version: u32,
    table: RebuiltContents,
) -> bool {
    &&& subnode.node.value == 0x671
    &&& plan_laws::table_reads(plan, table, subnode.block, subnode.sub_node)
    &&& table.row_ids.len() == input.attachments@.len()
    &&& forall|i: int|
        0 <= i < input.attachments@.len() ==> #[trigger] stored_attachment_laws::is_attachment_row(
            table,
            i,
            input.attachments@[i],
            ((0x100 + i) * 32 + 5) as u32,
            row_version,
        )
}

/// Whether a subnode is the recipient table of a message.
pub open spec fn recipients_are_found(
    plan: BlockPlan,
    subnode: UnicodeLeafSubNodeTreeEntry,
    input: UnicodePstBatchMessage<'_>,
    row_version: u32,
) -> bool {
    exists|table: RebuiltContents| holds_recipients(plan, subnode, input, row_version, table)
}

/// Whether a subnode is the attachment table of a message.
pub open spec fn attachments_are_found(
    plan: BlockPlan,
    subnode: UnicodeLeafSubNodeTreeEntry,
    input: UnicodePstBatchMessage<'_>,
    row_version: u32,
) -> bool {
    exists|table: RebuiltContents| holds_attachments(plan, subnode, input, row_version, table)
}

proof fn lemma_recipients(
    plan: BlockPlan,
    subnode: UnicodeLeafSubNodeTreeEntry,
    input: UnicodePstBatchMessage<'_>,
    row_version: u32,
) -> (table: RebuiltContents)
    requires
        message_laws::recipient_table_reads(plan, subnode, input, row_version),
    ensures
        holds_recipients(plan, subnode, input, row_version, table),
{
    let recipients = input.message.recipients@;
    let table = recipient::recipient_table(recipients, row_version)->Ok_0;
    assert forall|i: int| 0 <= i < recipients.len() implies #[trigger] stored_row_laws::is_stored_recipient(
        table,
        i,
        recipients[i],
        row_version,
    ) by {
        stored_row_laws::law_recipient_is_stored(recipients, row_version, table, i);
    }
    if recipients.len() > 0 {
        stored_row_laws::law_recipient_is_stored(recipients, row_version, table, 0);
    } else {
        row_laws::law_no_recipients(recipients, row_version, table);
    }
    table
}

proof fn lemma_attachment_table(
    plan: BlockPlan,
    subnode: UnicodeLeafSubNodeTreeEntry,
    input: UnicodePstBatchMessage<'_>,
    row_version: u32,
) -> (table: RebuiltContents)
    requires
        message_laws::attachment_table_reads(plan, subnode, input.attachments@, row_version),
        input.attachments@.len() > 0,
    ensures
        holds_attachments(plan, subnode, input, row_version, table),
{
    let files = input.attachments@;
    let ids = attachment::spec_attachment_ids(files.len())->Ok_0;
    let table = attachment::attachment_table(ids, files, row_version)->Ok_0;
    assert forall|i: int|
        0 <= i < files.len() implies #[trigger] stored_attachment_laws::is_attachment_row(
        table,
        i,
        files[i],
        ((0x100 + i) * 32 + 5) as u32,
        row_version,
    ) by {
        stored_attachment_laws::law_attachment_is_listed(ids, files, row_version, table, i);
        assert(ids[i] == attachment::attachment_node(i));
    }
    stored_attachment_laws::law_attachment_is_listed(ids, files, row_version, table, 0);
    table
}

/// The blocks of a stored message hold all of it: the properties of the message, a recipient table with every
/// recipient in its order, and where it has attachments an attachment table with every attachment in its order
/// and each attachment with its data.
pub proof fn law_message_is_found(
    plan: BlockPlan,
    entry: UnicodeNodeBTreeEntry,
    input: UnicodePstBatchMessage<'_>,
    message: NodeId,
    message_size: i32,
    row_version: u32,
    data: Seq<u8>,
    external: Seq<(NodeId, Seq<u8>)>,
    subnodes: Seq<UnicodeLeafSubNodeTreeEntry>,
)
    requires
        message_laws::message_reads(
            plan,
            entry,
            input,
            message,
            message_size,
            row_version,
            data,
            external,
            subnodes,
        ),
    ensures
        plan_laws::data_reads(plan, entry.data, data),
        stored_laws::is_stored_message(
            data_tree::data_chunks(data),
            external,
            input.message,
            input.attachments@.len() > 0,
            message,
            row_version,
            message_size as u32,
        ),
        recipients_are_found(plan, subnodes[0], input, row_version),
        input.attachments@.len() > 0 ==> attachments_are_found(
            plan,
            subnodes[external.len() + 1int],
            input,
            row_version,
        ),
        forall|i: int|
            0 <= i < input.attachments@.len() ==> stored_attachment_laws::attachment_is_found(
                plan,
                #[trigger] subnodes[external.len() + 2 + i],
                input.attachments@[i],
                i,
            ),
{
    let files = input.attachments@;
    stored_laws::law_message_is_stored(
        input.message,
        files.len() > 0,
        message,
        row_version,
        message_size as u32,
        data_tree::data_chunks(data),
        external,
    );
    let recipients = lemma_recipients(plan, subnodes[0], input, row_version);
    assert(holds_recipients(plan, subnodes[0], input, row_version, recipients));
    if files.len() > 0 {
        let first = external.len() + 1;
        let table = lemma_attachment_table(plan, subnodes[first as int], input, row_version);
        assert(holds_attachments(plan, subnodes[first as int], input, row_version, table));
        assert forall|i: int|
            0 <= i < files.len() implies stored_attachment_laws::attachment_is_found(
            plan,
            #[trigger] subnodes[external.len() + 2 + i],
            files[i],
            i,
        ) by {
            assert(plan_laws::attachment_reads(plan, subnodes[first + 1 + i], files[i], i));
            stored_attachment_laws::law_attachment_is_found(
                plan,
                subnodes[first + 1 + i],
                files[i],
                i,
            );
        }
    }
}

} // verus!
