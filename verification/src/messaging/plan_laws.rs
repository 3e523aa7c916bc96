//! What the planned blocks of messages give back.

use vstd::prelude::*;

use crate::bytes;
use crate::error::PstError;
use crate::ltp::property_context;
use crate::ltp::property_laws;
use crate::ltp::property_laws::ReadValue;
use crate::ltp::rebuild::RebuiltContents;
use crate::messaging::attachment;
use crate::messaging::input::UnicodePstAttachment;
use crate::messaging::recipient::ROWS_NODE;
use crate::messaging::update;
use crate::ndb::block;
use crate::ndb::block::{BlockContents, BlockPlan, UnicodeLeafSubNodeTreeEntry};
use crate::ndb::block_laws;
use crate::ndb::data_tree;
use crate::ndb::ids::{NodeId, UnicodeBlockId};
use crate::ndb::subnode_tree;
use crate::sorting;

verus! {

/// Whether the data tree below a block gives back the given bytes.
pub open spec fn data_reads(plan: BlockPlan, id: UnicodeBlockId, data: Seq<u8>) -> bool {
    exists|height: nat| block_laws::read_data(plan.blocks, id, height) == Some(data)
}

/// Whether the subnode tree below a block gives back the given entries.
pub open spec fn subnodes_read(
    plan: BlockPlan,
    id: UnicodeBlockId,
    entries: Seq<UnicodeLeafSubNodeTreeEntry>,
) -> bool {
    exists|height: nat| block_laws::read_subnodes(plan.blocks, id, height) == Some(entries)
}

pub proof fn lemma_data_reads_grows(
    before: BlockPlan,
    after: BlockPlan,
    id: UnicodeBlockId,
    data: Seq<u8>,
)
    requires
        block_laws::plan_wf(before),
        block_laws::plan_grows(before, after),
        data_reads(before, id, data),
    ensures
        data_reads(after, id, data),
{
    let height = choose|height: nat|
        block_laws::read_data(before.blocks, id, height) == Some(data);
    block_laws::law_read_data_grows(before, after, id, height);
}

pub proof fn lemma_subnodes_read_grows(
    before: BlockPlan,
    after: BlockPlan,
    id: UnicodeBlockId,
    entries: Seq<UnicodeLeafSubNodeTreeEntry>,
)
    requires
        block_laws::plan_wf(before),
        block_laws::plan_grows(before, after),
        subnodes_read(before, id, entries),
    ensures
        subnodes_read(after, id, entries),
{
    let height = choose|height: nat|
        block_laws::read_subnodes(before.blocks, id, height) == Some(entries);
    block_laws::law_read_subnodes_grows(before, after, id, height);
}

/// Values in subnodes are found again: each has a subnode entry of its own, whose data is the value.
pub proof fn law_external_reads_back(
    plan: BlockPlan,
    external: Seq<(NodeId, Seq<u8>)>,
    index: int,
    subnodes: Seq<UnicodeLeafSubNodeTreeEntry>,
)
    requires
        block_laws::plan_wf(plan),
        0 <= index <= external.len(),
    ensures
        ({
            let (after, result) = update::with_external(plan, external, index, subnodes);
            &&& block_laws::plan_wf(after)
            &&& block_laws::plan_grows(plan, after)
            &&& result matches Ok(entries) ==> ({
                &&& entries.len() == subnodes.len() + external.len() - index
                &&& forall|i: int| 0 <= i < subnodes.len() ==> #[trigger] entries[i] == subnodes[i]
                &&& forall|i: int|
                    subnodes.len() <= i < entries.len() ==> external_entry_reads(
                        after,
                        #[trigger] entries[i],
                        external[i - subnodes.len() + index],
                    )
            })
        }),
    decreases external.len() - index,
{
    if index < external.len() {
        let (node, data) = external[index];
        let chunks = data_tree::data_chunks(data);
        block_laws::law_data_tree_round_trip(plan, chunks);
        block_laws::law_data_chunks_join(data);
        let (next, result) = data_tree::with_data_tree(plan, chunks);
        if let Ok(block) = result {
            let entry = UnicodeLeafSubNodeTreeEntry { node, block, sub_node: None };
            let grown = subnodes.push(entry);
            assert(data_reads(next, block, data));
            law_external_reads_back(next, external, index + 1, grown);
            let (after, rest) = update::with_external(next, external, index + 1, grown);
            block_laws::lemma_grows_transitive(plan, next, after);
            lemma_data_reads_grows(next, after, block, data);
            if let Ok(entries) = rest {
                assert forall|i: int|
                    subnodes.len() <= i < entries.len() implies external_entry_reads(
                    after,
                    #[trigger] entries[i],
                    external[i - subnodes.len() + index],
                ) by {
                    if i == subnodes.len() {
                        assert(entries[i] == grown[i]);
                    } else {
                        assert(i - grown.len() + (index + 1) == i - subnodes.len() + index);
                    }
                }
                assert forall|i: int| 0 <= i < subnodes.len() implies #[trigger] entries[i]
                    == subnodes[i] by {
                    assert(entries[i] == grown[i]);
                }
            }
        }
    } else {
        assert(plan.blocks.take(plan.blocks.len() as int) =~= plan.blocks);
    }
}

/// Whether a subnode entry is that of a value, and its data tree gives the value back.
pub open spec fn external_entry_reads(
    plan: BlockPlan,
    entry: UnicodeLeafSubNodeTreeEntry,
    value: (NodeId, Seq<u8>),
) -> bool {
    entry.node == value.0 && entry.sub_node is None && data_reads(plan, entry.block, value.1)
}

/// Whether the blocks of a table give it back: its heap, and its rows in a subnode where it has any.
pub open spec fn table_reads(
    plan: BlockPlan,
    table: RebuiltContents,
    block: UnicodeBlockId,
    sub_node: Option<UnicodeBlockId>,
) -> bool {
    &&& data_reads(plan, block, bytes::concat(data_tree::filled_chunks(table.heap_pages)))
    &&& match sub_node {
        None => table.row_ids.len() == 0,
        Some(root) => table.row_ids.len() > 0 && rows_tree_reads(plan, root, table.row_chunks),
    }
}

/// The subnodes of a new table: its rows.
pub open spec fn rows_entries(rows: UnicodeBlockId) -> Seq<UnicodeLeafSubNodeTreeEntry> {
    seq![
        UnicodeLeafSubNodeTreeEntry {
            node: NodeId { value: 0x1001 },
            block: rows,
            sub_node: None,
        },
    ]
}

pub proof fn lemma_table_reads_grows(
    before: BlockPlan,
    after: BlockPlan,
    table: RebuiltContents,
    block: UnicodeBlockId,
    sub_node: Option<UnicodeBlockId>,
)
    requires
        block_laws::plan_wf(before),
        block_laws::plan_grows(before, after),
        table_reads(before, table, block, sub_node),
    ensures
        table_reads(after, table, block, sub_node),
{
    lemma_data_reads_grows(
        before,
        after,
        block,
        bytes::concat(data_tree::filled_chunks(table.heap_pages)),
    );
    if let Some(root) = sub_node {
        let data = bytes::concat(data_tree::filled_chunks(table.row_chunks));
        let rows = choose|rows: UnicodeBlockId| #[trigger]
            subnodes_read(before, root, rows_entries(rows)) && data_reads(before, rows, data);
        lemma_subnodes_read_grows(before, after, root, rows_entries(rows));
        lemma_data_reads_grows(before, after, rows, data);
    }
}

/// The plan with rows in a subnode tree of their own.
spec fn with_rows_tree(plan: BlockPlan, chunks: Seq<Seq<u8>>) -> (
    BlockPlan,
    Result<UnicodeBlockId, PstError>,
) {
    match data_tree::with_data_tree(plan, chunks) {
        (after, Err(error)) => (after, Err(error)),
        (after, Ok(rows)) => subnode_tree::with_subnode_tree(after, rows_entries(rows)),
    }
}

/// Whether a subnode tree of rows gives them back.
pub open spec fn rows_tree_reads(
    plan: BlockPlan,
    root: UnicodeBlockId,
    chunks: Seq<Seq<u8>>,
) -> bool {
    exists|rows: UnicodeBlockId| #[trigger]
        subnodes_read(plan, root, rows_entries(rows)) && data_reads(
            plan,
            rows,
            bytes::concat(data_tree::filled_chunks(chunks)),
        )
}

proof fn lemma_rows_tree(plan: BlockPlan, chunks: Seq<Seq<u8>>)
    requires
        block_laws::plan_wf(plan),
    ensures
        block_laws::plan_wf(with_rows_tree(plan, chunks).0),
        block_laws::plan_grows(plan, with_rows_tree(plan, chunks).0),
        with_rows_tree(plan, chunks).1 matches Ok(root) ==> rows_tree_reads(
            with_rows_tree(plan, chunks).0,
            root,
            chunks,
        ),
{
    let data = bytes::concat(data_tree::filled_chunks(chunks));
    block_laws::law_data_tree_round_trip(plan, chunks);
    let (middle, result) = data_tree::with_data_tree(plan, chunks);
    if let Ok(rows) = result {
        let entries = rows_entries(rows);
        assert(data_reads(middle, rows, data));
        block_laws::law_subnode_tree_round_trip(middle, entries);
        lemma_sorted_single(entries[0]);
        let (after, result) = subnode_tree::with_subnode_tree(middle, entries);
        block_laws::lemma_grows_transitive(plan, middle, after);
        lemma_data_reads_grows(middle, after, rows, data);
        if let Ok(root) = result {
            assert(subnodes_read(after, root, rows_entries(rows)));
        }
    }
}

/// The blocks of a table give it back.
pub proof fn law_table_reads_back(plan: BlockPlan, table: RebuiltContents)
    requires
        block_laws::plan_wf(plan),
    ensures
        ({
            let (after, result) = attachment::with_table(plan, table);
            &&& block_laws::plan_wf(after)
            &&& block_laws::plan_grows(plan, after)
            &&& result matches Ok((block, sub_node)) ==> table_reads(after, table, block, sub_node)
        }),
{
    let data = bytes::concat(data_tree::filled_chunks(table.heap_pages));
    block_laws::law_data_tree_round_trip(plan, table.heap_pages);
    let (first, result) = data_tree::with_data_tree(plan, table.heap_pages);
    if let Ok(block) = result {
        assert(data_reads(first, block, data));
        if table.row_ids.len() > 0 {
            lemma_rows_tree(first, table.row_chunks);
            let (after, result) = with_rows_tree(first, table.row_chunks);
            block_laws::lemma_grows_transitive(plan, first, after);
            lemma_data_reads_grows(first, after, block, data);
        }
    }
}

/// One entry is sorted.
pub proof fn lemma_sorted_single(entry: UnicodeLeafSubNodeTreeEntry)
    ensures
        sorting::sorted_by_key(seq![entry]) == seq![entry],
{
    let entries = seq![entry];
    assert(sorting::sorted_prefix(entries, 0) =~= Seq::empty());
    assert(sorting::sorted_prefix(entries, 1) == sorting::inserted(
        sorting::sorted_prefix(entries, 0),
        entry,
    ));
    assert(sorting::sorted_by_key(entries) =~= entries);
}

/// Whether the blocks of an attachment give back a property of it.
pub open spec fn attachment_property(
    plan: BlockPlan,
    entry: UnicodeLeafSubNodeTreeEntry,
    id: u16,
    code: int,
    value: ReadValue,
) -> bool {
    exists|data: Seq<u8>| #[trigger]
        data_reads(plan, entry.block, data) && property_laws::property_in_pages(seq![data], id)
            == Some((code, value))
}

/// Whether the subnode entry of an attachment gives back its data: in a subnode that its property names,
/// or nothing where it is empty.
pub open spec fn attachment_data_reads(
    plan: BlockPlan,
    entry: UnicodeLeafSubNodeTreeEntry,
    data: Seq<u8>,
) -> bool {
    match entry.sub_node {
        None => data.len() == 0 && attachment_property(
            plan,
            entry,
            0x3701,
            0x0102,
            ReadValue::Bytes(Seq::empty()),
        ),
        Some(root) => exists|node: NodeId| #[trigger]
            data_tree_reads(plan, root, node, data) && attachment_property(
                plan,
                entry,
                0x3701,
                0x0102,
                ReadValue::Node(node),
            ),
    }
}

/// The subnodes of an attachment: its data.
pub open spec fn data_entries(node: NodeId, block: UnicodeBlockId) -> Seq<
    UnicodeLeafSubNodeTreeEntry,
> {
    seq![UnicodeLeafSubNodeTreeEntry { node, block, sub_node: None }]
}

/// The property context of an attachment gives back each of its properties.
pub proof fn law_attachment_properties_read_back(
    input: UnicodePstAttachment<'_>,
    node: Option<NodeId>,
    context: Seq<u8>,
    at: int,
)
    requires
        attachment::attachment_context(input, node) == Ok::<_, PstError>(context),
        node matches Some(node) ==> node.value % 32 != 0,
        0 <= at < attachment::attachment_properties(
            input,
            attachment::spec_attachment_size(input)->Ok_0 as u32,
            attachment::content_id(input)->Ok_0,
        ).len(),
    ensures
        ({
            let property = attachment::attachment_properties(
                input,
                attachment::spec_attachment_size(input)->Ok_0 as u32,
                attachment::content_id(input)->Ok_0,
            )[at];
            property_laws::is_simple(
                property_laws::property_in_pages(seq![context], property.id),
                attachment::data_nodes(node),
                property,
            )
        }),
{
    let properties = attachment::attachment_properties(
        input,
        attachment::spec_attachment_size(input)->Ok_0 as u32,
        attachment::content_id(input)->Ok_0,
    );
    let nodes = attachment::data_nodes(node);
    let property = properties[at];
    assert(property_laws::simple_distinct(properties));
    property_laws::lemma_first_simple_at(properties, 0, at);
    assert(node is Some ==> nodes[0].0 == 0x3701);
    assert(property_laws::simple_wf(property, nodes)) by {
        reveal_with_fuel(property_context::node_of, 3);
    }
    property_laws::law_simple_context_reads_back(properties, nodes, context, property.id);
}

/// The subnode with the data of an attachment has an identifier with a type.
proof fn lemma_data_node(input: UnicodePstAttachment<'_>, index: int)
    ensures
        attachment::data_node(input, index) matches Ok(Some(node)) ==> node.value % 32 != 0,
{
}

/// Whether the blocks of an attachment give it back: its property context and its data.
pub open spec fn attachment_reads(
    plan: BlockPlan,
    entry: UnicodeLeafSubNodeTreeEntry,
    input: UnicodePstAttachment<'_>,
    index: int,
) -> bool {
    &&& entry.node == attachment::attachment_node(index)
    &&& 0 <= index < 0x7FF_FF00 ==> entry.node.value == (0x100 + index) * 32 + 5
    &&& attachment::data_node(input, index) matches Ok(node) && (exists|context: Seq<u8>| #[trigger]
        data_reads(plan, entry.block, context) && attachment::attachment_context(input, node)
            == Ok::<_, PstError>(context)) && match node {
        None => entry.sub_node is None,
        Some(node) => (entry.sub_node matches Some(root) && data_tree_reads(
            plan,
            root,
            node,
            input.data@,
        )),
    }
    &&& attachment_data_reads(plan, entry, input.data@)
}

proof fn lemma_attachment_data(
    plan: BlockPlan,
    input: UnicodePstAttachment<'_>,
    node: Option<NodeId>,
)
    requires
        block_laws::plan_wf(plan),
    ensures
        ({
            let (after, result) = attachment::with_attachment_data(plan, input, node);
            &&& block_laws::plan_wf(after)
            &&& block_laws::plan_grows(plan, after)
            &&& result matches Ok(sub_node) ==> match node {
                None => sub_node is None,
                Some(node) => sub_node matches Some(root) && data_tree_reads(
                    after,
                    root,
                    node,
                    input.data@,
                ),
            }
        }),
{
    if let Some(node) = node {
        let chunks = data_tree::data_chunks(input.data@);
        block_laws::law_data_tree_round_trip(plan, chunks);
        block_laws::law_data_chunks_join(input.data@);
        let (middle, result) = data_tree::with_data_tree(plan, chunks);
        if let Ok(block) = result {
            assert(data_reads(middle, block, input.data@));
            let contents = BlockContents::SubNodes(data_entries(node, block));
            block_laws::law_next_block(middle, true, contents);
            let (after, result) = block::with_next_block(middle, true, contents);
            block_laws::lemma_grows_transitive(plan, middle, after);
            lemma_data_reads_grows(middle, after, block, input.data@);
            if let Ok(root) = result {
                block_laws::lemma_find_last(after);
                assert(block_laws::read_subnodes(after.blocks, root, 0) == Some(
                    data_entries(node, block),
                ));
                assert(subnodes_read(after, root, data_entries(node, block)));
            }
        }
    } else {
        assert(plan.blocks.take(plan.blocks.len() as int) =~= plan.blocks);
    }
}

/// Whether a subnode tree holds a single node with the given data.
pub open spec fn data_tree_reads(
    plan: BlockPlan,
    root: UnicodeBlockId,
    node: NodeId,
    data: Seq<u8>,
) -> bool {
    exists|block: UnicodeBlockId| #[trigger]
        subnodes_read(plan, root, data_entries(node, block)) && data_reads(plan, block, data)
}

proof fn lemma_data_tree_reads_grows(
    before: BlockPlan,
    after: BlockPlan,
    root: UnicodeBlockId,
    node: NodeId,
    data: Seq<u8>,
)
    requires
        block_laws::plan_wf(before),
        block_laws::plan_grows(before, after),
        data_tree_reads(before, root, node, data),
    ensures
        data_tree_reads(after, root, node, data),
{
    let block = choose|block: UnicodeBlockId| #[trigger]
        subnodes_read(before, root, data_entries(node, block)) && data_reads(before, block, data);
    lemma_subnodes_read_grows(before, after, root, data_entries(node, block));
    lemma_data_reads_grows(before, after, block, data);
}

/// The property of an attachment that stands for its data.
proof fn lemma_data_property(
    input: UnicodePstAttachment<'_>,
    node: Option<NodeId>,
    context: Seq<u8>,
)
    requires
        attachment::attachment_context(input, node) == Ok::<_, PstError>(context),
        node matches Some(node) ==> node.value % 32 != 0,
    ensures
        property_laws::property_in_pages(seq![context], 0x3701) == Some(
            (
                0x0102int,
                match node {
                    Some(node) => ReadValue::Node(node),
                    None => ReadValue::Bytes(Seq::empty()),
                },
            ),
        ),
{
    law_attachment_properties_read_back(input, node, context, 1);
    reveal_with_fuel(property_context::node_of, 3);
}

/// A block of data gives it back.
pub proof fn lemma_data_block(plan: BlockPlan, data: Seq<u8>)
    requires
        block_laws::plan_wf(plan),
    ensures
        ({
            let (after, result) = block::with_next_block(plan, false, BlockContents::Data(data));
            &&& block_laws::plan_wf(after)
            &&& block_laws::plan_grows(plan, after)
            &&& result matches Ok(block) ==> data_reads(after, block, data)
        }),
{
    block_laws::law_next_block(plan, false, BlockContents::Data(data));
    let (after, result) = block::with_next_block(plan, false, BlockContents::Data(data));
    if let Ok(block) = result {
        block_laws::lemma_find_last(after);
        assert(block_laws::read_data(after.blocks, block, 0) == Some(data));
    }
}

proof fn lemma_attachment_entry(
    plan: BlockPlan,
    input: UnicodePstAttachment<'_>,
    index: int,
    node: Option<NodeId>,
    context: Seq<u8>,
    entry: UnicodeLeafSubNodeTreeEntry,
)
    requires
        attachment::data_node(input, index) == Ok::<_, PstError>(node),
        attachment::attachment_context(input, node) == Ok::<_, PstError>(context),
        data_reads(plan, entry.block, context),
        entry.node == attachment::attachment_node(index),
        match node {
            None => entry.sub_node is None,
            Some(node) => entry.sub_node matches Some(root) && data_tree_reads(
                plan,
                root,
                node,
                input.data@,
            ),
        },
    ensures
        attachment_reads(plan, entry, input, index),
{
    lemma_data_node(input, index);
    lemma_data_property(input, node, context);
    match node {
        None => {
            assert(attachment_property(
                plan,
                entry,
                0x3701,
                0x0102,
                ReadValue::Bytes(Seq::empty()),
            ));
        },
        Some(node) => {
            assert(attachment_property(plan, entry, 0x3701, 0x0102, ReadValue::Node(node)));
        },
    }
}

/// The blocks of an attachment give it back: its property context, and its data to the byte. An empty
/// attachment has no data node.
pub proof fn law_attachment_reads_back(
    plan: BlockPlan,
    input: UnicodePstAttachment<'_>,
    index: int,
)
    requires
        block_laws::plan_wf(plan),
    ensures
        ({
            let (after, result) = attachment::with_attachment(plan, input, index);
            &&& block_laws::plan_wf(after)
            &&& block_laws::plan_grows(plan, after)
            &&& result matches Ok(entry) ==> attachment_reads(after, entry, input, index)
        }),
{
    assert(plan.blocks.take(plan.blocks.len() as int) =~= plan.blocks);
    if let Ok(node) = attachment::data_node(input, index) {
        lemma_attachment_data(plan, input, node);
        let (middle, result) = attachment::with_attachment_data(plan, input, node);
        if let Ok(sub_node) = result {
            if let Ok(context) = attachment::attachment_context(input, node) {
                lemma_data_block(middle, context);
                let (after, result) = block::with_next_block(
                    middle,
                    false,
                    BlockContents::Data(context),
                );
                block_laws::lemma_grows_transitive(plan, middle, after);
                if let Ok(block) = result {
                    if let Some(node) = node {
                        lemma_data_tree_reads_grows(
                            middle,
                            after,
                            sub_node->Some_0,
                            node,
                            input.data@,
                        );
                    }
                    lemma_attachment_entry(
                        after,
                        input,
                        index,
                        node,
                        context,
                        UnicodeLeafSubNodeTreeEntry {
                            node: attachment::attachment_node(index),
                            block,
                            sub_node,
                        },
                    );
                }
            }
        }
    }
}

pub proof fn lemma_attachment_reads_grows(
    before: BlockPlan,
    after: BlockPlan,
    entry: UnicodeLeafSubNodeTreeEntry,
    input: UnicodePstAttachment<'_>,
    index: int,
)
    requires
        block_laws::plan_wf(before),
        block_laws::plan_grows(before, after),
        attachment_reads(before, entry, input, index),
    ensures
        attachment_reads(after, entry, input, index),
{
    let node = attachment::data_node(input, index)->Ok_0;
    let context = choose|context: Seq<u8>| #[trigger]
        data_reads(before, entry.block, context) && attachment::attachment_context(input, node)
            == Ok::<_, PstError>(context);
    lemma_data_reads_grows(before, after, entry.block, context);
    if let Some(node) = node {
        lemma_data_tree_reads_grows(before, after, entry.sub_node->Some_0, node, input.data@);
    }
    match entry.sub_node {
        None => {
            lemma_attachment_property_grows(
                before,
                after,
                entry,
                ReadValue::Bytes(Seq::empty()),
            );
        },
        Some(root) => {
            let node = choose|node: NodeId| #[trigger]
                data_tree_reads(before, root, node, input.data@) && attachment_property(
                    before,
                    entry,
                    0x3701,
                    0x0102,
                    ReadValue::Node(node),
                );
            lemma_data_tree_reads_grows(before, after, root, node, input.data@);
            lemma_attachment_property_grows(before, after, entry, ReadValue::Node(node));
        },
    }
}

proof fn lemma_attachment_property_grows(
    before: BlockPlan,
    after: BlockPlan,
    entry: UnicodeLeafSubNodeTreeEntry,
    value: ReadValue,
)
    requires
        block_laws::plan_wf(before),
        block_laws::plan_grows(before, after),
        attachment_property(before, entry, 0x3701, 0x0102, value),
    ensures
        attachment_property(after, entry, 0x3701, 0x0102, value),
{
    let data = choose|data: Seq<u8>| #[trigger]
        data_reads(before, entry.block, data) && property_laws::property_in_pages(
            seq![data],
            0x3701,
        ) == Some((0x0102int, value));
    lemma_data_reads_grows(before, after, entry.block, data);
}

/// The attachments of a message are all given back, in their order, behind the subnodes that were there.
pub proof fn law_attachments_read_back(
    plan: BlockPlan,
    inputs: Seq<UnicodePstAttachment<'_>>,
    index: int,
    done: Seq<UnicodeLeafSubNodeTreeEntry>,
)
    requires
        block_laws::plan_wf(plan),
        0 <= index <= inputs.len(),
    ensures
        ({
            let (after, result) = attachment::with_attachments_from(plan, inputs, index, done);
            &&& block_laws::plan_wf(after)
            &&& block_laws::plan_grows(plan, after)
            &&& result matches Ok(entries) ==> ({
                &&& entries.len() == done.len() + inputs.len() - index
                &&& forall|i: int| 0 <= i < done.len() ==> #[trigger] entries[i] == done[i]
                &&& forall|i: int|
                    done.len() <= i < entries.len() ==> attachment_reads(
                        after,
                        #[trigger] entries[i],
                        inputs[i - done.len() + index],
                        i - done.len() + index,
                    )
            })
        }),
    decreases inputs.len() - index,
{
    if index < inputs.len() {
        let input = inputs[index];
        law_attachment_reads_back(plan, input, index);
        let (next, result) = attachment::with_attachment(plan, input, index);
        if let Ok(entry) = result {
            let grown = done.push(entry);
            law_attachments_read_back(next, inputs, index + 1, grown);
            let (after, rest) = attachment::with_attachments_from(
                next,
                inputs,
                index + 1,
                grown,
            );
            block_laws::lemma_grows_transitive(plan, next, after);
            lemma_attachment_reads_grows(next, after, entry, input, index);
            if let Ok(entries) = rest {
                assert forall|i: int| done.len() <= i < entries.len() implies attachment_reads(
                    after,
                    #[trigger] entries[i],
                    inputs[i - done.len() + index],
                    i - done.len() + index,
                ) by {
                    if i == done.len() {
                        assert(entries[i] == grown[i]);
                    } else {
                        assert(i - grown.len() + (index + 1) == i - done.len() + index);
                    }
                }
                assert forall|i: int| 0 <= i < done.len() implies #[trigger] entries[i]
                    == done[i] by {
                    assert(entries[i] == grown[i]);
                }
            }
        }
    } else {
        assert(plan.blocks.take(plan.blocks.len() as int) =~= plan.blocks);
    }
}

} // verus!
