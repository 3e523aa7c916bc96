//! What appending messages and creating folders keep.

use vstd::prelude::*;

use crate::bytes;
use crate::error::PstError;
use crate::ltp::property;
use crate::ltp::property::{EncodedValue, PropertyType};
use crate::ltp::property_context;
use crate::ltp::property_laws;
use crate::ltp::rebuild;
use crate::ltp::rebuild::{RebuiltContents, UpdateContents};
use crate::ltp::row_table;
use crate::messaging::append;
use crate::messaging::append::{SessionContents, TargetContents};
use crate::messaging::create;
use crate::messaging::create::{FolderNodes, ParentContents};
use crate::messaging::folder;
use crate::messaging::input::UnicodePstBatchMessage;
use crate::messaging::message_laws;
use crate::messaging::plan_laws;
use crate::messaging::search;
use crate::messaging::search::SearchUpdateData;
use crate::messaging::update;
use crate::messaging::update::TableNodeContents;
use crate::ndb::block::{BlockPlan, UnicodeLeafSubNodeTreeEntry};
use crate::ndb::block_laws;
use crate::ndb::btree::{UnicodeBlockBTreeEntry, UnicodeNodeBTreeEntry};
use crate::ndb::commit;
use crate::ndb::data_tree;
use crate::ndb::header::HeaderContents;
use crate::ndb::ids::{NodeId, NodeIdType, UnicodeBlockId};
use crate::ndb::nodes;
use crate::ndb::subnode_tree;
use crate::ndb::transaction;
use crate::ndb::transaction_laws;
use crate::sorting;

verus! {

/// The nodes that an append replaces.
pub open spec fn is_replaced(target: TargetContents, node: NodeId) -> bool {
    ||| node == target.contents.entry.node
    ||| node == target.folder.node
    ||| (target.parent_hierarchy matches Some(parent) && node == parent.entry.node)
}

/// An append replaces the contents table, the folder and the hierarchy table of its parent, each under
/// its node and its parent, adds the messages, and keeps every other node as it was.
pub proof fn law_append_keeps_nodes(
    session: SessionContents,
    entries: Seq<UnicodeNodeBTreeEntry>,
    target: TargetContents,
    rebuilt: RebuiltContents,
    external: Seq<(NodeId, Seq<u8>)>,
    entry: UnicodeNodeBTreeEntry,
)
    ensures
        append::finished_append(session, entries, target, rebuilt, external) matches Ok(
            (_, after),
        ) ==> ({
            &&& !is_replaced(target, entry.node) ==> (after.contains(entry) <==> entries.contains(
                entry,
            ) || session.message_entries.contains(entry))
            &&& session.message_entries.contains(entry) ==> after.contains(entry)
            &&& is_replaced(target, entry.node) && after.contains(entry)
                && !session.message_entries.contains(entry) ==> keeps_parent(target, entry)
        }),
{
    reveal(append::finished_append);
    reveal(append::with_contents);
    reveal(append::with_counted_folder);
    reveal(update::with_updated_table);
    if let Ok((_, after)) = append::finished_append(session, entries, target, rebuilt, external) {
        let (first, result) = append::with_contents(
            session.next_plan(),
            target.contents,
            rebuilt,
            external,
        );
        let contents = result->Ok_0;
        let (folder, hierarchy) = append::with_counted_folder(
            first,
            target.folder,
            target.properties,
            target.subnodes,
            target.parent_hierarchy,
            rebuilt.row_ids.len(),
            session.header.unique,
        ).1->Ok_0;
        nodes::law_replaced_nodes(
            entries,
            contents,
            folder,
            hierarchy,
            session.message_entries,
            entry,
        );
    }
}

/// Whether an entry is that of a replaced node, with its parent as it was.
pub open spec fn keeps_parent(target: TargetContents, entry: UnicodeNodeBTreeEntry) -> bool {
    ||| entry.node == target.contents.entry.node && entry.parent == target.contents.entry.parent
    ||| entry.node == target.folder.node && entry.parent == target.folder.parent
    ||| (target.parent_hierarchy matches Some(parent) && entry.node == parent.entry.node
        && entry.parent == parent.entry.parent)
}

/// Updates for the search index replace the queue at most, and keep every other node as it was.
pub proof fn law_search_updates_keep_nodes(
    plan: BlockPlan,
    entries: Seq<UnicodeNodeBTreeEntry>,
    queue: Seq<u8>,
    updates: Seq<SearchUpdateData>,
    entry: UnicodeNodeBTreeEntry,
)
    requires
        block_laws::plan_wf(plan),
    ensures
        ({
            let (after, result) = search::with_search_updates(plan, entries, queue, updates);
            &&& block_laws::plan_wf(after)
            &&& block_laws::plan_grows(plan, after)
            &&& result matches Ok(replaced) ==> entry.node != search::queue_node() ==> (
            replaced.contains(entry) <==> entries.contains(entry))
            &&& result matches Ok(replaced) ==> entry.node == search::queue_node()
                && replaced.contains(entry) ==> plan_laws::data_reads(
                after,
                entry.data,
                queue + search::updates_bytes(updates, updates.len()),
            )
        }),
{
    reveal(search::with_search_updates);
    assert(plan.blocks.take(plan.blocks.len() as int) =~= plan.blocks);
    let node = search::queue_node();
    nodes::law_node_entry(entries, node);
    match nodes::node_entry(entries, node) {
        None => {
            if entries.contains(entry) {
                assert(entries[entries.index_of(entry)].node != node || entry.node != node);
            }
        },
        Some(old) => {
            let data = queue + search::updates_bytes(updates, updates.len());
            let chunks = data_tree::data_chunks(data);
            block_laws::law_data_tree_round_trip(plan, chunks);
            block_laws::law_data_chunks_join(data);
            let (after, result) = data_tree::with_data_tree(plan, chunks);
            if let Ok(block) = result {
                assert(plan_laws::data_reads(after, block, data));
                let less = nodes::without_node(entries, node);
                nodes::law_without_node(entries, node, entry);
                nodes::lemma_push_contains(
                    less,
                    UnicodeNodeBTreeEntry { node, data: block, ..old },
                    entry,
                );
            }
        },
    }
}

/// Writing the rows of a table anew keeps every other subnode of its node as it was.
pub proof fn law_rows_node_keeps_subnodes(
    subnodes: Seq<UnicodeLeafSubNodeTreeEntry>,
    rows_node: NodeId,
    rows: UnicodeBlockId,
    entry: UnicodeLeafSubNodeTreeEntry,
)
    ensures
        update::with_rows_node(subnodes, rows_node, rows).contains(entry) <==> (subnodes.contains(
            entry,
        ) && entry.node != rows_node) || entry == (UnicodeLeafSubNodeTreeEntry {
            node: rows_node,
            block: rows,
            sub_node: None,
        }),
{
    nodes::law_without_subnode(subnodes, rows_node, entry);
    nodes::lemma_push_contains(
        nodes::without_subnode(subnodes, rows_node),
        UnicodeLeafSubNodeTreeEntry { node: rows_node, block: rows, sub_node: None },
        entry,
    );
}

/// Whether a list of subnodes has those of a table that was written anew: every subnode that it had but
/// its rows, its rows with the new data, and the values that stand in subnodes of their own.
pub open spec fn contents_subnodes_read(
    plan: BlockPlan,
    entries: Seq<UnicodeLeafSubNodeTreeEntry>,
    contents: TableNodeContents,
    rebuilt: RebuiltContents,
    external: Seq<(NodeId, Seq<u8>)>,
) -> bool {
    &&& exists|rows: UnicodeBlockId| #[trigger]
        plan_laws::data_reads(
            plan,
            rows,
            bytes::concat(data_tree::filled_chunks(rebuilt.row_chunks)),
        ) && has_prefix(
            entries,
            update::with_rows_node(contents.subnodes, contents.rows_node, rows),
        ) && entries.len() == update::with_rows_node(
            contents.subnodes,
            contents.rows_node,
            rows,
        ).len() + external.len()
    &&& forall|i: int|
        0 <= i < external.len() ==> plan_laws::external_entry_reads(
            plan,
            #[trigger] entries[entries.len() - external.len() + i],
            external[i],
        )
}

/// Whether a list starts with another.
pub open spec fn has_prefix<T>(items: Seq<T>, first: Seq<T>) -> bool {
    first.len() <= items.len() && items.take(first.len() as int) == first
}

/// Whether the entry of a table gives back its heap and its subnodes.
pub open spec fn contents_read(
    plan: BlockPlan,
    entry: UnicodeNodeBTreeEntry,
    contents: TableNodeContents,
    rebuilt: RebuiltContents,
    external: Seq<(NodeId, Seq<u8>)>,
    entries: Seq<UnicodeLeafSubNodeTreeEntry>,
) -> bool {
    &&& plan_laws::data_reads(
        plan,
        entry.data,
        bytes::concat(data_tree::filled_chunks(rebuilt.heap_pages)),
    )
    &&& entry.sub_node matches Some(root) && plan_laws::subnodes_read(
        plan,
        root,
        sorting::sorted_by_key(entries),
    )
    &&& contents_subnodes_read(plan, entries, contents, rebuilt, external)
}

/// Whether the entry of a table gives it back.
pub open spec fn contents_is(
    plan: BlockPlan,
    entry: UnicodeNodeBTreeEntry,
    contents: TableNodeContents,
    rebuilt: RebuiltContents,
    external: Seq<(NodeId, Seq<u8>)>,
) -> bool {
    exists|entries: Seq<UnicodeLeafSubNodeTreeEntry>|
        contents_read(plan, entry, contents, rebuilt, external, entries)
}

/// Heap and rows, each in a data tree.
proof fn lemma_table_rows(
    plan: BlockPlan,
    rebuilt: RebuiltContents,
    rows_node: NodeId,
    subnodes: Seq<UnicodeLeafSubNodeTreeEntry>,
) -> (rows: UnicodeBlockId)
    requires
        block_laws::plan_wf(plan),
    ensures
        ({
            let (after, result) = update::with_table_rows(plan, rebuilt, rows_node, subnodes);
            &&& block_laws::plan_wf(after)
            &&& block_laws::plan_grows(plan, after)
            &&& result matches Ok((data, entries)) ==> ({
                &&& plan_laws::data_reads(
                    after,
                    data,
                    bytes::concat(data_tree::filled_chunks(rebuilt.heap_pages)),
                )
                &&& plan_laws::data_reads(
                    after,
                    rows,
                    bytes::concat(data_tree::filled_chunks(rebuilt.row_chunks)),
                )
                &&& entries == update::with_rows_node(subnodes, rows_node, rows)
            })
        }),
{
    let heap_data = bytes::concat(data_tree::filled_chunks(rebuilt.heap_pages));
    let rows_data = bytes::concat(data_tree::filled_chunks(rebuilt.row_chunks));
    block_laws::law_data_tree_round_trip(plan, rebuilt.heap_pages);
    let (first, result) = data_tree::with_data_tree(plan, rebuilt.heap_pages);
    if let Ok(data) = result {
        assert(plan_laws::data_reads(first, data, heap_data));
        block_laws::law_data_tree_round_trip(first, rebuilt.row_chunks);
        let (after, result) = data_tree::with_data_tree(first, rebuilt.row_chunks);
        block_laws::lemma_grows_transitive(plan, first, after);
        plan_laws::lemma_data_reads_grows(first, after, data, heap_data);
        if let Ok(rows) = result {
            assert(plan_laws::data_reads(after, rows, rows_data));
            rows
        } else {
            data
        }
    } else {
        UnicodeBlockId { value: 0 }
    }
}

/// The contents table of a folder gives back its heap, its rows and the values in subnodes, and keeps
/// every other subnode.
pub proof fn law_contents_read_back(
    plan: BlockPlan,
    contents: TableNodeContents,
    rebuilt: RebuiltContents,
    external: Seq<(NodeId, Seq<u8>)>,
)
    requires
        block_laws::plan_wf(plan),
    ensures
        ({
            let (after, result) = append::with_contents(plan, contents, rebuilt, external);
            &&& block_laws::plan_wf(after)
            &&& block_laws::plan_grows(plan, after)
            &&& result matches Ok(entry) ==> contents_is(
                after,
                entry,
                contents,
                rebuilt,
                external,
            )
        }),
{
    reveal(append::with_contents);
    let rows = lemma_table_rows(plan, rebuilt, contents.rows_node, contents.subnodes);
    let (first, result) = update::with_table_rows(
        plan,
        rebuilt,
        contents.rows_node,
        contents.subnodes,
    );
    if let Ok((data, subnodes)) = result {
        plan_laws::law_external_reads_back(first, external, 0, subnodes);
        let (second, result) = update::with_external(first, external, 0, subnodes);
        block_laws::lemma_grows_transitive(plan, first, second);
        if let Ok(entries) = result {
            block_laws::law_subnode_tree_round_trip(second, entries);
            let (after, result) = subnode_tree::with_subnode_tree(second, entries);
            block_laws::lemma_grows_transitive(plan, second, after);
            block_laws::lemma_grows_transitive(first, second, after);
            if let Ok(root) = result {
                lemma_contents_entry(
                    first,
                    second,
                    after,
                    contents,
                    rebuilt,
                    external,
                    entries,
                    rows,
                    UnicodeNodeBTreeEntry { data, sub_node: Some(root), ..contents.entry },
                );
            }
        }
    }
}

proof fn lemma_contents_entry(
    first: BlockPlan,
    second: BlockPlan,
    after: BlockPlan,
    contents: TableNodeContents,
    rebuilt: RebuiltContents,
    external: Seq<(NodeId, Seq<u8>)>,
    entries: Seq<UnicodeLeafSubNodeTreeEntry>,
    rows: UnicodeBlockId,
    entry: UnicodeNodeBTreeEntry,
)
    requires
        block_laws::plan_wf(first),
        block_laws::plan_wf(second),
        block_laws::plan_grows(second, after),
        block_laws::plan_grows(first, after),
        plan_laws::data_reads(
            first,
            entry.data,
            bytes::concat(data_tree::filled_chunks(rebuilt.heap_pages)),
        ),
        plan_laws::data_reads(
            first,
            rows,
            bytes::concat(data_tree::filled_chunks(rebuilt.row_chunks)),
        ),
        ({
            let subnodes = update::with_rows_node(contents.subnodes, contents.rows_node, rows);
            &&& entries.len() == subnodes.len() + external.len()
            &&& forall|i: int| 0 <= i < subnodes.len() ==> #[trigger] entries[i] == subnodes[i]
            &&& forall|i: int|
                subnodes.len() <= i < entries.len() ==> plan_laws::external_entry_reads(
                    second,
                    #[trigger] entries[i],
                    external[i - subnodes.len() + 0],
                )
        }),
        entry.sub_node matches Some(root) && exists|height: nat|
            block_laws::read_subnodes(after.blocks, root, height) == Some(
                sorting::sorted_by_key(entries),
            ),
    ensures
        contents_is(after, entry, contents, rebuilt, external),
{
    let subnodes = update::with_rows_node(contents.subnodes, contents.rows_node, rows);
    plan_laws::lemma_data_reads_grows(
        first,
        after,
        entry.data,
        bytes::concat(data_tree::filled_chunks(rebuilt.heap_pages)),
    );
    plan_laws::lemma_data_reads_grows(
        first,
        after,
        rows,
        bytes::concat(data_tree::filled_chunks(rebuilt.row_chunks)),
    );
    assert(entries.take(subnodes.len() as int) =~= subnodes);
    assert(has_prefix(entries, subnodes));
    assert forall|i: int| 0 <= i < external.len() implies plan_laws::external_entry_reads(
        after,
        #[trigger] entries[entries.len() - external.len() + i],
        external[i],
    ) by {
        let k = entries.len() - external.len() + i;
        assert(plan_laws::external_entry_reads(
            second,
            entries[k],
            external[k - subnodes.len() + 0],
        ));
        plan_laws::lemma_data_reads_grows(second, after, entries[k].block, external[i].1);
    }
    assert(contents_read(after, entry, contents, rebuilt, external, entries));
}

/// Setting a property adds at most one.
pub proof fn lemma_set_property_length(
    properties: Seq<(u16, EncodedValue)>,
    id: u16,
    value: EncodedValue,
)
    ensures
        folder::with_property(properties, id, value, 0).len() <= properties.len() + 1,
{
    lemma_with_property_at(properties, id, value, 0);
}

/// Setting a property of a folder keeps every other one: the first value of each is what it was.
pub proof fn law_set_property_keeps_others(
    properties: Seq<(u16, EncodedValue)>,
    id: u16,
    value: EncodedValue,
    other: u16,
)
    requires
        value.prop_type != PropertyType::Null,
    ensures
        other != id ==> property_laws::first_property(
            folder::with_property(properties, id, value, 0),
            other,
            0,
        ) == property_laws::first_property(properties, other, 0),
        property_laws::first_property(folder::with_property(properties, id, value, 0), id, 0)
            == Some(value),
{
    lemma_with_property_at(properties, id, value, 0);
    let after = folder::with_property(properties, id, value, 0);
    lemma_first_value(properties, after, id, value, other, 0);
    lemma_first_value(properties, after, id, value, id, 0);
}

/// Where a property is set.
spec fn set_at(properties: Seq<(u16, EncodedValue)>, id: u16, index: int) -> int
    decreases properties.len() - index,
{
    if index < 0 || index >= properties.len() || properties[index].0 == id {
        index
    } else {
        set_at(properties, id, index + 1)
    }
}

proof fn lemma_with_property_at(
    properties: Seq<(u16, EncodedValue)>,
    id: u16,
    value: EncodedValue,
    index: int,
)
    requires
        0 <= index <= properties.len(),
        forall|i: int| 0 <= i < index ==> (#[trigger] properties[i]).0 != id,
    ensures
        ({
            let after = folder::with_property(properties, id, value, index);
            let at = set_at(properties, id, index);
            &&& index <= at < after.len()
            &&& after[at] == (id, value)
            &&& properties.len() <= after.len() <= properties.len() + 1
            &&& at < properties.len() ==> properties[at].0 == id && after.len()
                == properties.len()
            &&& at == properties.len() ==> after.len() == properties.len() + 1
            &&& forall|i: int| 0 <= i < at ==> (#[trigger] properties[i]).0 != id
            &&& forall|i: int|
                0 <= i < properties.len() && i != at ==> #[trigger] after[i] == properties[i]
        }),
    decreases properties.len() - index,
{
    if index < properties.len() && properties[index].0 != id {
        lemma_with_property_at(properties, id, value, index + 1);
    }
}

proof fn lemma_first_value(
    properties: Seq<(u16, EncodedValue)>,
    after: Seq<(u16, EncodedValue)>,
    id: u16,
    value: EncodedValue,
    other: u16,
    index: int,
)
    requires
        value.prop_type != PropertyType::Null,
        after == folder::with_property(properties, id, value, 0),
        0 <= index <= after.len(),
        other == id ==> index <= set_at(properties, id, 0),
    ensures
        other != id ==> property_laws::first_property(after, other, index)
            == property_laws::first_property(properties, other, index),
        other == id ==> property_laws::first_property(after, id, index) == Some(value),
    decreases after.len() - index,
{
    lemma_with_property_at(properties, id, value, 0);
    let at = set_at(properties, id, 0);
    if index < after.len() && !(other == id && index == at) {
        if index < properties.len() && index != at {
            assert(after[index] == properties[index]);
        }
        if index < at {
            assert(properties[index].0 != id);
        }
        lemma_first_value(properties, after, id, value, other, index + 1);
    }
}

/// The property context of a folder that holds `count` messages gives back the count, and every other
/// property that the folder had.
pub proof fn law_counted_folder_keeps_properties(
    properties: Seq<(u16, EncodedValue)>,
    count: u32,
    next_index: u32,
    pages: Seq<Seq<u8>>,
    external: Seq<(NodeId, Seq<u8>)>,
    id: u16,
)
    requires
        properties.len() < u64::MAX,
        property_context::spec_property_context_pages(
            folder::with_property(properties, 0x3602, property::integer32_value(count), 0),
            next_index,
        ) == Ok::<_, PstError>((pages, external)),
    ensures
        match if id == 0x3602 {
            Some(property::integer32_value(count))
        } else {
            property_laws::first_property(properties, id, 0)
        } {
            None => property_laws::property_in_pages(pages, id) is None,
            Some(value) => property_laws::is_value(
                property_laws::property_in_pages(pages, id),
                external,
                value,
            ),
        },
{
    let value = property::integer32_value(count);
    let changed = folder::with_property(properties, 0x3602, value, 0);
    lemma_with_property_at(properties, 0x3602, value, 0);
    law_set_property_keeps_others(properties, 0x3602, value, id);
    property_laws::law_property_context_reads_back(changed, next_index, pages, external, id);
}

/// Whether a session adds behind `end`, and under indices that no block has.
pub open spec fn session_is_behind(session: SessionContents, end: u64) -> bool {
    &&& end <= session.next_offset
    &&& forall|i: int|
        0 <= i < session.block_entries.len() ==> (
        #[trigger] session.block_entries[i]).block.block.spec_index() < session.next_bid
}

/// A new session adds behind the end of the file, and under indices that no block has.
pub proof fn law_new_session_is_behind(
    header: HeaderContents,
    block_entries: Seq<UnicodeBlockBTreeEntry>,
)
    ensures
        session_is_behind(
            append::new_session(header, block_entries),
            header.root.file_eof_index,
        ),
{
    let session = append::new_session(header, block_entries);
    assert forall|i: int| 0 <= i < session.block_entries.len() implies (
    #[trigger] session.block_entries[i]).block.block.spec_index() < session.next_bid by {
        nodes::law_next_block_index_is_free(header, block_entries, i);
    }
}

/// The blocks of an appended message have new identifiers and stand behind `end`, so that nothing that
/// was there before is written over. The session goes on behind them, also where the message could not
/// be planned.
pub proof fn law_appended_blocks_are_new(
    session: SessionContents,
    end: u64,
    input: UnicodePstBatchMessage<'_>,
    message: NodeId,
    message_size: i32,
    folder: NodeId,
    at: int,
    old: int,
)
    requires
        session_is_behind(session, end),
    ensures
        match append::with_next_message(session, input, message, message_size, folder) {
            Ok((after, plan)) => {
                &&& session_is_behind(after, end)
                &&& block_laws::plan_wf(plan)
                &&& 0 <= at < plan.blocks.len() ==> plan.blocks[at].offset >= end
                &&& 0 <= at < plan.blocks.len() && 0 <= old < session.block_entries.len()
                    ==> plan.blocks[at].id.spec_index()
                    > session.block_entries[old].block.block.spec_index()
            },
            Err(_) => session_is_behind(
                append::with_failed_message(session, input, message, message_size, folder),
                end,
            ),
        },
{
    message_laws::law_message_reads_back(
        session.next_plan(),
        input,
        message,
        message_size,
        folder,
        session.header.unique,
    );
    if let Ok((after, plan)) = append::with_next_message(
        session,
        input,
        message,
        message_size,
        folder,
    ) {
        let count = session.block_entries.len() as int;
        assert forall|i: int| 0 <= i < after.block_entries.len() implies (
        #[trigger] after.block_entries[i]).block.block.spec_index() < after.next_bid by {
            if i >= count {
                assert(after.block_entries[i] == commit::new_entry(plan.blocks[i - count]));
            } else {
                assert(after.block_entries[i] == session.block_entries[i]);
            }
        }
    }
}

proof fn lemma_updated_plan_is_behind(
    header: HeaderContents,
    block_entries: Seq<UnicodeBlockBTreeEntry>,
    start: BlockPlan,
    change: (BlockPlan, Seq<UnicodeNodeBTreeEntry>),
    queue: Seq<u8>,
    updates: Seq<SearchUpdateData>,
    reserved: Seq<NodeId>,
    end: u64,
)
    requires
        start.blocks.len() == 0,
        end <= start.next_offset,
        block_laws::plan_wf(change.0),
        block_laws::plan_grows(start, change.0),
    ensures
        search::with_search_updates(change.0, change.1, queue, updates) matches (plan, Ok(nodes))
            ==> {
            &&& block_laws::plan_wf(plan)
            &&& block_laws::plan_grows(start, plan)
            &&& transaction_laws::writes_behind(
                transaction::new_commit(header, block_entries, (plan, nodes), reserved),
                end,
            )
        },
{
    if let (plan, Ok(nodes)) = search::with_search_updates(change.0, change.1, queue, updates) {
        let any = UnicodeNodeBTreeEntry {
            node: search::queue_node(),
            data: UnicodeBlockId { value: 0 },
            sub_node: None,
            parent: None,
        };
        law_search_updates_keep_nodes(change.0, change.1, queue, updates, any);
        block_laws::lemma_grows_transitive(start, change.0, plan);
        transaction_laws::law_new_commit(header, block_entries, (plan, nodes), reserved, end);
    }
}

/// An append can be committed once its updates for the search index were added: its blocks are well
/// formed, stand behind `end`, and have new identifiers, and the commit writes only behind `end`.
pub proof fn law_append_can_be_committed(
    session: SessionContents,
    end: u64,
    entries: Seq<UnicodeNodeBTreeEntry>,
    target: TargetContents,
    rebuilt: RebuiltContents,
    external: Seq<(NodeId, Seq<u8>)>,
    queue: Seq<u8>,
    updates: Seq<SearchUpdateData>,
    reserved: Seq<NodeId>,
    at: int,
    old: int,
)
    requires
        session_is_behind(session, end),
    ensures
        append::finished_append(session, entries, target, rebuilt, external) matches Ok(change) ==> (
        search::with_search_updates(change.0, change.1, queue, updates) matches (plan, Ok(nodes))
            ==> {
            &&& block_laws::plan_wf(plan)
            &&& 0 <= at < plan.blocks.len() && 0 <= old < session.block_entries.len()
                ==> plan.blocks[at].id.spec_index()
                > session.block_entries[old].block.block.spec_index()
            &&& transaction_laws::writes_behind(
                transaction::new_commit(
                    session.header,
                    session.block_entries,
                    (plan, nodes),
                    reserved,
                ),
                end,
            )
        }),
{
    law_append_plan_is_well_formed(session, entries, target, rebuilt, external);
    if let Ok(change) = append::finished_append(session, entries, target, rebuilt, external) {
        lemma_updated_plan_is_behind(
            session.header,
            session.block_entries,
            session.next_plan(),
            change,
            queue,
            updates,
            reserved,
            end,
        );
    }
}

/// A new folder can be committed once its updates for the search index were added: its blocks are well
/// formed, stand behind the end of the file, and have new identifiers, and the commit writes only behind
/// that end.
pub proof fn law_folder_can_be_committed(
    header: HeaderContents,
    block_entries: Seq<UnicodeBlockBTreeEntry>,
    entries: Seq<UnicodeNodeBTreeEntry>,
    parent: ParentContents,
    store_record_key: Seq<u8>,
    new: FolderNodes,
    name: Seq<char>,
    queue: Seq<u8>,
    updates: Seq<SearchUpdateData>,
    reserved: Seq<NodeId>,
    at: int,
    old: int,
)
    ensures
        create::planned_folder(
            header,
            block_entries,
            entries,
            parent,
            store_record_key,
            new,
            name,
        ) matches Ok(change) ==> (search::with_search_updates(
            change.0,
            change.1,
            queue,
            updates,
        ) matches (plan, Ok(nodes)) ==> {
            &&& block_laws::plan_wf(plan)
            &&& 0 <= at < plan.blocks.len() && 0 <= old < block_entries.len()
                ==> plan.blocks[at].id.spec_index()
                > block_entries[old].block.block.spec_index()
            &&& transaction_laws::writes_behind(
                transaction::new_commit(header, block_entries, (plan, nodes), reserved),
                header.root.file_eof_index,
            )
        }),
{
    law_folder_plan_is_well_formed(
        header,
        block_entries,
        entries,
        parent,
        store_record_key,
        new,
        name,
    );
    if 0 <= old < block_entries.len() {
        nodes::law_next_block_index_is_free(header, block_entries, old);
    }
    if let Ok(change) = create::planned_folder(
        header,
        block_entries,
        entries,
        parent,
        store_record_key,
        new,
        name,
    ) {
        lemma_updated_plan_is_behind(
            header,
            block_entries,
            BlockPlan {
                blocks: Seq::empty(),
                next_bid: nodes::next_block_index(header, block_entries),
                next_offset: header.root.file_eof_index,
            },
            change,
            queue,
            updates,
            reserved,
            header.root.file_eof_index,
        );
    }
}

/// The nodes that a new folder replaces.
pub open spec fn is_replaced_by_folder(parent: ParentContents, node: NodeId) -> bool {
    ||| node == parent.entry.node
    ||| node == create::table_of(NodeIdType::HierarchyTable, parent.entry.node)
    ||| (parent.grandparent_hierarchy matches Some(above) && node == above.entry.node)
}

/// A new folder stands below its parent with its three tables, and every node that it does not replace
/// is kept as it was.
pub proof fn law_new_folder_keeps_nodes(
    header: HeaderContents,
    block_entries: Seq<UnicodeBlockBTreeEntry>,
    entries: Seq<UnicodeNodeBTreeEntry>,
    parent: ParentContents,
    store_record_key: Seq<u8>,
    new: FolderNodes,
    name: Seq<char>,
    entry: UnicodeNodeBTreeEntry,
)
    ensures
        create::planned_folder(
            header,
            block_entries,
            entries,
            parent,
            store_record_key,
            new,
            name,
        ) matches Ok((_, after)) ==> ({
            &&& !is_replaced_by_folder(parent, entry.node) && entries.contains(entry)
                ==> after.contains(entry)
            &&& exists|added: Seq<UnicodeNodeBTreeEntry>|
                {
                    &&& added.len() == 4
                    &&& added[0].node == new.folder && added[0].parent == Some(parent.entry.node)
                    &&& added[1].node == new.hierarchy
                    &&& added[2].node == new.contents
                    &&& added[3].node == new.associated_contents
                    &&& #[trigger] has_all(after, added)
                }
        }),
{
    reveal(create::planned_folder);
    reveal(update::with_updated_table);
    if let Ok((_, after)) = create::planned_folder(
        header,
        block_entries,
        entries,
        parent,
        store_record_key,
        new,
        name,
    ) {
        let node = parent.entry.node;
        let start = BlockPlan {
            blocks: Seq::empty(),
            next_bid: nodes::next_block_index(header, block_entries),
            next_offset: header.root.file_eof_index,
        };
        let (first, result) = create::with_hierarchy(
            start,
            parent.hierarchy,
            store_record_key,
            new.folder,
            name,
            header.unique,
        );
        let (data, sub_node) = result->Ok_0;
        let (second, result) = create::with_parent(
            first,
            parent.entry,
            parent.has_subfolders,
            parent.properties,
            parent.subnodes,
        );
        let changed = result->Ok_0;
        lemma_added_nodes(second, entries, new, node, name);
        let (third, result) = create::with_folder(second, entries, new, node, name);
        let added = result->Ok_0;
        let above = create::with_parent_row(
            third,
            parent.grandparent_hierarchy,
            node,
            header.unique,
        ).1->Ok_0;
        let hierarchy = UnicodeNodeBTreeEntry {
            node: create::table_of(NodeIdType::HierarchyTable, node),
            data,
            sub_node,
            parent: parent.hierarchy_parent,
        };
        nodes::law_replaced_nodes(entries, changed, hierarchy, above, added, entry);
        assert(after == nodes::replaced_nodes(entries, changed, hierarchy, above, added));
        assert forall|i: int| 0 <= i < added.len() implies after.contains(#[trigger] added[i]) by {
            nodes::law_replaced_nodes(entries, changed, hierarchy, above, added, added[i]);
            assert(added.contains(added[i]));
        }
        assert(has_all(after, added));
    }
}

/// Whether a list has every one of the given entries.
pub open spec fn has_all(
    entries: Seq<UnicodeNodeBTreeEntry>,
    added: Seq<UnicodeNodeBTreeEntry>,
) -> bool {
    forall|i: int| 0 <= i < added.len() ==> entries.contains(#[trigger] added[i])
}

proof fn lemma_added_nodes(
    plan: BlockPlan,
    entries: Seq<UnicodeNodeBTreeEntry>,
    new: FolderNodes,
    parent: NodeId,
    name: Seq<char>,
)
    ensures
        create::with_folder(plan, entries, new, parent, name).1 matches Ok(added) ==> ({
            &&& added.len() == 4
            &&& added[0].node == new.folder && added[0].parent == Some(parent)
            &&& added[1].node == new.hierarchy
            &&& added[2].node == new.contents
            &&& added[3].node == new.associated_contents
        }),
{
    reveal(create::with_folder);
}

/// Whether the node of a property context gives it back: its pages, and its subnodes, where it has any,
/// which are those that it had and those with large values.
pub open spec fn property_node_reads(
    plan: BlockPlan,
    data: UnicodeBlockId,
    sub_node: Option<UnicodeBlockId>,
    properties: Seq<(u16, EncodedValue)>,
    subnodes: Seq<UnicodeLeafSubNodeTreeEntry>,
    pages: Seq<Seq<u8>>,
    external: Seq<(NodeId, Seq<u8>)>,
    entries: Seq<UnicodeLeafSubNodeTreeEntry>,
) -> bool {
    &&& property_context::spec_property_context_pages(
        properties,
        nodes::next_internal_index(nodes::subnodes_of(subnodes)),
    ) == Ok::<_, PstError>((pages, external))
    &&& plan_laws::data_reads(plan, data, bytes::concat(data_tree::filled_chunks(pages)))
    &&& has_prefix(entries, subnodes)
    &&& entries.len() == subnodes.len() + external.len()
    &&& forall|i: int|
        0 <= i < external.len() ==> plan_laws::external_entry_reads(
            plan,
            #[trigger] entries[subnodes.len() + i],
            external[i],
        )
    &&& match sub_node {
        None => entries.len() == 0,
        Some(root) => plan_laws::subnodes_read(plan, root, sorting::sorted_by_key(entries)),
    }
}

/// Whether the node of a property context gives it back.
pub open spec fn property_node_is(
    plan: BlockPlan,
    data: UnicodeBlockId,
    sub_node: Option<UnicodeBlockId>,
    properties: Seq<(u16, EncodedValue)>,
    subnodes: Seq<UnicodeLeafSubNodeTreeEntry>,
) -> bool {
    exists|
        pages: Seq<Seq<u8>>,
        external: Seq<(NodeId, Seq<u8>)>,
        entries: Seq<UnicodeLeafSubNodeTreeEntry>,
    |
        property_node_reads(
            plan,
            data,
            sub_node,
            properties,
            subnodes,
            pages,
            external,
            entries,
        )
}

/// A node of a property context gives back its pages, and keeps the subnodes that it had.
pub proof fn law_property_node_reads_back(
    plan: BlockPlan,
    properties: Seq<(u16, EncodedValue)>,
    subnodes: Seq<UnicodeLeafSubNodeTreeEntry>,
)
    requires
        block_laws::plan_wf(plan),
    ensures
        ({
            let (after, result) = update::with_property_node(plan, properties, subnodes);
            &&& block_laws::plan_wf(after)
            &&& block_laws::plan_grows(plan, after)
            &&& result matches Ok((data, sub_node)) ==> property_node_is(
                after,
                data,
                sub_node,
                properties,
                subnodes,
            )
        }),
{
    reveal(update::with_property_node);
    assert(plan.blocks.take(plan.blocks.len() as int) =~= plan.blocks);
    let index = nodes::next_internal_index(nodes::subnodes_of(subnodes));
    if let Ok((pages, external)) = property_context::spec_property_context_pages(
        properties,
        index,
    ) {
        let bytes = bytes::concat(data_tree::filled_chunks(pages));
        block_laws::law_data_tree_round_trip(plan, pages);
        let (first, result) = data_tree::with_data_tree(plan, pages);
        if let Ok(data) = result {
            assert(plan_laws::data_reads(first, data, bytes));
            plan_laws::law_external_reads_back(first, external, 0, subnodes);
            let (second, result) = update::with_external(first, external, 0, subnodes);
            block_laws::lemma_grows_transitive(plan, first, second);
            if let Ok(entries) = result {
                assert(entries.take(subnodes.len() as int) =~= subnodes);
                if entries.len() == 0 {
                    plan_laws::lemma_data_reads_grows(first, second, data, bytes);
                    assert(property_node_reads(
                        second,
                        data,
                        None,
                        properties,
                        subnodes,
                        pages,
                        external,
                        entries,
                    ));
                    assert(property_node_is(second, data, None, properties, subnodes));
                } else {
                    block_laws::law_subnode_tree_round_trip(second, entries);
                    let (after, result) = subnode_tree::with_subnode_tree(second, entries);
                    block_laws::lemma_grows_transitive(plan, second, after);
                    block_laws::lemma_grows_transitive(first, second, after);
                    if let Ok(root) = result {
                        lemma_property_node(
                            first,
                            second,
                            after,
                            data,
                            root,
                            properties,
                            subnodes,
                            pages,
                            external,
                            entries,
                        );
                        assert(property_node_is(after, data, Some(root), properties, subnodes));
                    }
                }
            }
        }
    }
}

proof fn lemma_property_node(
    first: BlockPlan,
    second: BlockPlan,
    after: BlockPlan,
    data: UnicodeBlockId,
    root: UnicodeBlockId,
    properties: Seq<(u16, EncodedValue)>,
    subnodes: Seq<UnicodeLeafSubNodeTreeEntry>,
    pages: Seq<Seq<u8>>,
    external: Seq<(NodeId, Seq<u8>)>,
    entries: Seq<UnicodeLeafSubNodeTreeEntry>,
)
    requires
        block_laws::plan_wf(first),
        block_laws::plan_wf(second),
        block_laws::plan_grows(first, after),
        block_laws::plan_grows(second, after),
        property_context::spec_property_context_pages(
            properties,
            nodes::next_internal_index(nodes::subnodes_of(subnodes)),
        ) == Ok::<_, PstError>((pages, external)),
        plan_laws::data_reads(first, data, bytes::concat(data_tree::filled_chunks(pages))),
        has_prefix(entries, subnodes),
        entries.len() == subnodes.len() + external.len(),
        forall|i: int|
            subnodes.len() <= i < entries.len() ==> plan_laws::external_entry_reads(
                second,
                #[trigger] entries[i],
                external[i - subnodes.len() + 0],
            ),
        exists|height: nat|
            block_laws::read_subnodes(after.blocks, root, height) == Some(
                sorting::sorted_by_key(entries),
            ),
    ensures
        property_node_reads(
            after,
            data,
            Some(root),
            properties,
            subnodes,
            pages,
            external,
            entries,
        ),
{
    plan_laws::lemma_data_reads_grows(
        first,
        after,
        data,
        bytes::concat(data_tree::filled_chunks(pages)),
    );
    assert forall|i: int| 0 <= i < external.len() implies plan_laws::external_entry_reads(
        after,
        #[trigger] entries[subnodes.len() + i],
        external[i],
    ) by {
        let k = subnodes.len() + i;
        assert(plan_laws::external_entry_reads(
            second,
            entries[k],
            external[k - subnodes.len() + 0],
        ));
        plan_laws::lemma_data_reads_grows(second, after, entries[k].block, external[i].1);
    }
}

/// Whether the node of a table with a changed row gives it back.
pub open spec fn updated_table_is(
    plan: BlockPlan,
    entry: UnicodeNodeBTreeEntry,
    node: TableNodeContents,
    row_version: u32,
    change: UpdateContents,
) -> bool {
    rebuild::spec_rebuild_table(
        node.table,
        Seq::empty(),
        Some(node.rows_node),
        row_version,
        Some(change),
        true,
    ) matches Ok(rebuilt) && contents_is(plan, entry, node, rebuilt, Seq::empty())
}

/// A table with a changed row gives back its heap and its rows, and keeps every other subnode.
pub proof fn law_updated_table_reads_back(
    plan: BlockPlan,
    node: TableNodeContents,
    row_version: u32,
    change: UpdateContents,
)
    requires
        block_laws::plan_wf(plan),
    ensures
        ({
            let (after, result) = update::with_updated_table(plan, node, row_version, change);
            &&& block_laws::plan_wf(after)
            &&& block_laws::plan_grows(plan, after)
            &&& result matches Ok(entry) ==> updated_table_is(
                after,
                entry,
                node,
                row_version,
                change,
            )
        }),
{
    reveal(update::with_updated_table);
    assert(plan.blocks.take(plan.blocks.len() as int) =~= plan.blocks);
    if let Ok(rebuilt) = rebuild::spec_rebuild_table(
        node.table,
        Seq::empty(),
        Some(node.rows_node),
        row_version,
        Some(change),
        true,
    ) {
        let rows = lemma_table_rows(plan, rebuilt, node.rows_node, node.subnodes);
        let (first, result) = update::with_table_rows(
            plan,
            rebuilt,
            node.rows_node,
            node.subnodes,
        );
        if let Ok((data, entries)) = result {
            block_laws::law_subnode_tree_round_trip(first, entries);
            let (after, result) = subnode_tree::with_subnode_tree(first, entries);
            block_laws::lemma_grows_transitive(plan, first, after);
            if let Ok(root) = result {
                let entry = UnicodeNodeBTreeEntry { data, sub_node: Some(root), ..node.entry };
                lemma_contents_entry(
                    first,
                    first,
                    after,
                    node,
                    rebuilt,
                    Seq::empty(),
                    entries,
                    rows,
                    entry,
                );
                assert(updated_table_is(after, entry, node, row_version, change));
            }
        }
    }
}

/// A folder with its count, and its row in the hierarchy table of its parent, only add blocks.
pub proof fn lemma_counted_folder_grows(
    plan: BlockPlan,
    folder: UnicodeNodeBTreeEntry,
    properties: Seq<(u16, EncodedValue)>,
    subnodes: Seq<UnicodeLeafSubNodeTreeEntry>,
    parent_hierarchy: Option<TableNodeContents>,
    count: nat,
    row_version: u32,
)
    requires
        block_laws::plan_wf(plan),
    ensures
        ({
            let after = append::with_counted_folder(
                plan,
                folder,
                properties,
                subnodes,
                parent_hierarchy,
                count,
                row_version,
            ).0;
            block_laws::plan_wf(after) && block_laws::plan_grows(plan, after)
        }),
{
    reveal(append::with_counted_folder);
    assert(plan.blocks.take(plan.blocks.len() as int) =~= plan.blocks);
    if count <= i32::MAX {
        let value = property::integer32_value(count as u32);
        let changed = folder::with_property(properties, 0x3602, value, 0);
        law_property_node_reads_back(plan, changed, subnodes);
        let (first, result) = update::with_property_node(plan, changed, subnodes);
        if let (Ok(_), Some(parent)) = (result, parent_hierarchy) {
            let change = UpdateContents { row: folder.node, property: 0x3602, value };
            law_updated_table_reads_back(first, parent, row_version, change);
            block_laws::lemma_grows_transitive(
                plan,
                first,
                update::with_updated_table(first, parent, row_version, change).0,
            );
        }
    }
}

/// The blocks of an append are well formed, stand behind those of the messages, and have indices of
/// their own.
pub proof fn law_append_plan_is_well_formed(
    session: SessionContents,
    entries: Seq<UnicodeNodeBTreeEntry>,
    target: TargetContents,
    rebuilt: RebuiltContents,
    external: Seq<(NodeId, Seq<u8>)>,
)
    ensures
        append::finished_append(session, entries, target, rebuilt, external) matches Ok((plan, _))
            ==> block_laws::plan_wf(plan) && block_laws::plan_grows(session.next_plan(), plan),
{
    reveal(append::finished_append);
    let start = session.next_plan();
    law_contents_read_back(start, target.contents, rebuilt, external);
    let (first, result) = append::with_contents(start, target.contents, rebuilt, external);
    if result is Ok {
        lemma_counted_folder_grows(
            first,
            target.folder,
            target.properties,
            target.subnodes,
            target.parent_hierarchy,
            rebuilt.row_ids.len(),
            session.header.unique,
        );
        block_laws::lemma_grows_transitive(
            start,
            first,
            append::with_counted_folder(
                first,
                target.folder,
                target.properties,
                target.subnodes,
                target.parent_hierarchy,
                rebuilt.row_ids.len(),
                session.header.unique,
            ).0,
        );
    }
}

proof fn lemma_data_block_grows(plan: BlockPlan, data: Result<Seq<u8>, PstError>)
    requires
        block_laws::plan_wf(plan),
    ensures
        block_laws::plan_wf(create::with_data_block(plan, data).0),
        block_laws::plan_grows(plan, create::with_data_block(plan, data).0),
        create::with_data_block(plan, data) matches (after, Ok(block)) ==> data is Ok
            && plan_laws::data_reads(after, block, data->Ok_0),
{
    reveal(create::with_data_block);
    assert(plan.blocks.take(plan.blocks.len() as int) =~= plan.blocks);
    if let Ok(data) = data {
        plan_laws::lemma_data_block(plan, data);
    }
}

proof fn lemma_empty_table_grows(plan: BlockPlan, template: Option<UnicodeBlockId>)
    requires
        block_laws::plan_wf(plan),
    ensures
        block_laws::plan_wf(create::with_empty_table(plan, template).0),
        block_laws::plan_grows(plan, create::with_empty_table(plan, template).0),
{
    assert(plan.blocks.take(plan.blocks.len() as int) =~= plan.blocks);
    lemma_data_block_grows(plan, row_table::row_table(Seq::empty()));
}

/// A new folder and its tables only add blocks, and the folder gives back its properties.
pub proof fn lemma_folder_grows(
    plan: BlockPlan,
    entries: Seq<UnicodeNodeBTreeEntry>,
    new: FolderNodes,
    parent: NodeId,
    name: Seq<char>,
)
    requires
        block_laws::plan_wf(plan),
    ensures
        block_laws::plan_wf(create::with_folder(plan, entries, new, parent, name).0),
        block_laws::plan_grows(plan, create::with_folder(plan, entries, new, parent, name).0),
        create::with_folder(plan, entries, new, parent, name) matches (after, Ok(added))
            ==> added.len() == 4 && added[0].node == new.folder && added[0].parent == Some(parent)
            && added[0].sub_node is None && (folder::folder_context(name, 0, false) matches Ok(data)
            && plan_laws::data_reads(after, added[0].data, data)),
{
    reveal(create::with_folder);
    let context = folder::folder_context(name, 0, false);
    lemma_data_block_grows(plan, context);
    let first = create::with_data_block(plan, context).0;
    let hierarchy = create::data_of(entries, create::HIERARCHY_TEMPLATE);
    lemma_empty_table_grows(first, hierarchy);
    let second = create::with_empty_table(first, hierarchy).0;
    let contents = create::data_of(entries, create::CONTENTS_TEMPLATE);
    lemma_empty_table_grows(second, contents);
    let third = create::with_empty_table(second, contents).0;
    let associated = create::data_of(entries, create::ASSOCIATED_CONTENTS_TEMPLATE);
    lemma_empty_table_grows(third, associated);
    let fourth = create::with_empty_table(third, associated).0;
    block_laws::lemma_grows_transitive(plan, first, second);
    block_laws::lemma_grows_transitive(plan, second, third);
    block_laws::lemma_grows_transitive(plan, third, fourth);
    block_laws::lemma_grows_transitive(first, second, third);
    block_laws::lemma_grows_transitive(first, third, fourth);
    if let (after, Ok(added)) = create::with_folder(plan, entries, new, parent, name) {
        plan_laws::lemma_data_reads_grows(first, after, added[0].data, context->Ok_0);
    }
}

/// Whether the hierarchy table of a folder has a row for a new folder: in the table that there was, or
/// in one of its own.
pub open spec fn hierarchy_is(
    plan: BlockPlan,
    data: UnicodeBlockId,
    sub_node: Option<UnicodeBlockId>,
    hierarchy: Option<TableNodeContents>,
    store_record_key: Seq<u8>,
    folder: NodeId,
    name: Seq<char>,
    row_version: u32,
) -> bool {
    match hierarchy {
        None => sub_node is None && (row_table::row_table(seq![folder]) matches Ok(table)
            && plan_laws::data_reads(plan, data, table)),
        Some(node) => folder::hierarchy_table(
            node.table,
            store_record_key,
            folder,
            name,
            false,
            node.rows_node,
            row_version,
        ) matches Ok(rebuilt) && contents_is(
            plan,
            (UnicodeNodeBTreeEntry { data, sub_node, ..node.entry }),
            node,
            rebuilt,
            Seq::empty(),
        ),
    }
}

/// A row for a new folder only adds blocks, which give it back.
pub proof fn lemma_hierarchy_grows(
    plan: BlockPlan,
    hierarchy: Option<TableNodeContents>,
    store_record_key: Seq<u8>,
    folder: NodeId,
    name: Seq<char>,
    row_version: u32,
)
    requires
        block_laws::plan_wf(plan),
    ensures
        ({
            let (after, result) = create::with_hierarchy(
                plan,
                hierarchy,
                store_record_key,
                folder,
                name,
                row_version,
            );
            &&& block_laws::plan_wf(after)
            &&& block_laws::plan_grows(plan, after)
            &&& result matches Ok((data, sub_node)) ==> hierarchy_is(
                after,
                data,
                sub_node,
                hierarchy,
                store_record_key,
                folder,
                name,
                row_version,
            )
        }),
{
    reveal(create::with_hierarchy);
    assert(plan.blocks.take(plan.blocks.len() as int) =~= plan.blocks);
    match hierarchy {
        None => {
            lemma_data_block_grows(plan, row_table::row_table(seq![folder]));
        },
        Some(node) => {
            if let Ok(table) = folder::hierarchy_table(
                node.table,
                store_record_key,
                folder,
                name,
                false,
                node.rows_node,
                row_version,
            ) {
                let rows = lemma_table_rows(plan, table, node.rows_node, node.subnodes);
                let (first, result) = update::with_table_rows(
                    plan,
                    table,
                    node.rows_node,
                    node.subnodes,
                );
                if let Ok((data, entries)) = result {
                    block_laws::law_subnode_tree_round_trip(first, entries);
                    let (after, result) = subnode_tree::with_subnode_tree(first, entries);
                    block_laws::lemma_grows_transitive(plan, first, after);
                    if let Ok(root) = result {
                        lemma_contents_entry(
                            first,
                            first,
                            after,
                            node,
                            table,
                            Seq::empty(),
                            entries,
                            rows,
                            UnicodeNodeBTreeEntry { data, sub_node: Some(root), ..node.entry },
                        );
                    }
                }
            }
        },
    }
}

/// The parent of a new folder only adds blocks, which give back its properties where they changed.
pub proof fn lemma_parent_grows(plan: BlockPlan, parent: ParentContents)
    requires
        block_laws::plan_wf(plan),
    ensures
        ({
            let (after, result) = create::with_parent(
                plan,
                parent.entry,
                parent.has_subfolders,
                parent.properties,
                parent.subnodes,
            );
            &&& block_laws::plan_wf(after)
            &&& block_laws::plan_grows(plan, after)
            &&& result matches Ok(entry) ==> entry.node == parent.entry.node && entry.parent
                == parent.entry.parent && (if parent.has_subfolders {
                entry == parent.entry
            } else {
                property_node_is(
                    after,
                    entry.data,
                    entry.sub_node,
                    folder::with_property(
                        parent.properties,
                        0x360A,
                        property::boolean_value(true),
                        0,
                    ),
                    parent.subnodes,
                )
            })
        }),
{
    assert(plan.blocks.take(plan.blocks.len() as int) =~= plan.blocks);
    if !parent.has_subfolders {
        law_property_node_reads_back(
            plan,
            folder::with_property(
                parent.properties,
                0x360A,
                property::boolean_value(true),
                0,
            ),
            parent.subnodes,
        );
    }
}

/// The row of the parent above it only adds blocks, which give it back.
pub proof fn lemma_parent_row_grows(
    plan: BlockPlan,
    hierarchy: Option<TableNodeContents>,
    parent: NodeId,
    row_version: u32,
)
    requires
        block_laws::plan_wf(plan),
    ensures
        ({
            let (after, result) = create::with_parent_row(plan, hierarchy, parent, row_version);
            &&& block_laws::plan_wf(after)
            &&& block_laws::plan_grows(plan, after)
            &&& result matches Ok(entry) ==> match hierarchy {
                None => entry is None,
                Some(node) => entry matches Some(above) && above.node == node.entry.node
                    && above.parent == node.entry.parent && updated_table_is(
                    after,
                    above,
                    node,
                    row_version,
                    create::subfolders_update(parent),
                ),
            }
        }),
{
    assert(plan.blocks.take(plan.blocks.len() as int) =~= plan.blocks);
    if let Some(node) = hierarchy {
        law_updated_table_reads_back(
            plan,
            node,
            row_version,
            create::subfolders_update(parent),
        );
        reveal(update::with_updated_table);
    }
}

/// The blocks of a new folder are well formed, have new identifiers and stand behind the end of the
/// file.
pub proof fn law_folder_plan_is_well_formed(
    header: HeaderContents,
    block_entries: Seq<UnicodeBlockBTreeEntry>,
    entries: Seq<UnicodeNodeBTreeEntry>,
    parent: ParentContents,
    store_record_key: Seq<u8>,
    new: FolderNodes,
    name: Seq<char>,
)
    ensures
        create::planned_folder(
            header,
            block_entries,
            entries,
            parent,
            store_record_key,
            new,
            name,
        ) matches Ok((plan, _)) ==> block_laws::plan_wf(plan) && block_laws::plan_grows(
            (BlockPlan {
                blocks: Seq::empty(),
                next_bid: nodes::next_block_index(header, block_entries),
                next_offset: header.root.file_eof_index,
            }),
            plan,
        ),
{
    reveal(create::planned_folder);
    let node = parent.entry.node;
    let start = BlockPlan {
        blocks: Seq::empty(),
        next_bid: nodes::next_block_index(header, block_entries),
        next_offset: header.root.file_eof_index,
    };
    lemma_hierarchy_grows(
        start,
        parent.hierarchy,
        store_record_key,
        new.folder,
        name,
        header.unique,
    );
    let first = create::with_hierarchy(
        start,
        parent.hierarchy,
        store_record_key,
        new.folder,
        name,
        header.unique,
    ).0;
    lemma_parent_grows(first, parent);
    let second = create::with_parent(
        first,
        parent.entry,
        parent.has_subfolders,
        parent.properties,
        parent.subnodes,
    ).0;
    lemma_folder_grows(second, entries, new, node, name);
    let third = create::with_folder(second, entries, new, node, name).0;
    lemma_parent_row_grows(third, parent.grandparent_hierarchy, node, header.unique);
    let fourth = create::with_parent_row(
        third,
        parent.grandparent_hierarchy,
        node,
        header.unique,
    ).0;
    block_laws::lemma_grows_transitive(start, first, second);
    block_laws::lemma_grows_transitive(start, second, third);
    block_laws::lemma_grows_transitive(start, third, fourth);
}

} // verus!
