//! What a whole append leaves behind, as a reader of its nodes finds it.

use vstd::prelude::*;

use crate::bytes;
use crate::error::PstError;
use crate::ltp::heap;
use crate::ltp::heap_laws;
use crate::ltp::property;
use crate::ltp::property::{EncodedValue, PropertyType};
use crate::ltp::property_laws;
use crate::ltp::rebuild;
use crate::ltp::rebuild::{RebuiltContents, TableContents, UpdateContents};
use crate::ltp::rebuild_laws;
use crate::ltp::table::TableLayout;
use crate::ltp::table_laws;
use crate::messaging::append;
use crate::messaging::append::{SessionContents, TargetContents};
use crate::messaging::append_laws;
use crate::messaging::folder;
use crate::messaging::input::UnicodePstBatchMessage;
use crate::messaging::message;
use crate::messaging::message_laws;
use crate::messaging::plan_laws;
use crate::messaging::row_laws;
use crate::messaging::update;
use crate::messaging::update::TableNodeContents;
use crate::ndb::block::{BlockPlan, UnicodeLeafSubNodeTreeEntry};
use crate::ndb::block_laws;
use crate::ndb::btree::UnicodeNodeBTreeEntry;
use crate::ndb::data_tree;
use crate::ndb::ids::{NodeId, UnicodeBlockId};
use crate::ndb::nodes;
use crate::sorting;

verus! {

/// Whether the data tree below a block gives back the given blocks of data.
pub open spec fn chunks_read(
    plan: BlockPlan,
    id: UnicodeBlockId,
    chunks: Seq<Seq<u8>>,
) -> bool {
    exists|data: Seq<u8>| #[trigger]
        plan_laws::data_reads(plan, id, data) && data_tree::data_chunks(data) == chunks
}

/// Whether a subnode holds the given blocks of rows.
pub open spec fn rows_subnode_reads(
    plan: BlockPlan,
    subnode: UnicodeLeafSubNodeTreeEntry,
    rows_node: NodeId,
    chunks: Seq<Seq<u8>>,
) -> bool {
    subnode.node == rows_node && subnode.sub_node is None && chunks_read(
        plan,
        subnode.block,
        chunks,
    )
}

/// Whether a node holds a table: the pages of its heap in its data, its subnodes, and its rows in one of
/// them.
pub open spec fn table_node_reads(
    plan: BlockPlan,
    entry: UnicodeNodeBTreeEntry,
    rows_node: NodeId,
    pages: Seq<Seq<u8>>,
    chunks: Seq<Seq<u8>>,
    subnodes: Seq<UnicodeLeafSubNodeTreeEntry>,
) -> bool {
    &&& chunks_read(plan, entry.data, pages)
    &&& entry.sub_node matches Some(root) && plan_laws::subnodes_read(plan, root, subnodes)
    &&& exists|subnode: UnicodeLeafSubNodeTreeEntry| #[trigger]
        subnodes.contains(subnode) && rows_subnode_reads(plan, subnode, rows_node, chunks)
}

/// Whether every subnode but the rows is still there.
pub open spec fn keeps_subnodes(
    before: Seq<UnicodeLeafSubNodeTreeEntry>,
    rows_node: NodeId,
    after: Seq<UnicodeLeafSubNodeTreeEntry>,
) -> bool {
    forall|subnode: UnicodeLeafSubNodeTreeEntry|
        before.contains(subnode) && subnode.node != rows_node ==> #[trigger] after.contains(subnode)
}

/// Whether a value stands in a subnode of its own.
pub open spec fn has_value(
    plan: BlockPlan,
    subnodes: Seq<UnicodeLeafSubNodeTreeEntry>,
    value: (NodeId, Seq<u8>),
) -> bool {
    exists|subnode: UnicodeLeafSubNodeTreeEntry| #[trigger]
        subnodes.contains(subnode) && plan_laws::external_entry_reads(plan, subnode, value)
}

/// Whether all values stand in subnodes of their own.
pub open spec fn has_values(
    plan: BlockPlan,
    subnodes: Seq<UnicodeLeafSubNodeTreeEntry>,
    external: Seq<(NodeId, Seq<u8>)>,
) -> bool {
    forall|i: int| 0 <= i < external.len() ==> has_value(plan, subnodes, #[trigger] external[i])
}

/// Whether a table has the given layout and the rows with the given identifiers, each at its position, and
/// no others.
pub open spec fn table_has(
    layout: TableLayout,
    rows_node: NodeId,
    pages: Seq<Seq<u8>>,
    chunks: Seq<Seq<u8>>,
    ids: Seq<u32>,
) -> bool {
    &&& table_laws::read_context(pages) matches Some(context) && table_laws::has_layout(
        context,
        layout,
    ) && table_laws::context_rows(context) == rows_node.value
    &&& table_laws::row_count(chunks, layout.end_existence_bitmap as int) == ids.len()
    &&& forall|id: u32| #[trigger]
        table_laws::row_position(pages, id) == table_laws::first_position(ids, id, 0)
}

proof fn lemma_sorted_contains(
    entries: Seq<UnicodeLeafSubNodeTreeEntry>,
    entry: UnicodeLeafSubNodeTreeEntry,
)
    ensures
        sorting::sorted_by_key(entries).contains(entry) == entries.contains(entry),
{
    broadcast use vstd::seq_lib::group_to_multiset_ensures;

    sorting::law_sorted_by_key(entries, 0);
    assert(entries.to_multiset().contains(entry) == sorting::sorted_by_key(
        entries,
    ).to_multiset().contains(entry));
}

proof fn lemma_chunks_read(
    plan: BlockPlan,
    id: UnicodeBlockId,
    chunks: Seq<Seq<u8>>,
)
    requires
        plan_laws::data_reads(plan, id, bytes::concat(data_tree::filled_chunks(chunks))),
        block_laws::chunks_full(data_tree::filled_chunks(chunks)),
    ensures
        chunks_read(plan, id, data_tree::filled_chunks(chunks)),
{
    block_laws::law_full_chunks_split(data_tree::filled_chunks(chunks));
}

/// What the node of a rebuilt table holds.
pub proof fn lemma_table_node(
    plan: BlockPlan,
    entry: UnicodeNodeBTreeEntry,
    contents: TableNodeContents,
    rebuilt: RebuiltContents,
    external: Seq<(NodeId, Seq<u8>)>,
    row_size: int,
    count: nat,
) -> (subnodes: Seq<UnicodeLeafSubNodeTreeEntry>)
    requires
        append_laws::contents_is(plan, entry, contents, rebuilt, external),
        block_laws::chunks_full(rebuilt.heap_pages),
        rebuild_laws::holds_rows(rebuilt.row_chunks, row_size, count),
        count > 0,
    ensures
        table_node_reads(
            plan,
            entry,
            contents.rows_node,
            rebuilt.heap_pages,
            data_tree::filled_chunks(rebuilt.row_chunks),
            subnodes,
        ),
        keeps_subnodes(contents.subnodes, contents.rows_node, subnodes),
        has_values(plan, subnodes, external),
{
    let entries = choose|entries: Seq<UnicodeLeafSubNodeTreeEntry>|
        append_laws::contents_read(plan, entry, contents, rebuilt, external, entries);
    let subnodes = sorting::sorted_by_key(entries);
    let chunks = data_tree::filled_chunks(rebuilt.row_chunks);
    block_laws::law_full_chunks_split(rebuilt.heap_pages);
    lemma_chunks_read(plan, entry.data, rebuilt.heap_pages);
    rebuild_laws::law_blocks_hold_rows(rebuilt.row_chunks, row_size, count);
    let rows = choose|rows: UnicodeBlockId| #[trigger]
        plan_laws::data_reads(plan, rows, bytes::concat(chunks)) && append_laws::has_prefix(
            entries,
            update::with_rows_node(contents.subnodes, contents.rows_node, rows),
        ) && entries.len() == update::with_rows_node(
            contents.subnodes,
            contents.rows_node,
            rows,
        ).len() + external.len();
    lemma_chunks_read(plan, rows, rebuilt.row_chunks);
    let first = update::with_rows_node(contents.subnodes, contents.rows_node, rows);
    assert forall|subnode: UnicodeLeafSubNodeTreeEntry| first.contains(subnode) implies
        #[trigger] subnodes.contains(subnode) by {
        let at = first.index_of(subnode);
        assert(entries.take(first.len() as int)[at] == entries[at]);
        assert(entries.contains(subnode));
        lemma_sorted_contains(entries, subnode);
    }
    let own = UnicodeLeafSubNodeTreeEntry {
        node: contents.rows_node,
        block: rows,
        sub_node: None,
    };
    append_laws::law_rows_node_keeps_subnodes(contents.subnodes, contents.rows_node, rows, own);
    assert(subnodes.contains(own));
    assert(rows_subnode_reads(plan, own, contents.rows_node, chunks));
    assert forall|subnode: UnicodeLeafSubNodeTreeEntry|
        contents.subnodes.contains(subnode) && subnode.node
            != contents.rows_node implies #[trigger] subnodes.contains(subnode) by {
        append_laws::law_rows_node_keeps_subnodes(
            contents.subnodes,
            contents.rows_node,
            rows,
            subnode,
        );
    }
    assert forall|i: int| 0 <= i < external.len() implies has_value(
        plan,
        subnodes,
        #[trigger] external[i],
    ) by {
        assert(entries.len() >= external.len());
        let subnode = entries[entries.len() - external.len() + i];
        assert(plan_laws::external_entry_reads(plan, subnode, external[i]));
        assert(entries.contains(subnode));
        lemma_sorted_contains(entries, subnode);
    }
    subnodes
}

/// A table that a node gives back is still given back once blocks were added.
pub proof fn lemma_contents_grows(
    before: BlockPlan,
    after: BlockPlan,
    entry: UnicodeNodeBTreeEntry,
    contents: TableNodeContents,
    rebuilt: RebuiltContents,
    external: Seq<(NodeId, Seq<u8>)>,
)
    requires
        block_laws::plan_wf(before),
        block_laws::plan_grows(before, after),
        append_laws::contents_is(before, entry, contents, rebuilt, external),
    ensures
        append_laws::contents_is(after, entry, contents, rebuilt, external),
{
    let entries = choose|entries: Seq<UnicodeLeafSubNodeTreeEntry>|
        append_laws::contents_read(before, entry, contents, rebuilt, external, entries);
    plan_laws::lemma_data_reads_grows(
        before,
        after,
        entry.data,
        bytes::concat(data_tree::filled_chunks(rebuilt.heap_pages)),
    );
    plan_laws::lemma_subnodes_read_grows(
        before,
        after,
        entry.sub_node->Some_0,
        sorting::sorted_by_key(entries),
    );
    let data = bytes::concat(data_tree::filled_chunks(rebuilt.row_chunks));
    let rows = choose|rows: UnicodeBlockId| #[trigger]
        plan_laws::data_reads(before, rows, data) && append_laws::has_prefix(
            entries,
            update::with_rows_node(contents.subnodes, contents.rows_node, rows),
        ) && entries.len() == update::with_rows_node(
            contents.subnodes,
            contents.rows_node,
            rows,
        ).len() + external.len();
    plan_laws::lemma_data_reads_grows(before, after, rows, data);
    assert forall|i: int| 0 <= i < external.len() implies plan_laws::external_entry_reads(
        after,
        #[trigger] entries[entries.len() - external.len() + i],
        external[i],
    ) by {
        let subnode = entries[entries.len() - external.len() + i];
        assert(plan_laws::external_entry_reads(before, subnode, external[i]));
        plan_laws::lemma_data_reads_grows(before, after, subnode.block, external[i].1);
    }
    assert(append_laws::contents_read(after, entry, contents, rebuilt, external, entries));
}

/// A property context that a node gives back is still given back once blocks were added.
pub proof fn lemma_properties_grow(
    before: BlockPlan,
    after: BlockPlan,
    data: UnicodeBlockId,
    sub_node: Option<UnicodeBlockId>,
    properties: Seq<(u16, EncodedValue)>,
    subnodes: Seq<UnicodeLeafSubNodeTreeEntry>,
)
    requires
        block_laws::plan_wf(before),
        block_laws::plan_grows(before, after),
        append_laws::property_node_is(before, data, sub_node, properties, subnodes),
    ensures
        append_laws::property_node_is(after, data, sub_node, properties, subnodes),
{
    let (pages, external, entries) = choose|
        pages: Seq<Seq<u8>>,
        external: Seq<(NodeId, Seq<u8>)>,
        entries: Seq<UnicodeLeafSubNodeTreeEntry>,
    |
        append_laws::property_node_reads(
            before,
            data,
            sub_node,
            properties,
            subnodes,
            pages,
            external,
            entries,
        );
    plan_laws::lemma_data_reads_grows(
        before,
        after,
        data,
        bytes::concat(data_tree::filled_chunks(pages)),
    );
    if let Some(root) = sub_node {
        plan_laws::lemma_subnodes_read_grows(
            before,
            after,
            root,
            sorting::sorted_by_key(entries),
        );
    }
    assert forall|i: int| 0 <= i < external.len() implies plan_laws::external_entry_reads(
        after,
        #[trigger] entries[subnodes.len() + i],
        external[i],
    ) by {
        let subnode = entries[subnodes.len() + i];
        assert(plan_laws::external_entry_reads(before, subnode, external[i]));
        plan_laws::lemma_data_reads_grows(before, after, subnode.block, external[i].1);
    }
    assert(append_laws::property_node_reads(
        after,
        data,
        sub_node,
        properties,
        subnodes,
        pages,
        external,
        entries,
    ));
}

/// Whether a property context gives back a property as it was, or the one that was set.
pub open spec fn changed_property_is(
    properties: Seq<(u16, EncodedValue)>,
    set: u16,
    value: EncodedValue,
    pages: Seq<Seq<u8>>,
    external: Seq<(NodeId, Seq<u8>)>,
    id: u16,
) -> bool {
    match if id == set {
        Some(value)
    } else {
        property_laws::first_property(properties, id, 0)
    } {
        None => property_laws::property_in_pages(pages, id) is None,
        Some(value) => property_laws::is_value(
            property_laws::property_in_pages(pages, id),
            external,
            value,
        ),
    }
}

/// Whether a node holds a property context in which one property was set: every other property that it
/// had, and every subnode.
pub open spec fn changed_properties_read(
    plan: BlockPlan,
    entry: UnicodeNodeBTreeEntry,
    properties: Seq<(u16, EncodedValue)>,
    subnodes: Seq<UnicodeLeafSubNodeTreeEntry>,
    set: u16,
    value: EncodedValue,
    pages: Seq<Seq<u8>>,
    external: Seq<(NodeId, Seq<u8>)>,
    entries: Seq<UnicodeLeafSubNodeTreeEntry>,
) -> bool {
    &&& chunks_read(plan, entry.data, pages)
    &&& match entry.sub_node {
        None => entries.len() == 0,
        Some(root) => plan_laws::subnodes_read(plan, root, entries),
    }
    &&& forall|subnode: UnicodeLeafSubNodeTreeEntry|
        subnodes.contains(subnode) ==> #[trigger] entries.contains(subnode)
    &&& has_values(plan, entries, external)
    &&& forall|id: u16| #[trigger]
        changed_property_is(properties, set, value, pages, external, id)
}

/// Whether a node holds a property context in which one property was set.
pub open spec fn changed_properties_are(
    plan: BlockPlan,
    entry: UnicodeNodeBTreeEntry,
    properties: Seq<(u16, EncodedValue)>,
    subnodes: Seq<UnicodeLeafSubNodeTreeEntry>,
    set: u16,
    value: EncodedValue,
) -> bool {
    exists|
        pages: Seq<Seq<u8>>,
        external: Seq<(NodeId, Seq<u8>)>,
        entries: Seq<UnicodeLeafSubNodeTreeEntry>,
    |
        changed_properties_read(
            plan,
            entry,
            properties,
            subnodes,
            set,
            value,
            pages,
            external,
            entries,
        )
}

/// What the node of a property context holds in which one property was set.
pub proof fn lemma_changed_properties(
    plan: BlockPlan,
    entry: UnicodeNodeBTreeEntry,
    properties: Seq<(u16, EncodedValue)>,
    subnodes: Seq<UnicodeLeafSubNodeTreeEntry>,
    set: u16,
    value: EncodedValue,
)
    requires
        properties.len() < u64::MAX,
        value.prop_type != PropertyType::Null,
        append_laws::property_node_is(
            plan,
            entry.data,
            entry.sub_node,
            folder::with_property(properties, set, value, 0),
            subnodes,
        ),
    ensures
        changed_properties_are(plan, entry, properties, subnodes, set, value),
{
    let changed = folder::with_property(properties, set, value, 0);
    let (pages, external, entries) = choose|
        pages: Seq<Seq<u8>>,
        external: Seq<(NodeId, Seq<u8>)>,
        entries: Seq<UnicodeLeafSubNodeTreeEntry>,
    |
        append_laws::property_node_reads(
            plan,
            entry.data,
            entry.sub_node,
            changed,
            subnodes,
            pages,
            external,
            entries,
        );
    let index = nodes::next_internal_index(nodes::subnodes_of(subnodes));
    let sorted = sorting::sorted_by_key(entries);
    append_laws::lemma_set_property_length(properties, set, value);
    message_laws::lemma_context_pages_full(changed, index, pages, external);
    block_laws::law_full_chunks_split(pages);
    assert(chunks_read(plan, entry.data, pages));
    sorting::law_sorted_by_key(entries, 0);
    assert forall|subnode: UnicodeLeafSubNodeTreeEntry| subnodes.contains(subnode) implies
        #[trigger] sorted.contains(subnode) by {
        let at = subnodes.index_of(subnode);
        assert(entries.take(subnodes.len() as int)[at] == entries[at]);
        assert(entries.contains(subnode));
        lemma_sorted_contains(entries, subnode);
    }
    assert forall|i: int| 0 <= i < external.len() implies has_value(
        plan,
        sorted,
        #[trigger] external[i],
    ) by {
        let subnode = entries[subnodes.len() + i];
        assert(plan_laws::external_entry_reads(plan, subnode, external[i]));
        assert(entries.contains(subnode));
        lemma_sorted_contains(entries, subnode);
    }
    assert forall|id: u16| #[trigger]
        changed_property_is(properties, set, value, pages, external, id) by {
        append_laws::law_set_property_keeps_others(properties, set, value, id);
        property_laws::law_property_context_reads_back(changed, index, pages, external, id);
    }
    assert(changed_properties_read(
        plan,
        entry,
        properties,
        subnodes,
        set,
        value,
        pages,
        external,
        sorted,
    ));
}

/// Whether a row of an updated table is as it was, or has the new value and the new version.
pub open spec fn updated_row_is(
    table: TableContents,
    row_version: u32,
    update: UpdateContents,
    pages: Seq<Seq<u8>>,
    chunks: Seq<Seq<u8>>,
    index: int,
) -> bool {
    table_laws::read_row(chunks, table.layout.end_existence_bitmap as int, index) matches Some(data)
        && (if table.rows[index].id != update.row.value {
        data == table.rows[index].data
    } else {
        let cells = rebuild::changed_cells(
            table.layout,
            table.rows[index].cells,
            true,
            Some(update),
            row_version,
        );
        table_laws::row_reads(
            table.layout,
            heap_laws::in_pages(pages),
            data,
            cells,
            cells.len() as int,
        )
    })
}

/// Whether a node holds a table in which one value of one row was changed: its layout, its rows in their
/// order, every other row byte by byte with what it refers to, and every other subnode.
pub open spec fn updated_table_reads(
    plan: BlockPlan,
    entry: UnicodeNodeBTreeEntry,
    node: TableNodeContents,
    row_version: u32,
    update: UpdateContents,
    pages: Seq<Seq<u8>>,
    chunks: Seq<Seq<u8>>,
    subnodes: Seq<UnicodeLeafSubNodeTreeEntry>,
) -> bool {
    &&& table_node_reads(plan, entry, node.rows_node, pages, chunks, subnodes)
    &&& keeps_subnodes(node.subnodes, node.rows_node, subnodes)
    &&& table_has(
        node.table.layout,
        node.rows_node,
        pages,
        chunks,
        rebuild_laws::ids_from(node.table.rows, 0),
    )
    &&& heap_laws::finds_more(
        heap_laws::in_heap(node.table.pages),
        heap_laws::in_pages(pages),
    )
    &&& forall|index: int|
        0 <= index < node.table.rows.len() ==> #[trigger] updated_row_is(
            node.table,
            row_version,
            update,
            pages,
            chunks,
            index,
        )
}

/// Whether a node holds a table in which one value of one row was changed.
pub open spec fn updated_table_is_read(
    plan: BlockPlan,
    entry: UnicodeNodeBTreeEntry,
    node: TableNodeContents,
    row_version: u32,
    update: UpdateContents,
) -> bool {
    exists|
        pages: Seq<Seq<u8>>,
        chunks: Seq<Seq<u8>>,
        subnodes: Seq<UnicodeLeafSubNodeTreeEntry>,
    |
        updated_table_reads(
            plan,
            entry,
            node,
            row_version,
            update,
            pages,
            chunks,
            subnodes,
        )
}

/// Whether the rows of a table can be told apart and kept.
pub open spec fn table_is_sound(table: TableContents) -> bool {
    &&& table_laws::layout_distinct(table.layout)
    &&& rebuild_laws::rows_wf(table)
    &&& heap::heap_wf(table.pages)
}

/// What the node of a table holds in which one value of one row was changed.
pub proof fn lemma_updated_table(
    plan: BlockPlan,
    entry: UnicodeNodeBTreeEntry,
    node: TableNodeContents,
    row_version: u32,
    change: UpdateContents,
)
    requires
        table_is_sound(node.table),
        node.table.rows.len() > 0,
        append_laws::updated_table_is(plan, entry, node, row_version, change),
    ensures
        updated_table_is_read(plan, entry, node, row_version, change),
{
    let table = node.table;
    let size = table.layout.end_existence_bitmap as int;
    let rebuilt = rebuild::spec_rebuild_table(
        table,
        Seq::empty(),
        Some(node.rows_node),
        row_version,
        Some(change),
        true,
    )->Ok_0;
    row_laws::law_updated_table_keeps_rows(
        table,
        node.rows_node,
        row_version,
        change,
        rebuilt,
        0,
    );
    let count = rebuilt.row_ids.len();
    let subnodes = lemma_table_node(plan, entry, node, rebuilt, Seq::empty(), size, count);
    let chunks = data_tree::filled_chunks(rebuilt.row_chunks);
    rebuild_laws::law_blocks_hold_rows(rebuilt.row_chunks, size, count);
    assert forall|index: int| 0 <= index < table.rows.len() implies #[trigger] updated_row_is(
        table,
        row_version,
        change,
        rebuilt.heap_pages,
        chunks,
        index,
    ) by {
        row_laws::law_updated_table_keeps_rows(
            table,
            node.rows_node,
            row_version,
            change,
            rebuilt,
            index,
        );
        assert(table_laws::read_row(chunks, size, index) == table_laws::read_row(
            rebuilt.row_chunks,
            size,
            index,
        ));
    }
    assert(updated_table_reads(
        plan,
        entry,
        node,
        row_version,
        change,
        rebuilt.heap_pages,
        chunks,
        subnodes,
    ));
}

/// The identifiers of the rows of a contents table: those that it had, then those of the new messages.
pub open spec fn appended_ids(table: TableContents, messages: Seq<NodeId>) -> Seq<u32> {
    rebuild_laws::ids_from(table.rows, 0) + Seq::new(messages.len(), |i: int| messages[i].value)
}

/// Whether row `index` of a contents table is the row that it had, or that of a new message.
pub open spec fn appended_row_is(
    table: TableContents,
    inputs: Seq<UnicodePstBatchMessage<'_>>,
    store_record_key: Seq<u8>,
    folder: NodeId,
    messages: Seq<NodeId>,
    message_sizes: Seq<i32>,
    row_version: u32,
    pages: Seq<Seq<u8>>,
    chunks: Seq<Seq<u8>>,
    external: Seq<(NodeId, Seq<u8>)>,
    index: int,
) -> bool {
    table_laws::read_row(chunks, table.layout.end_existence_bitmap as int, index) matches Some(data)
        && (if index < table.rows.len() {
        table_laws::row_reads(
            table.layout,
            heap_laws::in_pages(pages),
            data,
            table.rows[index].cells,
            table.rows[index].cells.len() as int,
        )
    } else {
        row_laws::message_row_is(
            table.layout,
            heap_laws::in_pages(pages),
            data,
            external,
            row_laws::batch_cells(
                table.layout,
                inputs,
                store_record_key,
                folder,
                messages,
                message_sizes,
                row_version,
                index - table.rows.len(),
            ),
        )
    })
}

/// Whether a node holds a contents table with new messages: its layout, the rows that it had and then
/// those of the messages, the values too large for a row, and every other subnode.
pub open spec fn contents_hold(
    plan: BlockPlan,
    entry: UnicodeNodeBTreeEntry,
    contents: TableNodeContents,
    inputs: Seq<UnicodePstBatchMessage<'_>>,
    store_record_key: Seq<u8>,
    folder: NodeId,
    messages: Seq<NodeId>,
    message_sizes: Seq<i32>,
    row_version: u32,
    pages: Seq<Seq<u8>>,
    chunks: Seq<Seq<u8>>,
    subnodes: Seq<UnicodeLeafSubNodeTreeEntry>,
    external: Seq<(NodeId, Seq<u8>)>,
) -> bool {
    let table = contents.table;
    &&& table_node_reads(plan, entry, contents.rows_node, pages, chunks, subnodes)
    &&& keeps_subnodes(contents.subnodes, contents.rows_node, subnodes)
    &&& has_values(plan, subnodes, external)
    &&& table_has(
        table.layout,
        contents.rows_node,
        pages,
        chunks,
        appended_ids(table, messages),
    )
    &&& forall|index: int|
        0 <= index < table.rows.len() + inputs.len() ==> #[trigger] appended_row_is(
            table,
            inputs,
            store_record_key,
            folder,
            messages,
            message_sizes,
            row_version,
            pages,
            chunks,
            external,
            index,
        )
}

/// Whether a node holds a contents table with new messages.
pub open spec fn contents_are(
    plan: BlockPlan,
    entry: UnicodeNodeBTreeEntry,
    contents: TableNodeContents,
    inputs: Seq<UnicodePstBatchMessage<'_>>,
    store_record_key: Seq<u8>,
    folder: NodeId,
    messages: Seq<NodeId>,
    message_sizes: Seq<i32>,
    row_version: u32,
) -> bool {
    exists|
        pages: Seq<Seq<u8>>,
        chunks: Seq<Seq<u8>>,
        subnodes: Seq<UnicodeLeafSubNodeTreeEntry>,
        external: Seq<(NodeId, Seq<u8>)>,
    |
        contents_hold(
            plan,
            entry,
            contents,
            inputs,
            store_record_key,
            folder,
            messages,
            message_sizes,
            row_version,
            pages,
            chunks,
            subnodes,
            external,
        )
}

proof fn lemma_contents(
    plan: BlockPlan,
    entry: UnicodeNodeBTreeEntry,
    contents: TableNodeContents,
    inputs: Seq<UnicodePstBatchMessage<'_>>,
    store_record_key: Seq<u8>,
    folder: NodeId,
    messages: Seq<NodeId>,
    message_sizes: Seq<i32>,
    next_subnode_index: u32,
    row_version: u32,
    rebuilt: RebuiltContents,
    external: Seq<(NodeId, Seq<u8>)>,
)
    requires
        table_laws::layout_distinct(contents.table.layout),
        rebuild_laws::rows_wf(contents.table),
        inputs.len() > 0,
        messages.len() == inputs.len(),
        message_sizes.len() == inputs.len(),
        message::spec_rebuild_contents_table(
            contents.table,
            inputs,
            store_record_key,
            folder,
            messages,
            message_sizes,
            contents.rows_node,
            next_subnode_index,
            row_version,
        ) == Ok::<_, PstError>((rebuilt, external)),
        append_laws::contents_is(plan, entry, contents, rebuilt, external),
    ensures
        rebuilt.row_ids.len() == contents.table.rows.len() + inputs.len(),
        contents_are(
            plan,
            entry,
            contents,
            inputs,
            store_record_key,
            folder,
            messages,
            message_sizes,
            row_version,
        ),
{
    let table = contents.table;
    let size = table.layout.end_existence_bitmap as int;
    let count = table.rows.len() + inputs.len();
    row_laws::law_contents_table_keeps_rows(
        table,
        inputs,
        store_record_key,
        folder,
        messages,
        message_sizes,
        contents.rows_node,
        next_subnode_index,
        row_version,
        rebuilt,
        external,
        0,
    );
    let chunks = data_tree::filled_chunks(rebuilt.row_chunks);
    let subnodes = lemma_table_node(plan, entry, contents, rebuilt, external, size, count);
    rebuild_laws::law_blocks_hold_rows(rebuilt.row_chunks, size, count);
    assert forall|index: int| 0 <= index < count implies #[trigger] appended_row_is(
        table,
        inputs,
        store_record_key,
        folder,
        messages,
        message_sizes,
        row_version,
        rebuilt.heap_pages,
        chunks,
        external,
        index,
    ) && rebuilt.row_ids[index] == appended_ids(table, messages)[index] by {
        row_laws::law_contents_table_keeps_rows(
            table,
            inputs,
            store_record_key,
            folder,
            messages,
            message_sizes,
            contents.rows_node,
            next_subnode_index,
            row_version,
            rebuilt,
            external,
            index,
        );
        assert(table_laws::read_row(chunks, size, index) == table_laws::read_row(
            rebuilt.row_chunks,
            size,
            index,
        ));
    }
    assert forall|index: int| 0 <= index < count implies #[trigger] rebuilt.row_ids[index]
        == appended_ids(table, messages)[index] by {
        assert(appended_row_is(
            table,
            inputs,
            store_record_key,
            folder,
            messages,
            message_sizes,
            row_version,
            rebuilt.heap_pages,
            chunks,
            external,
            index,
        ));
    }
    assert(rebuilt.row_ids =~= appended_ids(table, messages));
    assert(contents_hold(
        plan,
        entry,
        contents,
        inputs,
        store_record_key,
        folder,
        messages,
        message_sizes,
        row_version,
        rebuilt.heap_pages,
        chunks,
        subnodes,
        external,
    ));
}

/// A table without rows cannot be written anew with an update.
pub proof fn lemma_update_has_rows(
    plan: BlockPlan,
    node: TableNodeContents,
    row_version: u32,
    change: UpdateContents,
)
    requires
        table_is_sound(node.table),
        update::with_updated_table(plan, node, row_version, change).1 is Ok,
    ensures
        node.table.rows.len() > 0,
{
    reveal(update::with_updated_table);
    if node.table.rows.len() == 0 {
        let rebuilt = rebuild::spec_rebuild_table(
            node.table,
            Seq::empty(),
            Some(node.rows_node),
            row_version,
            Some(change),
            true,
        )->Ok_0;
        rebuild_laws::law_rebuilt_table_reads_back(
            node.table,
            Seq::empty(),
            Some(node.rows_node),
            row_version,
            Some(change),
            true,
            rebuilt,
            0,
            0,
        );
        let size = node.table.layout.end_existence_bitmap as int;
        let rows = choose|rows: Seq<Seq<u8>>|
            rows.len() == 0 && #[trigger] rebuild_laws::rows_hold(rebuilt.row_chunks, size, rows);
        assert(rebuilt.row_chunks.len() == 0);
        let (after, data) = data_tree::with_data_tree(plan, rebuilt.heap_pages);
        reveal(data_tree::with_data_tree);
        assert(data_tree::with_data_tree(after, rebuilt.row_chunks).1 is Err);
    }
}

/// Whether an entry stands among the nodes, for the node and the parent of another.
pub open spec fn has_node(
    nodes: Seq<UnicodeNodeBTreeEntry>,
    old: UnicodeNodeBTreeEntry,
    entry: UnicodeNodeBTreeEntry,
) -> bool {
    nodes.contains(entry) && entry.node == old.node && entry.parent == old.parent
}

proof fn lemma_counted_folder(
    plan: BlockPlan,
    folder: UnicodeNodeBTreeEntry,
    properties: Seq<(u16, EncodedValue)>,
    subnodes: Seq<UnicodeLeafSubNodeTreeEntry>,
    parent_hierarchy: Option<TableNodeContents>,
    count: nat,
    row_version: u32,
)
    requires
        block_laws::plan_wf(plan),
        properties.len() < u64::MAX,
        parent_hierarchy matches Some(parent) ==> table_is_sound(parent.table),
    ensures
        append::with_counted_folder(
            plan,
            folder,
            properties,
            subnodes,
            parent_hierarchy,
            count,
            row_version,
        ) matches (after, Ok((entry, hierarchy))) ==> {
            &&& count <= i32::MAX
            &&& entry.node == folder.node && entry.parent == folder.parent
            &&& changed_properties_are(
                after,
                entry,
                properties,
                subnodes,
                0x3602,
                property::integer32_value(count as u32),
            )
            &&& match parent_hierarchy {
                None => hierarchy is None,
                Some(parent) => hierarchy matches Some(above) && above.node == parent.entry.node
                    && above.parent == parent.entry.parent && updated_table_is_read(
                    after,
                    above,
                    parent,
                    row_version,
                    append::count_update(folder.node, count),
                ),
            }
        },
{
    reveal(append::with_counted_folder);
    if let (after, Ok((entry, hierarchy))) = append::with_counted_folder(
        plan,
        folder,
        properties,
        subnodes,
        parent_hierarchy,
        count,
        row_version,
    ) {
        let value = property::integer32_value(count as u32);
        let changed = folder::with_property(properties, 0x3602, value, 0);
        append_laws::law_property_node_reads_back(plan, changed, subnodes);
        let first = update::with_property_node(plan, changed, subnodes).0;
        if let Some(parent) = parent_hierarchy {
            let change = append::count_update(folder.node, count);
            append_laws::law_updated_table_reads_back(first, parent, row_version, change);
            lemma_update_has_rows(first, parent, row_version, change);
            lemma_properties_grow(first, after, entry.data, entry.sub_node, changed, subnodes);
            let above = hierarchy->Some_0;
            reveal(update::with_updated_table);
            lemma_updated_table(after, above, parent, row_version, change);
        }
        lemma_changed_properties(after, entry, properties, subnodes, 0x3602, value);
    }
}

/// Whether the blocks and the nodes of an append hold it: a contents table with the rows that it had and
/// then those of the messages, a folder whose count is the number of these rows and whose other properties
/// and subnodes are as they were, and the same count in the folder's row of the hierarchy table above,
/// where there is one.
pub open spec fn is_appended(
    plan: BlockPlan,
    after: Seq<UnicodeNodeBTreeEntry>,
    target: TargetContents,
    inputs: Seq<UnicodePstBatchMessage<'_>>,
    store_record_key: Seq<u8>,
    messages: Seq<NodeId>,
    message_sizes: Seq<i32>,
    row_version: u32,
) -> bool {
    let count = target.contents.table.rows.len() + inputs.len();
    &&& count <= i32::MAX
    &&& exists|entry: UnicodeNodeBTreeEntry| #[trigger]
        has_node(after, target.contents.entry, entry) && contents_are(
            plan,
            entry,
            target.contents,
            inputs,
            store_record_key,
            target.folder.node,
            messages,
            message_sizes,
            row_version,
        )
    &&& exists|entry: UnicodeNodeBTreeEntry| #[trigger]
        has_node(after, target.folder, entry) && changed_properties_are(
            plan,
            entry,
            target.properties,
            target.subnodes,
            0x3602,
            property::integer32_value(count as u32),
        )
    &&& target.parent_hierarchy matches Some(parent) ==> exists|entry: UnicodeNodeBTreeEntry|
        #[trigger]
        has_node(after, parent.entry, entry) && updated_table_is_read(
            plan,
            entry,
            parent,
            row_version,
            append::count_update(target.folder.node, count),
        )
}

/// The rest of an append, after its contents table was rebuilt with the messages, holds all of it.
pub proof fn law_append_reads_back(
    session: SessionContents,
    entries: Seq<UnicodeNodeBTreeEntry>,
    target: TargetContents,
    inputs: Seq<UnicodePstBatchMessage<'_>>,
    store_record_key: Seq<u8>,
    messages: Seq<NodeId>,
    message_sizes: Seq<i32>,
    next_subnode_index: u32,
    rebuilt: RebuiltContents,
    external: Seq<(NodeId, Seq<u8>)>,
)
    requires
        table_laws::layout_distinct(target.contents.table.layout),
        rebuild_laws::rows_wf(target.contents.table),
        target.parent_hierarchy matches Some(parent) ==> table_is_sound(parent.table),
        target.properties.len() < u64::MAX,
        inputs.len() > 0,
        messages.len() == inputs.len(),
        message_sizes.len() == inputs.len(),
        message::spec_rebuild_contents_table(
            target.contents.table,
            inputs,
            store_record_key,
            target.folder.node,
            messages,
            message_sizes,
            target.contents.rows_node,
            next_subnode_index,
            session.header.unique,
        ) == Ok::<_, PstError>((rebuilt, external)),
    ensures
        append::finished_append(session, entries, target, rebuilt, external) matches Ok(
            (plan, after),
        ) ==> is_appended(
            plan,
            after,
            target,
            inputs,
            store_record_key,
            messages,
            message_sizes,
            session.header.unique,
        ),
{
    reveal(append::finished_append);
    if let Ok((plan, after)) = append::finished_append(
        session,
        entries,
        target,
        rebuilt,
        external,
    ) {
        let start = session.next_plan();
        let count = rebuilt.row_ids.len();
        append_laws::law_contents_read_back(start, target.contents, rebuilt, external);
        let (first, result) = append::with_contents(start, target.contents, rebuilt, external);
        let contents = result->Ok_0;
        append_laws::lemma_counted_folder_grows(
            first,
            target.folder,
            target.properties,
            target.subnodes,
            target.parent_hierarchy,
            count,
            session.header.unique,
        );
        lemma_counted_folder(
            first,
            target.folder,
            target.properties,
            target.subnodes,
            target.parent_hierarchy,
            count,
            session.header.unique,
        );
        let (folder, hierarchy) = append::with_counted_folder(
            first,
            target.folder,
            target.properties,
            target.subnodes,
            target.parent_hierarchy,
            count,
            session.header.unique,
        ).1->Ok_0;
        lemma_contents_grows(first, plan, contents, target.contents, rebuilt, external);
        lemma_contents(
            plan,
            contents,
            target.contents,
            inputs,
            store_record_key,
            target.folder.node,
            messages,
            message_sizes,
            next_subnode_index,
            session.header.unique,
            rebuilt,
            external,
        );
        nodes::law_replaced_nodes(
            entries,
            contents,
            folder,
            hierarchy,
            session.message_entries,
            contents,
        );
        nodes::law_replaced_nodes(
            entries,
            contents,
            folder,
            hierarchy,
            session.message_entries,
            folder,
        );
        reveal(append::with_contents);
        assert(has_node(after, target.contents.entry, contents));
        assert(has_node(after, target.folder, folder));
        if let Some(parent) = target.parent_hierarchy {
            let above = hierarchy->Some_0;
            nodes::law_replaced_nodes(
                entries,
                contents,
                folder,
                hierarchy,
                session.message_entries,
                above,
            );
            assert(has_node(after, parent.entry, above));
        }
    }
}

/// A completed append holds all of it: each node stands in the node list under its parent, and is read
/// from the planned blocks.
pub proof fn law_completed_append_reads_back(
    session: SessionContents,
    entries: Seq<UnicodeNodeBTreeEntry>,
    target: TargetContents,
    inputs: Seq<UnicodePstBatchMessage<'_>>,
    store_record_key: Seq<u8>,
    messages: Seq<NodeId>,
    message_sizes: Seq<i32>,
)
    requires
        table_laws::layout_distinct(target.contents.table.layout),
        rebuild_laws::rows_wf(target.contents.table),
        target.parent_hierarchy matches Some(parent) ==> table_is_sound(parent.table),
        target.properties.len() < u64::MAX,
        inputs.len() > 0,
        messages.len() == inputs.len(),
        message_sizes.len() == inputs.len(),
    ensures
        append::completed_append(
            session,
            entries,
            target,
            inputs,
            store_record_key,
            messages,
            message_sizes,
        ) matches Ok((plan, after)) ==> is_appended(
            plan,
            after,
            target,
            inputs,
            store_record_key,
            messages,
            message_sizes,
            session.header.unique,
        ),
{
    if let Ok((rebuilt, external)) = append::appended_contents(
        session,
        target,
        inputs,
        store_record_key,
        messages,
        message_sizes,
    ) {
        law_append_reads_back(
            session,
            entries,
            target,
            inputs,
            store_record_key,
            messages,
            message_sizes,
            append::next_contents_index(
                nodes::subnodes_of(target.contents.subnodes),
                target.contents.rows_node,
            ),
            rebuilt,
            external,
        );
    }
}

} // verus!
