//! What creating a folder leaves behind, as a reader of its nodes finds it.

use vstd::prelude::*;

use crate::ltp::heap_laws;
use crate::ltp::property;
use crate::ltp::property_context;
use crate::ltp::property_laws;
use crate::ltp::rebuild::TableContents;
use crate::ltp::rebuild_laws;
use crate::ltp::row_table;
use crate::ltp::table_laws;
use crate::messaging::append_laws;
use crate::messaging::create;
use crate::messaging::create::{FolderNodes, ParentContents};
use crate::messaging::folder;
use crate::messaging::plan_laws;
use crate::messaging::row_laws;
use crate::messaging::update::TableNodeContents;
use crate::messaging::whole_laws;
use crate::ndb::block::{BlockPlan, UnicodeLeafSubNodeTreeEntry};
use crate::ndb::block_laws;
use crate::ndb::btree::{UnicodeBlockBTreeEntry, UnicodeNodeBTreeEntry};
use crate::ndb::data_tree;
use crate::ndb::header::HeaderContents;
use crate::ndb::ids::{NodeId, NodeIdType};
use crate::ndb::nodes;

verus! {

/// Whether row `index` of a hierarchy table is the row that it had, byte by byte, or that of a new folder.
pub open spec fn hierarchy_row_is(
    table: TableContents,
    store_record_key: Seq<u8>,
    folder: NodeId,
    name: Seq<char>,
    row_version: u32,
    pages: Seq<Seq<u8>>,
    chunks: Seq<Seq<u8>>,
    index: int,
) -> bool {
    table_laws::read_row(chunks, table.layout.end_existence_bitmap as int, index) matches Some(data)
        && (if index < table.rows.len() {
        data == table.rows[index].data
    } else {
        rebuild_laws::new_row_is(
            table.layout,
            heap_laws::in_pages(pages),
            data,
            folder::folder_row(
                table.layout.columns,
                store_record_key,
                folder,
                name,
                false,
                row_version,
            ),
        )
    })
}

/// Whether a node holds a hierarchy table with a new folder: its layout, the rows that it had with what
/// they refer to, then that of the folder, and every other subnode.
pub open spec fn hierarchy_reads(
    plan: BlockPlan,
    entry: UnicodeNodeBTreeEntry,
    node: TableNodeContents,
    store_record_key: Seq<u8>,
    folder: NodeId,
    name: Seq<char>,
    row_version: u32,
    pages: Seq<Seq<u8>>,
    chunks: Seq<Seq<u8>>,
    subnodes: Seq<UnicodeLeafSubNodeTreeEntry>,
) -> bool {
    let table = node.table;
    &&& whole_laws::table_node_reads(plan, entry, node.rows_node, pages, chunks, subnodes)
    &&& whole_laws::keeps_subnodes(node.subnodes, node.rows_node, subnodes)
    &&& whole_laws::table_has(
        table.layout,
        node.rows_node,
        pages,
        chunks,
        rebuild_laws::ids_from(table.rows, 0).push(folder.value),
    )
    &&& heap_laws::finds_more(heap_laws::in_heap(table.pages), heap_laws::in_pages(pages))
    &&& forall|index: int|
        0 <= index <= table.rows.len() ==> #[trigger] hierarchy_row_is(
            table,
            store_record_key,
            folder,
            name,
            row_version,
            pages,
            chunks,
            index,
        )
}

/// Whether a node holds the hierarchy table of a folder with a new folder in it: the table that there was
/// with one more row, or else a table of one row.
pub open spec fn hierarchy_holds(
    plan: BlockPlan,
    entry: UnicodeNodeBTreeEntry,
    hierarchy: Option<TableNodeContents>,
    store_record_key: Seq<u8>,
    folder: NodeId,
    name: Seq<char>,
    row_version: u32,
) -> bool {
    match hierarchy {
        None => entry.sub_node is None && (row_table::row_table(seq![folder]) matches Ok(table)
            && plan_laws::data_reads(plan, entry.data, table)),
        Some(node) => exists|
            pages: Seq<Seq<u8>>,
            chunks: Seq<Seq<u8>>,
            subnodes: Seq<UnicodeLeafSubNodeTreeEntry>,
        |
            hierarchy_reads(
                plan,
                entry,
                node,
                store_record_key,
                folder,
                name,
                row_version,
                pages,
                chunks,
                subnodes,
            ),
    }
}

proof fn lemma_hierarchy(
    plan: BlockPlan,
    entry: UnicodeNodeBTreeEntry,
    hierarchy: Option<TableNodeContents>,
    store_record_key: Seq<u8>,
    folder: NodeId,
    name: Seq<char>,
    row_version: u32,
)
    requires
        hierarchy matches Some(node) ==> whole_laws::table_is_sound(node.table),
        append_laws::hierarchy_is(
            plan,
            entry.data,
            entry.sub_node,
            hierarchy,
            store_record_key,
            folder,
            name,
            row_version,
        ),
    ensures
        hierarchy_holds(
            plan,
            entry,
            hierarchy,
            store_record_key,
            folder,
            name,
            row_version,
        ),
{
    if let Some(node) = hierarchy {
        let table = node.table;
        let size = table.layout.end_existence_bitmap as int;
        let count = table.rows.len() + 1;
        let rebuilt = folder::hierarchy_table(
            table,
            store_record_key,
            folder,
            name,
            false,
            node.rows_node,
            row_version,
        )->Ok_0;
        row_laws::law_hierarchy_table_keeps_rows(
            table,
            store_record_key,
            folder,
            name,
            false,
            node.rows_node,
            row_version,
            rebuilt,
            0,
        );
        let given = UnicodeNodeBTreeEntry {
            data: entry.data,
            sub_node: entry.sub_node,
            ..node.entry
        };
        let chunks = data_tree::filled_chunks(rebuilt.row_chunks);
        let subnodes = whole_laws::lemma_table_node(
            plan,
            given,
            node,
            rebuilt,
            Seq::empty(),
            size,
            count,
        );
        rebuild_laws::law_blocks_hold_rows(rebuilt.row_chunks, size, count);
        assert forall|index: int| 0 <= index <= table.rows.len() implies #[trigger] hierarchy_row_is(
            table,
            store_record_key,
            folder,
            name,
            row_version,
            rebuilt.heap_pages,
            chunks,
            index,
        ) by {
            row_laws::law_hierarchy_table_keeps_rows(
                table,
                store_record_key,
                folder,
                name,
                false,
                node.rows_node,
                row_version,
                rebuilt,
                index,
            );
            assert(table_laws::read_row(chunks, size, index) == table_laws::read_row(
                rebuilt.row_chunks,
                size,
                index,
            ));
        }
        assert(hierarchy_reads(
            plan,
            entry,
            node,
            store_record_key,
            folder,
            name,
            row_version,
            rebuilt.heap_pages,
            chunks,
            subnodes,
        ));
    }
}

proof fn lemma_hierarchy_is_grows(
    before: BlockPlan,
    after: BlockPlan,
    entry: UnicodeNodeBTreeEntry,
    hierarchy: Option<TableNodeContents>,
    store_record_key: Seq<u8>,
    folder: NodeId,
    name: Seq<char>,
    row_version: u32,
)
    requires
        block_laws::plan_wf(before),
        block_laws::plan_grows(before, after),
        append_laws::hierarchy_is(
            before,
            entry.data,
            entry.sub_node,
            hierarchy,
            store_record_key,
            folder,
            name,
            row_version,
        ),
    ensures
        append_laws::hierarchy_is(
            after,
            entry.data,
            entry.sub_node,
            hierarchy,
            store_record_key,
            folder,
            name,
            row_version,
        ),
{
    match hierarchy {
        None => {
            let table = row_table::row_table(seq![folder])->Ok_0;
            plan_laws::lemma_data_reads_grows(before, after, entry.data, table);
        },
        Some(node) => {
            let rebuilt = folder::hierarchy_table(
                node.table,
                store_record_key,
                folder,
                name,
                false,
                node.rows_node,
                row_version,
            )->Ok_0;
            whole_laws::lemma_contents_grows(
                before,
                after,
                UnicodeNodeBTreeEntry {
                    data: entry.data,
                    sub_node: entry.sub_node,
                    ..node.entry
                },
                node,
                rebuilt,
                Seq::empty(),
            );
        },
    }
}

/// Whether a property context is that of a new folder, as to one property.
pub open spec fn new_folder_property_is(data: Seq<u8>, name: Seq<char>, id: u16) -> bool {
    match property_laws::first_simple(folder::folder_properties(name, 0, false), id, 0) {
        None => property_laws::property_in_pages(seq![data], id) is None,
        Some(property) => property_laws::is_simple(
            property_laws::property_in_pages(seq![data], id),
            Seq::empty(),
            property,
        ),
    }
}

/// Whether a node holds the properties of a new folder: its name, that it is empty, and its class.
pub open spec fn new_folder_reads(
    plan: BlockPlan,
    entry: UnicodeNodeBTreeEntry,
    name: Seq<char>,
) -> bool {
    entry.sub_node is None && exists|data: Seq<u8>| #[trigger]
        plan_laws::data_reads(plan, entry.data, data) && forall|id: u16| #[trigger]
            new_folder_property_is(data, name, id)
}

proof fn lemma_new_folder(plan: BlockPlan, entry: UnicodeNodeBTreeEntry, name: Seq<char>)
    requires
        entry.sub_node is None,
        folder::folder_context(name, 0, false) matches Ok(data) && plan_laws::data_reads(
            plan,
            entry.data,
            data,
        ),
    ensures
        new_folder_reads(plan, entry, name),
{
    let data = folder::folder_context(name, 0, false)->Ok_0;
    let properties = folder::folder_properties(name, 0, false);
    assert forall|id: u16| #[trigger] new_folder_property_is(data, name, id) by {
        reveal_with_fuel(property_laws::first_simple, 7);
        reveal_with_fuel(property_context::node_of, 2);
        property_laws::law_simple_context_reads_back(properties, Seq::empty(), data, id);
    }
}

/// Whether the blocks and the nodes of a new folder hold it: the folder itself below its parent, its row in
/// the hierarchy table of the parent, and that the parent has folders, in its properties and in its row
/// above. A parent that had folders before is as it was.
pub open spec fn is_created(
    plan: BlockPlan,
    after: Seq<UnicodeNodeBTreeEntry>,
    parent: ParentContents,
    store_record_key: Seq<u8>,
    new: FolderNodes,
    name: Seq<char>,
    row_version: u32,
) -> bool {
    &&& exists|entry: UnicodeNodeBTreeEntry| #[trigger]
        after.contains(entry) && entry.node == new.folder && entry.parent == Some(
            parent.entry.node,
        ) && new_folder_reads(plan, entry, name)
    &&& exists|entry: UnicodeNodeBTreeEntry| #[trigger]
        after.contains(entry) && entry.node == create::table_of(
            NodeIdType::HierarchyTable,
            parent.entry.node,
        ) && entry.parent == parent.hierarchy_parent && hierarchy_holds(
            plan,
            entry,
            parent.hierarchy,
            store_record_key,
            new.folder,
            name,
            row_version,
        )
    &&& if parent.has_subfolders {
        after.contains(parent.entry)
    } else {
        exists|entry: UnicodeNodeBTreeEntry| #[trigger]
            whole_laws::has_node(after, parent.entry, entry)
                && whole_laws::changed_properties_are(
                plan,
                entry,
                parent.properties,
                parent.subnodes,
                0x360A,
                property::boolean_value(true),
            )
    }
    &&& parent.grandparent_hierarchy matches Some(above) ==> exists|entry: UnicodeNodeBTreeEntry|
        #[trigger]
        whole_laws::has_node(after, above.entry, entry) && whole_laws::updated_table_is_read(
            plan,
            entry,
            above,
            row_version,
            create::subfolders_update(parent.entry.node),
        )
}

/// A new folder holds all of it: each node stands in the node list under its parent, and is read from the
/// planned blocks.
pub proof fn law_new_folder_reads_back(
    header: HeaderContents,
    block_entries: Seq<UnicodeBlockBTreeEntry>,
    entries: Seq<UnicodeNodeBTreeEntry>,
    parent: ParentContents,
    store_record_key: Seq<u8>,
    new: FolderNodes,
    name: Seq<char>,
)
    requires
        parent.hierarchy matches Some(node) ==> whole_laws::table_is_sound(node.table),
        parent.grandparent_hierarchy matches Some(node) ==> whole_laws::table_is_sound(node.table),
        parent.properties.len() < u64::MAX,
    ensures
        create::planned_folder(
            header,
            block_entries,
            entries,
            parent,
            store_record_key,
            new,
            name,
        ) matches Ok((plan, after)) ==> is_created(
            plan,
            after,
            parent,
            store_record_key,
            new,
            name,
            header.unique,
        ),
{
    reveal(create::planned_folder);
    let node = parent.entry.node;
    let unique = header.unique;
    let start = BlockPlan {
        blocks: Seq::empty(),
        next_bid: nodes::next_block_index(header, block_entries),
        next_offset: header.root.file_eof_index,
    };
    if let Ok((plan, after)) = create::planned_folder(
        header,
        block_entries,
        entries,
        parent,
        store_record_key,
        new,
        name,
    ) {
        append_laws::lemma_hierarchy_grows(
            start,
            parent.hierarchy,
            store_record_key,
            new.folder,
            name,
            unique,
        );
        let (first, result) = create::with_hierarchy(
            start,
            parent.hierarchy,
            store_record_key,
            new.folder,
            name,
            unique,
        );
        let (data, sub_node) = result->Ok_0;
        append_laws::lemma_parent_grows(first, parent);
        let (second, result) = create::with_parent(
            first,
            parent.entry,
            parent.has_subfolders,
            parent.properties,
            parent.subnodes,
        );
        let changed = result->Ok_0;
        append_laws::lemma_folder_grows(second, entries, new, node, name);
        let (third, result) = create::with_folder(second, entries, new, node, name);
        let added = result->Ok_0;
        append_laws::lemma_parent_row_grows(third, parent.grandparent_hierarchy, node, unique);
        let above = create::with_parent_row(
            third,
            parent.grandparent_hierarchy,
            node,
            unique,
        ).1->Ok_0;
        block_laws::lemma_grows_transitive(first, second, third);
        block_laws::lemma_grows_transitive(first, third, plan);
        block_laws::lemma_grows_transitive(second, third, plan);
        let hierarchy = UnicodeNodeBTreeEntry {
            node: create::table_of(NodeIdType::HierarchyTable, node),
            data,
            sub_node,
            parent: parent.hierarchy_parent,
        };
        lemma_hierarchy_is_grows(
            first,
            plan,
            hierarchy,
            parent.hierarchy,
            store_record_key,
            new.folder,
            name,
            unique,
        );
        lemma_hierarchy(
            plan,
            hierarchy,
            parent.hierarchy,
            store_record_key,
            new.folder,
            name,
            unique,
        );
        nodes::law_replaced_nodes(entries, changed, hierarchy, above, added, changed);
        nodes::law_replaced_nodes(entries, changed, hierarchy, above, added, hierarchy);
        nodes::law_replaced_nodes(entries, changed, hierarchy, above, added, added[0]);
        assert(added.contains(added[0]));
        plan_laws::lemma_data_reads_grows(
            third,
            plan,
            added[0].data,
            folder::folder_context(name, 0, false)->Ok_0,
        );
        lemma_new_folder(plan, added[0], name);
        if !parent.has_subfolders {
            let value = property::boolean_value(true);
            whole_laws::lemma_properties_grow(
                second,
                plan,
                changed.data,
                changed.sub_node,
                folder::with_property(parent.properties, 0x360A, value, 0),
                parent.subnodes,
            );
            whole_laws::lemma_changed_properties(
                plan,
                changed,
                parent.properties,
                parent.subnodes,
                0x360A,
                value,
            );
            assert(whole_laws::has_node(after, parent.entry, changed));
        }
        if let Some(table) = parent.grandparent_hierarchy {
            let entry = above->Some_0;
            nodes::law_replaced_nodes(entries, changed, hierarchy, above, added, entry);
            whole_laws::lemma_update_has_rows(
                third,
                table,
                unique,
                create::subfolders_update(node),
            );
            whole_laws::lemma_updated_table(
                plan,
                entry,
                table,
                unique,
                create::subfolders_update(node),
            );
            assert(whole_laws::has_node(after, table.entry, entry));
        }
    }
}

} // verus!
