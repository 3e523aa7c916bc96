//! What a reader finds of a stored folder: its properties, and its row in the hierarchy table of its parent.

use vstd::prelude::*;

use crate::error::PstError;
use crate::ltp::column_laws;
use crate::ltp::heap;
use crate::ltp::heap_laws;
use crate::ltp::property::PropertyType;
use crate::ltp::property_context;
use crate::ltp::property_laws;
use crate::ltp::rebuild::{RebuiltContents, TableContents};
use crate::ltp::rebuild_laws;
use crate::ltp::table::{TableColumnDescriptor, TableLayout};
use crate::ltp::table_laws;
use crate::messaging::create;
use crate::messaging::create::{FolderNodes, ParentContents};
use crate::messaging::folder;
use crate::messaging::folder_laws;
use crate::messaging::message;
use crate::messaging::plan_laws;
use crate::messaging::row_laws;
use crate::messaging::stored_contents_laws;
use crate::messaging::stored_laws;
use crate::messaging::update::TableNodeContents;
use crate::messaging::whole_laws;
use crate::ndb::block::{BlockPlan, UnicodeLeafSubNodeTreeEntry};
use crate::ndb::btree::UnicodeNodeBTreeEntry;
use crate::ndb::ids::{NodeId, NodeIdType};
use crate::text;

verus! {

/// Whether a property context is that of a folder: its name, the number of its messages, none of which is
/// unread, whether it has folders, and its class, and no other property.
pub open spec fn is_stored_folder(
    context: Seq<u8>,
    name: Seq<char>,
    content_count: u32,
    has_subfolders: bool,
) -> bool {
    let pages = seq![context];
    let none = Seq::<(NodeId, Seq<u8>)>::empty();
    &&& stored_laws::has_text(pages, none, 0x3001, name)
    &&& stored_laws::has_number(pages, 0x3602, content_count)
    &&& stored_laws::has_number(pages, 0x3603, 0)
    &&& stored_laws::has_flag(pages, 0x360A, has_subfolders)
    &&& stored_laws::has_text(pages, none, 0x3613, "IPF.Note"@)
    &&& forall|id: u16|
        id != 0x3001 && id != 0x3602 && id != 0x3603 && id != 0x360A && id != 0x3613
            ==> #[trigger] stored_laws::has_none(pages, id)
}

/// The property context of a folder has its name and its counts under their identifiers.
pub proof fn law_folder_is_stored(
    name: Seq<char>,
    content_count: nat,
    has_subfolders: bool,
    context: Seq<u8>,
)
    requires
        folder::folder_context(name, content_count, has_subfolders) == Ok::<_, PstError>(context),
    ensures
        content_count <= u32::MAX,
        is_stored_folder(context, name, content_count as u32, has_subfolders),
{
    let properties = folder::folder_properties(name, content_count as u32, has_subfolders);
    let pages = seq![context];
    text::law_utf16_reads_back(name);
    text::law_utf16_reads_back("IPF.Note"@);
    assert forall|id: u16|
        match property_laws::first_simple(properties, id, 0) {
            None => #[trigger] property_laws::property_in_pages(pages, id) is None,
            Some(property) => property_laws::is_simple(
                property_laws::property_in_pages(pages, id),
                Seq::empty(),
                property,
            ),
        } by {
        reveal_with_fuel(property_laws::first_simple, 7);
        reveal_with_fuel(property_context::node_of, 2);
        property_laws::law_simple_context_reads_back(properties, Seq::empty(), context, id);
    }
    lemma_folder_properties(context, name, content_count as u32, has_subfolders);
}

proof fn lemma_folder_properties(
    context: Seq<u8>,
    name: Seq<char>,
    content_count: u32,
    has_subfolders: bool,
)
    requires
        forall|id: u16|
            match property_laws::first_simple(
                folder::folder_properties(name, content_count, has_subfolders),
                id,
                0,
            ) {
                None => #[trigger] property_laws::property_in_pages(seq![context], id) is None,
                Some(property) => property_laws::is_simple(
                    property_laws::property_in_pages(seq![context], id),
                    Seq::empty(),
                    property,
                ),
            },
    ensures
        is_stored_folder(context, name, content_count, has_subfolders),
{
    let properties = folder::folder_properties(name, content_count, has_subfolders);
    let pages = seq![context];
    text::law_utf16_reads_back(name);
    text::law_utf16_reads_back("IPF.Note"@);
    reveal_with_fuel(property_laws::first_simple, 7);
    reveal_with_fuel(property_context::node_of, 2);
    assert forall|id: u16|
        id != 0x3001 && id != 0x3602 && id != 0x3603 && id != 0x360A && id != 0x3613
            implies #[trigger] stored_laws::has_none(pages, id) by {
        assert(property_laws::first_simple(properties, id, 0) is None);
    }
}

/// The properties of a folder stand in the order of their identifiers.
pub proof fn law_folder_properties_are_ordered(
    name: Seq<char>,
    content_count: nat,
    has_subfolders: bool,
    context: Seq<u8>,
)
    requires
        folder::folder_context(name, content_count, has_subfolders) == Ok::<_, PstError>(context),
    ensures
        property_laws::records_in_pages(seq![context]) matches Some(records)
            && property_laws::is_ascending(records),
{
    property_laws::law_simple_properties_are_ordered(
        folder::folder_properties(name, content_count as u32, has_subfolders),
        Seq::empty(),
        context,
    );
}

/// Whether a column of a row is that of a folder: its name, its class, its counts and its identifiers stand
/// under their properties, in columns of their types, and nothing under any other.
pub open spec fn lists_folder(
    pages: Seq<Seq<u8>>,
    chunks: Seq<Seq<u8>>,
    index: int,
    column: TableColumnDescriptor,
    store_record_key: Seq<u8>,
    folder: NodeId,
    name: Seq<char>,
    has_subfolders: bool,
    row_version: u32,
) -> bool {
    let id = column.prop_id;
    let kind = column.prop_type;
    let none = Seq::<(NodeId, Seq<u8>)>::empty();
    &&& id == 0x3001 ==> stored_contents_laws::lists_text(pages, chunks, none, index, column, name)
    &&& id == 0x3613 ==> stored_contents_laws::lists_text(
        pages,
        chunks,
        none,
        index,
        column,
        "IPF.Note"@,
    )
    &&& id == 0x67F2 && kind is Integer32 ==> column_laws::column_number(
        pages,
        chunks,
        index,
        id,
        folder.value,
    )
    &&& id == 0x67F3 && kind is Integer32 ==> column_laws::column_number(
        pages,
        chunks,
        index,
        id,
        row_version,
    )
    &&& (id == 0x3602 || id == 0x3603) && kind is Integer32 ==> column_laws::column_number(
        pages,
        chunks,
        index,
        id,
        0,
    )
    &&& id == 0x360A && kind is Boolean ==> column_laws::column_flag(
        pages,
        chunks,
        index,
        id,
        has_subfolders,
    )
    &&& id == 0x0FFF && kind is Binary ==> stored_contents_laws::lists_entry_id(
        pages,
        chunks,
        none,
        index,
        id,
        store_record_key,
        folder,
    )
    &&& !is_listed(id, kind) ==> column_laws::column_none(pages, chunks, index, id)
}

/// Whether the row of a folder has a value for a property of the given type.
pub open spec fn is_listed(id: u16, kind: PropertyType) -> bool {
    match kind {
        PropertyType::Unicode | PropertyType::String8 => id == 0x3001 || id == 0x3613,
        PropertyType::Integer32 => id == 0x67F2 || id == 0x67F3 || id == 0x3602 || id == 0x3603,
        PropertyType::Boolean => id == 0x360A,
        PropertyType::Binary => id == 0x0FFF,
        _ => false,
    }
}

/// The columns of a row that is that of a folder.
pub proof fn lemma_folder_row(
    pages: Seq<Seq<u8>>,
    chunks: Seq<Seq<u8>>,
    index: int,
    layout: TableLayout,
    data: Seq<u8>,
    column: int,
    store_record_key: Seq<u8>,
    folder: NodeId,
    name: Seq<char>,
    has_subfolders: bool,
    row_version: u32,
)
    requires
        table_laws::read_context(pages) matches Some(context) && table_laws::has_layout(
            context,
            layout,
        ),
        table_laws::read_row(chunks, layout.end_existence_bitmap as int, index) == Some(data),
        rebuild_laws::new_row_is(
            layout,
            heap_laws::in_pages(pages),
            data,
            folder::folder_row(
                layout.columns,
                store_record_key,
                folder,
                name,
                has_subfolders,
                row_version,
            ),
        ),
        column_laws::is_first(layout.columns, column),
    ensures
        lists_folder(
            pages,
            chunks,
            index,
            layout.columns[column],
            store_record_key,
            folder,
            name,
            has_subfolders,
            row_version,
        ),
{
    let cells = folder::folder_row(
        layout.columns,
        store_record_key,
        folder,
        name,
        has_subfolders,
        row_version,
    ).cells;
    assert(column_laws::row_holds(pages, chunks, index, layout, cells)) by {
        reveal(column_laws::row_holds);
    }
    column_laws::law_table_column(pages, chunks, index, layout, cells, column);
    column_laws::lemma_fixed_number(folder.value);
    column_laws::lemma_fixed_number(row_version);
    column_laws::lemma_fixed_number(0);
    text::law_utf16_reads_back(name);
    text::law_utf16_reads_back("IPF.Note"@);
    stored_contents_laws::lemma_entry_id(store_record_key, folder);
    let narrow = vstd::utf8::encode_utf8(name);
    assert(narrow.push(0) =~= narrow + seq![0u8]);
    let class = vstd::utf8::encode_utf8("IPF.Note"@);
    assert(class.push(0) =~= class + seq![0u8]);
    let entry = message::entry_id(store_record_key, folder);
    let none = Seq::<(NodeId, Seq<u8>)>::empty();
    let id = layout.columns[column].prop_id;
    match layout.columns[column].prop_type {
        PropertyType::Unicode => {
            if id == 0x3001 {
                assert(stored_contents_laws::column_bytes(
                    pages,
                    chunks,
                    none,
                    index,
                    id,
                    0x001F,
                    text::utf16_text(name),
                ));
            } else if id == 0x3613 {
                assert(stored_contents_laws::column_bytes(
                    pages,
                    chunks,
                    none,
                    index,
                    id,
                    0x001F,
                    text::utf16_text("IPF.Note"@),
                ));
            }
        },
        PropertyType::Binary => {
            if id == 0x0FFF {
                assert(stored_contents_laws::column_bytes(
                    pages,
                    chunks,
                    none,
                    index,
                    id,
                    0x0102,
                    entry,
                ));
            }
        },
        _ => {},
    }
}

/// A new folder stands in the hierarchy table of its parent behind the rows that were there, with its name and
/// its counts under their properties.
pub proof fn law_folder_is_listed(
    table: TableContents,
    store_record_key: Seq<u8>,
    folder: NodeId,
    name: Seq<char>,
    has_subfolders: bool,
    rows_node: NodeId,
    row_version: u32,
    rebuilt: RebuiltContents,
    column: int,
)
    requires
        table_laws::layout_distinct(table.layout),
        rebuild_laws::rows_wf(table),
        heap::heap_wf(table.pages),
        folder::hierarchy_table(
            table,
            store_record_key,
            folder,
            name,
            has_subfolders,
            rows_node,
            row_version,
        ) == Ok::<_, PstError>(rebuilt),
        column_laws::is_first(table.layout.columns, column),
    ensures
        rebuilt.row_ids.len() == table.rows.len() + 1,
        rebuilt.row_ids.last() == folder.value,
        lists_folder(
            rebuilt.heap_pages,
            rebuilt.row_chunks,
            table.rows.len() as int,
            table.layout.columns[column],
            store_record_key,
            folder,
            name,
            has_subfolders,
            row_version,
        ),
{
    let index = table.rows.len() as int;
    row_laws::law_hierarchy_table_keeps_rows(
        table,
        store_record_key,
        folder,
        name,
        has_subfolders,
        rows_node,
        row_version,
        rebuilt,
        index,
    );
    let size = table.layout.end_existence_bitmap as int;
    lemma_folder_row(
        rebuilt.heap_pages,
        rebuilt.row_chunks,
        index,
        table.layout,
        table_laws::read_row(rebuilt.row_chunks, size, index)->Some_0,
        column,
        store_record_key,
        folder,
        name,
        has_subfolders,
        row_version,
    );
}

/// Whether a node stands in a list below a parent and holds the properties of a folder without messages and
/// without folders.
pub open spec fn holds_new_folder(
    plan: BlockPlan,
    after: Seq<UnicodeNodeBTreeEntry>,
    folder: NodeId,
    parent: NodeId,
    name: Seq<char>,
) -> bool {
    exists|entry: UnicodeNodeBTreeEntry, context: Seq<u8>| #[trigger]
        after.contains(entry) && entry.node == folder && entry.parent == Some(parent)
            && entry.sub_node is None && #[trigger] plan_laws::data_reads(
            plan,
            entry.data,
            context,
        ) && is_stored_folder(context, name, 0, false)
}

/// Whether a hierarchy table has a row for a folder behind the rows that were there.
#[verifier::opaque]
pub open spec fn lists_new_folder(
    plan: BlockPlan,
    entry: UnicodeNodeBTreeEntry,
    rows_node: NodeId,
    table: TableContents,
    store_record_key: Seq<u8>,
    folder: NodeId,
    name: Seq<char>,
    row_version: u32,
    pages: Seq<Seq<u8>>,
    chunks: Seq<Seq<u8>>,
    subnodes: Seq<UnicodeLeafSubNodeTreeEntry>,
) -> bool {
    &&& whole_laws::table_node_reads(plan, entry, rows_node, pages, chunks, subnodes)
    &&& forall|index: int|
        0 <= index < table.rows.len() ==> table_laws::read_row(
            chunks,
            table.layout.end_existence_bitmap as int,
            index,
        ) == Some((#[trigger] table.rows[index]).data)
    &&& forall|column: int| #[trigger]
        column_laws::is_first(table.layout.columns, column) ==> lists_folder(
            pages,
            chunks,
            table.rows.len() as int,
            table.layout.columns[column],
            store_record_key,
            folder,
            name,
            false,
            row_version,
        )
}

/// Whether the hierarchy table of a parent has a row for a folder behind the rows that were there.
pub open spec fn parent_lists(
    plan: BlockPlan,
    after: Seq<UnicodeNodeBTreeEntry>,
    parent: ParentContents,
    node: TableNodeContents,
    store_record_key: Seq<u8>,
    folder: NodeId,
    name: Seq<char>,
    row_version: u32,
) -> bool {
    exists|
        entry: UnicodeNodeBTreeEntry,
        pages: Seq<Seq<u8>>,
        chunks: Seq<Seq<u8>>,
        subnodes: Seq<UnicodeLeafSubNodeTreeEntry>,
    |
        after.contains(entry) && entry.node.value == parent.entry.node.value
            - parent.entry.node.value % 32 + 0x0D && entry.parent == parent.hierarchy_parent
            && #[trigger] lists_new_folder(
            plan,
            entry,
            node.rows_node,
            node.table,
            store_record_key,
            folder,
            name,
            row_version,
            pages,
            chunks,
            subnodes,
        )
}

proof fn lemma_found_folder(
    plan: BlockPlan,
    entry: UnicodeNodeBTreeEntry,
    name: Seq<char>,
) -> (context: Seq<u8>)
    requires
        folder_laws::new_folder_reads(plan, entry, name),
    ensures
        plan_laws::data_reads(plan, entry.data, context),
        is_stored_folder(context, name, 0, false),
{
    let context = choose|data: Seq<u8>| #[trigger]
        plan_laws::data_reads(plan, entry.data, data) && forall|id: u16| #[trigger]
            folder_laws::new_folder_property_is(data, name, id);
    assert forall|id: u16|
        match property_laws::first_simple(folder::folder_properties(name, 0, false), id, 0) {
            None => #[trigger] property_laws::property_in_pages(seq![context], id) is None,
            Some(property) => property_laws::is_simple(
                property_laws::property_in_pages(seq![context], id),
                Seq::empty(),
                property,
            ),
        } by {
        assert(folder_laws::new_folder_property_is(context, name, id));
    }
    lemma_folder_properties(context, name, 0, false);
    context
}

/// A folder that was created is found under its name: in its own properties, where it is empty.
pub proof fn law_created_folder_is_found(
    plan: BlockPlan,
    after: Seq<UnicodeNodeBTreeEntry>,
    parent: ParentContents,
    store_record_key: Seq<u8>,
    new: FolderNodes,
    name: Seq<char>,
    row_version: u32,
)
    requires
        folder_laws::is_created(plan, after, parent, store_record_key, new, name, row_version),
    ensures
        holds_new_folder(plan, after, new.folder, parent.entry.node, name),
{
    let entry = choose|entry: UnicodeNodeBTreeEntry| #[trigger]
        after.contains(entry) && entry.node == new.folder && entry.parent == Some(
            parent.entry.node,
        ) && folder_laws::new_folder_reads(plan, entry, name);
    let context = lemma_found_folder(plan, entry, name);
    assert(after.contains(entry) && plan_laws::data_reads(plan, entry.data, context));
}

/// A folder that was created is listed in the hierarchy table of its parent, where there was one.
pub proof fn law_created_folder_is_listed(
    plan: BlockPlan,
    after: Seq<UnicodeNodeBTreeEntry>,
    parent: ParentContents,
    node: TableNodeContents,
    store_record_key: Seq<u8>,
    new: FolderNodes,
    name: Seq<char>,
    row_version: u32,
)
    requires
        folder_laws::is_created(plan, after, parent, store_record_key, new, name, row_version),
        parent.hierarchy == Some(node),
    ensures
        parent_lists(
            plan,
            after,
            parent,
            node,
            store_record_key,
            new.folder,
            name,
            row_version,
        ),
{
    let entry = lemma_hierarchy_entry(
        plan,
        after,
        parent,
        node,
        store_record_key,
        new,
        name,
        row_version,
    );
    lemma_parent_lists(
        plan,
        after,
        parent,
        node,
        store_record_key,
        new.folder,
        name,
        row_version,
        entry,
    );
}

#[verifier::opaque]
spec fn hierarchy_is_held(
    plan: BlockPlan,
    entry: UnicodeNodeBTreeEntry,
    node: TableNodeContents,
    store_record_key: Seq<u8>,
    folder: NodeId,
    name: Seq<char>,
    row_version: u32,
) -> bool {
    folder_laws::hierarchy_holds(
        plan,
        entry,
        Some(node),
        store_record_key,
        folder,
        name,
        row_version,
    )
}

proof fn lemma_hierarchy_entry(
    plan: BlockPlan,
    after: Seq<UnicodeNodeBTreeEntry>,
    parent: ParentContents,
    node: TableNodeContents,
    store_record_key: Seq<u8>,
    new: FolderNodes,
    name: Seq<char>,
    row_version: u32,
) -> (entry: UnicodeNodeBTreeEntry)
    requires
        folder_laws::is_created(plan, after, parent, store_record_key, new, name, row_version),
        parent.hierarchy == Some(node),
    ensures
        after.contains(entry),
        entry.node == create::table_of(NodeIdType::HierarchyTable, parent.entry.node),
        entry.parent == parent.hierarchy_parent,
        hierarchy_is_held(
            plan,
            entry,
            node,
            store_record_key,
            new.folder,
            name,
            row_version,
        ),
{
    reveal(hierarchy_is_held);
    choose|entry: UnicodeNodeBTreeEntry| #[trigger]
        after.contains(entry) && entry.node == create::table_of(
            NodeIdType::HierarchyTable,
            parent.entry.node,
        ) && entry.parent == parent.hierarchy_parent && folder_laws::hierarchy_holds(
            plan,
            entry,
            parent.hierarchy,
            store_record_key,
            new.folder,
            name,
            row_version,
        )
}

proof fn lemma_parent_lists(
    plan: BlockPlan,
    after: Seq<UnicodeNodeBTreeEntry>,
    parent: ParentContents,
    node: TableNodeContents,
    store_record_key: Seq<u8>,
    folder: NodeId,
    name: Seq<char>,
    row_version: u32,
    entry: UnicodeNodeBTreeEntry,
)
    requires
        after.contains(entry),
        entry.node == create::table_of(NodeIdType::HierarchyTable, parent.entry.node),
        entry.parent == parent.hierarchy_parent,
        hierarchy_is_held(plan, entry, node, store_record_key, folder, name, row_version),
    ensures
        parent_lists(
            plan,
            after,
            parent,
            node,
            store_record_key,
            folder,
            name,
            row_version,
        ),
{
    let found = lemma_listed_folder(
        plan,
        entry,
        node,
        store_record_key,
        folder,
        name,
        row_version,
    );
    let parent_value = parent.entry.node.value;
    assert(parent_value == parent_value / 32 * 32 + parent_value % 32);
    assert(after.contains(entry) && lists_new_folder(
        plan,
        entry,
        node.rows_node,
        node.table,
        store_record_key,
        folder,
        name,
        row_version,
        found.0,
        found.1,
        found.2,
    ));
}

proof fn lemma_listed_folder(
    plan: BlockPlan,
    entry: UnicodeNodeBTreeEntry,
    node: TableNodeContents,
    store_record_key: Seq<u8>,
    folder: NodeId,
    name: Seq<char>,
    row_version: u32,
) -> (found: (Seq<Seq<u8>>, Seq<Seq<u8>>, Seq<UnicodeLeafSubNodeTreeEntry>))
    requires
        hierarchy_is_held(plan, entry, node, store_record_key, folder, name, row_version),
    ensures
        lists_new_folder(
            plan,
            entry,
            node.rows_node,
            node.table,
            store_record_key,
            folder,
            name,
            row_version,
            found.0,
            found.1,
            found.2,
        ),
{
    reveal(hierarchy_is_held);
    let found = choose|
        pages: Seq<Seq<u8>>,
        chunks: Seq<Seq<u8>>,
        subnodes: Seq<UnicodeLeafSubNodeTreeEntry>,
    |
        folder_laws::hierarchy_reads(
            plan,
            entry,
            node,
            store_record_key,
            folder,
            name,
            row_version,
            pages,
            chunks,
            subnodes,
        );
    lemma_hierarchy_lists(
        plan,
        entry,
        node,
        store_record_key,
        folder,
        name,
        row_version,
        found.0,
        found.1,
        found.2,
    );
    found
}

proof fn lemma_hierarchy_lists(
    plan: BlockPlan,
    entry: UnicodeNodeBTreeEntry,
    node: TableNodeContents,
    store_record_key: Seq<u8>,
    folder: NodeId,
    name: Seq<char>,
    row_version: u32,
    pages: Seq<Seq<u8>>,
    chunks: Seq<Seq<u8>>,
    subnodes: Seq<UnicodeLeafSubNodeTreeEntry>,
)
    requires
        folder_laws::hierarchy_reads(
            plan,
            entry,
            node,
            store_record_key,
            folder,
            name,
            row_version,
            pages,
            chunks,
            subnodes,
        ),
    ensures
        lists_new_folder(
            plan,
            entry,
            node.rows_node,
            node.table,
            store_record_key,
            folder,
            name,
            row_version,
            pages,
            chunks,
            subnodes,
        ),
{
    reveal(lists_new_folder);
    let table = node.table;
    let size = table.layout.end_existence_bitmap as int;
    assert forall|index: int| 0 <= index < table.rows.len() implies table_laws::read_row(
        chunks,
        size,
        index,
    ) == Some((#[trigger] table.rows[index]).data) by {
        assert(folder_laws::hierarchy_row_is(
            table,
            store_record_key,
            folder,
            name,
            row_version,
            pages,
            chunks,
            index,
        ));
    }
    let last = table.rows.len() as int;
    assert(folder_laws::hierarchy_row_is(
        table,
        store_record_key,
        folder,
        name,
        row_version,
        pages,
        chunks,
        last,
    ));
    assert forall|column: int| #[trigger]
        column_laws::is_first(table.layout.columns, column) implies lists_folder(
        pages,
        chunks,
        last,
        table.layout.columns[column],
        store_record_key,
        folder,
        name,
        false,
        row_version,
    ) by {
        lemma_folder_row(
            pages,
            chunks,
            last,
            table.layout,
            table_laws::read_row(chunks, size, last)->Some_0,
            column,
            store_record_key,
            folder,
            name,
            false,
            row_version,
        );
    }
}

} // verus!
