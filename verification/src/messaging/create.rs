//! Creating a folder below another one.

use vstd::prelude::*;

use crate::bytes;
use crate::error::{IoError, PstError};
use crate::ltp::property;
use crate::ltp::property::{EncodedValue, PropertyValue};
use crate::ltp::rebuild;
use crate::ltp::rebuild::{TableUpdate, UpdateContents};
use crate::ltp::row_table;
use crate::messaging::append_laws;
use crate::messaging::folder;
use crate::messaging::search::SearchUpdateData;
use crate::messaging::update;
use crate::messaging::update::{TableNode, TableNodeContents};
use crate::ndb::block;
use crate::ndb::block::{
    BlockContents, BlockPlan, NewBlock, NewBlockData, UnicodeLeafSubNodeTreeEntry,
};
use crate::ndb::block_laws;
use crate::ndb::btree::{UnicodeBlockBTreeEntry, UnicodeNodeBTreeEntry};
use crate::ndb::commit::ChangePlan;
use crate::ndb::header::{Header, HeaderContents, NdbCryptMethod};
use crate::ndb::ids::{NodeId, NodeIdType, UnicodeBlockId};
use crate::ndb::nodes;
use crate::ndb::subnode_tree;

verus! {

/// The hierarchy table that new folders start with, where the file has one.
pub const HIERARCHY_TEMPLATE: u32 = 0x60D;

/// The contents table that new folders start with, where the file has one.
pub const CONTENTS_TEMPLATE: u32 = 0x60E;

/// The table of associated contents that new folders start with, where the file has one.
pub const ASSOCIATED_CONTENTS_TEMPLATE: u32 = 0x60F;

/// Refuses a file whose data blocks are encoded.
pub fn check_folder_creation(header: &Header) -> (result: Result<(), PstError>)
    ensures
        result == (if header.crypt_method == NdbCryptMethod::Plain {
            Ok(())
        } else {
            Err(PstError::Io(IoError::FolderCreationEncrypted))
        }),
{
    if header.crypt_method == NdbCryptMethod::Plain {
        Ok(())
    } else {
        Err(PstError::Io(IoError::FolderCreationEncrypted))
    }
}

/// The entry of the parent of a new folder.
pub fn find_parent_entry(nbt_entries: &Vec<UnicodeNodeBTreeEntry>, parent: NodeId) -> (entry:
    Result<UnicodeNodeBTreeEntry, PstError>)
    ensures
        entry == (match nodes::node_entry(nbt_entries@, parent) {
            Some(entry) => Ok(entry),
            None => Err(PstError::Io(IoError::ParentFolderNodeNotFound)),
        }),
{
    match nodes::find_node(nbt_entries, parent) {
        Some(entry) => Ok(entry),
        None => Err(PstError::Io(IoError::ParentFolderNodeNotFound)),
    }
}

/// The folder above the parent of a new folder.
pub fn find_grandparent(parent_entry: &UnicodeNodeBTreeEntry) -> (grandparent: Result<
    NodeId,
    PstError,
>)
    ensures
        grandparent == (match parent_entry.parent {
            Some(node) => Ok(node),
            None => Err(PstError::Io(IoError::ParentFolderHasNoParent)),
        }),
{
    match parent_entry.parent {
        Some(node) => Ok(node),
        None => Err(PstError::Io(IoError::ParentFolderHasNoParent)),
    }
}

/// The nodes of a new folder: the folder and its tables.
#[derive(Clone, Copy, PartialEq, Eq, Debug, Structural)]
pub struct FolderNodes {
    pub folder: NodeId,
    pub hierarchy: NodeId,
    pub contents: NodeId,
    pub associated_contents: NodeId,
}

/// The table of the given type that belongs to a folder.
pub open spec fn table_of(id_type: NodeIdType, folder: NodeId) -> NodeId {
    NodeId { value: (folder.spec_index() * 32 + id_type.spec_code()) as u32 }
}

/// The table of the given type that belongs to a folder.
pub fn folder_table(id_type: NodeIdType, folder: NodeId) -> (node: NodeId)
    ensures
        node == table_of(id_type, folder),
        node.has_type(id_type),
        node.spec_index() == folder.spec_index(),
        NodeId::spec_new(id_type, folder.spec_index()) == Ok::<NodeId, PstError>(node),
{
    let code: u32 = id_type.code() as u32;
    NodeId { value: folder.index() * 32 + code }
}

/// The nodes of a new folder: a folder node of the next free index, and its tables.
pub open spec fn new_folder_nodes(
    header: HeaderContents,
    entries: Seq<UnicodeNodeBTreeEntry>,
) -> Result<FolderNodes, PstError> {
    match NodeId::spec_new(
        NodeIdType::NormalFolder,
        nodes::next_index(header, nodes::nodes_of(entries), NodeIdType::NormalFolder, 0),
    ) {
        Err(error) => Err(error),
        Ok(folder) => Ok(
            FolderNodes {
                folder,
                hierarchy: table_of(NodeIdType::HierarchyTable, folder),
                contents: table_of(NodeIdType::ContentsTable, folder),
                associated_contents: table_of(NodeIdType::AssociatedContentsTable, folder),
            },
        ),
    }
}

/// The nodes of a new folder.
pub fn folder_ids(header: &Header, nbt_entries: &Vec<UnicodeNodeBTreeEntry>) -> (found: Result<
    FolderNodes,
    PstError,
>)
    requires
        header@.wf(),
    ensures
        found == new_folder_nodes(header@, nbt_entries@),
{
    let index: u32 = nodes::next_free_index(header, nbt_entries, NodeIdType::NormalFolder, 0);
    let folder = NodeId::new(NodeIdType::NormalFolder, index)?;
    Ok(
        FolderNodes {
            folder,
            hierarchy: folder_table(NodeIdType::HierarchyTable, folder),
            contents: folder_table(NodeIdType::ContentsTable, folder),
            associated_contents: folder_table(NodeIdType::AssociatedContentsTable, folder),
        },
    )
}

/// The node of a new folder is a folder node that is not in use.
pub proof fn law_folder_node_is_new(header: HeaderContents, entries: Seq<UnicodeNodeBTreeEntry>)
    ensures
        new_folder_nodes(header, entries) matches Ok(new) ==> new.folder.has_type(
            NodeIdType::NormalFolder,
        ) && !nodes::nodes_of(entries).contains(new.folder),
{
    if let Ok(new) = new_folder_nodes(header, entries) {
        nodes::law_next_index_is_free(
            header,
            nodes::nodes_of(entries),
            NodeIdType::NormalFolder,
            0,
            new.folder,
        );
    }
}

/// The plan with a block of data.
#[verifier::opaque]
pub open spec fn with_data_block(plan: BlockPlan, data: Result<Seq<u8>, PstError>) -> (
    BlockPlan,
    Result<UnicodeBlockId, PstError>,
) {
    match data {
        Err(error) => (plan, Err(error)),
        Ok(data) => block::with_next_block(plan, false, BlockContents::Data(data)),
    }
}

/// Adds a block of data.
fn push_data_block(
    blocks: &mut Vec<NewBlock>,
    next_bid: &mut u64,
    next_offset: &mut u64,
    data: Result<Vec<u8>, PstError>,
) -> (result: Result<UnicodeBlockId, PstError>)
    ensures
        (block::plan(final(blocks)@, *final(next_bid), *final(next_offset)), result)
            == with_data_block(
            block::plan(old(blocks)@, *old(next_bid), *old(next_offset)),
            crate::error::result_view(data),
        ),
{
    reveal(with_data_block);
    match data {
        Ok(data) => block::push_block(
            blocks,
            next_bid,
            next_offset,
            false,
            NewBlockData::Data(data),
        ),
        Err(error) => Err(error),
    }
}

/// The plan with a new folder in the hierarchy table of its parent: a row in the one that there is, or a
/// table of its own. Returns the data and the subnodes of the table.
#[verifier::opaque]
pub open spec fn with_hierarchy(
    plan: BlockPlan,
    hierarchy: Option<TableNodeContents>,
    store_record_key: Seq<u8>,
    folder: NodeId,
    name: Seq<char>,
    row_version: u32,
) -> (BlockPlan, Result<(UnicodeBlockId, Option<UnicodeBlockId>), PstError>) {
    match hierarchy {
        None => match with_data_block(plan, row_table::row_table(seq![folder])) {
            (after, Err(error)) => (after, Err(error)),
            (after, Ok(data)) => (after, Ok((data, None))),
        },
        Some(node) => match folder::hierarchy_table(
            node.table,
            store_record_key,
            folder,
            name,
            false,
            node.rows_node,
            row_version,
        ) {
            Err(error) => (plan, Err(error)),
            Ok(table) => match update::with_table_rows(
                plan,
                table,
                node.rows_node,
                node.subnodes,
            ) {
                (after, Err(error)) => (after, Err(error)),
                (after, Ok((data, entries))) => match subnode_tree::with_subnode_tree(
                    after,
                    entries,
                ) {
                    (after, Err(error)) => (after, Err(error)),
                    (after, Ok(root)) => (after, Ok((data, Some(root)))),
                },
            },
        },
    }
}

/// Adds a new folder to the hierarchy table of its parent, and returns the data and the subnodes of the
/// table.
fn push_hierarchy(
    blocks: &mut Vec<NewBlock>,
    next_bid: &mut u64,
    next_offset: &mut u64,
    hierarchy: Option<TableNode>,
    store_record_key: &[u8; 16],
    folder: NodeId,
    name: &str,
    row_version: u32,
) -> (result: Result<(UnicodeBlockId, Option<UnicodeBlockId>), PstError>)
    requires
        hierarchy matches Some(node) ==> folder::hierarchy_fits(
            node@.table,
            store_record_key@,
            folder,
            name@,
            false,
            row_version,
        ),
    ensures
        (block::plan(final(blocks)@, *final(next_bid), *final(next_offset)), result)
            == with_hierarchy(
            block::plan(old(blocks)@, *old(next_bid), *old(next_offset)),
            update::node_view(hierarchy),
            store_record_key@,
            folder,
            name@,
            row_version,
        ),
{
    reveal(with_hierarchy);
    match hierarchy {
        None => {
            let rows: [NodeId; 1] = [folder];
            let data = row_table::table_context_data(rows.as_slice());
            assert(rows@ =~= seq![folder]);
            let block = push_data_block(blocks, next_bid, next_offset, data)?;
            Ok((block, None))
        },
        Some(node) => {
            let table = folder::rebuild_hierarchy_table(
                &node.table,
                store_record_key,
                folder,
                name,
                false,
                node.rows_node,
                row_version,
            )?;
            let mut subnodes = node.subnodes;
            let data = update::push_table_rows(
                blocks,
                next_bid,
                next_offset,
                table,
                node.rows_node,
                &mut subnodes,
            )?;
            let root = subnode_tree::push_subnode_tree(blocks, next_bid, next_offset, subnodes)?;
            Ok((data, Some(root)))
        },
    }
}

/// The plan with the parent of a new folder, which says that it has folders, and its entry. A parent
/// that says so already is left as it is.
pub open spec fn with_parent(
    plan: BlockPlan,
    parent: UnicodeNodeBTreeEntry,
    has_subfolders: bool,
    properties: Seq<(u16, EncodedValue)>,
    subnodes: Seq<UnicodeLeafSubNodeTreeEntry>,
) -> (BlockPlan, Result<UnicodeNodeBTreeEntry, PstError>) {
    if has_subfolders {
        (plan, Ok(parent))
    } else {
        match update::with_property_node(
            plan,
            folder::with_property(properties, 0x360A, property::boolean_value(true), 0),
            subnodes,
        ) {
            (after, Err(error)) => (after, Err(error)),
            (after, Ok((data, sub_node))) => (
                after,
                Ok(UnicodeNodeBTreeEntry { data, sub_node, ..parent }),
            ),
        }
    }
}

/// Adds the parent of a new folder and returns its entry.
fn push_parent(
    blocks: &mut Vec<NewBlock>,
    next_bid: &mut u64,
    next_offset: &mut u64,
    parent: UnicodeNodeBTreeEntry,
    has_subfolders: bool,
    properties: Vec<(u16, PropertyValue)>,
    subnodes: Vec<UnicodeLeafSubNodeTreeEntry>,
) -> (result: Result<UnicodeNodeBTreeEntry, PstError>)
    ensures
        (block::plan(final(blocks)@, *final(next_bid), *final(next_offset)), result)
            == with_parent(
            block::plan(old(blocks)@, *old(next_bid), *old(next_offset)),
            parent,
            has_subfolders,
            bytes::views(properties@),
            subnodes@,
        ),
{
    if has_subfolders {
        return Ok(parent);
    }
    let mut changed = properties;
    folder::set_folder_boolean_property(&mut changed, 0x360A, true);
    let (data, sub_node) = update::push_property_node(
        blocks,
        next_bid,
        next_offset,
        changed,
        subnodes,
    )?;
    Ok(UnicodeNodeBTreeEntry::new(parent.node, data, sub_node, parent.parent))
}

/// The data of a node that may be missing.
pub open spec fn data_of(entries: Seq<UnicodeNodeBTreeEntry>, node: u32) -> Option<
    UnicodeBlockId,
> {
    match nodes::node_entry(entries, NodeId { value: node }) {
        Some(entry) => Some(entry.data),
        None => None,
    }
}

/// The plan with a table without rows: that of the file where it has one, and else a new one.
pub open spec fn with_empty_table(plan: BlockPlan, template: Option<UnicodeBlockId>) -> (
    BlockPlan,
    Result<UnicodeBlockId, PstError>,
) {
    match template {
        Some(data) => (plan, Ok(data)),
        None => with_data_block(plan, row_table::row_table(Seq::empty())),
    }
}

/// Adds a table without rows, where the file has none under `template`.
fn push_empty_table(
    blocks: &mut Vec<NewBlock>,
    next_bid: &mut u64,
    next_offset: &mut u64,
    nbt_entries: &Vec<UnicodeNodeBTreeEntry>,
    template: u32,
) -> (result: Result<UnicodeBlockId, PstError>)
    ensures
        (block::plan(final(blocks)@, *final(next_bid), *final(next_offset)), result)
            == with_empty_table(
            block::plan(old(blocks)@, *old(next_bid), *old(next_offset)),
            data_of(nbt_entries@, template),
        ),
{
    match nodes::find_node(nbt_entries, NodeId { value: template }) {
        Some(entry) => Ok(entry.data),
        None => {
            let rows: [NodeId; 0] = [];
            let data = row_table::table_context_data(rows.as_slice());
            assert(rows@ =~= Seq::empty());
            push_data_block(blocks, next_bid, next_offset, data)
        },
    }
}

/// The plan with a new folder and its tables, and their entries.
#[verifier::opaque]
pub open spec fn with_folder(
    plan: BlockPlan,
    entries: Seq<UnicodeNodeBTreeEntry>,
    new: FolderNodes,
    parent: NodeId,
    name: Seq<char>,
) -> (BlockPlan, Result<Seq<UnicodeNodeBTreeEntry>, PstError>) {
    match with_data_block(plan, folder::folder_context(name, 0, false)) {
        (after, Err(error)) => (after, Err(error)),
        (after, Ok(data)) => match with_empty_table(
            after,
            data_of(entries, HIERARCHY_TEMPLATE),
        ) {
            (after, Err(error)) => (after, Err(error)),
            (after, Ok(hierarchy)) => match with_empty_table(
                after,
                data_of(entries, CONTENTS_TEMPLATE),
            ) {
                (after, Err(error)) => (after, Err(error)),
                (after, Ok(contents)) => match with_empty_table(
                    after,
                    data_of(entries, ASSOCIATED_CONTENTS_TEMPLATE),
                ) {
                    (after, Err(error)) => (after, Err(error)),
                    (after, Ok(associated)) => (
                        after,
                        Ok(
                            seq![
                                UnicodeNodeBTreeEntry {
                                    node: new.folder,
                                    data,
                                    sub_node: None,
                                    parent: Some(parent),
                                },
                                table_entry(new.hierarchy, hierarchy),
                                table_entry(new.contents, contents),
                                table_entry(new.associated_contents, associated),
                            ],
                        ),
                    ),
                },
            },
        },
    }
}

/// The entry of a table of a new folder.
pub open spec fn table_entry(node: NodeId, data: UnicodeBlockId) -> UnicodeNodeBTreeEntry {
    UnicodeNodeBTreeEntry { node, data, sub_node: None, parent: None }
}

/// Adds a new folder and its tables, and returns their entries.
fn push_folder(
    blocks: &mut Vec<NewBlock>,
    next_bid: &mut u64,
    next_offset: &mut u64,
    nbt_entries: &Vec<UnicodeNodeBTreeEntry>,
    new: FolderNodes,
    parent: NodeId,
    name: &str,
) -> (result: Result<Vec<UnicodeNodeBTreeEntry>, PstError>)
    ensures
        (
            block::plan(final(blocks)@, *final(next_bid), *final(next_offset)),
            crate::error::result_view(result),
        ) == with_folder(
            block::plan(old(blocks)@, *old(next_bid), *old(next_offset)),
            nbt_entries@,
            new,
            parent,
            name@,
        ),
{
    reveal(with_folder);
    let context = folder::folder_data(name, 0, false);
    let data = push_data_block(blocks, next_bid, next_offset, context)?;
    let hierarchy = push_empty_table(
        blocks,
        next_bid,
        next_offset,
        nbt_entries,
        HIERARCHY_TEMPLATE,
    )?;
    let contents = push_empty_table(
        blocks,
        next_bid,
        next_offset,
        nbt_entries,
        CONTENTS_TEMPLATE,
    )?;
    let associated = push_empty_table(
        blocks,
        next_bid,
        next_offset,
        nbt_entries,
        ASSOCIATED_CONTENTS_TEMPLATE,
    )?;
    let mut entries: Vec<UnicodeNodeBTreeEntry> = Vec::new();
    entries.push(UnicodeNodeBTreeEntry::new(new.folder, data, None, Some(parent)));
    entries.push(UnicodeNodeBTreeEntry::new(new.hierarchy, hierarchy, None, None));
    entries.push(UnicodeNodeBTreeEntry::new(new.contents, contents, None, None));
    entries.push(UnicodeNodeBTreeEntry::new(new.associated_contents, associated, None, None));
    assert(entries@ =~= seq![
        UnicodeNodeBTreeEntry { node: new.folder, data, sub_node: None, parent: Some(parent) },
        table_entry(new.hierarchy, hierarchy),
        table_entry(new.contents, contents),
        table_entry(new.associated_contents, associated),
    ]);
    Ok(entries)
}

/// The folder that a new folder stands below: its entry, whether it says that it has folders, its
/// properties and subnodes, its hierarchy table, where it has one, the parent of that table's node, and
/// the hierarchy table of the folder above it, where its row there is to change.
pub struct FolderParent {
    pub entry: UnicodeNodeBTreeEntry,
    pub has_subfolders: bool,
    pub properties: Vec<(u16, PropertyValue)>,
    pub subnodes: Vec<UnicodeLeafSubNodeTreeEntry>,
    pub hierarchy: Option<TableNode>,
    pub hierarchy_parent: Option<NodeId>,
    pub grandparent_hierarchy: Option<TableNode>,
}

/// The contents of the folder that a new folder stands below.
#[verifier::ext_equal]
pub struct ParentContents {
    pub entry: UnicodeNodeBTreeEntry,
    pub has_subfolders: bool,
    pub properties: Seq<(u16, EncodedValue)>,
    pub subnodes: Seq<UnicodeLeafSubNodeTreeEntry>,
    pub hierarchy: Option<TableNodeContents>,
    pub hierarchy_parent: Option<NodeId>,
    pub grandparent_hierarchy: Option<TableNodeContents>,
}

impl View for FolderParent {
    type V = ParentContents;

    open spec fn view(&self) -> ParentContents {
        ParentContents {
            entry: self.entry,
            has_subfolders: self.has_subfolders,
            properties: bytes::views(self.properties@),
            subnodes: self.subnodes@,
            hierarchy: update::node_view(self.hierarchy),
            hierarchy_parent: self.hierarchy_parent,
            grandparent_hierarchy: update::node_view(self.grandparent_hierarchy),
        }
    }
}

/// The update of a folder's row in the hierarchy table above it, once it has folders.
pub open spec fn subfolders_update(folder: NodeId) -> UpdateContents {
    UpdateContents { row: folder, property: 0x360A, value: property::boolean_value(true) }
}

/// The update of a folder's row once it has folders.
fn new_subfolders_update(folder: NodeId) -> (update: TableUpdate)
    ensures
        rebuild::update_view(Some(update)) == Some(subfolders_update(folder)),
{
    TableUpdate { row: folder, property: 0x360A, value: PropertyValue::Boolean(true) }
}

/// Whether the tables of the parent can be written anew: the table above it is at hand exactly where the
/// parent had no folders, the rows that are encoded can hold their cells, and the heaps can be written to.
pub open spec fn parent_fits(
    parent: ParentContents,
    row_version: u32,
    store_record_key: Seq<u8>,
    folder: NodeId,
    name: Seq<char>,
) -> bool {
    &&& parent.has_subfolders <==> parent.grandparent_hierarchy is None
    &&& parent.hierarchy matches Some(node) ==> folder::hierarchy_fits(
        node.table,
        store_record_key,
        folder,
        name,
        false,
        row_version,
    )
    &&& parent.grandparent_hierarchy matches Some(node) ==> update::update_fits(
        node.table,
        row_version,
        subfolders_update(parent.entry.node),
    )
}

/// Whether a folder with the given name can be planned below `parent`.
pub fn can_create_folder(
    header: &Header,
    parent: &FolderParent,
    store_record_key: &[u8; 16],
    new: FolderNodes,
    name: &str,
) -> (can: bool)
    ensures
        can == parent_fits(
            parent@,
            header@.unique,
            store_record_key@,
            new.folder,
            name@,
        ),
{
    let fits: bool = match &parent.hierarchy {
        Some(node) => folder::can_rebuild_hierarchy_table(
            &node.table,
            store_record_key,
            new.folder,
            name,
            false,
            header.unique,
        ),
        None => true,
    };
    let above_fits: bool = match &parent.grandparent_hierarchy {
        Some(node) => update::can_update_table(
            &node.table,
            header.unique,
            new_subfolders_update(parent.entry.node),
        ),
        None => true,
    };
    parent.has_subfolders == parent.grandparent_hierarchy.is_none() && fits && above_fits
}

/// The plan with the row of the parent in the hierarchy table above it, where that is to change, and the
/// entry of that table.
pub open spec fn with_parent_row(
    plan: BlockPlan,
    hierarchy: Option<TableNodeContents>,
    parent: NodeId,
    row_version: u32,
) -> (BlockPlan, Result<Option<UnicodeNodeBTreeEntry>, PstError>) {
    match hierarchy {
        None => (plan, Ok(None)),
        Some(node) => match update::with_updated_table(
            plan,
            node,
            row_version,
            subfolders_update(parent),
        ) {
            (after, Err(error)) => (after, Err(error)),
            (after, Ok(entry)) => (after, Ok(Some(entry))),
        },
    }
}

/// Adds the row of the parent in the hierarchy table above it, where that is to change.
fn push_parent_row(
    blocks: &mut Vec<NewBlock>,
    next_bid: &mut u64,
    next_offset: &mut u64,
    hierarchy: Option<TableNode>,
    parent: NodeId,
    row_version: u32,
) -> (result: Result<Option<UnicodeNodeBTreeEntry>, PstError>)
    requires
        hierarchy matches Some(node) ==> update::update_fits(
            node@.table,
            row_version,
            subfolders_update(parent),
        ),
    ensures
        (block::plan(final(blocks)@, *final(next_bid), *final(next_offset)), result)
            == with_parent_row(
            block::plan(old(blocks)@, *old(next_bid), *old(next_offset)),
            update::node_view(hierarchy),
            parent,
            row_version,
        ),
{
    match hierarchy {
        None => Ok(None),
        Some(node) => {
            let change = new_subfolders_update(parent);
            let entry = update::push_updated_table(
                blocks,
                next_bid,
                next_offset,
                node,
                row_version,
                change,
            )?;
            Ok(Some(entry))
        },
    }
}

/// The blocks and the nodes of a new folder with the given name.
#[verifier::opaque]
pub open spec fn planned_folder(
    header: HeaderContents,
    block_entries: Seq<UnicodeBlockBTreeEntry>,
    entries: Seq<UnicodeNodeBTreeEntry>,
    parent: ParentContents,
    store_record_key: Seq<u8>,
    new: FolderNodes,
    name: Seq<char>,
) -> Result<(BlockPlan, Seq<UnicodeNodeBTreeEntry>), PstError> {
    let start = BlockPlan {
        blocks: Seq::empty(),
        next_bid: nodes::next_block_index(header, block_entries),
        next_offset: header.root.file_eof_index,
    };
    let unique = header.unique;
    let node = parent.entry.node;
    match with_hierarchy(start, parent.hierarchy, store_record_key, new.folder, name, unique) {
        (_, Err(error)) => Err(error),
        (after, Ok((data, sub_node))) => match with_parent(
            after,
            parent.entry,
            parent.has_subfolders,
            parent.properties,
            parent.subnodes,
        ) {
            (_, Err(error)) => Err(error),
            (after, Ok(changed)) => match with_folder(after, entries, new, node, name) {
                (_, Err(error)) => Err(error),
                (after, Ok(added)) => match with_parent_row(
                    after,
                    parent.grandparent_hierarchy,
                    node,
                    unique,
                ) {
                    (_, Err(error)) => Err(error),
                    (after, Ok(above)) => Ok(
                        (
                            after,
                            nodes::replaced_nodes(
                                entries,
                                changed,
                                UnicodeNodeBTreeEntry {
                                    node: table_of(NodeIdType::HierarchyTable, node),
                                    data,
                                    sub_node,
                                    parent: parent.hierarchy_parent,
                                },
                                above,
                                added,
                            ),
                        ),
                    ),
                },
            },
        },
    }
}

/// Plans a folder with the given name below `parent`.
pub fn create_folder(
    header: &Header,
    bbt_entries: &Vec<UnicodeBlockBTreeEntry>,
    nbt_entries: Vec<UnicodeNodeBTreeEntry>,
    parent: FolderParent,
    store_record_key: &[u8; 16],
    new: FolderNodes,
    name: &str,
) -> (change: Result<ChangePlan, PstError>)
    requires
        parent_fits(parent@, header@.unique, store_record_key@, new.folder, name@),
    ensures
        crate::error::result_view(change) == planned_folder(
            header@,
            bbt_entries@,
            nbt_entries@,
            parent@,
            store_record_key@,
            new,
            name@,
        ),
        change matches Ok(change) ==> block_laws::plan_wf(change@.0),
{
    proof {
        append_laws::law_folder_plan_is_well_formed(
            header@,
            bbt_entries@,
            nbt_entries@,
            parent@,
            store_record_key@,
            new,
            name@,
        );
    }
    reveal(planned_folder);
    let mut blocks: Vec<NewBlock> = Vec::new();
    assert(bytes::views(blocks@) =~= Seq::empty());
    let mut next_bid: u64 = nodes::first_free_block(header, bbt_entries);
    let mut next_offset: u64 = header.root.file_eof_index;
    let node: NodeId = parent.entry.node;
    let (data, sub_node) = push_hierarchy(
        &mut blocks,
        &mut next_bid,
        &mut next_offset,
        parent.hierarchy,
        store_record_key,
        new.folder,
        name,
        header.unique,
    )?;
    let changed = push_parent(
        &mut blocks,
        &mut next_bid,
        &mut next_offset,
        parent.entry,
        parent.has_subfolders,
        parent.properties,
        parent.subnodes,
    )?;
    let added = push_folder(
        &mut blocks,
        &mut next_bid,
        &mut next_offset,
        &nbt_entries,
        new,
        node,
        name,
    )?;
    let above = push_parent_row(
        &mut blocks,
        &mut next_bid,
        &mut next_offset,
        parent.grandparent_hierarchy,
        node,
        header.unique,
    )?;
    let hierarchy = UnicodeNodeBTreeEntry::new(
        folder_table(NodeIdType::HierarchyTable, node),
        data,
        sub_node,
        parent.hierarchy_parent,
    );
    let mut entries = nbt_entries;
    nodes::replace_nodes(&mut entries, changed, hierarchy, above, &added);
    Ok(ChangePlan { blocks, next_bid, next_offset, nbt_entries: entries })
}

/// The nodes whose indices a new folder takes.
pub fn reserved_nodes(new: FolderNodes) -> (reserved: Vec<NodeId>)
    ensures
        reserved@ == seq![new.folder, new.hierarchy, new.contents, new.associated_contents],
{
    let mut reserved: Vec<NodeId> = Vec::new();
    reserved.push(new.folder);
    reserved.push(new.hierarchy);
    reserved.push(new.contents);
    reserved.push(new.associated_contents);
    assert(reserved@ =~= seq![
        new.folder,
        new.hierarchy,
        new.contents,
        new.associated_contents,
    ]);
    reserved
}

/// The updates for the search index: that the folder is there, and that its parent changed.
pub fn new_folder_updates(parent: NodeId, folder: NodeId) -> (updates: Vec<SearchUpdateData>)
    ensures
        updates@ == seq![
            SearchUpdateData::FolderAdded { parent, folder, reserved1: 0, reserved2: 0 },
            SearchUpdateData::FolderModified { folder: parent, reserved: 0 },
        ],
{
    let mut updates: Vec<SearchUpdateData> = Vec::new();
    updates.push(SearchUpdateData::FolderAdded { parent, folder, reserved1: 0, reserved2: 0 });
    updates.push(SearchUpdateData::FolderModified { folder: parent, reserved: 0 });
    assert(updates@ =~= seq![
        SearchUpdateData::FolderAdded { parent, folder, reserved1: 0, reserved2: 0 },
        SearchUpdateData::FolderModified { folder: parent, reserved: 0 },
    ]);
    updates
}

} // verus!
