//! Nodes written anew: tables with other rows, and property contexts with other values.

use vstd::prelude::*;

use crate::bytes;
use crate::error::PstError;
use crate::ltp::heap;
use crate::ltp::property::{EncodedValue, PropertyValue};
use crate::ltp::property_context;
use crate::ltp::rebuild;
use crate::ltp::rebuild::{
    RebuiltContents, RebuiltTable, TableContents, TableContext, TableUpdate, UpdateContents,
};
use crate::ndb::block;
use crate::ndb::block::{BlockPlan, NewBlock, UnicodeLeafSubNodeTreeEntry};
use crate::ndb::btree::UnicodeNodeBTreeEntry;
use crate::ndb::data_tree;
use crate::ndb::ids::{NodeId, UnicodeBlockId};
use crate::ndb::nodes;
use crate::ndb::subnode_tree;

verus! {

/// The plan with the values from `index` on in data trees of their own, and the subnodes with one
/// more for each.
pub open spec fn with_external(
    plan: BlockPlan,
    external: Seq<(NodeId, Seq<u8>)>,
    index: int,
    subnodes: Seq<UnicodeLeafSubNodeTreeEntry>,
) -> (BlockPlan, Result<Seq<UnicodeLeafSubNodeTreeEntry>, PstError>)
    decreases external.len() - index,
{
    if index >= external.len() {
        (plan, Ok(subnodes))
    } else {
        match data_tree::with_data_tree(plan, data_tree::data_chunks(external[index].1)) {
            (after, Err(error)) => (after, Err(error)),
            (after, Ok(block)) => with_external(
                after,
                external,
                index + 1,
                subnodes.push(
                    UnicodeLeafSubNodeTreeEntry { node: external[index].0, block, sub_node: None },
                ),
            ),
        }
    }
}

/// Adds the values in data trees of their own and one subnode for each.
pub fn push_external(
    blocks: &mut Vec<NewBlock>,
    next_bid: &mut u64,
    next_offset: &mut u64,
    external: &Vec<(NodeId, Vec<u8>)>,
    subnodes: &mut Vec<UnicodeLeafSubNodeTreeEntry>,
) -> (result: Result<(), PstError>)
    ensures
        ({
            let (after, expected) = with_external(
                block::plan(old(blocks)@, *old(next_bid), *old(next_offset)),
                bytes::views(external@),
                0,
                old(subnodes)@,
            );
            &&& block::plan(final(blocks)@, *final(next_bid), *final(next_offset)) == after
            &&& match expected {
                Ok(entries) => result is Ok && final(subnodes)@ == entries,
                Err(error) => result == Err::<(), PstError>(error),
            }
        }),
{
    let ghost values = bytes::views(external@);
    let mut i: usize = 0;
    while i < external.len()
        invariant
            i <= external@.len(),
            values == bytes::views(external@),
            with_external(
                block::plan(old(blocks)@, *old(next_bid), *old(next_offset)),
                values,
                0,
                old(subnodes)@,
            ) == with_external(
                block::plan(blocks@, *next_bid, *next_offset),
                values,
                i as int,
                subnodes@,
            ),
        decreases external@.len() - i,
    {
        assert(values[i as int] == (external@[i as int].0, external@[i as int].1@));
        let block = data_tree::push_data_tree(
            blocks,
            next_bid,
            next_offset,
            external[i].1.as_slice(),
        )?;
        subnodes.push(UnicodeLeafSubNodeTreeEntry::new(external[i].0, block, None));
        i += 1;
    }
    Ok(())
}

/// The subnodes with `rows_node` replaced by one with the given data.
pub open spec fn with_rows_node(
    subnodes: Seq<UnicodeLeafSubNodeTreeEntry>,
    rows_node: NodeId,
    rows: UnicodeBlockId,
) -> Seq<UnicodeLeafSubNodeTreeEntry> {
    nodes::without_subnode(subnodes, rows_node).push(
        UnicodeLeafSubNodeTreeEntry { node: rows_node, block: rows, sub_node: None },
    )
}

/// The plan with the heap and the rows of a table, the data of its node, and its subnodes with the
/// rows in `rows_node`.
pub open spec fn with_table_rows(
    plan: BlockPlan,
    table: RebuiltContents,
    rows_node: NodeId,
    subnodes: Seq<UnicodeLeafSubNodeTreeEntry>,
) -> (BlockPlan, Result<(UnicodeBlockId, Seq<UnicodeLeafSubNodeTreeEntry>), PstError>) {
    match data_tree::with_data_tree(plan, table.heap_pages) {
        (after, Err(error)) => (after, Err(error)),
        (after, Ok(data)) => match data_tree::with_data_tree(after, table.row_chunks) {
            (after, Err(error)) => (after, Err(error)),
            (after, Ok(rows)) => (after, Ok((data, with_rows_node(subnodes, rows_node, rows)))),
        },
    }
}

/// Adds the heap and the rows of a table. Returns the data of its node; its subnodes have the rows
/// in `rows_node` afterwards.
pub fn push_table_rows(
    blocks: &mut Vec<NewBlock>,
    next_bid: &mut u64,
    next_offset: &mut u64,
    table: RebuiltTable,
    rows_node: NodeId,
    subnodes: &mut Vec<UnicodeLeafSubNodeTreeEntry>,
) -> (result: Result<UnicodeBlockId, PstError>)
    ensures
        ({
            let (after, expected) = with_table_rows(
                block::plan(old(blocks)@, *old(next_bid), *old(next_offset)),
                table@,
                rows_node,
                old(subnodes)@,
            );
            &&& block::plan(final(blocks)@, *final(next_bid), *final(next_offset)) == after
            &&& match expected {
                Ok((data, entries)) => result == Ok::<UnicodeBlockId, PstError>(data)
                    && final(subnodes)@ == entries,
                Err(error) => result == Err::<UnicodeBlockId, PstError>(error),
            }
        }),
{
    let data = data_tree::push_data_tree_chunks(
        blocks,
        next_bid,
        next_offset,
        table.heap_pages,
    )?;
    let rows = data_tree::push_data_tree_chunks(
        blocks,
        next_bid,
        next_offset,
        table.row_chunks,
    )?;
    nodes::remove_subnode(subnodes, rows_node);
    subnodes.push(UnicodeLeafSubNodeTreeEntry::new(rows_node, rows, None));
    Ok(data)
}

/// The plan with a property context, the data of its node, and its subnodes. A context without any
/// has none.
#[verifier::opaque]
pub open spec fn with_property_node(
    plan: BlockPlan,
    properties: Seq<(u16, EncodedValue)>,
    subnodes: Seq<UnicodeLeafSubNodeTreeEntry>,
) -> (BlockPlan, Result<(UnicodeBlockId, Option<UnicodeBlockId>), PstError>) {
    match property_context::spec_property_context_pages(
        properties,
        nodes::next_internal_index(nodes::subnodes_of(subnodes)),
    ) {
        Err(error) => (plan, Err(error)),
        Ok((pages, external)) => match data_tree::with_data_tree(plan, pages) {
            (after, Err(error)) => (after, Err(error)),
            (after, Ok(data)) => match with_external(after, external, 0, subnodes) {
                (after, Err(error)) => (after, Err(error)),
                (after, Ok(entries)) => if entries.len() == 0 {
                    (after, Ok((data, None)))
                } else {
                    match subnode_tree::with_subnode_tree(after, entries) {
                        (after, Err(error)) => (after, Err(error)),
                        (after, Ok(root)) => (after, Ok((data, Some(root)))),
                    }
                },
            },
        },
    }
}

/// Adds a property context whose node has the given subnodes. Large values stand in more subnodes.
/// Returns the data of the node and its subnodes, where it has any.
pub fn push_property_node(
    blocks: &mut Vec<NewBlock>,
    next_bid: &mut u64,
    next_offset: &mut u64,
    properties: Vec<(u16, PropertyValue)>,
    subnodes: Vec<UnicodeLeafSubNodeTreeEntry>,
) -> (result: Result<(UnicodeBlockId, Option<UnicodeBlockId>), PstError>)
    ensures
        (block::plan(final(blocks)@, *final(next_bid), *final(next_offset)), result)
            == with_property_node(
            block::plan(old(blocks)@, *old(next_bid), *old(next_offset)),
            bytes::views(properties@),
            subnodes@,
        ),
{
    reveal(with_property_node);
    let mut entries = subnodes;
    let next_index: u32 = nodes::next_internal_subnode(&entries);
    let (pages, external) = property_context::property_context_pages(properties, next_index)?;
    let data = data_tree::push_data_tree_chunks(blocks, next_bid, next_offset, pages)?;
    push_external(blocks, next_bid, next_offset, &external, &mut entries)?;
    if entries.len() == 0 {
        return Ok((data, None));
    }
    let root = subnode_tree::push_subnode_tree(blocks, next_bid, next_offset, entries)?;
    Ok((data, Some(root)))
}

/// A node that holds a table: its entry, its table, its subnodes, and the one with its rows.
pub struct TableNode {
    pub entry: UnicodeNodeBTreeEntry,
    pub table: TableContext,
    pub subnodes: Vec<UnicodeLeafSubNodeTreeEntry>,
    pub rows_node: NodeId,
}

/// The contents of a node that holds a table.
#[verifier::ext_equal]
pub struct TableNodeContents {
    pub entry: UnicodeNodeBTreeEntry,
    pub table: TableContents,
    pub subnodes: Seq<UnicodeLeafSubNodeTreeEntry>,
    pub rows_node: NodeId,
}

impl View for TableNode {
    type V = TableNodeContents;

    open spec fn view(&self) -> TableNodeContents {
        TableNodeContents {
            entry: self.entry,
            table: self.table@,
            subnodes: self.subnodes@,
            rows_node: self.rows_node,
        }
    }
}

/// The contents of a node that holds a table, where there is one.
pub open spec fn node_view(node: Option<TableNode>) -> Option<TableNodeContents> {
    match node {
        Some(node) => Some(node@),
        None => None,
    }
}

/// Whether a table can be written anew with an update of one row: the row can hold its cells, and the
/// heap can be written to.
pub open spec fn update_fits(
    table: TableContents,
    row_version: u32,
    update: UpdateContents,
) -> bool {
    rebuild::rows_fit(table, Seq::empty(), row_version, Some(update), true) && heap::heap_wf(
        table.pages,
    )
}

/// Whether a table can be written anew with an update of one row.
pub fn can_update_table(table: &TableContext, row_version: u32, update: TableUpdate) -> (can: bool)
    ensures
        can == update_fits(table@, row_version, rebuild::update_view(Some(update))->Some_0),
{
    let no_rows: Vec<rebuild::NewTableRow> = Vec::new();
    assert(bytes::views(no_rows@) =~= Seq::empty());
    let fits: bool = rebuild::can_rebuild_table(table, &no_rows, row_version, &Some(update), true);
    fits && rebuild::has_heap(table)
}

/// The plan with a table whose row `update` names has another value, and the entry of its node. The
/// rows that it has are kept.
#[verifier::opaque]
pub open spec fn with_updated_table(
    plan: BlockPlan,
    node: TableNodeContents,
    row_version: u32,
    update: UpdateContents,
) -> (BlockPlan, Result<UnicodeNodeBTreeEntry, PstError>) {
    match rebuild::spec_rebuild_table(
        node.table,
        Seq::empty(),
        Some(node.rows_node),
        row_version,
        Some(update),
        true,
    ) {
        Err(error) => (plan, Err(error)),
        Ok(table) => match with_table_rows(plan, table, node.rows_node, node.subnodes) {
            (after, Err(error)) => (after, Err(error)),
            (after, Ok((data, entries))) => match subnode_tree::with_subnode_tree(after, entries) {
                (after, Err(error)) => (after, Err(error)),
                (after, Ok(root)) => (
                    after,
                    Ok(UnicodeNodeBTreeEntry { data, sub_node: Some(root), ..node.entry }),
                ),
            },
        },
    }
}

/// Adds a table whose row `update` names has another value, and returns the entry of its node. The
/// rows that it has are kept.
pub fn push_updated_table(
    blocks: &mut Vec<NewBlock>,
    next_bid: &mut u64,
    next_offset: &mut u64,
    node: TableNode,
    row_version: u32,
    update: TableUpdate,
) -> (result: Result<UnicodeNodeBTreeEntry, PstError>)
    requires
        update_fits(
            node@.table,
            row_version,
            rebuild::update_view(Some(update))->Some_0,
        ),
    ensures
        (block::plan(final(blocks)@, *final(next_bid), *final(next_offset)), result)
            == with_updated_table(
            block::plan(old(blocks)@, *old(next_bid), *old(next_offset)),
            node@,
            row_version,
            rebuild::update_view(Some(update))->Some_0,
        ),
{
    reveal(with_updated_table);
    let no_rows: Vec<rebuild::NewTableRow> = Vec::new();
    assert(bytes::views(no_rows@) =~= Seq::empty());
    let rebuilt = rebuild::rebuild_table(
        &node.table,
        no_rows,
        Some(node.rows_node),
        row_version,
        Some(update),
        true,
    )?;
    let mut subnodes = node.subnodes;
    let data = push_table_rows(
        blocks,
        next_bid,
        next_offset,
        rebuilt,
        node.rows_node,
        &mut subnodes,
    )?;
    let root = subnode_tree::push_subnode_tree(blocks, next_bid, next_offset, subnodes)?;
    Ok(UnicodeNodeBTreeEntry::new(node.entry.node, data, Some(root), node.entry.parent))
}

} // verus!
