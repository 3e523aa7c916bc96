//! What the header says before a commit, after it, and after the allocation maps were rebuilt.

use vstd::prelude::*;

use crate::error::PstError;
use crate::ndb::allocation;
use crate::ndb::block::PlannedBlock;
use crate::ndb::commit;
use crate::ndb::commit::PlannedBTrees;
use crate::ndb::header;
use crate::ndb::header::{AmapStatus, HeaderContents};
use crate::ndb::ids::{NodeId, UnicodeBlockId};

verus! {

/// Whether the changing number of a header was moved on: it is one larger, and the largest is followed by 0.
pub open spec fn was_moved_on(before: u32, after: u32) -> bool {
    after == (before + 1) % 0x1_0000_0000
}

/// Before anything is written the header says that the allocation maps cannot be relied on. Nothing else changes but
/// its changing number.
pub proof fn law_commit_starts(header: HeaderContents)
    ensures
        ({
            let after = commit::committing_header(header);
            &&& after.root.amap_is_valid == AmapStatus::Invalid
            &&& was_moved_on(header.unique, after.unique)
            &&& after.root.node_btree == header.root.node_btree
            &&& after.root.block_btree == header.root.block_btree
            &&& after.root.file_eof_index == header.root.file_eof_index
            &&& after.root.amap_last_index == header.root.amap_last_index
            &&& after.root.amap_free_size == header.root.amap_free_size
            &&& after.root.pmap_free_size == header.root.pmap_free_size
            &&& after.next_block == header.next_block
            &&& after.next_page == header.next_page
            &&& after.next_nodes == header.next_nodes
            &&& after.crypt_method == header.crypt_method
            &&& after.first_free_map == header.first_free_map
        }),
{
}

proof fn lemma_reserved(header: HeaderContents, nodes: Seq<NodeId>, index: int)
    requires
        0 <= index <= nodes.len(),
    ensures
        header::with_reserved_nodes(header, nodes, index) matches Ok(after) ==> after == (
        HeaderContents { next_nodes: after.next_nodes, ..header }),
    decreases nodes.len() - index,
{
    if index < nodes.len() {
        if let Ok(next) = header::with_reserved_node(header, nodes[index]) {
            lemma_reserved(next, nodes, index + 1);
        }
    }
}

/// After a commit the header names the new B-trees, the block and the page that come next, and the end of the file,
/// and the last allocation map is that of the region in which the last byte of the file stands. Whether the maps can
/// be relied on, what they say is free and how the file is encoded stays as it was.
pub proof fn law_commit_ends(
    header: HeaderContents,
    trees: PlannedBTrees,
    next_bid: u64,
    reserved_nodes: Seq<NodeId>,
    after: HeaderContents,
)
    requires
        commit::committed_header(header, trees, next_bid, reserved_nodes) == Ok::<_, PstError>(
            after,
        ),
        trees.plan.next_offset > 0x4400,
        header.next_nodes.len() == 32,
    ensures
        after.root.node_btree == trees.node_btree,
        after.root.block_btree == trees.block_btree,
        after.root.file_eof_index == trees.plan.next_offset,
        after.next_block.value == 4 * next_bid,
        after.next_page == trees.plan.next_page,
        was_moved_on(header.unique, after.unique),
        (after.root.amap_last_index - 0x4400) % 253952 == 0,
        0x4400 <= after.root.amap_last_index < trees.plan.next_offset
            <= after.root.amap_last_index + 253952,
        after.root.amap_is_valid == header.root.amap_is_valid,
        after.root.amap_free_size == header.root.amap_free_size,
        after.root.pmap_free_size == header.root.pmap_free_size,
        after.crypt_method == header.crypt_method,
        after.first_free_map == header.first_free_map,
        after.next_nodes.len() == header.next_nodes.len(),
{
    let eof = trees.plan.next_offset;
    let region = allocation::region_of(eof - 1);
    assert(eof - 1 - 0x4400 == 253952 * region + (eof - 1 - 0x4400) % 253952);
    assert(region >= 0);
    assert(allocation::region_start(region) == 0x4400 + region * 253952);
    let next = HeaderContents {
        next_block: UnicodeBlockId::spec_new(false, next_bid)->Ok_0,
        next_page: trees.plan.next_page,
        ..header
    };
    lemma_reserved(next, reserved_nodes, 0);
    lemma_node_count(next, reserved_nodes, 0);
}

proof fn lemma_node_count(header: HeaderContents, nodes: Seq<NodeId>, index: int)
    requires
        0 <= index <= nodes.len(),
        header.next_nodes.len() == 32,
    ensures
        header::with_reserved_nodes(header, nodes, index) matches Ok(after)
            ==> after.next_nodes.len() == header.next_nodes.len(),
    decreases nodes.len() - index,
{
    if index < nodes.len() {
        if let Ok(next) = header::with_reserved_node(header, nodes[index]) {
            lemma_node_count(next, nodes, index + 1);
        }
    }
}

/// Taking the index of a node moves the next index of its type behind it, never back, and leaves those of all other
/// types alone.
pub proof fn law_reserved_node_moves_its_type(
    header: HeaderContents,
    node: NodeId,
    after: HeaderContents,
    code: int,
)
    requires
        header.next_nodes.len() == 32,
        header::with_reserved_node(header, node) == Ok::<_, PstError>(after),
        0 <= code < 32,
    ensures
        code != node.value % 32 ==> after.next_nodes[code] == header.next_nodes[code],
        code == node.value % 32 ==> after.next_nodes[code] > node.value / 32
            && after.next_nodes[code] >= header.next_nodes[code] && (after.next_nodes[code]
            == header.next_nodes[code] || after.next_nodes[code] == node.value / 32 + 1),
{
}

/// The entry of a new block says what the block is, where it stands and how many bytes it has, and counts the block
/// once.
pub proof fn law_new_blocks_are_listed(blocks: Seq<PlannedBlock>, index: int)
    requires
        0 <= index < blocks.len(),
    ensures
        commit::new_entries(blocks).len() == blocks.len(),
        commit::new_entries(blocks)[index].block.block == blocks[index].id,
        commit::new_entries(blocks)[index].block.index == blocks[index].offset,
        commit::new_entries(blocks)[index].size == blocks[index].size,
        commit::new_entries(blocks)[index].ref_count == 1,
{
}

} // verus!
