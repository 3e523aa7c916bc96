//! Which blocks nodes and trees refer to.

use vstd::prelude::*;

use crate::ndb::block::UnicodeLeafSubNodeTreeEntry;
use crate::ndb::btree::UnicodeNodeBTreeEntry;
use crate::ndb::compact;
use crate::ndb::compact::InternalBlock;
use crate::ndb::ids::UnicodeBlockId;

verus! {

/// Whether a subnode refers to a block: by its data, or by its own subnodes.
pub open spec fn subnode_names(entry: UnicodeLeafSubNodeTreeEntry, block: UnicodeBlockId) -> bool {
    entry.block == block || entry.sub_node == Some(block)
}

/// Whether a node refers to a block: by its data, or by its subnodes.
pub open spec fn node_names(entry: UnicodeNodeBTreeEntry, block: UnicodeBlockId) -> bool {
    entry.data == block || entry.sub_node == Some(block)
}

proof fn lemma_subnode_blocks(
    entries: Seq<UnicodeLeafSubNodeTreeEntry>,
    count: nat,
    block: UnicodeBlockId,
)
    requires
        count <= entries.len(),
    ensures
        compact::subnode_blocks(entries, count).contains(block) <==> exists|i: int|
            0 <= i < count && subnode_names(#[trigger] entries[i], block),
    decreases count,
{
    let all = compact::subnode_blocks(entries, count);
    if count > 0 {
        let before = compact::subnode_blocks(entries, (count - 1) as nat);
        lemma_subnode_blocks(entries, (count - 1) as nat, block);
        let last = entries[count - 1];
        assert(all[before.len() as int] == last.block);
        if last.sub_node is Some {
            assert(all[before.len() + 1int] == last.sub_node->Some_0);
        }
        assert forall|k: int| 0 <= k < before.len() implies #[trigger] all[k] == before[k] by {}
        if all.contains(block) {
            let k = choose|k: int| 0 <= k < all.len() && all[k] == block;
            if k < before.len() {
                assert(before[k] == block);
            } else {
                assert(subnode_names(entries[count - 1], block));
            }
        }
        if exists|i: int| 0 <= i < count && subnode_names(#[trigger] entries[i], block) {
            let i = choose|i: int| 0 <= i < count && subnode_names(#[trigger] entries[i], block);
            if i < count - 1 {
                assert(before.contains(block));
                let k = choose|k: int| 0 <= k < before.len() && before[k] == block;
                assert(all[k] == block);
            }
        }
    }
}

/// A tree in an internal block refers to the blocks that its entries name, and to no others: each entry of a data tree
/// is one, and a subnode names its data and its own subnodes.
pub proof fn law_tree_names_blocks(tree: InternalBlock, block: UnicodeBlockId)
    ensures
        tree.spec_children().contains(block) <==> (match tree {
            InternalBlock::DataTree(blocks) => exists|i: int|
                0 <= i < blocks@.len() && #[trigger] blocks@[i] == block,
            InternalBlock::SubNodes(entries) => exists|i: int|
                0 <= i < entries@.len() && subnode_names(#[trigger] entries@[i], block),
            InternalBlock::IntermediateSubNodes(entries) => exists|i: int|
                0 <= i < entries@.len() && (#[trigger] entries@[i]).block == block,
        }),
{
    match tree {
        InternalBlock::DataTree(_) => {},
        InternalBlock::SubNodes(entries) => {
            lemma_subnode_blocks(entries@, entries@.len(), block);
        },
        InternalBlock::IntermediateSubNodes(entries) => {
            let all = tree.spec_children();
            if all.contains(block) {
                let k = choose|k: int| 0 <= k < all.len() && all[k] == block;
                assert(entries@[k].block == block);
            }
            if exists|i: int| 0 <= i < entries@.len() && (#[trigger] entries@[i]).block == block {
                let i = choose|i: int|
                    0 <= i < entries@.len() && (#[trigger] entries@[i]).block == block;
                assert(all[i] == block);
            }
        },
    }
}

/// Nodes refer to the blocks of their data and of their subnodes, and to no others.
pub proof fn law_nodes_name_blocks(
    nodes: Seq<UnicodeNodeBTreeEntry>,
    count: nat,
    block: UnicodeBlockId,
)
    requires
        count <= nodes.len(),
    ensures
        compact::node_blocks(nodes, count).contains(block) <==> exists|i: int|
            0 <= i < count && node_names(#[trigger] nodes[i], block),
    decreases count,
{
    let all = compact::node_blocks(nodes, count);
    if count > 0 {
        let before = compact::node_blocks(nodes, (count - 1) as nat);
        law_nodes_name_blocks(nodes, (count - 1) as nat, block);
        let last = nodes[count - 1];
        assert(all[before.len() as int] == last.data);
        if last.sub_node is Some {
            assert(all[before.len() + 1int] == last.sub_node->Some_0);
        }
        assert forall|k: int| 0 <= k < before.len() implies #[trigger] all[k] == before[k] by {}
        if all.contains(block) {
            let k = choose|k: int| 0 <= k < all.len() && all[k] == block;
            if k < before.len() {
                assert(before[k] == block);
            } else {
                assert(node_names(nodes[count - 1], block));
            }
        }
        if exists|i: int| 0 <= i < count && node_names(#[trigger] nodes[i], block) {
            let i = choose|i: int| 0 <= i < count && node_names(#[trigger] nodes[i], block);
            if i < count - 1 {
                assert(before.contains(block));
                let k = choose|k: int| 0 <= k < before.len() && before[k] == block;
                assert(all[k] == block);
            }
        }
    }
}

} // verus!
