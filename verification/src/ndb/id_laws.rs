//! What identifiers of nodes and blocks say.

use vstd::prelude::*;

use crate::ndb::btree::{UnicodeBlockBTreeEntry, UnicodeNodeBTreeEntry};
use crate::ndb::ids::{NodeId, NodeIdType, UnicodeBlockId};
use crate::sorting::Keyed;

verus! {

/// The number of a node type.
pub open spec fn type_number(id_type: NodeIdType) -> int {
    match id_type {
        NodeIdType::HeapNode => 0,
        NodeIdType::Internal => 1,
        NodeIdType::NormalFolder => 2,
        NodeIdType::SearchFolder => 3,
        NodeIdType::NormalMessage => 4,
        NodeIdType::Attachment => 5,
        NodeIdType::SearchUpdateQueue => 6,
        NodeIdType::SearchCriteria => 7,
        NodeIdType::AssociatedMessage => 8,
        NodeIdType::ContentsTableIndex => 10,
        NodeIdType::ReceiveFolderTable => 11,
        NodeIdType::OutgoingQueueTable => 12,
        NodeIdType::HierarchyTable => 13,
        NodeIdType::ContentsTable => 14,
        NodeIdType::AssociatedContentsTable => 15,
        NodeIdType::SearchContentsTable => 16,
        NodeIdType::AttachmentTable => 17,
        NodeIdType::RecipientTable => 18,
        NodeIdType::SearchTableIndex => 19,
        NodeIdType::ListsTablesProperties => 31,
    }
}

/// The identifier of a node is its index above five bits with the number of its type, and two nodes have the same
/// identifier only where they have the same type and the same index.
pub proof fn law_node_id_says_type(
    id_type: NodeIdType,
    index: u32,
    other_type: NodeIdType,
    other_index: u32,
)
    requires
        index < 0x0800_0000,
        other_index < 0x0800_0000,
    ensures
        NodeId::spec_new(id_type, index) matches Ok(node) && node.value == 32 * index + type_number(
            id_type,
        ),
        NodeId::spec_new(id_type, index) == NodeId::spec_new(other_type, other_index) <==> id_type
            == other_type && index == other_index,
{
}

/// The identifier of a block is its index above two bits, of which the higher marks a tree, and two blocks have the
/// same identifier only where they have the same mark and the same index.
pub proof fn law_block_id_says_kind(internal: bool, index: u64, other: bool, other_index: u64)
    requires
        index < 0x4000_0000_0000_0000,
        other_index < 0x4000_0000_0000_0000,
    ensures
        UnicodeBlockId::spec_new(internal, index) matches Ok(block) && block.value == 4 * index + (
        if internal {
            2int
        } else {
            0int
        }),
        UnicodeBlockId::spec_new(internal, index) == UnicodeBlockId::spec_new(other, other_index)
            <==> internal == other && index == other_index,
{
}

/// The entries of the B-trees are ordered by the identifiers of their nodes, and of their blocks without the lowest
/// bit.
pub proof fn law_entry_keys(node: UnicodeNodeBTreeEntry, block: UnicodeBlockBTreeEntry)
    ensures
        node.spec_key() == node.node.value,
        block.spec_key() == block.block.block.value / 2 * 2,
{
}

} // verus!
