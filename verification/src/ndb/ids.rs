//! Identifiers of nodes, blocks and pages, and references to them.

use vstd::prelude::*;

use crate::error::{NdbError, PstError};

verus! {

/// The type of a node, the low five bits of its identifier.
#[derive(Clone, Copy, PartialEq, Eq, Debug, Structural)]
pub enum NodeIdType {
    HeapNode,
    Internal,
    NormalFolder,
    SearchFolder,
    NormalMessage,
    Attachment,
    SearchUpdateQueue,
    SearchCriteria,
    AssociatedMessage,
    ContentsTableIndex,
    ReceiveFolderTable,
    OutgoingQueueTable,
    HierarchyTable,
    ContentsTable,
    AssociatedContentsTable,
    SearchContentsTable,
    AttachmentTable,
    RecipientTable,
    SearchTableIndex,
    ListsTablesProperties,
}

impl NodeIdType {
    /// The code of the node type in a node identifier.
    pub open spec fn spec_code(self) -> u8 {
        match self {
            NodeIdType::HeapNode => 0x00,
            NodeIdType::Internal => 0x01,
            NodeIdType::NormalFolder => 0x02,
            NodeIdType::SearchFolder => 0x03,
            NodeIdType::NormalMessage => 0x04,
            NodeIdType::Attachment => 0x05,
            NodeIdType::SearchUpdateQueue => 0x06,
            NodeIdType::SearchCriteria => 0x07,
            NodeIdType::AssociatedMessage => 0x08,
            NodeIdType::ContentsTableIndex => 0x0A,
            NodeIdType::ReceiveFolderTable => 0x0B,
            NodeIdType::OutgoingQueueTable => 0x0C,
            NodeIdType::HierarchyTable => 0x0D,
            NodeIdType::ContentsTable => 0x0E,
            NodeIdType::AssociatedContentsTable => 0x0F,
            NodeIdType::SearchContentsTable => 0x10,
            NodeIdType::AttachmentTable => 0x11,
            NodeIdType::RecipientTable => 0x12,
            NodeIdType::SearchTableIndex => 0x13,
            NodeIdType::ListsTablesProperties => 0x1F,
        }
    }

    /// The code of the node type in a node identifier.
    pub fn code(self) -> (code: u8)
        ensures
            code == self.spec_code(),
            code < 32,
    {
        match self {
            NodeIdType::HeapNode => 0x00,
            NodeIdType::Internal => 0x01,
            NodeIdType::NormalFolder => 0x02,
            NodeIdType::SearchFolder => 0x03,
            NodeIdType::NormalMessage => 0x04,
            NodeIdType::Attachment => 0x05,
            NodeIdType::SearchUpdateQueue => 0x06,
            NodeIdType::SearchCriteria => 0x07,
            NodeIdType::AssociatedMessage => 0x08,
            NodeIdType::ContentsTableIndex => 0x0A,
            NodeIdType::ReceiveFolderTable => 0x0B,
            NodeIdType::OutgoingQueueTable => 0x0C,
            NodeIdType::HierarchyTable => 0x0D,
            NodeIdType::ContentsTable => 0x0E,
            NodeIdType::AssociatedContentsTable => 0x0F,
            NodeIdType::SearchContentsTable => 0x10,
            NodeIdType::AttachmentTable => 0x11,
            NodeIdType::RecipientTable => 0x12,
            NodeIdType::SearchTableIndex => 0x13,
            NodeIdType::ListsTablesProperties => 0x1F,
        }
    }
}

/// The identifier of a node: an index of 27 bits and a type of five.
#[derive(Clone, Copy, PartialEq, Eq, Debug, Structural)]
pub struct NodeId {
    pub value: u32,
}

impl View for NodeId {
    type V = NodeId;

    open spec fn view(&self) -> NodeId {
        *self
    }
}

/// The number of node indices.
pub const NODE_INDEX_LIMIT: u32 = 0x0800_0000;

/// The attachment table of a message.
pub const NID_ATTACHMENT_TABLE: u32 = 0x671;

/// The recipient table of a message.
pub const NID_RECIPIENT_TABLE: u32 = 0x692;

/// The queue of updates for the search index.
pub const NID_SEARCH_MANAGEMENT_QUEUE: u32 = 0x1E1;

impl NodeId {
    /// The node with the given type and index, where the index fits.
    pub open spec fn spec_new(id_type: NodeIdType, index: u32) -> Result<NodeId, PstError> {
        if index < NODE_INDEX_LIMIT {
            Ok(NodeId { value: (index * 32 + id_type.spec_code()) as u32 })
        } else {
            Err(PstError::NodeDatabaseError(NdbError::InvalidNodeIndex(index)))
        }
    }

    /// Whether the node is of the given type.
    pub open spec fn has_type(self, id_type: NodeIdType) -> bool {
        self.value % 32 == id_type.spec_code()
    }

    /// The index part of the identifier.
    pub open spec fn spec_index(self) -> u32 {
        self.value / 32
    }

    /// The node with the given type and index. An index of more than 27 bits is refused.
    pub fn new(id_type: NodeIdType, index: u32) -> (node: Result<NodeId, PstError>)
        ensures
            node == Self::spec_new(id_type, index),
    {
        if index < NODE_INDEX_LIMIT {
            let code: u32 = id_type.code() as u32;
            Ok(NodeId { value: index * 32 + code })
        } else {
            Err(PstError::NodeDatabaseError(NdbError::InvalidNodeIndex(index)))
        }
    }

    /// Whether the node is of the given type.
    pub fn is_type(self, id_type: NodeIdType) -> (is: bool)
        ensures
            is == self.has_type(id_type),
    {
        self.value % 32 == id_type.code() as u32
    }

    /// The index part of the identifier.
    pub fn index(self) -> (index: u32)
        ensures
            index == self.spec_index(),
    {
        self.value / 32
    }
}

/// A node identifier has the type and the index it was made with.
pub proof fn law_node_id_round_trip(id_type: NodeIdType, index: u32)
    requires
        index < NODE_INDEX_LIMIT,
    ensures
        NodeId::spec_new(id_type, index) matches Ok(node) && node.has_type(id_type)
            && node.spec_index() == index,
{
}

/// The identifier of a block: an index of 62 bits and a mark for internal blocks.
#[derive(Clone, Copy, PartialEq, Eq, Debug, Structural)]
pub struct UnicodeBlockId {
    pub value: u64,
}

/// The number of block indices.
pub const BLOCK_INDEX_LIMIT: u64 = 0x4000_0000_0000_0000;

impl UnicodeBlockId {
    /// The block with the given index, where the index fits.
    pub open spec fn spec_new(internal: bool, index: u64) -> Result<UnicodeBlockId, PstError> {
        if index < BLOCK_INDEX_LIMIT {
            Ok(
                UnicodeBlockId {
                    value: (index * 4 + if internal {
                        2int
                    } else {
                        0int
                    }) as u64,
                },
            )
        } else {
            Err(PstError::NodeDatabaseError(NdbError::InvalidUnicodeBlockIndex(index)))
        }
    }

    /// Whether the block holds a tree rather than data.
    pub open spec fn spec_is_internal(self) -> bool {
        self.value / 2 % 2 == 1
    }

    /// The index part of the identifier.
    pub open spec fn spec_index(self) -> u64 {
        self.value / 4
    }

    /// The key of the block in the block B-tree: the identifier without its lowest bit.
    pub open spec fn spec_search_key(self) -> u64 {
        (self.value - self.value % 2) as u64
    }

    /// The block with the given index. An index of more than 62 bits is refused.
    pub fn new(internal: bool, index: u64) -> (block: Result<UnicodeBlockId, PstError>)
        ensures
            block == Self::spec_new(internal, index),
    {
        if index < BLOCK_INDEX_LIMIT {
            let mark: u64 = if internal {
                2
            } else {
                0
            };
            Ok(UnicodeBlockId { value: index * 4 + mark })
        } else {
            Err(PstError::NodeDatabaseError(NdbError::InvalidUnicodeBlockIndex(index)))
        }
    }

    /// Whether the block holds a tree rather than data.
    pub fn is_internal(self) -> (internal: bool)
        ensures
            internal == self.spec_is_internal(),
    {
        self.value / 2 % 2 == 1
    }

    /// The index part of the identifier.
    pub fn index(self) -> (index: u64)
        ensures
            index == self.spec_index(),
    {
        self.value / 4
    }

    /// The key of the block in the block B-tree.
    pub fn search_key(self) -> (key: u64)
        ensures
            key == self.spec_search_key(),
    {
        self.value - self.value % 2
    }
}

/// A block identifier has the mark and the index it was made with, and is its own search key.
pub proof fn law_block_id_round_trip(internal: bool, index: u64)
    requires
        index < BLOCK_INDEX_LIMIT,
    ensures
        UnicodeBlockId::spec_new(internal, index) matches Ok(block) && block.spec_is_internal()
            == internal && block.spec_index() == index && block.spec_search_key() == block.value,
{
    let mark: int = if internal {
        2
    } else {
        0
    };
    let value: int = index * 4 + mark;
    assert(value / 4 == index);
    assert(value / 2 == index * 2 + mark / 2);
    assert(value % 2 == 0);
}

/// The identifier of a page. Pages count up by one and use every bit.
#[derive(Clone, Copy, PartialEq, Eq, Debug, Structural)]
pub struct UnicodePageId {
    pub value: u64,
}

impl UnicodePageId {
    /// The page that follows, where there is one.
    pub open spec fn spec_next(self) -> Result<UnicodePageId, PstError> {
        if self.value < u64::MAX {
            Ok(UnicodePageId { value: (self.value + 1) as u64 })
        } else {
            Err(PstError::IntegerConversion)
        }
    }

    /// The page that follows.
    pub fn next(self) -> (page: Result<UnicodePageId, PstError>)
        ensures
            page == self.spec_next(),
    {
        if self.value < u64::MAX {
            Ok(UnicodePageId { value: self.value + 1 })
        } else {
            Err(PstError::IntegerConversion)
        }
    }
}

/// A block and the file offset where it stands.
#[derive(Clone, Copy, PartialEq, Eq, Debug, Structural)]
pub struct UnicodeBlockRef {
    pub block: UnicodeBlockId,
    pub index: u64,
}

/// A page and the file offset where it stands.
#[derive(Clone, Copy, PartialEq, Eq, Debug, Structural)]
pub struct UnicodePageRef {
    pub block: UnicodePageId,
    pub index: u64,
}

} // verus!
