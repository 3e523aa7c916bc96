//! The header of the file and its root.

use vstd::prelude::*;

use crate::error::{NdbError, PstError};
use crate::ndb::ids::{NodeId, NodeIdType, UnicodeBlockId, UnicodePageId, UnicodePageRef};

verus! {

/// The number of entries in the first free map, which the header holds.
pub const FIRST_FREE_MAP_SIZE: usize = 128;

/// How data blocks are encoded.
#[derive(Clone, Copy, PartialEq, Eq, Debug, Structural)]
pub enum NdbCryptMethod {
    Plain,
    Permute,
    Cyclic,
}

/// Whether the allocation maps can be relied on.
#[derive(Clone, Copy, PartialEq, Eq, Debug, Structural)]
pub enum AmapStatus {
    Invalid,
    Valid1,
    Valid2,
}

/// What the header says of the file as a whole.
#[derive(Clone, Copy, PartialEq, Eq, Debug, Structural)]
pub struct Root {
    pub file_eof_index: u64,
    pub amap_last_index: u64,
    pub amap_free_size: u64,
    pub pmap_free_size: u64,
    pub node_btree: UnicodePageRef,
    pub block_btree: UnicodePageRef,
    pub amap_is_valid: AmapStatus,
}

/// The header: the encoding of data blocks, a number that changes with every write, the next block
/// and page, the next index of every node type, the root, and the first free map.
pub struct Header {
    pub crypt_method: NdbCryptMethod,
    pub unique: u32,
    pub next_block: UnicodeBlockId,
    pub next_page: UnicodePageId,
    pub next_nodes: Vec<u32>,
    pub root: Root,
    pub first_free_map: Vec<u8>,
}

/// The contents of a header.
#[verifier::ext_equal]
pub struct HeaderContents {
    pub crypt_method: NdbCryptMethod,
    pub unique: u32,
    pub next_block: UnicodeBlockId,
    pub next_page: UnicodePageId,
    pub next_nodes: Seq<u32>,
    pub root: Root,
    pub first_free_map: Seq<u8>,
}

impl View for Header {
    type V = HeaderContents;

    open spec fn view(&self) -> HeaderContents {
        HeaderContents {
            crypt_method: self.crypt_method,
            unique: self.unique,
            next_block: self.next_block,
            next_page: self.next_page,
            next_nodes: self.next_nodes@,
            root: self.root,
            first_free_map: self.first_free_map@,
        }
    }
}

impl HeaderContents {
    /// Whether the header has an index for each of the 32 node type codes.
    pub open spec fn wf(self) -> bool {
        self.next_nodes.len() == 32
    }

    /// The next index of a node type.
    pub open spec fn next_node_index(self, id_type: NodeIdType) -> u32 {
        self.next_nodes[id_type.spec_code() as int]
    }

    /// The header with its changing number moved on.
    pub open spec fn updated(self) -> HeaderContents {
        HeaderContents { unique: next_unique(self.unique), ..self }
    }

    /// The header with the given state of the allocation maps.
    pub open spec fn with_status(self, status: AmapStatus) -> HeaderContents {
        HeaderContents { root: Root { amap_is_valid: status, ..self.root }, ..self }
    }
}

/// The number after `unique`; the largest is followed by zero.
pub open spec fn next_unique(unique: u32) -> u32 {
    if unique == u32::MAX {
        0
    } else {
        (unique + 1) as u32
    }
}

/// Whether `code` is that of a node type.
pub open spec fn is_node_type(code: u32) -> bool {
    code <= 0x08 || 0x0A <= code <= 0x13 || code == 0x1F
}

/// The header with the index of a node taken.
pub open spec fn with_reserved_node(header: HeaderContents, node: NodeId) -> Result<
    HeaderContents,
    PstError,
> {
    let code = node.value % 32;
    if !is_node_type(code) {
        Err(PstError::NodeDatabaseError(NdbError::InvalidNodeIdType(code as u8)))
    } else {
        let next = node.spec_index() + 1;
        if header.next_nodes[code as int] < next {
            Ok(
                HeaderContents {
                    next_nodes: header.next_nodes.update(code as int, next as u32),
                    ..header
                },
            )
        } else {
            Ok(header)
        }
    }
}

/// The header with the indices of the nodes from `index` on taken.
pub open spec fn with_reserved_nodes(
    header: HeaderContents,
    nodes: Seq<NodeId>,
    index: int,
) -> Result<HeaderContents, PstError>
    decreases nodes.len() - index,
{
    if index >= nodes.len() {
        Ok(header)
    } else {
        match with_reserved_node(header, nodes[index]) {
            Err(error) => Err(error),
            Ok(next) => with_reserved_nodes(next, nodes, index + 1),
        }
    }
}

/// Once the indices of nodes are taken, none of them is handed out again, and no index that was
/// taken before is.
pub proof fn law_reserved_nodes_are_not_reused(
    header: HeaderContents,
    nodes: Seq<NodeId>,
    index: int,
    at: int,
)
    requires
        header.wf(),
        0 <= index <= nodes.len(),
        index <= at < nodes.len(),
    ensures
        with_reserved_nodes(header, nodes, index) matches Ok(after) ==> after.wf() && (forall|
            code: int,
        |
            0 <= code < 32 ==> header.next_nodes[code] <= #[trigger] after.next_nodes[code])
            && nodes[at].spec_index() < after.next_nodes[(nodes[at].value % 32) as int],
    decreases nodes.len() - index,
{
    if let Ok(next) = with_reserved_node(header, nodes[index]) {
        assert(forall|code: int|
            0 <= code < 32 ==> header.next_nodes[code] <= #[trigger] next.next_nodes[code]);
        assert(nodes[index].spec_index() < next.next_nodes[(nodes[index].value % 32) as int]);
        if index < at {
            law_reserved_nodes_are_not_reused(next, nodes, index + 1, at);
        } else if index + 1 < nodes.len() {
            law_reserved_nodes_are_not_reused(next, nodes, index + 1, index + 1);
        }
    }
}

impl Header {
    /// A copy of the header.
    pub fn copy(&self) -> (header: Header)
        ensures
            header@ == self@,
    {
        let next_nodes: Vec<u32> = vstd::slice::slice_to_vec(self.next_nodes.as_slice());
        let first_free_map = crate::bytes::copy(self.first_free_map.as_slice());
        assert(next_nodes@ =~= self.next_nodes@);
        Header {
            crypt_method: self.crypt_method,
            unique: self.unique,
            next_block: self.next_block,
            next_page: self.next_page,
            next_nodes,
            root: self.root,
            first_free_map,
        }
    }

    /// The next index of a node type.
    pub fn next_node_index(&self, id_type: NodeIdType) -> (index: u32)
        requires
            self@.wf(),
        ensures
            index == self@.next_node_index(id_type),
    {
        self.next_nodes[id_type.code() as usize]
    }

    /// Moves the changing number on.
    pub fn update_unique(&mut self)
        ensures
            final(self)@ == old(self)@.updated(),
    {
        self.unique = if self.unique == u32::MAX {
            0
        } else {
            self.unique + 1
        };
    }

    /// Sets the state of the allocation maps.
    pub fn set_amap_status(&mut self, status: AmapStatus)
        ensures
            final(self)@ == old(self)@.with_status(status),
    {
        self.root.amap_is_valid = status;
    }

    /// Takes the index of a node, so that it is not handed out again.
    pub fn reserve_node(&mut self, node: NodeId) -> (result: Result<(), PstError>)
        requires
            old(self)@.wf(),
        ensures
            final(self)@.wf(),
            match with_reserved_node(old(self)@, node) {
                Ok(after) => result is Ok && final(self)@ == after,
                Err(error) => result == Err::<(), PstError>(error),
            },
    {
        let code: u32 = node.value % 32;
        if code == 0x09 || (code > 0x13 && code != 0x1F) {
            return Err(PstError::NodeDatabaseError(NdbError::InvalidNodeIdType(code as u8)));
        }
        let next: u32 = node.index() + 1;
        if self.next_nodes[code as usize] < next {
            self.next_nodes.set(code as usize, next);
        }
        Ok(())
    }

    /// Takes the indices of nodes, so that they are not handed out again.
    pub fn reserve_nodes(&mut self, nodes: &Vec<NodeId>) -> (result: Result<(), PstError>)
        requires
            old(self)@.wf(),
        ensures
            final(self)@.wf(),
            match with_reserved_nodes(old(self)@, nodes@, 0) {
                Ok(after) => result is Ok && final(self)@ == after,
                Err(error) => result == Err::<(), PstError>(error),
            },
    {
        let mut i: usize = 0;
        while i < nodes.len()
            invariant
                i <= nodes@.len(),
                self@.wf(),
                with_reserved_nodes(old(self)@, nodes@, 0) == with_reserved_nodes(
                    self@,
                    nodes@,
                    i as int,
                ),
            decreases nodes@.len() - i,
        {
            self.reserve_node(nodes[i])?;
            i += 1;
        }
        Ok(())
    }
}

} // verus!
