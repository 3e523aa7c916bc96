//! New blocks of the file: what they hold and where they will stand.

use vstd::prelude::*;

use crate::bytes;
use crate::error::{NdbError, PstError};
use crate::ndb::allocation;
use crate::ndb::ids::{NodeId, UnicodeBlockId};

verus! {

/// The size of a block trailer.
pub const BLOCK_TRAILER_SIZE: u64 = 16;

/// The largest payload of a block.
pub const MAX_BLOCK_DATA_SIZE: usize = 8176;

/// The alignment of blocks.
pub const BLOCK_ALIGNMENT: u64 = 64;

/// The entry of a subnode in a leaf of a subnode tree.
#[derive(Clone, Copy, PartialEq, Eq, Debug, Structural)]
pub struct UnicodeLeafSubNodeTreeEntry {
    pub node: NodeId,
    pub block: UnicodeBlockId,
    pub sub_node: Option<UnicodeBlockId>,
}

impl UnicodeLeafSubNodeTreeEntry {
    /// The entry of a subnode with its data and its own subnode tree.
    pub fn new(
        node: NodeId,
        block: UnicodeBlockId,
        sub_node: Option<UnicodeBlockId>,
    ) -> (entry: UnicodeLeafSubNodeTreeEntry)
        ensures
            entry == (UnicodeLeafSubNodeTreeEntry { node, block, sub_node }),
    {
        UnicodeLeafSubNodeTreeEntry { node, block, sub_node }
    }
}

impl crate::sorting::Keyed for UnicodeLeafSubNodeTreeEntry {
    open spec fn spec_key(&self) -> u64 {
        self.node.value as u64
    }

    fn key(&self) -> (key: u64) {
        self.node.value as u64
    }
}

/// The entry of a child block in an intermediate block of a subnode tree.
#[derive(Clone, Copy, PartialEq, Eq, Debug, Structural)]
pub struct UnicodeIntermediateSubNodeTreeEntry {
    pub node: NodeId,
    pub block: UnicodeBlockId,
}

/// What a new block holds.
pub enum NewBlockData {
    Data(Vec<u8>),
    DataTree(Vec<UnicodeBlockId>, u8, u32),
    SubNodes(Vec<UnicodeLeafSubNodeTreeEntry>),
    IntermediateSubNodes(Vec<UnicodeIntermediateSubNodeTreeEntry>, u8),
}

/// The contents of a new block.
pub enum BlockContents {
    /// Raw data.
    Data(Seq<u8>),
    /// The blocks of a data tree, the level above them and the number of bytes below them.
    DataTree(Seq<UnicodeBlockId>, u8, u32),
    /// Subnodes by ascending node.
    SubNodes(Seq<UnicodeLeafSubNodeTreeEntry>),
    /// Blocks of a subnode tree, and the level above them.
    IntermediateSubNodes(Seq<UnicodeIntermediateSubNodeTreeEntry>, u8),
}

impl View for NewBlockData {
    type V = BlockContents;

    open spec fn view(&self) -> BlockContents {
        match self {
            NewBlockData::Data(data) => BlockContents::Data(data@),
            NewBlockData::DataTree(entries, level, total) => BlockContents::DataTree(
                entries@,
                *level,
                *total,
            ),
            NewBlockData::SubNodes(entries) => BlockContents::SubNodes(entries@),
            NewBlockData::IntermediateSubNodes(
                entries,
                level,
            ) => BlockContents::IntermediateSubNodes(entries@, *level),
        }
    }
}

impl BlockContents {
    /// The size of the encoded contents.
    pub open spec fn size(self) -> nat {
        match self {
            BlockContents::Data(data) => data.len(),
            BlockContents::DataTree(entries, ..) => 8 + 8 * entries.len(),
            BlockContents::SubNodes(entries) => 8 + 24 * entries.len(),
            BlockContents::IntermediateSubNodes(entries, ..) => 8 + 16 * entries.len(),
        }
    }
}

/// A block that is to be written.
pub struct NewBlock {
    pub id: UnicodeBlockId,
    pub offset: u64,
    pub size: u16,
    pub data: NewBlockData,
}

/// A block that is to be written, with its contents.
pub struct PlannedBlock {
    pub id: UnicodeBlockId,
    pub offset: u64,
    pub size: u16,
    pub data: BlockContents,
}

impl View for NewBlock {
    type V = PlannedBlock;

    open spec fn view(&self) -> PlannedBlock {
        PlannedBlock { id: self.id, offset: self.offset, size: self.size, data: self.data@ }
    }
}

/// The blocks planned so far, the index of the next block and the first offset behind them.
#[verifier::ext_equal]
pub struct BlockPlan {
    pub blocks: Seq<PlannedBlock>,
    pub next_bid: u64,
    pub next_offset: u64,
}

/// The plan that `blocks`, `next_bid` and `next_offset` make up.
pub open spec fn plan(blocks: Seq<NewBlock>, next_bid: u64, next_offset: u64) -> BlockPlan {
    BlockPlan { blocks: bytes::views(blocks), next_bid, next_offset }
}

/// The number of bytes that a block takes in the file: its contents and its trailer, rounded up.
pub open spec fn disk_size(size: int) -> int {
    allocation::align_up(size + BLOCK_TRAILER_SIZE, BLOCK_ALIGNMENT as int)
}

/// The plan with a block of the given identifier added behind the others. Contents that are empty
/// or larger than a block are refused.
pub open spec fn with_block(plan: BlockPlan, id: UnicodeBlockId, data: BlockContents) -> (
    BlockPlan,
    Result<(), PstError>,
) {
    let size = data.size();
    if size > u16::MAX {
        (plan, Err(PstError::IntegerConversion))
    } else if size == 0 || size > MAX_BLOCK_DATA_SIZE {
        (
            plan,
            Err(
                PstError::NodeDatabaseError(
                    NdbError::InvalidUnicodeBlockTrailerSize(size as u16),
                ),
            ),
        )
    } else if plan.next_offset > allocation::MAX_FILE_OFFSET {
        (plan, Err(PstError::IntegerConversion))
    } else {
        let offset = allocation::reserved_offset(
            plan.next_offset as int,
            disk_size(size as int),
            BLOCK_ALIGNMENT as int,
        );
        (
            BlockPlan {
                blocks: plan.blocks.push(
                    PlannedBlock { id, offset: offset as u64, size: size as u16, data },
                ),
                next_bid: plan.next_bid,
                next_offset: (offset + disk_size(size as int)) as u64,
            },
            Ok(()),
        )
    }
}

/// The plan with a block added under the next index.
pub open spec fn with_next_block(plan: BlockPlan, internal: bool, data: BlockContents) -> (
    BlockPlan,
    Result<UnicodeBlockId, PstError>,
) {
    match UnicodeBlockId::spec_new(internal, plan.next_bid) {
        Err(error) => (plan, Err(error)),
        Ok(id) => {
            let numbered = BlockPlan { next_bid: (plan.next_bid + 1) as u64, ..plan };
            match with_block(numbered, id, data) {
                (after, Err(error)) => (after, Err(error)),
                (after, Ok(_)) => (after, Ok(id)),
            }
        },
    }
}

/// The number of bytes of an encoded block of `size` bytes of contents.
pub fn block_size(size: u16) -> (total: u64)
    requires
        size <= MAX_BLOCK_DATA_SIZE,
    ensures
        total == disk_size(size as int),
        size + BLOCK_TRAILER_SIZE <= total <= 8192,
{
    let total: u64 = size as u64 + BLOCK_TRAILER_SIZE;
    let rest: u64 = total % BLOCK_ALIGNMENT;
    if rest == 0 {
        total
    } else {
        total - rest + BLOCK_ALIGNMENT
    }
}

/// The size of the encoded contents of a block, where it fits in 16 bits.
fn contents_size(data: &NewBlockData) -> (size: Result<u16, PstError>)
    ensures
        size == (if data@.size() > u16::MAX {
            Err(PstError::IntegerConversion)
        } else {
            Ok(data@.size() as u16)
        }),
{
    let (header, entry, count): (usize, usize, usize) = match data {
        NewBlockData::Data(data) => (0, 1, data.len()),
        NewBlockData::DataTree(entries, _, _) => (8, 8, entries.len()),
        NewBlockData::SubNodes(entries) => (8, 24, entries.len()),
        NewBlockData::IntermediateSubNodes(entries, _) => (8, 16, entries.len()),
    };
    if count > u16::MAX as usize {
        return Err(PstError::IntegerConversion);
    }
    assert(entry == 1 || entry == 8 || entry == 16 || entry == 24);
    assert(entry * count <= 24 * 65535) by (nonlinear_arith)
        requires
            entry <= 24,
            count <= 65535,
    ;
    let size: usize = header + entry * count;
    assert(size == data@.size());
    if size > u16::MAX as usize {
        return Err(PstError::IntegerConversion);
    }
    Ok(size as u16)
}

/// Plans a block of the given identifier behind the others.
pub fn push_block_with_id(
    blocks: &mut Vec<NewBlock>,
    next_offset: &mut u64,
    id: UnicodeBlockId,
    data: NewBlockData,
) -> (result: Result<(), PstError>)
    ensures
        forall|next_bid: u64|
            (#[trigger] plan(final(blocks)@, next_bid, *final(next_offset)), result) == with_block(
                plan(old(blocks)@, next_bid, *old(next_offset)),
                id,
                data@,
            ),
{
    let size: u16 = contents_size(&data)?;
    if size == 0 || size as usize > MAX_BLOCK_DATA_SIZE {
        return Err(PstError::NodeDatabaseError(NdbError::InvalidUnicodeBlockTrailerSize(size)));
    }
    if *next_offset > allocation::MAX_FILE_OFFSET {
        return Err(PstError::IntegerConversion);
    }
    let disk: u64 = block_size(size);
    let offset: u64 = allocation::reserve_file_range(next_offset, disk, BLOCK_ALIGNMENT);
    let block = NewBlock { id, offset, size, data };
    blocks.push(block);
    assert(bytes::views(blocks@) =~= bytes::views(old(blocks)@).push(block@));
    Ok(())
}

/// Plans a block under the next index.
pub fn push_block(
    blocks: &mut Vec<NewBlock>,
    next_bid: &mut u64,
    next_offset: &mut u64,
    internal: bool,
    data: NewBlockData,
) -> (result: Result<UnicodeBlockId, PstError>)
    ensures
        (plan(final(blocks)@, *final(next_bid), *final(next_offset)), result) == with_next_block(
            plan(old(blocks)@, *old(next_bid), *old(next_offset)),
            internal,
            data@,
        ),
{
    let id = UnicodeBlockId::new(internal, *next_bid)?;
    *next_bid = *next_bid + 1;
    push_block_with_id(blocks, next_offset, id, data)?;
    assert(plan(blocks@, *next_bid, *next_offset).blocks == bytes::views(blocks@));
    Ok(id)
}

} // verus!
