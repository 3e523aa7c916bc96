//! The bytes of blocks and pages.

use vstd::prelude::*;

use crate::bytes;
use crate::error::{NdbError, PstError};
use crate::ndb::allocation;
use crate::ndb::block;
use crate::ndb::block::{
    BlockContents, NewBlock, NewBlockData, PlannedBlock, UnicodeIntermediateSubNodeTreeEntry,
    UnicodeLeafSubNodeTreeEntry, MAX_BLOCK_DATA_SIZE,
};
use crate::ndb::btree::{
    NewBTreePage, NewBTreePageData, PageContents, PageType, PlannedPage, UnicodeBTreePageEntry,
    UnicodeBlockBTreeEntry, UnicodeNodeBTreeEntry,
};
use crate::ndb::ids::UnicodeBlockId;

verus! {

/// Bytes and the file offset at which they are to be written.
pub struct FileWrite {
    pub offset: u64,
    pub data: Vec<u8>,
}

/// The polynomial of the checksum, least significant bit first.
pub const CRC_POLYNOMIAL: u32 = 0xEDB8_8320;

/// `value` after `steps` divisions by the polynomial of the checksum.
pub open spec fn crc_steps(value: u32, steps: nat) -> u32
    decreases steps,
{
    if steps == 0 {
        value
    } else {
        let before = crc_steps(value, (steps - 1) as nat);
        if before & 1 == 1 {
            (before >> 1) ^ CRC_POLYNOMIAL
        } else {
            before >> 1
        }
    }
}

/// The checksum of the first `count` bytes of `data`.
pub open spec fn crc_prefix(data: Seq<u8>, count: nat) -> u32
    decreases count,
{
    if count == 0 {
        0
    } else {
        crc_steps(crc_prefix(data, (count - 1) as nat) ^ (data[count - 1] as u32), 8)
    }
}

/// The checksum of `data`.
pub open spec fn crc(data: Seq<u8>) -> u32 {
    crc_prefix(data, data.len())
}

/// The signature of what stands at `offset` under the identifier `id`.
pub open spec fn signature(offset: u64, id: u64) -> u16 {
    let value = (offset as u32) ^ (id as u32);
    ((value >> 16) ^ value) as u16
}

/// The code of a page type.
pub open spec fn page_type_code(page_type: PageType) -> u8 {
    match page_type {
        PageType::BlockBTree => 0x80,
        PageType::NodeBTree => 0x81,
        PageType::FreeMap => 0x82,
        PageType::AllocationPageMap => 0x83,
        PageType::AllocationMap => 0x84,
        PageType::FreePageMap => 0x85,
        PageType::DensityList => 0x86,
    }
}

/// The signature of a page: map pages have none.
pub open spec fn page_signature(page_type: PageType, offset: u64, id: u64) -> u16 {
    match page_type {
        PageType::BlockBTree | PageType::NodeBTree | PageType::DensityList => signature(offset, id),
        _ => 0,
    }
}

/// The number that stands for an optional block.
pub open spec fn block_or_zero(block: Option<UnicodeBlockId>) -> u64 {
    match block {
        Some(block) => block.value,
        None => 0,
    }
}

/// The first `count` entries of a data tree block.
pub open spec fn tree_entries(entries: Seq<UnicodeBlockId>, count: nat) -> Seq<u8>
    decreases count,
{
    if count == 0 {
        Seq::empty()
    } else {
        tree_entries(entries, (count - 1) as nat) + bytes::le64(entries[count - 1].value)
    }
}

/// The first `count` entries of a leaf block of a subnode tree.
pub open spec fn leaf_entries(entries: Seq<UnicodeLeafSubNodeTreeEntry>, count: nat) -> Seq<u8>
    decreases count,
{
    if count == 0 {
        Seq::empty()
    } else {
        let entry = entries[count - 1];
        leaf_entries(entries, (count - 1) as nat) + bytes::le64(entry.node.value as u64)
            + bytes::le64(entry.block.value) + bytes::le64(block_or_zero(entry.sub_node))
    }
}

/// The first `count` entries of an intermediate block of a subnode tree.
pub open spec fn intermediate_entries(
    entries: Seq<UnicodeIntermediateSubNodeTreeEntry>,
    count: nat,
) -> Seq<u8>
    decreases count,
{
    if count == 0 {
        Seq::empty()
    } else {
        let entry = entries[count - 1];
        intermediate_entries(entries, (count - 1) as nat) + bytes::le64(entry.node.value as u64)
            + bytes::le64(entry.block.value)
    }
}

/// The encoded contents of a block.
pub open spec fn block_body(data: BlockContents) -> Seq<u8> {
    match data {
        BlockContents::Data(data) => data,
        BlockContents::DataTree(entries, level, total) => seq![1u8, level] + bytes::le16(
            entries.len() as u16,
        ) + bytes::le32(total) + tree_entries(entries, entries.len()),
        BlockContents::SubNodes(entries) => seq![2u8, 0u8] + bytes::le16(entries.len() as u16)
            + bytes::zeros(4) + leaf_entries(entries, entries.len()),
        BlockContents::IntermediateSubNodes(entries, level) => seq![2u8, level] + bytes::le16(
            entries.len() as u16,
        ) + bytes::zeros(4) + intermediate_entries(entries, entries.len()),
    }
}

/// The bytes of a block: its contents, padding, and a trailer with the size, the signature, the
/// checksum and the identifier.
pub open spec fn block_bytes(block: PlannedBlock) -> Seq<u8> {
    let body = block_body(block.data);
    bytes::zero_padded(body, (block::disk_size(block.size as int) - 16) as nat) + bytes::le16(
        block.size,
    ) + bytes::le16(signature(block.offset, block.id.value)) + bytes::le32(crc(body))
        + bytes::le64(block.id.value)
}

/// The first `count` entries of a block leaf page.
pub open spec fn block_page_entries(entries: Seq<UnicodeBlockBTreeEntry>, count: nat) -> Seq<u8>
    decreases count,
{
    if count == 0 {
        Seq::empty()
    } else {
        let entry = entries[count - 1];
        block_page_entries(entries, (count - 1) as nat) + bytes::le64(entry.block.block.value)
            + bytes::le64(entry.block.index) + bytes::le16(entry.size) + bytes::le16(
            entry.ref_count,
        ) + bytes::zeros(4)
    }
}

/// The first `count` entries of a node leaf page.
pub open spec fn node_page_entries(entries: Seq<UnicodeNodeBTreeEntry>, count: nat) -> Seq<u8>
    decreases count,
{
    if count == 0 {
        Seq::empty()
    } else {
        let entry = entries[count - 1];
        node_page_entries(entries, (count - 1) as nat) + bytes::le64(entry.node.value as u64)
            + bytes::le64(entry.data.value) + bytes::le64(block_or_zero(entry.sub_node))
            + bytes::le32(
            match entry.parent {
                Some(parent) => parent.value,
                None => 0,
            },
        ) + bytes::zeros(4)
    }
}

/// The first `count` entries of an intermediate page.
pub open spec fn child_page_entries(entries: Seq<UnicodeBTreePageEntry>, count: nat) -> Seq<u8>
    decreases count,
{
    if count == 0 {
        Seq::empty()
    } else {
        let entry = entries[count - 1];
        child_page_entries(entries, (count - 1) as nat) + bytes::le64(entry.key) + bytes::le64(
            entry.block.block.value,
        ) + bytes::le64(entry.block.index)
    }
}

/// The type of a B-tree page.
pub open spec fn contents_type(data: PageContents) -> PageType {
    match data {
        PageContents::BlockLeaf(_) => PageType::BlockBTree,
        PageContents::NodeLeaf(_) => PageType::NodeBTree,
        PageContents::Intermediate(page_type, ..) => page_type,
    }
}

/// The payload of a B-tree page: its entries, then their number, the number there is room for,
/// the size of one, and the level of the page.
pub open spec fn page_body(data: PageContents) -> Seq<u8> {
    let (entries, count, capacity, size, level) = match data {
        PageContents::BlockLeaf(entries) => (
            block_page_entries(entries, entries.len()),
            entries.len(),
            20u8,
            24u8,
            0u8,
        ),
        PageContents::NodeLeaf(entries) => (
            node_page_entries(entries, entries.len()),
            entries.len(),
            15u8,
            32u8,
            0u8,
        ),
        PageContents::Intermediate(_, level, entries) => (
            child_page_entries(entries, entries.len()),
            entries.len(),
            20u8,
            24u8,
            level,
        ),
    };
    bytes::zero_padded(entries, 488) + seq![count as u8, capacity, size, level] + bytes::zeros(4)
}

/// The bytes of a page: a payload of 496 bytes and a trailer with the type twice, the signature,
/// the checksum and the identifier.
pub open spec fn page_bytes(page_type: PageType, offset: u64, id: u64, body: Seq<u8>) -> Seq<u8> {
    body + seq![page_type_code(page_type), page_type_code(page_type)] + bytes::le16(
        page_signature(page_type, offset, id),
    ) + bytes::le32(crc(body)) + bytes::le64(id)
}

/// The checksum of `data`.
pub fn compute_crc(data: &[u8]) -> (checksum: u32)
    ensures
        checksum == crc(data@),
{
    let mut checksum: u32 = 0;
    let mut i: usize = 0;
    while i < data.len()
        invariant
            i <= data@.len(),
            checksum == crc_prefix(data@, i as nat),
        decreases data@.len() - i,
    {
        let start: u32 = checksum ^ (data[i] as u32);
        let mut value: u32 = start;
        let mut step: u32 = 0;
        while step < 8
            invariant
                step <= 8,
                value == crc_steps(start, step as nat),
            decreases 8 - step,
        {
            if value & 1 == 1 {
                value = (value >> 1) ^ CRC_POLYNOMIAL;
            } else {
                value = value >> 1;
            }
            step += 1;
        }
        checksum = value;
        i += 1;
    }
    checksum
}

/// The signature of what stands at `offset` under the identifier `id`.
pub fn compute_sig(offset: u64, id: u64) -> (sig: u16)
    ensures
        sig == signature(offset, id),
{
    let value: u32 = (#[verifier::truncate]
    (offset as u32)) ^ (#[verifier::truncate]
    (id as u32));
    #[verifier::truncate]
    (((value >> 16) ^ value) as u16)
}

fn optional_block(block: Option<UnicodeBlockId>) -> (value: u64)
    ensures
        value == block_or_zero(block),
{
    match block {
        Some(block) => block.value,
        None => 0,
    }
}

pub proof fn lemma_tree_entries_length(entries: Seq<UnicodeBlockId>, count: nat)
    ensures
        tree_entries(entries, count).len() == 8 * count,
    decreases count,
{
    if count > 0 {
        lemma_tree_entries_length(entries, (count - 1) as nat);
    }
}

pub proof fn lemma_leaf_entries_length(entries: Seq<UnicodeLeafSubNodeTreeEntry>, count: nat)
    ensures
        leaf_entries(entries, count).len() == 24 * count,
    decreases count,
{
    if count > 0 {
        lemma_leaf_entries_length(entries, (count - 1) as nat);
    }
}

pub proof fn lemma_intermediate_entries_length(
    entries: Seq<UnicodeIntermediateSubNodeTreeEntry>,
    count: nat,
)
    ensures
        intermediate_entries(entries, count).len() == 16 * count,
    decreases count,
{
    if count > 0 {
        lemma_intermediate_entries_length(entries, (count - 1) as nat);
    }
}

pub proof fn lemma_block_page_entries_length(entries: Seq<UnicodeBlockBTreeEntry>, count: nat)
    ensures
        block_page_entries(entries, count).len() == 24 * count,
    decreases count,
{
    if count > 0 {
        lemma_block_page_entries_length(entries, (count - 1) as nat);
    }
}

pub proof fn lemma_node_page_entries_length(entries: Seq<UnicodeNodeBTreeEntry>, count: nat)
    ensures
        node_page_entries(entries, count).len() == 32 * count,
    decreases count,
{
    if count > 0 {
        lemma_node_page_entries_length(entries, (count - 1) as nat);
    }
}

pub proof fn lemma_child_page_entries_length(entries: Seq<UnicodeBTreePageEntry>, count: nat)
    ensures
        child_page_entries(entries, count).len() == 24 * count,
    decreases count,
{
    if count > 0 {
        lemma_child_page_entries_length(entries, (count - 1) as nat);
    }
}

/// The encoded contents of a block are as long as its size says.
pub proof fn law_block_body_size(data: BlockContents)
    ensures
        block_body(data).len() == data.size(),
{
    match data {
        BlockContents::Data(data) => {},
        BlockContents::DataTree(entries, level, total) => {
            lemma_tree_entries_length(entries, entries.len());
        },
        BlockContents::SubNodes(entries) => {
            lemma_leaf_entries_length(entries, entries.len());
        },
        BlockContents::IntermediateSubNodes(entries, level) => {
            lemma_intermediate_entries_length(entries, entries.len());
        },
    }
}

/// A block takes in the file what was reserved for it. It starts with its contents and ends with
/// its trailer.
pub proof fn law_block_bytes(block: PlannedBlock)
    requires
        block.size == block.data.size(),
        1 <= block.size <= MAX_BLOCK_DATA_SIZE,
    ensures
        ({
            let data = block_bytes(block);
            let trailer = data.len() - 16;
            &&& data.len() == block::disk_size(block.size as int)
            &&& data.take(block.size as int) == block_body(block.data)
            &&& bytes::get16(data, trailer) == block.size
            &&& bytes::get16(data, trailer + 2) == signature(block.offset, block.id.value)
            &&& bytes::get32(data, trailer + 4) == crc(block_body(block.data))
            &&& data.skip(trailer + 8) == bytes::le64(block.id.value)
        }),
{
    law_block_body_size(block.data);
    allocation::lemma_align_up(block.size + 16, 64);
    let data = block_bytes(block);
    let trailer = data.len() - 16;
    bytes::lemma_le_lengths(0, 0, block.id.value);
    assert(data.take(block.size as int) =~= block_body(block.data));
    assert(data.subrange(trailer, trailer + 2) =~= bytes::le16(block.size));
    bytes::lemma_get16_le16(data, trailer, block.size);
    assert(data.subrange(trailer + 2, trailer + 4) =~= bytes::le16(
        signature(block.offset, block.id.value),
    ));
    bytes::lemma_get16_le16(data, trailer + 2, signature(block.offset, block.id.value));
    assert(data.subrange(trailer + 4, trailer + 8) =~= bytes::le32(crc(block_body(block.data))));
    bytes::lemma_get32_le32(data, trailer + 4, crc(block_body(block.data)));
    assert(data.skip(trailer + 8) =~= bytes::le64(block.id.value));
}

/// A B-tree page with no more entries than it has room for is as long as a page.
pub proof fn law_page_bytes(page: PlannedPage)
    requires
        crate::ndb::btree_laws::page_fits(page.data),
    ensures
        page_body(page.data).len() == 496,
        page_bytes(
            contents_type(page.data),
            page.page_ref.index,
            page.page_ref.block.value,
            page_body(page.data),
        ).len() == allocation::PAGE_SIZE,
{
    match page.data {
        PageContents::BlockLeaf(entries) => {
            lemma_block_page_entries_length(entries, entries.len());
            assert(bytes::zero_padded(block_page_entries(entries, entries.len()), 488).len() == 488);
        },
        PageContents::NodeLeaf(entries) => {
            lemma_node_page_entries_length(entries, entries.len());
            assert(bytes::zero_padded(node_page_entries(entries, entries.len()), 488).len() == 488);
        },
        PageContents::Intermediate(_, _, entries) => {
            lemma_child_page_entries_length(entries, entries.len());
            assert(bytes::zero_padded(child_page_entries(entries, entries.len()), 488).len() == 488);
        },
    }
    lemma_page_length(
        contents_type(page.data),
        page.page_ref.index,
        page.page_ref.block.value,
        page_body(page.data),
    );
}

/// A page with a payload of 496 bytes is as long as a page.
pub proof fn lemma_page_length(page_type: PageType, offset: u64, id: u64, body: Seq<u8>)
    requires
        body.len() == 496,
    ensures
        page_bytes(page_type, offset, id, body).len() == allocation::PAGE_SIZE,
{
    let sum = crc(body);
    bytes::lemma_le_lengths(page_signature(page_type, offset, id), sum, id);
}

fn encode_tree_body(entries: &Vec<UnicodeBlockId>, level: u8, total: u32) -> (body: Vec<u8>)
    requires
        entries@.len() <= u16::MAX,
    ensures
        body@ == block_body(BlockContents::DataTree(entries@, level, total)),
{
    let mut body: Vec<u8> = Vec::new();
    body.push(1);
    body.push(level);
    bytes::push_u16(&mut body, entries.len() as u16);
    bytes::push_u32(&mut body, total);
    let ghost header = body@;
    assert(header =~= seq![1u8, level] + bytes::le16(entries@.len() as u16) + bytes::le32(total));
    let mut i: usize = 0;
    while i < entries.len()
        invariant
            i <= entries@.len(),
            body@ == header + tree_entries(entries@, i as nat),
        decreases entries@.len() - i,
    {
        bytes::push_u64(&mut body, entries[i].value);
        i += 1;
        assert(body@ =~= header + tree_entries(entries@, i as nat));
    }
    body
}

fn encode_leaf_body(entries: &Vec<UnicodeLeafSubNodeTreeEntry>) -> (body: Vec<u8>)
    requires
        entries@.len() <= u16::MAX,
    ensures
        body@ == block_body(BlockContents::SubNodes(entries@)),
{
    let mut body: Vec<u8> = Vec::new();
    body.push(2);
    body.push(0);
    bytes::push_u16(&mut body, entries.len() as u16);
    bytes::push_zeros(&mut body, 4);
    let ghost header = body@;
    assert(header =~= seq![2u8, 0u8] + bytes::le16(entries@.len() as u16) + bytes::zeros(4));
    let mut i: usize = 0;
    while i < entries.len()
        invariant
            i <= entries@.len(),
            body@ == header + leaf_entries(entries@, i as nat),
        decreases entries@.len() - i,
    {
        bytes::push_u64(&mut body, entries[i].node.value as u64);
        bytes::push_u64(&mut body, entries[i].block.value);
        bytes::push_u64(&mut body, optional_block(entries[i].sub_node));
        i += 1;
        assert(body@ =~= header + leaf_entries(entries@, i as nat));
    }
    body
}

fn encode_intermediate_body(
    entries: &Vec<UnicodeIntermediateSubNodeTreeEntry>,
    level: u8,
) -> (body: Vec<u8>)
    requires
        entries@.len() <= u16::MAX,
    ensures
        body@ == block_body(BlockContents::IntermediateSubNodes(entries@, level)),
{
    let mut body: Vec<u8> = Vec::new();
    body.push(2);
    body.push(level);
    bytes::push_u16(&mut body, entries.len() as u16);
    bytes::push_zeros(&mut body, 4);
    let ghost header = body@;
    assert(header =~= seq![2u8, level] + bytes::le16(entries@.len() as u16) + bytes::zeros(4));
    let mut i: usize = 0;
    while i < entries.len()
        invariant
            i <= entries@.len(),
            body@ == header + intermediate_entries(entries@, i as nat),
        decreases entries@.len() - i,
    {
        bytes::push_u64(&mut body, entries[i].node.value as u64);
        bytes::push_u64(&mut body, entries[i].block.value);
        i += 1;
        assert(body@ =~= header + intermediate_entries(entries@, i as nat));
    }
    body
}

/// Whether a block can hold so many bytes.
pub open spec fn can_write(size: u16) -> bool {
    1 <= size <= MAX_BLOCK_DATA_SIZE
}

/// The error of a block of a size that a block cannot have.
pub open spec fn size_error(size: u16) -> PstError {
    PstError::NodeDatabaseError(NdbError::InvalidUnicodeBlockTrailerSize(size))
}

/// The bytes of a block and where they are to be written. A block that is empty or larger than a
/// block can be is refused.
pub fn write_new_block(block: &NewBlock) -> (write: Result<FileWrite, PstError>)
    requires
        block.size == block.data@.size(),
    ensures
        match write {
            Ok(write) => can_write(block.size) && write.offset == block.offset && write.data@
                == block_bytes(block@),
            Err(error) => !can_write(block.size) && error == size_error(block.size),
        },
{
    if block.size == 0 || block.size as usize > MAX_BLOCK_DATA_SIZE {
        return Err(
            PstError::NodeDatabaseError(NdbError::InvalidUnicodeBlockTrailerSize(block.size)),
        );
    }
    let mut data: Vec<u8> = match &block.data {
        NewBlockData::Data(data) => {
            let mut body: Vec<u8> = Vec::new();
            bytes::push_bytes(&mut body, data.as_slice());
            assert(body@ =~= data@);
            body
        },
        NewBlockData::DataTree(entries, level, total) => encode_tree_body(entries, *level, *total),
        NewBlockData::SubNodes(entries) => encode_leaf_body(entries),
        NewBlockData::IntermediateSubNodes(entries, level) => encode_intermediate_body(
            entries,
            *level,
        ),
    };
    assert(data@ == block_body(block.data@));
    proof {
        law_block_body_size(block.data@);
    }
    let checksum: u32 = compute_crc(data.as_slice());
    let padding: usize = (block::block_size(block.size) - 16) as usize - block.size as usize;
    bytes::push_zeros(&mut data, padding);
    bytes::push_u16(&mut data, block.size);
    bytes::push_u16(&mut data, compute_sig(block.offset, block.id.value));
    bytes::push_u32(&mut data, checksum);
    bytes::push_u64(&mut data, block.id.value);
    Ok(FileWrite { offset: block.offset, data })
}

/// The code of a page type.
pub fn page_code(page_type: PageType) -> (code: u8)
    ensures
        code == page_type_code(page_type),
{
    match page_type {
        PageType::BlockBTree => 0x80,
        PageType::NodeBTree => 0x81,
        PageType::FreeMap => 0x82,
        PageType::AllocationPageMap => 0x83,
        PageType::AllocationMap => 0x84,
        PageType::FreePageMap => 0x85,
        PageType::DensityList => 0x86,
    }
}

/// The bytes of a page with the given payload, and where they are to be written.
pub fn write_page(page_type: PageType, offset: u64, id: u64, body: Vec<u8>) -> (write: FileWrite)
    ensures
        write.offset == offset,
        write.data@ == page_bytes(page_type, offset, id, body@),
{
    let mut data: Vec<u8> = body;
    let checksum: u32 = compute_crc(data.as_slice());
    let code: u8 = page_code(page_type);
    let sig: u16 = match page_type {
        PageType::BlockBTree | PageType::NodeBTree | PageType::DensityList => compute_sig(
            offset,
            id,
        ),
        _ => 0,
    };
    data.push(code);
    data.push(code);
    assert(data@ =~= body@ + seq![code, code]);
    bytes::push_u16(&mut data, sig);
    bytes::push_u32(&mut data, checksum);
    bytes::push_u64(&mut data, id);
    FileWrite { offset, data }
}

fn encode_block_entries(entries: &Vec<UnicodeBlockBTreeEntry>) -> (data: Vec<u8>)
    ensures
        data@ == block_page_entries(entries@, entries@.len()),
{
    let mut data: Vec<u8> = Vec::new();
    let mut i: usize = 0;
    while i < entries.len()
        invariant
            i <= entries@.len(),
            data@ == block_page_entries(entries@, i as nat),
        decreases entries@.len() - i,
    {
        let entry: UnicodeBlockBTreeEntry = entries[i];
        bytes::push_u64(&mut data, entry.block.block.value);
        bytes::push_u64(&mut data, entry.block.index);
        bytes::push_u16(&mut data, entry.size);
        bytes::push_u16(&mut data, entry.ref_count);
        bytes::push_zeros(&mut data, 4);
        i += 1;
    }
    data
}

fn encode_node_entries(entries: &Vec<UnicodeNodeBTreeEntry>) -> (data: Vec<u8>)
    ensures
        data@ == node_page_entries(entries@, entries@.len()),
{
    let mut data: Vec<u8> = Vec::new();
    let mut i: usize = 0;
    while i < entries.len()
        invariant
            i <= entries@.len(),
            data@ == node_page_entries(entries@, i as nat),
        decreases entries@.len() - i,
    {
        let entry: UnicodeNodeBTreeEntry = entries[i];
        let parent: u32 = match entry.parent {
            Some(parent) => parent.value,
            None => 0,
        };
        bytes::push_u64(&mut data, entry.node.value as u64);
        bytes::push_u64(&mut data, entry.data.value);
        bytes::push_u64(&mut data, optional_block(entry.sub_node));
        bytes::push_u32(&mut data, parent);
        bytes::push_zeros(&mut data, 4);
        i += 1;
    }
    data
}

fn encode_child_entries(entries: &Vec<UnicodeBTreePageEntry>) -> (data: Vec<u8>)
    ensures
        data@ == child_page_entries(entries@, entries@.len()),
{
    let mut data: Vec<u8> = Vec::new();
    let mut i: usize = 0;
    while i < entries.len()
        invariant
            i <= entries@.len(),
            data@ == child_page_entries(entries@, i as nat),
        decreases entries@.len() - i,
    {
        let entry: UnicodeBTreePageEntry = entries[i];
        bytes::push_u64(&mut data, entry.key);
        bytes::push_u64(&mut data, entry.block.block.value);
        bytes::push_u64(&mut data, entry.block.index);
        i += 1;
    }
    data
}

/// The bytes of a B-tree page and where they are to be written.
pub fn write_btree_page(page: &NewBTreePage) -> (write: FileWrite)
    requires
        crate::ndb::btree_laws::page_fits(page.data@),
    ensures
        write.offset == page.page_ref.index,
        write.data@ == page_bytes(
            contents_type(page.data@),
            page.page_ref.index,
            page.page_ref.block.value,
            page_body(page.data@),
        ),
        write.data@.len() == allocation::PAGE_SIZE,
{
    let (page_type, entries, count, capacity, size, level): (
        PageType,
        Vec<u8>,
        usize,
        u8,
        u8,
        u8,
    ) = match &page.data {
        NewBTreePageData::BlockLeaf(entries) => {
            proof {
                lemma_block_page_entries_length(entries@, entries@.len());
            }
            (PageType::BlockBTree, encode_block_entries(entries), entries.len(), 20, 24, 0)
        },
        NewBTreePageData::NodeLeaf(entries) => {
            proof {
                lemma_node_page_entries_length(entries@, entries@.len());
            }
            (PageType::NodeBTree, encode_node_entries(entries), entries.len(), 15, 32, 0)
        },
        NewBTreePageData::Intermediate(page_type, level, entries) => {
            proof {
                lemma_child_page_entries_length(entries@, entries@.len());
            }
            (*page_type, encode_child_entries(entries), entries.len(), 20, 24, *level)
        },
    };
    proof {
        law_page_bytes(page@);
    }
    let mut body: Vec<u8> = entries;
    let padding: usize = 488 - body.len();
    bytes::push_zeros(&mut body, padding);
    body.push(count as u8);
    body.push(capacity);
    body.push(size);
    body.push(level);
    bytes::push_zeros(&mut body, 4);
    assert(body@ =~= page_body(page.data@));
    write_page(page_type, page.page_ref.index, page.page_ref.block.value, body)
}

} // verus!
