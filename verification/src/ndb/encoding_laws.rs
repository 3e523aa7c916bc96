//! What is read back from the bytes of blocks and pages.

use vstd::prelude::*;

use crate::bytes;
use crate::ndb::block::{
    BlockContents, UnicodeIntermediateSubNodeTreeEntry, UnicodeLeafSubNodeTreeEntry,
};
use crate::ndb::btree::{
    PageContents, PageType, UnicodeBTreePageEntry, UnicodeBlockBTreeEntry, UnicodeNodeBTreeEntry,
};
use crate::ndb::btree_laws;
use crate::ndb::encoding;
use crate::ndb::ids::{NodeId, UnicodeBlockId};

verus! {

/// The number that stands for an optional node.
pub open spec fn node_or_zero(node: Option<NodeId>) -> u32 {
    match node {
        Some(node) => node.value,
        None => 0,
    }
}

proof fn lemma_tree_entry(entries: Seq<UnicodeBlockId>, index: int, count: nat)
    requires
        0 <= index < count <= entries.len(),
    ensures
        encoding::tree_entries(entries, count).len() == 8 * count,
        encoding::tree_entries(entries, count).subrange(8 * index, 8 * index + 8) == bytes::le64(
            entries[index].value,
        ),
    decreases count,
{
    encoding::lemma_tree_entries_length(entries, count);
    encoding::lemma_tree_entries_length(entries, (count - 1) as nat);
    let whole = encoding::tree_entries(entries, count);
    let before = encoding::tree_entries(entries, (count - 1) as nat);
    if index == count - 1 {
        assert(whole.subrange(8 * index, 8 * index + 8) =~= bytes::le64(entries[index].value));
    } else {
        lemma_tree_entry(entries, index, (count - 1) as nat);
        assert(whole.subrange(8 * index, 8 * index + 8) =~= before.subrange(
            8 * index,
            8 * index + 8,
        ));
    }
}

/// The bytes of the entry of a subnode.
pub open spec fn leaf_entry(entry: UnicodeLeafSubNodeTreeEntry) -> Seq<u8> {
    bytes::le64(entry.node.value as u64) + bytes::le64(entry.block.value) + bytes::le64(
        encoding::block_or_zero(entry.sub_node),
    )
}

proof fn lemma_leaf_entry(entries: Seq<UnicodeLeafSubNodeTreeEntry>, index: int, count: nat)
    requires
        0 <= index < count <= entries.len(),
    ensures
        encoding::leaf_entries(entries, count).len() == 24 * count,
        encoding::leaf_entries(entries, count).subrange(24 * index, 24 * index + 24) == leaf_entry(
            entries[index],
        ),
    decreases count,
{
    encoding::lemma_leaf_entries_length(entries, count);
    encoding::lemma_leaf_entries_length(entries, (count - 1) as nat);
    let whole = encoding::leaf_entries(entries, count);
    let before = encoding::leaf_entries(entries, (count - 1) as nat);
    if index == count - 1 {
        assert(whole.subrange(24 * index, 24 * index + 24) =~= leaf_entry(entries[index]));
    } else {
        lemma_leaf_entry(entries, index, (count - 1) as nat);
        assert(whole.subrange(24 * index, 24 * index + 24) =~= before.subrange(
            24 * index,
            24 * index + 24,
        ));
    }
}

/// The bytes of the entry of a block of a subnode tree.
pub open spec fn intermediate_entry(entry: UnicodeIntermediateSubNodeTreeEntry) -> Seq<u8> {
    bytes::le64(entry.node.value as u64) + bytes::le64(entry.block.value)
}

proof fn lemma_intermediate_entry(
    entries: Seq<UnicodeIntermediateSubNodeTreeEntry>,
    index: int,
    count: nat,
)
    requires
        0 <= index < count <= entries.len(),
    ensures
        encoding::intermediate_entries(entries, count).len() == 16 * count,
        encoding::intermediate_entries(entries, count).subrange(16 * index, 16 * index + 16)
            == intermediate_entry(entries[index]),
    decreases count,
{
    encoding::lemma_intermediate_entries_length(entries, count);
    encoding::lemma_intermediate_entries_length(entries, (count - 1) as nat);
    let whole = encoding::intermediate_entries(entries, count);
    let before = encoding::intermediate_entries(entries, (count - 1) as nat);
    if index == count - 1 {
        assert(whole.subrange(16 * index, 16 * index + 16) =~= intermediate_entry(
            entries[index],
        ));
    } else {
        lemma_intermediate_entry(entries, index, (count - 1) as nat);
        assert(whole.subrange(16 * index, 16 * index + 16) =~= before.subrange(
            16 * index,
            16 * index + 16,
        ));
    }
}

/// Whether `data` is a data tree block with the given entries, level and number of bytes.
pub open spec fn is_data_tree(
    data: Seq<u8>,
    entries: Seq<UnicodeBlockId>,
    level: u8,
    total: u32,
) -> bool {
    &&& data.len() == 8 + 8 * entries.len()
    &&& data[0] == 1
    &&& data[1] == level
    &&& bytes::get16(data, 2) == entries.len()
    &&& bytes::get32(data, 4) == total
    &&& forall|i: int|
        0 <= i < entries.len() ==> #[trigger] bytes::get64(data, 8 + 8 * i) == entries[i].value
}

/// Whether `data` is a leaf block of a subnode tree with the given entries.
pub open spec fn is_subnode_leaf(
    data: Seq<u8>,
    entries: Seq<UnicodeLeafSubNodeTreeEntry>,
) -> bool {
    &&& data.len() == 8 + 24 * entries.len()
    &&& data[0] == 2
    &&& data[1] == 0
    &&& bytes::get16(data, 2) == entries.len()
    &&& forall|i: int|
        #![trigger entries[i]]
        0 <= i < entries.len() ==> bytes::get64(data, 8 + 24 * i) == entries[i].node.value
            && bytes::get64(data, 16 + 24 * i) == entries[i].block.value && bytes::get64(
            data,
            24 + 24 * i,
        ) == (match entries[i].sub_node {
            Some(block) => block.value,
            None => 0,
        })
}

/// Whether `data` is an intermediate block of a subnode tree with the given entries and level.
pub open spec fn is_subnode_intermediate(
    data: Seq<u8>,
    entries: Seq<UnicodeIntermediateSubNodeTreeEntry>,
    level: u8,
) -> bool {
    &&& data.len() == 8 + 16 * entries.len()
    &&& data[0] == 2
    &&& data[1] == level
    &&& bytes::get16(data, 2) == entries.len()
    &&& forall|i: int|
        #![trigger entries[i]]
        0 <= i < entries.len() ==> bytes::get64(data, 8 + 16 * i) == entries[i].node.value
            && bytes::get64(data, 16 + 16 * i) == entries[i].block.value
}

/// Whether `data` holds the given contents of a block.
pub open spec fn is_block(data: Seq<u8>, contents: BlockContents) -> bool {
    match contents {
        BlockContents::Data(bytes) => data == bytes,
        BlockContents::DataTree(entries, level, total) => is_data_tree(
            data,
            entries,
            level,
            total,
        ),
        BlockContents::SubNodes(entries) => is_subnode_leaf(data, entries),
        BlockContents::IntermediateSubNodes(entries, level) => is_subnode_intermediate(
            data,
            entries,
            level,
        ),
    }
}

/// The bytes of a block give back its contents: data as it is, and of a tree its type, its level, the
/// number of its entries and each of them.
pub proof fn law_block_body_reads_back(contents: BlockContents)
    requires
        contents.size() <= u16::MAX,
    ensures
        is_block(encoding::block_body(contents), contents),
{
    let data = encoding::block_body(contents);
    match contents {
        BlockContents::Data(_) => {},
        BlockContents::DataTree(entries, level, total) => {
            encoding::lemma_tree_entries_length(entries, entries.len());
            let count = entries.len() as u16;
            assert(data.subrange(2, 4) =~= bytes::le16(count));
            bytes::lemma_get16_le16(data, 2, count);
            assert(data.subrange(4, 8) =~= bytes::le32(total));
            bytes::lemma_get32_le32(data, 4, total);
            assert forall|i: int| 0 <= i < entries.len() implies #[trigger] bytes::get64(
                data,
                8 + 8 * i,
            ) == entries[i].value by {
                lemma_tree_entry(entries, i, entries.len());
                assert(data.subrange(8 + 8 * i, 16 + 8 * i) =~= encoding::tree_entries(
                    entries,
                    entries.len(),
                ).subrange(8 * i, 8 * i + 8));
                bytes::lemma_get64_le64(data, 8 + 8 * i, entries[i].value);
            }
        },
        BlockContents::SubNodes(entries) => {
            encoding::lemma_leaf_entries_length(entries, entries.len());
            let count = entries.len() as u16;
            assert(data.subrange(2, 4) =~= bytes::le16(count));
            bytes::lemma_get16_le16(data, 2, count);
            assert forall|i: int|
                #![trigger entries[i]]
                0 <= i < entries.len() implies bytes::get64(data, 8 + 24 * i)
                == entries[i].node.value && bytes::get64(data, 16 + 24 * i)
                == entries[i].block.value && bytes::get64(data, 24 + 24 * i)
                == encoding::block_or_zero(entries[i].sub_node) by {
                lemma_leaf_entry(entries, i, entries.len());
                let entry = leaf_entry(entries[i]);
                assert(data.subrange(8 + 24 * i, 32 + 24 * i) =~= entry) by {
                    assert(data.subrange(8 + 24 * i, 32 + 24 * i) =~= encoding::leaf_entries(
                        entries,
                        entries.len(),
                    ).subrange(24 * i, 24 * i + 24));
                }
                lemma_three_fields(
                    data,
                    8 + 24 * i,
                    entries[i].node.value as u64,
                    entries[i].block.value,
                    encoding::block_or_zero(entries[i].sub_node),
                );
            }
        },
        BlockContents::IntermediateSubNodes(entries, level) => {
            encoding::lemma_intermediate_entries_length(entries, entries.len());
            let count = entries.len() as u16;
            assert(data.subrange(2, 4) =~= bytes::le16(count));
            bytes::lemma_get16_le16(data, 2, count);
            assert forall|i: int|
                #![trigger entries[i]]
                0 <= i < entries.len() implies bytes::get64(data, 8 + 16 * i)
                == entries[i].node.value && bytes::get64(data, 16 + 16 * i)
                == entries[i].block.value by {
                lemma_intermediate_entry(entries, i, entries.len());
                let entry = intermediate_entry(entries[i]);
                assert(data.subrange(8 + 16 * i, 24 + 16 * i) =~= entry) by {
                    assert(data.subrange(8 + 16 * i, 24 + 16 * i)
                        =~= encoding::intermediate_entries(entries, entries.len()).subrange(
                        16 * i,
                        16 * i + 16,
                    ));
                }
                assert(data.subrange(8 + 16 * i, 16 + 16 * i) =~= entry.subrange(0, 8));
                assert(entry.subrange(0, 8) =~= bytes::le64(entries[i].node.value as u64));
                bytes::lemma_get64_le64(data, 8 + 16 * i, entries[i].node.value as u64);
                assert(data.subrange(16 + 16 * i, 24 + 16 * i) =~= entry.subrange(8, 16));
                assert(entry.subrange(8, 16) =~= bytes::le64(entries[i].block.value));
                bytes::lemma_get64_le64(data, 16 + 16 * i, entries[i].block.value);
            }
        },
    }
}

proof fn lemma_three_fields(data: Seq<u8>, at: int, first: u64, second: u64, third: u64)
    requires
        0 <= at,
        at + 24 <= data.len(),
        data.subrange(at, at + 24) == bytes::le64(first) + bytes::le64(second) + bytes::le64(third),
    ensures
        bytes::get64(data, at) == first,
        bytes::get64(data, at + 8) == second,
        bytes::get64(data, at + 16) == third,
{
    let entry = data.subrange(at, at + 24);
    assert(data.subrange(at, at + 8) =~= entry.subrange(0, 8));
    assert(entry.subrange(0, 8) =~= bytes::le64(first));
    bytes::lemma_get64_le64(data, at, first);
    assert(data.subrange(at + 8, at + 16) =~= entry.subrange(8, 16));
    assert(entry.subrange(8, 16) =~= bytes::le64(second));
    bytes::lemma_get64_le64(data, at + 8, second);
    assert(data.subrange(at + 16, at + 24) =~= entry.subrange(16, 24));
    assert(entry.subrange(16, 24) =~= bytes::le64(third));
    bytes::lemma_get64_le64(data, at + 16, third);
}

/// The bytes of the entry of a block in a B-tree page.
pub open spec fn block_entry(entry: UnicodeBlockBTreeEntry) -> Seq<u8> {
    bytes::le64(entry.block.block.value) + bytes::le64(entry.block.index) + bytes::le16(entry.size)
        + bytes::le16(entry.ref_count) + bytes::zeros(4)
}

proof fn lemma_block_entry(entries: Seq<UnicodeBlockBTreeEntry>, index: int, count: nat)
    requires
        0 <= index < count <= entries.len(),
    ensures
        encoding::block_page_entries(entries, count).len() == 24 * count,
        encoding::block_page_entries(entries, count).subrange(24 * index, 24 * index + 24)
            == block_entry(entries[index]),
    decreases count,
{
    encoding::lemma_block_page_entries_length(entries, count);
    encoding::lemma_block_page_entries_length(entries, (count - 1) as nat);
    let whole = encoding::block_page_entries(entries, count);
    let before = encoding::block_page_entries(entries, (count - 1) as nat);
    if index == count - 1 {
        assert(whole.subrange(24 * index, 24 * index + 24) =~= block_entry(entries[index]));
    } else {
        lemma_block_entry(entries, index, (count - 1) as nat);
        assert(whole.subrange(24 * index, 24 * index + 24) =~= before.subrange(
            24 * index,
            24 * index + 24,
        ));
    }
}

/// The bytes of the entry of a node in a B-tree page.
pub open spec fn node_entry(entry: UnicodeNodeBTreeEntry) -> Seq<u8> {
    bytes::le64(entry.node.value as u64) + bytes::le64(entry.data.value) + bytes::le64(
        encoding::block_or_zero(entry.sub_node),
    ) + bytes::le32(node_or_zero(entry.parent)) + bytes::zeros(4)
}

proof fn lemma_node_entry(entries: Seq<UnicodeNodeBTreeEntry>, index: int, count: nat)
    requires
        0 <= index < count <= entries.len(),
    ensures
        encoding::node_page_entries(entries, count).len() == 32 * count,
        encoding::node_page_entries(entries, count).subrange(32 * index, 32 * index + 32)
            == node_entry(entries[index]),
    decreases count,
{
    encoding::lemma_node_page_entries_length(entries, count);
    encoding::lemma_node_page_entries_length(entries, (count - 1) as nat);
    let whole = encoding::node_page_entries(entries, count);
    let before = encoding::node_page_entries(entries, (count - 1) as nat);
    if index == count - 1 {
        assert(whole.subrange(32 * index, 32 * index + 32) =~= node_entry(entries[index]));
    } else {
        lemma_node_entry(entries, index, (count - 1) as nat);
        assert(whole.subrange(32 * index, 32 * index + 32) =~= before.subrange(
            32 * index,
            32 * index + 32,
        ));
    }
}

/// The bytes of the entry of a child page in a B-tree page.
pub open spec fn child_entry(entry: UnicodeBTreePageEntry) -> Seq<u8> {
    bytes::le64(entry.key) + bytes::le64(entry.block.block.value) + bytes::le64(entry.block.index)
}

proof fn lemma_child_entry(entries: Seq<UnicodeBTreePageEntry>, index: int, count: nat)
    requires
        0 <= index < count <= entries.len(),
    ensures
        encoding::child_page_entries(entries, count).len() == 24 * count,
        encoding::child_page_entries(entries, count).subrange(24 * index, 24 * index + 24)
            == child_entry(entries[index]),
    decreases count,
{
    encoding::lemma_child_page_entries_length(entries, count);
    encoding::lemma_child_page_entries_length(entries, (count - 1) as nat);
    let whole = encoding::child_page_entries(entries, count);
    let before = encoding::child_page_entries(entries, (count - 1) as nat);
    if index == count - 1 {
        assert(whole.subrange(24 * index, 24 * index + 24) =~= child_entry(entries[index]));
    } else {
        lemma_child_entry(entries, index, (count - 1) as nat);
        assert(whole.subrange(24 * index, 24 * index + 24) =~= before.subrange(
            24 * index,
            24 * index + 24,
        ));
    }
}

/// Whether the payload `data` of a page says that it has so many entries of the given size, at the given
/// level.
pub open spec fn is_page(data: Seq<u8>, count: nat, size: u8, level: u8) -> bool {
    &&& data.len() == 496
    &&& data[488] == count
    &&& data[489] == 488int / (size as int)
    &&& data[490] == size
    &&& data[491] == level
}

/// Whether the payload `data` of a page holds the given contents.
pub open spec fn is_btree_page(data: Seq<u8>, contents: PageContents) -> bool {
    match contents {
        PageContents::BlockLeaf(entries) => {
            &&& is_page(data, entries.len(), 24, 0)
            &&& forall|i: int|
                #![trigger entries[i]]
                0 <= i < entries.len() ==> bytes::get64(data, 24 * i)
                    == entries[i].block.block.value && bytes::get64(data, 24 * i + 8)
                    == entries[i].block.index && bytes::get16(data, 24 * i + 16)
                    == entries[i].size && bytes::get16(data, 24 * i + 18) == entries[i].ref_count
        },
        PageContents::NodeLeaf(entries) => {
            &&& is_page(data, entries.len(), 32, 0)
            &&& forall|i: int|
                #![trigger entries[i]]
                0 <= i < entries.len() ==> bytes::get64(data, 32 * i) == entries[i].node.value
                    && bytes::get64(data, 32 * i + 8) == entries[i].data.value && bytes::get64(
                    data,
                    32 * i + 16,
                ) == (match entries[i].sub_node {
                    Some(block) => block.value,
                    None => 0,
                }) && bytes::get32(data, 32 * i + 24) == node_or_zero(entries[i].parent)
        },
        PageContents::Intermediate(_, level, entries) => {
            &&& is_page(data, entries.len(), 24, level)
            &&& forall|i: int|
                #![trigger entries[i]]
                0 <= i < entries.len() ==> bytes::get64(data, 24 * i) == entries[i].key
                    && bytes::get64(data, 24 * i + 8) == entries[i].block.block.value
                    && bytes::get64(data, 24 * i + 16) == entries[i].block.index
        },
    }
}

proof fn lemma_block_fields(data: Seq<u8>, at: int, entry: UnicodeBlockBTreeEntry)
    requires
        0 <= at,
        at + 24 <= data.len(),
        data.subrange(at, at + 24) == block_entry(entry),
    ensures
        bytes::get64(data, at) == entry.block.block.value,
        bytes::get64(data, at + 8) == entry.block.index,
        bytes::get16(data, at + 16) == entry.size,
        bytes::get16(data, at + 18) == entry.ref_count,
{
    let part = data.subrange(at, at + 24);
    assert(data.subrange(at, at + 8) =~= part.subrange(0, 8));
    assert(part.subrange(0, 8) =~= bytes::le64(entry.block.block.value));
    bytes::lemma_get64_le64(data, at, entry.block.block.value);
    assert(data.subrange(at + 8, at + 16) =~= part.subrange(8, 16));
    assert(part.subrange(8, 16) =~= bytes::le64(entry.block.index));
    bytes::lemma_get64_le64(data, at + 8, entry.block.index);
    assert(data.subrange(at + 16, at + 18) =~= part.subrange(16, 18));
    assert(part.subrange(16, 18) =~= bytes::le16(entry.size));
    bytes::lemma_get16_le16(data, at + 16, entry.size);
    assert(data.subrange(at + 18, at + 20) =~= part.subrange(18, 20));
    assert(part.subrange(18, 20) =~= bytes::le16(entry.ref_count));
    bytes::lemma_get16_le16(data, at + 18, entry.ref_count);
}

proof fn lemma_node_fields(data: Seq<u8>, at: int, entry: UnicodeNodeBTreeEntry)
    requires
        0 <= at,
        at + 32 <= data.len(),
        data.subrange(at, at + 32) == node_entry(entry),
    ensures
        bytes::get64(data, at) == entry.node.value,
        bytes::get64(data, at + 8) == entry.data.value,
        bytes::get64(data, at + 16) == encoding::block_or_zero(entry.sub_node),
        bytes::get32(data, at + 24) == node_or_zero(entry.parent),
{
    let part = data.subrange(at, at + 32);
    let sub_node = encoding::block_or_zero(entry.sub_node);
    assert(data.subrange(at, at + 24) =~= part.subrange(0, 24));
    assert(part.subrange(0, 24) =~= bytes::le64(entry.node.value as u64) + bytes::le64(
        entry.data.value,
    ) + bytes::le64(sub_node));
    lemma_three_fields(data, at, entry.node.value as u64, entry.data.value, sub_node);
    assert(data.subrange(at + 24, at + 28) =~= part.subrange(24, 28));
    assert(part.subrange(24, 28) =~= bytes::le32(node_or_zero(entry.parent)));
    bytes::lemma_get32_le32(data, at + 24, node_or_zero(entry.parent));
}

/// The start of the payload of a page is its entries.
proof fn lemma_payload(packed: Seq<u8>, rest: Seq<u8>, at: int, end: int)
    requires
        0 <= at <= end <= packed.len() <= 488,
    ensures
        bytes::zero_padded(packed, 488).len() == 488,
        (bytes::zero_padded(packed, 488) + rest).subrange(at, end) == packed.subrange(at, end),
{
    assert((bytes::zero_padded(packed, 488) + rest).subrange(at, end) =~= packed.subrange(at, end));
}

/// The payload of a page is its entries, padded, and what it says of them.
proof fn lemma_page_parts(packed: Seq<u8>, count: u8, capacity: u8, size: u8, level: u8)
    requires
        packed.len() <= 488,
    ensures
        ({
            let rest = seq![count, capacity, size, level] + bytes::zeros(4);
            let data = bytes::zero_padded(packed, 488) + seq![count, capacity, size, level]
                + bytes::zeros(4);
            &&& data == bytes::zero_padded(packed, 488) + rest
            &&& data.len() == 496
            &&& data[488] == count
            &&& data[489] == capacity
            &&& data[490] == size
            &&& data[491] == level
        }),
{
    let rest = seq![count, capacity, size, level] + bytes::zeros(4);
    let data = bytes::zero_padded(packed, 488) + seq![count, capacity, size, level] + bytes::zeros(
        4,
    );
    assert(data =~= bytes::zero_padded(packed, 488) + rest);
}

proof fn lemma_block_page(entries: Seq<UnicodeBlockBTreeEntry>)
    requires
        btree_laws::page_fits(PageContents::BlockLeaf(entries)),
    ensures
        is_btree_page(
            encoding::page_body(PageContents::BlockLeaf(entries)),
            PageContents::BlockLeaf(entries),
        ),
{
    let data = encoding::page_body(PageContents::BlockLeaf(entries));
    let packed = encoding::block_page_entries(entries, entries.len());
    let rest = seq![entries.len() as u8, 20u8, 24u8, 0u8] + bytes::zeros(4);
    encoding::lemma_block_page_entries_length(entries, entries.len());
    lemma_page_parts(packed, entries.len() as u8, 20, 24, 0);
    assert forall|i: int| #![trigger entries[i]] 0 <= i < entries.len() implies bytes::get64(
        data,
        24 * i,
    ) == entries[i].block.block.value && bytes::get64(data, 24 * i + 8) == entries[i].block.index
        && bytes::get16(data, 24 * i + 16) == entries[i].size && bytes::get16(data, 24 * i + 18)
        == entries[i].ref_count by {
        lemma_block_entry(entries, i, entries.len());
        lemma_payload(packed, rest, 24 * i, 24 * i + 24);
        lemma_block_fields(data, 24 * i, entries[i]);
    }
}

proof fn lemma_node_page(entries: Seq<UnicodeNodeBTreeEntry>)
    requires
        btree_laws::page_fits(PageContents::NodeLeaf(entries)),
    ensures
        is_btree_page(
            encoding::page_body(PageContents::NodeLeaf(entries)),
            PageContents::NodeLeaf(entries),
        ),
{
    let data = encoding::page_body(PageContents::NodeLeaf(entries));
    let packed = encoding::node_page_entries(entries, entries.len());
    let rest = seq![entries.len() as u8, 15u8, 32u8, 0u8] + bytes::zeros(4);
    encoding::lemma_node_page_entries_length(entries, entries.len());
    lemma_page_parts(packed, entries.len() as u8, 15, 32, 0);
    assert forall|i: int| #![trigger entries[i]] 0 <= i < entries.len() implies bytes::get64(
        data,
        32 * i,
    ) == entries[i].node.value && bytes::get64(data, 32 * i + 8) == entries[i].data.value
        && bytes::get64(data, 32 * i + 16) == encoding::block_or_zero(entries[i].sub_node)
        && bytes::get32(data, 32 * i + 24) == node_or_zero(entries[i].parent) by {
        lemma_node_entry(entries, i, entries.len());
        lemma_payload(packed, rest, 32 * i, 32 * i + 32);
        lemma_node_fields(data, 32 * i, entries[i]);
    }
}

/// The bytes of a B-tree page give back its contents: the number of its entries and each of them, how
/// many there is room for, and its level.
pub proof fn law_page_body_reads_back(contents: PageContents)
    requires
        btree_laws::page_fits(contents),
    ensures
        is_btree_page(encoding::page_body(contents), contents),
{
    match contents {
        PageContents::BlockLeaf(entries) => {
            lemma_block_page(entries);
        },
        PageContents::NodeLeaf(entries) => {
            lemma_node_page(entries);
        },
        PageContents::Intermediate(_, level, entries) => {
            let data = encoding::page_body(contents);
            let packed = encoding::child_page_entries(entries, entries.len());
            let rest = seq![entries.len() as u8, 20u8, 24u8, level] + bytes::zeros(4);
            encoding::lemma_child_page_entries_length(entries, entries.len());
            lemma_page_parts(packed, entries.len() as u8, 20, 24, level);
            assert forall|i: int|
                #![trigger entries[i]]
                0 <= i < entries.len() implies bytes::get64(data, 24 * i) == entries[i].key
                && bytes::get64(data, 24 * i + 8) == entries[i].block.block.value
                && bytes::get64(data, 24 * i + 16) == entries[i].block.index by {
                lemma_child_entry(entries, i, entries.len());
                lemma_payload(packed, rest, 24 * i, 24 * i + 24);
                lemma_three_fields(
                    data,
                    24 * i,
                    entries[i].key,
                    entries[i].block.block.value,
                    entries[i].block.index,
                );
            }
        },
    }
}

/// A page starts with its payload and ends with its trailer: its type twice, its signature, the checksum
/// of the payload and its identifier.
pub proof fn law_page_trailer(page_type: PageType, offset: u64, id: u64, body: Seq<u8>)
    requires
        body.len() == 496,
    ensures
        ({
            let data = encoding::page_bytes(page_type, offset, id, body);
            &&& data.len() == 512
            &&& data.take(496) == body
            &&& data[496] == encoding::page_type_code(page_type)
            &&& data[497] == data[496]
            &&& bytes::get16(data, 498) == encoding::page_signature(page_type, offset, id)
            &&& bytes::get32(data, 500) == encoding::crc(body)
            &&& bytes::get64(data, 504) == id
        }),
{
    let data = encoding::page_bytes(page_type, offset, id, body);
    let signature = encoding::page_signature(page_type, offset, id);
    bytes::lemma_le_lengths(signature, encoding::crc(body), id);
    assert(data.take(496) =~= body);
    assert(data.subrange(498, 500) =~= bytes::le16(signature));
    bytes::lemma_get16_le16(data, 498, signature);
    assert(data.subrange(500, 504) =~= bytes::le32(encoding::crc(body)));
    bytes::lemma_get32_le32(data, 500, encoding::crc(body));
    assert(data.subrange(504, 512) =~= bytes::le64(id));
    bytes::lemma_get64_le64(data, 504, id);
}

} // verus!
