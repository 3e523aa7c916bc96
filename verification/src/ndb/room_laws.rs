//! When trees can be planned: nothing but a limit of the format stands in the way.

use vstd::prelude::*;

use crate::bytes;
use crate::ndb::allocation;
use crate::ndb::block;
use crate::ndb::block::{
    BlockContents, BlockPlan, UnicodeIntermediateSubNodeTreeEntry, UnicodeLeafSubNodeTreeEntry,
    MAX_BLOCK_DATA_SIZE,
};
use crate::ndb::block_laws;
use crate::ndb::btree;
use crate::ndb::btree::{
    PageContents, PagePlan, PageType, UnicodeBTreePageEntry, UnicodeBlockBTreeEntry,
    UnicodeNodeBTreeEntry, BTREE_CAPACITY, MAX_BTREE_LEVEL, NODE_LEAF_CAPACITY,
};
use crate::ndb::data_tree;
use crate::ndb::data_tree::{DataTreeItem, DATA_TREE_CAPACITY};
use crate::ndb::ids::BLOCK_INDEX_LIMIT;
use crate::ndb::levels;
use crate::ndb::subnode_tree;
use crate::ndb::subnode_tree::{INTERMEDIATE_CAPACITY, LEAF_CAPACITY};
use crate::sorting;
use crate::sorting::Keyed;

verus! {

/// The largest number of bytes that the end of the file moves by for a block: the block, the alignment,
/// and what is left free before the next region and its map pages.
pub const BLOCK_STEP: u64 = 20480;

/// Whether `count` more blocks have room: there are indices for them, and offsets.
pub open spec fn has_room(plan: BlockPlan, count: int) -> bool {
    &&& plan.next_bid + count <= BLOCK_INDEX_LIMIT
    &&& plan.next_offset + BLOCK_STEP * count <= allocation::MAX_FILE_OFFSET
}

/// A block of a possible size can be planned where there is room, and takes one of the places.
proof fn lemma_next_block(plan: BlockPlan, internal: bool, data: BlockContents, count: int)
    requires
        1 <= data.size() <= MAX_BLOCK_DATA_SIZE,
        count >= 1,
        has_room(plan, count),
    ensures
        block::with_next_block(plan, internal, data).1 is Ok,
        has_room(block::with_next_block(plan, internal, data).0, count - 1),
{
    let size = block::disk_size(data.size() as int);
    allocation::lemma_align_up(data.size() as int + 16, 64);
    allocation::law_reserved_offset_is_first_fit(plan.next_offset as int, size, 64);
}

proof fn lemma_leaves(
    plan: BlockPlan,
    chunks: Seq<Seq<u8>>,
    index: int,
    done: Seq<DataTreeItem>,
    count: int,
)
    requires
        0 <= index <= chunks.len(),
        forall|i: int|
            0 <= i < chunks.len() ==> 1 <= (#[trigger] chunks[i]).len() <= MAX_BLOCK_DATA_SIZE,
        count >= chunks.len() - index,
        has_room(plan, count),
        done.len() == index,
        data_tree::item_total(done, 0, index) == bytes::length_prefix(chunks, index as nat),
    ensures
        data_tree::with_leaves(plan, chunks, index, done) matches (after, Ok(items))
            && items.len() == chunks.len() && data_tree::item_total(items, 0, items.len() as int)
            == bytes::total_length(chunks) && has_room(after, count - (chunks.len() - index)),
    decreases chunks.len() - index,
{
    if index < chunks.len() {
        lemma_next_block(plan, false, BlockContents::Data(chunks[index]), count);
        if let (after, Ok(id)) = block::with_next_block(
            plan,
            false,
            BlockContents::Data(chunks[index]),
        ) {
            let item = DataTreeItem { id, size: chunks[index].len() as u32 };
            lemma_item_total_push(done, item);
            lemma_leaves(after, chunks, index + 1, done.push(item), count - 1);
        }
    }
}

proof fn lemma_item_total_push(items: Seq<DataTreeItem>, item: DataTreeItem)
    ensures
        data_tree::item_total(items.push(item), 0, items.len() as int + 1) == data_tree::item_total(
            items,
            0,
            items.len() as int,
        ) + item.size,
{
    lemma_item_total_agrees(items, items.push(item), 0, items.len() as int);
}

proof fn lemma_item_total_agrees(
    left: Seq<DataTreeItem>,
    right: Seq<DataTreeItem>,
    start: int,
    end: int,
)
    requires
        0 <= start,
        forall|i: int| start <= i < end ==> left[i] == right[i],
    ensures
        data_tree::item_total(left, start, end) == data_tree::item_total(right, start, end),
    decreases end - start,
{
    if start < end {
        lemma_item_total_agrees(left, right, start, end - 1);
    }
}

proof fn lemma_item_total_split(items: Seq<DataTreeItem>, start: int, middle: int, end: int)
    requires
        start <= middle <= end,
    ensures
        data_tree::item_total(items, start, end) == data_tree::item_total(items, start, middle)
            + data_tree::item_total(items, middle, end),
    decreases end - middle,
{
    if middle < end {
        lemma_item_total_split(items, start, middle, end - 1);
    }
}

proof fn lemma_tree_level(
    plan: BlockPlan,
    items: Seq<DataTreeItem>,
    start: int,
    level: u8,
    done: Seq<DataTreeItem>,
    count: int,
)
    requires
        0 <= start <= items.len(),
        count >= levels::group_count(items.len() - start, DATA_TREE_CAPACITY as int),
        has_room(plan, count),
        data_tree::item_total(items, start, items.len() as int) + data_tree::item_total(
            done,
            0,
            done.len() as int,
        ) <= u32::MAX,
    ensures
        data_tree::with_tree_level(plan, items, start, level, done) matches (after, Ok(next))
            && next.len() == done.len() + levels::group_count(
            items.len() - start,
            DATA_TREE_CAPACITY as int,
        ) && data_tree::item_total(next, 0, next.len() as int) == data_tree::item_total(
            items,
            start,
            items.len() as int,
        ) + data_tree::item_total(done, 0, done.len() as int) && has_room(
            after,
            count - levels::group_count(items.len() - start, DATA_TREE_CAPACITY as int),
        ),
    decreases items.len() - start,
{
    if start < items.len() {
        let end = levels::group_end(start, DATA_TREE_CAPACITY as int, items.len() as int);
        let total = data_tree::item_total(items, start, end);
        lemma_item_total_split(items, start, end, items.len() as int);
        let data = BlockContents::DataTree(
            data_tree::item_ids(items.subrange(start, end)),
            level,
            total as u32,
        );
        lemma_next_block(plan, true, data, count);
        if let (after, Ok(id)) = block::with_next_block(plan, true, data) {
            let item = DataTreeItem { id, size: total as u32 };
            lemma_item_total_push(done, item);
            lemma_tree_level(after, items, end, level, done.push(item), count - 1);
        }
    }
}

proof fn lemma_tree(plan: BlockPlan, items: Seq<DataTreeItem>, level: u8)
    requires
        items.len() >= 1,
        has_room(plan, items.len() as int),
        data_tree::item_total(items, 0, items.len() as int) <= u32::MAX,
    ensures
        data_tree::with_tree(plan, items, level).1 is Ok,
    decreases items.len(),
{
    if items.len() > 1 {
        lemma_tree_level(plan, items, 0, level, Seq::empty(), items.len() as int);
        if let (after, Ok(next)) = data_tree::with_tree_level(
            plan,
            items,
            0,
            level,
            Seq::empty(),
        ) {
            assert(next.len() + next.len() <= items.len());
            lemma_tree(after, next, (level + 1) as u8);
        }
    }
}

/// A data tree can be planned of any chunks that are neither empty nor larger than a block, where their
/// bytes can be counted in 32 bits and there is room for the blocks.
pub proof fn law_data_tree_is_planned(plan: BlockPlan, chunks: Seq<Seq<u8>>)
    requires
        chunks.len() > 0,
        forall|i: int|
            0 <= i < chunks.len() ==> 1 <= (#[trigger] chunks[i]).len() <= MAX_BLOCK_DATA_SIZE,
        bytes::total_length(data_tree::filled_chunks(chunks)) <= u32::MAX,
        has_room(plan, 2 * (chunks.len() as int)),
    ensures
        data_tree::with_data_tree(plan, chunks).1 is Ok,
{
    reveal(data_tree::with_data_tree);
    let filled = data_tree::filled_chunks(chunks);
    assert forall|i: int| 0 <= i < filled.len() implies 1 <= (#[trigger] filled[i]).len()
        <= MAX_BLOCK_DATA_SIZE by {
        assert(1 <= chunks[i].len() <= MAX_BLOCK_DATA_SIZE);
    }
    lemma_leaves(plan, filled, 0, Seq::empty(), 2 * (chunks.len() as int));
    if let (after, Ok(items)) = data_tree::with_leaves(plan, filled, 0, Seq::empty()) {
        lemma_tree(after, items, 1);
    }
}

/// Any data that is not empty can be planned, where its bytes can be counted in 32 bits and there is
/// room for the blocks.
pub proof fn law_data_is_planned(plan: BlockPlan, data: Seq<u8>)
    requires
        1 <= data.len() <= u32::MAX,
        has_room(plan, 2 * levels::group_count(data.len() as int, MAX_BLOCK_DATA_SIZE as int)),
    ensures
        data_tree::with_data_tree(plan, data_tree::data_chunks(data)).1 is Ok,
{
    let chunks = data_tree::data_chunks(data);
    block_laws::law_data_chunks_join(data);
    bytes::lemma_concat_length(data_tree::filled_chunks(chunks), chunks.len());
    assert forall|i: int| 0 <= i < chunks.len() implies 1 <= (#[trigger] chunks[i]).len()
        <= MAX_BLOCK_DATA_SIZE by {
        assert(i * MAX_BLOCK_DATA_SIZE < data.len()) by {
            assert(i + 1 <= (data.len() + 8175) / 8176);
        }
    }
    law_data_tree_is_planned(plan, chunks);
}

proof fn lemma_leaf_level(
    plan: BlockPlan,
    entries: Seq<UnicodeLeafSubNodeTreeEntry>,
    start: int,
    done: Seq<UnicodeIntermediateSubNodeTreeEntry>,
    count: int,
)
    requires
        0 <= start <= entries.len(),
        count >= levels::group_count(entries.len() - start, LEAF_CAPACITY as int),
        has_room(plan, count),
    ensures
        subnode_tree::with_leaf_level(plan, entries, start, done) matches (after, Ok(next))
            && next.len() == done.len() + levels::group_count(
            entries.len() - start,
            LEAF_CAPACITY as int,
        ) && has_room(
            after,
            count - levels::group_count(entries.len() - start, LEAF_CAPACITY as int),
        ),
    decreases entries.len() - start,
{
    if start < entries.len() {
        let end = levels::group_end(start, LEAF_CAPACITY as int, entries.len() as int);
        let data = BlockContents::SubNodes(entries.subrange(start, end));
        lemma_next_block(plan, true, data, count);
        if let (after, Ok(block)) = block::with_next_block(plan, true, data) {
            lemma_leaf_level(
                after,
                entries,
                end,
                done.push(
                    UnicodeIntermediateSubNodeTreeEntry { node: entries[start].node, block },
                ),
                count - 1,
            );
        }
    }
}

proof fn lemma_intermediate_level(
    plan: BlockPlan,
    children: Seq<UnicodeIntermediateSubNodeTreeEntry>,
    start: int,
    level: u8,
    done: Seq<UnicodeIntermediateSubNodeTreeEntry>,
    count: int,
)
    requires
        0 <= start <= children.len(),
        count >= levels::group_count(children.len() - start, INTERMEDIATE_CAPACITY as int),
        has_room(plan, count),
    ensures
        subnode_tree::with_intermediate_level(plan, children, start, level, done) matches (
            after,
            Ok(next),
        ) && next.len() == done.len() + levels::group_count(
            children.len() - start,
            INTERMEDIATE_CAPACITY as int,
        ) && has_room(
            after,
            count - levels::group_count(children.len() - start, INTERMEDIATE_CAPACITY as int),
        ),
    decreases children.len() - start,
{
    if start < children.len() {
        let end = levels::group_end(start, INTERMEDIATE_CAPACITY as int, children.len() as int);
        let data = BlockContents::IntermediateSubNodes(children.subrange(start, end), level);
        lemma_next_block(plan, true, data, count);
        if let (after, Ok(block)) = block::with_next_block(plan, true, data) {
            lemma_intermediate_level(
                after,
                children,
                end,
                level,
                done.push(
                    UnicodeIntermediateSubNodeTreeEntry { node: children[start].node, block },
                ),
                count - 1,
            );
        }
    }
}

proof fn lemma_subnode_root(
    plan: BlockPlan,
    children: Seq<UnicodeIntermediateSubNodeTreeEntry>,
    level: u8,
)
    requires
        children.len() >= 1,
        has_room(plan, children.len() as int),
    ensures
        subnode_tree::with_root(plan, children, level).1 is Ok,
    decreases children.len(),
{
    if children.len() > 1 {
        lemma_intermediate_level(
            plan,
            children,
            0,
            level,
            Seq::empty(),
            children.len() as int,
        );
        if let (after, Ok(next)) = subnode_tree::with_intermediate_level(
            plan,
            children,
            0,
            level,
            Seq::empty(),
        ) {
            assert(next.len() + next.len() <= children.len());
            lemma_subnode_root(after, next, (level + 1) as u8);
        }
    }
}

/// A subnode tree can be planned of any entries, where there are any and there is room for the blocks.
pub proof fn law_subnode_tree_is_planned(
    plan: BlockPlan,
    entries: Seq<UnicodeLeafSubNodeTreeEntry>,
)
    requires
        entries.len() > 0,
        has_room(plan, 2 * levels::group_count(entries.len() as int, LEAF_CAPACITY as int)),
    ensures
        subnode_tree::with_subnode_tree(plan, entries).1 is Ok,
{
    reveal(subnode_tree::with_subnode_tree);
    sorting::law_sorted_by_key(entries, 0);
    let sorted = sorting::sorted_by_key(entries);
    let groups = levels::group_count(entries.len() as int, LEAF_CAPACITY as int);
    lemma_leaf_level(plan, sorted, 0, Seq::empty(), 2 * groups);
    if let (after, Ok(children)) = subnode_tree::with_leaf_level(plan, sorted, 0, Seq::empty()) {
        lemma_subnode_root(after, children, 1);
    }
}

/// The largest number of bytes that the end of the file moves by for a page.
pub const PAGE_STEP: u64 = 4096;

/// Whether `count` more pages have room: there are identifiers for them, and offsets.
pub open spec fn has_page_room(plan: PagePlan, count: int) -> bool {
    &&& plan.next_page.value + count <= u64::MAX
    &&& plan.next_offset + PAGE_STEP * count <= allocation::MAX_FILE_OFFSET
}

proof fn lemma_next_page(plan: PagePlan, data: PageContents, count: int)
    requires
        count >= 1,
        has_page_room(plan, count),
    ensures
        btree::with_page(plan, data).1 is Ok,
        has_page_room(btree::with_page(plan, data).0, count - 1),
{
    allocation::law_reserved_offset_is_first_fit(plan.next_offset as int, 512, 512);
}

proof fn lemma_page_level(
    plan: PagePlan,
    page_type: PageType,
    children: Seq<UnicodeBTreePageEntry>,
    start: int,
    level: u8,
    done: Seq<UnicodeBTreePageEntry>,
    count: int,
)
    requires
        0 <= start <= children.len(),
        count >= levels::group_count(children.len() - start, BTREE_CAPACITY as int),
        has_page_room(plan, count),
    ensures
        btree::with_page_level(plan, page_type, children, start, level, done) matches (
            after,
            Ok(next),
        ) && next.len() == done.len() + levels::group_count(
            children.len() - start,
            BTREE_CAPACITY as int,
        ) && has_page_room(
            after,
            count - levels::group_count(children.len() - start, BTREE_CAPACITY as int),
        ),
    decreases children.len() - start,
{
    if start < children.len() {
        let end = levels::group_end(start, BTREE_CAPACITY as int, children.len() as int);
        let data = PageContents::Intermediate(page_type, level, children.subrange(start, end));
        lemma_next_page(plan, data, count);
        if let (after, Ok(block)) = btree::with_page(plan, data) {
            lemma_page_level(
                after,
                page_type,
                children,
                end,
                level,
                done.push(UnicodeBTreePageEntry { key: children[start].key, block }),
                count - 1,
            );
        }
    }
}

/// The largest number of pages that `levels` levels above them lead to a single root.
pub open spec fn pages_below(levels: nat) -> nat
    decreases levels,
{
    if levels == 0 {
        1
    } else {
        20 * pages_below((levels - 1) as nat)
    }
}

/// Eight levels have room for 25 600 000 000 leaf pages.
pub proof fn law_btree_capacity()
    ensures
        pages_below(MAX_BTREE_LEVEL as nat) == 25_600_000_000,
{
    reveal_with_fuel(pages_below, 9);
}

proof fn lemma_intermediate_pages(
    plan: PagePlan,
    page_type: PageType,
    children: Seq<UnicodeBTreePageEntry>,
    level: u8,
)
    requires
        1 <= children.len(),
        1 <= level <= MAX_BTREE_LEVEL + 1,
        children.len() <= pages_below((MAX_BTREE_LEVEL + 1 - level) as nat),
        has_page_room(plan, children.len() as int),
    ensures
        btree::with_intermediate_pages(plan, page_type, children, level).1 is Ok,
    decreases children.len(),
{
    if children.len() > 1 {
        let below = (MAX_BTREE_LEVEL + 1 - level) as nat;
        assert(below > 0);
        assert(pages_below(below) == 20 * pages_below((below - 1) as nat));
        lemma_page_level(
            plan,
            page_type,
            children,
            0,
            level,
            Seq::empty(),
            children.len() as int,
        );
        if let (after, Ok(next)) = btree::with_page_level(
            plan,
            page_type,
            children,
            0,
            level,
            Seq::empty(),
        ) {
            assert(next.len() + next.len() <= children.len());
            assert(next.len() <= pages_below((below - 1) as nat));
            lemma_intermediate_pages(after, page_type, next, (level + 1) as u8);
        }
    }
}

proof fn lemma_block_leaves(
    plan: PagePlan,
    entries: Seq<UnicodeBlockBTreeEntry>,
    start: int,
    done: Seq<UnicodeBTreePageEntry>,
    count: int,
)
    requires
        0 <= start <= entries.len(),
        count >= levels::group_count(entries.len() - start, BTREE_CAPACITY as int),
        has_page_room(plan, count),
    ensures
        btree::with_block_leaves(plan, entries, start, done) matches (after, Ok(next))
            && next.len() == done.len() + levels::group_count(
            entries.len() - start,
            BTREE_CAPACITY as int,
        ) && has_page_room(
            after,
            count - levels::group_count(entries.len() - start, BTREE_CAPACITY as int),
        ),
    decreases entries.len() - start,
{
    if start < entries.len() {
        let end = levels::group_end(start, BTREE_CAPACITY as int, entries.len() as int);
        let data = PageContents::BlockLeaf(entries.subrange(start, end));
        lemma_next_page(plan, data, count);
        if let (after, Ok(block)) = btree::with_page(plan, data) {
            lemma_block_leaves(
                after,
                entries,
                end,
                done.push(UnicodeBTreePageEntry { key: entries[start].spec_key(), block }),
                count - 1,
            );
        }
    }
}

proof fn lemma_node_leaves(
    plan: PagePlan,
    entries: Seq<UnicodeNodeBTreeEntry>,
    start: int,
    done: Seq<UnicodeBTreePageEntry>,
    count: int,
)
    requires
        0 <= start <= entries.len(),
        count >= levels::group_count(entries.len() - start, NODE_LEAF_CAPACITY as int),
        has_page_room(plan, count),
    ensures
        btree::with_node_leaves(plan, entries, start, done) matches (after, Ok(next))
            && next.len() == done.len() + levels::group_count(
            entries.len() - start,
            NODE_LEAF_CAPACITY as int,
        ) && has_page_room(
            after,
            count - levels::group_count(entries.len() - start, NODE_LEAF_CAPACITY as int),
        ),
    decreases entries.len() - start,
{
    if start < entries.len() {
        let end = levels::group_end(start, NODE_LEAF_CAPACITY as int, entries.len() as int);
        let data = PageContents::NodeLeaf(entries.subrange(start, end));
        lemma_next_page(plan, data, count);
        if let (after, Ok(block)) = btree::with_page(plan, data) {
            lemma_node_leaves(
                after,
                entries,
                end,
                done.push(UnicodeBTreePageEntry { key: entries[start].spec_key(), block }),
                count - 1,
            );
        }
    }
}

/// A block B-tree can be planned of any entries, where there are any, eight levels lead to a single root,
/// and there is room for the pages.
pub proof fn law_block_btree_is_planned(plan: PagePlan, entries: Seq<UnicodeBlockBTreeEntry>)
    requires
        entries.len() > 0,
        levels::group_count(entries.len() as int, BTREE_CAPACITY as int) <= pages_below(
            MAX_BTREE_LEVEL as nat,
        ),
        has_page_room(plan, 2 * levels::group_count(entries.len() as int, BTREE_CAPACITY as int)),
    ensures
        btree::with_block_btree(plan, entries).1 is Ok,
{
    reveal(btree::with_block_btree);
    let groups = levels::group_count(entries.len() as int, BTREE_CAPACITY as int);
    lemma_block_leaves(plan, entries, 0, Seq::empty(), 2 * groups);
    if let (after, Ok(children)) = btree::with_block_leaves(plan, entries, 0, Seq::empty()) {
        lemma_intermediate_pages(after, PageType::BlockBTree, children, 1);
    }
}

/// A node B-tree can be planned of any entries, where there are any, eight levels lead to a single root,
/// and there is room for the pages.
pub proof fn law_node_btree_is_planned(plan: PagePlan, entries: Seq<UnicodeNodeBTreeEntry>)
    requires
        entries.len() > 0,
        levels::group_count(entries.len() as int, NODE_LEAF_CAPACITY as int) <= pages_below(
            MAX_BTREE_LEVEL as nat,
        ),
        has_page_room(
            plan,
            2 * levels::group_count(entries.len() as int, NODE_LEAF_CAPACITY as int),
        ),
    ensures
        btree::with_node_btree(plan, entries).1 is Ok,
{
    reveal(btree::with_node_btree);
    let groups = levels::group_count(entries.len() as int, NODE_LEAF_CAPACITY as int);
    lemma_node_leaves(plan, entries, 0, Seq::empty(), 2 * groups);
    if let (after, Ok(children)) = btree::with_node_leaves(plan, entries, 0, Seq::empty()) {
        lemma_intermediate_pages(after, PageType::NodeBTree, children, 1);
    }
}

} // verus!
