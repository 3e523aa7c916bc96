//! How many pages and blocks trees take, and how their leaves are filled.

use vstd::prelude::*;

use crate::error::{IoError, PstError};
use crate::ndb::block;
use crate::ndb::block::{
    BlockContents, BlockPlan, UnicodeIntermediateSubNodeTreeEntry, UnicodeLeafSubNodeTreeEntry,
};
use crate::ndb::btree;
use crate::ndb::btree::{
    PageContents, PagePlan, PageType, UnicodeBTreePageEntry, UnicodeBlockBTreeEntry,
    UnicodeNodeBTreeEntry,
};
use crate::ndb::data_tree;
use crate::ndb::data_tree::DataTreeItem;
use crate::ndb::levels;
use crate::ndb::subnode_tree;
use crate::sorting;
use crate::sorting::Keyed;

verus! {

/// The number of groups of `size` that `count` things fall into, the last of them smaller where it has to be.
pub open spec fn groups(count: int, size: int) -> int {
    if count % size == 0 {
        count / size
    } else {
        count / size + 1
    }
}

/// The number of pages or blocks above `count` leaves, where each has room for `size` of those below, and one is the
/// root.
pub open spec fn above(count: int, size: int) -> int
    decreases count,
    when size >= 2
{
    if count <= 1 {
        0
    } else {
        proof {
            lemma_fewer(count, size);
        }
        groups(count, size) + above(groups(count, size), size)
    }
}

/// The number of levels above `count` leaves, where each has room for `size` of those below, up to a single root.
pub open spec fn depth(count: int, size: int) -> int
    decreases count,
    when size >= 2
{
    if count <= 1 {
        0
    } else {
        proof {
            lemma_fewer(count, size);
        }
        1 + depth(groups(count, size), size)
    }
}

/// There are fewer groups than things.
pub proof fn lemma_fewer(count: int, size: int)
    requires
        count >= 2,
        size >= 2,
    ensures
        0 < groups(count, size) < count,
{
    let whole = count / size;
    let rest = count % size;
    assert(count == size * whole + rest && 0 <= rest < size) by (nonlinear_arith)
        requires
            size >= 2,
            whole == count / size,
            rest == count % size,
    ;
    assert(size * whole >= 2 * whole) by (nonlinear_arith)
        requires
            size >= 2,
            whole >= 0,
            count >= 2,
    ;
    if whole == 0 {
        assert(size * whole == 0) by (nonlinear_arith)
            requires
                whole == 0,
        ;
    }
}

proof fn lemma_depth(count: int, size: int)
    requires
        size >= 2,
    ensures
        depth(count, size) >= 0,
    decreases count,
{
    if count > 1 {
        lemma_fewer(count, size);
        lemma_depth(groups(count, size), size);
    }
}

proof fn lemma_above(count: int, size: int)
    requires
        size >= 2,
    ensures
        above(count, size) >= 0,
    decreases count,
{
    if count > 1 {
        lemma_fewer(count, size);
        lemma_above(groups(count, size), size);
    }
}

proof fn lemma_block_leaves(
    plan: PagePlan,
    entries: Seq<UnicodeBlockBTreeEntry>,
    start: int,
    done: Seq<UnicodeBTreePageEntry>,
)
    requires
        0 <= start <= entries.len(),
        start % 20 == 0 || start == entries.len(),
    ensures
        btree::with_block_leaves(plan, entries, start, done) matches (after, Ok(children)) ==> {
            &&& children.len() - done.len() == groups(entries.len() - start, 20)
            &&& after.pages.len() - plan.pages.len() == children.len() - done.len()
            &&& after.pages.take(plan.pages.len() as int) == plan.pages
            &&& forall|i: int|
                0 <= i < groups(entries.len() - start, 20) ==> (#[trigger] after.pages[plan.pages.len()
                    + i]).data == PageContents::BlockLeaf(
                    entries.subrange(
                        start + 20 * i,
                        levels::group_end(start + 20 * i, 20, entries.len() as int),
                    ),
                )
        },
    decreases entries.len() - start,
{
    if start < entries.len() {
        let end = levels::group_end(start, 20, entries.len() as int);
        if let (next, Ok(block)) = btree::with_page(
            plan,
            PageContents::BlockLeaf(entries.subrange(start, end)),
        ) {
            let more = done.push(UnicodeBTreePageEntry { key: entries[start].spec_key(), block });
            lemma_block_leaves(next, entries, end, more);
            if let (after, Ok(children)) = btree::with_block_leaves(next, entries, end, more) {
                assert(next.pages.take(plan.pages.len() as int) =~= plan.pages);
                assert(after.pages.take(plan.pages.len() as int) =~= after.pages.take(
                    next.pages.len() as int,
                ).take(plan.pages.len() as int));
                assert(after.pages[plan.pages.len() as int] == after.pages.take(
                    next.pages.len() as int,
                )[plan.pages.len() as int]);
                assert forall|i: int| 0 <= i < groups(entries.len() - start, 20) implies (
                #[trigger] after.pages[plan.pages.len() + i]).data == PageContents::BlockLeaf(
                    entries.subrange(
                        start + 20 * i,
                        levels::group_end(start + 20 * i, 20, entries.len() as int),
                    ),
                ) by {
                    if i > 0 {
                        assert(after.pages[plan.pages.len() + i] == after.pages[next.pages.len() + (
                        i - 1)]);
                    }
                }
            }
        }
    } else {
        assert(plan.pages.take(plan.pages.len() as int) =~= plan.pages);
    }
}

proof fn lemma_node_leaves(
    plan: PagePlan,
    entries: Seq<UnicodeNodeBTreeEntry>,
    start: int,
    done: Seq<UnicodeBTreePageEntry>,
)
    requires
        0 <= start <= entries.len(),
        start % 15 == 0 || start == entries.len(),
    ensures
        btree::with_node_leaves(plan, entries, start, done) matches (after, Ok(children)) ==> {
            &&& children.len() - done.len() == groups(entries.len() - start, 15)
            &&& after.pages.len() - plan.pages.len() == children.len() - done.len()
            &&& after.pages.take(plan.pages.len() as int) == plan.pages
            &&& forall|i: int|
                0 <= i < groups(entries.len() - start, 15) ==> (#[trigger] after.pages[plan.pages.len()
                    + i]).data == PageContents::NodeLeaf(
                    entries.subrange(
                        start + 15 * i,
                        levels::group_end(start + 15 * i, 15, entries.len() as int),
                    ),
                )
        },
    decreases entries.len() - start,
{
    if start < entries.len() {
        let end = levels::group_end(start, 15, entries.len() as int);
        if let (next, Ok(block)) = btree::with_page(
            plan,
            PageContents::NodeLeaf(entries.subrange(start, end)),
        ) {
            let more = done.push(UnicodeBTreePageEntry { key: entries[start].spec_key(), block });
            lemma_node_leaves(next, entries, end, more);
            if let (after, Ok(children)) = btree::with_node_leaves(next, entries, end, more) {
                assert(next.pages.take(plan.pages.len() as int) =~= plan.pages);
                assert(after.pages.take(plan.pages.len() as int) =~= after.pages.take(
                    next.pages.len() as int,
                ).take(plan.pages.len() as int));
                assert(after.pages[plan.pages.len() as int] == after.pages.take(
                    next.pages.len() as int,
                )[plan.pages.len() as int]);
                assert forall|i: int| 0 <= i < groups(entries.len() - start, 15) implies (
                #[trigger] after.pages[plan.pages.len() + i]).data == PageContents::NodeLeaf(
                    entries.subrange(
                        start + 15 * i,
                        levels::group_end(start + 15 * i, 15, entries.len() as int),
                    ),
                ) by {
                    if i > 0 {
                        assert(after.pages[plan.pages.len() + i] == after.pages[next.pages.len() + (
                        i - 1)]);
                    }
                }
            }
        }
    } else {
        assert(plan.pages.take(plan.pages.len() as int) =~= plan.pages);
    }
}

proof fn lemma_page_level(
    plan: PagePlan,
    page_type: PageType,
    children: Seq<UnicodeBTreePageEntry>,
    start: int,
    level: u8,
    done: Seq<UnicodeBTreePageEntry>,
)
    requires
        0 <= start <= children.len(),
    ensures
        btree::with_page_level(plan, page_type, children, start, level, done) matches (
            after,
            Ok(next),
        ) ==> {
            &&& next.len() - done.len() == groups(children.len() - start, 20)
            &&& after.pages.len() - plan.pages.len() == next.len() - done.len()
            &&& after.pages.take(plan.pages.len() as int) == plan.pages
        },
    decreases children.len() - start,
{
    if start < children.len() {
        let end = levels::group_end(start, 20, children.len() as int);
        if let (next, Ok(block)) = btree::with_page(
            plan,
            PageContents::Intermediate(page_type, level, children.subrange(start, end)),
        ) {
            let more = done.push(UnicodeBTreePageEntry { key: children[start].key, block });
            lemma_page_level(next, page_type, children, end, level, more);
            if let (after, Ok(_)) = btree::with_page_level(
                next,
                page_type,
                children,
                end,
                level,
                more,
            ) {
                assert(next.pages.take(plan.pages.len() as int) =~= plan.pages);
                assert(after.pages.take(plan.pages.len() as int) =~= after.pages.take(
                    next.pages.len() as int,
                ).take(plan.pages.len() as int));
            }
        }
    } else {
        assert(plan.pages.take(plan.pages.len() as int) =~= plan.pages);
    }
}

proof fn lemma_pages_above(
    plan: PagePlan,
    page_type: PageType,
    children: Seq<UnicodeBTreePageEntry>,
    level: u8,
)
    requires
        children.len() > 0,
        level > 0,
    ensures
        btree::with_intermediate_pages(plan, page_type, children, level) matches (after, Ok(_))
            ==> {
            &&& after.pages.len() - plan.pages.len() == above(children.len() as int, 20)
            &&& after.pages.take(plan.pages.len() as int) == plan.pages
        },
    decreases children.len(),
{
    if children.len() <= 1 {
        assert(plan.pages.take(plan.pages.len() as int) =~= plan.pages);
    } else if level <= 8 {
        lemma_page_level(plan, page_type, children, 0, level, Seq::empty());
        lemma_fewer(children.len() as int, 20);
        btree::lemma_page_level_length(plan, page_type, children, 0, level, Seq::empty());
        if let (next, Ok(parents)) = btree::with_page_level(
            plan,
            page_type,
            children,
            0,
            level,
            Seq::empty(),
        ) {
            lemma_pages_above(next, page_type, parents, (level + 1) as u8);
            lemma_above(parents.len() as int, 20);
            if let (after, Ok(_)) = btree::with_intermediate_pages(
                next,
                page_type,
                parents,
                (level + 1) as u8,
            ) {
                assert(after.pages.take(plan.pages.len() as int) =~= after.pages.take(
                    next.pages.len() as int,
                ).take(plan.pages.len() as int));
            }
        }
    }
}

proof fn lemma_page_level_error(
    plan: PagePlan,
    page_type: PageType,
    children: Seq<UnicodeBTreePageEntry>,
    start: int,
    level: u8,
    done: Seq<UnicodeBTreePageEntry>,
)
    requires
        0 <= start <= children.len(),
    ensures
        btree::with_page_level(plan, page_type, children, start, level, done).1 matches Err(error)
            ==> error != PstError::Io(IoError::BTreeTooDeep),
    decreases children.len() - start,
{
    if start < children.len() {
        let end = levels::group_end(start, 20, children.len() as int);
        if let (next, Ok(block)) = btree::with_page(
            plan,
            PageContents::Intermediate(page_type, level, children.subrange(start, end)),
        ) {
            let more = done.push(UnicodeBTreePageEntry { key: children[start].key, block });
            lemma_page_level_error(next, page_type, children, end, level, more);
        }
    }
}

/// A B-tree has up to eight levels of pages above its leaves, the first of them at `level`. One that takes more is
/// refused, and no other is refused for that.
pub proof fn law_btree_levels(
    plan: PagePlan,
    page_type: PageType,
    children: Seq<UnicodeBTreePageEntry>,
    level: u8,
)
    requires
        children.len() > 0,
        1 <= level <= 9,
    ensures
        match btree::with_intermediate_pages(plan, page_type, children, level).1 {
            Ok(_) => level - 1 + depth(children.len() as int, 20) <= 8,
            Err(error) => error == PstError::Io(IoError::BTreeTooDeep) ==> level - 1 + depth(
                children.len() as int,
                20,
            ) > 8,
        },
    decreases children.len(),
{
    if children.len() > 1 {
        lemma_fewer(children.len() as int, 20);
        lemma_depth(groups(children.len() as int, 20), 20);
        if level <= 8 {
            lemma_page_level(plan, page_type, children, 0, level, Seq::empty());
            lemma_page_level_error(plan, page_type, children, 0, level, Seq::empty());
            btree::lemma_page_level_length(plan, page_type, children, 0, level, Seq::empty());
            if let (next, Ok(parents)) = btree::with_page_level(
                plan,
                page_type,
                children,
                0,
                level,
                Seq::empty(),
            ) {
                law_btree_levels(next, page_type, parents, (level + 1) as u8);
            }
        }
    }
}

/// The leaves of the B-tree of blocks are the first new pages, and hold 20 blocks each, in their order, but for the last.
/// A page above holds up to 20 pages, and there are no more pages than that takes.
pub proof fn law_block_btree_is_filled(
    plan: PagePlan,
    entries: Seq<UnicodeBlockBTreeEntry>,
    after: PagePlan,
    page: int,
)
    requires
        btree::with_block_btree(plan, entries).0 == after,
        btree::with_block_btree(plan, entries).1 is Ok,
        entries.len() > 0,
        0 <= page < groups(entries.len() as int, 20),
    ensures
        after.pages.len() - plan.pages.len() == groups(entries.len() as int, 20) + above(
            groups(entries.len() as int, 20),
            20,
        ),
        after.pages[plan.pages.len() + page].data matches PageContents::BlockLeaf(held) && {
            &&& held.len() == (if 20 * page + 20 <= entries.len() {
                20
            } else {
                entries.len() - 20 * page
            })
            &&& forall|i: int| 0 <= i < held.len() ==> #[trigger] held[i] == entries[20 * page + i]
        },
{
    reveal(btree::with_block_btree);
    lemma_block_leaves(plan, entries, 0, Seq::empty());
    if let (leaves, Ok(children)) = btree::with_block_leaves(plan, entries, 0, Seq::empty()) {
        lemma_pages_above(leaves, PageType::BlockBTree, children, 1);
        lemma_above(children.len() as int, 20);
        assert(after.pages[plan.pages.len() + page] == after.pages.take(
            leaves.pages.len() as int,
        )[plan.pages.len() + page]);
    }
}

/// The leaves of the B-tree of nodes are the first new pages, and hold 15 nodes each, in their order, but for the last. A
/// page above holds up to 20 pages, and there are no more pages than that takes.
pub proof fn law_node_btree_is_filled(
    plan: PagePlan,
    entries: Seq<UnicodeNodeBTreeEntry>,
    after: PagePlan,
    page: int,
)
    requires
        btree::with_node_btree(plan, entries).0 == after,
        btree::with_node_btree(plan, entries).1 is Ok,
        entries.len() > 0,
        0 <= page < groups(entries.len() as int, 15),
    ensures
        after.pages.len() - plan.pages.len() == groups(entries.len() as int, 15) + above(
            groups(entries.len() as int, 15),
            20,
        ),
        after.pages[plan.pages.len() + page].data matches PageContents::NodeLeaf(held) && {
            &&& held.len() == (if 15 * page + 15 <= entries.len() {
                15
            } else {
                entries.len() - 15 * page
            })
            &&& forall|i: int| 0 <= i < held.len() ==> #[trigger] held[i] == entries[15 * page + i]
        },
{
    reveal(btree::with_node_btree);
    lemma_node_leaves(plan, entries, 0, Seq::empty());
    if let (leaves, Ok(children)) = btree::with_node_leaves(plan, entries, 0, Seq::empty()) {
        lemma_pages_above(leaves, PageType::NodeBTree, children, 1);
        lemma_above(children.len() as int, 20);
        assert(after.pages[plan.pages.len() + page] == after.pages.take(
            leaves.pages.len() as int,
        )[plan.pages.len() + page]);
    }
}

proof fn lemma_tree_level(
    plan: BlockPlan,
    items: Seq<DataTreeItem>,
    start: int,
    level: u8,
    done: Seq<DataTreeItem>,
)
    requires
        0 <= start <= items.len(),
    ensures
        data_tree::with_tree_level(plan, items, start, level, done) matches (after, Ok(next)) ==> {
            &&& next.len() - done.len() == groups(items.len() - start, 1021)
            &&& after.blocks.len() - plan.blocks.len() == next.len() - done.len()
        },
    decreases items.len() - start,
{
    if start < items.len() {
        let end = levels::group_end(start, 1021, items.len() as int);
        let total = data_tree::item_total(items, start, end);
        if let (next, Ok(id)) = block::with_next_block(
            plan,
            true,
            BlockContents::DataTree(
                data_tree::item_ids(items.subrange(start, end)),
                level,
                total as u32,
            ),
        ) {
            lemma_tree_level(
                next,
                items,
                end,
                level,
                done.push(DataTreeItem { id, size: total as u32 }),
            );
        }
    }
}

proof fn lemma_tree_above(plan: BlockPlan, items: Seq<DataTreeItem>, level: u8)
    requires
        items.len() > 0,
    ensures
        data_tree::with_tree(plan, items, level) matches (after, Ok(_)) ==> after.blocks.len()
            - plan.blocks.len() == above(items.len() as int, 1021),
    decreases items.len(),
{
    if items.len() > 1 {
        lemma_tree_level(plan, items, 0, level, Seq::empty());
        data_tree::lemma_tree_level_length(plan, items, 0, level, Seq::empty());
        lemma_fewer(items.len() as int, 1021);
        if let (next, Ok(parents)) = data_tree::with_tree_level(
            plan,
            items,
            0,
            level,
            Seq::empty(),
        ) {
            lemma_tree_above(next, parents, (level + 1) as u8);
        }
    }
}

proof fn lemma_leaves(plan: BlockPlan, chunks: Seq<Seq<u8>>, index: int, done: Seq<DataTreeItem>)
    requires
        0 <= index <= chunks.len(),
    ensures
        data_tree::with_leaves(plan, chunks, index, done) matches (after, Ok(items)) ==> {
            &&& items.len() - done.len() == chunks.len() - index
            &&& after.blocks.len() - plan.blocks.len() == chunks.len() - index
        },
    decreases chunks.len() - index,
{
    if index < chunks.len() {
        if let (next, Ok(id)) = block::with_next_block(
            plan,
            false,
            BlockContents::Data(chunks[index]),
        ) {
            lemma_leaves(
                next,
                chunks,
                index + 1,
                done.push(DataTreeItem { id, size: chunks[index].len() as u32 }),
            );
        }
    }
}

/// A data tree has one block for every chunk, and above them blocks that name up to 1021 others each, and no more than
/// that takes.
pub proof fn law_data_tree_size(plan: BlockPlan, chunks: Seq<Seq<u8>>, after: BlockPlan)
    requires
        data_tree::with_data_tree(plan, chunks).0 == after,
        data_tree::with_data_tree(plan, chunks).1 is Ok,
    ensures
        after.blocks.len() - plan.blocks.len() == chunks.len() + above(chunks.len() as int, 1021),
{
    reveal(data_tree::with_data_tree);
    let filled = data_tree::filled_chunks(chunks);
    lemma_leaves(plan, filled, 0, Seq::empty());
    if let (leaves, Ok(items)) = data_tree::with_leaves(plan, filled, 0, Seq::empty()) {
        lemma_tree_above(leaves, items, 1);
    }
}

/// Data is cut into chunks of 8176 bytes, the last of them shorter where it has to be.
pub proof fn law_data_is_cut(data: Seq<u8>, index: int)
    requires
        0 <= index < groups(data.len() as int, 8176),
    ensures
        data_tree::data_chunks(data).len() == groups(data.len() as int, 8176),
        data_tree::data_chunks(data)[index].len() == (if 8176 * index + 8176 <= data.len() {
            8176
        } else {
            data.len() - 8176 * index
        }),
{
}

proof fn lemma_subnode_leaves(
    plan: BlockPlan,
    entries: Seq<UnicodeLeafSubNodeTreeEntry>,
    start: int,
    done: Seq<UnicodeIntermediateSubNodeTreeEntry>,
)
    requires
        0 <= start <= entries.len(),
    ensures
        subnode_tree::with_leaf_level(plan, entries, start, done) matches (after, Ok(next)) ==> {
            &&& next.len() - done.len() == groups(entries.len() - start, 340)
            &&& after.blocks.len() - plan.blocks.len() == next.len() - done.len()
        },
    decreases entries.len() - start,
{
    if start < entries.len() {
        let end = levels::group_end(start, 340, entries.len() as int);
        if let (next, Ok(block)) = block::with_next_block(
            plan,
            true,
            BlockContents::SubNodes(entries.subrange(start, end)),
        ) {
            lemma_subnode_leaves(
                next,
                entries,
                end,
                done.push(
                    UnicodeIntermediateSubNodeTreeEntry { node: entries[start].node, block },
                ),
            );
        }
    }
}

proof fn lemma_subnode_level(
    plan: BlockPlan,
    children: Seq<UnicodeIntermediateSubNodeTreeEntry>,
    start: int,
    level: u8,
    done: Seq<UnicodeIntermediateSubNodeTreeEntry>,
)
    requires
        0 <= start <= children.len(),
    ensures
        subnode_tree::with_intermediate_level(plan, children, start, level, done) matches (
            after,
            Ok(next),
        ) ==> {
            &&& next.len() - done.len() == groups(children.len() - start, 510)
            &&& after.blocks.len() - plan.blocks.len() == next.len() - done.len()
        },
    decreases children.len() - start,
{
    if start < children.len() {
        let end = levels::group_end(start, 510, children.len() as int);
        if let (next, Ok(block)) = block::with_next_block(
            plan,
            true,
            BlockContents::IntermediateSubNodes(children.subrange(start, end), level),
        ) {
            lemma_subnode_level(
                next,
                children,
                end,
                level,
                done.push(
                    UnicodeIntermediateSubNodeTreeEntry { node: children[start].node, block },
                ),
            );
        }
    }
}

proof fn lemma_subnodes_above(
    plan: BlockPlan,
    children: Seq<UnicodeIntermediateSubNodeTreeEntry>,
    level: u8,
)
    requires
        children.len() > 0,
    ensures
        subnode_tree::with_root(plan, children, level) matches (after, Ok(_)) ==> after.blocks.len()
            - plan.blocks.len() == above(children.len() as int, 510),
    decreases children.len(),
{
    if children.len() > 1 {
        lemma_subnode_level(plan, children, 0, level, Seq::empty());
        subnode_tree::lemma_intermediate_level_length(plan, children, 0, level, Seq::empty());
        lemma_fewer(children.len() as int, 510);
        if let (next, Ok(parents)) = subnode_tree::with_intermediate_level(
            plan,
            children,
            0,
            level,
            Seq::empty(),
        ) {
            lemma_subnodes_above(next, parents, (level + 1) as u8);
        }
    }
}

/// A subnode tree has a leaf block for every 340 subnodes, and above them blocks that name up to 510 others each, and no
/// more than that takes.
pub proof fn law_subnode_tree_size(
    plan: BlockPlan,
    entries: Seq<UnicodeLeafSubNodeTreeEntry>,
    after: BlockPlan,
)
    requires
        subnode_tree::with_subnode_tree(plan, entries).0 == after,
        subnode_tree::with_subnode_tree(plan, entries).1 is Ok,
    ensures
        after.blocks.len() - plan.blocks.len() == groups(entries.len() as int, 340) + above(
            groups(entries.len() as int, 340),
            510,
        ),
{
    reveal(subnode_tree::with_subnode_tree);
    sorting::law_sorted_by_key(entries, 0);
    let sorted = sorting::sorted_by_key(entries);
    lemma_subnode_leaves(plan, sorted, 0, Seq::empty());
    if let (leaves, Ok(children)) = subnode_tree::with_leaf_level(plan, sorted, 0, Seq::empty()) {
        lemma_subnodes_above(leaves, children, 1);
    }
}

} // verus!
