//! What holds of planned blocks and of the trees in them.

use vstd::prelude::*;

use crate::bytes;
use crate::ndb::allocation;
use crate::ndb::block;
use crate::ndb::block::{
    BlockContents, BlockPlan, PlannedBlock, UnicodeIntermediateSubNodeTreeEntry,
    UnicodeLeafSubNodeTreeEntry, BLOCK_ALIGNMENT, MAX_BLOCK_DATA_SIZE,
};
use crate::ndb::data_tree;
use crate::ndb::data_tree::{DataTreeItem, DATA_TREE_CAPACITY};
use crate::ndb::ids;
use crate::ndb::ids::UnicodeBlockId;
use crate::ndb::levels;
use crate::ndb::subnode_tree;
use crate::sorting;

verus! {

/// Whether a block is well formed: its size is that of its contents and not beyond a block, and it
/// stands aligned where blocks may stand.
pub open spec fn block_wf(block: PlannedBlock) -> bool {
    &&& block.size == block.data.size()
    &&& 1 <= block.size <= MAX_BLOCK_DATA_SIZE
    &&& block.offset % BLOCK_ALIGNMENT == 0
    &&& allocation::range_is_free(block.offset as int, block::disk_size(block.size as int))
}

/// The end of a block in the file.
pub open spec fn block_end(block: PlannedBlock) -> int {
    block.offset + block::disk_size(block.size as int)
}

/// Whether a plan is well formed: its blocks are, they stand one behind the other, and no two have
/// the same index.
pub open spec fn plan_wf(plan: BlockPlan) -> bool {
    &&& forall|i: int|
        0 <= i < plan.blocks.len() ==> block_wf(#[trigger] plan.blocks[i]) && block_end(
            plan.blocks[i],
        ) <= plan.next_offset && plan.blocks[i].id.spec_index() < plan.next_bid
    &&& forall|i: int, j: int|
        0 <= i < j < plan.blocks.len() ==> block_end(#[trigger] plan.blocks[i]) <= (
        #[trigger] plan.blocks[j]).offset && plan.blocks[i].id.spec_index()
            != plan.blocks[j].id.spec_index()
}

/// Whether `after` holds the blocks of `before`, then blocks of new indices behind them.
pub open spec fn plan_grows(before: BlockPlan, after: BlockPlan) -> bool {
    &&& before.blocks.len() <= after.blocks.len()
    &&& after.blocks.take(before.blocks.len() as int) == before.blocks
    &&& before.next_bid <= after.next_bid
    &&& before.next_offset <= after.next_offset
    &&& forall|i: int|
        before.blocks.len() <= i < after.blocks.len() ==> (#[trigger] after.blocks[i]).offset
            >= before.next_offset && after.blocks[i].id.spec_index() >= before.next_bid
}

pub proof fn lemma_grows_transitive(first: BlockPlan, second: BlockPlan, third: BlockPlan)
    requires
        plan_grows(first, second),
        plan_grows(second, third),
    ensures
        plan_grows(first, third),
{
    assert(third.blocks.take(first.blocks.len() as int) =~= first.blocks) by {
        assert forall|i: int| 0 <= i < first.blocks.len() implies third.blocks[i]
            == first.blocks[i] by {
            assert(second.blocks.take(first.blocks.len() as int)[i] == first.blocks[i]);
            assert(third.blocks.take(second.blocks.len() as int)[i] == second.blocks[i]);
        }
    }
    assert forall|i: int|
        first.blocks.len() <= i < third.blocks.len() implies (#[trigger] third.blocks[i]).offset
        >= first.next_offset && third.blocks[i].id.spec_index() >= first.next_bid by {
        if i < second.blocks.len() {
            assert(third.blocks.take(second.blocks.len() as int)[i] == second.blocks[i]);
        }
    }
}

/// Planning a block keeps the plan well formed and only adds to it.
pub proof fn law_next_block(plan: BlockPlan, internal: bool, data: BlockContents)
    requires
        plan_wf(plan),
    ensures
        plan_wf(block::with_next_block(plan, internal, data).0),
        plan_grows(plan, block::with_next_block(plan, internal, data).0),
        block::with_next_block(plan, internal, data).1 matches Ok(id) ==> ({
            let after = block::with_next_block(plan, internal, data).0;
            &&& after.blocks.len() == plan.blocks.len() + 1
            &&& after.blocks.last().id == id
            &&& after.blocks.last().data == data
            &&& id.spec_is_internal() == internal
        }),
{
    let after = block::with_next_block(plan, internal, data).0;
    let size = data.size() as int;
    if let Ok(id) = UnicodeBlockId::spec_new(internal, plan.next_bid) {
        ids::law_block_id_round_trip(internal, plan.next_bid);
        if 1 <= size <= MAX_BLOCK_DATA_SIZE && plan.next_offset <= allocation::MAX_FILE_OFFSET {
            allocation::lemma_align_up(size + 16, 64);
            allocation::law_reserved_offset_is_first_fit(
                plan.next_offset as int,
                block::disk_size(size),
                64,
            );
            assert(after.blocks == plan.blocks.push(after.blocks.last()));
        }
    }
    assert(after.blocks.take(plan.blocks.len() as int) =~= plan.blocks);
}

/// The block with the given identifier.
pub open spec fn find_block(blocks: Seq<PlannedBlock>, id: UnicodeBlockId) -> Option<PlannedBlock>
    decreases blocks.len(),
{
    if blocks.len() == 0 {
        None
    } else if blocks.last().id == id {
        Some(blocks.last())
    } else {
        find_block(blocks.drop_last(), id)
    }
}

/// The data of a data tree whose root is `id` and which has `height` levels above its data blocks.
/// Every tree block has to name its level and the number of bytes below it.
pub open spec fn read_data(blocks: Seq<PlannedBlock>, id: UnicodeBlockId, height: nat) -> Option<
    Seq<u8>,
>
    decreases height, 0nat,
{
    match find_block(blocks, id) {
        None => None,
        Some(found) => match found.data {
            BlockContents::Data(data) => if height == 0 && id.value / 2 % 2 == 0 {
                Some(data)
            } else {
                None
            },
            BlockContents::DataTree(children, level, total) => if height == 0 || level != height
                || id.value / 2 % 2 == 0 {
                None
            } else {
                match read_children(blocks, children, children.len(), (height - 1) as nat) {
                    Some(data) => if data.len() == total {
                        Some(data)
                    } else {
                        None
                    },
                    None => None,
                }
            },
            _ => None,
        },
    }
}

/// The data of the first `count` data trees in `children`, one after the other.
pub open spec fn read_children(
    blocks: Seq<PlannedBlock>,
    children: Seq<UnicodeBlockId>,
    count: nat,
    height: nat,
) -> Option<Seq<u8>>
    decreases height, count + 1,
{
    if count == 0 {
        Some(Seq::empty())
    } else {
        match (
            read_children(blocks, children, (count - 1) as nat, height),
            read_data(blocks, children[count - 1], height),
        ) {
            (Some(before), Some(last)) => Some(before + last),
            _ => None,
        }
    }
}

/// The subnodes in a subnode tree whose root is `id` and which has `height` levels above its leaf
/// blocks. Every intermediate block has to name its level, and the first node below each child.
pub open spec fn read_subnodes(
    blocks: Seq<PlannedBlock>,
    id: UnicodeBlockId,
    height: nat,
) -> Option<Seq<UnicodeLeafSubNodeTreeEntry>>
    decreases height, 0nat,
{
    match find_block(blocks, id) {
        None => None,
        Some(found) => match found.data {
            BlockContents::SubNodes(entries) => if height == 0 && id.value / 2 % 2 == 1 {
                Some(entries)
            } else {
                None
            },
            BlockContents::IntermediateSubNodes(children, level) => if height == 0 || level
                != height || id.value / 2 % 2 == 0 {
                None
            } else {
                read_subnode_children(blocks, children, children.len(), (height - 1) as nat)
            },
            _ => None,
        },
    }
}

/// The subnodes in the first `count` subnode trees in `children`, one after the other.
pub open spec fn read_subnode_children(
    blocks: Seq<PlannedBlock>,
    children: Seq<UnicodeIntermediateSubNodeTreeEntry>,
    count: nat,
    height: nat,
) -> Option<Seq<UnicodeLeafSubNodeTreeEntry>>
    decreases height, count + 1,
{
    if count == 0 {
        Some(Seq::empty())
    } else {
        match (
            read_subnode_children(blocks, children, (count - 1) as nat, height),
            read_subnodes(blocks, children[count - 1].block, height),
        ) {
            (Some(before), Some(last)) => if last.len() > 0 && last[0].node == children[count
                - 1].node {
                Some(before + last)
            } else {
                None
            },
            _ => None,
        }
    }
}

proof fn lemma_find_block_index(blocks: Seq<PlannedBlock>, id: UnicodeBlockId)
    ensures
        find_block(blocks, id) matches Some(found) ==> found.id == id && exists|i: int|
            0 <= i < blocks.len() && blocks[i] == found,
    decreases blocks.len(),
{
    if blocks.len() > 0 {
        if blocks.last().id == id {
            assert(blocks[blocks.len() - 1] == blocks.last());
        } else {
            lemma_find_block_index(blocks.drop_last(), id);
            if let Some(found) = find_block(blocks.drop_last(), id) {
                let i = choose|i: int|
                    0 <= i < blocks.drop_last().len() && blocks.drop_last()[i] == found;
                assert(blocks[i] == found);
            }
        }
    }
}

proof fn lemma_find_block_grows(before: BlockPlan, after: BlockPlan, id: UnicodeBlockId)
    requires
        plan_wf(before),
        plan_grows(before, after),
        find_block(before.blocks, id) is Some,
    ensures
        find_block(after.blocks, id) == find_block(before.blocks, id),
    decreases after.blocks.len(),
{
    lemma_find_block_index(before.blocks, id);
    if after.blocks.len() == before.blocks.len() {
        assert(after.blocks.take(before.blocks.len() as int) =~= after.blocks);
    } else {
        let shorter = BlockPlan { blocks: after.blocks.drop_last(), ..after };
        assert(shorter.blocks.take(before.blocks.len() as int) =~= after.blocks.take(
            before.blocks.len() as int,
        ));
        assert(plan_grows(before, shorter)) by {
            assert forall|i: int|
                before.blocks.len() <= i < shorter.blocks.len() implies (
                #[trigger] shorter.blocks[i]).offset >= before.next_offset
                && shorter.blocks[i].id.spec_index() >= before.next_bid by {
                assert(shorter.blocks[i] == after.blocks[i]);
            }
        }
        lemma_find_block_grows(before, shorter, id);
        assert(after.blocks.last() == after.blocks[after.blocks.len() - 1]);
        assert(after.blocks.last().id.spec_index() >= before.next_bid);
    }
}

/// What could be read from a plan can be read from every plan that grows from it.
pub proof fn law_read_data_grows(
    before: BlockPlan,
    after: BlockPlan,
    id: UnicodeBlockId,
    height: nat,
)
    requires
        plan_wf(before),
        plan_grows(before, after),
        read_data(before.blocks, id, height) is Some,
    ensures
        read_data(after.blocks, id, height) == read_data(before.blocks, id, height),
    decreases height, 0nat,
{
    lemma_find_block_grows(before, after, id);
    if let BlockContents::DataTree(children, ..) = find_block(before.blocks, id)->Some_0.data {
        lemma_read_children_grows(
            before,
            after,
            children,
            children.len(),
            (height - 1) as nat,
        );
    }
}

proof fn lemma_read_children_grows(
    before: BlockPlan,
    after: BlockPlan,
    children: Seq<UnicodeBlockId>,
    count: nat,
    height: nat,
)
    requires
        plan_wf(before),
        plan_grows(before, after),
        read_children(before.blocks, children, count, height) is Some,
    ensures
        read_children(after.blocks, children, count, height) == read_children(
            before.blocks,
            children,
            count,
            height,
        ),
    decreases height, count + 1,
{
    if count > 0 {
        lemma_read_children_grows(before, after, children, (count - 1) as nat, height);
        law_read_data_grows(before, after, children[count - 1], height);
    }
}

/// What could be read from a plan can be read from every plan that grows from it.
pub proof fn law_read_subnodes_grows(
    before: BlockPlan,
    after: BlockPlan,
    id: UnicodeBlockId,
    height: nat,
)
    requires
        plan_wf(before),
        plan_grows(before, after),
        read_subnodes(before.blocks, id, height) is Some,
    ensures
        read_subnodes(after.blocks, id, height) == read_subnodes(before.blocks, id, height),
    decreases height, 0nat,
{
    lemma_find_block_grows(before, after, id);
    if let BlockContents::IntermediateSubNodes(children, ..) = find_block(
        before.blocks,
        id,
    )->Some_0.data {
        lemma_read_subnode_children_grows(
            before,
            after,
            children,
            children.len(),
            (height - 1) as nat,
        );
    }
}

proof fn lemma_read_subnode_children_grows(
    before: BlockPlan,
    after: BlockPlan,
    children: Seq<UnicodeIntermediateSubNodeTreeEntry>,
    count: nat,
    height: nat,
)
    requires
        plan_wf(before),
        plan_grows(before, after),
        read_subnode_children(before.blocks, children, count, height) is Some,
    ensures
        read_subnode_children(after.blocks, children, count, height) == read_subnode_children(
            before.blocks,
            children,
            count,
            height,
        ),
    decreases height, count + 1,
{
    if count > 0 {
        lemma_read_subnode_children_grows(
            before,
            after,
            children,
            (count - 1) as nat,
            height,
        );
        law_read_subnodes_grows(before, after, children[count - 1].block, height);
    }
}

/// The data of `items` in the plan, one after the other, with the right sizes.
spec fn items_hold(
    plan: BlockPlan,
    items: Seq<DataTreeItem>,
    parts: Seq<Seq<u8>>,
    height: nat,
) -> bool {
    &&& items.len() == parts.len()
    &&& forall|i: int|
        0 <= i < items.len() ==> read_data(plan.blocks, (#[trigger] items[i]).id, height) == Some(
            parts[i],
        ) && items[i].size == parts[i].len()
}

proof fn lemma_items_hold_grows(
    before: BlockPlan,
    after: BlockPlan,
    items: Seq<DataTreeItem>,
    parts: Seq<Seq<u8>>,
    height: nat,
)
    requires
        plan_wf(before),
        plan_grows(before, after),
        items_hold(before, items, parts, height),
    ensures
        items_hold(after, items, parts, height),
{
    assert forall|i: int| 0 <= i < items.len() implies read_data(
        after.blocks,
        (#[trigger] items[i]).id,
        height,
    ) == Some(parts[i]) && items[i].size == parts[i].len() by {
        law_read_data_grows(before, after, items[i].id, height);
    }
}

pub proof fn lemma_find_last(plan: BlockPlan)
    requires
        plan.blocks.len() > 0,
    ensures
        find_block(plan.blocks, plan.blocks.last().id) == Some(plan.blocks.last()),
{
}

proof fn lemma_leaves(
    plan: BlockPlan,
    chunks: Seq<Seq<u8>>,
    index: int,
    done: Seq<DataTreeItem>,
    height: nat,
)
    requires
        plan_wf(plan),
        0 <= index <= chunks.len(),
        height == 0,
        items_hold(plan, done, chunks.take(index), height),
        forall|i: int| 0 <= i < chunks.len() ==> (#[trigger] chunks[i]).len() <= u32::MAX,
    ensures
        ({
            let (after, result) = data_tree::with_leaves(plan, chunks, index, done);
            &&& plan_wf(after)
            &&& plan_grows(plan, after)
            &&& result matches Ok(items) ==> items_hold(after, items, chunks, height)
        }),
    decreases chunks.len() - index,
{
    if index < chunks.len() {
        let data = BlockContents::Data(chunks[index]);
        law_next_block(plan, false, data);
        if let (after, Ok(id)) = block::with_next_block(plan, false, data) {
            let next = done.push(DataTreeItem { id, size: chunks[index].len() as u32 });
            lemma_items_hold_grows(plan, after, done, chunks.take(index), height);
            lemma_find_last(after);
            assert(items_hold(after, next, chunks.take(index + 1), height)) by {
                assert forall|i: int| 0 <= i < next.len() implies read_data(
                    after.blocks,
                    (#[trigger] next[i]).id,
                    height,
                ) == Some(chunks.take(index + 1)[i]) && next[i].size == chunks.take(
                    index + 1,
                )[i].len() by {
                    if i < index {
                        assert(next[i] == done[i]);
                        assert(chunks.take(index)[i] == chunks.take(index + 1)[i]);
                    }
                }
            }
            lemma_leaves(after, chunks, index + 1, next, height);
            lemma_grows_transitive(
                plan,
                after,
                data_tree::with_leaves(after, chunks, index + 1, next).0,
            );
        }
    } else {
        assert(chunks.take(index) =~= chunks);
        assert(plan.blocks.take(plan.blocks.len() as int) =~= plan.blocks);
    }
}

/// The parts from `start` up to `end`, one after the other.
pub open spec fn joined<T>(parts: Seq<Seq<T>>, start: int, end: int) -> Seq<T>
    decreases end - start,
{
    if end <= start {
        Seq::empty()
    } else {
        joined(parts, start, end - 1) + parts[end - 1]
    }
}

proof fn lemma_joined_split<T>(parts: Seq<Seq<T>>, start: int, middle: int, end: int)
    requires
        start <= middle <= end,
    ensures
        joined(parts, start, end) == joined(parts, start, middle) + joined(parts, middle, end),
    decreases end - middle,
{
    if middle < end {
        lemma_joined_split(parts, start, middle, end - 1);
    }
    assert(joined(parts, start, end) =~= joined(parts, start, middle) + joined(parts, middle, end));
}

proof fn lemma_joined_concat(parts: Seq<Seq<u8>>, count: nat)
    ensures
        joined(parts, 0, count as int) == bytes::concat_prefix(parts, count),
    decreases count,
{
    if count > 0 {
        lemma_joined_concat(parts, (count - 1) as nat);
    }
}

proof fn lemma_joined_agrees<T>(
    left: Seq<Seq<T>>,
    right: Seq<Seq<T>>,
    start: int,
    end: int,
    shift: int,
)
    requires
        forall|i: int| start <= i < end ==> left[i] == right[i + shift],
    ensures
        joined(left, start, end) == joined(right, start + shift, end + shift),
    decreases end - start,
{
    if start < end {
        lemma_joined_agrees(left, right, start, end - 1, shift);
        assert(left[end - 1] == right[end - 1 + shift]);
    }
}

/// The groups of at most `size` parts from `start` on, each joined.
pub open spec fn level_parts<T>(parts: Seq<Seq<T>>, start: int, size: int) -> Seq<Seq<T>>
    decreases parts.len() - start,
    when size > 0
{
    if start >= parts.len() {
        Seq::empty()
    } else {
        let end = levels::group_end(start, size, parts.len() as int);
        seq![joined(parts, start, end)] + level_parts(parts, end, size)
    }
}

pub proof fn lemma_level_parts_join<T>(parts: Seq<Seq<T>>, start: int, size: int)
    requires
        0 <= start <= parts.len(),
        size > 0,
    ensures
        joined(level_parts(parts, start, size), 0, level_parts(parts, start, size).len() as int)
            == joined(parts, start, parts.len() as int),
    decreases parts.len() - start,
{
    if start < parts.len() {
        let end = levels::group_end(start, size, parts.len() as int);
        let first = joined(parts, start, end);
        let rest = level_parts(parts, end, size);
        let whole = level_parts(parts, start, size);
        lemma_level_parts_join(parts, end, size);
        lemma_joined_split(parts, start, end, parts.len() as int);
        lemma_joined_split(whole, 0, 1, whole.len() as int);
        assert(joined(whole, 0, 0) =~= Seq::empty());
        assert(joined(whole, 0, 1) =~= first);
        assert(whole =~= seq![first] + rest);
        lemma_joined_agrees(rest, whole, 0, rest.len() as int, 1);
    }
}

proof fn lemma_group_reads(
    plan: BlockPlan,
    items: Seq<DataTreeItem>,
    parts: Seq<Seq<u8>>,
    start: int,
    end: int,
    count: nat,
    height: nat,
)
    requires
        items_hold(plan, items, parts, height),
        0 <= start <= end <= items.len(),
        count <= end - start,
    ensures
        read_children(
            plan.blocks,
            data_tree::item_ids(items.subrange(start, end)),
            count,
            height,
        ) == Some(joined(parts, start, start + count)),
        data_tree::item_total(items, start, start + count) == joined(
            parts,
            start,
            start + count,
        ).len(),
    decreases count,
{
    if count > 0 {
        lemma_group_reads(plan, items, parts, start, end, (count - 1) as nat, height);
        let at = start + count - 1;
        assert(data_tree::item_ids(items.subrange(start, end))[count - 1] == items[at].id);
        assert(items_hold(plan, items, parts, height));
        assert(items[at].size == parts[at].len());
    }
}

proof fn lemma_tree_level(
    plan: BlockPlan,
    items: Seq<DataTreeItem>,
    parts: Seq<Seq<u8>>,
    start: int,
    level: u8,
    done: Seq<DataTreeItem>,
    done_parts: Seq<Seq<u8>>,
    height: nat,
)
    requires
        plan_wf(plan),
        0 <= start <= items.len(),
        items_hold(plan, items, parts, height),
        items_hold(plan, done, done_parts, height + 1),
        level == height + 1,
    ensures
        ({
            let (after, result) = data_tree::with_tree_level(plan, items, start, level, done);
            &&& plan_wf(after)
            &&& plan_grows(plan, after)
            &&& result matches Ok(next) ==> items_hold(
                after,
                next,
                done_parts + level_parts(parts, start, DATA_TREE_CAPACITY as int),
                height + 1,
            )
        }),
    decreases items.len() - start,
{
    if start < items.len() {
        let end = levels::group_end(start, DATA_TREE_CAPACITY as int, items.len() as int);
        let total = data_tree::item_total(items, start, end);
        let group = data_tree::item_ids(items.subrange(start, end));
        let data = BlockContents::DataTree(group, level, total as u32);
        law_next_block(plan, true, data);
        if total <= u32::MAX {
            if let (after, Ok(id)) = block::with_next_block(plan, true, data) {
                let whole = joined(parts, start, end);
                let next = done.push(DataTreeItem { id, size: total as u32 });
                let next_parts = done_parts.push(whole);
                lemma_items_hold_grows(plan, after, items, parts, height);
                lemma_items_hold_grows(plan, after, done, done_parts, height + 1);
                lemma_group_reads(after, items, parts, start, end, (end - start) as nat, height);
                lemma_find_last(after);
                assert(items_hold(after, next, next_parts, height + 1)) by {
                    assert forall|i: int| 0 <= i < next.len() implies read_data(
                        after.blocks,
                        (#[trigger] next[i]).id,
                        height + 1,
                    ) == Some(next_parts[i]) && next[i].size == next_parts[i].len() by {
                        if i < done.len() {
                            assert(next[i] == done[i]);
                        }
                    }
                }
                lemma_tree_level(
                    after,
                    items,
                    parts,
                    end,
                    level,
                    next,
                    next_parts,
                    height,
                );
                assert(next_parts + level_parts(parts, end, DATA_TREE_CAPACITY as int) =~= done_parts + level_parts(
                    parts,
                    start,
                    DATA_TREE_CAPACITY as int,
                ));
                lemma_grows_transitive(
                    plan,
                    after,
                    data_tree::with_tree_level(after, items, end, level, next).0,
                );
            }
        } else {
            assert(plan.blocks.take(plan.blocks.len() as int) =~= plan.blocks);
        }
    } else {
        assert(plan.blocks.take(plan.blocks.len() as int) =~= plan.blocks);
        assert(done_parts + level_parts(parts, start, DATA_TREE_CAPACITY as int) =~= done_parts);
    }
}

proof fn lemma_tree(
    plan: BlockPlan,
    items: Seq<DataTreeItem>,
    parts: Seq<Seq<u8>>,
    level: u8,
    height: nat,
) -> (top: nat)
    requires
        plan_wf(plan),
        0 < items.len() <= levels::level_capacity(height),
        items_hold(plan, items, parts, height),
        level == height + 1,
    ensures
        ({
            let (after, result) = data_tree::with_tree(plan, items, level);
            &&& plan_wf(after)
            &&& plan_grows(plan, after)
            &&& result matches Ok(root) ==> read_data(after.blocks, root, top) == Some(
                bytes::concat(parts),
            )
        }),
    decreases items.len(),
{
    if items.len() <= 1 {
        assert(plan.blocks.take(plan.blocks.len() as int) =~= plan.blocks);
        assert(items[0].size == parts[0].len());
        assert(bytes::concat_prefix(parts, 0) =~= Seq::empty());
        assert(bytes::concat(parts) =~= parts[0]);
        height
    } else {
        let (after, result) = data_tree::with_tree_level(plan, items, 0, level, Seq::empty());
        data_tree::lemma_tree_level_length(plan, items, 0, level, Seq::empty());
        levels::lemma_level_capacity(height);
        lemma_tree_level(plan, items, parts, 0, level, Seq::empty(), Seq::empty(), height);
        if let Ok(next) = result {
            let above = level_parts(parts, 0, DATA_TREE_CAPACITY as int);
            assert(Seq::<Seq<u8>>::empty() + above =~= above);
            let top = lemma_tree(after, next, above, (level + 1) as u8, height + 1);
            lemma_grows_transitive(
                plan,
                after,
                data_tree::with_tree(after, next, (level + 1) as u8).0,
            );
            lemma_level_parts_join(parts, 0, DATA_TREE_CAPACITY as int);
            lemma_joined_concat(parts, parts.len());
            lemma_joined_concat(above, above.len());
            top
        } else {
            height
        }
    }
}

/// A planned data tree reads back as its chunks, every chunk but the last filled up to the size of
/// a block, with the right level and the right number of bytes in every tree block. Planning it keeps
/// the plan well formed and only adds to it, whatever comes of it.
pub proof fn law_data_tree_round_trip(plan: BlockPlan, chunks: Seq<Seq<u8>>)
    requires
        plan_wf(plan),
    ensures
        plan_wf(data_tree::with_data_tree(plan, chunks).0),
        plan_grows(plan, data_tree::with_data_tree(plan, chunks).0),
        data_tree::with_data_tree(plan, chunks) matches (after, Ok(root)) ==> exists|height: nat|
            read_data(after.blocks, root, height) == Some(
                bytes::concat(data_tree::filled_chunks(chunks)),
            ),
{
    reveal(data_tree::with_data_tree);
    assert(plan.blocks.take(plan.blocks.len() as int) =~= plan.blocks);
    if chunks.len() > 0 && (forall|i: int|
        0 <= i < chunks.len() ==> 0 < (#[trigger] chunks[i]).len() <= MAX_BLOCK_DATA_SIZE) {
        let filled = data_tree::filled_chunks(chunks);
        assert forall|i: int| 0 <= i < filled.len() implies (#[trigger] filled[i]).len()
            <= u32::MAX by {
            assert(chunks[i].len() <= MAX_BLOCK_DATA_SIZE);
        }
        assert(filled.take(0) =~= Seq::empty());
        lemma_leaves(plan, filled, 0, Seq::empty(), 0);
        data_tree::lemma_leaves_length(plan, filled, 0, Seq::empty());
        if let (after, Ok(items)) = data_tree::with_leaves(plan, filled, 0, Seq::empty()) {
            let top = lemma_tree(after, items, filled, 1, 0);
            lemma_grows_transitive(plan, after, data_tree::with_tree(after, items, 1).0);
        }
    } else if exists|i: int| 0 <= i < chunks.len() && (#[trigger] chunks[i]).len() == 0 {
    } else if chunks.len() > 0 {
        let i = choose|i: int|
            0 <= i < chunks.len() && !(0 < (#[trigger] chunks[i]).len() <= MAX_BLOCK_DATA_SIZE);
        assert(chunks[i].len() > MAX_BLOCK_DATA_SIZE);
    }
}

/// Data split into chunks of a block is the same data: none of its chunks but the last is shorter
/// than a block, so nothing is filled up.
pub proof fn law_data_chunks_join(data: Seq<u8>)
    ensures
        bytes::concat(data_tree::filled_chunks(data_tree::data_chunks(data))) == data,
{
    let chunks = data_tree::data_chunks(data);
    let filled = data_tree::filled_chunks(chunks);
    assert forall|i: int| 0 <= i < chunks.len() implies #[trigger] filled[i] == chunks[i] by {
        assert(filled[i] =~= chunks[i]);
    }
    assert(filled =~= chunks);
    lemma_chunks_prefix(data, chunks.len());
    assert(data.take(
        levels::group_end(
            0,
            chunks.len() * MAX_BLOCK_DATA_SIZE,
            data.len() as int,
        ),
    ) =~= data);
}

proof fn lemma_chunks_prefix(data: Seq<u8>, count: nat)
    requires
        count <= data_tree::data_chunks(data).len(),
    ensures
        bytes::concat_prefix(data_tree::data_chunks(data), count) == data.take(
            levels::group_end(0, count * MAX_BLOCK_DATA_SIZE, data.len() as int),
        ),
    decreases count,
{
    if count > 0 {
        lemma_chunks_prefix(data, (count - 1) as nat);
        let chunk = data_tree::data_chunks(data)[count - 1];
        assert(bytes::concat_prefix(data_tree::data_chunks(data), count) =~= data.take(
            levels::group_end(0, count * MAX_BLOCK_DATA_SIZE, data.len() as int),
        ));
    } else {
        assert(data.take(0) =~= Seq::empty());
    }
}

/// The subnodes of `children` in the plan, one after the other, each child named by its first node.
spec fn children_hold(
    plan: BlockPlan,
    children: Seq<UnicodeIntermediateSubNodeTreeEntry>,
    parts: Seq<Seq<UnicodeLeafSubNodeTreeEntry>>,
    height: nat,
) -> bool {
    &&& children.len() == parts.len()
    &&& forall|i: int|
        0 <= i < children.len() ==> read_subnodes(
            plan.blocks,
            (#[trigger] children[i]).block,
            height,
        ) == Some(parts[i]) && parts[i].len() > 0 && parts[i][0].node == children[i].node
}

proof fn lemma_children_hold_grows(
    before: BlockPlan,
    after: BlockPlan,
    children: Seq<UnicodeIntermediateSubNodeTreeEntry>,
    parts: Seq<Seq<UnicodeLeafSubNodeTreeEntry>>,
    height: nat,
)
    requires
        plan_wf(before),
        plan_grows(before, after),
        children_hold(before, children, parts, height),
    ensures
        children_hold(after, children, parts, height),
{
    assert forall|i: int| 0 <= i < children.len() implies read_subnodes(
        after.blocks,
        (#[trigger] children[i]).block,
        height,
    ) == Some(parts[i]) && parts[i].len() > 0 && parts[i][0].node == children[i].node by {
        law_read_subnodes_grows(before, after, children[i].block, height);
    }
}

/// `entries` one by one.
pub open spec fn singletons<T>(entries: Seq<T>) -> Seq<Seq<T>> {
    Seq::new(entries.len(), |i: int| seq![entries[i]])
}

pub proof fn lemma_joined_singletons<T>(entries: Seq<T>, start: int, end: int)
    requires
        0 <= start <= end <= entries.len(),
    ensures
        joined(singletons(entries), start, end) == entries.subrange(start, end),
    decreases end - start,
{
    if start < end {
        lemma_joined_singletons(entries, start, end - 1);
    }
    assert(joined(singletons(entries), start, end) =~= entries.subrange(start, end));
}

proof fn lemma_leaf_level(
    plan: BlockPlan,
    entries: Seq<UnicodeLeafSubNodeTreeEntry>,
    start: int,
    done: Seq<UnicodeIntermediateSubNodeTreeEntry>,
    done_parts: Seq<Seq<UnicodeLeafSubNodeTreeEntry>>,
)
    requires
        plan_wf(plan),
        0 <= start <= entries.len(),
        children_hold(plan, done, done_parts, 0),
    ensures
        ({
            let (after, result) = subnode_tree::with_leaf_level(plan, entries, start, done);
            &&& plan_wf(after)
            &&& plan_grows(plan, after)
            &&& result matches Ok(children) ==> children_hold(
                after,
                children,
                done_parts + level_parts(
                    singletons(entries),
                    start,
                    subnode_tree::LEAF_CAPACITY as int,
                ),
                0,
            )
        }),
    decreases entries.len() - start,
{
    let size = subnode_tree::LEAF_CAPACITY as int;
    if start < entries.len() {
        let end = levels::group_end(start, size, entries.len() as int);
        let group = entries.subrange(start, end);
        let data = BlockContents::SubNodes(group);
        law_next_block(plan, true, data);
        if let (after, Ok(block)) = block::with_next_block(plan, true, data) {
            let next = done.push(
                UnicodeIntermediateSubNodeTreeEntry { node: entries[start].node, block },
            );
            let next_parts = done_parts.push(group);
            lemma_children_hold_grows(plan, after, done, done_parts, 0);
            lemma_find_last(after);
            assert(children_hold(after, next, next_parts, 0)) by {
                assert forall|i: int| 0 <= i < next.len() implies read_subnodes(
                    after.blocks,
                    (#[trigger] next[i]).block,
                    0,
                ) == Some(next_parts[i]) && next_parts[i].len() > 0 && next_parts[i][0].node
                    == next[i].node by {
                    if i < done.len() {
                        assert(next[i] == done[i]);
                    }
                }
            }
            lemma_leaf_level(after, entries, end, next, next_parts);
            lemma_joined_singletons(entries, start, end);
            assert(next_parts + level_parts(singletons(entries), end, size) =~= done_parts
                + level_parts(singletons(entries), start, size));
            lemma_grows_transitive(
                plan,
                after,
                subnode_tree::with_leaf_level(after, entries, end, next).0,
            );
        }
    } else {
        assert(plan.blocks.take(plan.blocks.len() as int) =~= plan.blocks);
        assert(done_parts + level_parts(singletons(entries), start, size) =~= done_parts);
    }
}

proof fn lemma_subnode_group_reads(
    plan: BlockPlan,
    children: Seq<UnicodeIntermediateSubNodeTreeEntry>,
    parts: Seq<Seq<UnicodeLeafSubNodeTreeEntry>>,
    start: int,
    end: int,
    count: nat,
    height: nat,
)
    requires
        children_hold(plan, children, parts, height),
        0 <= start <= end <= children.len(),
        count <= end - start,
    ensures
        read_subnode_children(plan.blocks, children.subrange(start, end), count, height) == Some(
            joined(parts, start, start + count),
        ),
        count > 0 ==> joined(parts, start, start + count).len() > 0 && joined(
            parts,
            start,
            start + count,
        )[0].node == children[start].node,
    decreases count,
{
    if count > 0 {
        lemma_subnode_group_reads(
            plan,
            children,
            parts,
            start,
            end,
            (count - 1) as nat,
            height,
        );
        let at = start + count - 1;
        assert(children.subrange(start, end)[count - 1] == children[at]);
        assert(parts[at].len() > 0 && parts[at][0].node == children[at].node);
    }
}

proof fn lemma_intermediate_level(
    plan: BlockPlan,
    children: Seq<UnicodeIntermediateSubNodeTreeEntry>,
    parts: Seq<Seq<UnicodeLeafSubNodeTreeEntry>>,
    start: int,
    level: u8,
    done: Seq<UnicodeIntermediateSubNodeTreeEntry>,
    done_parts: Seq<Seq<UnicodeLeafSubNodeTreeEntry>>,
    height: nat,
)
    requires
        plan_wf(plan),
        0 <= start <= children.len(),
        children_hold(plan, children, parts, height),
        children_hold(plan, done, done_parts, height + 1),
        level == height + 1,
    ensures
        ({
            let (after, result) = subnode_tree::with_intermediate_level(
                plan,
                children,
                start,
                level,
                done,
            );
            &&& plan_wf(after)
            &&& plan_grows(plan, after)
            &&& result matches Ok(next) ==> children_hold(
                after,
                next,
                done_parts + level_parts(parts, start, subnode_tree::INTERMEDIATE_CAPACITY as int),
                height + 1,
            )
        }),
    decreases children.len() - start,
{
    let size = subnode_tree::INTERMEDIATE_CAPACITY as int;
    if start < children.len() {
        let end = levels::group_end(start, size, children.len() as int);
        let group = children.subrange(start, end);
        let data = BlockContents::IntermediateSubNodes(group, level);
        law_next_block(plan, true, data);
        if let (after, Ok(block)) = block::with_next_block(plan, true, data) {
            let whole = joined(parts, start, end);
            let next = done.push(
                UnicodeIntermediateSubNodeTreeEntry { node: children[start].node, block },
            );
            let next_parts = done_parts.push(whole);
            lemma_children_hold_grows(plan, after, children, parts, height);
            lemma_children_hold_grows(plan, after, done, done_parts, height + 1);
            lemma_subnode_group_reads(
                after,
                children,
                parts,
                start,
                end,
                (end - start) as nat,
                height,
            );
            lemma_find_last(after);
            assert(children_hold(after, next, next_parts, height + 1)) by {
                assert forall|i: int| 0 <= i < next.len() implies read_subnodes(
                    after.blocks,
                    (#[trigger] next[i]).block,
                    height + 1,
                ) == Some(next_parts[i]) && next_parts[i].len() > 0 && next_parts[i][0].node
                    == next[i].node by {
                    if i < done.len() {
                        assert(next[i] == done[i]);
                    }
                }
            }
            lemma_intermediate_level(
                after,
                children,
                parts,
                end,
                level,
                next,
                next_parts,
                height,
            );
            assert(next_parts + level_parts(parts, end, size) =~= done_parts + level_parts(
                parts,
                start,
                size,
            ));
            lemma_grows_transitive(
                plan,
                after,
                subnode_tree::with_intermediate_level(after, children, end, level, next).0,
            );
        }
    } else {
        assert(plan.blocks.take(plan.blocks.len() as int) =~= plan.blocks);
        assert(done_parts + level_parts(parts, start, size) =~= done_parts);
    }
}

proof fn lemma_root(
    plan: BlockPlan,
    children: Seq<UnicodeIntermediateSubNodeTreeEntry>,
    parts: Seq<Seq<UnicodeLeafSubNodeTreeEntry>>,
    level: u8,
    height: nat,
) -> (top: nat)
    requires
        plan_wf(plan),
        0 < children.len() <= levels::level_capacity(height),
        children_hold(plan, children, parts, height),
        level == height + 1,
    ensures
        ({
            let (after, result) = subnode_tree::with_root(plan, children, level);
            &&& plan_wf(after)
            &&& plan_grows(plan, after)
            &&& result matches Ok(root) ==> read_subnodes(after.blocks, root, top) == Some(
                joined(parts, 0, parts.len() as int),
            )
        }),
    decreases children.len(),
{
    if children.len() <= 1 {
        assert(plan.blocks.take(plan.blocks.len() as int) =~= plan.blocks);
        assert(parts[0].len() > 0 && parts[0][0].node == children[0].node);
        assert(joined(parts, 0, 0) =~= Seq::empty());
        assert(joined(parts, 0, 1) =~= parts[0]);
        height
    } else {
        let (after, result) = subnode_tree::with_intermediate_level(
            plan,
            children,
            0,
            level,
            Seq::empty(),
        );
        subnode_tree::lemma_intermediate_level_length(plan, children, 0, level, Seq::empty());
        levels::lemma_level_capacity(height);
        lemma_intermediate_level(
            plan,
            children,
            parts,
            0,
            level,
            Seq::empty(),
            Seq::empty(),
            height,
        );
        if let Ok(next) = result {
            let above = level_parts(parts, 0, subnode_tree::INTERMEDIATE_CAPACITY as int);
            assert(Seq::<Seq<UnicodeLeafSubNodeTreeEntry>>::empty() + above =~= above);
            let top = lemma_root(after, next, above, (level + 1) as u8, height + 1);
            lemma_grows_transitive(
                plan,
                after,
                subnode_tree::with_root(after, next, (level + 1) as u8).0,
            );
            lemma_level_parts_join(parts, 0, subnode_tree::INTERMEDIATE_CAPACITY as int);
            top
        } else {
            height
        }
    }
}

/// A planned subnode tree reads back as its entries by ascending node, with the right level in
/// every intermediate block and every child named by the first node below it. Planning it keeps the
/// plan well formed and only adds to it, whatever comes of it.
pub proof fn law_subnode_tree_round_trip(
    plan: BlockPlan,
    entries: Seq<UnicodeLeafSubNodeTreeEntry>,
)
    requires
        plan_wf(plan),
    ensures
        plan_wf(subnode_tree::with_subnode_tree(plan, entries).0),
        plan_grows(plan, subnode_tree::with_subnode_tree(plan, entries).0),
        subnode_tree::with_subnode_tree(plan, entries) matches (after, Ok(root)) ==> exists|
            height: nat,
        |
            read_subnodes(after.blocks, root, height) == Some(sorting::sorted_by_key(entries)),
{
    reveal(subnode_tree::with_subnode_tree);
    assert(plan.blocks.take(plan.blocks.len() as int) =~= plan.blocks);
    if entries.len() > 0 {
        let sorted = sorting::sorted_by_key(entries);
        let size = subnode_tree::LEAF_CAPACITY as int;
        sorting::law_sorted_by_key(entries, 0);
        lemma_leaf_level(plan, sorted, 0, Seq::empty(), Seq::empty());
        subnode_tree::lemma_leaf_level_length(plan, sorted, 0, Seq::empty());
        if let (after, Ok(children)) = subnode_tree::with_leaf_level(
            plan,
            sorted,
            0,
            Seq::empty(),
        ) {
            let parts = level_parts(singletons(sorted), 0, size);
            assert(Seq::<Seq<UnicodeLeafSubNodeTreeEntry>>::empty() + parts =~= parts);
            let top = lemma_root(after, children, parts, 1, 0);
            lemma_grows_transitive(plan, after, subnode_tree::with_root(after, children, 1).0);
            lemma_level_parts_join(singletons(sorted), 0, size);
            lemma_joined_singletons(sorted, 0, sorted.len() as int);
            assert(sorted.subrange(0, sorted.len() as int) =~= sorted);
        }
    }
}

/// Whether every chunk but the last fills a block, and the last one has bytes and fits.
pub open spec fn chunks_full(chunks: Seq<Seq<u8>>) -> bool {
    &&& chunks.len() > 0
    &&& 1 <= chunks.last().len() <= MAX_BLOCK_DATA_SIZE
    &&& forall|i: int|
        0 <= i < chunks.len() - 1 ==> (#[trigger] chunks[i]).len() == MAX_BLOCK_DATA_SIZE
}

proof fn lemma_full_prefix(chunks: Seq<Seq<u8>>, count: nat)
    requires
        chunks_full(chunks),
        count < chunks.len(),
    ensures
        bytes::length_prefix(chunks, count) == count * MAX_BLOCK_DATA_SIZE,
    decreases count,
{
    if count > 0 {
        lemma_full_prefix(chunks, (count - 1) as nat);
        assert(chunks[count - 1].len() == MAX_BLOCK_DATA_SIZE);
    }
}

/// Chunks that fill their blocks are found again in the joined data, block by block.
pub proof fn law_full_chunks_split(chunks: Seq<Seq<u8>>)
    requires
        chunks_full(chunks),
    ensures
        data_tree::filled_chunks(chunks) == chunks,
        data_tree::data_chunks(bytes::concat(chunks)) == chunks,
{
    let size = MAX_BLOCK_DATA_SIZE as int;
    let last = chunks.len() - 1;
    assert forall|i: int| 0 <= i < chunks.len() implies #[trigger] data_tree::filled_chunks(
        chunks,
    )[i] == chunks[i] by {
        if i < last {
            assert(chunks[i].len() == MAX_BLOCK_DATA_SIZE);
            assert(bytes::zero_padded(chunks[i], MAX_BLOCK_DATA_SIZE as nat) =~= chunks[i]);
        }
    }
    assert(data_tree::filled_chunks(chunks) =~= chunks);
    let data = bytes::concat(chunks);
    bytes::lemma_concat_length(chunks, chunks.len());
    lemma_full_prefix(chunks, last as nat);
    assert(data.len() == last * size + chunks.last().len());
    let split = data_tree::data_chunks(data);
    assert(levels::group_count(data.len() as int, size) == chunks.len());
    assert forall|i: int| 0 <= i < chunks.len() implies #[trigger] split[i] == chunks[i] by {
        lemma_full_prefix(chunks, i as nat);
        bytes::lemma_concat_part(chunks, i, chunks.len());
        if i < last {
            assert(chunks[i].len() == MAX_BLOCK_DATA_SIZE);
        }
    }
    assert(split =~= chunks);
}

} // verus!
