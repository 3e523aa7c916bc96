//! Subnode trees: the subnodes of a node in blocks.

use vstd::prelude::*;

use crate::error::{IoError, PstError};
use crate::ndb::block;
use crate::ndb::block::{
    BlockContents, BlockPlan, NewBlock, NewBlockData, UnicodeIntermediateSubNodeTreeEntry,
    UnicodeLeafSubNodeTreeEntry,
};
use crate::ndb::ids::UnicodeBlockId;
use crate::ndb::levels;
use crate::sorting;

verus! {

/// The number of entries of a leaf block.
pub const LEAF_CAPACITY: usize = 340;

/// The number of entries of an intermediate block.
pub const INTERMEDIATE_CAPACITY: usize = 510;

/// The plan with one leaf block for every group of entries from `start` on, after the blocks in
/// `done`.
pub open spec fn with_leaf_level(
    plan: BlockPlan,
    entries: Seq<UnicodeLeafSubNodeTreeEntry>,
    start: int,
    done: Seq<UnicodeIntermediateSubNodeTreeEntry>,
) -> (BlockPlan, Result<Seq<UnicodeIntermediateSubNodeTreeEntry>, PstError>)
    decreases entries.len() - start,
{
    if start >= entries.len() {
        (plan, Ok(done))
    } else {
        let end = levels::group_end(start, LEAF_CAPACITY as int, entries.len() as int);
        match block::with_next_block(
            plan,
            true,
            BlockContents::SubNodes(entries.subrange(start, end)),
        ) {
            (after, Err(error)) => (after, Err(error)),
            (after, Ok(block)) => with_leaf_level(
                after,
                entries,
                end,
                done.push(
                    UnicodeIntermediateSubNodeTreeEntry { node: entries[start].node, block },
                ),
            ),
        }
    }
}

/// The plan with one intermediate block for every group of children from `start` on, after the
/// blocks in `done`.
pub open spec fn with_intermediate_level(
    plan: BlockPlan,
    children: Seq<UnicodeIntermediateSubNodeTreeEntry>,
    start: int,
    level: u8,
    done: Seq<UnicodeIntermediateSubNodeTreeEntry>,
) -> (BlockPlan, Result<Seq<UnicodeIntermediateSubNodeTreeEntry>, PstError>)
    decreases children.len() - start,
{
    if start >= children.len() {
        (plan, Ok(done))
    } else {
        let end = levels::group_end(start, INTERMEDIATE_CAPACITY as int, children.len() as int);
        match block::with_next_block(
            plan,
            true,
            BlockContents::IntermediateSubNodes(children.subrange(start, end), level),
        ) {
            (after, Err(error)) => (after, Err(error)),
            (after, Ok(block)) => with_intermediate_level(
                after,
                children,
                end,
                level,
                done.push(
                    UnicodeIntermediateSubNodeTreeEntry { node: children[start].node, block },
                ),
            ),
        }
    }
}

pub proof fn lemma_leaf_level_length(
    plan: BlockPlan,
    entries: Seq<UnicodeLeafSubNodeTreeEntry>,
    start: int,
    done: Seq<UnicodeIntermediateSubNodeTreeEntry>,
)
    requires
        0 <= start <= entries.len(),
    ensures
        with_leaf_level(plan, entries, start, done) matches (after, Ok(next)) ==> next.len()
            == done.len() + levels::group_count(entries.len() - start, LEAF_CAPACITY as int)
            && after.next_bid == plan.next_bid + next.len() - done.len(),
    decreases entries.len() - start,
{
    if start < entries.len() {
        let end = levels::group_end(start, LEAF_CAPACITY as int, entries.len() as int);
        if let (after, Ok(block)) = block::with_next_block(
            plan,
            true,
            BlockContents::SubNodes(entries.subrange(start, end)),
        ) {
            lemma_leaf_level_length(
                after,
                entries,
                end,
                done.push(
                    UnicodeIntermediateSubNodeTreeEntry { node: entries[start].node, block },
                ),
            );
        }
    }
}

pub proof fn lemma_intermediate_level_length(
    plan: BlockPlan,
    children: Seq<UnicodeIntermediateSubNodeTreeEntry>,
    start: int,
    level: u8,
    done: Seq<UnicodeIntermediateSubNodeTreeEntry>,
)
    requires
        0 <= start <= children.len(),
    ensures
        with_intermediate_level(plan, children, start, level, done).1 matches Ok(next)
            ==> next.len() == done.len() + levels::group_count(
            children.len() - start,
            INTERMEDIATE_CAPACITY as int,
        ),
    decreases children.len() - start,
{
    if start < children.len() {
        let end = levels::group_end(start, INTERMEDIATE_CAPACITY as int, children.len() as int);
        if let (after, Ok(block)) = block::with_next_block(
            plan,
            true,
            BlockContents::IntermediateSubNodes(children.subrange(start, end), level),
        ) {
            lemma_intermediate_level_length(
                after,
                children,
                end,
                level,
                done.push(
                    UnicodeIntermediateSubNodeTreeEntry { node: children[start].node, block },
                ),
            );
        }
    }
}

/// The plan with intermediate blocks above `children` up to a single root, the first of them at
/// `level`.
pub open spec fn with_root(
    plan: BlockPlan,
    children: Seq<UnicodeIntermediateSubNodeTreeEntry>,
    level: u8,
) -> (BlockPlan, Result<UnicodeBlockId, PstError>)
    decreases children.len(),
{
    if children.len() <= 1 {
        (plan, Ok(children[0].block))
    } else {
        proof {
            lemma_intermediate_level_length(plan, children, 0, level, Seq::empty());
        }
        match with_intermediate_level(plan, children, 0, level, Seq::empty()) {
            (after, Err(error)) => (after, Err(error)),
            (after, Ok(next)) => with_root(after, next, (level + 1) as u8),
        }
    }
}

/// The plan with a subnode tree of the given entries, and its root.
#[verifier::opaque]
pub open spec fn with_subnode_tree(
    plan: BlockPlan,
    entries: Seq<UnicodeLeafSubNodeTreeEntry>,
) -> (BlockPlan, Result<UnicodeBlockId, PstError>) {
    if entries.len() == 0 {
        (plan, Err(PstError::Io(IoError::EmptySubnodeTree)))
    } else {
        match with_leaf_level(plan, sorting::sorted_by_key(entries), 0, Seq::empty()) {
            (after, Err(error)) => (after, Err(error)),
            (after, Ok(children)) => with_root(after, children, 1),
        }
    }
}

/// Plans one leaf block for every group of entries.
fn push_leaf_level(
    blocks: &mut Vec<NewBlock>,
    next_bid: &mut u64,
    next_offset: &mut u64,
    entries: &Vec<UnicodeLeafSubNodeTreeEntry>,
) -> (children: Result<Vec<UnicodeIntermediateSubNodeTreeEntry>, PstError>)
    ensures
        (
            block::plan(final(blocks)@, *final(next_bid), *final(next_offset)),
            crate::error::result_view(children),
        ) == with_leaf_level(
            block::plan(old(blocks)@, *old(next_bid), *old(next_offset)),
            entries@,
            0,
            Seq::empty(),
        ),
{
    let mut children: Vec<UnicodeIntermediateSubNodeTreeEntry> = Vec::new();
    let mut start: usize = 0;
    while start < entries.len()
        invariant
            start <= entries@.len(),
            with_leaf_level(
                block::plan(old(blocks)@, *old(next_bid), *old(next_offset)),
                entries@,
                0,
                Seq::empty(),
            ) == with_leaf_level(
                block::plan(blocks@, *next_bid, *next_offset),
                entries@,
                start as int,
                children@,
            ),
        decreases entries@.len() - start,
    {
        let end: usize = levels::next_group(start, LEAF_CAPACITY, entries.len());
        let group: Vec<UnicodeLeafSubNodeTreeEntry> = vstd::slice::slice_to_vec(
            vstd::slice::slice_subrange(entries.as_slice(), start, end),
        );
        assert(group@ =~= entries@.subrange(start as int, end as int));
        let block = block::push_block(
            blocks,
            next_bid,
            next_offset,
            true,
            NewBlockData::SubNodes(group),
        )?;
        children.push(UnicodeIntermediateSubNodeTreeEntry { node: entries[start].node, block });
        start = end;
    }
    Ok(children)
}

/// Plans one intermediate block for every group of children.
fn push_intermediate_level(
    blocks: &mut Vec<NewBlock>,
    next_bid: &mut u64,
    next_offset: &mut u64,
    children: &Vec<UnicodeIntermediateSubNodeTreeEntry>,
    level: u8,
) -> (parents: Result<Vec<UnicodeIntermediateSubNodeTreeEntry>, PstError>)
    ensures
        (
            block::plan(final(blocks)@, *final(next_bid), *final(next_offset)),
            crate::error::result_view(parents),
        ) == with_intermediate_level(
            block::plan(old(blocks)@, *old(next_bid), *old(next_offset)),
            children@,
            0,
            level,
            Seq::empty(),
        ),
{
    let mut parents: Vec<UnicodeIntermediateSubNodeTreeEntry> = Vec::new();
    let mut start: usize = 0;
    while start < children.len()
        invariant
            start <= children@.len(),
            with_intermediate_level(
                block::plan(old(blocks)@, *old(next_bid), *old(next_offset)),
                children@,
                0,
                level,
                Seq::empty(),
            ) == with_intermediate_level(
                block::plan(blocks@, *next_bid, *next_offset),
                children@,
                start as int,
                level,
                parents@,
            ),
        decreases children@.len() - start,
    {
        let end: usize = levels::next_group(start, INTERMEDIATE_CAPACITY, children.len());
        let group: Vec<UnicodeIntermediateSubNodeTreeEntry> = vstd::slice::slice_to_vec(
            vstd::slice::slice_subrange(children.as_slice(), start, end),
        );
        assert(group@ =~= children@.subrange(start as int, end as int));
        let block = block::push_block(
            blocks,
            next_bid,
            next_offset,
            true,
            NewBlockData::IntermediateSubNodes(group, level),
        )?;
        parents.push(UnicodeIntermediateSubNodeTreeEntry { node: children[start].node, block });
        start = end;
    }
    Ok(parents)
}

/// Plans a subnode tree of the given entries and returns its root. No entries are refused.
pub fn push_subnode_tree(
    blocks: &mut Vec<NewBlock>,
    next_bid: &mut u64,
    next_offset: &mut u64,
    entries: Vec<UnicodeLeafSubNodeTreeEntry>,
) -> (root: Result<UnicodeBlockId, PstError>)
    ensures
        (block::plan(final(blocks)@, *final(next_bid), *final(next_offset)), root)
            == with_subnode_tree(
            block::plan(old(blocks)@, *old(next_bid), *old(next_offset)),
            entries@,
        ),
{
    reveal(with_subnode_tree);
    if entries.len() == 0 {
        return Err(PstError::Io(IoError::EmptySubnodeTree));
    }
    let sorted = sorting::sort_by_key(&entries);
    proof {
        sorting::law_sorted_by_key(entries@, 0);
        lemma_leaf_level_length(
            block::plan(blocks@, *next_bid, *next_offset),
            sorted@,
            0,
            Seq::empty(),
        );
    }
    let mut children = push_leaf_level(blocks, next_bid, next_offset, &sorted)?;
    let mut level: u8 = 1;
    let _count: usize = children.len();
    while children.len() > 1
        invariant
            children@.len() >= 1,
            level >= 1,
            children@.len() <= levels::level_capacity((level - 1) as nat),
            with_subnode_tree(
                block::plan(old(blocks)@, *old(next_bid), *old(next_offset)),
                entries@,
            ) == with_root(block::plan(blocks@, *next_bid, *next_offset), children@, level),
        decreases children@.len(),
    {
        proof {
            lemma_intermediate_level_length(
                block::plan(blocks@, *next_bid, *next_offset),
                children@,
                0,
                level,
                Seq::empty(),
            );
            levels::lemma_level_capacity((level - 1) as nat);
        }
        children = push_intermediate_level(blocks, next_bid, next_offset, &children, level)?;
        level += 1;
    }
    Ok(children[0].block)
}

} // verus!
