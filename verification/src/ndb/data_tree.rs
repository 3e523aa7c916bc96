//! Data trees: data of any length in blocks.

use vstd::prelude::*;

use crate::bytes;
use crate::error::{IoError, PstError};
use crate::ndb::block;
use crate::ndb::block::{BlockContents, BlockPlan, NewBlock, NewBlockData, MAX_BLOCK_DATA_SIZE};
use crate::ndb::ids::UnicodeBlockId;
use crate::ndb::levels;

verus! {

/// The number of children of a data tree block.
pub const DATA_TREE_CAPACITY: usize = 1021;

/// A block of a data tree and the number of data bytes in it and below it.
#[derive(Clone, Copy, PartialEq, Eq, Debug, Structural)]
pub struct DataTreeItem {
    pub id: UnicodeBlockId,
    pub size: u32,
}

/// The identifiers of `items`.
pub open spec fn item_ids(items: Seq<DataTreeItem>) -> Seq<UnicodeBlockId> {
    Seq::new(items.len(), |i: int| items[i].id)
}

/// The number of bytes in the items from `start` up to `end`.
pub open spec fn item_total(items: Seq<DataTreeItem>, start: int, end: int) -> nat
    decreases end - start,
{
    if end <= start {
        0
    } else {
        item_total(items, start, end - 1) + items[end - 1].size as nat
    }
}

/// The chunks of a data tree: every chunk but the last is filled up to the size of a block.
pub open spec fn filled_chunks(chunks: Seq<Seq<u8>>) -> Seq<Seq<u8>> {
    Seq::new(
        chunks.len(),
        |i: int|
            if i + 1 < chunks.len() {
                bytes::zero_padded(chunks[i], MAX_BLOCK_DATA_SIZE as nat)
            } else {
                chunks[i]
            },
    )
}

/// The plan with a data block for every chunk from `index` on, after the items in `done`.
pub open spec fn with_leaves(
    plan: BlockPlan,
    chunks: Seq<Seq<u8>>,
    index: int,
    done: Seq<DataTreeItem>,
) -> (BlockPlan, Result<Seq<DataTreeItem>, PstError>)
    decreases chunks.len() - index,
{
    if index >= chunks.len() {
        (plan, Ok(done))
    } else {
        match block::with_next_block(plan, false, BlockContents::Data(chunks[index])) {
            (after, Err(error)) => (after, Err(error)),
            (after, Ok(id)) => with_leaves(
                after,
                chunks,
                index + 1,
                done.push(DataTreeItem { id, size: chunks[index].len() as u32 }),
            ),
        }
    }
}

/// The plan with one tree block for every group of items from `start` on, after those in `done`.
pub open spec fn with_tree_level(
    plan: BlockPlan,
    items: Seq<DataTreeItem>,
    start: int,
    level: u8,
    done: Seq<DataTreeItem>,
) -> (BlockPlan, Result<Seq<DataTreeItem>, PstError>)
    decreases items.len() - start,
{
    if start >= items.len() {
        (plan, Ok(done))
    } else {
        let end = levels::group_end(start, DATA_TREE_CAPACITY as int, items.len() as int);
        let total = item_total(items, start, end);
        if total > u32::MAX {
            (plan, Err(PstError::IntegerConversion))
        } else {
            match block::with_next_block(
                plan,
                true,
                BlockContents::DataTree(
                    item_ids(items.subrange(start, end)),
                    level,
                    total as u32,
                ),
            ) {
                (after, Err(error)) => (after, Err(error)),
                (after, Ok(id)) => with_tree_level(
                    after,
                    items,
                    end,
                    level,
                    done.push(DataTreeItem { id, size: total as u32 }),
                ),
            }
        }
    }
}

pub proof fn lemma_tree_level_length(
    plan: BlockPlan,
    items: Seq<DataTreeItem>,
    start: int,
    level: u8,
    done: Seq<DataTreeItem>,
)
    requires
        0 <= start <= items.len(),
    ensures
        with_tree_level(plan, items, start, level, done).1 matches Ok(next) ==> next.len()
            == done.len() + levels::group_count(items.len() - start, DATA_TREE_CAPACITY as int),
    decreases items.len() - start,
{
    if start < items.len() {
        let end = levels::group_end(start, DATA_TREE_CAPACITY as int, items.len() as int);
        let total = item_total(items, start, end);
        if let (after, Ok(id)) = block::with_next_block(
            plan,
            true,
            BlockContents::DataTree(item_ids(items.subrange(start, end)), level, total as u32),
        ) {
            lemma_tree_level_length(
                after,
                items,
                end,
                level,
                done.push(DataTreeItem { id, size: total as u32 }),
            );
        }
    }
}

/// The plan with tree blocks above `items` up to a single root, the first of them at `level`.
pub open spec fn with_tree(plan: BlockPlan, items: Seq<DataTreeItem>, level: u8) -> (
    BlockPlan,
    Result<UnicodeBlockId, PstError>,
)
    decreases items.len(),
{
    if items.len() <= 1 {
        (plan, Ok(items[0].id))
    } else {
        proof {
            lemma_tree_level_length(plan, items, 0, level, Seq::empty());
        }
        match with_tree_level(plan, items, 0, level, Seq::empty()) {
            (after, Err(error)) => (after, Err(error)),
            (after, Ok(next)) => with_tree(after, next, (level + 1) as u8),
        }
    }
}

/// The plan with a data tree of the given chunks, and its root.
#[verifier::opaque]
pub open spec fn with_data_tree(plan: BlockPlan, chunks: Seq<Seq<u8>>) -> (
    BlockPlan,
    Result<UnicodeBlockId, PstError>,
) {
    if chunks.len() == 0 || exists|i: int| 0 <= i < chunks.len() && (#[trigger] chunks[i]).len()
        == 0 {
        (plan, Err(PstError::Io(IoError::EmptyDataTreeBlock)))
    } else if exists|i: int|
        0 <= i < chunks.len() && (#[trigger] chunks[i]).len() > MAX_BLOCK_DATA_SIZE {
        (plan, Err(PstError::Io(IoError::DataTreeBlockTooLarge)))
    } else {
        match with_leaves(plan, filled_chunks(chunks), 0, Seq::empty()) {
            (after, Err(error)) => (after, Err(error)),
            (after, Ok(items)) => with_tree(after, items, 1),
        }
    }
}

pub proof fn lemma_leaves_length(
    plan: BlockPlan,
    chunks: Seq<Seq<u8>>,
    index: int,
    done: Seq<DataTreeItem>,
)
    requires
        0 <= index <= chunks.len(),
    ensures
        with_leaves(plan, chunks, index, done) matches (after, Ok(items)) ==> items.len()
            == done.len() + chunks.len() - index && after.next_bid == plan.next_bid + chunks.len()
            - index,
    decreases chunks.len() - index,
{
    if index < chunks.len() {
        if let (after, Ok(id)) = block::with_next_block(
            plan,
            false,
            BlockContents::Data(chunks[index]),
        ) {
            lemma_leaves_length(
                after,
                chunks,
                index + 1,
                done.push(DataTreeItem { id, size: chunks[index].len() as u32 }),
            );
        }
    }
}

/// `data` in chunks of the size of a block, the last one shorter where it has to be.
pub open spec fn data_chunks(data: Seq<u8>) -> Seq<Seq<u8>> {
    Seq::new(
        levels::group_count(data.len() as int, MAX_BLOCK_DATA_SIZE as int) as nat,
        |i: int|
            data.subrange(
                i * MAX_BLOCK_DATA_SIZE,
                levels::group_end(
                    i * MAX_BLOCK_DATA_SIZE,
                    MAX_BLOCK_DATA_SIZE as int,
                    data.len() as int,
                ),
            ),
    )
}

proof fn lemma_item_total_monotone(items: Seq<DataTreeItem>, start: int, low: int, high: int)
    requires
        start <= low <= high,
    ensures
        item_total(items, start, low) <= item_total(items, start, high),
    decreases high - low,
{
    if low < high {
        lemma_item_total_monotone(items, start, low, high - 1);
    }
}

/// Fills every chunk but the last up to the size of a block.
fn fill_chunks(chunks: Vec<Vec<u8>>) -> (filled: Vec<Vec<u8>>)
    ensures
        bytes::views(filled@) == filled_chunks(bytes::views(chunks@)),
{
    let mut chunks = chunks;
    let ghost given = bytes::views(chunks@);
    let count: usize = chunks.len();
    let mut filled: Vec<Vec<u8>> = Vec::new();
    let mut i: usize = 0;
    while i < count
        invariant
            i <= count,
            chunks@.len() == count,
            given.len() == count,
            filled@.len() == i,
            forall|j: int| i <= j < count ==> (#[trigger] chunks@[j])@ == given[j],
            forall|j: int|
                0 <= j < i ==> (#[trigger] filled@[j])@ == filled_chunks(given)[j],
        decreases count - i,
    {
        let mut chunk: Vec<u8> = Vec::new();
        std::mem::swap(&mut chunk, &mut chunks[i]);
        if i + 1 < count && chunk.len() < MAX_BLOCK_DATA_SIZE {
            let missing: usize = MAX_BLOCK_DATA_SIZE - chunk.len();
            bytes::push_zeros(&mut chunk, missing);
        }
        assert(chunk@ =~= filled_chunks(given)[i as int]);
        filled.push(chunk);
        i += 1;
    }
    assert(bytes::views(filled@) =~= filled_chunks(given));
    filled
}

/// Plans a data block for every chunk.
fn push_leaves(
    blocks: &mut Vec<NewBlock>,
    next_bid: &mut u64,
    next_offset: &mut u64,
    chunks: Vec<Vec<u8>>,
) -> (items: Result<Vec<DataTreeItem>, PstError>)
    requires
        forall|i: int| 0 <= i < chunks@.len() ==> (#[trigger] chunks@[i])@.len() <= u32::MAX,
    ensures
        (
            block::plan(final(blocks)@, *final(next_bid), *final(next_offset)),
            crate::error::result_view(items),
        ) == with_leaves(
            block::plan(old(blocks)@, *old(next_bid), *old(next_offset)),
            bytes::views(chunks@),
            0,
            Seq::empty(),
        ),
{
    let ghost before = block::plan(blocks@, *next_bid, *next_offset);
    let ghost given = bytes::views(chunks@);
    let mut rest = chunks;
    let count: usize = rest.len();
    let mut items: Vec<DataTreeItem> = Vec::new();
    let mut i: usize = 0;
    while i < count
        invariant
            i <= count,
            rest@.len() == count,
            given.len() == count,
            given == bytes::views(chunks@),
            before == block::plan(old(blocks)@, *old(next_bid), *old(next_offset)),
            forall|j: int| i <= j < count ==> (#[trigger] rest@[j])@ == given[j],
            forall|j: int| 0 <= j < count ==> (#[trigger] given[j]).len() <= u32::MAX,
            with_leaves(before, given, 0, Seq::empty()) == with_leaves(
                block::plan(blocks@, *next_bid, *next_offset),
                given,
                i as int,
                items@,
            ),
        decreases count - i,
    {
        let mut chunk: Vec<u8> = Vec::new();
        std::mem::swap(&mut chunk, &mut rest[i]);
        assert(chunk@ == given[i as int]);
        let size: u32 = chunk.len() as u32;
        let id = block::push_block(
            blocks,
            next_bid,
            next_offset,
            false,
            NewBlockData::Data(chunk),
        )?;
        items.push(DataTreeItem { id, size });
        i += 1;
    }
    Ok(items)
}

/// Plans one tree block for every group of items.
fn push_tree_level(
    blocks: &mut Vec<NewBlock>,
    next_bid: &mut u64,
    next_offset: &mut u64,
    items: &Vec<DataTreeItem>,
    level: u8,
) -> (next: Result<Vec<DataTreeItem>, PstError>)
    ensures
        (
            block::plan(final(blocks)@, *final(next_bid), *final(next_offset)),
            crate::error::result_view(next),
        ) == with_tree_level(
            block::plan(old(blocks)@, *old(next_bid), *old(next_offset)),
            items@,
            0,
            level,
            Seq::empty(),
        ),
{
    let ghost before = block::plan(blocks@, *next_bid, *next_offset);
    let mut next: Vec<DataTreeItem> = Vec::new();
    let mut start: usize = 0;
    while start < items.len()
        invariant
            start <= items@.len(),
            before == block::plan(old(blocks)@, *old(next_bid), *old(next_offset)),
            with_tree_level(before, items@, 0, level, Seq::empty()) == with_tree_level(
                block::plan(blocks@, *next_bid, *next_offset),
                items@,
                start as int,
                level,
                next@,
            ),
        decreases items@.len() - start,
    {
        let end: usize = levels::next_group(start, DATA_TREE_CAPACITY, items.len());
        let mut entries: Vec<UnicodeBlockId> = Vec::new();
        let mut total: u32 = 0;
        let mut i: usize = start;
        while i < end
            invariant
                start <= i <= end <= items@.len(),
                end == levels::group_end(
                    start as int,
                    DATA_TREE_CAPACITY as int,
                    items@.len() as int,
                ),
                start < items@.len(),
                before == block::plan(old(blocks)@, *old(next_bid), *old(next_offset)),
                with_tree_level(before, items@, 0, level, Seq::empty()) == with_tree_level(
                    block::plan(blocks@, *next_bid, *next_offset),
                    items@,
                    start as int,
                    level,
                    next@,
                ),
                entries@.len() == i - start,
                forall|j: int| 0 <= j < entries@.len() ==> entries@[j] == items@[start + j].id,
                total == item_total(items@, start as int, i as int),
            decreases end - i,
        {
            let item: DataTreeItem = items[i];
            if total > u32::MAX - item.size {
                proof {
                    lemma_item_total_monotone(items@, start as int, i + 1, end as int);
                }
                return Err(PstError::IntegerConversion);
            }
            total += item.size;
            entries.push(item.id);
            i += 1;
        }
        assert(entries@ =~= item_ids(items@.subrange(start as int, end as int)));
        let id = block::push_block(
            blocks,
            next_bid,
            next_offset,
            true,
            NewBlockData::DataTree(entries, level, total),
        )?;
        next.push(DataTreeItem { id, size: total });
        start = end;
    }
    Ok(next)
}

/// Plans tree blocks above `items` up to a single root.
fn push_tree(
    blocks: &mut Vec<NewBlock>,
    next_bid: &mut u64,
    next_offset: &mut u64,
    items: Vec<DataTreeItem>,
) -> (root: Result<UnicodeBlockId, PstError>)
    requires
        items@.len() > 0,
    ensures
        (block::plan(final(blocks)@, *final(next_bid), *final(next_offset)), root) == with_tree(
            block::plan(old(blocks)@, *old(next_bid), *old(next_offset)),
            items@,
            1,
        ),
{
    let mut current: Vec<DataTreeItem> = items;
    let mut level: u8 = 1;
    let _count: usize = current.len();
    while current.len() > 1
        invariant
            current@.len() >= 1,
            level >= 1,
            current@.len() <= levels::level_capacity((level - 1) as nat),
            with_tree(block::plan(old(blocks)@, *old(next_bid), *old(next_offset)), items@, 1)
                == with_tree(
                block::plan(blocks@, *next_bid, *next_offset),
                current@,
                level,
            ),
        decreases current@.len(),
    {
        proof {
            lemma_tree_level_length(
                block::plan(blocks@, *next_bid, *next_offset),
                current@,
                0,
                level,
                Seq::empty(),
            );
            levels::lemma_level_capacity((level - 1) as nat);
        }
        current = push_tree_level(blocks, next_bid, next_offset, &current, level)?;
        level += 1;
    }
    Ok(current[0].id)
}

/// Plans a data tree of the given chunks and returns its root. Every chunk but the last is filled
/// up to the size of a block. No chunk, an empty chunk and a chunk larger than a block are refused.
pub fn push_data_tree_chunks(
    blocks: &mut Vec<NewBlock>,
    next_bid: &mut u64,
    next_offset: &mut u64,
    chunks: Vec<Vec<u8>>,
) -> (root: Result<UnicodeBlockId, PstError>)
    ensures
        (block::plan(final(blocks)@, *final(next_bid), *final(next_offset)), root)
            == with_data_tree(
            block::plan(old(blocks)@, *old(next_bid), *old(next_offset)),
            bytes::views(chunks@),
        ),
{
    reveal(with_data_tree);
    let ghost before = block::plan(blocks@, *next_bid, *next_offset);
    let ghost given = bytes::views(chunks@);
    let mut empty: bool = chunks.len() == 0;
    let mut too_large: bool = false;
    let mut i: usize = 0;
    while i < chunks.len()
        invariant
            i <= chunks@.len(),
            given == bytes::views(chunks@),
            empty == (chunks@.len() == 0 || exists|j: int|
                0 <= j < i && (#[trigger] given[j]).len() == 0),
            too_large == (exists|j: int|
                0 <= j < i && (#[trigger] given[j]).len() > MAX_BLOCK_DATA_SIZE),
        decreases chunks@.len() - i,
    {
        assert(given[i as int] == chunks@[i as int]@);
        if chunks[i].len() == 0 {
            empty = true;
        }
        if chunks[i].len() > MAX_BLOCK_DATA_SIZE {
            too_large = true;
        }
        i += 1;
    }
    if empty {
        return Err(PstError::Io(IoError::EmptyDataTreeBlock));
    }
    if too_large {
        return Err(PstError::Io(IoError::DataTreeBlockTooLarge));
    }
    let chunks = fill_chunks(chunks);
    proof {
        assert forall|i: int| 0 <= i < chunks@.len() implies (#[trigger] chunks@[i])@.len()
            <= u32::MAX by {
            assert(chunks@[i]@ == filled_chunks(given)[i]);
            assert(given[i].len() <= MAX_BLOCK_DATA_SIZE);
        }
    }
    let items = push_leaves(blocks, next_bid, next_offset, chunks)?;
    proof {
        lemma_leaves_length(before, filled_chunks(given), 0, Seq::empty());
    }
    push_tree(blocks, next_bid, next_offset, items)
}

/// Plans a data tree of `data` and returns its root. Empty data is refused.
pub fn push_data_tree(
    blocks: &mut Vec<NewBlock>,
    next_bid: &mut u64,
    next_offset: &mut u64,
    data: &[u8],
) -> (root: Result<UnicodeBlockId, PstError>)
    ensures
        (block::plan(final(blocks)@, *final(next_bid), *final(next_offset)), root)
            == with_data_tree(
            block::plan(old(blocks)@, *old(next_bid), *old(next_offset)),
            data_chunks(data@),
        ),
{
    let mut chunks: Vec<Vec<u8>> = Vec::new();
    let mut start: usize = 0;
    while start < data.len()
        invariant
            start <= data@.len(),
            start < data@.len() ==> start == chunks@.len() * MAX_BLOCK_DATA_SIZE,
            start == data@.len() ==> chunks@.len() == data_chunks(data@).len(),
            chunks@.len() <= data_chunks(data@).len(),
            forall|j: int|
                0 <= j < chunks@.len() ==> (#[trigger] chunks@[j])@ == data_chunks(data@)[j],
        decreases data@.len() - start,
    {
        let end: usize = levels::next_group(start, MAX_BLOCK_DATA_SIZE, data.len());
        let chunk: Vec<u8> = vstd::slice::slice_to_vec(
            vstd::slice::slice_subrange(data, start, end),
        );
        chunks.push(chunk);
        start = end;
    }
    assert(bytes::views(chunks@) =~= data_chunks(data@));
    push_data_tree_chunks(blocks, next_bid, next_offset, chunks)
}

} // verus!
