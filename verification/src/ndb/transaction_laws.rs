//! What a commit does to the file, in order, and what it leaves alone.

use vstd::prelude::*;

use crate::error::PstError;
use crate::ndb::block::{BlockPlan, PlannedBlock};
use crate::ndb::btree::{PlannedPage, UnicodeBlockBTreeEntry, UnicodeNodeBTreeEntry};
use crate::ndb::commit;
use crate::ndb::compact;
use crate::ndb::encoding;
use crate::ndb::header::{AmapStatus, HeaderContents};
use crate::ndb::ids::{NodeId, UnicodeBlockId};
use crate::ndb::transaction;
use crate::ndb::transaction::{ActionContents, CommitStage, CommitState};

verus! {

/// Whether everything that a commit writes stands at or behind `end`.
pub open spec fn writes_behind(state: CommitState, end: u64) -> bool {
    &&& end <= state.next_offset
    &&& forall|i: int| 0 <= i < state.blocks.len() ==> end <= (#[trigger] state.blocks[i]).offset
    &&& state.trees matches Some(trees) ==> end <= trees.plan.next_offset && forall|i: int|
        0 <= i < trees.plan.pages.len() ==> end <= (#[trigger] trees.plan.pages[i]).page_ref.index
}

proof fn lemma_trees_behind(state: CommitState, end: u64)
    requires
        writes_behind(state, end),
        state.nodes.len() > 0,
        compact::retained_entries(
            state.block_entries,
            state.references.references,
            state.block_entries.len(),
        ).len() > 0,
    ensures
        transaction::plan_step(state) matches Ok((after, action)) ==> writes_behind(after, end)
            && behind(action, end),
{
    if let Ok(retained) = compact::compacted_entries(
        state.block_entries,
        state.references.references,
    ) {
        commit::law_planned_btrees_read_back(
            state.header.next_page,
            state.next_offset,
            retained,
            state.nodes,
        );
    }
}

/// Whether an action leaves everything before `end` but the header as it is.
pub open spec fn behind(action: ActionContents, end: u64) -> bool {
    match action {
        ActionContents::Write(offset, _) => end <= offset,
        ActionContents::SetLength(length) => end <= length,
        _ => true,
    }
}

/// A commit of blocks that stand behind the end of the file only writes behind it, but for the header:
/// nothing that was there before is written over.
pub proof fn law_commit_writes_behind_the_end(
    state: CommitState,
    blocks: Seq<UnicodeBlockId>,
    end: u64,
)
    requires
        transaction::commit_wf(state),
        writes_behind(state, end),
    ensures
        transaction::step(state, blocks) matches Ok((after, action)) ==> writes_behind(after, end)
            && behind(action, end),
{
    reveal(transaction::step);
    match state.stage {
        CommitStage::BlocksSynced => {
            let roots = compact::node_blocks(state.nodes, state.nodes.len());
            lemma_compaction_behind(state, roots, end);
        },
        CommitStage::Compacting => {
            lemma_compaction_behind(state, blocks, end);
        },
        _ => {},
    }
}

proof fn lemma_compaction_behind(state: CommitState, blocks: Seq<UnicodeBlockId>, end: u64)
    requires
        transaction::commit_wf(state),
        writes_behind(state, end),
        state.stage is BlocksSynced || state.stage is Compacting,
        state.stage is BlocksSynced ==> blocks == compact::node_blocks(
            state.nodes,
            state.nodes.len(),
        ),
    ensures
        transaction::compaction_step(state, blocks) matches Ok((after, action)) ==> writes_behind(
            after,
            end,
        ) && behind(action, end),
{
    transaction::lemma_recorded(state, blocks);
    if let Ok(recorded) = compact::with_references(state.references, blocks, 0) {
        let found = CommitState { references: recorded, ..state };
        transaction::lemma_scan(found);
        if let (references, Ok(None)) = compact::next_internal(recorded, state.block_entries) {
            lemma_trees_behind(CommitState { references, ..state }, end);
        }
    }
}

/// The writes of the first `count` blocks.
pub open spec fn block_writes(blocks: Seq<PlannedBlock>, count: nat) -> Seq<ActionContents> {
    Seq::new(
        count,
        |i: int| ActionContents::Write(blocks[i].offset, encoding::block_bytes(blocks[i])),
    )
}

/// The writes of the first `count` B-tree pages.
pub open spec fn page_writes(pages: Seq<PlannedPage>, count: nat) -> Seq<ActionContents> {
    Seq::new(
        count,
        |i: int|
            ActionContents::Write(
                pages[i].page_ref.index,
                transaction::planned_page_bytes(pages[i]),
            ),
    )
}

/// The actions up to the end of the blocks, `count` of which were written.
pub open spec fn opening(start: CommitState, count: nat) -> Seq<ActionContents> {
    seq![
        ActionContents::WriteHeader(commit::committing_header(start.header)),
        ActionContents::SyncData,
    ] + block_writes(start.blocks, count)
}

/// The actions up to the end of the B-tree pages, `count` of which were written. The reads in between are
/// `reads`.
pub open spec fn middle(
    start: CommitState,
    reads: Seq<ActionContents>,
    pages: Seq<PlannedPage>,
    count: nat,
) -> Seq<ActionContents> {
    opening(start, start.blocks.len()).push(ActionContents::SyncData) + reads + page_writes(
        pages,
        count,
    )
}

/// The actions of a commit up to its last header.
pub open spec fn closing(
    start: CommitState,
    reads: Seq<ActionContents>,
    state: CommitState,
) -> Seq<ActionContents> {
    let plan = state.trees->Some_0.plan;
    middle(start, reads, plan.pages, plan.pages.len()).push(
        ActionContents::SetLength(plan.next_offset),
    ).push(ActionContents::SyncData)
}

/// The header while blocks and pages are written names the B-trees that were there before.
pub open spec fn is_committing(start: CommitState, state: CommitState) -> bool {
    state.header == commit::committing_header(start.header)
}

/// The last header of a commit.
pub open spec fn is_committed(start: CommitState, state: CommitState) -> bool {
    commit::committed_header(
        commit::committing_header(start.header),
        state.trees->Some_0,
        state.next_bid,
        state.reserved,
    ) == Ok::<HeaderContents, PstError>(state.header)
}

/// Whether the B-trees are planned, and end behind the blocks.
pub open spec fn has_grown(start: CommitState, state: CommitState) -> bool {
    state.trees matches Some(trees) && trees.plan.next_offset > start.next_offset
}

/// Whether a commit that began as `start` has come to `state` through the actions in `trace`, of which
/// `reads` are the reads.
pub open spec fn has_done(
    start: CommitState,
    state: CommitState,
    trace: Seq<ActionContents>,
    reads: Seq<ActionContents>,
) -> bool {
    &&& start.stage is Start
    &&& state.nodes == start.nodes
    &&& state.blocks == start.blocks
    &&& state.next_bid == start.next_bid
    &&& state.next_offset == start.next_offset
    &&& state.reserved == start.reserved
    &&& forall|i: int| 0 <= i < reads.len() ==> (#[trigger] reads[i]) is ReadTree
    &&& match state.stage {
        CommitStage::Start => state.header == start.header && trace == Seq::<
            ActionContents,
        >::empty() && reads.len() == 0,
        CommitStage::Announced => is_committing(start, state) && trace.push(
            ActionContents::SyncData,
        ) == opening(start, 0) && reads.len() == 0,
        CommitStage::Blocks(index) => is_committing(start, state) && trace == opening(
            start,
            index as nat,
        ) && reads.len() == 0,
        CommitStage::BlocksSynced => is_committing(start, state) && trace == opening(
            start,
            start.blocks.len(),
        ).push(ActionContents::SyncData) && reads.len() == 0,
        CommitStage::Compacting => is_committing(start, state) && trace == opening(
            start,
            start.blocks.len(),
        ).push(ActionContents::SyncData) + reads,
        CommitStage::Pages(index) => is_committing(start, state) && has_grown(start, state)
            && trace == middle(start, reads, state.trees->Some_0.plan.pages, index as nat),
        CommitStage::Resized => is_committing(start, state) && has_grown(start, state)
            && trace.push(ActionContents::SyncData) == closing(start, reads, state),
        CommitStage::PagesSynced => is_committing(start, state) && has_grown(start, state)
            && trace == closing(start, reads, state),
        CommitStage::Switched => is_committed(start, state) && has_grown(start, state) && trace
            == closing(start, reads, state).push(ActionContents::WriteHeader(state.header)),
        CommitStage::Done => is_committed(start, state) && has_grown(start, state) && trace
            == closing(start, reads, state).push(ActionContents::WriteHeader(state.header)).push(
            ActionContents::SyncAll,
        ),
    }
}

/// A new commit has done nothing yet, and writes behind an end behind which its blocks stand.
pub proof fn law_new_commit(
    header: HeaderContents,
    block_entries: Seq<UnicodeBlockBTreeEntry>,
    change: (BlockPlan, Seq<UnicodeNodeBTreeEntry>),
    reserved: Seq<NodeId>,
    end: u64,
)
    requires
        end <= change.0.next_offset,
        forall|i: int|
            0 <= i < change.0.blocks.len() ==> end <= (#[trigger] change.0.blocks[i]).offset,
    ensures
        ({
            let start = transaction::new_commit(header, block_entries, change, reserved);
            &&& has_done(start, start, Seq::empty(), Seq::empty())
            &&& writes_behind(start, end)
        }),
{
}

/// The reads once `action` was performed.
pub open spec fn with_read(
    reads: Seq<ActionContents>,
    action: ActionContents,
) -> Seq<ActionContents> {
    if action is ReadTree {
        reads.push(action)
    } else {
        reads
    }
}

/// A commit goes through its actions in one order: the header that announces it, all blocks, the reads of
/// trees, all B-tree pages, the length of the file, and last the header that names the new B-trees. The
/// file is synced after either header, after the blocks, and after its length was set. So the B-trees that
/// the header names are always on disk.
pub proof fn law_commit_order(
    start: CommitState,
    state: CommitState,
    trace: Seq<ActionContents>,
    reads: Seq<ActionContents>,
    blocks: Seq<UnicodeBlockId>,
)
    requires
        transaction::commit_wf(state),
        has_done(start, state, trace, reads),
        state.stage !is Done,
    ensures
        transaction::step(state, blocks) matches Ok((after, action)) ==> has_done(
            start,
            after,
            trace.push(action),
            with_read(reads, action),
        ),
{
    reveal(transaction::step);
    match state.stage {
        CommitStage::Start => {
            assert(trace.push(
                ActionContents::WriteHeader(commit::committing_header(start.header)),
            ).push(ActionContents::SyncData) =~= opening(start, 0));
        },
        CommitStage::Announced => {},
        CommitStage::Blocks(index) => {
            if index < state.blocks.len() {
                let block = state.blocks[index as int];
                assert(opening(start, index as nat).push(
                    ActionContents::Write(block.offset, encoding::block_bytes(block)),
                ) =~= opening(start, (index + 1) as nat));
            }
        },
        CommitStage::BlocksSynced => {
            let done = opening(start, start.blocks.len()).push(ActionContents::SyncData);
            assert(done + Seq::<ActionContents>::empty() =~= done);
            assert(reads =~= Seq::<ActionContents>::empty());
            lemma_compaction_order(
                start,
                state,
                trace,
                reads,
                compact::node_blocks(state.nodes, state.nodes.len()),
            );
        },
        CommitStage::Compacting => {
            lemma_compaction_order(start, state, trace, reads, blocks);
        },
        CommitStage::Pages(index) => {
            lemma_page_order(start, state, trace, reads, index);
        },
        _ => {},
    }
}

proof fn lemma_page_order(
    start: CommitState,
    state: CommitState,
    trace: Seq<ActionContents>,
    reads: Seq<ActionContents>,
    index: usize,
)
    requires
        has_done(start, state, trace, reads),
        state.stage == CommitStage::Pages(index),
        index <= state.trees->Some_0.plan.pages.len() <= usize::MAX,
    ensures
        ({
            let (after, action) = transaction::page_step(state, index);
            has_done(start, after, trace.push(action), with_read(reads, action))
        }),
{
    let pages = state.trees->Some_0.plan.pages;
    if index < pages.len() {
        let page = pages[index as int];
        assert(middle(start, reads, pages, index as nat).push(
            ActionContents::Write(page.page_ref.index, transaction::planned_page_bytes(page)),
        ) =~= middle(start, reads, pages, (index + 1) as nat));
    }
}

proof fn lemma_compaction_grows(
    start: CommitState,
    state: CommitState,
    blocks: Seq<UnicodeBlockId>,
)
    requires
        transaction::commit_wf(state),
        state.next_offset == start.next_offset,
        state.stage is BlocksSynced || state.stage is Compacting,
        state.stage is BlocksSynced ==> blocks == compact::node_blocks(
            state.nodes,
            state.nodes.len(),
        ),
    ensures
        transaction::compaction_step(state, blocks) matches Ok((after, _)) ==> after.stage is Compacting
            || has_grown(start, after),
{
    transaction::lemma_recorded(state, blocks);
    if let Ok(recorded) = compact::with_references(state.references, blocks, 0) {
        transaction::lemma_scan(CommitState { references: recorded, ..state });
        if let (references, Ok(None)) = compact::next_internal(recorded, state.block_entries) {
            if let Ok(retained) = compact::compacted_entries(
                state.block_entries,
                references.references,
            ) {
                transaction::lemma_trees(
                    state.header.next_page,
                    state.next_offset,
                    retained,
                    state.nodes,
                );
            }
        }
    }
}

proof fn lemma_compaction_order(
    start: CommitState,
    state: CommitState,
    trace: Seq<ActionContents>,
    reads: Seq<ActionContents>,
    blocks: Seq<UnicodeBlockId>,
)
    requires
        transaction::commit_wf(state),
        has_done(start, state, trace, reads),
        state.stage is BlocksSynced || state.stage is Compacting,
        state.stage is BlocksSynced ==> blocks == compact::node_blocks(
            state.nodes,
            state.nodes.len(),
        ),
        trace == opening(start, start.blocks.len()).push(ActionContents::SyncData) + reads,
    ensures
        transaction::compaction_step(state, blocks) matches Ok((after, action)) ==> has_done(
            start,
            after,
            trace.push(action),
            with_read(reads, action),
        ),
{
    lemma_compaction_grows(start, state, blocks);
    if let Ok((after, action)) = transaction::compaction_step(state, blocks) {
        let done = opening(start, start.blocks.len()).push(ActionContents::SyncData);
        if after.stage is Compacting && action is ReadTree {
            assert(trace.push(action) =~= done + reads.push(action));
        } else {
            let planned = CommitState { stage: CommitStage::Pages(0), ..after };
            let pages = planned.trees->Some_0.plan.pages;
            assert(middle(start, reads, pages, 0) =~= done + reads);
            if pages.len() == 0 {
                assert(action == ActionContents::SetLength(planned.trees->Some_0.plan.next_offset));
            } else {
                assert(trace.push(action) =~= middle(start, reads, pages, 1));
            }
        }
    }
}

/// Until its last header is written, a commit leaves the header naming the B-trees and the end that the
/// file had before, and says that the allocation maps cannot be relied on. The last header names the
/// planned B-trees, and an end behind the one from which the commit wrote on.
pub proof fn law_header_names_whole_trees(
    start: CommitState,
    state: CommitState,
    trace: Seq<ActionContents>,
    reads: Seq<ActionContents>,
)
    requires
        has_done(start, state, trace, reads),
    ensures
        state.stage is Switched || state.stage is Done ==> state.header.root.block_btree
            == state.trees->Some_0.block_btree && state.header.root.node_btree
            == state.trees->Some_0.node_btree && state.header.root.file_eof_index
            == state.trees->Some_0.plan.next_offset && state.header.root.file_eof_index
            > start.next_offset,
        !(state.stage is Switched || state.stage is Done) ==> state.header.root.block_btree
            == start.header.root.block_btree && state.header.root.node_btree
            == start.header.root.node_btree && state.header.root.file_eof_index
            == start.header.root.file_eof_index && (!(state.stage is Start)
            ==> state.header.root.amap_is_valid == AmapStatus::Invalid),
{
}

} // verus!
