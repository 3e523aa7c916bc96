//! Running a commit: what is written, read and synced, and in which order. The caller performs one
//! action after the other.

use vstd::prelude::*;

use crate::bytes;
use crate::error::PstError;
use crate::ndb::allocation::AMAP_FIRST_OFFSET;
use crate::ndb::block::{BlockPlan, NewBlock, PlannedBlock};
use crate::ndb::block_laws;
use crate::ndb::btree::{
    PageType, PlannedPage, UnicodeBlockBTreeEntry, UnicodeNodeBTreeEntry, MAX_BTREE_LEVEL,
};
use crate::ndb::btree_laws;
use crate::ndb::commit;
use crate::ndb::commit::{BTreePlan, ChangePlan, PlannedBTrees};
use crate::ndb::compact;
use crate::ndb::compact::{BlockReferences, InternalBlock, ReferenceState};
use crate::ndb::encoding;
use crate::ndb::encoding::FileWrite;
use crate::ndb::header::{Header, HeaderContents};
use crate::ndb::ids::{NodeId, UnicodeBlockId, UnicodePageId};
use crate::sorting;
use crate::sorting::Keyed;

verus! {

/// How far a commit has come.
#[derive(Clone, Copy, PartialEq, Eq, Debug, Structural)]
pub enum CommitStage {
    /// Nothing was done yet.
    Start,
    /// The header says that the allocation maps cannot be relied on.
    Announced,
    /// So many of the blocks were written.
    Blocks(usize),
    /// The blocks are on disk.
    BlocksSynced,
    /// The blocks in use are being found.
    Compacting,
    /// So many of the B-tree pages were written.
    Pages(usize),
    /// The file ends where it is to end.
    Resized,
    /// The B-tree pages are on disk.
    PagesSynced,
    /// The header names the new B-trees.
    Switched,
    /// Everything was done.
    Done,
}

/// What is to be done next.
pub enum CommitAction {
    WriteHeader(Header),
    Write(FileWrite),
    /// The tree in an internal block is to be read and handed in.
    ReadTree(UnicodeBlockBTreeEntry),
    SetLength(u64),
    SyncData,
    SyncAll,
    Done,
}

/// What is to be done next, by its contents.
pub enum ActionContents {
    WriteHeader(HeaderContents),
    Write(u64, Seq<u8>),
    ReadTree(UnicodeBlockBTreeEntry),
    SetLength(u64),
    SyncData,
    SyncAll,
    Done,
}

impl View for CommitAction {
    type V = ActionContents;

    open spec fn view(&self) -> ActionContents {
        match self {
            CommitAction::WriteHeader(header) => ActionContents::WriteHeader(header@),
            CommitAction::Write(write) => ActionContents::Write(write.offset, write.data@),
            CommitAction::ReadTree(entry) => ActionContents::ReadTree(*entry),
            CommitAction::SetLength(length) => ActionContents::SetLength(*length),
            CommitAction::SyncData => ActionContents::SyncData,
            CommitAction::SyncAll => ActionContents::SyncAll,
            CommitAction::Done => ActionContents::Done,
        }
    }
}

/// A commit: how far it has come, the header, the entries of the block B-tree and of the node B-tree,
/// the new blocks, the next block and the end of the file behind them, the references found so far, the
/// nodes whose indices are taken, and the B-trees, once they are planned.
pub struct Commit {
    pub stage: CommitStage,
    pub header: Header,
    pub bbt_entries: Vec<UnicodeBlockBTreeEntry>,
    pub nbt_entries: Vec<UnicodeNodeBTreeEntry>,
    pub blocks: Vec<NewBlock>,
    pub next_bid: u64,
    pub next_offset: u64,
    pub references: BlockReferences,
    pub reserved: Vec<NodeId>,
    pub trees: Option<BTreePlan>,
}

/// The state of a commit.
#[verifier::ext_equal]
pub struct CommitState {
    pub stage: CommitStage,
    pub header: HeaderContents,
    pub block_entries: Seq<UnicodeBlockBTreeEntry>,
    pub nodes: Seq<UnicodeNodeBTreeEntry>,
    pub blocks: Seq<PlannedBlock>,
    pub next_bid: u64,
    pub next_offset: u64,
    pub references: ReferenceState,
    pub reserved: Seq<NodeId>,
    pub trees: Option<PlannedBTrees>,
}

impl View for Commit {
    type V = CommitState;

    open spec fn view(&self) -> CommitState {
        CommitState {
            stage: self.stage,
            header: self.header@,
            block_entries: self.bbt_entries@,
            nodes: self.nbt_entries@,
            blocks: bytes::views(self.blocks@),
            next_bid: self.next_bid,
            next_offset: self.next_offset,
            references: self.references@,
            reserved: self.reserved@,
            trees: match self.trees {
                Some(trees) => Some(trees@),
                None => None,
            },
        }
    }
}

/// No references yet.
pub open spec fn no_references() -> ReferenceState {
    ReferenceState { references: Map::empty(), pending: Seq::empty() }
}

/// A commit that has not begun.
pub open spec fn new_commit(
    header: HeaderContents,
    block_entries: Seq<UnicodeBlockBTreeEntry>,
    change: (BlockPlan, Seq<UnicodeNodeBTreeEntry>),
    reserved: Seq<NodeId>,
) -> CommitState {
    CommitState {
        stage: CommitStage::Start,
        header,
        block_entries: sorting::sorted_by_key(
            block_entries + commit::new_entries(change.0.blocks),
        ),
        nodes: sorting::sorted_by_key(change.1),
        blocks: change.0.blocks,
        next_bid: change.0.next_bid,
        next_offset: change.0.next_offset,
        references: no_references(),
        reserved,
        trees: None,
    }
}

/// The bytes of a planned page.
pub open spec fn planned_page_bytes(page: PlannedPage) -> Seq<u8> {
    encoding::page_bytes(
        encoding::contents_type(page.data),
        page.page_ref.index,
        page.page_ref.block.value,
        encoding::page_body(page.data),
    )
}

/// The state after a block was written, or after all of them were.
pub open spec fn block_step(state: CommitState, index: usize) -> Result<
    (CommitState, ActionContents),
    PstError,
> {
    if index < state.blocks.len() {
        let block = state.blocks[index as int];
        if encoding::can_write(block.size) {
            Ok(
                (
                    CommitState { stage: CommitStage::Blocks((index + 1) as usize), ..state },
                    ActionContents::Write(block.offset, encoding::block_bytes(block)),
                ),
            )
        } else {
            Err(encoding::size_error(block.size))
        }
    } else {
        Ok(
            (
                CommitState { stage: CommitStage::BlocksSynced, ..state },
                ActionContents::SyncData,
            ),
        )
    }
}

/// The state after a B-tree page was written, or after all of them were and the file got its length.
pub open spec fn page_step(state: CommitState, index: usize) -> (CommitState, ActionContents) {
    let plan = state.trees->Some_0.plan;
    if index < plan.pages.len() {
        let page = plan.pages[index as int];
        (
            CommitState { stage: CommitStage::Pages((index + 1) as usize), ..state },
            ActionContents::Write(page.page_ref.index, planned_page_bytes(page)),
        )
    } else {
        (
            CommitState { stage: CommitStage::Resized, ..state },
            ActionContents::SetLength(plan.next_offset),
        )
    }
}

/// The state after the B-trees were planned of the blocks in use and the nodes.
pub open spec fn plan_step(state: CommitState) -> Result<(CommitState, ActionContents), PstError> {
    match compact::compacted_entries(state.block_entries, state.references.references) {
        Err(error) => Err(error),
        Ok(block_entries) => match commit::planned_btrees(
            state.header.next_page,
            state.next_offset,
            block_entries,
            state.nodes,
        ) {
            Err(error) => Err(error),
            Ok(trees) => Ok(
                page_step(
                    CommitState {
                        stage: CommitStage::Pages(0),
                        block_entries,
                        trees: Some(trees),
                        ..state
                    },
                    0,
                ),
            ),
        },
    }
}

/// The state after the next tree that is to be read was found, or else after the B-trees were planned.
pub open spec fn scan_step(state: CommitState) -> Result<(CommitState, ActionContents), PstError> {
    match compact::next_internal(state.references, state.block_entries) {
        (_, Err(error)) => Err(error),
        (references, Ok(Some(entry))) => Ok(
            (
                CommitState { stage: CommitStage::Compacting, references, ..state },
                ActionContents::ReadTree(entry),
            ),
        ),
        (references, Ok(None)) => plan_step(CommitState { references, ..state }),
    }
}

/// The state after more references were found.
pub open spec fn compaction_step(state: CommitState, blocks: Seq<UnicodeBlockId>) -> Result<
    (CommitState, ActionContents),
    PstError,
> {
    match compact::with_references(state.references, blocks, 0) {
        Err(error) => Err(error),
        Ok(references) => scan_step(CommitState { references, ..state }),
    }
}

/// The state after the last header was written, which names the new B-trees.
pub open spec fn switch_step(state: CommitState) -> Result<
    (CommitState, ActionContents),
    PstError,
> {
    match commit::committed_header(
        state.header,
        state.trees->Some_0,
        state.next_bid,
        state.reserved,
    ) {
        Err(error) => Err(error),
        Ok(header) => Ok(
            (
                CommitState { stage: CommitStage::Switched, header, ..state },
                ActionContents::WriteHeader(header),
            ),
        ),
    }
}

/// One step of a commit: the next action and the state once it was performed. `blocks` are the children
/// of the tree that was read, where one was.
#[verifier::opaque]
pub open spec fn step(state: CommitState, blocks: Seq<UnicodeBlockId>) -> Result<
    (CommitState, ActionContents),
    PstError,
> {
    match state.stage {
        CommitStage::Start => {
            let header = commit::committing_header(state.header);
            Ok(
                (
                    CommitState { stage: CommitStage::Announced, header, ..state },
                    ActionContents::WriteHeader(header),
                ),
            )
        },
        CommitStage::Announced => Ok(
            (CommitState { stage: CommitStage::Blocks(0), ..state }, ActionContents::SyncData),
        ),
        CommitStage::Blocks(index) => block_step(state, index),
        CommitStage::BlocksSynced => compaction_step(
            state,
            compact::node_blocks(state.nodes, state.nodes.len()),
        ),
        CommitStage::Compacting => compaction_step(state, blocks),
        CommitStage::Pages(index) => Ok(page_step(state, index)),
        CommitStage::Resized => Ok(
            (CommitState { stage: CommitStage::PagesSynced, ..state }, ActionContents::SyncData),
        ),
        CommitStage::PagesSynced => switch_step(state),
        CommitStage::Switched => Ok(
            (CommitState { stage: CommitStage::Done, ..state }, ActionContents::SyncAll),
        ),
        CommitStage::Done => Ok((state, ActionContents::Done)),
    }
}

/// Whether some node has data.
pub open spec fn names_data(nodes: Seq<UnicodeNodeBTreeEntry>) -> bool {
    exists|entry: UnicodeNodeBTreeEntry| #[trigger]
        nodes.contains(entry) && entry.data.spec_search_key() != 0
}

/// Whether the data of some node was found.
pub open spec fn data_is_found(
    nodes: Seq<UnicodeNodeBTreeEntry>,
    references: ReferenceState,
) -> bool {
    exists|entry: UnicodeNodeBTreeEntry| #[trigger]
        nodes.contains(entry) && references.references.contains_key(entry.data.spec_search_key())
}

/// Whether every block found has an entry or is still to be looked up.
pub open spec fn found_have_entries(
    references: ReferenceState,
    entries: Seq<UnicodeBlockBTreeEntry>,
) -> bool {
    forall|key: u64| #[trigger]
        references.references.contains_key(key) ==> compact::is_pending(references, key)
            || compact::entry_with_key(entries, key, 0) is Some
}

/// Whether the planned B-trees can be written.
pub open spec fn trees_wf(state: CommitState) -> bool {
    &&& state.trees matches Some(trees)
    &&& btree_laws::pages_wf(trees.plan)
    &&& trees.plan.next_offset > AMAP_FIRST_OFFSET
    &&& trees.plan.pages.len() <= usize::MAX
}

/// Whether a commit is well formed.
pub open spec fn commit_wf(state: CommitState) -> bool {
    &&& state.blocks.len() <= usize::MAX
    &&& forall|i: int|
        0 <= i < state.blocks.len() ==> (#[trigger] state.blocks[i]).size
            == state.blocks[i].data.size()
    &&& state.next_offset >= AMAP_FIRST_OFFSET
    &&& names_data(state.nodes)
    &&& match state.stage {
        CommitStage::Start | CommitStage::Announced | CommitStage::BlocksSynced => {
            &&& state.header.wf()
            &&& sorting::is_sorted(state.block_entries)
            &&& state.references == no_references()
        },
        CommitStage::Blocks(index) => {
            &&& state.header.wf()
            &&& sorting::is_sorted(state.block_entries)
            &&& state.references == no_references()
            &&& index <= state.blocks.len()
        },
        CommitStage::Compacting => {
            &&& state.header.wf()
            &&& sorting::is_sorted(state.block_entries)
            &&& found_have_entries(state.references, state.block_entries)
            &&& data_is_found(state.nodes, state.references)
        },
        CommitStage::Pages(index) => {
            &&& state.header.wf()
            &&& trees_wf(state)
            &&& index <= state.trees->Some_0.plan.pages.len()
        },
        CommitStage::Resized | CommitStage::PagesSynced => state.header.wf() && trees_wf(state),
        CommitStage::Switched | CommitStage::Done => true,
    }
}

proof fn lemma_reference(
    state: ReferenceState,
    block: UnicodeBlockId,
    entries: Seq<UnicodeBlockBTreeEntry>,
)
    requires
        found_have_entries(state, entries),
    ensures
        compact::with_reference(state, block) matches Ok(after) ==> found_have_entries(
            after,
            entries,
        ) && (forall|key: u64|
            state.references.contains_key(key) ==> #[trigger] after.references.contains_key(key))
            && (block.spec_search_key() != 0 ==> after.references.contains_key(
            block.spec_search_key(),
        )),
{
    if let Ok(after) = compact::with_reference(state, block) {
        let added = block.spec_search_key();
        assert forall|key: u64| #[trigger]
            after.references.contains_key(key) implies compact::is_pending(after, key)
            || compact::entry_with_key(entries, key, 0) is Some by {
            if key == added && added != 0 && !state.references.contains_key(key) {
                assert(after.pending[after.pending.len() - 1].spec_search_key() == key);
            } else {
                assert(state.references.contains_key(key));
                if compact::is_pending(state, key) {
                    let i = choose|i: int|
                        0 <= i < state.pending.len() && (
                        #[trigger] state.pending[i]).spec_search_key() == key;
                    assert(after.pending[i].spec_search_key() == key);
                }
            }
        }
    }
}

proof fn lemma_references(
    state: ReferenceState,
    blocks: Seq<UnicodeBlockId>,
    index: int,
    entries: Seq<UnicodeBlockBTreeEntry>,
)
    requires
        0 <= index,
        found_have_entries(state, entries),
    ensures
        compact::with_references(state, blocks, index) matches Ok(after) ==> found_have_entries(
            after,
            entries,
        ) && (forall|key: u64|
            state.references.contains_key(key) ==> #[trigger] after.references.contains_key(key))
            && (forall|i: int|
            index <= i < blocks.len() && (#[trigger] blocks[i]).spec_search_key() != 0
                ==> after.references.contains_key(blocks[i].spec_search_key())),
    decreases blocks.len() - index,
{
    if index < blocks.len() {
        lemma_reference(state, blocks[index], entries);
        if let Ok(next) = compact::with_reference(state, blocks[index]) {
            lemma_references(next, blocks, index + 1, entries);
        }
    }
}

proof fn lemma_next_internal(state: ReferenceState, entries: Seq<UnicodeBlockBTreeEntry>)
    requires
        found_have_entries(state, entries),
    ensures
        compact::next_internal(state, entries) matches (after, Ok(found)) ==> found_have_entries(
            after,
            entries,
        ) && after.references == state.references && (found is None ==> after.pending.len() == 0),
    decreases state.pending.len(),
{
    if state.pending.len() > 0 {
        let block = state.pending[0];
        let rest = ReferenceState { pending: state.pending.skip(1), ..state };
        if compact::entry_with_key(entries, block.spec_search_key(), 0) is Some {
            assert forall|key: u64| #[trigger]
                rest.references.contains_key(key) implies compact::is_pending(rest, key)
                || compact::entry_with_key(entries, key, 0) is Some by {
                if compact::is_pending(state, key) && key != block.spec_search_key() {
                    let i = choose|i: int|
                        0 <= i < state.pending.len() && (
                        #[trigger] state.pending[i]).spec_search_key() == key;
                    assert(rest.pending[i - 1].spec_search_key() == key);
                }
            }
            if !block.spec_is_internal() {
                lemma_next_internal(rest, entries);
            }
        }
    }
}

proof fn lemma_entry_is_retained(
    entries: Seq<UnicodeBlockBTreeEntry>,
    references: Map<u64, u16>,
    key: u64,
    index: int,
)
    requires
        0 <= index,
        compact::entry_with_key(entries, key, index) is Some,
        references.contains_key(key),
    ensures
        compact::retained_entries(entries, references, entries.len()).len() > 0,
    decreases entries.len() - index,
{
    if index < entries.len() {
        if entries[index].spec_key() == key {
            assert(entries.take(entries.len() as int) =~= entries);
            assert(entries.contains(entries[index]));
            compact::law_retained_entries(entries, references, entries.len(), entries[index]);
        } else {
            lemma_entry_is_retained(entries, references, key, index + 1);
        }
    }
}

/// Planned B-trees have pages, and end behind where they start.
pub proof fn lemma_trees(
    next_page: UnicodePageId,
    next_offset: u64,
    blocks: Seq<UnicodeBlockBTreeEntry>,
    nodes: Seq<UnicodeNodeBTreeEntry>,
)
    requires
        blocks.len() > 0,
        nodes.len() > 0,
    ensures
        commit::planned_btrees(next_page, next_offset, blocks, nodes) matches Ok(trees)
            ==> btree_laws::pages_wf(trees.plan) && trees.plan.pages.len() > 0
            && trees.plan.next_offset > next_offset,
{
    commit::law_planned_btrees_read_back(next_page, next_offset, blocks, nodes);
    if let Ok(trees) = commit::planned_btrees(next_page, next_offset, blocks, nodes) {
        if trees.plan.pages.len() == 0 {
            assert(btree_laws::find_page(trees.plan.pages, trees.block_btree) is None);
            let level = choose|level: nat|
                level <= MAX_BTREE_LEVEL && btree_laws::read_btree(
                    trees.plan.pages,
                    PageType::BlockBTree,
                    trees.block_btree,
                    level,
                ) == Some(btree_laws::block_entries(blocks));
            assert(false);
        }
        assert(trees.plan.pages[0].page_ref.index >= next_offset);
    }
}

/// The references after more of them were recorded: the data of some node is among them.
pub proof fn lemma_recorded(state: CommitState, blocks: Seq<UnicodeBlockId>)
    requires
        found_have_entries(state.references, state.block_entries),
        data_is_found(state.nodes, state.references) || (names_data(state.nodes) && blocks
            == compact::node_blocks(state.nodes, state.nodes.len())),
    ensures
        compact::with_references(state.references, blocks, 0) matches Ok(recorded)
            ==> found_have_entries(recorded, state.block_entries) && data_is_found(
            state.nodes,
            recorded,
        ),
{
    lemma_references(state.references, blocks, 0, state.block_entries);
    if let Ok(recorded) = compact::with_references(state.references, blocks, 0) {
        if data_is_found(state.nodes, state.references) {
            let entry = choose|entry: UnicodeNodeBTreeEntry| #[trigger]
                state.nodes.contains(entry) && state.references.references.contains_key(
                    entry.data.spec_search_key(),
                );
            assert(recorded.references.contains_key(entry.data.spec_search_key()));
        } else {
            let entry = choose|entry: UnicodeNodeBTreeEntry| #[trigger]
                state.nodes.contains(entry) && entry.data.spec_search_key() != 0;
            let i = choose|i: int| 0 <= i < state.nodes.len() && state.nodes[i] == entry;
            compact::lemma_node_blocks(state.nodes, i, state.nodes.len());
            let j = choose|j: int| 0 <= j < blocks.len() && blocks[j] == entry.data;
            assert(recorded.references.contains_key(blocks[j].spec_search_key()));
        }
        assert(data_is_found(state.nodes, recorded));
    }
}

/// The references after the next tree was found, and the blocks in use where there is none.
pub proof fn lemma_scan(state: CommitState)
    requires
        found_have_entries(state.references, state.block_entries),
        data_is_found(state.nodes, state.references),
    ensures
        state.nodes.len() > 0,
        compact::next_internal(state.references, state.block_entries) matches (
            references,
            Ok(found),
        ) ==> {
            &&& found_have_entries(references, state.block_entries)
            &&& data_is_found(state.nodes, references)
            &&& found is None ==> compact::retained_entries(
                state.block_entries,
                references.references,
                state.block_entries.len(),
            ).len() > 0
        },
{
    lemma_next_internal(state.references, state.block_entries);
    let entry = choose|entry: UnicodeNodeBTreeEntry| #[trigger]
        state.nodes.contains(entry) && state.references.references.contains_key(
            entry.data.spec_search_key(),
        );
    assert(state.nodes.len() > 0);
    if let (references, Ok(found)) = compact::next_internal(
        state.references,
        state.block_entries,
    ) {
        let key = entry.data.spec_search_key();
        assert(references.references.contains_key(key));
        assert(data_is_found(state.nodes, references));
        if found is None {
            assert(!compact::is_pending(references, key));
            lemma_entry_is_retained(state.block_entries, references.references, key, 0);
        }
    }
}

proof fn lemma_sorted_names_data(nodes: Seq<UnicodeNodeBTreeEntry>)
    requires
        names_data(nodes),
    ensures
        names_data(sorting::sorted_by_key(nodes)),
{
    broadcast use vstd::seq_lib::group_to_multiset_ensures;

    sorting::law_sorted_by_key(nodes, 0);
    let entry = choose|entry: UnicodeNodeBTreeEntry| #[trigger]
        nodes.contains(entry) && entry.data.spec_search_key() != 0;
    assert(nodes.to_multiset().contains(entry));
    assert(sorting::sorted_by_key(nodes).contains(entry));
}

/// Every step of a commit keeps it well formed, as long as its B-trees have fewer pages than can be
/// counted.
pub proof fn law_step_keeps_commit_well_formed(state: CommitState, blocks: Seq<UnicodeBlockId>)
    requires
        commit_wf(state),
    ensures
        step(state, blocks) matches Ok((after, _)) ==> (after.trees matches Some(trees)
            ==> trees.plan.pages.len() <= usize::MAX) ==> commit_wf(after),
{
    reveal(step);
    match state.stage {
        CommitStage::BlocksSynced => {
            let roots = compact::node_blocks(state.nodes, state.nodes.len());
            lemma_compaction_keeps(state, roots);
        },
        CommitStage::Compacting => {
            lemma_compaction_keeps(state, blocks);
        },
        _ => {},
    }
}

proof fn lemma_compaction_keeps(state: CommitState, blocks: Seq<UnicodeBlockId>)
    requires
        commit_wf(state),
        state.stage is BlocksSynced || state.stage is Compacting,
        state.stage is BlocksSynced ==> blocks == compact::node_blocks(
            state.nodes,
            state.nodes.len(),
        ),
    ensures
        compaction_step(state, blocks) matches Ok((after, _)) ==> (after.trees matches Some(trees)
            ==> trees.plan.pages.len() <= usize::MAX) ==> commit_wf(after),
{
    lemma_recorded(state, blocks);
    if let Ok(recorded) = compact::with_references(state.references, blocks, 0) {
        lemma_scan(CommitState { references: recorded, ..state });
        if let (references, Ok(None)) = compact::next_internal(recorded, state.block_entries) {
            if let Ok(retained) = compact::compacted_entries(
                state.block_entries,
                references.references,
            ) {
                lemma_trees(state.header.next_page, state.next_offset, retained, state.nodes);
            }
        }
    }
}

/// The children of the tree that was read, where one was.
pub open spec fn tree_children(tree: Option<&InternalBlock>) -> Seq<UnicodeBlockId> {
    match tree {
        Some(tree) => tree.spec_children(),
        None => Seq::empty(),
    }
}

/// Whether some node has data.
pub fn has_data(nodes: &Vec<UnicodeNodeBTreeEntry>) -> (has: bool)
    ensures
        has == names_data(nodes@),
{
    let mut i: usize = 0;
    while i < nodes.len()
        invariant
            i <= nodes@.len(),
            forall|j: int| 0 <= j < i ==> (#[trigger] nodes@[j]).data.spec_search_key() == 0,
        decreases nodes@.len() - i,
    {
        if nodes[i].data.search_key() != 0 {
            assert(nodes@.contains(nodes@[i as int]));
            return true;
        }
        i += 1;
    }
    false
}

/// A new commit of well-formed blocks is well formed, where some node has data.
pub proof fn law_new_commit_is_well_formed(
    header: HeaderContents,
    block_entries: Seq<UnicodeBlockBTreeEntry>,
    change: (BlockPlan, Seq<UnicodeNodeBTreeEntry>),
    reserved: Seq<NodeId>,
)
    requires
        header.wf(),
        block_laws::plan_wf(change.0),
        change.0.blocks.len() <= usize::MAX,
        change.0.next_offset >= AMAP_FIRST_OFFSET,
        names_data(change.1),
    ensures
        commit_wf(new_commit(header, block_entries, change, reserved)),
{
    let commit = new_commit(header, block_entries, change, reserved);
    sorting::law_sorted_by_key(block_entries + commit::new_entries(change.0.blocks), 0);
    lemma_sorted_names_data(change.1);
    assert forall|i: int| 0 <= i < commit.blocks.len() implies (#[trigger] commit.blocks[i]).size
        == commit.blocks[i].data.size() by {
        assert(block_laws::block_wf(change.0.blocks[i]));
    }
}

impl Commit {
    /// A commit of a change to the file with the given header and blocks.
    pub fn new(
        header: Header,
        bbt_entries: Vec<UnicodeBlockBTreeEntry>,
        change: ChangePlan,
        reserved: Vec<NodeId>,
    ) -> (commit: Commit)
        requires
            header@.wf(),
            block_laws::plan_wf(change@.0),
            change.next_offset >= AMAP_FIRST_OFFSET,
            names_data(change.nbt_entries@),
        ensures
            commit@ == new_commit(header@, bbt_entries@, change@, reserved@),
            commit_wf(commit@),
    {
        let ghost given = change@;
        let mut entries = bbt_entries;
        commit::push_block_entries(&mut entries, &change.blocks);
        let sorted_entries = sorting::sort_by_key(&entries);
        let sorted_nodes = sorting::sort_by_key(&change.nbt_entries);
        let commit = Commit {
            stage: CommitStage::Start,
            header,
            bbt_entries: sorted_entries,
            nbt_entries: sorted_nodes,
            blocks: change.blocks,
            next_bid: change.next_bid,
            next_offset: change.next_offset,
            references: BlockReferences::new(),
            reserved,
            trees: None,
        };
        proof {
            assert(commit@.blocks == given.0.blocks);
            assert(commit@.blocks.len() == commit.blocks.len());
            law_new_commit_is_well_formed(header@, bbt_entries@, given, reserved@);
        }
        commit
    }

    /// Writes a B-tree page, or gives the file its length.
    fn write_page(&mut self, index: usize) -> (action: CommitAction)
        requires
            trees_wf(old(self)@),
        ensures
            (final(self)@, action@) == page_step(old(self)@, index),
    {
        match &self.trees {
            Some(trees) => {
                assert(trees@ == self@.trees->Some_0);
                if index < trees.pages.len() {
                    assert(trees@.plan.pages[index as int] == trees.pages@[index as int]@);
                    let write = encoding::write_btree_page(&trees.pages[index]);
                    self.stage = CommitStage::Pages(index + 1);
                    CommitAction::Write(write)
                } else {
                    let length: u64 = trees.new_eof;
                    self.stage = CommitStage::Resized;
                    CommitAction::SetLength(length)
                }
            },
            None => CommitAction::Done,
        }
    }

    /// Finds the next tree that is to be read, or plans the B-trees of the blocks in use.
    fn scan(&mut self) -> (action: Result<CommitAction, PstError>)
        requires
            sorting::is_sorted(old(self)@.block_entries),
            found_have_entries(old(self)@.references, old(self)@.block_entries),
            data_is_found(old(self)@.nodes, old(self)@.references),
            old(self)@.next_offset >= AMAP_FIRST_OFFSET,
        ensures
            match scan_step(old(self)@) {
                Ok((after, expected)) => final(self)@ == after && (action matches Ok(action)
                    && action@ == expected),
                Err(error) => action matches Err(found) && found == error,
            },
    {
        proof {
            lemma_scan(self@);
        }
        match self.references.next(&self.bbt_entries)? {
            Some(entry) => {
                self.stage = CommitStage::Compacting;
                Ok(CommitAction::ReadTree(entry))
            },
            None => self.plan_trees(),
        }
    }

    /// Plans the B-trees of the blocks in use and the nodes.
    fn plan_trees(&mut self) -> (action: Result<CommitAction, PstError>)
        requires
            old(self)@.nodes.len() > 0,
            compact::retained_entries(
                old(self)@.block_entries,
                old(self)@.references.references,
                old(self)@.block_entries.len(),
            ).len() > 0,
            old(self)@.next_offset >= AMAP_FIRST_OFFSET,
        ensures
            match plan_step(old(self)@) {
                Ok((after, expected)) => final(self)@ == after && (action matches Ok(action)
                    && action@ == expected),
                Err(error) => action matches Err(found) && found == error,
            },
    {
        let retained = self.references.finish(&self.bbt_entries)?;
        let trees = commit::plan_btrees(
            self.header.next_page,
            self.next_offset,
            &retained,
            &self.nbt_entries,
        )?;
        let ghost planned = trees@;
        proof {
            assert(planned.plan.pages.len() == trees.pages.len());
            lemma_trees(self.header@.next_page, self.next_offset, retained@, self.nbt_entries@);
        }
        self.bbt_entries = retained;
        self.trees = Some(trees);
        self.stage = CommitStage::Pages(0);
        assert(self@ =~= CommitState {
            stage: CommitStage::Pages(0),
            block_entries: retained@,
            trees: Some(planned),
            ..old(self)@
        });
        Ok(self.write_page(0))
    }

    /// Writes the header that names the new B-trees.
    fn switch(&mut self) -> (action: Result<CommitAction, PstError>)
        requires
            old(self)@.header.wf(),
            trees_wf(old(self)@),
        ensures
            match switch_step(old(self)@) {
                Ok((after, expected)) => final(self)@ == after && (action matches Ok(action)
                    && action@ == expected),
                Err(error) => action matches Err(found) && found == error,
            },
    {
        match &self.trees {
            Some(trees) => {
                commit::finish_commit(&mut self.header, trees, self.next_bid, &self.reserved)?;
            },
            None => {},
        }
        self.stage = CommitStage::Switched;
        Ok(CommitAction::WriteHeader(self.header.copy()))
    }

    /// The next action. After a tree was read, it is handed in. An error ends the commit.
    pub fn next(&mut self, tree: Option<&InternalBlock>) -> (action: Result<CommitAction, PstError>)
        requires
            commit_wf(old(self)@),
        ensures
            match step(old(self)@, tree_children(tree)) {
                Ok((after, expected)) => final(self)@ == after && commit_wf(after) && (
                action matches Ok(action) && action@ == expected),
                Err(error) => action matches Err(found) && found == error,
            },
    {
        let ghost before = self@;
        proof {
            law_step_keeps_commit_well_formed(before, tree_children(tree));
        }
        let result = self.perform(tree);
        proof {
            if let Ok((after, _)) = step(before, tree_children(tree)) {
                assert(self@ == after);
                if let Some(trees) = &self.trees {
                    assert(after.trees == Some(trees@));
                    assert(trees@.plan.pages.len() == trees.pages.len());
                }
            }
        }
        result
    }

    /// The next action.
    fn perform(&mut self, tree: Option<&InternalBlock>) -> (action: Result<CommitAction, PstError>)
        requires
            commit_wf(old(self)@),
        ensures
            match step(old(self)@, tree_children(tree)) {
                Ok((after, expected)) => final(self)@ == after && (action matches Ok(action)
                    && action@ == expected),
                Err(error) => action matches Err(found) && found == error,
            },
    {
        reveal(step);
        match self.stage {
            CommitStage::Start => {
                commit::begin_commit(&mut self.header);
                self.stage = CommitStage::Announced;
                Ok(CommitAction::WriteHeader(self.header.copy()))
            },
            CommitStage::Announced => {
                self.stage = CommitStage::Blocks(0);
                Ok(CommitAction::SyncData)
            },
            CommitStage::Blocks(index) => {
                if index < self.blocks.len() {
                    assert(self@.blocks[index as int] == self.blocks@[index as int]@);
                    let write = encoding::write_new_block(&self.blocks[index])?;
                    self.stage = CommitStage::Blocks(index + 1);
                    Ok(CommitAction::Write(write))
                } else {
                    self.stage = CommitStage::BlocksSynced;
                    Ok(CommitAction::SyncData)
                }
            },
            CommitStage::BlocksSynced => {
                proof {
                    lemma_recorded(self@, compact::node_blocks(self@.nodes, self@.nodes.len()));
                }
                self.references.record_nodes(&self.nbt_entries)?;
                self.scan()
            },
            CommitStage::Compacting => {
                proof {
                    lemma_recorded(self@, tree_children(tree));
                }
                let children: Vec<UnicodeBlockId> = match tree {
                    Some(tree) => tree.children(),
                    None => Vec::new(),
                };
                self.references.record_children(&children)?;
                self.scan()
            },
            CommitStage::Pages(index) => Ok(self.write_page(index)),
            CommitStage::Resized => {
                self.stage = CommitStage::PagesSynced;
                Ok(CommitAction::SyncData)
            },
            CommitStage::PagesSynced => self.switch(),
            CommitStage::Switched => {
                self.stage = CommitStage::Done;
                Ok(CommitAction::SyncAll)
            },
            CommitStage::Done => Ok(CommitAction::Done),
        }
    }
}

} // verus!
