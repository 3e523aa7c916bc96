//! Which blocks a commit keeps in the block B-tree.

use vstd::prelude::*;

use crate::error::PstError;
use crate::ndb::btree::{PageType, UnicodeBlockBTreeEntry, UnicodeNodeBTreeEntry};
use crate::ndb::btree_laws;
use crate::ndb::commit;
use crate::ndb::commit::PlannedBTrees;
use crate::ndb::compact;
use crate::ndb::compact::ReferenceState;
use crate::ndb::ids::UnicodeBlockId;
use crate::ndb::transaction;
use crate::ndb::transaction::{ActionContents, CommitStage, CommitState};
use crate::sorting::Keyed;

verus! {

/// The blocks that the nodes of a commit refer to.
pub open spec fn roots(start: CommitState) -> Seq<UnicodeBlockId> {
    compact::node_blocks(start.nodes, start.nodes.len())
}

/// Whether the nodes of a commit reach the block with the given key. The trees in the file refer to the
/// blocks that `children` gives for their keys.
pub open spec fn in_use(
    start: CommitState,
    children: spec_fn(u64) -> Seq<UnicodeBlockId>,
    key: u64,
) -> bool {
    exists|steps: nat| compact::reachable(roots(start), children, key, steps)
}

/// The references with a tree that is being read among those that are still to be looked into.
pub open spec fn with_reading(
    references: ReferenceState,
    entry: UnicodeBlockBTreeEntry,
) -> ReferenceState {
    ReferenceState { pending: seq![entry.block.block] + references.pending, ..references }
}

/// Whether a block has an entry.
pub open spec fn has_entry(entries: Seq<UnicodeBlockBTreeEntry>, key: u64) -> bool {
    exists|i: int| 0 <= i < entries.len() && (#[trigger] entries[i]).spec_key() == key
}

/// Whether a commit that has planned its B-trees keeps the entries of the blocks in use.
pub open spec fn has_kept(
    start: CommitState,
    state: CommitState,
    children: spec_fn(u64) -> Seq<UnicodeBlockId>,
) -> bool {
    &&& compact::compaction_inv(roots(start), children, state.references)
    &&& state.references.pending.len() == 0
    &&& forall|key: u64| #[trigger]
        state.references.references.contains_key(key) ==> has_entry(start.block_entries, key)
    &&& compact::compacted_entries(start.block_entries, state.references.references) == Ok::<
        Seq<UnicodeBlockBTreeEntry>,
        PstError,
    >(state.block_entries)
    &&& state.block_entries.len() > 0
    &&& start.nodes.len() > 0
    &&& commit::planned_btrees(
        start.header.next_page,
        start.next_offset,
        state.block_entries,
        start.nodes,
    ) == Ok::<PlannedBTrees, PstError>(state.trees->Some_0)
}

/// Whether a commit that began as `start`, and of which the tree with the entry `reading` is being read
/// where one is, finds the blocks in use.
pub open spec fn finds_used(
    start: CommitState,
    state: CommitState,
    children: spec_fn(u64) -> Seq<UnicodeBlockId>,
    reading: Option<UnicodeBlockBTreeEntry>,
) -> bool {
    &&& state.nodes == start.nodes
    &&& state.next_offset == start.next_offset
    &&& match state.stage {
        CommitStage::Start
        | CommitStage::Announced
        | CommitStage::Blocks(_)
        | CommitStage::BlocksSynced => {
            &&& state.block_entries == start.block_entries
            &&& state.header.next_page == start.header.next_page
        },
        CommitStage::Compacting => {
            &&& state.block_entries == start.block_entries
            &&& state.header.next_page == start.header.next_page
            &&& reading matches Some(entry) && entry.block.block.spec_is_internal()
                && compact::compaction_inv(
                roots(start),
                children,
                with_reading(state.references, entry),
            )
        },
        _ => has_kept(start, state, children),
    }
}

/// The tree that is being read during an action.
pub open spec fn tree_read(action: ActionContents) -> Option<UnicodeBlockBTreeEntry> {
    match action {
        ActionContents::ReadTree(entry) => Some(entry),
        _ => None,
    }
}

proof fn lemma_same_mark(left: UnicodeBlockId, right: UnicodeBlockId)
    requires
        left.spec_search_key() == right.spec_search_key(),
    ensures
        left.spec_is_internal() == right.spec_is_internal(),
{
    assert((left.value - left.value % 2) / 2 == left.value / 2);
    assert((right.value - right.value % 2) / 2 == right.value / 2);
}

proof fn lemma_found_entry(entries: Seq<UnicodeBlockBTreeEntry>, key: u64, index: int)
    requires
        0 <= index,
    ensures
        compact::entry_with_key(entries, key, index) matches Some(entry) ==> entry.spec_key() == key
            && has_entry(entries, key),
    decreases entries.len() - index,
{
    if index < entries.len() && entries[index].spec_key() != key {
        lemma_found_entry(entries, key, index + 1);
    }
}

proof fn lemma_put_back(
    roots: Seq<UnicodeBlockId>,
    children: spec_fn(u64) -> Seq<UnicodeBlockId>,
    state: ReferenceState,
    entry: UnicodeBlockBTreeEntry,
)
    requires
        compact::compaction_inv(roots, children, state),
        state.pending.len() > 0,
        entry.block.block.spec_search_key() == state.pending[0].spec_search_key(),
    ensures
        compact::compaction_inv(
            roots,
            children,
            with_reading(
                ReferenceState { pending: state.pending.skip(1), ..state },
                entry,
            ),
        ),
{
    let rest = ReferenceState { pending: state.pending.skip(1), ..state };
    let back = with_reading(rest, entry);
    assert(back.pending.len() == state.pending.len());
    assert forall|i: int| 0 <= i < state.pending.len() implies (
    #[trigger] back.pending[i]).spec_search_key() == state.pending[i].spec_search_key() by {
        if i > 0 {
            assert(back.pending[i] == rest.pending[i - 1]);
        }
    }
    assert forall|i: int| 0 <= i < back.pending.len() implies back.references.contains_key(
        (#[trigger] back.pending[i]).spec_search_key(),
    ) by {
        assert(state.references.contains_key(state.pending[i].spec_search_key()));
    }
    assert forall|key: u64| compact::is_pending(state, key) implies #[trigger] compact::is_pending(
        back,
        key,
    ) by {
        let i = choose|i: int|
            0 <= i < state.pending.len() && (#[trigger] state.pending[i]).spec_search_key() == key;
        assert(back.pending[i].spec_search_key() == key);
    }
    assert forall|key: u64| #[trigger] compact::is_pending(back, key) implies compact::is_pending(
        state,
        key,
    ) by {
        let i = choose|i: int|
            0 <= i < back.pending.len() && (#[trigger] back.pending[i]).spec_search_key() == key;
        assert(state.pending[i].spec_search_key() == key);
    }
    let looked = choose|looked: Seq<u64>| compact::has_counted(roots, children, looked, state);
    assert forall|i: int, j: int| 0 <= i < j < back.pending.len() implies (
    #[trigger] back.pending[i]).spec_search_key() != (#[trigger] back.pending[j]).spec_search_key() by {
        assert(state.pending[i].spec_search_key() != state.pending[j].spec_search_key());
    }
    assert forall|key: u64| #[trigger] looked.contains(key) <==> back.references.contains_key(key)
        && compact::is_internal_key(key) && !compact::is_pending(back, key) by {
        assert(compact::is_pending(state, key) <==> compact::is_pending(back, key));
    }
    assert(compact::has_counted(roots, children, looked, back));
}

proof fn lemma_next_tree(
    roots: Seq<UnicodeBlockId>,
    children: spec_fn(u64) -> Seq<UnicodeBlockId>,
    state: ReferenceState,
    entries: Seq<UnicodeBlockBTreeEntry>,
)
    requires
        compact::compaction_inv(roots, children, state),
    ensures
        match compact::next_internal(state, entries) {
            (after, Ok(Some(entry))) => entry.block.block.spec_is_internal()
                && compact::compaction_inv(roots, children, with_reading(after, entry)),
            (after, Ok(None)) => after.pending.len() == 0 && compact::compaction_inv(
                roots,
                children,
                after,
            ),
            _ => true,
        },
    decreases state.pending.len(),
{
    if state.pending.len() > 0 {
        let block = state.pending[0];
        let rest = ReferenceState { pending: state.pending.skip(1), ..state };
        lemma_found_entry(entries, block.spec_search_key(), 0);
        if let Some(entry) = compact::entry_with_key(entries, block.spec_search_key(), 0) {
            if block.spec_is_internal() {
                lemma_same_mark(block, entry.block.block);
                lemma_put_back(roots, children, state, entry);
            } else {
                compact::law_compaction_steps(roots, children, state);
                lemma_next_tree(roots, children, rest, entries);
            }
        }
    }
}

proof fn lemma_recorded_references(
    start: CommitState,
    state: CommitState,
    children: spec_fn(u64) -> Seq<UnicodeBlockId>,
    reading: Option<UnicodeBlockBTreeEntry>,
    blocks: Seq<UnicodeBlockId>,
)
    requires
        transaction::commit_wf(state),
        finds_used(start, state, children, reading),
        state.stage is BlocksSynced || state.stage is Compacting,
        state.stage is BlocksSynced ==> blocks == roots(start),
        state.stage is Compacting ==> blocks == children(
            reading->Some_0.block.block.spec_search_key(),
        ),
    ensures
        compact::with_references(state.references, blocks, 0) matches Ok(after)
            ==> compact::compaction_inv(roots(start), children, after),
{
    if state.stage is BlocksSynced {
        compact::law_compaction_starts(roots(start), children);
    } else {
        let back = with_reading(state.references, reading->Some_0);
        compact::law_compaction_steps(roots(start), children, back);
        assert(back.pending.skip(1) =~= state.references.pending);
    }
}

proof fn lemma_compaction_finds(
    start: CommitState,
    state: CommitState,
    children: spec_fn(u64) -> Seq<UnicodeBlockId>,
    reading: Option<UnicodeBlockBTreeEntry>,
    blocks: Seq<UnicodeBlockId>,
)
    requires
        transaction::commit_wf(state),
        finds_used(start, state, children, reading),
        state.stage is BlocksSynced || state.stage is Compacting,
        state.stage is BlocksSynced ==> blocks == roots(start),
        state.stage is Compacting ==> blocks == children(
            reading->Some_0.block.block.spec_search_key(),
        ),
    ensures
        transaction::compaction_step(state, blocks) matches Ok((after, action)) ==> finds_used(
            start,
            after,
            children,
            tree_read(action),
        ),
{
    lemma_recorded_references(start, state, children, reading, blocks);
    transaction::lemma_recorded(state, blocks);
    if let Ok(recorded) = compact::with_references(state.references, blocks, 0) {
        lemma_next_tree(roots(start), children, recorded, state.block_entries);
        transaction::lemma_scan(CommitState { references: recorded, ..state });
        if let (references, Ok(None)) = compact::next_internal(recorded, state.block_entries) {
            assert forall|key: u64| #[trigger] references.references.contains_key(key) implies
                has_entry(start.block_entries, key) by {
                assert(!compact::is_pending(references, key));
                lemma_found_entry(start.block_entries, key, 0);
            }
        }
    }
}

/// At every step a commit has found only blocks that its nodes reach, and the B-trees that it plans hold
/// the entries of all blocks found, and the nodes. This is so where each tree that is handed in refers to
/// the blocks that `children` gives for it.
pub proof fn law_commit_finds_used_blocks(
    start: CommitState,
    state: CommitState,
    children: spec_fn(u64) -> Seq<UnicodeBlockId>,
    reading: Option<UnicodeBlockBTreeEntry>,
    blocks: Seq<UnicodeBlockId>,
)
    requires
        transaction::commit_wf(state),
        finds_used(start, state, children, reading),
        state.stage is Compacting ==> blocks == children(
            reading->Some_0.block.block.spec_search_key(),
        ),
    ensures
        transaction::step(state, blocks) matches Ok((after, action)) ==> finds_used(
            start,
            after,
            children,
            tree_read(action),
        ),
{
    reveal(transaction::step);
    match state.stage {
        CommitStage::BlocksSynced => {
            lemma_compaction_finds(start, state, children, reading, roots(start));
        },
        CommitStage::Compacting => {
            lemma_compaction_finds(start, state, children, reading, blocks);
        },
        _ => {},
    }
}

proof fn lemma_root_is_in_use(
    start: CommitState,
    children: spec_fn(u64) -> Seq<UnicodeBlockId>,
    block: UnicodeBlockId,
)
    requires
        roots(start).contains(block),
        block.spec_search_key() != 0,
    ensures
        in_use(start, children, block.spec_search_key()),
{
    let i = choose|i: int| 0 <= i < roots(start).len() && roots(start)[i] == block;
    let key = block.spec_search_key();
    compact::lemma_occurs(roots(start), key, i, roots(start).len());
    assert(compact::reachable(roots(start), children, key, 0));
}

/// The data and the subnodes of every node are in use, and so is every block that a tree in use refers
/// to.
pub proof fn law_blocks_in_use(
    start: CommitState,
    children: spec_fn(u64) -> Seq<UnicodeBlockId>,
    node: UnicodeNodeBTreeEntry,
    tree: UnicodeBlockId,
    block: UnicodeBlockId,
)
    ensures
        start.nodes.contains(node) && node.data.spec_search_key() != 0 ==> in_use(
            start,
            children,
            node.data.spec_search_key(),
        ),
        start.nodes.contains(node) ==> (node.sub_node matches Some(root) ==> root.spec_search_key()
            != 0 ==> in_use(start, children, root.spec_search_key())),
        in_use(start, children, tree.spec_search_key()) && tree.spec_is_internal() && children(
            tree.spec_search_key(),
        ).contains(block) && block.spec_search_key() != 0 ==> in_use(
            start,
            children,
            block.spec_search_key(),
        ),
{
    if start.nodes.contains(node) {
        let i = choose|i: int| 0 <= i < start.nodes.len() && start.nodes[i] == node;
        compact::lemma_node_blocks(start.nodes, i, start.nodes.len());
        if node.data.spec_search_key() != 0 {
            lemma_root_is_in_use(start, children, node.data);
        }
        if let Some(root) = node.sub_node {
            if root.spec_search_key() != 0 {
                lemma_root_is_in_use(start, children, root);
            }
        }
    }
    let parent = tree.spec_search_key();
    let key = block.spec_search_key();
    if in_use(start, children, parent) && tree.spec_is_internal() && children(parent).contains(
        block,
    ) && key != 0 {
        let steps = choose|steps: nat| compact::reachable(roots(start), children, parent, steps);
        let list = children(parent);
        let i = choose|i: int| 0 <= i < list.len() && list[i] == block;
        compact::lemma_occurs(list, key, i, list.len());
        lemma_same_mark(tree, UnicodeBlockId { value: parent });
        assert(compact::reachable(roots(start), children, key, steps + 1));
    }
}

/// How often the nodes and the given trees refer to the block with the given key.
pub open spec fn reference_count(
    start: CommitState,
    children: spec_fn(u64) -> Seq<UnicodeBlockId>,
    trees: Seq<u64>,
    key: u64,
) -> nat {
    compact::occurrences(roots(start), key, roots(start).len()) + compact::occurrences_below(
        children,
        trees,
        trees.len(),
        key,
    )
}

/// The B-trees that a commit plans read back as the nodes and as the entries of the blocks in use: a
/// block has an entry if and only if the nodes reach it, and the entry says where the block was before
/// and how often the nodes and the trees that they reach refer to it, and one more.
pub proof fn law_committed_btrees(
    start: CommitState,
    state: CommitState,
    children: spec_fn(u64) -> Seq<UnicodeBlockId>,
    entry: UnicodeBlockBTreeEntry,
) -> (trees: Seq<u64>)
    requires
        has_kept(start, state, children),
    ensures
        compact::are_reached_trees(roots(start), children, trees),
        ({
            let trees = state.trees->Some_0;
            &&& commit::reads_back(
                trees.plan,
                PageType::BlockBTree,
                trees.block_btree,
                btree_laws::block_entries(state.block_entries),
            )
            &&& commit::reads_back(
                trees.plan,
                PageType::NodeBTree,
                trees.node_btree,
                btree_laws::node_entries(start.nodes),
            )
        }),
        has_entry(state.block_entries, entry.spec_key()) <==> in_use(
            start,
            children,
            entry.spec_key(),
        ),
        start.block_entries.contains(entry) && in_use(start, children, entry.spec_key())
            ==> reference_count(start, children, trees, entry.spec_key()) + 1 <= u16::MAX
            && state.block_entries.contains(
            (UnicodeBlockBTreeEntry {
                ref_count: (reference_count(start, children, trees, entry.spec_key()) + 1) as u16,
                ..entry
            }),
        ),
{
    let references = state.references.references;
    let entries = start.block_entries;
    let key = entry.spec_key();
    commit::law_planned_btrees_read_back(
        start.header.next_page,
        start.next_offset,
        state.block_entries,
        start.nodes,
    );
    let trees = compact::law_compaction_finds_reachable_blocks(
        roots(start),
        children,
        state.references,
        key,
    );
    assert(entries.take(entries.len() as int) =~= entries);
    compact::law_retained_entries(entries, references, entries.len(), entry);
    if in_use(start, children, key) {
        assert(has_entry(entries, key));
        let i = choose|i: int| 0 <= i < entries.len() && (#[trigger] entries[i]).spec_key() == key;
        compact::law_retained_entries(entries, references, entries.len(), entries[i]);
        let kept = UnicodeBlockBTreeEntry {
            ref_count: (references[key] + 1) as u16,
            ..entries[i]
        };
        assert(entries.contains(entries[i]));
        assert(state.block_entries.contains(kept));
        let j = choose|j: int| 0 <= j < state.block_entries.len() && state.block_entries[j] == kept;
        assert(state.block_entries[j].spec_key() == key);
    }
    if has_entry(state.block_entries, key) {
        let i = choose|i: int|
            0 <= i < state.block_entries.len() && (#[trigger] state.block_entries[i]).spec_key()
                == key;
        assert(state.block_entries.contains(state.block_entries[i]));
        compact::law_retained_entries(
            entries,
            references,
            entries.len(),
            state.block_entries[i],
        );
    }
    trees
}

} // verus!
