//! Compaction of the block B-tree: only blocks that a node reaches stay, with the number of
//! references to them. The caller reads the trees in internal blocks.

use std::collections::{BTreeMap, VecDeque};

use vstd::prelude::*;

use crate::error::{IoError, NdbError, PstError};
use crate::ndb::block::{UnicodeIntermediateSubNodeTreeEntry, UnicodeLeafSubNodeTreeEntry};
use crate::ndb::btree::{UnicodeBlockBTreeEntry, UnicodeNodeBTreeEntry};
use crate::ndb::ids::UnicodeBlockId;
use crate::sorting;
use crate::sorting::Keyed;

verus! {

/// What an internal block holds.
#[derive(Clone, Copy, PartialEq, Eq, Debug, Structural)]
pub enum InternalBlockType {
    DataTree,
    SubNodeTree,
}

/// The type of an internal block by its first byte.
pub fn internal_block_type(value: u8) -> (block_type: Result<InternalBlockType, PstError>)
    ensures
        block_type == (match value {
            0x01 => Ok(InternalBlockType::DataTree),
            0x02 => Ok(InternalBlockType::SubNodeTree),
            _ => Err(PstError::NodeDatabaseError(NdbError::InvalidInternalBlockType(value))),
        }),
{
    match value {
        0x01 => Ok(InternalBlockType::DataTree),
        0x02 => Ok(InternalBlockType::SubNodeTree),
        value => Err(PstError::NodeDatabaseError(NdbError::InvalidInternalBlockType(value))),
    }
}

/// A tree in an internal block.
pub enum InternalBlock {
    DataTree(Vec<UnicodeBlockId>),
    SubNodes(Vec<UnicodeLeafSubNodeTreeEntry>),
    IntermediateSubNodes(Vec<UnicodeIntermediateSubNodeTreeEntry>),
}

/// The blocks that the first `count` subnodes refer to: the data of each, and its subnodes where it
/// has any.
pub open spec fn subnode_blocks(
    entries: Seq<UnicodeLeafSubNodeTreeEntry>,
    count: nat,
) -> Seq<UnicodeBlockId>
    decreases count,
{
    if count == 0 {
        Seq::empty()
    } else {
        let before = subnode_blocks(entries, (count - 1) as nat).push(entries[count - 1].block);
        match entries[count - 1].sub_node {
            Some(block) => before.push(block),
            None => before,
        }
    }
}

/// The blocks that the first `count` nodes refer to: the data of each, and its subnodes where it
/// has any.
pub open spec fn node_blocks(
    nodes: Seq<UnicodeNodeBTreeEntry>,
    count: nat,
) -> Seq<UnicodeBlockId>
    decreases count,
{
    if count == 0 {
        Seq::empty()
    } else {
        let before = node_blocks(nodes, (count - 1) as nat).push(nodes[count - 1].data);
        match nodes[count - 1].sub_node {
            Some(block) => before.push(block),
            None => before,
        }
    }
}

pub proof fn lemma_node_blocks(nodes: Seq<UnicodeNodeBTreeEntry>, index: int, count: nat)
    requires
        0 <= index < count <= nodes.len(),
    ensures
        node_blocks(nodes, count).contains(nodes[index].data),
        nodes[index].sub_node matches Some(block) ==> node_blocks(nodes, count).contains(
            block,
        ),
    decreases count,
{
    let before = node_blocks(nodes, (count - 1) as nat);
    let all = node_blocks(nodes, count);
    if index == count - 1 {
        assert(all[before.len() as int] == nodes[index].data);
        if nodes[index].sub_node is Some {
            assert(all[before.len() as int + 1] == nodes[index].sub_node->Some_0);
        }
    } else {
        lemma_node_blocks(nodes, index, (count - 1) as nat);
        assert forall|block: UnicodeBlockId| before.contains(block) implies all.contains(block) by {
            let i = choose|i: int| 0 <= i < before.len() && before[i] == block;
            assert(all[i] == block);
        }
    }
}

impl InternalBlock {
    /// The blocks that the tree refers to.
    pub open spec fn spec_children(&self) -> Seq<UnicodeBlockId> {
        match self {
            InternalBlock::DataTree(blocks) => blocks@,
            InternalBlock::SubNodes(entries) => subnode_blocks(entries@, entries@.len()),
            InternalBlock::IntermediateSubNodes(entries) => Seq::new(
                entries@.len(),
                |i: int| entries@[i].block,
            ),
        }
    }

    /// The blocks that the tree refers to.
    pub fn children(&self) -> (blocks: Vec<UnicodeBlockId>)
        ensures
            blocks@ == self.spec_children(),
    {
        let mut blocks: Vec<UnicodeBlockId> = Vec::new();
        match self {
            InternalBlock::DataTree(children) => {
                let copy: Vec<UnicodeBlockId> = vstd::slice::slice_to_vec(children.as_slice());
                assert(copy@ =~= children@);
                blocks = copy;
            },
            InternalBlock::SubNodes(entries) => {
                let mut i: usize = 0;
                while i < entries.len()
                    invariant
                        i <= entries@.len(),
                        blocks@ == subnode_blocks(entries@, i as nat),
                    decreases entries@.len() - i,
                {
                    blocks.push(entries[i].block);
                    match entries[i].sub_node {
                        Some(block) => {
                            blocks.push(block);
                        },
                        None => {},
                    }
                    i += 1;
                }
            },
            InternalBlock::IntermediateSubNodes(entries) => {
                let mut i: usize = 0;
                while i < entries.len()
                    invariant
                        i <= entries@.len(),
                        blocks@ == Seq::new(i as nat, |j: int| entries@[j].block),
                    decreases entries@.len() - i,
                {
                    blocks.push(entries[i].block);
                    i += 1;
                    assert(blocks@ =~= Seq::new(i as nat, |j: int| entries@[j].block));
                }
                assert(blocks@ =~= self.spec_children());
            },
        }
        blocks
    }
}

/// The number of references to every block found so far, and the blocks that are still to be looked
/// into.
#[verifier::ext_equal]
pub struct ReferenceState {
    pub references: Map<u64, u16>,
    pub pending: Seq<UnicodeBlockId>,
}

/// The number of references to the block with the given key.
pub open spec fn count_of(references: Map<u64, u16>, key: u64) -> u16 {
    if references.contains_key(key) {
        references[key]
    } else {
        0
    }
}

/// The state with one more reference. A block that is found for the first time is to be looked
/// into. The key zero names no block.
pub open spec fn with_reference(state: ReferenceState, block: UnicodeBlockId) -> Result<
    ReferenceState,
    PstError,
> {
    let key = block.spec_search_key();
    let count = count_of(state.references, key);
    if key == 0 {
        Ok(state)
    } else if count == u16::MAX {
        Err(PstError::IntegerConversion)
    } else {
        Ok(
            ReferenceState {
                references: state.references.insert(key, (count + 1) as u16),
                pending: if count == 0 {
                    state.pending.push(block)
                } else {
                    state.pending
                },
            },
        )
    }
}

/// The state with the references from `index` on.
pub open spec fn with_references(
    state: ReferenceState,
    blocks: Seq<UnicodeBlockId>,
    index: int,
) -> Result<ReferenceState, PstError>
    decreases blocks.len() - index,
{
    if index >= blocks.len() {
        Ok(state)
    } else {
        match with_reference(state, blocks[index]) {
            Err(error) => Err(error),
            Ok(next) => with_references(next, blocks, index + 1),
        }
    }
}

/// The first of the entries from `index` on that has the given key.
pub open spec fn entry_with_key(
    entries: Seq<UnicodeBlockBTreeEntry>,
    key: u64,
    index: int,
) -> Option<UnicodeBlockBTreeEntry>
    decreases entries.len() - index,
{
    if index >= entries.len() {
        None
    } else if entries[index].spec_key() == key {
        Some(entries[index])
    } else {
        entry_with_key(entries, key, index + 1)
    }
}

/// The next internal block that is to be looked into, and the state without the blocks before it
/// and itself. Every block has to have an entry.
pub open spec fn next_internal(
    state: ReferenceState,
    entries: Seq<UnicodeBlockBTreeEntry>,
) -> (ReferenceState, Result<Option<UnicodeBlockBTreeEntry>, PstError>)
    decreases state.pending.len(),
{
    if state.pending.len() == 0 {
        (state, Ok(None))
    } else {
        let block = state.pending[0];
        let rest = ReferenceState { pending: state.pending.skip(1), ..state };
        match entry_with_key(entries, block.spec_search_key(), 0) {
            None => (rest, Err(PstError::Io(IoError::BlockMissing(block.spec_search_key())))),
            Some(entry) => if block.spec_is_internal() {
                (rest, Ok(Some(entry)))
            } else {
                next_internal(rest, entries)
            },
        }
    }
}

/// The entries among the first `count` whose blocks are referred to, with the number of references
/// and one for the entry itself.
pub open spec fn retained_entries(
    entries: Seq<UnicodeBlockBTreeEntry>,
    references: Map<u64, u16>,
    count: nat,
) -> Seq<UnicodeBlockBTreeEntry>
    decreases count,
{
    if count == 0 {
        Seq::empty()
    } else {
        let before = retained_entries(entries, references, (count - 1) as nat);
        let entry = entries[count - 1];
        if references.contains_key(entry.spec_key()) {
            before.push(
                UnicodeBlockBTreeEntry {
                    ref_count: (references[entry.spec_key()] + 1) as u16,
                    ..entry
                },
            )
        } else {
            before
        }
    }
}

/// Whether the reference count of some entry does not fit.
pub open spec fn counts_overflow(
    entries: Seq<UnicodeBlockBTreeEntry>,
    references: Map<u64, u16>,
) -> bool {
    exists|i: int|
        0 <= i < entries.len() && references.contains_key((#[trigger] entries[i]).spec_key())
            && references[entries[i].spec_key()] == u16::MAX
}

/// The entries that stay in the block B-tree.
pub open spec fn compacted_entries(
    entries: Seq<UnicodeBlockBTreeEntry>,
    references: Map<u64, u16>,
) -> Result<Seq<UnicodeBlockBTreeEntry>, PstError> {
    if counts_overflow(entries, references) {
        Err(PstError::IntegerConversion)
    } else {
        Ok(retained_entries(entries, references, entries.len()))
    }
}

/// The number of references to the blocks found so far.
pub struct BlockReferences {
    pub references: BTreeMap<u64, u16>,
    pub pending: VecDeque<UnicodeBlockId>,
}

impl View for BlockReferences {
    type V = ReferenceState;

    open spec fn view(&self) -> ReferenceState {
        ReferenceState { references: self.references@, pending: self.pending@ }
    }
}

impl BlockReferences {
    /// No references yet.
    pub fn new() -> (state: BlockReferences)
        ensures
            state@ == (ReferenceState { references: Map::empty(), pending: Seq::empty() }),
    {
        BlockReferences { references: BTreeMap::new(), pending: VecDeque::new() }
    }

    /// The number of references to the block with the given key.
    fn count(&self, key: u64) -> (count: u16)
        ensures
            count == count_of(self@.references, key),
    {
        match self.references.get(&key) {
            Some(count) => *count,
            None => 0,
        }
    }

    /// Records one more reference to a block.
    pub fn record_block_reference(&mut self, block: UnicodeBlockId) -> (result: Result<
        (),
        PstError,
    >)
        ensures
            match with_reference(old(self)@, block) {
                Ok(after) => result is Ok && final(self)@ == after,
                Err(error) => result == Err::<(), PstError>(error),
            },
    {
        let key: u64 = block.search_key();
        if key == 0 {
            return Ok(());
        }
        let count: u16 = self.count(key);
        if count == u16::MAX {
            return Err(PstError::IntegerConversion);
        }
        if count == 0 {
            self.pending.push_back(block);
        }
        self.references.insert(key, count + 1);
        assert(self@ =~= with_reference(old(self)@, block)->Ok_0);
        Ok(())
    }

    /// Records references to blocks.
    pub fn record_children(&mut self, blocks: &Vec<UnicodeBlockId>) -> (result: Result<
        (),
        PstError,
    >)
        ensures
            match with_references(old(self)@, blocks@, 0) {
                Ok(after) => result is Ok && final(self)@ == after,
                Err(error) => result == Err::<(), PstError>(error),
            },
    {
        let mut i: usize = 0;
        while i < blocks.len()
            invariant
                i <= blocks@.len(),
                with_references(old(self)@, blocks@, 0) == with_references(
                    self@,
                    blocks@,
                    i as int,
                ),
            decreases blocks@.len() - i,
        {
            self.record_block_reference(blocks[i])?;
            i += 1;
        }
        Ok(())
    }

    /// Records the references of nodes.
    pub fn record_nodes(&mut self, nodes: &Vec<UnicodeNodeBTreeEntry>) -> (result: Result<
        (),
        PstError,
    >)
        ensures
            match with_references(old(self)@, node_blocks(nodes@, nodes@.len()), 0) {
                Ok(after) => result is Ok && final(self)@ == after,
                Err(error) => result == Err::<(), PstError>(error),
            },
    {
        let mut blocks: Vec<UnicodeBlockId> = Vec::new();
        let mut i: usize = 0;
        while i < nodes.len()
            invariant
                i <= nodes@.len(),
                blocks@ == node_blocks(nodes@, i as nat),
            decreases nodes@.len() - i,
        {
            blocks.push(nodes[i].data);
            match nodes[i].sub_node {
                Some(block) => {
                    blocks.push(block);
                },
                None => {},
            }
            i += 1;
        }
        self.record_children(&blocks)
    }

    /// The entry of the next internal block that is to be looked into.
    pub fn next(&mut self, entries: &Vec<UnicodeBlockBTreeEntry>) -> (entry: Result<
        Option<UnicodeBlockBTreeEntry>,
        PstError,
    >)
        requires
            sorting::is_sorted(entries@),
        ensures
            (final(self)@, entry) == next_internal(old(self)@, entries@),
    {
        while self.pending.len() > 0
            invariant
                sorting::is_sorted(entries@),
                next_internal(old(self)@, entries@) == next_internal(self@, entries@),
            decreases self.pending@.len(),
        {
            let ghost before = self@;
            match self.pending.pop_front() {
                Some(block) => {
                    assert(self@.pending =~= before.pending.skip(1));
                    match find_entry(entries, block.search_key()) {
                        None => {
                            return Err(PstError::Io(IoError::BlockMissing(block.search_key())));
                        },
                        Some(entry) => {
                            if block.is_internal() {
                                return Ok(Some(entry));
                            }
                        },
                    }
                },
                None => {},
            }
        }
        Ok(None)
    }

    /// The entries that stay in the block B-tree.
    pub fn finish(&self, entries: &Vec<UnicodeBlockBTreeEntry>) -> (retained: Result<
        Vec<UnicodeBlockBTreeEntry>,
        PstError,
    >)
        ensures
            crate::error::result_view(retained) == compacted_entries(entries@, self@.references),
    {
        let mut retained: Vec<UnicodeBlockBTreeEntry> = Vec::new();
        let mut i: usize = 0;
        while i < entries.len()
            invariant
                i <= entries@.len(),
                retained@ == retained_entries(entries@, self@.references, i as nat),
                forall|j: int|
                    0 <= j < i && self@.references.contains_key((#[trigger] entries@[j]).spec_key())
                        ==> self@.references[entries@[j].spec_key()] != u16::MAX,
            decreases entries@.len() - i,
        {
            let entry: UnicodeBlockBTreeEntry = entries[i];
            match self.references.get(&entry.key()) {
                Some(count) => {
                    if *count == u16::MAX {
                        assert(self@.references.contains_key(entries@[i as int].spec_key()));
                        return Err(PstError::IntegerConversion);
                    }
                    retained.push(
                        UnicodeBlockBTreeEntry {
                            block: entry.block,
                            size: entry.size,
                            ref_count: *count + 1,
                        },
                    );
                },
                None => {},
            }
            i += 1;
        }
        Ok(retained)
    }
}

proof fn lemma_entry_from(entries: Seq<UnicodeBlockBTreeEntry>, key: u64, from: int, to: int)
    requires
        0 <= from <= to <= entries.len(),
        forall|i: int| from <= i < to ==> (#[trigger] entries[i]).spec_key() != key,
    ensures
        entry_with_key(entries, key, from) == entry_with_key(entries, key, to),
    decreases to - from,
{
    if from < to {
        lemma_entry_from(entries, key, from + 1, to);
    }
}

/// The first entry with the given key.
pub fn find_entry(entries: &Vec<UnicodeBlockBTreeEntry>, key: u64) -> (entry: Option<
    UnicodeBlockBTreeEntry,
>)
    requires
        sorting::is_sorted(entries@),
    ensures
        entry == entry_with_key(entries@, key, 0),
{
    let mut low: usize = 0;
    let mut high: usize = entries.len();
    while low < high
        invariant
            low <= high <= entries@.len(),
            sorting::is_sorted(entries@),
            forall|i: int| 0 <= i < low ==> (#[trigger] entries@[i]).spec_key() < key,
            forall|i: int| high <= i < entries@.len() ==> (#[trigger] entries@[i]).spec_key() >= key,
        decreases high - low,
    {
        let middle: usize = low + (high - low) / 2;
        if entries[middle].key() < key {
            low = middle + 1;
        } else {
            high = middle;
        }
    }
    proof {
        lemma_entry_from(entries@, key, 0, low as int);
    }
    if low < entries.len() && entries[low].key() == key {
        return Some(entries[low]);
    }
    proof {
        assert forall|i: int| low <= i < entries@.len() implies (#[trigger] entries@[i]).spec_key()
            != key by {
            assert(entries@[low as int].spec_key() <= entries@[i].spec_key());
        }
        lemma_entry_from(entries@, key, low as int, entries@.len() as int);
    }
    None
}

/// The number of the first `count` blocks that have the given key.
pub open spec fn occurrences(blocks: Seq<UnicodeBlockId>, key: u64, count: nat) -> nat
    decreases count,
{
    if count == 0 {
        0
    } else {
        occurrences(blocks, key, (count - 1) as nat) + if blocks[count - 1].spec_search_key()
            == key {
            1nat
        } else {
            0nat
        }
    }
}

proof fn lemma_references_count(
    start: ReferenceState,
    state: ReferenceState,
    blocks: Seq<UnicodeBlockId>,
    index: int,
    key: u64,
)
    requires
        0 <= index <= blocks.len(),
        key != 0,
        count_of(state.references, key) == count_of(start.references, key) + occurrences(
            blocks,
            key,
            index as nat,
        ),
        state.references.contains_key(key) <==> start.references.contains_key(key) || occurrences(
            blocks,
            key,
            index as nat,
        ) > 0,
    ensures
        with_references(state, blocks, index) matches Ok(after) ==> count_of(after.references, key)
            == count_of(start.references, key) + occurrences(blocks, key, blocks.len()) && (
        after.references.contains_key(key) <==> start.references.contains_key(key) || occurrences(
            blocks,
            key,
            blocks.len(),
        ) > 0),
    decreases blocks.len() - index,
{
    if index < blocks.len() {
        if let Ok(next) = with_reference(state, blocks[index]) {
            lemma_references_count(start, next, blocks, index + 1, key);
        }
    }
}

/// Recording references counts each block as often as it occurs, and no other block.
pub proof fn law_references_count_occurrences(
    start: ReferenceState,
    blocks: Seq<UnicodeBlockId>,
    key: u64,
)
    requires
        key != 0,
    ensures
        with_references(start, blocks, 0) matches Ok(after) ==> count_of(after.references, key)
            == count_of(start.references, key) + occurrences(blocks, key, blocks.len()) && (
        after.references.contains_key(key) <==> start.references.contains_key(key) || occurrences(
            blocks,
            key,
            blocks.len(),
        ) > 0),
{
    lemma_references_count(start, start, blocks, 0, key);
}

/// Whether a block can be reached from `roots` in at most `steps` steps through the children of
/// internal blocks.
pub open spec fn reachable(
    roots: Seq<UnicodeBlockId>,
    children: spec_fn(u64) -> Seq<UnicodeBlockId>,
    key: u64,
    steps: nat,
) -> bool
    decreases steps,
{
    key != 0 && (occurrences(roots, key, roots.len()) > 0 || (steps > 0 && exists|parent: u64|
        #![trigger children(parent)]
        is_internal_key(parent) && reachable(roots, children, parent, (steps - 1) as nat)
            && occurrences(children(parent), key, children(parent).len()) > 0))
}

/// Whether the block with the given key holds a tree.
pub open spec fn is_internal_key(key: u64) -> bool {
    UnicodeBlockId { value: key }.spec_is_internal()
}

/// The number of times that the trees with the first `count` keys refer to the block with the given key.
pub open spec fn occurrences_below(
    children: spec_fn(u64) -> Seq<UnicodeBlockId>,
    trees: Seq<u64>,
    count: nat,
    key: u64,
) -> nat
    decreases count,
{
    if count == 0 {
        0
    } else {
        let blocks = children(trees[count - 1]);
        occurrences_below(children, trees, (count - 1) as nat, key) + occurrences(
            blocks,
            key,
            blocks.len(),
        )
    }
}

/// Whether `looked` are the trees that were looked into, each of them once, no block is to be looked into
/// twice, and every block was counted as often as it occurs among the roots and among the children of
/// those trees.
pub open spec fn has_counted(
    roots: Seq<UnicodeBlockId>,
    children: spec_fn(u64) -> Seq<UnicodeBlockId>,
    looked: Seq<u64>,
    state: ReferenceState,
) -> bool {
    &&& looked.no_duplicates()
    &&& forall|key: u64| #[trigger]
        looked.contains(key) <==> state.references.contains_key(key) && is_internal_key(key)
            && !is_pending(state, key)
    &&& pending_differ(state)
    &&& forall|key: u64|
        key != 0 ==> #[trigger] count_of(state.references, key) == occurrences(
            roots,
            key,
            roots.len(),
        ) + occurrences_below(children, looked, looked.len(), key)
}

/// Whether no block is to be looked into twice.
pub open spec fn pending_differ(state: ReferenceState) -> bool {
    forall|i: int, j: int|
        0 <= i < j < state.pending.len() ==> (#[trigger] state.pending[i]).spec_search_key() != (
        #[trigger] state.pending[j]).spec_search_key()
}

/// What holds of a compaction at any time: the blocks found are reachable from the roots, the roots
/// were found, of every block found that is not pending the children were found, and every block was
/// counted as often as it occurs among the roots and among the children of the trees looked into.
pub open spec fn compaction_inv(
    roots: Seq<UnicodeBlockId>,
    children: spec_fn(u64) -> Seq<UnicodeBlockId>,
    state: ReferenceState,
) -> bool {
    &&& forall|key: u64| #[trigger]
        state.references.contains_key(key) ==> exists|steps: nat|
            reachable(roots, children, key, steps)
    &&& forall|key: u64| #[trigger]
        state.references.contains_key(key) ==> count_of(state.references, key) > 0
    &&& forall|key: u64|
        key != 0 && #[trigger] occurrences(roots, key, roots.len()) > 0
            ==> state.references.contains_key(key)
    &&& forall|i: int|
        0 <= i < state.pending.len() ==> state.references.contains_key(
            (#[trigger] state.pending[i]).spec_search_key(),
        )
    &&& forall|parent: u64, key: u64|
        #![trigger occurrences(children(parent), key, children(parent).len())]
        state.references.contains_key(parent) && is_internal_key(parent) && !is_pending(
            state,
            parent,
        ) && key != 0 && occurrences(children(parent), key, children(parent).len()) > 0
            ==> state.references.contains_key(key)
    &&& exists|looked: Seq<u64>| has_counted(roots, children, looked, state)
}

/// Whether the block with the given key is still to be looked into.
pub open spec fn is_pending(state: ReferenceState, key: u64) -> bool {
    exists|i: int|
        0 <= i < state.pending.len() && (#[trigger] state.pending[i]).spec_search_key() == key
}

/// What recording the references in `blocks` keeps: the blocks found and pending stay so, and a new
/// block becomes both.
spec fn references_grow(
    before: ReferenceState,
    after: ReferenceState,
    blocks: Seq<UnicodeBlockId>,
) -> bool {
    &&& forall|key: u64|
        before.references.contains_key(key) ==> #[trigger] after.references.contains_key(key)
    &&& forall|key: u64| #[trigger]
        after.references.contains_key(key) && !before.references.contains_key(key) ==> is_pending(
            after,
            key,
        ) && key != 0 && occurrences(blocks, key, blocks.len()) > 0
    &&& forall|key: u64| is_pending(before, key) ==> #[trigger] is_pending(after, key)
    &&& forall|i: int|
        0 <= i < after.pending.len() ==> after.references.contains_key(
            (#[trigger] after.pending[i]).spec_search_key(),
        )
}

proof fn lemma_references_grow(
    start: ReferenceState,
    state: ReferenceState,
    blocks: Seq<UnicodeBlockId>,
    index: int,
)
    requires
        0 <= index <= blocks.len(),
        references_grow(start, state, blocks),
        forall|key: u64| #[trigger]
            state.references.contains_key(key) ==> count_of(state.references, key) > 0,
    ensures
        with_references(state, blocks, index) matches Ok(after) ==> references_grow(
            start,
            after,
            blocks,
        ) && (forall|key: u64| #[trigger]
            after.references.contains_key(key) ==> count_of(after.references, key) > 0),
    decreases blocks.len() - index,
{
    if index < blocks.len() {
        let block = blocks[index];
        let key = block.spec_search_key();
        if let Ok(next) = with_reference(state, block) {
            lemma_occurs(blocks, key, index, blocks.len());
            let found = key != 0 && count_of(state.references, key) == 0;
            if found {
                assert(next.pending[next.pending.len() - 1].spec_search_key() == key);
            }
            assert forall|other: u64| is_pending(state, other) implies #[trigger] is_pending(
                next,
                other,
            ) by {
                let i = choose|i: int|
                    0 <= i < state.pending.len() && (#[trigger] state.pending[i]).spec_search_key()
                        == other;
                assert(next.pending[i] == state.pending[i]);
            }
            assert forall|i: int| 0 <= i < next.pending.len() implies next.references.contains_key(
                (#[trigger] next.pending[i]).spec_search_key(),
            ) by {
                if i < state.pending.len() {
                    assert(next.pending[i] == state.pending[i]);
                    assert(state.references.contains_key(state.pending[i].spec_search_key()));
                }
            }
            assert forall|other: u64| #[trigger]
                next.references.contains_key(other) && !start.references.contains_key(
                    other,
                ) implies is_pending(next, other) && other != 0 && occurrences(
                blocks,
                other,
                blocks.len(),
            ) > 0 by {
                if other == key && found {
                    assert(is_pending(next, key));
                } else {
                    assert(state.references.contains_key(other));
                    assert(is_pending(state, other));
                }
            }
            assert(references_grow(start, next, blocks));
            lemma_references_grow(start, next, blocks, index + 1);
        }
    }
}

proof fn lemma_pending_differ(
    start: ReferenceState,
    state: ReferenceState,
    blocks: Seq<UnicodeBlockId>,
    index: int,
)
    requires
        0 <= index <= blocks.len(),
        pending_differ(state),
        forall|key: u64| #[trigger]
            start.references.contains_key(key) ==> count_of(state.references, key) > 0,
        forall|i: int|
            0 <= i < state.pending.len() ==> count_of(
                state.references,
                (#[trigger] state.pending[i]).spec_search_key(),
            ) > 0,
        forall|key: u64| #[trigger]
            is_pending(state, key) ==> is_pending(start, key) || !start.references.contains_key(
                key,
            ),
    ensures
        with_references(state, blocks, index) matches Ok(after) ==> pending_differ(after) && (forall|
            key: u64,
        | #[trigger]
            is_pending(after, key) ==> is_pending(start, key) || !start.references.contains_key(
                key,
            )),
    decreases blocks.len() - index,
{
    if index < blocks.len() {
        if let Ok(next) = with_reference(state, blocks[index]) {
            let added = blocks[index].spec_search_key();
            assert forall|i: int, j: int| 0 <= i < j < next.pending.len() implies (
            #[trigger] next.pending[i]).spec_search_key() != (
            #[trigger] next.pending[j]).spec_search_key() by {
                assert(next.pending[i] == state.pending[i]);
                if j < state.pending.len() {
                    assert(next.pending[j] == state.pending[j]);
                }
            }
            assert forall|i: int| 0 <= i < next.pending.len() implies count_of(
                next.references,
                (#[trigger] next.pending[i]).spec_search_key(),
            ) > 0 by {
                if i < state.pending.len() {
                    assert(next.pending[i] == state.pending[i]);
                }
            }
            assert forall|key: u64| #[trigger] is_pending(next, key) implies is_pending(start, key)
                || !start.references.contains_key(key) by {
                let i = choose|i: int|
                    0 <= i < next.pending.len() && (#[trigger] next.pending[i]).spec_search_key()
                        == key;
                if i < state.pending.len() {
                    assert(next.pending[i] == state.pending[i]);
                    assert(is_pending(state, key));
                }
            }
            lemma_pending_differ(start, next, blocks, index + 1);
        }
    }
}

proof fn lemma_below_prefix(
    children: spec_fn(u64) -> Seq<UnicodeBlockId>,
    trees: Seq<u64>,
    tree: u64,
    count: nat,
    key: u64,
)
    requires
        count <= trees.len(),
    ensures
        occurrences_below(children, trees.push(tree), count, key) == occurrences_below(
            children,
            trees,
            count,
            key,
        ),
    decreases count,
{
    if count > 0 {
        lemma_below_prefix(children, trees, tree, (count - 1) as nat, key);
    }
}

/// Looking into a tree adds its children to the counts.
proof fn lemma_counted_tree(
    roots: Seq<UnicodeBlockId>,
    children: spec_fn(u64) -> Seq<UnicodeBlockId>,
    state: ReferenceState,
    after: ReferenceState,
)
    requires
        compaction_inv(roots, children, state),
        state.pending.len() > 0,
        state.pending[0].spec_is_internal(),
        with_references(
            (ReferenceState { pending: state.pending.skip(1), ..state }),
            children(state.pending[0].spec_search_key()),
            0,
        ) == Ok::<ReferenceState, PstError>(after),
    ensures
        exists|looked: Seq<u64>| has_counted(roots, children, looked, after),
{
    let top = state.pending[0].spec_search_key();
    let rest = ReferenceState { pending: state.pending.skip(1), ..state };
    let list = children(top);
    let looked = choose|looked: Seq<u64>| has_counted(roots, children, looked, state);
    lemma_key_keeps_mark(state.pending[0].value);
    lemma_rest_pending(state);
    lemma_references_grow(rest, rest, list, 0);
    lemma_pending_differ(rest, rest, list, 0);
    let all = looked.push(top);
    assert(is_pending(state, top));
    assert(!looked.contains(top));
    assert forall|key: u64| #[trigger] all.contains(key) <==> after.references.contains_key(key)
        && is_internal_key(key) && !is_pending(after, key) by {
        lemma_push_has(looked, top, key);
        if looked.contains(key) {
            assert(!is_pending(rest, key));
        }
        if after.references.contains_key(key) && is_internal_key(key) && !is_pending(after, key) {
            assert(rest.references.contains_key(key));
            assert(!is_pending(rest, key));
            assert(is_pending(state, key) ==> key == top);
        }
    }
    assert forall|key: u64| key != 0 implies #[trigger] count_of(after.references, key)
        == occurrences(roots, key, roots.len()) + occurrences_below(
        children,
        all,
        all.len(),
        key,
    ) by {
        law_references_count_occurrences(rest, list, key);
        lemma_below_prefix(children, looked, top, looked.len(), key);
        assert(count_of(state.references, key) == count_of(rest.references, key));
    }
    assert(has_counted(roots, children, all, after));
}

proof fn lemma_push_has(list: Seq<u64>, added: u64, key: u64)
    ensures
        list.push(added).contains(key) <==> list.contains(key) || key == added,
{
    let all = list.push(added);
    if list.contains(key) {
        let i = choose|i: int| 0 <= i < list.len() && list[i] == key;
        assert(all[i] == key);
    }
    if key == added {
        assert(all[list.len() as int] == key);
    }
}

/// The blocks that are still to be looked into without the first of them.
proof fn lemma_rest_pending(state: ReferenceState)
    requires
        state.pending.len() > 0,
        pending_differ(state),
    ensures
        ({
            let rest = ReferenceState { pending: state.pending.skip(1), ..state };
            &&& pending_differ(rest)
            &&& forall|key: u64| #[trigger]
                is_pending(rest, key) <==> is_pending(state, key) && key
                    != state.pending[0].spec_search_key()
        }),
{
    let rest = ReferenceState { pending: state.pending.skip(1), ..state };
    assert forall|i: int, j: int| 0 <= i < j < rest.pending.len() implies (
    #[trigger] rest.pending[i]).spec_search_key() != (#[trigger] rest.pending[j]).spec_search_key() by {
        assert(rest.pending[i] == state.pending[i + 1]);
        assert(rest.pending[j] == state.pending[j + 1]);
    }
    assert forall|key: u64| #[trigger] is_pending(rest, key) <==> is_pending(state, key) && key
        != state.pending[0].spec_search_key() by {
        if is_pending(rest, key) {
            let i = choose|i: int|
                0 <= i < rest.pending.len() && (#[trigger] rest.pending[i]).spec_search_key()
                    == key;
            assert(state.pending[i + 1].spec_search_key() == key);
            assert(state.pending[0].spec_search_key() != state.pending[i + 1].spec_search_key());
        }
        if is_pending(state, key) && key != state.pending[0].spec_search_key() {
            let i = choose|i: int|
                0 <= i < state.pending.len() && (#[trigger] state.pending[i]).spec_search_key()
                    == key;
            assert(rest.pending[i - 1].spec_search_key() == key);
        }
    }
}

pub proof fn lemma_occurs(blocks: Seq<UnicodeBlockId>, key: u64, index: int, count: nat)
    requires
        0 <= index < count <= blocks.len(),
        blocks[index].spec_search_key() == key,
    ensures
        occurrences(blocks, key, count) > 0,
    decreases count,
{
    if index < count - 1 {
        lemma_occurs(blocks, key, index, (count - 1) as nat);
    }
}

/// A compaction that has recorded its roots meets its invariant.
pub proof fn law_compaction_starts(
    roots: Seq<UnicodeBlockId>,
    children: spec_fn(u64) -> Seq<UnicodeBlockId>,
)
    ensures
        with_references(
            (ReferenceState { references: Map::empty(), pending: Seq::empty() }),
            roots,
            0,
        ) matches Ok(state) ==> compaction_inv(roots, children, state),
{
    let start = ReferenceState { references: Map::empty(), pending: Seq::empty() };
    lemma_references_grow(start, start, roots, 0);
    if let Ok(state) = with_references(start, roots, 0) {
        assert forall|key: u64| #[trigger] state.references.contains_key(key) implies exists|
            steps: nat,
        |
            reachable(roots, children, key, steps) by {
            assert(reachable(roots, children, key, 0));
        }
        assert forall|key: u64|
            key != 0 && #[trigger] occurrences(roots, key, roots.len()) > 0 implies state.references
            .contains_key(key) by {
            law_references_count_occurrences(start, roots, key);
        }
        assert forall|parent: u64| state.references.contains_key(parent) implies #[trigger] is_pending(
            state,
            parent,
        ) by {}
        lemma_pending_differ(start, start, roots, 0);
        let looked = Seq::<u64>::empty();
        assert forall|key: u64| key != 0 implies #[trigger] count_of(state.references, key)
            == occurrences(roots, key, roots.len()) + occurrences_below(children, looked, 0, key) by {
            law_references_count_occurrences(start, roots, key);
        }
        assert forall|key: u64| !(#[trigger] looked.contains(key)) by {}
        assert(has_counted(roots, children, looked, state));
    }
}

/// Looking into the first pending block keeps the invariant of a compaction: a data block has no
/// children, and of an internal block the children are recorded.
pub proof fn law_compaction_steps(
    roots: Seq<UnicodeBlockId>,
    children: spec_fn(u64) -> Seq<UnicodeBlockId>,
    state: ReferenceState,
)
    requires
        compaction_inv(roots, children, state),
        state.pending.len() > 0,
    ensures
        ({
            let block = state.pending[0];
            let key = block.spec_search_key();
            let rest = ReferenceState { pending: state.pending.skip(1), ..state };
            if block.spec_is_internal() {
                with_references(rest, children(key), 0) matches Ok(after) ==> compaction_inv(
                    roots,
                    children,
                    after,
                )
            } else {
                compaction_inv(roots, children, rest)
            }
        }),
{
    let block = state.pending[0];
    let top = block.spec_search_key();
    let rest = ReferenceState { pending: state.pending.skip(1), ..state };
    assert(is_internal_key(top) == block.spec_is_internal()) by {
        lemma_key_keeps_mark(block.value);
    }
    assert(state.references.contains_key(top));
    assert forall|i: int| 0 <= i < rest.pending.len() implies rest.references.contains_key(
        (#[trigger] rest.pending[i]).spec_search_key(),
    ) by {
        assert(rest.pending[i] == state.pending[i + 1]);
    }
    assert forall|key: u64| is_pending(state, key) && key != top implies #[trigger] is_pending(
        rest,
        key,
    ) by {
        let i = choose|i: int|
            0 <= i < state.pending.len() && (#[trigger] state.pending[i]).spec_search_key() == key;
        assert(rest.pending[i - 1] == state.pending[i]);
    }
    if block.spec_is_internal() {
        let list = children(top);
        lemma_references_grow(rest, rest, list, 0);
        if let Ok(after) = with_references(rest, list, 0) {
            lemma_counted_tree(roots, children, state, after);
            let steps = choose|steps: nat| reachable(roots, children, top, steps);
            assert forall|key: u64| #[trigger] after.references.contains_key(key) implies exists|
                steps: nat,
            |
                reachable(roots, children, key, steps) by {
                if !rest.references.contains_key(key) {
                    assert(occurrences(children(top), key, children(top).len()) > 0);
                    assert(reachable(roots, children, key, steps + 1));
                }
            }
            assert forall|parent: u64, key: u64|
                #![trigger occurrences(children(parent), key, children(parent).len())]
                after.references.contains_key(parent) && is_internal_key(parent) && !is_pending(
                    after,
                    parent,
                ) && key != 0 && occurrences(children(parent), key, children(parent).len())
                    > 0 implies after.references.contains_key(key) by {
                if parent == top {
                    law_references_count_occurrences(rest, list, key);
                } else {
                    assert(rest.references.contains_key(parent));
                    assert(!is_pending(state, parent));
                }
            }
        }
    } else {
        assert forall|parent: u64, key: u64|
            #![trigger occurrences(children(parent), key, children(parent).len())]
            rest.references.contains_key(parent) && is_internal_key(parent) && !is_pending(
                rest,
                parent,
            ) && key != 0 && occurrences(children(parent), key, children(parent).len())
                > 0 implies rest.references.contains_key(key) by {
            assert(parent != top);
            assert(!is_pending(state, parent));
        }
        let looked = choose|looked: Seq<u64>| has_counted(roots, children, looked, state);
        lemma_rest_pending(state);
        assert forall|key: u64| #[trigger] looked.contains(key) <==> rest.references.contains_key(
            key,
        ) && is_internal_key(key) && !is_pending(rest, key) by {
            assert(is_pending(state, top));
        }
        assert forall|key: u64| key != 0 implies #[trigger] count_of(rest.references, key)
            == occurrences(roots, key, roots.len()) + occurrences_below(
            children,
            looked,
            looked.len(),
            key,
        ) by {
            assert(count_of(state.references, key) == count_of(rest.references, key));
        }
        assert(has_counted(roots, children, looked, rest));
    }
}

proof fn lemma_key_keeps_mark(value: u64)
    ensures
        (value - value % 2) / 2 % 2 == value / 2 % 2,
{
    assert((value - value % 2) / 2 == value / 2);
}

proof fn lemma_reachable_found(
    roots: Seq<UnicodeBlockId>,
    children: spec_fn(u64) -> Seq<UnicodeBlockId>,
    state: ReferenceState,
    key: u64,
    steps: nat,
)
    requires
        compaction_inv(roots, children, state),
        state.pending.len() == 0,
        reachable(roots, children, key, steps),
    ensures
        state.references.contains_key(key),
    decreases steps,
{
    if occurrences(roots, key, roots.len()) > 0 {
        assert(state.references.contains_key(key));
    } else {
        let parent = choose|parent: u64|
            #![trigger children(parent)]
            is_internal_key(parent) && reachable(roots, children, parent, (steps - 1) as nat)
                && occurrences(children(parent), key, children(parent).len()) > 0;
        lemma_reachable_found(roots, children, state, parent, (steps - 1) as nat);
        assert(!is_pending(state, parent));
        assert(occurrences(children(parent), key, children(parent).len()) > 0);
    }
}

/// Whether `trees` are the trees that the roots reach, each of them once.
pub open spec fn are_reached_trees(
    roots: Seq<UnicodeBlockId>,
    children: spec_fn(u64) -> Seq<UnicodeBlockId>,
    trees: Seq<u64>,
) -> bool {
    &&& trees.no_duplicates()
    &&& forall|key: u64| #[trigger]
        trees.contains(key) <==> is_internal_key(key) && exists|steps: nat|
            reachable(roots, children, key, steps)
}

/// When a compaction has nothing left to look into, it has found exactly the blocks that the roots
/// reach, and counted each of them as often as it occurs among the roots and among the children of the
/// trees that they reach.
pub proof fn law_compaction_finds_reachable_blocks(
    roots: Seq<UnicodeBlockId>,
    children: spec_fn(u64) -> Seq<UnicodeBlockId>,
    state: ReferenceState,
    key: u64,
) -> (trees: Seq<u64>)
    requires
        compaction_inv(roots, children, state),
        state.pending.len() == 0,
    ensures
        state.references.contains_key(key) <==> exists|steps: nat|
            reachable(roots, children, key, steps),
        are_reached_trees(roots, children, trees),
        key != 0 ==> count_of(state.references, key) == occurrences(roots, key, roots.len())
            + occurrences_below(children, trees, trees.len(), key),
{
    let looked = choose|looked: Seq<u64>| has_counted(roots, children, looked, state);
    assert forall|other: u64| state.references.contains_key(other) <==> exists|steps: nat|
        #[trigger] reachable(roots, children, other, steps) by {
        if exists|steps: nat| reachable(roots, children, other, steps) {
            let steps = choose|steps: nat| reachable(roots, children, other, steps);
            lemma_reachable_found(roots, children, state, other, steps);
        }
    }
    assert forall|other: u64| #[trigger] looked.contains(other) <==> is_internal_key(other)
        && exists|steps: nat| reachable(roots, children, other, steps) by {
        assert(!is_pending(state, other));
    }
    looked
}

/// The entries that stay are those of the blocks referred to, in order, each with its number of
/// references and one more.
pub proof fn law_retained_entries(
    entries: Seq<UnicodeBlockBTreeEntry>,
    references: Map<u64, u16>,
    count: nat,
    entry: UnicodeBlockBTreeEntry,
)
    requires
        count <= entries.len(),
    ensures
        retained_entries(entries, references, count).contains(entry) ==> references.contains_key(
            entry.spec_key(),
        ) && entry.ref_count == (references[entry.spec_key()] + 1) as u16,
        entries.take(count as int).contains(entry) && references.contains_key(entry.spec_key())
            ==> retained_entries(entries, references, count).contains(
            (UnicodeBlockBTreeEntry {
                ref_count: (references[entry.spec_key()] + 1) as u16,
                ..entry
            }),
        ),
    decreases count,
{
    if count > 0 {
        law_retained_entries(entries, references, (count - 1) as nat, entry);
        let before = retained_entries(entries, references, (count - 1) as nat);
        let after = retained_entries(entries, references, count);
        let last = entries[count - 1];
        if after.contains(entry) {
            let i = choose|i: int| 0 <= i < after.len() && after[i] == entry;
            if i < before.len() {
                assert(before[i] == entry);
            }
        }
        if entries.take(count as int).contains(entry) && references.contains_key(
            entry.spec_key(),
        ) {
            let i = choose|i: int|
                0 <= i < entries.take(count as int).len() && entries.take(count as int)[i]
                    == entry;
            let kept = UnicodeBlockBTreeEntry {
                ref_count: (references[entry.spec_key()] + 1) as u16,
                ..entry
            };
            if i < count - 1 {
                assert(entries.take(count - 1)[i] == entry);
                assert(before.contains(kept));
                let j = choose|j: int| 0 <= j < before.len() && before[j] == kept;
                assert(after[j] == kept);
            } else {
                assert(after.last() == kept);
                assert(after[after.len() - 1] == kept);
            }
        }
    }
}

} // verus!
