//! Committing planned blocks and nodes: the B-tree pages and the header that make them part of the
//! file.

use vstd::prelude::*;

use crate::bytes;
use crate::error::PstError;
use crate::ndb::allocation;
use crate::ndb::allocation::{AMAP_DATA_SIZE, AMAP_FIRST_OFFSET};
use crate::ndb::block;
use crate::ndb::block::{BlockPlan, NewBlock, PlannedBlock};
use crate::ndb::btree;
use crate::ndb::btree::{
    NewBTreePage, PagePlan, PageType, UnicodeBlockBTreeEntry, UnicodeNodeBTreeEntry,
    MAX_BTREE_LEVEL,
};
use crate::ndb::btree_laws;
use crate::ndb::header;
use crate::ndb::header::{AmapStatus, Header, HeaderContents, Root};
use crate::ndb::ids::{
    NodeId, UnicodeBlockId, UnicodeBlockRef, UnicodePageId, UnicodePageRef,
};

verus! {

/// The entry of a new block.
pub open spec fn new_entry(block: PlannedBlock) -> UnicodeBlockBTreeEntry {
    UnicodeBlockBTreeEntry {
        block: UnicodeBlockRef { block: block.id, index: block.offset },
        size: block.size,
        ref_count: 1,
    }
}

/// The entries of new blocks.
pub open spec fn new_entries(blocks: Seq<PlannedBlock>) -> Seq<UnicodeBlockBTreeEntry> {
    Seq::new(blocks.len(), |i: int| new_entry(blocks[i]))
}

/// Adds the entries of new blocks.
pub fn push_block_entries(entries: &mut Vec<UnicodeBlockBTreeEntry>, blocks: &Vec<NewBlock>)
    ensures
        final(entries)@ == old(entries)@ + new_entries(bytes::views(blocks@)),
{
    let ghost added = new_entries(bytes::views(blocks@));
    let mut i: usize = 0;
    while i < blocks.len()
        invariant
            i <= blocks@.len(),
            added == new_entries(bytes::views(blocks@)),
            entries@ == old(entries)@ + added.take(i as int),
        decreases blocks@.len() - i,
    {
        let block: &NewBlock = &blocks[i];
        entries.push(
            UnicodeBlockBTreeEntry::new(
                UnicodeBlockRef { block: block.id, index: block.offset },
                block.size,
            ),
        );
        i += 1;
        assert(entries@ =~= old(entries)@ + added.take(i as int));
    }
    assert(added.take(i as int) =~= added);
}

/// What a change writes: its blocks, the next block and the end of the file, and the nodes of the file
/// afterwards.
pub struct ChangePlan {
    pub blocks: Vec<NewBlock>,
    pub next_bid: u64,
    pub next_offset: u64,
    pub nbt_entries: Vec<UnicodeNodeBTreeEntry>,
}

impl View for ChangePlan {
    type V = (BlockPlan, Seq<UnicodeNodeBTreeEntry>);

    open spec fn view(&self) -> (BlockPlan, Seq<UnicodeNodeBTreeEntry>) {
        (block::plan(self.blocks@, self.next_bid, self.next_offset), self.nbt_entries@)
    }
}

/// The header while a commit is under way: the allocation maps cannot be relied on.
pub open spec fn committing_header(header: HeaderContents) -> HeaderContents {
    header.with_status(AmapStatus::Invalid).updated()
}

/// Marks the header for a commit that is under way.
pub fn begin_commit(header: &mut Header)
    ensures
        final(header)@ == committing_header(old(header)@),
{
    header.set_amap_status(AmapStatus::Invalid);
    header.update_unique();
}

/// The planned B-trees: their pages, their roots, the next page, and the end of the file.
pub struct BTreePlan {
    pub pages: Vec<NewBTreePage>,
    pub block_btree: UnicodePageRef,
    pub node_btree: UnicodePageRef,
    pub next_page: UnicodePageId,
    pub new_eof: u64,
}

/// The planned B-trees by their contents.
#[verifier::ext_equal]
pub struct PlannedBTrees {
    pub plan: PagePlan,
    pub block_btree: UnicodePageRef,
    pub node_btree: UnicodePageRef,
}

impl View for BTreePlan {
    type V = PlannedBTrees;

    open spec fn view(&self) -> PlannedBTrees {
        PlannedBTrees {
            plan: btree::page_plan(self.pages@, self.next_page, self.new_eof),
            block_btree: self.block_btree,
            node_btree: self.node_btree,
        }
    }
}

/// No pages yet.
pub open spec fn no_pages(next_page: UnicodePageId, next_offset: u64) -> PagePlan {
    PagePlan { pages: Seq::empty(), next_page, next_offset }
}

/// The B-trees of the given blocks and nodes behind `next_offset`.
pub open spec fn planned_btrees(
    next_page: UnicodePageId,
    next_offset: u64,
    blocks: Seq<UnicodeBlockBTreeEntry>,
    nodes: Seq<UnicodeNodeBTreeEntry>,
) -> Result<PlannedBTrees, PstError> {
    match btree::with_block_btree(no_pages(next_page, next_offset), blocks) {
        (_, Err(error)) => Err(error),
        (after, Ok(block_btree)) => match btree::with_node_btree(after, nodes) {
            (_, Err(error)) => Err(error),
            (plan, Ok(node_btree)) => Ok(PlannedBTrees { plan, block_btree, node_btree }),
        },
    }
}

/// Plans the B-trees of the given blocks and nodes behind `next_offset`.
pub fn plan_btrees(
    next_page: UnicodePageId,
    next_offset: u64,
    blocks: &Vec<UnicodeBlockBTreeEntry>,
    nodes: &Vec<UnicodeNodeBTreeEntry>,
) -> (plan: Result<BTreePlan, PstError>)
    requires
        blocks@.len() > 0,
        nodes@.len() > 0,
    ensures
        crate::error::result_view(plan) == planned_btrees(
            next_page,
            next_offset,
            blocks@,
            nodes@,
        ),
        plan matches Ok(plan) ==> btree_laws::pages_wf(plan@.plan),
{
    proof {
        law_planned_btrees_read_back(next_page, next_offset, blocks@, nodes@);
    }
    let mut pages: Vec<NewBTreePage> = Vec::new();
    let mut page: UnicodePageId = next_page;
    let mut offset: u64 = next_offset;
    assert(bytes::views(pages@) =~= Seq::empty());
    let block_btree = btree::plan_block_btree(
        blocks.as_slice(),
        &mut pages,
        &mut page,
        &mut offset,
    )?;
    let node_btree = btree::plan_node_btree(nodes.as_slice(), &mut pages, &mut page, &mut offset)?;
    Ok(BTreePlan { pages, block_btree, node_btree, next_page: page, new_eof: offset })
}

/// Whether the B-tree below a page holds exactly the given entries.
pub open spec fn reads_back(
    plan: PagePlan,
    page_type: PageType,
    root: UnicodePageRef,
    entries: Seq<btree_laws::LeafEntry>,
) -> bool {
    exists|level: nat|
        level <= MAX_BTREE_LEVEL && btree_laws::read_btree(plan.pages, page_type, root, level)
            == Some(entries)
}

proof fn lemma_reads_back_grows(
    before: PagePlan,
    after: PagePlan,
    page_type: PageType,
    root: UnicodePageRef,
    entries: Seq<btree_laws::LeafEntry>,
)
    requires
        btree_laws::pages_wf(before),
        btree_laws::pages_grow(before, after),
        reads_back(before, page_type, root, entries),
    ensures
        reads_back(after, page_type, root, entries),
{
    let level = choose|level: nat|
        level <= MAX_BTREE_LEVEL && btree_laws::read_btree(before.pages, page_type, root, level)
            == Some(entries);
    btree_laws::law_read_btree_grows(before, after, page_type, root, level);
}

/// The planned B-trees read back as the given blocks and nodes, from pages that stand one behind the
/// other from `next_offset` on.
pub proof fn law_planned_btrees_read_back(
    next_page: UnicodePageId,
    next_offset: u64,
    blocks: Seq<UnicodeBlockBTreeEntry>,
    nodes: Seq<UnicodeNodeBTreeEntry>,
)
    requires
        blocks.len() > 0,
        nodes.len() > 0,
    ensures
        planned_btrees(next_page, next_offset, blocks, nodes) matches Ok(trees) ==> ({
            &&& btree_laws::pages_wf(trees.plan)
            &&& btree_laws::pages_grow(no_pages(next_page, next_offset), trees.plan)
            &&& reads_back(
                trees.plan,
                PageType::BlockBTree,
                trees.block_btree,
                btree_laws::block_entries(blocks),
            )
            &&& reads_back(
                trees.plan,
                PageType::NodeBTree,
                trees.node_btree,
                btree_laws::node_entries(nodes),
            )
        }),
{
    let start = no_pages(next_page, next_offset);
    btree_laws::law_block_btree_round_trip(start, blocks);
    if let (middle, Ok(block_btree)) = btree::with_block_btree(start, blocks) {
        assert(reads_back(
            middle,
            PageType::BlockBTree,
            block_btree,
            btree_laws::block_entries(blocks),
        ));
        btree_laws::law_node_btree_round_trip(middle, nodes);
        let after = btree::with_node_btree(middle, nodes).0;
        btree_laws::lemma_pages_grow_transitive(start, middle, after);
        lemma_reads_back_grows(
            middle,
            after,
            PageType::BlockBTree,
            block_btree,
            btree_laws::block_entries(blocks),
        );
        if let (_, Ok(node_btree)) = btree::with_node_btree(middle, nodes) {
            assert(reads_back(
                after,
                PageType::NodeBTree,
                node_btree,
                btree_laws::node_entries(nodes),
            ));
        }
    }
}

/// The offset of the allocation map of the region in which a file that ends at `eof` ends.
pub open spec fn last_amap(eof: u64) -> u64 {
    allocation::region_start(allocation::region_of(eof - 1)) as u64
}

/// The header after a commit: the next block and page, the nodes taken, the new B-trees, and the end
/// of the file.
pub open spec fn committed_header(
    header: HeaderContents,
    trees: PlannedBTrees,
    next_bid: u64,
    reserved_nodes: Seq<NodeId>,
) -> Result<HeaderContents, PstError> {
    match UnicodeBlockId::spec_new(false, next_bid) {
        Err(error) => Err(error),
        Ok(next_block) => match header::with_reserved_nodes(
            HeaderContents { next_block, next_page: trees.plan.next_page, ..header },
            reserved_nodes,
            0,
        ) {
            Err(error) => Err(error),
            Ok(reserved) => Ok(
                HeaderContents {
                    root: Root {
                        node_btree: trees.node_btree,
                        block_btree: trees.block_btree,
                        file_eof_index: trees.plan.next_offset,
                        amap_last_index: last_amap(trees.plan.next_offset),
                        ..reserved.root
                    },
                    ..reserved
                }.updated(),
            ),
        },
    }
}

/// Brings the header up to date with planned B-trees.
pub fn finish_commit(
    header: &mut Header,
    plan: &BTreePlan,
    next_bid: u64,
    reserved_nodes: &Vec<NodeId>,
) -> (result: Result<(), PstError>)
    requires
        old(header)@.wf(),
        plan.new_eof > AMAP_FIRST_OFFSET,
    ensures
        match committed_header(old(header)@, plan@, next_bid, reserved_nodes@) {
            Ok(after) => result is Ok && final(header)@ == after,
            Err(error) => result == Err::<(), PstError>(error),
        },
{
    let next_block = UnicodeBlockId::new(false, next_bid)?;
    header.next_block = next_block;
    header.next_page = plan.next_page;
    header.reserve_nodes(reserved_nodes)?;
    header.root.node_btree = plan.node_btree;
    header.root.block_btree = plan.block_btree;
    header.root.file_eof_index = plan.new_eof;
    header.root.amap_last_index = AMAP_FIRST_OFFSET + (plan.new_eof - AMAP_FIRST_OFFSET - 1)
        / AMAP_DATA_SIZE * AMAP_DATA_SIZE;
    header.update_unique();
    Ok(())
}

} // verus!
