//! The node B-tree and the block B-tree: their entries and the pages that hold them.

use vstd::prelude::*;

use crate::bytes;
use crate::error::{IoError, PstError};
use crate::ndb::allocation;
use crate::ndb::ids::{NodeId, UnicodeBlockId, UnicodeBlockRef, UnicodePageId, UnicodePageRef};
use crate::ndb::levels;
use crate::sorting::Keyed;

verus! {

/// The number of entries of a block leaf page or an intermediate page.
pub const BTREE_CAPACITY: usize = 20;

/// The number of entries of a node leaf page.
pub const NODE_LEAF_CAPACITY: usize = 15;

/// The number of levels of a B-tree above its leaves.
pub const MAX_BTREE_LEVEL: u8 = 8;

/// The type of a page.
#[derive(Clone, Copy, PartialEq, Eq, Debug, Structural)]
pub enum PageType {
    BlockBTree,
    NodeBTree,
    FreeMap,
    AllocationPageMap,
    AllocationMap,
    FreePageMap,
    DensityList,
}

/// The entry of a block.
#[derive(Clone, Copy, PartialEq, Eq, Debug, Structural)]
pub struct UnicodeBlockBTreeEntry {
    pub block: UnicodeBlockRef,
    pub size: u16,
    pub ref_count: u16,
}

impl UnicodeBlockBTreeEntry {
    /// The entry of a block with a reference count of one.
    pub fn new(block: UnicodeBlockRef, size: u16) -> (entry: UnicodeBlockBTreeEntry)
        ensures
            entry == (UnicodeBlockBTreeEntry { block, size, ref_count: 1 }),
    {
        UnicodeBlockBTreeEntry { block, size, ref_count: 1 }
    }
}

impl Keyed for UnicodeBlockBTreeEntry {
    open spec fn spec_key(&self) -> u64 {
        self.block.block.spec_search_key()
    }

    fn key(&self) -> (key: u64) {
        self.block.block.search_key()
    }
}

/// The entry of a node.
#[derive(Clone, Copy, PartialEq, Eq, Debug, Structural)]
pub struct UnicodeNodeBTreeEntry {
    pub node: NodeId,
    pub data: UnicodeBlockId,
    pub sub_node: Option<UnicodeBlockId>,
    pub parent: Option<NodeId>,
}

impl UnicodeNodeBTreeEntry {
    /// The entry of a node with its data, its subnodes and its parent.
    pub fn new(
        node: NodeId,
        data: UnicodeBlockId,
        sub_node: Option<UnicodeBlockId>,
        parent: Option<NodeId>,
    ) -> (entry: UnicodeNodeBTreeEntry)
        ensures
            entry == (UnicodeNodeBTreeEntry { node, data, sub_node, parent }),
    {
        UnicodeNodeBTreeEntry { node, data, sub_node, parent }
    }
}

impl Keyed for UnicodeNodeBTreeEntry {
    open spec fn spec_key(&self) -> u64 {
        self.node.value as u64
    }

    fn key(&self) -> (key: u64) {
        self.node.value as u64
    }
}

/// The entry of a child page in an intermediate page.
#[derive(Clone, Copy, PartialEq, Eq, Debug, Structural)]
pub struct UnicodeBTreePageEntry {
    pub key: u64,
    pub block: UnicodePageRef,
}

/// What a new B-tree page holds.
pub enum NewBTreePageData {
    BlockLeaf(Vec<UnicodeBlockBTreeEntry>),
    NodeLeaf(Vec<UnicodeNodeBTreeEntry>),
    Intermediate(PageType, u8, Vec<UnicodeBTreePageEntry>),
}

/// The contents of a new B-tree page.
pub enum PageContents {
    /// Entries of blocks.
    BlockLeaf(Seq<UnicodeBlockBTreeEntry>),
    /// Entries of nodes.
    NodeLeaf(Seq<UnicodeNodeBTreeEntry>),
    /// The type and the level of the page, and its children.
    Intermediate(PageType, u8, Seq<UnicodeBTreePageEntry>),
}

impl View for NewBTreePageData {
    type V = PageContents;

    open spec fn view(&self) -> PageContents {
        match self {
            NewBTreePageData::BlockLeaf(entries) => PageContents::BlockLeaf(entries@),
            NewBTreePageData::NodeLeaf(entries) => PageContents::NodeLeaf(entries@),
            NewBTreePageData::Intermediate(
                page_type,
                level,
                entries,
            ) => PageContents::Intermediate(*page_type, *level, entries@),
        }
    }
}

/// A B-tree page that is to be written.
pub struct NewBTreePage {
    pub page_ref: UnicodePageRef,
    pub data: NewBTreePageData,
}

/// A B-tree page that is to be written, with its contents.
pub struct PlannedPage {
    pub page_ref: UnicodePageRef,
    pub data: PageContents,
}

impl View for NewBTreePage {
    type V = PlannedPage;

    open spec fn view(&self) -> PlannedPage {
        PlannedPage { page_ref: self.page_ref, data: self.data@ }
    }
}

/// The pages planned so far, the next page and the first offset behind them.
#[verifier::ext_equal]
pub struct PagePlan {
    pub pages: Seq<PlannedPage>,
    pub next_page: UnicodePageId,
    pub next_offset: u64,
}

/// The plan that `pages`, `next_page` and `next_offset` make up.
pub open spec fn page_plan(
    pages: Seq<NewBTreePage>,
    next_page: UnicodePageId,
    next_offset: u64,
) -> PagePlan {
    PagePlan { pages: bytes::views(pages), next_page, next_offset }
}

/// The plan with one more page.
pub open spec fn with_page(plan: PagePlan, data: PageContents) -> (
    PagePlan,
    Result<UnicodePageRef, PstError>,
) {
    match plan.next_page.spec_next() {
        Err(error) => (plan, Err(error)),
        Ok(next_page) => {
            let numbered = PagePlan { next_page, ..plan };
            if plan.next_offset > allocation::MAX_FILE_OFFSET {
                (numbered, Err(PstError::IntegerConversion))
            } else {
                let offset = allocation::reserved_offset(
                    plan.next_offset as int,
                    allocation::PAGE_SIZE as int,
                    allocation::PAGE_SIZE as int,
                );
                let page_ref = UnicodePageRef { block: plan.next_page, index: offset as u64 };
                (
                    PagePlan {
                        pages: plan.pages.push(PlannedPage { page_ref, data }),
                        next_page,
                        next_offset: (offset + allocation::PAGE_SIZE) as u64,
                    },
                    Ok(page_ref),
                )
            }
        },
    }
}

/// The plan with one intermediate page for every group of children from `start` on, after the pages
/// in `done`.
pub open spec fn with_page_level(
    plan: PagePlan,
    page_type: PageType,
    children: Seq<UnicodeBTreePageEntry>,
    start: int,
    level: u8,
    done: Seq<UnicodeBTreePageEntry>,
) -> (PagePlan, Result<Seq<UnicodeBTreePageEntry>, PstError>)
    decreases children.len() - start,
{
    if start >= children.len() {
        (plan, Ok(done))
    } else {
        let end = levels::group_end(start, BTREE_CAPACITY as int, children.len() as int);
        match with_page(
            plan,
            PageContents::Intermediate(page_type, level, children.subrange(start, end)),
        ) {
            (after, Err(error)) => (after, Err(error)),
            (after, Ok(block)) => with_page_level(
                after,
                page_type,
                children,
                end,
                level,
                done.push(UnicodeBTreePageEntry { key: children[start].key, block }),
            ),
        }
    }
}

pub proof fn lemma_page_level_length(
    plan: PagePlan,
    page_type: PageType,
    children: Seq<UnicodeBTreePageEntry>,
    start: int,
    level: u8,
    done: Seq<UnicodeBTreePageEntry>,
)
    requires
        0 <= start <= children.len(),
    ensures
        with_page_level(plan, page_type, children, start, level, done).1 matches Ok(next)
            ==> next.len() == done.len() + levels::group_count(
            children.len() - start,
            BTREE_CAPACITY as int,
        ),
    decreases children.len() - start,
{
    if start < children.len() {
        let end = levels::group_end(start, BTREE_CAPACITY as int, children.len() as int);
        if let (after, Ok(block)) = with_page(
            plan,
            PageContents::Intermediate(page_type, level, children.subrange(start, end)),
        ) {
            lemma_page_level_length(
                after,
                page_type,
                children,
                end,
                level,
                done.push(UnicodeBTreePageEntry { key: children[start].key, block }),
            );
        }
    }
}

/// The plan with intermediate pages above `children` up to a single root, the first of them at
/// `level`. A tree of more than eight levels above its leaves is refused.
pub open spec fn with_intermediate_pages(
    plan: PagePlan,
    page_type: PageType,
    children: Seq<UnicodeBTreePageEntry>,
    level: u8,
) -> (PagePlan, Result<UnicodePageRef, PstError>)
    decreases children.len(),
{
    if children.len() <= 1 {
        (plan, Ok(children[0].block))
    } else if level > MAX_BTREE_LEVEL {
        (plan, Err(PstError::Io(IoError::BTreeTooDeep)))
    } else {
        proof {
            lemma_page_level_length(plan, page_type, children, 0, level, Seq::empty());
        }
        match with_page_level(plan, page_type, children, 0, level, Seq::empty()) {
            (after, Err(error)) => (after, Err(error)),
            (after, Ok(next)) => with_intermediate_pages(
                after,
                page_type,
                next,
                (level + 1) as u8,
            ),
        }
    }
}

/// The plan with one leaf page for every group of blocks from `start` on, after the pages in
/// `done`.
pub open spec fn with_block_leaves(
    plan: PagePlan,
    entries: Seq<UnicodeBlockBTreeEntry>,
    start: int,
    done: Seq<UnicodeBTreePageEntry>,
) -> (PagePlan, Result<Seq<UnicodeBTreePageEntry>, PstError>)
    decreases entries.len() - start,
{
    if start >= entries.len() {
        (plan, Ok(done))
    } else {
        let end = levels::group_end(start, BTREE_CAPACITY as int, entries.len() as int);
        match with_page(plan, PageContents::BlockLeaf(entries.subrange(start, end))) {
            (after, Err(error)) => (after, Err(error)),
            (after, Ok(block)) => with_block_leaves(
                after,
                entries,
                end,
                done.push(UnicodeBTreePageEntry { key: entries[start].spec_key(), block }),
            ),
        }
    }
}

/// The plan with one leaf page for every group of nodes from `start` on, after the pages in
/// `done`.
pub open spec fn with_node_leaves(
    plan: PagePlan,
    entries: Seq<UnicodeNodeBTreeEntry>,
    start: int,
    done: Seq<UnicodeBTreePageEntry>,
) -> (PagePlan, Result<Seq<UnicodeBTreePageEntry>, PstError>)
    decreases entries.len() - start,
{
    if start >= entries.len() {
        (plan, Ok(done))
    } else {
        let end = levels::group_end(start, NODE_LEAF_CAPACITY as int, entries.len() as int);
        match with_page(plan, PageContents::NodeLeaf(entries.subrange(start, end))) {
            (after, Err(error)) => (after, Err(error)),
            (after, Ok(block)) => with_node_leaves(
                after,
                entries,
                end,
                done.push(UnicodeBTreePageEntry { key: entries[start].spec_key(), block }),
            ),
        }
    }
}

/// The plan with a B-tree of the given blocks, and its root.
#[verifier::opaque]
pub open spec fn with_block_btree(plan: PagePlan, entries: Seq<UnicodeBlockBTreeEntry>) -> (
    PagePlan,
    Result<UnicodePageRef, PstError>,
) {
    match with_block_leaves(plan, entries, 0, Seq::empty()) {
        (after, Err(error)) => (after, Err(error)),
        (after, Ok(children)) => with_intermediate_pages(after, PageType::BlockBTree, children, 1),
    }
}

/// The plan with a B-tree of the given nodes, and its root.
#[verifier::opaque]
pub open spec fn with_node_btree(plan: PagePlan, entries: Seq<UnicodeNodeBTreeEntry>) -> (
    PagePlan,
    Result<UnicodePageRef, PstError>,
) {
    match with_node_leaves(plan, entries, 0, Seq::empty()) {
        (after, Err(error)) => (after, Err(error)),
        (after, Ok(children)) => with_intermediate_pages(after, PageType::NodeBTree, children, 1),
    }
}

pub proof fn lemma_block_leaves_grow(
    plan: PagePlan,
    entries: Seq<UnicodeBlockBTreeEntry>,
    start: int,
    done: Seq<UnicodeBTreePageEntry>,
)
    requires
        0 <= start <= entries.len(),
    ensures
        with_block_leaves(plan, entries, start, done).1 matches Ok(next) ==> next.len()
            == done.len() + levels::group_count(entries.len() - start, BTREE_CAPACITY as int),
    decreases entries.len() - start,
{
    if start < entries.len() {
        let end = levels::group_end(start, BTREE_CAPACITY as int, entries.len() as int);
        if let (after, Ok(block)) = with_page(
            plan,
            PageContents::BlockLeaf(entries.subrange(start, end)),
        ) {
            lemma_block_leaves_grow(
                after,
                entries,
                end,
                done.push(UnicodeBTreePageEntry { key: entries[start].spec_key(), block }),
            );
        }
    }
}

pub proof fn lemma_node_leaves_grow(
    plan: PagePlan,
    entries: Seq<UnicodeNodeBTreeEntry>,
    start: int,
    done: Seq<UnicodeBTreePageEntry>,
)
    requires
        0 <= start <= entries.len(),
    ensures
        with_node_leaves(plan, entries, start, done).1 matches Ok(next) ==> next.len() == done.len()
            + levels::group_count(entries.len() - start, NODE_LEAF_CAPACITY as int),
    decreases entries.len() - start,
{
    if start < entries.len() {
        let end = levels::group_end(start, NODE_LEAF_CAPACITY as int, entries.len() as int);
        if let (after, Ok(block)) = with_page(
            plan,
            PageContents::NodeLeaf(entries.subrange(start, end)),
        ) {
            lemma_node_leaves_grow(
                after,
                entries,
                end,
                done.push(UnicodeBTreePageEntry { key: entries[start].spec_key(), block }),
            );
        }
    }
}

/// Plans one more page.
pub fn reserve_btree_page(
    pages: &mut Vec<NewBTreePage>,
    next_page: &mut UnicodePageId,
    next_offset: &mut u64,
    data: NewBTreePageData,
) -> (page_ref: Result<UnicodePageRef, PstError>)
    ensures
        (page_plan(final(pages)@, *final(next_page), *final(next_offset)), page_ref) == with_page(
            page_plan(old(pages)@, *old(next_page), *old(next_offset)),
            data@,
        ),
{
    let id: UnicodePageId = *next_page;
    *next_page = id.next()?;
    if *next_offset > allocation::MAX_FILE_OFFSET {
        return Err(PstError::IntegerConversion);
    }
    let offset: u64 = allocation::reserve_file_range(
        next_offset,
        allocation::PAGE_SIZE,
        allocation::PAGE_SIZE,
    );
    let page_ref = UnicodePageRef { block: id, index: offset };
    let page = NewBTreePage { page_ref, data };
    pages.push(page);
    assert(bytes::views(pages@) =~= bytes::views(old(pages)@).push(page@));
    Ok(page_ref)
}

/// Plans one intermediate page for every group of children.
fn plan_page_level(
    page_type: PageType,
    children: &Vec<UnicodeBTreePageEntry>,
    level: u8,
    pages: &mut Vec<NewBTreePage>,
    next_page: &mut UnicodePageId,
    next_offset: &mut u64,
) -> (parents: Result<Vec<UnicodeBTreePageEntry>, PstError>)
    ensures
        (
            page_plan(final(pages)@, *final(next_page), *final(next_offset)),
            crate::error::result_view(parents),
        ) == with_page_level(
            page_plan(old(pages)@, *old(next_page), *old(next_offset)),
            page_type,
            children@,
            0,
            level,
            Seq::empty(),
        ),
{
    let mut parents: Vec<UnicodeBTreePageEntry> = Vec::new();
    let mut start: usize = 0;
    while start < children.len()
        invariant
            start <= children@.len(),
            with_page_level(
                page_plan(old(pages)@, *old(next_page), *old(next_offset)),
                page_type,
                children@,
                0,
                level,
                Seq::empty(),
            ) == with_page_level(
                page_plan(pages@, *next_page, *next_offset),
                page_type,
                children@,
                start as int,
                level,
                parents@,
            ),
        decreases children@.len() - start,
    {
        let end: usize = levels::next_group(start, BTREE_CAPACITY, children.len());
        let group: Vec<UnicodeBTreePageEntry> = vstd::slice::slice_to_vec(
            vstd::slice::slice_subrange(children.as_slice(), start, end),
        );
        assert(group@ =~= children@.subrange(start as int, end as int));
        let block = reserve_btree_page(
            pages,
            next_page,
            next_offset,
            NewBTreePageData::Intermediate(page_type, level, group),
        )?;
        parents.push(UnicodeBTreePageEntry { key: children[start].key, block });
        start = end;
    }
    Ok(parents)
}

/// Plans intermediate pages above `children` up to a single root.
pub fn plan_intermediate_btree_pages(
    page_type: PageType,
    children: Vec<UnicodeBTreePageEntry>,
    pages: &mut Vec<NewBTreePage>,
    next_page: &mut UnicodePageId,
    next_offset: &mut u64,
) -> (root: Result<UnicodePageRef, PstError>)
    requires
        children@.len() > 0,
    ensures
        (page_plan(final(pages)@, *final(next_page), *final(next_offset)), root)
            == with_intermediate_pages(
            page_plan(old(pages)@, *old(next_page), *old(next_offset)),
            page_type,
            children@,
            1,
        ),
{
    let mut current: Vec<UnicodeBTreePageEntry> = children;
    let mut level: u8 = 1;
    while current.len() > 1
        invariant
            current@.len() >= 1,
            1 <= level <= MAX_BTREE_LEVEL + 1,
            with_intermediate_pages(
                page_plan(old(pages)@, *old(next_page), *old(next_offset)),
                page_type,
                children@,
                1,
            ) == with_intermediate_pages(
                page_plan(pages@, *next_page, *next_offset),
                page_type,
                current@,
                level,
            ),
        decreases current@.len(),
    {
        if level > MAX_BTREE_LEVEL {
            return Err(PstError::Io(IoError::BTreeTooDeep));
        }
        proof {
            lemma_page_level_length(
                page_plan(pages@, *next_page, *next_offset),
                page_type,
                current@,
                0,
                level,
                Seq::empty(),
            );
        }
        current = plan_page_level(page_type, &current, level, pages, next_page, next_offset)?;
        level += 1;
    }
    Ok(current[0].block)
}

/// Plans the pages of a block B-tree with the given entries and returns its root.
pub fn plan_block_btree(
    entries: &[UnicodeBlockBTreeEntry],
    pages: &mut Vec<NewBTreePage>,
    next_page: &mut UnicodePageId,
    next_offset: &mut u64,
) -> (root: Result<UnicodePageRef, PstError>)
    requires
        entries@.len() > 0,
    ensures
        (page_plan(final(pages)@, *final(next_page), *final(next_offset)), root)
            == with_block_btree(
            page_plan(old(pages)@, *old(next_page), *old(next_offset)),
            entries@,
        ),
{
    reveal(with_block_btree);
    proof {
        lemma_block_leaves_grow(
            page_plan(pages@, *next_page, *next_offset),
            entries@,
            0,
            Seq::empty(),
        );
    }
    let mut children: Vec<UnicodeBTreePageEntry> = Vec::new();
    let mut start: usize = 0;
    while start < entries.len()
        invariant
            start <= entries@.len(),
            with_block_leaves(
                page_plan(old(pages)@, *old(next_page), *old(next_offset)),
                entries@,
                0,
                Seq::empty(),
            ) == with_block_leaves(
                page_plan(pages@, *next_page, *next_offset),
                entries@,
                start as int,
                children@,
            ),
        decreases entries@.len() - start,
    {
        reveal(with_block_btree);
        let end: usize = levels::next_group(start, BTREE_CAPACITY, entries.len());
        let group: Vec<UnicodeBlockBTreeEntry> = vstd::slice::slice_to_vec(
            vstd::slice::slice_subrange(entries, start, end),
        );
        assert(group@ =~= entries@.subrange(start as int, end as int));
        let block = reserve_btree_page(
            pages,
            next_page,
            next_offset,
            NewBTreePageData::BlockLeaf(group),
        )?;
        children.push(UnicodeBTreePageEntry { key: entries[start].key(), block });
        start = end;
    }
    plan_intermediate_btree_pages(PageType::BlockBTree, children, pages, next_page, next_offset)
}

/// Plans the pages of a node B-tree with the given entries and returns its root.
pub fn plan_node_btree(
    entries: &[UnicodeNodeBTreeEntry],
    pages: &mut Vec<NewBTreePage>,
    next_page: &mut UnicodePageId,
    next_offset: &mut u64,
) -> (root: Result<UnicodePageRef, PstError>)
    requires
        entries@.len() > 0,
    ensures
        (page_plan(final(pages)@, *final(next_page), *final(next_offset)), root)
            == with_node_btree(
            page_plan(old(pages)@, *old(next_page), *old(next_offset)),
            entries@,
        ),
{
    reveal(with_node_btree);
    proof {
        lemma_node_leaves_grow(
            page_plan(pages@, *next_page, *next_offset),
            entries@,
            0,
            Seq::empty(),
        );
    }
    let mut children: Vec<UnicodeBTreePageEntry> = Vec::new();
    let mut start: usize = 0;
    while start < entries.len()
        invariant
            start <= entries@.len(),
            with_node_leaves(
                page_plan(old(pages)@, *old(next_page), *old(next_offset)),
                entries@,
                0,
                Seq::empty(),
            ) == with_node_leaves(
                page_plan(pages@, *next_page, *next_offset),
                entries@,
                start as int,
                children@,
            ),
        decreases entries@.len() - start,
    {
        reveal(with_node_btree);
        let end: usize = levels::next_group(start, NODE_LEAF_CAPACITY, entries.len());
        let group: Vec<UnicodeNodeBTreeEntry> = vstd::slice::slice_to_vec(
            vstd::slice::slice_subrange(entries, start, end),
        );
        assert(group@ =~= entries@.subrange(start as int, end as int));
        let block = reserve_btree_page(
            pages,
            next_page,
            next_offset,
            NewBTreePageData::NodeLeaf(group),
        )?;
        children.push(UnicodeBTreePageEntry { key: entries[start].key(), block });
        start = end;
    }
    plan_intermediate_btree_pages(PageType::NodeBTree, children, pages, next_page, next_offset)
}

} // verus!
