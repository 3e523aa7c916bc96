//! The walks that find every page and block in use, and the allocation maps they make up.

use vstd::prelude::*;

use crate::bytes;
use crate::error::PstError;
use crate::ndb::allocation;
use crate::ndb::allocation::{AMAP_DATA_SIZE, AMAP_FIRST_OFFSET};
use crate::ndb::amap;
use crate::ndb::amap::{Allocation, AllocationMapPageInfo, MapPage, MapPageContents};
use crate::ndb::btree::{PageType, UnicodeBTreePageEntry, UnicodeBlockBTreeEntry};
use crate::ndb::header::{AmapStatus, Header, HeaderContents, FIRST_FREE_MAP_SIZE};
use crate::ndb::ids::UnicodePageRef;
use crate::ndb::walk::{BTreePage, BTreePageContents};

verus! {

/// A page that is still to be read, and the level of the page above it.
#[derive(Clone, Copy, PartialEq, Eq, Debug, Structural)]
pub struct UnmarkedPage {
    pub page: UnicodePageRef,
    pub parent_level: Option<u8>,
}

/// Whether a page can stand below a page of the given level: an intermediate page one level below
/// it, and a leaf page below level one. The root can be anything.
pub open spec fn level_fits<T>(parent_level: Option<u8>, page: BTreePageContents<T>) -> bool {
    match parent_level {
        None => true,
        Some(parent) => match page {
            BTreePageContents::Intermediate(level, _) => level + 1 == parent,
            BTreePageContents::Leaf(_) => parent == 1,
        },
    }
}

/// The pages that are still to be read, with the children from `index` on, the first of them last.
pub open spec fn with_unmarked_children(
    pending: Seq<UnmarkedPage>,
    children: Seq<UnicodeBTreePageEntry>,
    index: int,
    level: u8,
) -> Seq<UnmarkedPage>
    decreases children.len() - index,
{
    if index >= children.len() {
        pending
    } else {
        with_unmarked_children(pending, children, index + 1, level).push(
            UnmarkedPage { page: children[index].block, parent_level: Some(level) },
        )
    }
}

/// The pending pages after `page` was read below a page of the given level.
pub open spec fn after_marked_page<T>(
    pending: Seq<UnmarkedPage>,
    top: UnmarkedPage,
    page: BTreePageContents<T>,
) -> Result<Seq<UnmarkedPage>, PstError> {
    if !level_fits(top.parent_level, page) {
        Err(PstError::InvalidBTreePage(top.page.index))
    } else {
        match page {
            BTreePageContents::Leaf(_) => Ok(pending),
            BTreePageContents::Intermediate(level, children) => Ok(
                with_unmarked_children(pending, children, 0, level),
            ),
        }
    }
}

/// A bound on the levels below a page.
pub open spec fn level_rank(parent_level: Option<u8>) -> int {
    match parent_level {
        None => 256,
        Some(level) => level as int,
    }
}

/// The allocations below a page, each page before those below it, where `own` gives those of each
/// page.
pub open spec fn allocations_below<T>(
    file: spec_fn(UnicodePageRef) -> BTreePageContents<T>,
    own: spec_fn(UnicodePageRef) -> Seq<Allocation>,
    top: UnmarkedPage,
) -> Result<Seq<Allocation>, PstError>
    decreases level_rank(top.parent_level), 0nat,
{
    let page = file(top.page);
    if !level_fits(top.parent_level, page) {
        Err(PstError::InvalidBTreePage(top.page.index))
    } else {
        match page {
            BTreePageContents::Leaf(_) => Ok(own(top.page)),
            BTreePageContents::Intermediate(level, children) => match allocations_of_children(
                file,
                own,
                children,
                0,
                level,
            ) {
                Err(error) => Err(error),
                Ok(below) => Ok(own(top.page) + below),
            },
        }
    }
}

/// The allocations below the children from `index` on of a page of the given level.
pub open spec fn allocations_of_children<T>(
    file: spec_fn(UnicodePageRef) -> BTreePageContents<T>,
    own: spec_fn(UnicodePageRef) -> Seq<Allocation>,
    children: Seq<UnicodeBTreePageEntry>,
    index: int,
    level: u8,
) -> Result<Seq<Allocation>, PstError>
    decreases level as int, children.len() - index + 1,
{
    if index >= children.len() {
        Ok(Seq::empty())
    } else {
        match allocations_below(
            file,
            own,
            UnmarkedPage { page: children[index].block, parent_level: Some(level) },
        ) {
            Err(error) => Err(error),
            Ok(first) => match allocations_of_children(file, own, children, index + 1, level) {
                Err(error) => Err(error),
                Ok(rest) => Ok(first + rest),
            },
        }
    }
}

/// The allocations below the pending pages, the last of them first.
pub open spec fn allocations_of_pending<T>(
    file: spec_fn(UnicodePageRef) -> BTreePageContents<T>,
    own: spec_fn(UnicodePageRef) -> Seq<Allocation>,
    pending: Seq<UnmarkedPage>,
) -> Result<Seq<Allocation>, PstError>
    decreases pending.len(),
{
    if pending.len() == 0 {
        Ok(Seq::empty())
    } else {
        match allocations_below(file, own, pending.last()) {
            Err(error) => Err(error),
            Ok(first) => match allocations_of_pending(file, own, pending.drop_last()) {
                Err(error) => Err(error),
                Ok(rest) => Ok(first + rest),
            },
        }
    }
}

proof fn lemma_unmarked_children<T>(
    file: spec_fn(UnicodePageRef) -> BTreePageContents<T>,
    own: spec_fn(UnicodePageRef) -> Seq<Allocation>,
    pending: Seq<UnmarkedPage>,
    children: Seq<UnicodeBTreePageEntry>,
    index: int,
    level: u8,
)
    requires
        0 <= index <= children.len(),
    ensures
        allocations_of_pending(
            file,
            own,
            with_unmarked_children(pending, children, index, level),
        ) == (match allocations_of_children(file, own, children, index, level) {
            Err(error) => Err(error),
            Ok(first) => match allocations_of_pending(file, own, pending) {
                Err(error) => Err(error),
                Ok(rest) => Ok(first + rest),
            },
        }),
    decreases children.len() - index,
{
    if index < children.len() {
        lemma_unmarked_children(file, own, pending, children, index + 1, level);
        let rest = with_unmarked_children(pending, children, index + 1, level);
        let all = with_unmarked_children(pending, children, index, level);
        assert(all.drop_last() =~= rest);
        let child = UnmarkedPage { page: children[index].block, parent_level: Some(level) };
        if let Ok(first) = allocations_below(file, own, child) {
            if let Ok(second) = allocations_of_children(file, own, children, index + 1, level) {
                if let Ok(third) = allocations_of_pending(file, own, pending) {
                    assert(first + (second + third) =~= (first + second) + third);
                }
            }
        }
    } else {
        if let Ok(rest) = allocations_of_pending(file, own, pending) {
            assert(Seq::<Allocation>::empty() + rest =~= rest);
        }
    }
}

/// Reading the pending pages of a tree one by one meets the allocations below its root in order:
/// those of the page that was read, then those that are pending after it.
pub proof fn law_mark_walk_meets_every_allocation<T>(
    file: spec_fn(UnicodePageRef) -> BTreePageContents<T>,
    own: spec_fn(UnicodePageRef) -> Seq<Allocation>,
    pending: Seq<UnmarkedPage>,
    root: UnmarkedPage,
)
    ensures
        allocations_of_pending(file, own, seq![root]) == allocations_below(file, own, root),
        pending.len() > 0 ==> allocations_of_pending(file, own, pending) == (
        match after_marked_page(pending.drop_last(), pending.last(), file(pending.last().page)) {
            Err(error) => Err(error),
            Ok(next) => match allocations_of_pending(file, own, next) {
                Err(error) => Err(error),
                Ok(rest) => Ok(own(pending.last().page) + rest),
            },
        }),
{
    assert(seq![root].drop_last() =~= Seq::empty());
    assert(seq![root].last() == root);
    assert(allocations_of_pending(file, own, seq![root].drop_last()) == Ok::<_, PstError>(
        Seq::<Allocation>::empty(),
    ));
    if let Ok(entries) = allocations_below(file, own, root) {
        assert(entries + Seq::<Allocation>::empty() =~= entries);
    }
    if pending.len() > 0 {
        let top = pending.last();
        let rest = pending.drop_last();
        if let BTreePageContents::Intermediate(level, children) = file(top.page) {
            lemma_unmarked_children(file, own, rest, children, 0, level);
            if let Ok(below) = allocations_of_children(file, own, children, 0, level) {
                if let Ok(others) = allocations_of_pending(file, own, rest) {
                    assert(own(top.page) + (below + others) =~= (own(top.page) + below) + others);
                }
            }
        }
    }
}

/// A walk over every page of a B-tree that checks the levels of the pages.
pub struct MarkWalk {
    pub pending: Vec<UnmarkedPage>,
}

impl MarkWalk {
    /// A walk from the root of a B-tree.
    pub fn new(root: UnicodePageRef) -> (walk: MarkWalk)
        ensures
            walk.pending@ == seq![UnmarkedPage { page: root, parent_level: None }],
    {
        let mut pending: Vec<UnmarkedPage> = Vec::new();
        pending.push(UnmarkedPage { page: root, parent_level: None });
        assert(pending@ =~= seq![UnmarkedPage { page: root, parent_level: None }]);
        MarkWalk { pending }
    }

    /// Takes the page that is to be read next.
    pub fn next(&mut self) -> (page: Option<UnmarkedPage>)
        ensures
            match page {
                None => old(self).pending@.len() == 0 && final(self).pending@ == old(self).pending@,
                Some(page) => old(self).pending@.len() > 0 && page == old(self).pending@.last()
                    && final(self).pending@ == old(self).pending@.drop_last(),
            },
    {
        self.pending.pop()
    }

    /// Takes in a page that was read. One at the wrong level is refused.
    pub fn visit<T>(&mut self, top: UnmarkedPage, page: &BTreePage<T>) -> (result: Result<
        (),
        PstError,
    >)
        ensures
            match after_marked_page(old(self).pending@, top, page@) {
                Ok(after) => result is Ok && final(self).pending@ == after,
                Err(error) => result == Err::<(), PstError>(error) && final(self).pending@ == old(
                    self,
                ).pending@,
            },
    {
        match page {
            BTreePage::Leaf(_) => {
                match top.parent_level {
                    Some(parent) => {
                        if parent != 1 {
                            return Err(PstError::InvalidBTreePage(top.page.index));
                        }
                    },
                    None => {},
                }
            },
            BTreePage::Intermediate(level, children) => {
                match top.parent_level {
                    Some(parent) => {
                        if *level as u16 + 1 != parent as u16 {
                            return Err(PstError::InvalidBTreePage(top.page.index));
                        }
                    },
                    None => {},
                }
                let mut i: usize = children.len();
                while i > 0
                    invariant
                        i <= children@.len(),
                        self.pending@ == with_unmarked_children(
                            old(self).pending@,
                            children@,
                            i as int,
                            *level,
                        ),
                    decreases i,
                {
                    i -= 1;
                    self.pending.push(
                        UnmarkedPage { page: children[i].block, parent_level: Some(*level) },
                    );
                }
            },
        }
        Ok(())
    }
}

/// The allocations of a page of the block B-tree: the page, and the blocks in a leaf.
pub open spec fn block_page_allocations(
    offset: u64,
    page: BTreePageContents<UnicodeBlockBTreeEntry>,
    trailer_size: u16,
) -> Seq<Allocation> {
    match page {
        BTreePageContents::Intermediate(..) => seq![amap::page_allocation(offset)],
        BTreePageContents::Leaf(entries) => seq![amap::page_allocation(offset)] + Seq::new(
            entries.len(),
            |i: int| amap::block_allocation(entries[i], trailer_size),
        ),
    }
}

/// The allocation of a page of the node B-tree.
pub fn node_page_allocation(page: UnicodePageRef) -> (allocations: Vec<Allocation>)
    ensures
        allocations@ == seq![amap::page_allocation(page.index)],
{
    let mut allocations: Vec<Allocation> = Vec::new();
    allocations.push(Allocation { offset: page.index, size: allocation::PAGE_SIZE });
    assert(allocations@ =~= seq![amap::page_allocation(page.index)]);
    allocations
}

/// The allocations of a page of the block B-tree: the page, and the blocks in a leaf.
pub fn block_page_allocation(
    page_ref: UnicodePageRef,
    page: &BTreePage<UnicodeBlockBTreeEntry>,
    trailer_size: u16,
) -> (allocations: Vec<Allocation>)
    ensures
        allocations@ == block_page_allocations(page_ref.index, page@, trailer_size),
{
    let mut allocations = node_page_allocation(page_ref);
    match page {
        BTreePage::Intermediate(_, _) => {},
        BTreePage::Leaf(entries) => {
            let mut i: usize = 0;
            while i < entries.len()
                invariant
                    i <= entries@.len(),
                    allocations@ == seq![amap::page_allocation(page_ref.index)] + Seq::new(
                        i as nat,
                        |j: int| amap::block_allocation(entries@[j], trailer_size),
                    ),
                decreases entries@.len() - i,
            {
                let entry: UnicodeBlockBTreeEntry = entries[i];
                allocations.push(
                    Allocation {
                        offset: entry.block.index,
                        size: amap::block_disk_size(entry.size, trailer_size),
                    },
                );
                i += 1;
                assert(allocations@ =~= seq![amap::page_allocation(page_ref.index)] + Seq::new(
                    i as nat,
                    |j: int| amap::block_allocation(entries@[j], trailer_size),
                ));
            }
        },
    }
    assert(allocations@ =~= block_page_allocations(page_ref.index, page@, trailer_size));
    allocations
}

/// The allocation map pages of the first `count` regions.
pub open spec fn amap_pages(regions: Seq<AllocationMapPageInfo>, count: nat) -> Seq<MapPageContents> {
    Seq::new(
        count,
        |i: int|
            MapPageContents {
                page_type: PageType::AllocationMap,
                offset: allocation::region_start(i) as u64,
                map_bits: regions[i].map_bits@,
            },
    )
}

/// The map pages that are to be written, and the header after them.
pub open spec fn rebuilt_maps(
    header: HeaderContents,
    regions: Seq<AllocationMapPageInfo>,
    max_index: u64,
) -> Result<(Seq<MapPageContents>, HeaderContents), PstError> {
    let states = amap::region_views(regions);
    if amap::free_bytes(states, states.len()) > max_index {
        Err(PstError::IntegerConversion)
    } else {
        match amap::other_map_pages(states, max_index) {
            Err(error) => Err(error),
            Ok(others) => Ok(
                (
                    amap_pages(regions, regions.len()) + others,
                    amap::rebuilt_header(header, states),
                ),
            ),
        }
    }
}

/// The regions that are to be marked, where the header says that the allocation maps cannot be
/// relied on.
pub fn begin_allocation_map(header: &Header, max_index: u64) -> (regions: Result<
    Option<Vec<AllocationMapPageInfo>>,
    PstError,
>)
    requires
        header.root.amap_is_valid == AmapStatus::Invalid ==> AMAP_FIRST_OFFSET
            <= header.root.file_eof_index && header.root.file_eof_index + AMAP_DATA_SIZE
            <= u64::MAX,
    ensures
        ({
            let count = amap::region_count(header.root.file_eof_index);
            let fits = count == 0 || allocation::region_start(count - 1) <= max_index;
            match regions {
                Ok(None) => header.root.amap_is_valid != AmapStatus::Invalid,
                Ok(Some(regions)) => header.root.amap_is_valid == AmapStatus::Invalid && fits
                    && amap::maps_wf(regions@) && amap::region_views(regions@) == Seq::new(
                    count as nat,
                    |i: int| amap::fresh_region(i),
                ),
                Err(error) => header.root.amap_is_valid == AmapStatus::Invalid && !fits && error
                    == PstError::IntegerConversion,
            }
        }),
{
    if header.root.amap_is_valid != AmapStatus::Invalid {
        return Ok(None);
    }
    let regions = amap::new_regions(header.root.file_eof_index, max_index)?;
    Ok(Some(regions))
}

/// The number of free bytes in the regions, where it is not beyond `max_index`.
fn count_free_bytes(regions: &Vec<AllocationMapPageInfo>, max_index: u64) -> (free: Result<
    u64,
    PstError,
>)
    requires
        regions@.len() <= u64::MAX,
    ensures
        ({
            let states = amap::region_views(regions@);
            let total = amap::free_bytes(states, states.len());
            free == (if total > max_index {
                Err(PstError::IntegerConversion)
            } else {
                Ok(total as u64)
            })
        }),
{
    let ghost states = amap::region_views(regions@);
    let mut total: u128 = 0;
    let mut i: usize = 0;
    while i < regions.len()
        invariant
            i <= regions@.len(),
            regions@.len() <= u64::MAX,
            states == amap::region_views(regions@),
            total == amap::free_bytes(states, i as nat),
            total <= i * u64::MAX,
        decreases regions@.len() - i,
    {
        assert(states[i as int] == regions@[i as int]@);
        assert(i * u64::MAX <= u64::MAX * u64::MAX) by (nonlinear_arith)
            requires
                i <= u64::MAX,
        ;
        total = total + regions[i].free_space as u128;
        i += 1;
    }
    if total > max_index as u128 {
        return Err(PstError::IntegerConversion);
    }
    Ok(total as u64)
}

/// The map pages that are to be written for the marked regions. The header is brought up to date:
/// it names the last allocation map, the free bytes and the free slots of the first regions, and the
/// allocation maps are valid.
pub fn rebuild_allocation_map(
    header: &mut Header,
    regions: Vec<AllocationMapPageInfo>,
    max_index: u64,
) -> (pages: Result<Vec<MapPage>, PstError>)
    requires
        amap::maps_wf(regions@),
        allocation::region_start(regions@.len() as int) <= u64::MAX,
        regions@.len() + 0x1_0000 <= usize::MAX,
    ensures
        match rebuilt_maps(old(header)@, regions@, max_index) {
            Ok((expected, after)) => pages matches Ok(pages) && bytes::views(pages@) == expected
                && final(header)@ == after,
            Err(error) => pages matches Err(result) && result == error && final(header)@ == old(
                header,
            )@,
        },
{
    let ghost states = amap::region_views(regions@);
    let count: usize = regions.len();
    let free: u64 = count_free_bytes(&regions, max_index)?;
    let others = amap::new_map_pages(&regions, max_index)?;
    let first_free_map = amap::new_free_map(&regions, 0, FIRST_FREE_MAP_SIZE);
    let mut pages: Vec<MapPage> = Vec::new();
    let mut i: usize = 0;
    while i < count
        invariant
            i <= count,
            count == regions@.len(),
            allocation::region_start(regions@.len() as int) <= u64::MAX,
            bytes::views(pages@) == amap_pages(regions@, i as nat),
        decreases count - i,
    {
        assert(allocation::region_start(i as int) <= allocation::region_start(
            regions@.len() as int,
        ));
        let page = MapPage {
            page_type: PageType::AllocationMap,
            offset: i as u64 * AMAP_DATA_SIZE + AMAP_FIRST_OFFSET,
            map_bits: bytes::copy(regions[i].map_bits.as_slice()),
        };
        let ghost before = bytes::views(pages@);
        pages.push(page);
        i += 1;
        assert(bytes::views(pages@) =~= before.push(page@));
        assert(bytes::views(pages@) =~= amap_pages(regions@, i as nat));
    }
    let ghost amaps = bytes::views(pages@);
    let ghost rest_views = bytes::views(others@);
    let mut rest = others;
    pages.append(&mut rest);
    assert(bytes::views(pages@) =~= amaps + rest_views);
    header.first_free_map = first_free_map;
    header.update_unique();
    let last: u64 = if count == 0 {
        0
    } else {
        (count - 1) as u64
    };
    assert(allocation::region_start(last as int) <= u64::MAX);
    header.root.amap_last_index = AMAP_FIRST_OFFSET + last * AMAP_DATA_SIZE;
    header.root.amap_free_size = free;
    header.root.pmap_free_size = 0;
    header.root.amap_is_valid = AmapStatus::Valid2;
    assert(header@ =~= amap::rebuilt_header(old(header)@, states));
    Ok(pages)
}

} // verus!
