//! What a commit leaves of the bytes that a file had before.

use vstd::prelude::*;

use crate::error::PstError;
use crate::file;
use crate::file::DENSITY_LIST_FILE_OFFSET;
use crate::ndb::allocation;
use crate::ndb::allocation::{
    AMAP_FIRST_OFFSET, FMAP_DATA_SIZE, FMAP_FIRST_OFFSET, FMAP_FIRST_SIZE,
    FMAP_PAGE_COUNT, FPMAP_DATA_SIZE, FPMAP_FIRST_OFFSET, FPMAP_FIRST_SIZE, FPMAP_PAGE_COUNT,
    PAGE_SIZE, PMAP_DATA_SIZE, PMAP_FIRST_OFFSET, PMAP_PAGE_COUNT,
};
use crate::ndb::amap;
use crate::ndb::amap::{AllocationMapPageInfo, MapPageContents, RegionState, MAP_BYTE_COUNT};
use crate::ndb::btree::PageType;
use crate::ndb::encoding;
use crate::ndb::header::HeaderContents;
use crate::ndb::ids::UnicodeBlockId;
use crate::ndb::mark;
use crate::ndb::transaction;
use crate::ndb::transaction::{ActionContents, CommitState};
use crate::ndb::transaction_laws;

verus! {

/// The state after at most `steps` steps of a commit, and its actions. Step `i` is given the blocks in
/// `trees[i]`.
pub open spec fn run(start: CommitState, trees: Seq<Seq<UnicodeBlockId>>, steps: nat) -> Result<
    (CommitState, Seq<ActionContents>),
    PstError,
>
    decreases steps,
{
    if steps == 0 {
        Ok((start, Seq::empty()))
    } else {
        match run(start, trees, (steps - 1) as nat) {
            Err(error) => Err(error),
            Ok((state, trace)) => if state.stage is Done {
                Ok((state, trace))
            } else {
                match transaction::step(state, trees[steps - 1]) {
                    Err(error) => Err(error),
                    Ok((after, action)) => Ok((after, trace.push(action))),
                }
            },
        }
    }
}

/// The reads among some actions.
pub open spec fn reads_in(trace: Seq<ActionContents>) -> Seq<ActionContents>
    decreases trace.len(),
{
    if trace.len() == 0 {
        Seq::empty()
    } else {
        transaction_laws::with_read(reads_in(trace.drop_last()), trace.last())
    }
}

/// Whether the pages of planned B-trees can be counted.
pub open spec fn can_count_pages(state: CommitState) -> bool {
    state.trees matches Some(trees) ==> trees.plan.pages.len() <= usize::MAX
}

proof fn lemma_trees_stay(state: CommitState, blocks: Seq<UnicodeBlockId>)
    requires
        state.trees is Some ==> state.stage is Pages || state.stage is Resized
            || state.stage is PagesSynced || state.stage is Switched || state.stage is Done,
    ensures
        transaction::step(state, blocks) matches Ok((after, _)) ==> (state.trees is Some ==> after.trees
            == state.trees) && (after.trees is Some ==> after.stage is Pages || after.stage is Resized
            || after.stage is PagesSynced || after.stage is Switched || after.stage is Done),
{
    reveal(transaction::step);
}

/// A whole commit goes through its actions in their order, and leaves everything before `end` but the
/// header as it is.
pub proof fn law_whole_commit(
    start: CommitState,
    trees: Seq<Seq<UnicodeBlockId>>,
    steps: nat,
    end: u64,
)
    requires
        start.stage is Start,
        start.trees is None,
        transaction::commit_wf(start),
        transaction_laws::writes_behind(start, end),
    ensures
        run(start, trees, steps) matches Ok((state, trace)) ==> can_count_pages(state) ==> {
            &&& transaction::commit_wf(state)
            &&& transaction_laws::writes_behind(state, end)
            &&& transaction_laws::has_done(start, state, trace, reads_in(trace))
            &&& forall|i: int|
                0 <= i < trace.len() ==> transaction_laws::behind(#[trigger] trace[i], end)
        },
        run(start, trees, steps) matches Ok((state, _)) ==> (state.trees is Some ==> state.stage is Pages
            || state.stage is Resized || state.stage is PagesSynced || state.stage is Switched
            || state.stage is Done),
    decreases steps,
{
    if steps > 0 {
        law_whole_commit(start, trees, (steps - 1) as nat, end);
        if let Ok((state, trace)) = run(start, trees, (steps - 1) as nat) {
            if !(state.stage is Done) {
                let blocks = trees[steps - 1];
                lemma_trees_stay(state, blocks);
                if let Ok((after, action)) = transaction::step(state, blocks) {
                    if can_count_pages(after) {
                        transaction::law_step_keeps_commit_well_formed(state, blocks);
                        transaction_laws::law_commit_writes_behind_the_end(state, blocks, end);
                        transaction_laws::law_commit_order(
                            start,
                            state,
                            trace,
                            reads_in(trace),
                            blocks,
                        );
                        assert(trace.push(action).drop_last() =~= trace);
                    }
                }
            }
        }
    }
}

/// The bytes of a file after `data` was written at `offset`.
pub open spec fn overwritten(file: Seq<u8>, offset: int, data: Seq<u8>) -> Seq<u8> {
    let length = if offset + data.len() > file.len() {
        offset + data.len()
    } else {
        file.len() as int
    };
    Seq::new(
        length as nat,
        |i: int|
            if offset <= i < offset + data.len() {
                data[i - offset]
            } else if i < file.len() {
                file[i]
            } else {
                0
            },
    )
}

/// The bytes of a file after its length was set.
pub open spec fn resized(file: Seq<u8>, length: nat) -> Seq<u8> {
    Seq::new(
        length,
        |i: int|
            if i < file.len() {
                file[i]
            } else {
                0
            },
    )
}

/// The bytes of a file after an action. `header_bytes` encodes a header.
pub open spec fn after_action(
    file: Seq<u8>,
    action: ActionContents,
    header_bytes: spec_fn(HeaderContents) -> Seq<u8>,
) -> Seq<u8> {
    match action {
        ActionContents::WriteHeader(header) => overwritten(file, 0, header_bytes(header)),
        ActionContents::Write(offset, data) => overwritten(file, offset as int, data),
        ActionContents::SetLength(length) => resized(file, length as nat),
        _ => file,
    }
}

/// The bytes of a file after some actions.
pub open spec fn after_actions(
    file: Seq<u8>,
    actions: Seq<ActionContents>,
    header_bytes: spec_fn(HeaderContents) -> Seq<u8>,
) -> Seq<u8>
    decreases actions.len(),
{
    if actions.len() == 0 {
        file
    } else {
        after_action(
            after_actions(file, actions.drop_last(), header_bytes),
            actions.last(),
            header_bytes,
        )
    }
}

/// Whether encoded headers end before the density list.
pub open spec fn headers_fit(header_bytes: spec_fn(HeaderContents) -> Seq<u8>) -> bool {
    forall|header: HeaderContents| (#[trigger] header_bytes(header)).len() <= DENSITY_LIST_FILE_OFFSET
}

/// Whether an action leaves `size` bytes at `offset`, behind the header, as they are.
pub open spec fn leaves(action: ActionContents, offset: int, size: int) -> bool {
    match action {
        ActionContents::Write(at, data) => at + data.len() <= offset || offset + size <= at,
        ActionContents::SetLength(length) => offset + size <= length,
        _ => true,
    }
}

/// Whether all actions leave some bytes as they are.
pub open spec fn all_leave(actions: Seq<ActionContents>, offset: int, size: int) -> bool {
    forall|i: int| 0 <= i < actions.len() ==> leaves(#[trigger] actions[i], offset, size)
}

/// Whether two files have the same `size` bytes at `offset`.
pub open spec fn same_bytes(file: Seq<u8>, other: Seq<u8>, offset: int, size: int) -> bool {
    &&& offset + size <= file.len()
    &&& offset + size <= other.len()
    &&& file.subrange(offset, offset + size) == other.subrange(offset, offset + size)
}

/// Actions that leave some bytes as they are keep them in the file.
pub proof fn lemma_bytes_are_kept(
    file: Seq<u8>,
    actions: Seq<ActionContents>,
    header_bytes: spec_fn(HeaderContents) -> Seq<u8>,
    offset: int,
    size: int,
)
    requires
        headers_fit(header_bytes),
        AMAP_FIRST_OFFSET <= offset,
        0 <= size,
        offset + size <= file.len(),
        all_leave(actions, offset, size),
    ensures
        same_bytes(after_actions(file, actions, header_bytes), file, offset, size),
    decreases actions.len(),
{
    if actions.len() > 0 {
        let less = actions.drop_last();
        assert forall|i: int| 0 <= i < less.len() implies leaves(#[trigger] less[i], offset, size) by {
            assert(less[i] == actions[i]);
        }
        lemma_bytes_are_kept(file, less, header_bytes, offset, size);
        let before = after_actions(file, less, header_bytes);
        let action = actions[actions.len() - 1];
        assert(leaves(action, offset, size));
        let after = after_action(before, action, header_bytes);
        assert(after.len() >= offset + size);
        assert forall|i: int| offset <= i < offset + size implies after[i] == file[i] by {
            assert(before.subrange(offset, offset + size)[i - offset] == before[i]);
            assert(file.subrange(offset, offset + size)[i - offset] == file[i]);
        }
        assert(after.subrange(offset, offset + size) =~= file.subrange(offset, offset + size));
    }
}

/// The write of a map page.
pub open spec fn map_write(page: MapPageContents) -> ActionContents {
    ActionContents::Write(
        page.offset,
        encoding::page_bytes(page.page_type, page.offset, page.offset, page.map_bits),
    )
}

/// The writes of map pages.
pub open spec fn map_writes(pages: Seq<MapPageContents>) -> Seq<ActionContents> {
    Seq::new(pages.len(), |i: int| map_write(pages[i]))
}

/// Whether a map page stands among the map pages at the start of a region.
pub open spec fn is_map_page(page: MapPageContents) -> bool {
    &&& page.map_bits.len() == MAP_BYTE_COUNT
    &&& exists|region: int|
        0 <= region && #[trigger] allocation::region_start(region) <= page.offset && page.offset
            + PAGE_SIZE <= allocation::maps_end(region)
}

/// Whether all pages are map pages at the start of a region.
pub open spec fn are_map_pages(pages: Seq<MapPageContents>) -> bool {
    forall|i: int| 0 <= i < pages.len() ==> is_map_page(#[trigger] pages[i])
}

/// The region of map page `index` of the given type.
spec fn map_page_region(page_type: PageType, index: int) -> int {
    if page_type == PageType::AllocationPageMap {
        index * PMAP_PAGE_COUNT
    } else if page_type == PageType::FreeMap {
        FMAP_FIRST_SIZE + index * FMAP_PAGE_COUNT
    } else {
        FPMAP_FIRST_SIZE + index * FPMAP_PAGE_COUNT
    }
}

proof fn lemma_map_page_of_region(page_type: PageType, index: int)
    requires
        0 <= index,
    ensures
        ({
            let region = map_page_region(page_type, index);
            let (first, step) = if page_type == PageType::AllocationPageMap {
                (PMAP_FIRST_OFFSET, PMAP_DATA_SIZE)
            } else if page_type == PageType::FreeMap {
                (FMAP_FIRST_OFFSET, FMAP_DATA_SIZE)
            } else {
                (FPMAP_FIRST_OFFSET, FPMAP_DATA_SIZE)
            };
            &&& 0 <= region
            &&& 0 <= index * step
            &&& allocation::region_start(region) <= index * step + first
            &&& index * step + first + PAGE_SIZE <= allocation::maps_end(region)
        }),
{
    let region = map_page_region(page_type, index);
    allocation::law_map_pages(region);
    assert(index * 2031616 == (index * 8) * 253952);
    assert(index * 125960192 == (index * 496) * 253952);
    assert(index * 8061452288 == (index * 31744) * 253952);
    assert((index * 8) % 8 == 0);
    assert((index * 496) % 496 == 0);
    assert((index * 31744) % 31744 == 0);
}

proof fn lemma_more_map_pages(
    done: Seq<MapPageContents>,
    regions: Seq<RegionState>,
    page_type: PageType,
    first_offset: int,
    step: int,
    total: int,
    max_index: u64,
    index: int,
)
    requires
        are_map_pages(done),
        0 <= index,
        ({
            ||| page_type == PageType::AllocationPageMap && first_offset == PMAP_FIRST_OFFSET && step
                == PMAP_DATA_SIZE
            ||| page_type == PageType::FreeMap && first_offset == FMAP_FIRST_OFFSET && step
                == FMAP_DATA_SIZE
            ||| page_type == PageType::FreePageMap && first_offset == FPMAP_FIRST_OFFSET && step
                == FPMAP_DATA_SIZE
        }),
    ensures
        amap::with_map_pages(
            done,
            regions,
            page_type,
            first_offset,
            step,
            total,
            max_index,
            index,
        ) matches Ok(pages) ==> are_map_pages(pages),
    decreases total - index,
{
    if index < total && index * step + first_offset <= max_index {
        let page = MapPageContents {
            page_type,
            offset: (index * step + first_offset) as u64,
            map_bits: amap::map_page_bits(regions, page_type, index),
        };
        lemma_map_page_of_region(page_type, index);
        let region = map_page_region(page_type, index);
        assert(allocation::region_start(region) <= page.offset && page.offset + PAGE_SIZE
            <= allocation::maps_end(region));
        assert(is_map_page(page));
        let more = done.push(page);
        assert forall|i: int| 0 <= i < more.len() implies is_map_page(#[trigger] more[i]) by {
            if i < done.len() {
                assert(more[i] == done[i]);
            }
        }
        lemma_more_map_pages(
            more,
            regions,
            page_type,
            first_offset,
            step,
            total,
            max_index,
            index + 1,
        );
    }
}

/// Rebuilt maps stand in the map pages of the regions, and the header after them keeps the end of the
/// file.
pub proof fn law_rebuilt_maps_stand_in_map_pages(
    header: HeaderContents,
    regions: Seq<AllocationMapPageInfo>,
    max_index: u64,
)
    requires
        amap::maps_wf(regions),
        allocation::region_start(regions.len() as int) <= u64::MAX,
    ensures
        mark::rebuilt_maps(header, regions, max_index) matches Ok((pages, after)) ==> are_map_pages(pages)
            && after.root.file_eof_index == header.root.file_eof_index,
{
    let states = amap::region_views(regions);
    let none = Seq::<MapPageContents>::empty();
    let count = states.len() as int;
    let pmaps = amap::map_page_total(count, 0, PMAP_PAGE_COUNT as int);
    let fmaps = amap::map_page_total(count, FMAP_FIRST_SIZE as int, FMAP_PAGE_COUNT as int);
    let fpmaps = amap::map_page_total(count, FPMAP_FIRST_SIZE as int, FPMAP_PAGE_COUNT as int);
    lemma_more_map_pages(
        none,
        states,
        PageType::AllocationPageMap,
        PMAP_FIRST_OFFSET as int,
        PMAP_DATA_SIZE as int,
        pmaps,
        max_index,
        0,
    );
    if let Ok(first) = amap::with_map_pages(
        none,
        states,
        PageType::AllocationPageMap,
        PMAP_FIRST_OFFSET as int,
        PMAP_DATA_SIZE as int,
        pmaps,
        max_index,
        0,
    ) {
        lemma_more_map_pages(
            first,
            states,
            PageType::FreeMap,
            FMAP_FIRST_OFFSET as int,
            FMAP_DATA_SIZE as int,
            fmaps,
            max_index,
            0,
        );
        if let Ok(second) = amap::with_map_pages(
            first,
            states,
            PageType::FreeMap,
            FMAP_FIRST_OFFSET as int,
            FMAP_DATA_SIZE as int,
            fmaps,
            max_index,
            0,
        ) {
            lemma_more_map_pages(
                second,
                states,
                PageType::FreePageMap,
                FPMAP_FIRST_OFFSET as int,
                FPMAP_DATA_SIZE as int,
                fpmaps,
                max_index,
                0,
            );
        }
    }
    if let Ok((pages, _)) = mark::rebuilt_maps(header, regions, max_index) {
        let maps = mark::amap_pages(regions, regions.len());
        assert forall|i: int| 0 <= i < pages.len() implies is_map_page(#[trigger] pages[i]) by {
            if i < maps.len() {
                assert(pages[i] == maps[i]);
                allocation::law_map_pages(i);
                assert(allocation::region_start(i) <= allocation::region_start(
                    regions.len() as int,
                ));
                assert(allocation::region_start(i) <= pages[i].offset);
            } else {
                assert(pages[i] == pages.skip(maps.len() as int)[i - maps.len()]);
                assert(pages.skip(maps.len() as int) =~= amap::other_map_pages(
                    states,
                    max_index,
                )->Ok_0);
            }
        }
    }
}

/// The actions at the end of a commit: the rebuilt maps, the header that says that they can be relied on,
/// and the density list.
pub open spec fn finishing(
    pages: Seq<MapPageContents>,
    mapped: HeaderContents,
    list_bytes: Seq<u8>,
) -> Seq<ActionContents> {
    map_writes(pages) + seq![
        ActionContents::WriteHeader(mapped),
        ActionContents::WriteHeader(file::finished_header(mapped)),
        ActionContents::Write(DENSITY_LIST_FILE_OFFSET, list_bytes),
        ActionContents::SyncAll,
    ]
}

/// The end of a commit writes over map pages, the header and the density list alone: it leaves every
/// other byte as it is.
pub proof fn law_finishing_leaves_blocks(
    header: HeaderContents,
    regions: Seq<AllocationMapPageInfo>,
    max_index: u64,
    list_bytes: Seq<u8>,
    offset: int,
    size: int,
)
    requires
        amap::maps_wf(regions),
        allocation::region_start(regions.len() as int) <= u64::MAX,
        list_bytes.len() <= PAGE_SIZE,
        AMAP_FIRST_OFFSET <= offset,
        0 <= size,
        allocation::range_is_free(offset, size),
    ensures
        mark::rebuilt_maps(header, regions, max_index) matches Ok((pages, mapped)) ==> all_leave(
            finishing(pages, mapped, list_bytes),
            offset,
            size,
        ) && file::finished_header(mapped).root.file_eof_index == header.root.file_eof_index,
{
    law_rebuilt_maps_stand_in_map_pages(header, regions, max_index);
    if let Ok((pages, mapped)) = mark::rebuilt_maps(header, regions, max_index) {
        let actions = finishing(pages, mapped, list_bytes);
        assert forall|i: int| 0 <= i < actions.len() implies leaves(#[trigger] actions[i], offset, size) by {
            if i < pages.len() {
                let page = pages[i];
                assert(actions[i] == map_write(page));
                assert(is_map_page(page));
                let region = choose|region: int|
                    0 <= region && #[trigger] allocation::region_start(region) <= page.offset
                        && page.offset + PAGE_SIZE <= allocation::maps_end(region);
                allocation::law_free_range_avoids_maps(offset, size, region);
                assert(encoding::page_bytes(
                    page.page_type,
                    page.offset,
                    page.offset,
                    page.map_bits,
                ).len() == PAGE_SIZE);
            }
        }
    }
}

/// A commit keeps every byte that stood between the header and `end`, outside the map pages: after any
/// number of its actions, those that end it too, the bytes of every block that the file had are there,
/// also those of blocks that no node names any more. `before` are the actions before the commit.
pub proof fn law_commit_is_copy_on_write(
    before: Seq<ActionContents>,
    start: CommitState,
    trees: Seq<Seq<UnicodeBlockId>>,
    steps: nat,
    end: u64,
    regions: Seq<AllocationMapPageInfo>,
    max_index: u64,
    list_bytes: Seq<u8>,
    file: Seq<u8>,
    header_bytes: spec_fn(HeaderContents) -> Seq<u8>,
    count: int,
    offset: int,
    size: int,
)
    requires
        forall|i: int|
            0 <= i < before.len() ==> transaction_laws::behind(#[trigger] before[i], end),
        start.stage is Start,
        start.trees is None,
        transaction::commit_wf(start),
        transaction_laws::writes_behind(start, end),
        amap::maps_wf(regions),
        allocation::region_start(regions.len() as int) <= u64::MAX,
        list_bytes.len() <= PAGE_SIZE,
        headers_fit(header_bytes),
        AMAP_FIRST_OFFSET <= offset,
        0 <= size,
        offset + size <= end,
        offset + size <= file.len(),
        allocation::range_is_free(offset, size),
    ensures
        run(start, trees, steps) matches Ok((state, trace)) ==> can_count_pages(state)
            && state.stage is Done ==> (mark::rebuilt_maps(state.header, regions, max_index) matches Ok(
            (pages, mapped),
        ) ==> {
            let actions = before + trace + finishing(pages, mapped, list_bytes);
            &&& 0 <= count <= actions.len() ==> same_bytes(
                after_actions(file, actions.take(count), header_bytes),
                file,
                offset,
                size,
            )
            &&& file::finished_header(mapped).root.file_eof_index > end
        }),
{
    law_whole_commit(start, trees, steps, end);
    if let Ok((state, trace)) = run(start, trees, steps) {
        if can_count_pages(state) && state.stage is Done {
            law_finishing_leaves_blocks(
                state.header,
                regions,
                max_index,
                list_bytes,
                offset,
                size,
            );
            transaction_laws::law_header_names_whole_trees(start, state, trace, reads_in(trace));
            if let Ok((pages, mapped)) = mark::rebuilt_maps(state.header, regions, max_index) {
                let last = finishing(pages, mapped, list_bytes);
                let actions = before + trace + last;
                if 0 <= count <= actions.len() {
                    let some = actions.take(count);
                    assert forall|i: int| 0 <= i < some.len() implies leaves(
                        #[trigger] some[i],
                        offset,
                        size,
                    ) by {
                        if i < before.len() {
                            assert(some[i] == before[i]);
                        } else if i < before.len() + trace.len() {
                            assert(some[i] == trace[i - before.len()]);
                        } else {
                            assert(some[i] == last[i - before.len() - trace.len()]);
                        }
                    }
                    lemma_bytes_are_kept(file, some, header_bytes, offset, size);
                }
            }
        }
    }
}

} // verus!
