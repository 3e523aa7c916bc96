//! What the allocation maps say of a file once they are rebuilt: what is in use, and how much is free.

use vstd::prelude::*;

use crate::error::PstError;
use crate::ndb::allocation;
use crate::ndb::amap;
use crate::ndb::amap::{Allocation, AllocationMapPageInfo, MapPageContents, RegionState};
use crate::ndb::btree::{PageType, UnicodeBTreePageEntry, UnicodeBlockBTreeEntry};
use crate::ndb::header::{AmapStatus, HeaderContents};
use crate::ndb::ids::UnicodePageRef;
use crate::ndb::mark;
use crate::ndb::mark::UnmarkedPage;
use crate::ndb::walk::BTreePageContents;

verus! {

/// The offset of slot `slot` of region `region`: a region has 3968 slots of 64 bytes.
pub open spec fn slot_offset(region: int, slot: int) -> int {
    0x4400 + region * 253952 + slot * 64
}

/// Whether slot `slot` is set in a map, the highest bit of a byte first.
pub open spec fn slot_is_set(map: Seq<u8>, slot: int) -> bool {
    (map[slot / 8] & (0x80u8 >> ((slot % 8) as u8))) != 0
}

/// The number of clear slots among the first `count` of a map.
pub open spec fn clear_slots(map: Seq<u8>, count: nat) -> nat
    decreases count,
{
    if count == 0 {
        0
    } else {
        clear_slots(map, (count - 1) as nat) + if slot_is_set(map, count - 1) {
            0nat
        } else {
            1nat
        }
    }
}

/// The number of clear slots in the allocation maps among the first `count` pages.
pub open spec fn all_clear_slots(pages: Seq<MapPageContents>, count: nat) -> nat
    decreases count,
{
    if count == 0 {
        0
    } else {
        all_clear_slots(pages, (count - 1) as nat) + if pages[count - 1].page_type
            == PageType::AllocationMap {
            clear_slots(pages[count - 1].map_bits, 3968)
        } else {
            0
        }
    }
}

/// Whether an allocation takes the slot at `offset`.
pub open spec fn takes(allocation: Allocation, offset: int) -> bool {
    let start = allocation.offset - allocation.offset % 64;
    start <= offset < start + allocation.size
}

/// Whether slot `slot` of region `region` belongs to a map page. Every region starts with an allocation map,
/// every eighth goes on with an allocation page map, and some of those with a free map in the third page or
/// a free page map in the fourth.
pub open spec fn is_map_slot(region: int, slot: int) -> bool {
    ||| slot < 8
    ||| region % 8 == 0 && slot < 16
    ||| region >= 128 && (region - 128) % 496 == 0 && slot < 24
    ||| region >= 8192 && (region - 8192) % 31744 == 0 && slot < 32
}

/// Whether slot `slot` of region `region` is in use: by a map page or by an allocation.
pub open spec fn slot_is_used(allocations: Seq<Allocation>, region: int, slot: int) -> bool {
    is_map_slot(region, slot) || exists|i: int|
        0 <= i < allocations.len() && #[trigger] takes(allocations[i], slot_offset(region, slot))
}

/// Whether no slot is taken by two allocations, or by an allocation and a map page.
pub open spec fn are_separate(allocations: Seq<Allocation>) -> bool {
    &&& forall|i: int, j: int, offset: int|
        0 <= i < j < allocations.len() && #[trigger] takes(allocations[i], offset)
            ==> !#[trigger] takes(allocations[j], offset)
    &&& forall|i: int, region: int, slot: int|
        0 <= i < allocations.len() && 0 <= region && 0 <= slot < 3968 && #[trigger] takes(
            allocations[i],
            slot_offset(region, slot),
        ) ==> !is_map_slot(region, slot)
}

/// The regions before anything is marked in them.
pub open spec fn fresh_regions(count: nat) -> Seq<RegionState> {
    Seq::new(count, |i: int| amap::fresh_region(i))
}

/// What holds of an allocation that was marked: it starts in one of the regions and ends in it.
pub open spec fn lies_in_region(allocation: Allocation, count: int) -> bool {
    &&& allocation.offset >= 0x4400
    &&& amap::allocation_region(allocation) < count
    &&& amap::first_bit(allocation) + allocation.size / 64 <= 3968
}

proof fn lemma_marked_lie_in_regions(
    regions: Seq<RegionState>,
    allocations: Seq<Allocation>,
    index: int,
)
    requires
        0 <= index,
        amap::can_mark_all(regions, allocations, index),
        amap::with_allocations(regions, allocations, index) is Ok,
    ensures
        forall|i: int|
            index <= i < allocations.len() ==> lies_in_region(
                #[trigger] allocations[i],
                regions.len() as int,
            ),
    decreases allocations.len() - index,
{
    if index < allocations.len() {
        let next = amap::with_allocation(regions, allocations[index])->Ok_0;
        lemma_marked_lie_in_regions(next, allocations, index + 1);
        assert(lies_in_region(allocations[index], regions.len() as int));
    }
}

proof fn lemma_covers(allocation: Allocation, region: int, slot: int)
    requires
        allocation.offset >= 0x4400,
        allocation.size % 64 == 0,
        amap::first_bit(allocation) + allocation.size / 64 <= 3968,
        0 <= region,
        0 <= slot < 3968,
    ensures
        amap::covers(allocation, region, slot) <==> takes(allocation, slot_offset(region, slot)),
{
    let from = allocation.offset - 0x4400;
    let own = from / 253952;
    let rest = from % 253952;
    let first = rest / 64;
    assert(from == 253952 * own + rest);
    assert(rest == 64 * first + rest % 64);
    assert(allocation.offset == 64 * (272 + 3968 * own + first) + rest % 64);
    assert(allocation.offset % 64 == rest % 64);
    assert(allocation.size == 64 * (allocation.size / 64));
    assert(0 <= first < 3968);
    let start = 0x4400 + 253952 * own + 64 * first;
    assert(allocation.offset - allocation.offset % 64 == start);
    let offset = slot_offset(region, slot);
    if region < own {
        assert(region * 253952 + 253952 <= own * 253952);
    } else if region > own {
        assert(own * 253952 + 253952 <= region * 253952);
    }
}

proof fn lemma_map_slot(region: int, slot: int)
    requires
        0 <= region,
        0 <= slot,
    ensures
        slot < 8 * allocation::map_pages(region) <==> is_map_slot(region, slot),
{
    allocation::law_map_pages(region);
}

/// The marked regions, by their slots.
proof fn lemma_marked_slots(
    count: nat,
    allocations: Seq<Allocation>,
    after: Seq<RegionState>,
    region: int,
    slot: int,
)
    requires
        amap::can_mark_all(fresh_regions(count), allocations, 0),
        amap::with_allocations(fresh_regions(count), allocations, 0) == Ok::<_, PstError>(after),
        forall|i: int| 0 <= i < allocations.len() ==> (#[trigger] allocations[i]).size % 64 == 0,
        0 <= region < count,
        0 <= slot < 3968,
    ensures
        after.len() == count,
        after[region].bits.len() == 3968,
        after[region].bits[slot] == slot_is_used(allocations, region, slot),
{
    let fresh = fresh_regions(count);
    assert(amap::regions_wf(fresh)) by {
        assert forall|i: int| 0 <= i < fresh.len() implies (#[trigger] fresh[i]).bits.len()
            == amap::MAP_BIT_COUNT by {}
    }
    amap::law_allocations_mark_their_ranges(fresh, allocations, 0);
    lemma_marked_lie_in_regions(fresh, allocations, 0);
    lemma_map_slot(region, slot);
    assert(fresh[region].bits[slot] == is_map_slot(region, slot));
    let offset = slot_offset(region, slot);
    if amap::covered(allocations, 0, region, slot) {
        let i = choose|i: int|
            0 <= i < allocations.len() && #[trigger] amap::covers(allocations[i], region, slot);
        lemma_covers(allocations[i], region, slot);
        assert(takes(allocations[i], offset));
    }
    if exists|i: int| 0 <= i < allocations.len() && #[trigger] takes(allocations[i], offset) {
        let i = choose|i: int|
            0 <= i < allocations.len() && #[trigger] takes(allocations[i], offset);
        lemma_covers(allocations[i], region, slot);
        assert(amap::covers(allocations[i], region, slot));
    }
}

/// Where nothing is taken twice, the free bytes of every region are 64 for each of its clear slots.
proof fn lemma_marked_free(count: nat, allocations: Seq<Allocation>, after: Seq<RegionState>)
    requires
        amap::can_mark_all(fresh_regions(count), allocations, 0),
        amap::with_allocations(fresh_regions(count), allocations, 0) == Ok::<_, PstError>(after),
        forall|i: int| 0 <= i < allocations.len() ==> (#[trigger] allocations[i]).size % 64 == 0,
        are_separate(allocations),
    ensures
        amap::free_space_fits(after),
{
    let fresh = fresh_regions(count);
    assert forall|i: int| 0 <= i < fresh.len() implies (#[trigger] fresh[i]).bits.len()
        == amap::MAP_BIT_COUNT && fresh[i].free_space == 64 * amap::clear_bits(
        fresh[i].bits,
        amap::MAP_BIT_COUNT as nat,
    ) by {
        amap::law_fresh_region(i);
    }
    lemma_marked_lie_in_regions(fresh, allocations, 0);
    assert(amap::are_apart(fresh, allocations, 0)) by {
        assert forall|i: int, region: int, bit: int|
            0 <= i < allocations.len() && 0 <= region < fresh.len() && 0 <= bit
                < amap::MAP_BIT_COUNT && #[trigger] amap::covers(
                allocations[i],
                region,
                bit,
            ) implies !fresh[region].bits[bit] by {
            lemma_covers(allocations[i], region, bit);
            lemma_map_slot(region, bit);
            assert(takes(allocations[i], slot_offset(region, bit)));
        }
        assert forall|i: int, j: int, region: int, bit: int|
            0 <= i < j < allocations.len() && #[trigger] amap::covers(
                allocations[i],
                region,
                bit,
            ) implies !(#[trigger] amap::covers(allocations[j], region, bit)) by {
            assert(0 <= region);
            assert(0 <= bit < 3968);
            lemma_covers(allocations[i], region, bit);
            lemma_covers(allocations[j], region, bit);
        }
    }
    amap::law_allocations_mark_their_ranges(fresh, allocations, 0);
}

proof fn lemma_clear_slots(map: Seq<u8>, count: nat)
    requires
        map.len() == 496,
        count <= 3968,
    ensures
        clear_slots(map, count) == amap::clear_bits(amap::map_bits(map), count),
    decreases count,
{
    if count > 0 {
        lemma_clear_slots(map, (count - 1) as nat);
        assert(amap::map_bits(map)[count - 1] == slot_is_set(map, count - 1));
    }
}

proof fn lemma_sum_of_slots(
    regions: Seq<AllocationMapPageInfo>,
    pages: Seq<MapPageContents>,
    count: nat,
)
    requires
        amap::maps_wf(regions),
        amap::free_space_fits(amap::region_views(regions)),
        regions.len() <= pages.len(),
        count <= pages.len(),
        forall|i: int|
            0 <= i < regions.len() ==> (#[trigger] pages[i]).page_type == PageType::AllocationMap
                && pages[i].map_bits == regions[i].map_bits@,
        forall|i: int|
            regions.len() <= i < pages.len() ==> (#[trigger] pages[i]).page_type
                != PageType::AllocationMap,
    ensures
        64 * all_clear_slots(pages, count) == amap::free_bytes(
            amap::region_views(regions),
            if count <= regions.len() {
                count
            } else {
                regions.len()
            },
        ),
    decreases count,
{
    if count > 0 {
        lemma_sum_of_slots(regions, pages, (count - 1) as nat);
        let last = count - 1;
        if last < regions.len() {
            let states = amap::region_views(regions);
            assert(states[last] == regions[last]@);
            assert(states[last].free_space == 64 * amap::clear_bits(
                states[last].bits,
                amap::MAP_BIT_COUNT as nat,
            ));
            assert(regions[last].map_bits@.len() == 496);
            lemma_clear_slots(pages[last].map_bits, 3968);
        } else {
            assert(pages[last].page_type != PageType::AllocationMap);
        }
    }
}

/// The pages of a kind of map, one behind the other.
proof fn lemma_map_pages(
    done: Seq<MapPageContents>,
    regions: Seq<RegionState>,
    page_type: PageType,
    first_offset: int,
    step: int,
    total: int,
    max_index: u64,
    index: int,
)
    requires
        0 <= index <= total,
        amap::with_map_pages(
            done,
            regions,
            page_type,
            first_offset,
            step,
            total,
            max_index,
            index,
        ) is Ok,
        0 <= first_offset,
        0 <= step,
    ensures
        ({
            let pages = amap::with_map_pages(
                done,
                regions,
                page_type,
                first_offset,
                step,
                total,
                max_index,
                index,
            )->Ok_0;
            &&& pages.len() == done.len() + total - index
            &&& forall|k: int| 0 <= k < done.len() ==> #[trigger] pages[k] == done[k]
            &&& forall|k: int|
                done.len() <= k < pages.len() ==> (#[trigger] pages[k]).page_type == page_type
                    && pages[k].offset == (index + k - done.len()) * step + first_offset
                    && pages[k].map_bits == amap::map_page_bits(
                    regions,
                    page_type,
                    index + k - done.len(),
                )
        }),
    decreases total - index,
{
    if index < total {
        let page = MapPageContents {
            page_type,
            offset: (index * step + first_offset) as u64,
            map_bits: amap::map_page_bits(regions, page_type, index),
        };
        assert(index * step >= 0) by (nonlinear_arith)
            requires
                0 <= index,
                0 <= step,
        ;
        let next = done.push(page);
        lemma_map_pages(
            next,
            regions,
            page_type,
            first_offset,
            step,
            total,
            max_index,
            index + 1,
        );
        let pages = amap::with_map_pages(
            next,
            regions,
            page_type,
            first_offset,
            step,
            total,
            max_index,
            index + 1,
        )->Ok_0;
        assert(pages[done.len() as int] == next[done.len() as int]);
        assert forall|k: int| 0 <= k < done.len() implies #[trigger] pages[k] == done[k] by {
            assert(pages[k] == next[k]);
        }
    }
}

/// Whether a page is a map page with every bit set, at the given offset.
pub open spec fn is_full_page(page: MapPageContents, page_type: PageType, offset: int) -> bool {
    &&& page.page_type == page_type
    &&& page.offset == offset
    &&& page.map_bits.len() == 496
    &&& forall|i: int| 0 <= i < 496 ==> #[trigger] page.map_bits[i] == 0xFF
}

/// Whether a run of slots is clear.
pub open spec fn run_is_clear(map: Seq<u8>, start: int, length: int) -> bool {
    forall|slot: int| start <= slot < start + length ==> !#[trigger] slot_is_set(map, slot)
}

/// Whether a map has a run of `length` clear slots, and none that is longer where `length` is below 255.
pub open spec fn is_longest_run(map: Seq<u8>, length: u8) -> bool {
    &&& exists|start: int|
        0 <= start && start + length <= 3968 && #[trigger] run_is_clear(map, start, length as int)
    &&& length < 255 ==> forall|start: int|
        0 <= start && start + length + 1 <= 3968 ==> !#[trigger] run_is_clear(
            map,
            start,
            length + 1,
        )
}

/// Whether `entries` say, for each region from `first` on, how long the longest clear run of its allocation
/// map is. The allocation map of region `i` is page `i`.
pub open spec fn tells_runs(
    entries: Seq<u8>,
    pages: Seq<MapPageContents>,
    count: int,
    first: int,
) -> bool {
    forall|k: int|
        0 <= k < entries.len() ==> if first + k < count {
            is_longest_run(pages[first + k].map_bits, #[trigger] entries[k])
        } else {
            entries[k] == 0
        }
}

proof fn lemma_free_run(bits: Seq<bool>, end: int)
    requires
        0 <= end <= bits.len(),
    ensures
        amap::free_run(bits, end) <= end,
        forall|i: int| end - amap::free_run(bits, end) <= i < end ==> !#[trigger] bits[i],
        amap::free_run(bits, end) < end ==> bits[end - amap::free_run(bits, end) - 1],
    decreases end,
{
    if end > 0 && !bits[end - 1] {
        lemma_free_run(bits, end - 1);
    }
}

proof fn lemma_longest_run(bits: Seq<bool>, end: int) -> (start: int)
    requires
        0 <= end <= bits.len(),
    ensures
        0 <= start,
        start + amap::longest_free_run(bits, end) <= end,
        forall|i: int|
            start <= i < start + amap::longest_free_run(bits, end) ==> !#[trigger] bits[i],
        forall|from: int, to: int|
            0 <= from && to <= end && to - from > amap::longest_free_run(bits, end)
                ==> #[trigger] has_set_bit(bits, from, to),
    decreases end,
{
    if end <= 0 {
        0
    } else {
        let before = lemma_longest_run(bits, end - 1);
        let run = amap::free_run(bits, end);
        lemma_free_run(bits, end);
        assert forall|from: int, to: int|
            0 <= from && to <= end && to - from > amap::longest_free_run(bits, end)
                implies #[trigger] has_set_bit(bits, from, to) by {
            if to == end {
                assert(bits[end - run - 1]);
            }
        }
        if run > amap::longest_free_run(bits, end - 1) {
            end - run
        } else {
            before
        }
    }
}

/// Whether one of the bits from `from` up to `to` is set.
spec fn has_set_bit(bits: Seq<bool>, from: int, to: int) -> bool {
    exists|i: int| from <= i < to && #[trigger] bits[i]
}

proof fn lemma_entry(map: Seq<u8>, region: RegionState)
    requires
        map.len() == 496,
        region.bits == amap::map_bits(map),
    ensures
        is_longest_run(map, amap::free_slots(region)),
{
    let bits = region.bits;
    let longest = amap::longest_free_run(bits, 3968);
    let length = amap::free_slots(region);
    let start = lemma_longest_run(bits, 3968);
    assert forall|slot: int| 0 <= slot < 3968 implies #[trigger] slot_is_set(map, slot)
        == bits[slot] by {}
    assert(run_is_clear(map, start, length as int));
    if length < 255 {
        assert forall|from: int|
            0 <= from && from + length + 1 <= 3968 implies !#[trigger] run_is_clear(
            map,
            from,
            length + 1,
        ) by {
            assert(has_set_bit(bits, from, from + length + 1));
            let slot = choose|i: int| from <= i < from + length + 1 && #[trigger] bits[i];
            assert(slot_is_set(map, slot));
        }
    }
}

proof fn lemma_free_map(
    regions: Seq<AllocationMapPageInfo>,
    pages: Seq<MapPageContents>,
    first: int,
    size: nat,
)
    requires
        amap::maps_wf(regions),
        0 <= first,
        regions.len() <= pages.len(),
        forall|i: int|
            0 <= i < regions.len() ==> (#[trigger] pages[i]).map_bits == regions[i].map_bits@,
    ensures
        tells_runs(
            amap::free_map(amap::region_views(regions), first, size),
            pages,
            regions.len() as int,
            first,
        ),
{
    let states = amap::region_views(regions);
    let entries = amap::free_map(states, first, size);
    assert forall|k: int| 0 <= k < entries.len() implies if first + k < regions.len() {
        is_longest_run(pages[first + k].map_bits, #[trigger] entries[k])
    } else {
        entries[k] == 0
    } by {
        if first + k < regions.len() {
            assert(states[first + k] == regions[first + k]@);
            assert(regions[first + k].map_bits@.len() == 496);
            lemma_entry(pages[first + k].map_bits, states[first + k]);
        }
    }
}

/// Whether the written pages hold the allocation map of every region at the start of the region, with the
/// slots set that are in use.
pub open spec fn maps_show(
    pages: Seq<MapPageContents>,
    count: int,
    allocations: Seq<Allocation>,
) -> bool {
    &&& count <= pages.len()
    &&& forall|region: int|
        0 <= region < count ==> (#[trigger] pages[region]).page_type == PageType::AllocationMap
            && pages[region].offset == 0x4400 + region * 253952 && pages[region].map_bits.len()
            == 496
    &&& forall|region: int, slot: int|
        0 <= region < count && 0 <= slot < 3968 ==> (#[trigger] slot_is_set(
            pages[region].map_bits,
            slot,
        ) <==> slot_is_used(allocations, region, slot))
    &&& forall|k: int|
        count <= k < pages.len() ==> (#[trigger] pages[k]).page_type != PageType::AllocationMap
}

/// Whether the written pages hold the other maps: an allocation page map in the second page of every eighth
/// region, a free map in the third page of every region 128, 624, .. with the longest clear runs of 496
/// regions, and a free page map in the fourth page of every region 8192, 39936, .., and nothing else.
pub open spec fn other_maps_show(pages: Seq<MapPageContents>, count: int) -> bool {
    let pmaps = (count + 7) / 8;
    let fmaps = if count <= 128 {
        0
    } else {
        (count - 128 + 495) / 496
    };
    let fpmaps = if count <= 8192 {
        0
    } else {
        (count - 8192 + 31743) / 31744
    };
    &&& pages.len() == count + pmaps + fmaps + fpmaps
    &&& forall|k: int|
        0 <= k < pmaps ==> is_full_page(
            #[trigger] pages[count + k],
            PageType::AllocationPageMap,
            slot_offset(8 * k, 8),
        )
    &&& forall|k: int|
        0 <= k < fmaps ==> ({
            let page = #[trigger] pages[count + pmaps + k];
            &&& page.page_type == PageType::FreeMap
            &&& page.offset == slot_offset(128 + 496 * k, 16)
            &&& page.map_bits.len() == 496
            &&& tells_runs(page.map_bits, pages, count, 128 + 496 * k)
        })
    &&& forall|k: int|
        0 <= k < fpmaps ==> is_full_page(
            #[trigger] pages[count + pmaps + fmaps + k],
            PageType::FreePageMap,
            slot_offset(8192 + 31744 * k, 24),
        )
}

proof fn lemma_other_pages(
    regions: Seq<AllocationMapPageInfo>,
    max_index: u64,
    others: Seq<MapPageContents>,
)
    requires
        amap::maps_wf(regions),
        amap::other_map_pages(amap::region_views(regions), max_index) == Ok::<_, PstError>(others),
    ensures
        ({
            let pages = mark::amap_pages(regions, regions.len()) + others;
            &&& other_maps_show(pages, regions.len() as int)
            &&& forall|k: int|
                0 <= k < others.len() ==> (#[trigger] others[k]).page_type
                    != PageType::AllocationMap
        }),
{
    let states = amap::region_views(regions);
    let count = regions.len() as int;
    let pmaps = amap::map_page_total(count, 0, 8);
    let fmaps = amap::map_page_total(count, 128, 496);
    let fpmaps = amap::map_page_total(count, 8192, 31744);
    let none = Seq::<MapPageContents>::empty();
    lemma_map_pages(
        none,
        states,
        PageType::AllocationPageMap,
        0x4600,
        2031616,
        pmaps,
        max_index,
        0,
    );
    let first = amap::with_map_pages(
        none,
        states,
        PageType::AllocationPageMap,
        0x4600,
        2031616,
        pmaps,
        max_index,
        0,
    )->Ok_0;
    lemma_map_pages(
        first,
        states,
        PageType::FreeMap,
        32524288,
        125960192,
        fmaps,
        max_index,
        0,
    );
    let second = amap::with_map_pages(
        first,
        states,
        PageType::FreeMap,
        32524288,
        125960192,
        fmaps,
        max_index,
        0,
    )->Ok_0;
    lemma_map_pages(
        second,
        states,
        PageType::FreePageMap,
        2080393728,
        8061452288,
        fpmaps,
        max_index,
        0,
    );
    let maps = mark::amap_pages(regions, regions.len());
    let pages = maps + others;
    assert(others.len() == pmaps + fmaps + fpmaps);
    assert forall|k: int| 0 <= k < pmaps implies is_full_page(
        #[trigger] pages[count + k],
        PageType::AllocationPageMap,
        slot_offset(8 * k, 8),
    ) by {
        assert(pages[count + k] == others[k]);
        assert(others[k] == second[k]);
        assert(second[k] == first[k]);
    }
    assert forall|k: int| 0 <= k < fmaps implies ({
        let page = #[trigger] pages[count + pmaps + k];
        &&& page.page_type == PageType::FreeMap
        &&& page.offset == slot_offset(128 + 496 * k, 16)
        &&& page.map_bits.len() == 496
        &&& tells_runs(page.map_bits, pages, count, 128 + 496 * k)
    }) by {
        assert(pages[count + pmaps + k] == others[pmaps + k]);
        assert(others[pmaps + k] == second[pmaps + k]);
        assert forall|i: int| 0 <= i < regions.len() implies (#[trigger] pages[i]).map_bits
            == regions[i].map_bits@ by {
            assert(pages[i] == maps[i]);
        }
        lemma_free_map(regions, pages, 128 + 496 * k, 496);
    }
    assert forall|k: int| 0 <= k < fpmaps implies is_full_page(
        #[trigger] pages[count + pmaps + fmaps + k],
        PageType::FreePageMap,
        slot_offset(8192 + 31744 * k, 24),
    ) by {
        assert(pages[count + pmaps + fmaps + k] == others[pmaps + fmaps + k]);
    }
    assert forall|k: int| 0 <= k < others.len() implies (#[trigger] others[k]).page_type
        != PageType::AllocationMap by {
        if k < pmaps {
            assert(others[k] == second[k]);
            assert(second[k] == first[k]);
        } else if k < pmaps + fmaps {
            assert(others[k] == second[k]);
        }
    }
}

/// The map pages that are written once the allocations of a file are marked show exactly them: slot `slot` of
/// the map at the start of region `region` is set exactly where a map page or an allocation takes these 64
/// bytes. The header names the map of the last region and says that the maps are valid, and where nothing is
/// taken twice, its free bytes are 64 for every clear slot of every written map. Its first free map and the
/// written free maps say how long the longest clear run of each region is.
pub proof fn law_rebuilt_maps_show_what_is_used(
    header: HeaderContents,
    regions: Seq<AllocationMapPageInfo>,
    max_index: u64,
    allocations: Seq<Allocation>,
    pages: Seq<MapPageContents>,
    after: HeaderContents,
)
    requires
        amap::maps_wf(regions),
        allocation::region_start(regions.len() as int) <= u64::MAX,
        amap::can_mark_all(fresh_regions(regions.len()), allocations, 0),
        amap::with_allocations(fresh_regions(regions.len()), allocations, 0) == Ok::<_, PstError>(
            amap::region_views(regions),
        ),
        forall|i: int| 0 <= i < allocations.len() ==> (#[trigger] allocations[i]).size % 64 == 0,
        mark::rebuilt_maps(header, regions, max_index) == Ok::<_, PstError>((pages, after)),
    ensures
        maps_show(pages, regions.len() as int, allocations),
        other_maps_show(pages, regions.len() as int),
        are_separate(allocations) ==> after.root.amap_free_size == 64 * all_clear_slots(
            pages,
            pages.len(),
        ),
        regions.len() > 0 ==> after.root.amap_last_index == 0x4400 + (regions.len() - 1) * 253952,
        after.root.amap_is_valid == AmapStatus::Valid2,
        after.root.pmap_free_size == 0,
        after.root.file_eof_index == header.root.file_eof_index,
        after.root.node_btree == header.root.node_btree,
        after.root.block_btree == header.root.block_btree,
        after.first_free_map.len() == 128,
        tells_runs(after.first_free_map, pages, regions.len() as int, 0),
{
    let states = amap::region_views(regions);
    let others = amap::other_map_pages(states, max_index)->Ok_0;
    let maps = mark::amap_pages(regions, regions.len());
    lemma_other_pages(regions, max_index, others);
    assert forall|i: int| 0 <= i < regions.len() implies (#[trigger] pages[i]).page_type
        == PageType::AllocationMap && pages[i].map_bits == regions[i].map_bits@ && pages[i].offset
        == 0x4400 + i * 253952 && pages[i].map_bits.len() == 496 by {
        assert(pages[i] == maps[i]);
        assert(i * 253952 <= regions.len() * 253952);
        assert(regions[i].map_bits@.len() == 496);
    }
    assert forall|k: int| regions.len() <= k < pages.len() implies (#[trigger] pages[k]).page_type
        != PageType::AllocationMap by {
        assert(pages[k] == others[k - regions.len()]);
    }
    assert forall|region: int, slot: int|
        0 <= region < regions.len() && 0 <= slot < 3968 implies (#[trigger] slot_is_set(
        pages[region].map_bits,
        slot,
    ) <==> slot_is_used(allocations, region, slot)) by {
        lemma_marked_slots(regions.len(), allocations, states, region, slot);
        assert(states[region] == regions[region]@);
        assert(pages[region].map_bits == regions[region].map_bits@);
    }
    if are_separate(allocations) {
        lemma_marked_free(regions.len(), allocations, states);
        lemma_sum_of_slots(regions, pages, pages.len());
    }
    lemma_free_map(regions, pages, 0, 128);
}

/// The regions that are marked reach the end of the file, and the last of them starts before it.
pub proof fn law_regions_reach_the_end(eof: u64)
    requires
        eof > 0x4400,
    ensures
        amap::region_count(eof) >= 1,
        0x4400 + (amap::region_count(eof) - 1) * 253952 < eof <= 0x4400 + amap::region_count(eof)
            * 253952,
{
    let from = eof - 0x4400 + 253951;
    assert(from == 253952 * (from / 253952) + from % 253952);
}

/// Whether a page of a B-tree stands `depth` levels below another.
pub open spec fn is_below<T>(
    file: spec_fn(UnicodePageRef) -> BTreePageContents<T>,
    top: UnicodePageRef,
    page: UnicodePageRef,
    depth: nat,
) -> bool
    decreases depth,
{
    if depth == 0 {
        page == top
    } else {
        match file(top) {
            BTreePageContents::Leaf(_) => false,
            BTreePageContents::Intermediate(_, children) => exists|i: int|
                0 <= i < children.len() && is_below(
                    file,
                    (#[trigger] children[i]).block,
                    page,
                    (depth - 1) as nat,
                ),
        }
    }
}

/// Whether a page is one of the tree below a root.
pub open spec fn is_in_tree<T>(
    file: spec_fn(UnicodePageRef) -> BTreePageContents<T>,
    root: UnicodePageRef,
    page: UnicodePageRef,
) -> bool {
    exists|depth: nat| is_below(file, root, page, depth)
}

/// The allocations of a page below another are among those that a walk from there meets.
proof fn lemma_walk_meets_page<T>(
    file: spec_fn(UnicodePageRef) -> BTreePageContents<T>,
    own: spec_fn(UnicodePageRef) -> Seq<Allocation>,
    top: UnmarkedPage,
    page: UnicodePageRef,
    depth: nat,
    allocation: Allocation,
)
    requires
        mark::allocations_below(file, own, top) is Ok,
        is_below(file, top.page, page, depth),
        own(page).contains(allocation),
    ensures
        mark::allocations_below(file, own, top)->Ok_0.contains(allocation),
    decreases depth,
{
    let all = mark::allocations_below(file, own, top)->Ok_0;
    if depth == 0 {
        let first = own(page);
        let k = choose|k: int| 0 <= k < first.len() && first[k] == allocation;
        assert(all[k] == allocation);
    } else if let BTreePageContents::Intermediate(level, children) = file(top.page) {
        let i = choose|i: int|
            0 <= i < children.len() && is_below(
                file,
                (#[trigger] children[i]).block,
                page,
                (depth - 1) as nat,
            );
        let child = UnmarkedPage { page: children[i].block, parent_level: Some(level) };
        lemma_children_meet(file, own, children, 0, level, i);
        lemma_walk_meets_page(file, own, child, page, (depth - 1) as nat, allocation);
        let below = mark::allocations_of_children(file, own, children, 0, level)->Ok_0;
        assert(below.contains(allocation));
        let k = choose|k: int| 0 <= k < below.len() && below[k] == allocation;
        assert(all[own(top.page).len() + k] == allocation);
    }
}

/// The allocations below a child are among those below the children.
proof fn lemma_children_meet<T>(
    file: spec_fn(UnicodePageRef) -> BTreePageContents<T>,
    own: spec_fn(UnicodePageRef) -> Seq<Allocation>,
    children: Seq<UnicodeBTreePageEntry>,
    index: int,
    level: u8,
    at: int,
)
    requires
        0 <= index <= at < children.len(),
        mark::allocations_of_children(file, own, children, index, level) is Ok,
    ensures
        ({
            let child = mark::allocations_below(
                file,
                own,
                UnmarkedPage { page: children[at].block, parent_level: Some(level) },
            );
            let all = mark::allocations_of_children(file, own, children, index, level)->Ok_0;
            child is Ok && forall|allocation: Allocation|
                child->Ok_0.contains(allocation) ==> #[trigger] all.contains(allocation)
        }),
    decreases children.len() - index,
{
    let first = mark::allocations_below(
        file,
        own,
        UnmarkedPage { page: children[index].block, parent_level: Some(level) },
    )->Ok_0;
    let rest = mark::allocations_of_children(file, own, children, index + 1, level)->Ok_0;
    let all = mark::allocations_of_children(file, own, children, index, level)->Ok_0;
    assert(all == first + rest);
    if at == index {
        assert forall|allocation: Allocation| first.contains(allocation) implies #[trigger] all.contains(
            allocation,
        ) by {
            let k = choose|k: int| 0 <= k < first.len() && first[k] == allocation;
            assert(all[k] == allocation);
        }
    } else {
        lemma_children_meet(file, own, children, index + 1, level, at);
        assert forall|allocation: Allocation| rest.contains(allocation) implies #[trigger] all.contains(
            allocation,
        ) by {
            let k = choose|k: int| 0 <= k < rest.len() && rest[k] == allocation;
            assert(all[first.len() + k] == allocation);
        }
    }
}

/// What a walk meets belongs to a page below its start.
proof fn lemma_walk_meets_only<T>(
    file: spec_fn(UnicodePageRef) -> BTreePageContents<T>,
    own: spec_fn(UnicodePageRef) -> Seq<Allocation>,
    top: UnmarkedPage,
    allocation: Allocation,
) -> (found: (UnicodePageRef, nat))
    requires
        mark::allocations_below(file, own, top) is Ok,
        mark::allocations_below(file, own, top)->Ok_0.contains(allocation),
    ensures
        is_below(file, top.page, found.0, found.1),
        own(found.0).contains(allocation),
    decreases mark::level_rank(top.parent_level), 0nat,
{
    let all = mark::allocations_below(file, own, top)->Ok_0;
    let k = choose|k: int| 0 <= k < all.len() && all[k] == allocation;
    if k < own(top.page).len() {
        assert(own(top.page)[k] == allocation);
        (top.page, 0nat)
    } else {
        match file(top.page) {
            BTreePageContents::Leaf(_) => (top.page, 0nat),
            BTreePageContents::Intermediate(level, children) => {
                let below = mark::allocations_of_children(file, own, children, 0, level)->Ok_0;
                assert(below[k - own(top.page).len()] == allocation);
                let found = lemma_children_meet_only(file, own, children, 0, level, allocation);
                assert(is_below(
                    file,
                    children[found.0].block,
                    found.1,
                    ((found.2 + 1) - 1) as nat,
                ));
                (found.1, found.2 + 1)
            },
        }
    }
}

proof fn lemma_children_meet_only<T>(
    file: spec_fn(UnicodePageRef) -> BTreePageContents<T>,
    own: spec_fn(UnicodePageRef) -> Seq<Allocation>,
    children: Seq<UnicodeBTreePageEntry>,
    index: int,
    level: u8,
    allocation: Allocation,
) -> (found: (int, UnicodePageRef, nat))
    requires
        0 <= index,
        mark::allocations_of_children(file, own, children, index, level) is Ok,
        mark::allocations_of_children(file, own, children, index, level)->Ok_0.contains(allocation),
    ensures
        0 <= found.0 < children.len(),
        is_below(file, children[found.0].block, found.1, found.2),
        own(found.1).contains(allocation),
    decreases level as int, children.len() - index + 1,
{
    let child = UnmarkedPage { page: children[index].block, parent_level: Some(level) };
    let all = mark::allocations_of_children(file, own, children, index, level)->Ok_0;
    let first = mark::allocations_below(file, own, child)->Ok_0;
    let rest = mark::allocations_of_children(file, own, children, index + 1, level)->Ok_0;
    assert(all == first + rest);
    let k = choose|k: int| 0 <= k < all.len() && all[k] == allocation;
    if k < first.len() {
        assert(first[k] == allocation);
        let found = lemma_walk_meets_only(file, own, child, allocation);
        (index, found.0, found.1)
    } else {
        assert(rest[k - first.len()] == allocation);
        lemma_children_meet_only(file, own, children, index + 1, level, allocation)
    }
}

/// A walk over a B-tree meets the allocations of the pages of the tree, and no others.
pub proof fn law_walk_meets_the_tree<T>(
    file: spec_fn(UnicodePageRef) -> BTreePageContents<T>,
    own: spec_fn(UnicodePageRef) -> Seq<Allocation>,
    root: UnicodePageRef,
    allocations: Seq<Allocation>,
)
    requires
        mark::allocations_below(file, own, UnmarkedPage { page: root, parent_level: None })
            == Ok::<_, PstError>(allocations),
    ensures
        forall|allocation: Allocation| #[trigger]
            allocations.contains(allocation) <==> exists|page: UnicodePageRef| #[trigger]
                is_in_tree(file, root, page) && own(page).contains(allocation),
{
    let top = UnmarkedPage { page: root, parent_level: None };
    assert forall|allocation: Allocation| #[trigger]
        allocations.contains(allocation) <==> exists|page: UnicodePageRef| #[trigger]
            is_in_tree(file, root, page) && own(page).contains(allocation) by {
        if allocations.contains(allocation) {
            let found = lemma_walk_meets_only(file, own, top, allocation);
            assert(is_below(file, root, found.0, found.1));
            assert(is_in_tree(file, root, found.0));
        }
        if exists|page: UnicodePageRef| #[trigger]
            is_in_tree(file, root, page) && own(page).contains(allocation) {
            let page = choose|page: UnicodePageRef| #[trigger]
                is_in_tree(file, root, page) && own(page).contains(allocation);
            let depth = choose|depth: nat| is_below(file, root, page, depth);
            lemma_walk_meets_page(file, own, top, page, depth, allocation);
        }
    }
}

/// Marking a list of allocations behind another is marking both, so that the pages of a walk can be marked one
/// after the other.
pub proof fn law_marking_goes_on(
    regions: Seq<RegionState>,
    first: Seq<Allocation>,
    second: Seq<Allocation>,
    index: int,
)
    requires
        0 <= index <= first.len(),
    ensures
        amap::with_allocations(regions, first + second, index) == (match amap::with_allocations(
            regions,
            first,
            index,
        ) {
            Err(error) => Err(error),
            Ok(next) => amap::with_allocations(next, second, 0),
        }),
        amap::can_mark_all(regions, first + second, index) == (amap::can_mark_all(
            regions,
            first,
            index,
        ) && match amap::with_allocations(regions, first, index) {
            Err(_) => true,
            Ok(next) => amap::can_mark_all(next, second, 0),
        }),
    decreases first.len() - index,
{
    let both = first + second;
    if index < first.len() {
        assert(both[index] == first[index]);
        if let Ok(next) = amap::with_allocation(regions, first[index]) {
            law_marking_goes_on(next, first, second, index + 1);
        }
    } else {
        lemma_marking_from(regions, first, second, 0);
    }
}

proof fn lemma_marking_from(
    regions: Seq<RegionState>,
    first: Seq<Allocation>,
    second: Seq<Allocation>,
    index: int,
)
    requires
        0 <= index <= second.len(),
    ensures
        amap::with_allocations(regions, first + second, first.len() + index)
            == amap::with_allocations(regions, second, index),
        amap::can_mark_all(regions, first + second, first.len() + index) == amap::can_mark_all(
            regions,
            second,
            index,
        ),
    decreases second.len() - index,
{
    if index < second.len() {
        assert((first + second)[first.len() + index] == second[index]);
        if let Ok(next) = amap::with_allocation(regions, second[index]) {
            lemma_marking_from(next, first, second, index + 1);
        }
    }
}

/// Whether the page of a B-tree takes the slot at `offset`.
pub open spec fn page_takes(page: UnicodePageRef, offset: int) -> bool {
    takes(Allocation { offset: page.index, size: 512 }, offset)
}

/// Whether a block takes the slot at `offset`: with its trailer it takes whole slots, and 8192 bytes at most.
pub open spec fn block_takes(
    entry: UnicodeBlockBTreeEntry,
    trailer_size: u16,
    offset: int,
) -> bool {
    let total = entry.size + trailer_size;
    takes(
        Allocation {
            offset: entry.block.index,
            size: (if total >= 8192 {
                8192
            } else {
                (total + 63) / 64 * 64
            }) as u64,
        },
        offset,
    )
}

/// Whether the file uses a slot: for a map page, for a page of the node B-tree or of the block B-tree, or for a
/// block that a leaf of the block B-tree names.
pub open spec fn file_uses<N>(
    nodes: spec_fn(UnicodePageRef) -> BTreePageContents<N>,
    blocks: spec_fn(UnicodePageRef) -> BTreePageContents<UnicodeBlockBTreeEntry>,
    node_root: UnicodePageRef,
    block_root: UnicodePageRef,
    trailer_size: u16,
    region: int,
    slot: int,
) -> bool {
    let offset = slot_offset(region, slot);
    ||| is_map_slot(region, slot)
    ||| exists|page: UnicodePageRef| #[trigger]
        is_in_tree(nodes, node_root, page) && page_takes(page, offset)
    ||| exists|page: UnicodePageRef| #[trigger]
        is_in_tree(blocks, block_root, page) && page_takes(page, offset)
    ||| exists|page: UnicodePageRef, entry: UnicodeBlockBTreeEntry|
        #![trigger is_in_tree(blocks, block_root, page), block_takes(entry, trailer_size, offset)]
        is_in_tree(blocks, block_root, page) && is_leaf_entry(blocks, page, entry) && block_takes(
            entry,
            trailer_size,
            offset,
        )
}

/// Whether a page is a leaf of the block B-tree that names the block of an entry.
pub open spec fn is_leaf_entry(
    blocks: spec_fn(UnicodePageRef) -> BTreePageContents<UnicodeBlockBTreeEntry>,
    page: UnicodePageRef,
    entry: UnicodeBlockBTreeEntry,
) -> bool {
    blocks(page) matches BTreePageContents::Leaf(entries) && entries.contains(entry)
}

/// The allocations of a page of the node B-tree.
pub open spec fn node_own() -> spec_fn(UnicodePageRef) -> Seq<Allocation> {
    |page: UnicodePageRef| seq![amap::page_allocation(page.index)]
}

/// The allocations of a page of the block B-tree.
pub open spec fn block_own(
    blocks: spec_fn(UnicodePageRef) -> BTreePageContents<UnicodeBlockBTreeEntry>,
    trailer_size: u16,
) -> spec_fn(UnicodePageRef) -> Seq<Allocation> {
    |page: UnicodePageRef|
        mark::block_page_allocations(page.index, blocks(page), trailer_size)
}

proof fn lemma_block_own(
    blocks: spec_fn(UnicodePageRef) -> BTreePageContents<UnicodeBlockBTreeEntry>,
    trailer_size: u16,
    page: UnicodePageRef,
    offset: int,
)
    ensures
        forall|allocation: Allocation| #[trigger]
            block_own(blocks, trailer_size)(page).contains(allocation) ==> allocation.size % 64
                == 0,
        (exists|allocation: Allocation| #[trigger]
            block_own(blocks, trailer_size)(page).contains(allocation) && takes(
                allocation,
                offset,
            )) <==> (page_takes(page, offset) || exists|entry: UnicodeBlockBTreeEntry|
            #![trigger block_takes(entry, trailer_size, offset)]
            is_leaf_entry(blocks, page, entry) && block_takes(entry, trailer_size, offset)),
{
    let own = block_own(blocks, trailer_size)(page);
    assert(own[0] == amap::page_allocation(page.index));
    assert(own.contains(own[0]));
    if let BTreePageContents::Leaf(entries) = blocks(page) {
        assert forall|i: int| 0 <= i < entries.len() implies #[trigger] own[i + 1]
            == amap::block_allocation(entries[i], trailer_size) && own.contains(own[i + 1])
            && own[i + 1].size % 64 == 0 && (takes(own[i + 1], offset) <==> block_takes(
            entries[i],
            trailer_size,
            offset,
        )) by {
            lemma_block_allocation(entries[i], trailer_size);
        }
        assert forall|allocation: Allocation| #[trigger] own.contains(allocation) implies
            allocation.size % 64 == 0 by {
            let k = choose|k: int| 0 <= k < own.len() && own[k] == allocation;
            if k > 0 {
                assert(own[(k - 1) + 1] == allocation);
            }
        }
        if exists|allocation: Allocation| #[trigger]
            own.contains(allocation) && takes(allocation, offset) {
            let allocation = choose|allocation: Allocation| #[trigger]
                own.contains(allocation) && takes(allocation, offset);
            let k = choose|k: int| 0 <= k < own.len() && own[k] == allocation;
            if k > 0 {
                assert(own[(k - 1) + 1] == allocation);
                assert(entries.contains(entries[k - 1]));
                assert(block_takes(entries[k - 1], trailer_size, offset));
            }
        }
        if exists|entry: UnicodeBlockBTreeEntry|
            #![trigger block_takes(entry, trailer_size, offset)]
            entries.contains(entry) && block_takes(entry, trailer_size, offset) {
            let entry = choose|entry: UnicodeBlockBTreeEntry|
                #![trigger block_takes(entry, trailer_size, offset)]
                entries.contains(entry) && block_takes(entry, trailer_size, offset);
            let i = choose|i: int| 0 <= i < entries.len() && entries[i] == entry;
            assert(own.contains(own[i + 1]) && takes(own[i + 1], offset));
        }
    }
}

proof fn lemma_block_allocation(entry: UnicodeBlockBTreeEntry, trailer_size: u16)
    ensures
        ({
            let total = entry.size + trailer_size;
            amap::block_allocation(entry, trailer_size).size == (if total >= 8192 {
                8192
            } else {
                (total + 63) / 64 * 64
            })
        }),
        amap::block_allocation(entry, trailer_size).size % 64 == 0,
{
}

proof fn lemma_tree_sizes<N>(
    nodes: spec_fn(UnicodePageRef) -> BTreePageContents<N>,
    blocks: spec_fn(UnicodePageRef) -> BTreePageContents<UnicodeBlockBTreeEntry>,
    node_root: UnicodePageRef,
    block_root: UnicodePageRef,
    trailer_size: u16,
    node_allocations: Seq<Allocation>,
    block_allocations: Seq<Allocation>,
)
    requires
        mark::allocations_below(
            nodes,
            node_own(),
            UnmarkedPage { page: node_root, parent_level: None },
        ) == Ok::<_, PstError>(node_allocations),
        mark::allocations_below(
            blocks,
            block_own(blocks, trailer_size),
            UnmarkedPage { page: block_root, parent_level: None },
        ) == Ok::<_, PstError>(block_allocations),
    ensures
        forall|i: int|
            0 <= i < (node_allocations + block_allocations).len() ==> (#[trigger] (node_allocations
                + block_allocations)[i]).size % 64 == 0,
{
    law_walk_meets_the_tree(nodes, node_own(), node_root, node_allocations);
    law_walk_meets_the_tree(
        blocks,
        block_own(blocks, trailer_size),
        block_root,
        block_allocations,
    );
    let all = node_allocations + block_allocations;
    assert forall|i: int| 0 <= i < all.len() implies (#[trigger] all[i]).size % 64 == 0 by {
        if i < node_allocations.len() {
            assert(node_allocations.contains(node_allocations[i]));
            let page = choose|page: UnicodePageRef| #[trigger]
                is_in_tree(nodes, node_root, page) && node_own()(page).contains(
                    node_allocations[i],
                );
            assert(node_own()(page) == seq![amap::page_allocation(page.index)]);
        } else {
            let allocation = block_allocations[i - node_allocations.len()];
            assert(block_allocations.contains(allocation));
            let page = choose|page: UnicodePageRef| #[trigger]
                is_in_tree(blocks, block_root, page) && block_own(blocks, trailer_size)(
                    page,
                ).contains(allocation);
            lemma_block_own(blocks, trailer_size, page, 0);
        }
    }
}

proof fn lemma_tree_slots<N>(
    nodes: spec_fn(UnicodePageRef) -> BTreePageContents<N>,
    blocks: spec_fn(UnicodePageRef) -> BTreePageContents<UnicodeBlockBTreeEntry>,
    node_root: UnicodePageRef,
    block_root: UnicodePageRef,
    trailer_size: u16,
    node_allocations: Seq<Allocation>,
    block_allocations: Seq<Allocation>,
    region: int,
    slot: int,
)
    requires
        mark::allocations_below(
            nodes,
            node_own(),
            UnmarkedPage { page: node_root, parent_level: None },
        ) == Ok::<_, PstError>(node_allocations),
        mark::allocations_below(
            blocks,
            block_own(blocks, trailer_size),
            UnmarkedPage { page: block_root, parent_level: None },
        ) == Ok::<_, PstError>(block_allocations),
    ensures
        slot_is_used(node_allocations + block_allocations, region, slot) <==> file_uses(
            nodes,
            blocks,
            node_root,
            block_root,
            trailer_size,
            region,
            slot,
        ),
{
    law_walk_meets_the_tree(nodes, node_own(), node_root, node_allocations);
    let own = block_own(blocks, trailer_size);
    law_walk_meets_the_tree(blocks, own, block_root, block_allocations);
    let all = node_allocations + block_allocations;
    let offset = slot_offset(region, slot);
    if exists|i: int| 0 <= i < all.len() && #[trigger] takes(all[i], offset) {
        let i = choose|i: int| 0 <= i < all.len() && #[trigger] takes(all[i], offset);
        if i < node_allocations.len() {
            assert(node_allocations.contains(node_allocations[i]));
            let page = choose|page: UnicodePageRef| #[trigger]
                is_in_tree(nodes, node_root, page) && node_own()(page).contains(
                    node_allocations[i],
                );
            assert(node_own()(page) == seq![amap::page_allocation(page.index)]);
            assert(page_takes(page, offset));
        } else {
            let allocation = block_allocations[i - node_allocations.len()];
            assert(block_allocations.contains(allocation));
            let page = choose|page: UnicodePageRef| #[trigger]
                is_in_tree(blocks, block_root, page) && own(page).contains(allocation);
            lemma_block_own(blocks, trailer_size, page, offset);
            assert(own(page).contains(allocation) && takes(allocation, offset));
        }
    }
    if exists|page: UnicodePageRef| #[trigger]
        is_in_tree(nodes, node_root, page) && page_takes(page, offset) {
        let page = choose|page: UnicodePageRef| #[trigger]
            is_in_tree(nodes, node_root, page) && page_takes(page, offset);
        let allocation = amap::page_allocation(page.index);
        assert(node_own()(page)[0] == allocation);
        assert(node_own()(page).contains(allocation));
        assert(node_allocations.contains(allocation));
        let k = choose|k: int|
            0 <= k < node_allocations.len() && node_allocations[k] == allocation;
        assert(takes(all[k], offset));
    }
    assert forall|page: UnicodePageRef| #[trigger] is_in_tree(blocks, block_root, page) && (
    page_takes(page, offset) || exists|entry: UnicodeBlockBTreeEntry|
        #![trigger block_takes(entry, trailer_size, offset)]
        is_leaf_entry(blocks, page, entry) && block_takes(
            entry,
            trailer_size,
            offset,
        )) implies slot_is_used(all, region, slot) by {
        lemma_block_own(blocks, trailer_size, page, offset);
        let allocation = choose|allocation: Allocation| #[trigger]
            own(page).contains(allocation) && takes(allocation, offset);
        assert(block_allocations.contains(allocation));
        let k = choose|k: int|
            0 <= k < block_allocations.len() && block_allocations[k] == allocation;
        assert(takes(all[node_allocations.len() + k], offset));
    }
}

/// Once the pages of both B-trees and the blocks of the block B-tree are marked, the written maps show exactly
/// what the file uses: slot `slot` of the map at the start of region `region` is set exactly where a map page,
/// a page of one of the trees or a block of the block B-tree takes these 64 bytes.
pub proof fn law_rebuilt_maps_show_the_trees<N>(
    nodes: spec_fn(UnicodePageRef) -> BTreePageContents<N>,
    blocks: spec_fn(UnicodePageRef) -> BTreePageContents<UnicodeBlockBTreeEntry>,
    trailer_size: u16,
    node_allocations: Seq<Allocation>,
    block_allocations: Seq<Allocation>,
    header: HeaderContents,
    regions: Seq<AllocationMapPageInfo>,
    max_index: u64,
    pages: Seq<MapPageContents>,
    after: HeaderContents,
    region: int,
)
    requires
        mark::allocations_below(
            nodes,
            node_own(),
            UnmarkedPage { page: header.root.node_btree, parent_level: None },
        ) == Ok::<_, PstError>(node_allocations),
        mark::allocations_below(
            blocks,
            block_own(blocks, trailer_size),
            UnmarkedPage { page: header.root.block_btree, parent_level: None },
        ) == Ok::<_, PstError>(block_allocations),
        amap::maps_wf(regions),
        allocation::region_start(regions.len() as int) <= u64::MAX,
        amap::can_mark_all(
            fresh_regions(regions.len()),
            node_allocations + block_allocations,
            0,
        ),
        amap::with_allocations(
            fresh_regions(regions.len()),
            node_allocations + block_allocations,
            0,
        ) == Ok::<_, PstError>(amap::region_views(regions)),
        mark::rebuilt_maps(header, regions, max_index) == Ok::<_, PstError>((pages, after)),
        0 <= region < regions.len(),
    ensures
        pages[region].page_type == PageType::AllocationMap,
        pages[region].offset == 0x4400 + region * 253952,
        forall|slot: int|
            0 <= slot < 3968 ==> (#[trigger] slot_is_set(pages[region].map_bits, slot)
                <==> file_uses(
                nodes,
                blocks,
                header.root.node_btree,
                header.root.block_btree,
                trailer_size,
                region,
                slot,
            )),
        are_separate(node_allocations + block_allocations) ==> after.root.amap_free_size == 64
            * all_clear_slots(pages, pages.len()),
{
    let all = node_allocations + block_allocations;
    let node_root = header.root.node_btree;
    let block_root = header.root.block_btree;
    lemma_tree_sizes(
        nodes,
        blocks,
        node_root,
        block_root,
        trailer_size,
        node_allocations,
        block_allocations,
    );
    law_rebuilt_maps_show_what_is_used(header, regions, max_index, all, pages, after);
    assert forall|slot: int| 0 <= slot < 3968 implies (#[trigger] slot_is_set(
        pages[region].map_bits,
        slot,
    ) <==> file_uses(nodes, blocks, node_root, block_root, trailer_size, region, slot)) by {
        lemma_tree_slots(
            nodes,
            blocks,
            node_root,
            block_root,
            trailer_size,
            node_allocations,
            block_allocations,
            region,
            slot,
        );
    }
}

} // verus!
