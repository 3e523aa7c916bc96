//! Rebuilding the allocation maps from the B-trees.

use vstd::prelude::*;

use crate::error::PstError;
use crate::ndb::allocation;
use crate::ndb::allocation::{
    AMAP_DATA_SIZE, AMAP_FIRST_OFFSET, FMAP_DATA_SIZE, FMAP_FIRST_OFFSET, FMAP_FIRST_SIZE,
    FMAP_PAGE_COUNT, FPMAP_DATA_SIZE, FPMAP_FIRST_OFFSET, FPMAP_FIRST_SIZE, FPMAP_PAGE_COUNT,
    PAGE_SIZE, PMAP_DATA_SIZE, PMAP_FIRST_OFFSET, PMAP_PAGE_COUNT,
};
use crate::ndb::btree::{PageType, UnicodeBlockBTreeEntry};
use crate::ndb::header::{AmapStatus, HeaderContents, Root, FIRST_FREE_MAP_SIZE};

verus! {

/// The number of bits in an allocation map, one for every 64 bytes of its region.
pub const MAP_BIT_COUNT: usize = 3968;

/// The number of bytes in a map.
pub const MAP_BYTE_COUNT: usize = 496;

/// The largest number of free slots that a free map can hold.
pub const MAX_FREE_SLOTS: u8 = 255;

/// The largest size of a block in the file.
pub const MAX_BLOCK_SIZE: u64 = 8192;

/// Whether bit `index` of a map is set, the highest bit of a byte first.
pub open spec fn map_bit(bits: Seq<u8>, index: int) -> bool {
    (bits[index / 8] & (0x80u8 >> ((index % 8) as u8))) != 0
}

/// The bits of a map.
pub open spec fn map_bits(bits: Seq<u8>) -> Seq<bool> {
    Seq::new((8 * bits.len()) as nat, |i: int| map_bit(bits, i))
}

/// One region: its allocation map and the number of free bytes in it.
pub struct AllocationMapPageInfo {
    pub map_bits: Vec<u8>,
    pub free_space: u64,
}

/// One region by its bits.
#[verifier::ext_equal]
pub struct RegionState {
    pub bits: Seq<bool>,
    pub free_space: u64,
}

impl View for AllocationMapPageInfo {
    type V = RegionState;

    open spec fn view(&self) -> RegionState {
        RegionState { bits: map_bits(self.map_bits@), free_space: self.free_space }
    }
}

/// Whether every region has a bit for every 64 bytes.
pub open spec fn regions_wf(regions: Seq<RegionState>) -> bool {
    forall|i: int| 0 <= i < regions.len() ==> (#[trigger] regions[i]).bits.len() == MAP_BIT_COUNT
}

/// Whether every map has its bytes.
pub open spec fn maps_wf(regions: Seq<AllocationMapPageInfo>) -> bool {
    forall|i: int|
        0 <= i < regions.len() ==> (#[trigger] regions[i]).map_bits@.len() == MAP_BYTE_COUNT
}

/// The bits with those from `start` up to `end` set.
pub open spec fn with_range(bits: Seq<bool>, start: int, end: int) -> Seq<bool> {
    Seq::new(bits.len(), |i: int| bits[i] || start <= i < end)
}

/// A range of the file that is in use.
#[derive(Clone, Copy, PartialEq, Eq, Debug, Structural)]
pub struct Allocation {
    pub offset: u64,
    pub size: u64,
}

/// The first bit of an allocation in its region.
pub open spec fn first_bit(allocation: Allocation) -> int {
    (allocation.offset - AMAP_FIRST_OFFSET) % AMAP_DATA_SIZE as int / 64
}

/// The region of an allocation.
pub open spec fn allocation_region(allocation: Allocation) -> int {
    (allocation.offset - AMAP_FIRST_OFFSET) / AMAP_DATA_SIZE as int
}

/// Whether an allocation can be marked: it lies in a region, inside it, and the region has that many
/// free bytes; or there is no such region, which is an error.
pub open spec fn can_mark(regions: Seq<RegionState>, allocation: Allocation) -> bool {
    &&& allocation.offset >= AMAP_FIRST_OFFSET
    &&& allocation_region(allocation) < regions.len() ==> first_bit(allocation) + allocation.size
        / 64 <= MAP_BIT_COUNT && allocation.size <= regions[allocation_region(
        allocation,
    )].free_space
}

/// The regions with an allocation marked.
pub open spec fn with_allocation(regions: Seq<RegionState>, allocation: Allocation) -> Result<
    Seq<RegionState>,
    PstError,
> {
    let index = allocation_region(allocation);
    if index > usize::MAX {
        Err(PstError::IntegerConversion)
    } else if index >= regions.len() {
        Err(PstError::AllocationMapPageNotFound(index as usize))
    } else {
        let start = first_bit(allocation);
        Ok(
            regions.update(
                index,
                RegionState {
                    bits: with_range(
                        regions[index].bits,
                        start,
                        start + allocation.size / 64,
                    ),
                    free_space: (regions[index].free_space - allocation.size) as u64,
                },
            ),
        )
    }
}

/// The regions with the allocations from `index` on marked.
pub open spec fn with_allocations(
    regions: Seq<RegionState>,
    allocations: Seq<Allocation>,
    index: int,
) -> Result<Seq<RegionState>, PstError>
    decreases allocations.len() - index,
{
    if index >= allocations.len() {
        Ok(regions)
    } else {
        match with_allocation(regions, allocations[index]) {
            Err(error) => Err(error),
            Ok(next) => with_allocations(next, allocations, index + 1),
        }
    }
}

/// Whether the allocations from `index` on can be marked one after the other.
pub open spec fn can_mark_all(
    regions: Seq<RegionState>,
    allocations: Seq<Allocation>,
    index: int,
) -> bool
    decreases allocations.len() - index,
{
    index >= allocations.len() || (can_mark(regions, allocations[index]) && match with_allocation(
        regions,
        allocations[index],
    ) {
        Err(_) => true,
        Ok(next) => can_mark_all(next, allocations, index + 1),
    })
}

/// The size that a block with `size` bytes of contents takes in the file.
pub open spec fn stored_size(size: int, trailer_size: int) -> int {
    if size + trailer_size >= MAX_BLOCK_SIZE {
        MAX_BLOCK_SIZE as int
    } else {
        allocation::align_up(size + trailer_size, 64)
    }
}

/// The allocation of a page.
pub open spec fn page_allocation(offset: u64) -> Allocation {
    Allocation { offset, size: PAGE_SIZE }
}

/// The allocation of a block.
pub open spec fn block_allocation(entry: UnicodeBlockBTreeEntry, trailer_size: u16) -> Allocation {
    Allocation {
        offset: entry.block.index,
        size: stored_size(entry.size as int, trailer_size as int) as u64,
    }
}

/// A region in which only the map pages are in use.
pub open spec fn fresh_region(index: int) -> RegionState {
    RegionState {
        bits: Seq::new(MAP_BIT_COUNT as nat, |i: int| i < 8 * allocation::map_pages(index)),
        free_space: (AMAP_DATA_SIZE - allocation::map_pages(index) * PAGE_SIZE) as u64,
    }
}

/// The number of regions of a file that ends at `eof`.
pub open spec fn region_count(eof: u64) -> int {
    (eof - AMAP_FIRST_OFFSET + AMAP_DATA_SIZE - 1) / AMAP_DATA_SIZE as int
}

/// The number of clear bits right before bit `end`.
pub open spec fn free_run(bits: Seq<bool>, end: int) -> nat
    decreases end,
{
    if end <= 0 || bits[end - 1] {
        0
    } else {
        free_run(bits, end - 1) + 1
    }
}

/// The largest number of clear bits in a row among the first `end`.
pub open spec fn longest_free_run(bits: Seq<bool>, end: int) -> nat
    decreases end,
{
    if end <= 0 {
        0
    } else {
        let before = longest_free_run(bits, end - 1);
        let run = free_run(bits, end);
        if run > before {
            run
        } else {
            before
        }
    }
}

/// The entry of a region in a free map: the largest number of free slots in a row, capped.
pub open spec fn free_slots(region: RegionState) -> u8 {
    let longest = longest_free_run(region.bits, region.bits.len() as int);
    if longest > MAX_FREE_SLOTS {
        MAX_FREE_SLOTS
    } else {
        longest as u8
    }
}

/// `size` entries of a free map, for the regions from `start` on.
pub open spec fn free_map(regions: Seq<RegionState>, start: int, size: nat) -> Seq<u8> {
    Seq::new(
        size,
        |i: int|
            if start + i < regions.len() {
                free_slots(regions[start + i])
            } else {
                0
            },
    )
}

/// The number of free bytes in the first `count` regions.
pub open spec fn free_bytes(regions: Seq<RegionState>, count: nat) -> nat
    decreases count,
{
    if count == 0 {
        0
    } else {
        free_bytes(regions, (count - 1) as nat) + regions[count - 1].free_space as nat
    }
}

/// The number of clear bits among the first `count`.
pub open spec fn clear_bits(bits: Seq<bool>, count: nat) -> nat
    decreases count,
{
    if count == 0 {
        0
    } else {
        clear_bits(bits, (count - 1) as nat) + if bits[count - 1] {
            0nat
        } else {
            1nat
        }
    }
}

proof fn lemma_clear_bits_range(bits: Seq<bool>, start: int, end: int, count: nat)
    requires
        0 <= start <= end <= bits.len(),
        count <= bits.len(),
        forall|i: int| start <= i < end ==> !#[trigger] bits[i],
    ensures
        clear_bits(with_range(bits, start, end), count) == clear_bits(bits, count) - (if count
            <= start {
            0
        } else if count <= end {
            count - start
        } else {
            end - start
        }),
    decreases count,
{
    if count > 0 {
        lemma_clear_bits_range(bits, start, end, (count - 1) as nat);
    }
}

/// Marking an allocation sets the bits of its range in its region and no other bit. Where its range
/// was clear, the free bytes of the region go on being 64 for every clear bit.
pub proof fn law_allocation_marks_its_range(regions: Seq<RegionState>, allocation: Allocation)
    requires
        regions_wf(regions),
        can_mark(regions, allocation),
        allocation.size % 64 == 0,
    ensures
        with_allocation(regions, allocation) matches Ok(after) ==> ({
            let region = allocation_region(allocation);
            let start = first_bit(allocation);
            let end = start + allocation.size / 64;
            &&& regions_wf(after)
            &&& after.len() == regions.len()
            &&& forall|i: int| 0 <= i < regions.len() && i != region ==> after[i] == regions[i]
            &&& forall|i: int|
                0 <= i < MAP_BIT_COUNT ==> #[trigger] after[region].bits[i] == (
                regions[region].bits[i] || start <= i < end)
            &&& (forall|i: int| start <= i < end ==> !#[trigger] regions[region].bits[i])
                && regions[region].free_space == 64 * clear_bits(
                regions[region].bits,
                MAP_BIT_COUNT as nat,
            ) ==> after[region].free_space == 64 * clear_bits(
                after[region].bits,
                MAP_BIT_COUNT as nat,
            )
        }),
{
    if let Ok(after) = with_allocation(regions, allocation) {
        let region = allocation_region(allocation);
        let start = first_bit(allocation);
        let end = start + allocation.size / 64;
        let bits = regions[region].bits;
        assert(bits.len() == MAP_BIT_COUNT);
        if forall|i: int| start <= i < end ==> !#[trigger] bits[i] {
            lemma_clear_bits_range(bits, start, end, MAP_BIT_COUNT as nat);
            assert(64 * (allocation.size / 64) == allocation.size);
        }
    }
}

/// Whether an allocation takes bit `bit` of region `region`.
pub open spec fn covers(allocation: Allocation, region: int, bit: int) -> bool {
    allocation_region(allocation) == region && first_bit(allocation) <= bit < first_bit(allocation)
        + allocation.size / 64
}

/// Whether one of the allocations from `index` on takes bit `bit` of region `region`.
pub open spec fn covered(
    allocations: Seq<Allocation>,
    index: int,
    region: int,
    bit: int,
) -> bool {
    exists|i: int|
        index <= i < allocations.len() && #[trigger] covers(allocations[i], region, bit)
}

/// Whether the allocations from `index` on are whole slots, do not overlap, and take nothing that is
/// marked already.
pub open spec fn are_apart(
    regions: Seq<RegionState>,
    allocations: Seq<Allocation>,
    index: int,
) -> bool {
    &&& forall|i: int, region: int, bit: int|
        index <= i < allocations.len() && 0 <= region < regions.len() && 0 <= bit < MAP_BIT_COUNT
            && #[trigger] covers(allocations[i], region, bit) ==> !regions[region].bits[bit]
    &&& forall|i: int, j: int, region: int, bit: int|
        index <= i < j < allocations.len() && #[trigger] covers(allocations[i], region, bit)
            ==> !(#[trigger] covers(allocations[j], region, bit))
}

/// Whether every region has 64 free bytes for every clear bit.
pub open spec fn free_space_fits(regions: Seq<RegionState>) -> bool {
    forall|i: int|
        0 <= i < regions.len() ==> (#[trigger] regions[i]).free_space == 64 * clear_bits(
            regions[i].bits,
            MAP_BIT_COUNT as nat,
        )
}

/// Marking allocations one after the other sets the bits that one of them takes and no other bit. Where
/// they do not overlap each other or what was marked before, every region goes on having 64 free bytes
/// for every clear bit.
pub proof fn law_allocations_mark_their_ranges(
    regions: Seq<RegionState>,
    allocations: Seq<Allocation>,
    index: int,
)
    requires
        0 <= index,
        regions_wf(regions),
        can_mark_all(regions, allocations, index),
        forall|i: int|
            index <= i < allocations.len() ==> (#[trigger] allocations[i]).size % 64 == 0,
    ensures
        with_allocations(regions, allocations, index) matches Ok(after) ==> ({
            &&& regions_wf(after)
            &&& after.len() == regions.len()
            &&& forall|region: int, bit: int|
                0 <= region < regions.len() && 0 <= bit < MAP_BIT_COUNT
                    ==> #[trigger] after[region].bits[bit] == (regions[region].bits[bit]
                    || covered(allocations, index, region, bit))
            &&& are_apart(regions, allocations, index) && free_space_fits(regions)
                ==> free_space_fits(after)
        }),
    decreases allocations.len() - index,
{
    if index < allocations.len() {
        let allocation = allocations[index];
        law_allocation_marks_its_range(regions, allocation);
        if let Ok(next) = with_allocation(regions, allocation) {
            law_allocations_mark_their_ranges(next, allocations, index + 1);
            let own = allocation_region(allocation);
            if let Ok(after) = with_allocations(next, allocations, index + 1) {
                assert forall|region: int, bit: int|
                    0 <= region < regions.len() && 0 <= bit
                        < MAP_BIT_COUNT implies #[trigger] after[region].bits[bit] == (
                regions[region].bits[bit] || covered(allocations, index, region, bit)) by {
                    lemma_next_is_marked(regions, next, allocation, region, bit);
                    lemma_covered(allocations, index, region, bit);
                }
                if are_apart(regions, allocations, index) && free_space_fits(regions) {
                    lemma_next_apart(regions, next, allocations, index);
                }
            }
        }
    } else {
        assert forall|region: int, bit: int| !covered(allocations, index, region, bit) by {}
    }
}

proof fn lemma_next_is_marked(
    regions: Seq<RegionState>,
    next: Seq<RegionState>,
    allocation: Allocation,
    region: int,
    bit: int,
)
    requires
        regions_wf(regions),
        can_mark(regions, allocation),
        allocation.size % 64 == 0,
        with_allocation(regions, allocation) == Ok::<_, PstError>(next),
        0 <= region < regions.len(),
        0 <= bit < MAP_BIT_COUNT,
    ensures
        next[region].bits[bit] == (regions[region].bits[bit] || covers(allocation, region, bit)),
{
    law_allocation_marks_its_range(regions, allocation);
    if region != allocation_region(allocation) {
        assert(next[region] == regions[region]);
    }
}

proof fn lemma_covered(allocations: Seq<Allocation>, index: int, region: int, bit: int)
    requires
        0 <= index < allocations.len(),
    ensures
        covered(allocations, index, region, bit) == (covers(allocations[index], region, bit)
            || covered(allocations, index + 1, region, bit)),
{
    if covers(allocations[index], region, bit) {
        assert(covered(allocations, index, region, bit));
    }
    if covered(allocations, index + 1, region, bit) {
        let i = choose|i: int|
            index + 1 <= i < allocations.len() && #[trigger] covers(allocations[i], region, bit);
        assert(covers(allocations[i], region, bit));
    }
}

proof fn lemma_next_apart(
    regions: Seq<RegionState>,
    next: Seq<RegionState>,
    allocations: Seq<Allocation>,
    index: int,
)
    requires
        0 <= index < allocations.len(),
        regions_wf(regions),
        can_mark(regions, allocations[index]),
        allocations[index].size % 64 == 0,
        with_allocation(regions, allocations[index]) == Ok::<_, PstError>(next),
        are_apart(regions, allocations, index),
        free_space_fits(regions),
    ensures
        are_apart(next, allocations, index + 1),
        free_space_fits(next),
{
    let allocation = allocations[index];
    let own = allocation_region(allocation);
    let start = first_bit(allocation);
    let end = start + allocation.size / 64;
    law_allocation_marks_its_range(regions, allocation);
    assert forall|i: int, region: int, bit: int|
        index + 1 <= i < allocations.len() && 0 <= region < next.len() && 0 <= bit < MAP_BIT_COUNT
            && #[trigger] covers(allocations[i], region, bit) implies !next[region].bits[bit] by {
        assert(!covers(allocation, region, bit));
        lemma_next_is_marked(regions, next, allocation, region, bit);
    }
    assert forall|i: int| start <= i < end implies !#[trigger] regions[own].bits[i] by {
        assert(covers(allocation, own, i));
    }
    assert(regions[own].free_space == 64 * clear_bits(regions[own].bits, MAP_BIT_COUNT as nat));
    assert forall|i: int| 0 <= i < next.len() implies (#[trigger] next[i]).free_space == 64
        * clear_bits(next[i].bits, MAP_BIT_COUNT as nat) by {
        if i != own {
            assert(next[i] == regions[i]);
        }
    }
}

proof fn lemma_clear_from(bits: Seq<bool>, used: int, count: nat)
    requires
        0 <= used <= bits.len(),
        count <= bits.len(),
        forall|i: int| 0 <= i < bits.len() ==> #[trigger] bits[i] == (i < used),
    ensures
        clear_bits(bits, count) == (if count <= used {
            0
        } else {
            count - used
        }),
    decreases count,
{
    if count > 0 {
        lemma_clear_from(bits, used, (count - 1) as nat);
    }
}

/// A fresh region has 64 free bytes for every clear bit.
pub proof fn law_fresh_region(index: int)
    requires
        index >= 0,
    ensures
        fresh_region(index).bits.len() == MAP_BIT_COUNT,
        fresh_region(index).free_space == 64 * clear_bits(
            fresh_region(index).bits,
            MAP_BIT_COUNT as nat,
        ),
{
    allocation::law_map_pages(index);
    lemma_clear_from(
        fresh_region(index).bits,
        8 * allocation::map_pages(index),
        MAP_BIT_COUNT as nat,
    );
}

/// A map page that is to be written at `offset`, which is also its identifier.
pub struct MapPage {
    pub page_type: PageType,
    pub offset: u64,
    pub map_bits: Vec<u8>,
}

/// A map page by its contents.
#[verifier::ext_equal]
pub struct MapPageContents {
    pub page_type: PageType,
    pub offset: u64,
    pub map_bits: Seq<u8>,
}

impl View for MapPage {
    type V = MapPageContents;

    open spec fn view(&self) -> MapPageContents {
        MapPageContents {
            page_type: self.page_type,
            offset: self.offset,
            map_bits: self.map_bits@,
        }
    }
}

/// The number of pages of a map that starts at region `first` and has one for every `step` regions.
pub open spec fn map_page_total(count: int, first: int, step: int) -> int {
    if count <= first {
        0
    } else {
        (count - first + step - 1) / step
    }
}

/// A map with every bit set.
pub open spec fn full_map() -> Seq<u8> {
    Seq::new(MAP_BYTE_COUNT as nat, |i: int| 0xFFu8)
}

/// The contents of map page `index` of the given type.
pub open spec fn map_page_bits(
    regions: Seq<RegionState>,
    page_type: PageType,
    index: int,
) -> Seq<u8> {
    if page_type == PageType::FreeMap {
        free_map(
            regions,
            FMAP_FIRST_SIZE + index * MAP_BYTE_COUNT,
            MAP_BYTE_COUNT as nat,
        )
    } else {
        full_map()
    }
}

/// The map pages of the given type from `index` on, after those in `done`. Their offsets must not
/// be beyond `max_index`.
pub open spec fn with_map_pages(
    done: Seq<MapPageContents>,
    regions: Seq<RegionState>,
    page_type: PageType,
    first_offset: int,
    step: int,
    total: int,
    max_index: u64,
    index: int,
) -> Result<Seq<MapPageContents>, PstError>
    decreases total - index,
{
    if index >= total {
        Ok(done)
    } else if index * step + first_offset > max_index {
        Err(PstError::IntegerConversion)
    } else {
        with_map_pages(
            done.push(
                MapPageContents {
                    page_type,
                    offset: (index * step + first_offset) as u64,
                    map_bits: map_page_bits(regions, page_type, index),
                },
            ),
            regions,
            page_type,
            first_offset,
            step,
            total,
            max_index,
            index + 1,
        )
    }
}

/// The page maps, free maps and free page maps of the regions.
pub open spec fn other_map_pages(regions: Seq<RegionState>, max_index: u64) -> Result<
    Seq<MapPageContents>,
    PstError,
> {
    let count = regions.len() as int;
    match with_map_pages(
        Seq::empty(),
        regions,
        PageType::AllocationPageMap,
        PMAP_FIRST_OFFSET as int,
        PMAP_DATA_SIZE as int,
        map_page_total(count, 0, PMAP_PAGE_COUNT as int),
        max_index,
        0,
    ) {
        Err(error) => Err(error),
        Ok(done) => match with_map_pages(
            done,
            regions,
            PageType::FreeMap,
            FMAP_FIRST_OFFSET as int,
            FMAP_DATA_SIZE as int,
            map_page_total(count, FMAP_FIRST_SIZE as int, FMAP_PAGE_COUNT as int),
            max_index,
            0,
        ) {
            Err(error) => Err(error),
            Ok(done) => with_map_pages(
                done,
                regions,
                PageType::FreePageMap,
                FPMAP_FIRST_OFFSET as int,
                FPMAP_DATA_SIZE as int,
                map_page_total(count, FPMAP_FIRST_SIZE as int, FPMAP_PAGE_COUNT as int),
                max_index,
                0,
            ),
        },
    }
}

/// The header after the allocation maps were written.
pub open spec fn rebuilt_header(header: HeaderContents, regions: Seq<RegionState>) -> HeaderContents {
    let last = if regions.len() == 0 {
        0
    } else {
        regions.len() - 1
    };
    HeaderContents {
        unique: crate::ndb::header::next_unique(header.unique),
        root: Root {
            amap_last_index: (AMAP_FIRST_OFFSET + last * AMAP_DATA_SIZE) as u64,
            amap_free_size: free_bytes(regions, regions.len()) as u64,
            pmap_free_size: 0,
            amap_is_valid: AmapStatus::Valid2,
            ..header.root
        },
        first_free_map: free_map(regions, 0, FIRST_FREE_MAP_SIZE as nat),
        ..header
    }
}

fn set_bit(bits: &mut Vec<u8>, index: usize)
    requires
        index < 8 * old(bits)@.len(),
    ensures
        final(bits)@.len() == old(bits)@.len(),
        map_bits(final(bits)@) == with_range(map_bits(old(bits)@), index as int, index + 1),
{
    let byte: usize = index / 8;
    let shift: u8 = (index % 8) as u8;
    let mask: u8 = 0x80u8 >> shift;
    let before: u8 = bits[byte];
    let after: u8 = before | mask;
    bits.set(byte, after);
    proof {
        assert forall|i: int| 0 <= i < 8 * old(bits)@.len() implies map_bits(bits@)[i]
            == with_range(map_bits(old(bits)@), index as int, index + 1)[i] by {
            if i / 8 == byte {
                let other = (i % 8) as u8;
                lemma_set_bit(before, shift, other);
                assert((i == index) == (other == shift));
            }
        }
        assert(map_bits(bits@) =~= with_range(map_bits(old(bits)@), index as int, index + 1));
    }
}

proof fn lemma_set_bit(byte: u8, shift: u8, other: u8)
    requires
        shift < 8,
        other < 8,
    ensures
        ((byte | (0x80u8 >> shift)) & (0x80u8 >> other) != 0) == (byte & (0x80u8 >> other) != 0
            || shift == other),
{
    assert(((byte | (0x80u8 >> shift)) & (0x80u8 >> other) != 0) == (byte & (0x80u8 >> other) != 0
        || shift == other)) by (bit_vector)
        requires
            shift < 8,
            other < 8,
    ;
}

proof fn lemma_zero_bits(count: nat)
    ensures
        map_bits(crate::bytes::zeros(count)) == Seq::new((8 * count) as nat, |i: int| false),
{
    assert forall|i: int| 0 <= i < 8 * count implies !#[trigger] map_bit(
        crate::bytes::zeros(count),
        i,
    ) by {
        let shift = (i % 8) as u8;
        assert(0u8 & (0x80u8 >> shift) == 0) by (bit_vector);
    }
    assert(map_bits(crate::bytes::zeros(count)) =~= Seq::new((8 * count) as nat, |i: int| false));
}

/// Sets the bits from `start` up to `end`.
fn set_range(bits: &mut Vec<u8>, start: usize, end: usize)
    requires
        start <= end <= 8 * old(bits)@.len(),
        8 * old(bits)@.len() <= usize::MAX,
    ensures
        final(bits)@.len() == old(bits)@.len(),
        map_bits(final(bits)@) == with_range(map_bits(old(bits)@), start as int, end as int),
{
    let mut i: usize = start;
    assert(map_bits(bits@) =~= with_range(map_bits(old(bits)@), start as int, start as int));
    while i < end
        invariant
            start <= i <= end,
            bits@.len() == old(bits)@.len(),
            end <= 8 * old(bits)@.len(),
            map_bits(bits@) == with_range(map_bits(old(bits)@), start as int, i as int),
        decreases end - i,
    {
        set_bit(bits, i);
        i += 1;
        assert(map_bits(bits@) =~= with_range(map_bits(old(bits)@), start as int, i as int));
    }
}

/// The regions by their bits.
pub open spec fn region_views(regions: Seq<AllocationMapPageInfo>) -> Seq<RegionState> {
    crate::bytes::views(regions)
}

/// Whether an allocation can be marked.
pub fn allocation_fits(regions: &Vec<AllocationMapPageInfo>, allocation: Allocation) -> (fits: bool)
    ensures
        fits == can_mark(region_views(regions@), allocation),
{
    if allocation.offset < AMAP_FIRST_OFFSET {
        return false;
    }
    let index: u64 = (allocation.offset - AMAP_FIRST_OFFSET) / AMAP_DATA_SIZE;
    if index >= regions.len() as u64 {
        return true;
    }
    let start: u64 = (allocation.offset - AMAP_FIRST_OFFSET) % AMAP_DATA_SIZE / 64;
    assert(region_views(regions@)[index as int] == regions@[index as int]@);
    start + allocation.size / 64 <= MAP_BIT_COUNT as u64 && allocation.size
        <= regions[index as usize].free_space
}

/// Marks an allocation.
pub fn mark_allocation(regions: &mut Vec<AllocationMapPageInfo>, allocation: Allocation) -> (result:
    Result<(), PstError>)
    requires
        maps_wf(old(regions)@),
        can_mark(region_views(old(regions)@), allocation),
    ensures
        maps_wf(final(regions)@),
        match with_allocation(region_views(old(regions)@), allocation) {
            Ok(after) => result is Ok && region_views(final(regions)@) == after,
            Err(error) => result == Err::<(), PstError>(error) && region_views(final(regions)@)
                == region_views(old(regions)@),
        },
{
    let ghost before = region_views(regions@);
    let index: u64 = (allocation.offset - AMAP_FIRST_OFFSET) / AMAP_DATA_SIZE;
    if index > usize::MAX as u64 {
        return Err(PstError::IntegerConversion);
    }
    let index: usize = index as usize;
    if index >= regions.len() {
        return Err(PstError::AllocationMapPageNotFound(index));
    }
    let start: usize = ((allocation.offset - AMAP_FIRST_OFFSET) % AMAP_DATA_SIZE / 64) as usize;
    assert(before[index as int] == regions@[index as int]@);
    let end: usize = start + (allocation.size / 64) as usize;
    let mut region = AllocationMapPageInfo { map_bits: Vec::new(), free_space: 0 };
    std::mem::swap(&mut region, &mut regions[index]);
    assert(region@ == before[index as int]);
    region.free_space = region.free_space - allocation.size;
    set_range(&mut region.map_bits, start, end);
    regions.set(index, region);
    assert(region_views(regions@) =~= with_allocation(before, allocation)->Ok_0);
    Ok(())
}

/// Whether allocations can be marked one after the other.
pub fn allocations_fit(
    regions: &Vec<AllocationMapPageInfo>,
    allocations: &Vec<Allocation>,
) -> (fits: bool)
    requires
        maps_wf(regions@),
    ensures
        fits == can_mark_all(region_views(regions@), allocations@, 0),
{
    let mut copy: Vec<AllocationMapPageInfo> = Vec::new();
    let mut j: usize = 0;
    while j < regions.len()
        invariant
            j <= regions@.len(),
            copy@.len() == j,
            maps_wf(regions@),
            forall|k: int| 0 <= k < j ==> (#[trigger] copy@[k])@ == regions@[k]@,
            forall|k: int| 0 <= k < j ==> (#[trigger] copy@[k]).map_bits@.len() == MAP_BYTE_COUNT,
        decreases regions@.len() - j,
    {
        assert(regions@[j as int].map_bits@.len() == MAP_BYTE_COUNT);
        copy.push(
            AllocationMapPageInfo {
                map_bits: crate::bytes::copy(regions[j].map_bits.as_slice()),
                free_space: regions[j].free_space,
            },
        );
        j += 1;
    }
    assert(region_views(copy@) =~= region_views(regions@));
    let mut i: usize = 0;
    while i < allocations.len()
        invariant
            i <= allocations@.len(),
            maps_wf(copy@),
            can_mark_all(region_views(regions@), allocations@, 0) == can_mark_all(
                region_views(copy@),
                allocations@,
                i as int,
            ),
        decreases allocations@.len() - i,
    {
        if !allocation_fits(&copy, allocations[i]) {
            return false;
        }
        match mark_allocation(&mut copy, allocations[i]) {
            Ok(_) => {},
            Err(_) => {
                return true;
            },
        }
        i += 1;
    }
    true
}

/// Marks allocations one after the other.
pub fn mark_allocations(
    regions: &mut Vec<AllocationMapPageInfo>,
    allocations: &Vec<Allocation>,
) -> (result: Result<(), PstError>)
    requires
        maps_wf(old(regions)@),
        can_mark_all(region_views(old(regions)@), allocations@, 0),
    ensures
        maps_wf(final(regions)@),
        match with_allocations(region_views(old(regions)@), allocations@, 0) {
            Ok(after) => result is Ok && region_views(final(regions)@) == after,
            Err(error) => result == Err::<(), PstError>(error),
        },
{
    let mut i: usize = 0;
    while i < allocations.len()
        invariant
            i <= allocations@.len(),
            maps_wf(regions@),
            can_mark_all(region_views(regions@), allocations@, i as int),
            with_allocations(region_views(old(regions)@), allocations@, 0) == with_allocations(
                region_views(regions@),
                allocations@,
                i as int,
            ),
        decreases allocations@.len() - i,
    {
        mark_allocation(regions, allocations[i])?;
        i += 1;
    }
    Ok(())
}

/// The regions of a file that ends at `eof`, with only the map pages in use. Their offsets must not
/// be beyond `max_index`.
pub fn new_regions(eof: u64, max_index: u64) -> (regions: Result<
    Vec<AllocationMapPageInfo>,
    PstError,
>)
    requires
        AMAP_FIRST_OFFSET <= eof,
        eof + AMAP_DATA_SIZE <= u64::MAX,
    ensures
        match regions {
            Ok(regions) => maps_wf(regions@) && region_views(regions@) == Seq::new(
                region_count(eof) as nat,
                |i: int| fresh_region(i),
            ) && (region_count(eof) == 0 || allocation::region_start(region_count(eof) - 1)
                <= max_index),
            Err(error) => error == PstError::IntegerConversion && region_count(eof) > 0
                && allocation::region_start(region_count(eof) - 1) > max_index,
        },
{
    let count: u64 = (eof - AMAP_FIRST_OFFSET + AMAP_DATA_SIZE - 1) / AMAP_DATA_SIZE;
    let mut regions: Vec<AllocationMapPageInfo> = Vec::new();
    let mut i: u64 = 0;
    while i < count
        invariant
            i <= count,
            count == region_count(eof),
            AMAP_FIRST_OFFSET <= eof,
            eof + AMAP_DATA_SIZE <= u64::MAX,
            maps_wf(regions@),
            i > 0 ==> allocation::region_start(i - 1) <= max_index,
            region_views(regions@) == Seq::new(i as nat, |j: int| fresh_region(j)),
        decreases count - i,
    {
        assert(i * AMAP_DATA_SIZE + AMAP_FIRST_OFFSET < eof + AMAP_DATA_SIZE) by {
            assert((count - 1) * AMAP_DATA_SIZE < eof);
            assert(i <= count - 1);
        }
        if i * AMAP_DATA_SIZE + AMAP_FIRST_OFFSET > max_index {
            assert(allocation::region_start(i as int) <= allocation::region_start(count - 1));
            return Err(PstError::IntegerConversion);
        }
        let reserved: u64 = allocation::map_page_count(i);
        let mut map_bits: Vec<u8> = Vec::new();
        crate::bytes::push_zeros(&mut map_bits, MAP_BYTE_COUNT);
        assert(map_bits@ =~= crate::bytes::zeros(MAP_BYTE_COUNT as nat));
        proof {
            lemma_zero_bits(MAP_BYTE_COUNT as nat);
        }
        set_range(&mut map_bits, 0, 8 * reserved as usize);
        let region = AllocationMapPageInfo {
            map_bits,
            free_space: AMAP_DATA_SIZE - reserved * PAGE_SIZE,
        };
        assert(region@ =~= fresh_region(i as int));
        let ghost before = region_views(regions@);
        regions.push(region);
        i += 1;
        assert(region_views(regions@) =~= before.push(region@));
        assert(region_views(regions@) =~= Seq::new(i as nat, |j: int| fresh_region(j)));
    }
    Ok(regions)
}

/// The size that a block with `size` bytes of contents takes in the file.
pub fn block_disk_size(size: u16, trailer_size: u16) -> (total: u64)
    ensures
        total == stored_size(size as int, trailer_size as int),
        total % 64 == 0,
{
    let total: u64 = size as u64 + trailer_size as u64;
    if total >= MAX_BLOCK_SIZE {
        MAX_BLOCK_SIZE
    } else {
        let rest: u64 = total % 64;
        if rest == 0 {
            total
        } else {
            total - rest + 64
        }
    }
}

impl AllocationMapPageInfo {
    /// The largest number of free slots in a row, capped at what a free map can hold.
    pub fn max_free_slots(&self) -> (slots: u8)
        requires
            self.map_bits@.len() == MAP_BYTE_COUNT,
        ensures
            slots == free_slots(self@),
    {
        let ghost bits = map_bits(self.map_bits@);
        let mut longest: usize = 0;
        let mut run: usize = 0;
        let mut i: usize = 0;
        while i < MAP_BIT_COUNT
            invariant
                i <= MAP_BIT_COUNT,
                self.map_bits@.len() == MAP_BYTE_COUNT,
                bits == map_bits(self.map_bits@),
                run == free_run(bits, i as int),
                run <= i,
                longest == longest_free_run(bits, i as int),
            decreases MAP_BIT_COUNT - i,
        {
            let mask: u8 = 0x80u8 >> ((i % 8) as u8);
            assert(bits[i as int] == map_bit(self.map_bits@, i as int));
            if self.map_bits[i / 8] & mask != 0 {
                run = 0;
            } else {
                run += 1;
            }
            i += 1;
            if run > longest {
                longest = run;
            }
        }
        if longest > MAX_FREE_SLOTS as usize {
            MAX_FREE_SLOTS
        } else {
            longest as u8
        }
    }
}

/// `size` entries of a free map, for the regions from `start` on.
pub(crate) fn new_free_map(regions: &Vec<AllocationMapPageInfo>, start: usize, size: usize) -> (entries: Vec<
    u8,
>)
    requires
        maps_wf(regions@),
        start + size <= usize::MAX,
    ensures
        entries@ == free_map(region_views(regions@), start as int, size as nat),
{
    let ghost expected = free_map(region_views(regions@), start as int, size as nat);
    let mut entries: Vec<u8> = Vec::new();
    let mut i: usize = 0;
    while i < size
        invariant
            i <= size,
            start + size <= usize::MAX,
            maps_wf(regions@),
            entries@.len() == i,
            expected == free_map(region_views(regions@), start as int, size as nat),
            forall|j: int| 0 <= j < i ==> entries@[j] == expected[j],
        decreases size - i,
    {
        if start + i < regions.len() {
            assert(region_views(regions@)[start + i] == regions@[start + i]@);
            entries.push(regions[start + i].max_free_slots());
        } else {
            entries.push(0);
        }
        i += 1;
    }
    assert(entries@ =~= expected);
    entries
}

/// A map with every bit set.
fn new_full_map() -> (bits: Vec<u8>)
    ensures
        bits@ == full_map(),
{
    let mut bits: Vec<u8> = Vec::new();
    let mut i: usize = 0;
    while i < MAP_BYTE_COUNT
        invariant
            i <= MAP_BYTE_COUNT,
            bits@.len() == i,
            forall|j: int| 0 <= j < i ==> bits@[j] == 0xFF,
        decreases MAP_BYTE_COUNT - i,
    {
        bits.push(0xFF);
        i += 1;
    }
    assert(bits@ =~= full_map());
    bits
}

/// Adds the map pages of the given type.
fn push_map_pages(
    done: &mut Vec<MapPage>,
    regions: &Vec<AllocationMapPageInfo>,
    page_type: PageType,
    first_offset: u64,
    step: u64,
    total: usize,
    max_index: u64,
) -> (result: Result<(), PstError>)
    requires
        maps_wf(regions@),
        total > 0 ==> (total - 1) * step + first_offset <= u64::MAX,
        page_type == PageType::FreeMap ==> FMAP_FIRST_SIZE + total * MAP_BYTE_COUNT <= usize::MAX,
    ensures
        match with_map_pages(
            crate::bytes::views(old(done)@),
            region_views(regions@),
            page_type,
            first_offset as int,
            step as int,
            total as int,
            max_index,
            0,
        ) {
            Ok(after) => result is Ok && crate::bytes::views(final(done)@) == after,
            Err(error) => result == Err::<(), PstError>(error),
        },
{
    let mut i: usize = 0;
    while i < total
        invariant
            i <= total,
            maps_wf(regions@),
            total > 0 ==> (total - 1) * step + first_offset <= u64::MAX,
            page_type == PageType::FreeMap ==> FMAP_FIRST_SIZE + total * MAP_BYTE_COUNT
                <= usize::MAX,
            with_map_pages(
                crate::bytes::views(old(done)@),
                region_views(regions@),
                page_type,
                first_offset as int,
                step as int,
                total as int,
                max_index,
                0,
            ) == with_map_pages(
                crate::bytes::views(done@),
                region_views(regions@),
                page_type,
                first_offset as int,
                step as int,
                total as int,
                max_index,
                i as int,
            ),
        decreases total - i,
    {
        assert(i * step <= (total - 1) * step) by (nonlinear_arith)
            requires
                i <= total - 1,
                0 <= step,
        ;
        let offset: u64 = i as u64 * step + first_offset;
        if offset > max_index {
            return Err(PstError::IntegerConversion);
        }
        let map_bits: Vec<u8> = if page_type == PageType::FreeMap {
            new_free_map(regions, FMAP_FIRST_SIZE as usize + i * MAP_BYTE_COUNT, MAP_BYTE_COUNT)
        } else {
            new_full_map()
        };
        let ghost before = crate::bytes::views(done@);
        let page = MapPage { page_type, offset, map_bits };
        done.push(page);
        assert(crate::bytes::views(done@) =~= before.push(page@));
        i += 1;
    }
    Ok(())
}

/// The number of pages of a map that starts at region `first` and has one for every `step` regions.
fn count_map_pages(count: usize, first: usize, step: usize) -> (total: usize)
    requires
        0 < step,
        count + step <= usize::MAX,
    ensures
        total == map_page_total(count as int, first as int, step as int),
        total <= count,
{
    if count <= first {
        0
    } else {
        proof {
            let rest = count - first + step - 1;
            assert(rest / step as int <= count) by (nonlinear_arith)
                requires
                    rest == count - first + step - 1,
                    0 < step,
                    0 <= first < count,
            ;
        }
        (count - first + step - 1) / step
    }
}

/// The page maps, free maps and free page maps of the regions.
pub fn new_map_pages(regions: &Vec<AllocationMapPageInfo>, max_index: u64) -> (pages: Result<
    Vec<MapPage>,
    PstError,
>)
    requires
        maps_wf(regions@),
        allocation::region_start(regions@.len() as int) <= u64::MAX,
        regions@.len() + 0x1_0000 <= usize::MAX,
    ensures
        match other_map_pages(region_views(regions@), max_index) {
            Ok(expected) => pages matches Ok(pages) && crate::bytes::views(pages@) == expected,
            Err(error) => pages matches Err(result) && result == error,
        },
{
    let count: usize = regions.len();
    let mut pages: Vec<MapPage> = Vec::new();
    assert(crate::bytes::views(pages@) =~= Seq::empty());
    let total: usize = count_map_pages(count, 0, PMAP_PAGE_COUNT as usize);
    push_map_pages(
        &mut pages,
        regions,
        PageType::AllocationPageMap,
        PMAP_FIRST_OFFSET,
        PMAP_DATA_SIZE,
        total,
        max_index,
    )?;
    let total: usize = count_map_pages(count, FMAP_FIRST_SIZE as usize, FMAP_PAGE_COUNT as usize);
    push_map_pages(
        &mut pages,
        regions,
        PageType::FreeMap,
        FMAP_FIRST_OFFSET,
        FMAP_DATA_SIZE,
        total,
        max_index,
    )?;
    let total: usize = count_map_pages(
        count,
        FPMAP_FIRST_SIZE as usize,
        FPMAP_PAGE_COUNT as usize,
    );
    push_map_pages(
        &mut pages,
        regions,
        PageType::FreePageMap,
        FPMAP_FIRST_OFFSET,
        FPMAP_DATA_SIZE,
        total,
        max_index,
    )?;
    Ok(pages)
}

} // verus!
