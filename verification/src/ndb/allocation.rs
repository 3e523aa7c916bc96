//! Where blocks and pages may stand in the file.
//!
//! From [`AMAP_FIRST_OFFSET`] on the file is divided into regions of [`AMAP_DATA_SIZE`] bytes. Each
//! starts with an allocation map page. Every eighth region continues with an allocation page map,
//! and some of those with a free map or a free page map.

use vstd::prelude::*;

verus! {

/// The size of a page.
pub const PAGE_SIZE: u64 = 512;

/// The offset of the first region.
pub const AMAP_FIRST_OFFSET: u64 = 0x4400;

/// The number of bytes that one allocation map describes, one bit for every 64 bytes.
pub const AMAP_DATA_SIZE: u64 = 253952;

/// The offset of the first allocation page map.
pub const PMAP_FIRST_OFFSET: u64 = 0x4600;

/// The number of regions from one allocation page map to the next.
pub const PMAP_PAGE_COUNT: u64 = 8;

/// The number of bytes from one allocation page map to the next.
pub const PMAP_DATA_SIZE: u64 = 2031616;

/// The index of the first region with a free map.
pub const FMAP_FIRST_SIZE: u64 = 128;

/// The offset of the first free map.
pub const FMAP_FIRST_OFFSET: u64 = 32524288;

/// The number of regions from one free map to the next.
pub const FMAP_PAGE_COUNT: u64 = 496;

/// The number of bytes from one free map to the next.
pub const FMAP_DATA_SIZE: u64 = 125960192;

/// The index of the first region with a free page map.
pub const FPMAP_FIRST_SIZE: u64 = 8192;

/// The offset of the first free page map.
pub const FPMAP_FIRST_OFFSET: u64 = 2080393728;

/// The number of regions from one free page map to the next.
pub const FPMAP_PAGE_COUNT: u64 = 31744;

/// The number of bytes from one free page map to the next.
pub const FPMAP_DATA_SIZE: u64 = 8061452288;

/// The largest offset that a file can be positioned at.
pub const MAX_FILE_OFFSET: u64 = 0x7FFF_FFFF_FFFF_FFFF;

/// Whether region `index` has an allocation page map.
pub open spec fn has_pmap(index: int) -> bool {
    index % PMAP_PAGE_COUNT as int == 0
}

/// Whether region `index` has a free map.
pub open spec fn has_fmap(index: int) -> bool {
    index >= FMAP_FIRST_SIZE && (index - FMAP_FIRST_SIZE) % FMAP_PAGE_COUNT as int == 0
}

/// Whether region `index` has a free page map.
pub open spec fn has_fpmap(index: int) -> bool {
    index >= FPMAP_FIRST_SIZE && (index - FPMAP_FIRST_SIZE) % FPMAP_PAGE_COUNT as int == 0
}

/// The number of pages at the start of region `index` that hold maps. A free page map is the
/// fourth page of its region, so the third is reserved with it.
pub open spec fn map_pages(index: int) -> int {
    1 + if has_fpmap(index) {
        3int
    } else if has_fmap(index) {
        2int
    } else if has_pmap(index) {
        1int
    } else {
        0int
    }
}

/// The offset of region `index`.
pub open spec fn region_start(index: int) -> int {
    AMAP_FIRST_OFFSET + index * AMAP_DATA_SIZE
}

/// The end of the map pages of region `index`.
pub open spec fn maps_end(index: int) -> int {
    region_start(index) + map_pages(index) * PAGE_SIZE
}

/// The region in which `offset` lies.
pub open spec fn region_of(offset: int) -> int {
    (offset - AMAP_FIRST_OFFSET) / AMAP_DATA_SIZE as int
}

/// Whether `size` bytes can stand at `offset`: before the first region, or behind the map pages of
/// a region and inside it.
pub open spec fn range_is_free(offset: int, size: int) -> bool {
    offset < AMAP_FIRST_OFFSET || (maps_end(region_of(offset)) <= offset && offset + size
        <= region_start(region_of(offset) + 1))
}

/// The smallest multiple of `alignment` that is at least `offset`.
pub open spec fn align_up(offset: int, alignment: int) -> int {
    if offset % alignment == 0 {
        offset
    } else {
        offset - offset % alignment + alignment
    }
}

/// The first aligned offset at or behind `from` where `size` bytes can stand.
pub open spec fn reserved_offset(from: int, size: int, alignment: int) -> int {
    let offset = align_up(from, alignment);
    if range_is_free(offset, size) {
        offset
    } else if offset < maps_end(region_of(offset)) {
        align_up(maps_end(region_of(offset)), alignment)
    } else {
        align_up(maps_end(region_of(offset) + 1), alignment)
    }
}

/// Whether a range of `size` bytes with the given alignment has a place behind the map pages of
/// every region. Map pages end at multiples of the size of a page, so an alignment that divides it
/// loses nothing.
pub open spec fn fits_in_region(size: int, alignment: int) -> bool {
    &&& 0 < alignment
    &&& 0 <= size
    &&& size + alignment <= AMAP_DATA_SIZE - 4 * PAGE_SIZE || (PAGE_SIZE as int % alignment == 0
        && size <= AMAP_DATA_SIZE - 4 * PAGE_SIZE)
}

/// Every region with a free map or a free page map has an allocation page map, and none has both
/// of the others.
pub proof fn law_map_pages(index: int)
    requires
        index >= 0,
    ensures
        has_fmap(index) ==> has_pmap(index) && !has_fpmap(index),
        has_fpmap(index) ==> has_pmap(index),
        1 <= map_pages(index) <= 4,
{
    if has_fpmap(index) {
        let turns = (index - FPMAP_FIRST_SIZE) / FPMAP_PAGE_COUNT as int;
        assert(index == 8192 + 31744 * turns);
        assert(index % 8 == 0);
        assert((index - 128) % 496 == 128) by {
            assert(index - 128 == 496 * (16 + 64 * turns) + 128);
        }
    }
    if has_fmap(index) {
        let turns = (index - FMAP_FIRST_SIZE) / FMAP_PAGE_COUNT as int;
        assert(index == 128 + 496 * turns);
        assert(index % 8 == 0);
    }
}

pub proof fn lemma_align_up(offset: int, alignment: int)
    requires
        0 <= offset,
        0 < alignment,
    ensures
        offset <= align_up(offset, alignment) < offset + alignment,
        align_up(offset, alignment) % alignment == 0,
        forall|other: int|
            offset <= other && #[trigger] (other % alignment) == 0 ==> align_up(offset, alignment)
                <= other,
{
    let rest = offset % alignment;
    let up = align_up(offset, alignment);
    vstd::arithmetic::div_mod::lemma_fundamental_div_mod(offset, alignment);
    vstd::arithmetic::div_mod::lemma_mod_bound(offset, alignment);
    let turns = offset / alignment;
    if rest != 0 {
        assert(up == alignment * (turns + 1)) by (nonlinear_arith)
            requires
                up == offset - rest + alignment,
                offset == alignment * turns + rest,
        ;
        vstd::arithmetic::div_mod::lemma_mod_multiples_basic(turns + 1, alignment);
        assert(alignment * (turns + 1) == (turns + 1) * alignment) by (nonlinear_arith);
    }
    assert forall|other: int|
        offset <= other && #[trigger] (other % alignment) == 0 implies up <= other by {
        if rest != 0 {
            vstd::arithmetic::div_mod::lemma_fundamental_div_mod(other, alignment);
            let others = other / alignment;
            assert(others >= turns + 1) by (nonlinear_arith)
                requires
                    other == alignment * others,
                    offset == alignment * turns + rest,
                    0 < rest,
                    offset <= other,
                    alignment > 0,
            ;
            assert(up <= other) by (nonlinear_arith)
                requires
                    others >= turns + 1,
                    other == alignment * others,
                    up == alignment * (turns + 1),
                    alignment > 0,
            ;
        }
    }
}

proof fn lemma_pages_are_aligned(pages: int, alignment: int)
    requires
        0 < alignment,
        PAGE_SIZE as int % alignment == 0,
    ensures
        align_up(pages * PAGE_SIZE, alignment) == pages * PAGE_SIZE,
{
    let turns = PAGE_SIZE as int / alignment;
    vstd::arithmetic::div_mod::lemma_fundamental_div_mod(PAGE_SIZE as int, alignment);
    assert(pages * PAGE_SIZE == (pages * turns) * alignment) by (nonlinear_arith)
        requires
            PAGE_SIZE == alignment * turns,
    ;
    vstd::arithmetic::div_mod::lemma_mod_multiples_basic(pages * turns, alignment);
}

/// The end of the map pages of a region leaves room behind it for whatever fits in a region.
proof fn lemma_room_behind_maps(index: int, size: int, alignment: int)
    requires
        0 <= index,
        fits_in_region(size, alignment),
    ensures
        maps_end(index) <= align_up(maps_end(index), alignment),
        align_up(maps_end(index), alignment) + size <= region_start(index + 1),
        align_up(maps_end(index), alignment) < region_start(index + 1),
{
    law_map_pages(index);
    lemma_align_up(maps_end(index), alignment);
    assert(region_start(index + 1) == region_start(index) + AMAP_DATA_SIZE);
    if size + alignment > AMAP_DATA_SIZE - 4 * PAGE_SIZE {
        let pages = 34 + 496 * index + map_pages(index);
        assert(maps_end(index) == pages * PAGE_SIZE);
        lemma_pages_are_aligned(pages, alignment);
    }
}

/// A reserved range is aligned, does not start before the offset asked for, and is free; and no
/// aligned offset in between would have been free.
pub proof fn law_reserved_offset_is_first_fit(from: int, size: int, alignment: int)
    requires
        0 <= from,
        fits_in_region(size, alignment),
    ensures
        from <= reserved_offset(from, size, alignment),
        reserved_offset(from, size, alignment) < from + size + 2 * alignment + 4 * PAGE_SIZE,
        reserved_offset(from, size, alignment) % alignment == 0,
        range_is_free(reserved_offset(from, size, alignment), size),
        forall|other: int|
            from <= other < reserved_offset(from, size, alignment) && #[trigger] (other % alignment)
                == 0 ==> !range_is_free(other, size),
{
    let offset = align_up(from, alignment);
    lemma_align_up(from, alignment);
    let result = reserved_offset(from, size, alignment);
    if !range_is_free(offset, size) {
        let region = region_of(offset);
        law_map_pages(region);
        law_map_pages(region + 1);
        assert(region_start(region) <= offset < region_start(region + 1));
        if offset < maps_end(region) {
            lemma_align_up(maps_end(region), alignment);
            lemma_room_behind_maps(region, size, alignment);
            assert(region_of(result) == region);
        } else {
            lemma_align_up(maps_end(region + 1), alignment);
            lemma_room_behind_maps(region + 1, size, alignment);
            assert(region_start(region + 2) == region_start(region + 1) + AMAP_DATA_SIZE);
            assert(region_of(result) == region + 1);
        }
        assert forall|other: int|
            from <= other < result && #[trigger] (other % alignment)
                == 0 implies !range_is_free(other, size) by {
            assert(offset <= other);
            if offset < maps_end(region) {
                assert(other < maps_end(region));
                assert(region_of(other) == region);
            } else {
                assert(other < maps_end(region + 1));
                if other < region_start(region + 1) {
                    assert(region_of(other) == region);
                } else {
                    assert(region_of(other) == region + 1);
                }
            }
        }
    }
}

/// A free range behind the first region's start holds no byte of any map page.
pub proof fn law_free_range_avoids_maps(offset: int, size: int, index: int)
    requires
        AMAP_FIRST_OFFSET <= offset,
        0 <= size,
        0 <= index,
        range_is_free(offset, size),
    ensures
        offset + size <= region_start(index) || maps_end(index) <= offset,
        has_pmap(index) ==> region_start(index) + 2 * PAGE_SIZE <= maps_end(index),
        has_fmap(index) ==> region_start(index) + 3 * PAGE_SIZE <= maps_end(index),
        has_fpmap(index) ==> region_start(index) + 4 * PAGE_SIZE <= maps_end(index),
{
    law_map_pages(index);
    let region = region_of(offset);
    law_map_pages(region);
    assert(region_start(region) <= offset < region_start(region + 1));
    if index < region {
        assert(region_start(index + 1) <= region_start(region));
    } else if index > region {
        assert(region_start(region + 1) <= region_start(index));
    }
}

/// The number of pages at the start of region `amap_index` that hold maps.
pub fn map_page_count(amap_index: u64) -> (count: u64)
    ensures
        count == map_pages(amap_index as int),
        1 <= count <= 4,
{
    proof {
        law_map_pages(amap_index as int);
    }
    let has_pmap: bool = amap_index % PMAP_PAGE_COUNT == 0;
    let has_fmap: bool = has_pmap && amap_index >= FMAP_FIRST_SIZE && (amap_index
        - FMAP_FIRST_SIZE) % FMAP_PAGE_COUNT == 0;
    let has_fpmap: bool = has_pmap && amap_index >= FPMAP_FIRST_SIZE && (amap_index
        - FPMAP_FIRST_SIZE) % FPMAP_PAGE_COUNT == 0;
    let mut count: u64 = 1;
    if has_pmap {
        count += 1;
    }
    if has_fmap {
        count += 1;
    }
    if has_fpmap {
        count += 2;
    }
    count
}

/// The smallest multiple of `alignment` that is at least `offset`.
fn next_multiple(offset: u64, alignment: u64) -> (multiple: u64)
    requires
        0 < alignment,
        offset + alignment <= u64::MAX,
    ensures
        multiple == align_up(offset as int, alignment as int),
{
    proof {
        vstd::arithmetic::div_mod::lemma_mod_decreases(offset as nat, alignment as nat);
    }
    let rest: u64 = offset % alignment;
    if rest == 0 {
        offset
    } else {
        offset - rest + alignment
    }
}

/// Reserves `size` bytes at the first aligned offset at or behind `next_offset` where they can
/// stand, and moves `next_offset` behind them.
pub fn reserve_file_range(next_offset: &mut u64, size: u64, alignment: u64) -> (offset: u64)
    requires
        *old(next_offset) <= MAX_FILE_OFFSET,
        fits_in_region(size as int, alignment as int),
    ensures
        offset == reserved_offset(*old(next_offset) as int, size as int, alignment as int),
        *final(next_offset) == offset + size,
        *old(next_offset) <= offset,
        offset % alignment == 0,
        range_is_free(offset as int, size as int),
{
    proof {
        lemma_align_up(*next_offset as int, alignment as int);
        law_reserved_offset_is_first_fit(*next_offset as int, size as int, alignment as int);
        if alignment > PAGE_SIZE {
            vstd::arithmetic::div_mod::lemma_small_mod(PAGE_SIZE as nat, alignment as nat);
        }
    }
    let mut offset: u64 = next_multiple(*next_offset, alignment);
    if offset >= AMAP_FIRST_OFFSET {
        let amap_index: u64 = (offset - AMAP_FIRST_OFFSET) / AMAP_DATA_SIZE;
        let amap_offset: u64 = AMAP_FIRST_OFFSET + amap_index * AMAP_DATA_SIZE;
        let reserved_end: u64 = amap_offset + map_page_count(amap_index) * PAGE_SIZE;
        let next_amap: u64 = amap_offset + AMAP_DATA_SIZE;
        if offset < reserved_end {
            offset = next_multiple(reserved_end, alignment);
        } else if offset + size > next_amap {
            offset = next_multiple(
                next_amap + map_page_count(amap_index + 1) * PAGE_SIZE,
                alignment,
            );
        }
    }
    *next_offset = offset + size;
    offset
}

} // verus!
