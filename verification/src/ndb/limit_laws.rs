//! What the blocks and pages of a plan have room for, and where they stand.

use vstd::prelude::*;

use crate::bytes;
use crate::ndb::allocation;
use crate::ndb::block::BlockPlan;
use crate::ndb::block_laws;
use crate::ndb::btree::{PageContents, PagePlan, UnicodeBlockBTreeEntry};
use crate::ndb::btree_laws;
use crate::ndb::encoding;
use crate::ndb::encoding_laws;
use crate::ndb::map_laws;
use crate::ndb::template;
use crate::ndb::trailer_laws;

verus! {

/// Whether `size` bytes at `offset` take no slot of a map page.
pub open spec fn avoids_maps(offset: int, size: int) -> bool {
    forall|region: int, slot: int|
        0 <= region && 0 <= slot < 3968 && #[trigger] map_laws::is_map_slot(region, slot) ==> (
        offset + size <= map_laws::slot_offset(region, slot) || map_laws::slot_offset(region, slot)
            + 64 <= offset)
}

proof fn lemma_avoids_maps(offset: int, size: int)
    requires
        allocation::range_is_free(offset, size),
        offset >= 0x4400,
        offset % 64 == 0,
        0 <= size,
    ensures
        avoids_maps(offset, size),
{
    let own = allocation::region_of(offset);
    assert(own == (offset - 0x4400) / 253952);
    assert(offset - 0x4400 == 253952 * own + (offset - 0x4400) % 253952);
    assert forall|region: int, slot: int|
        0 <= region && 0 <= slot < 3968 && #[trigger] map_laws::is_map_slot(region, slot) implies (
    offset + size <= map_laws::slot_offset(region, slot) || map_laws::slot_offset(region, slot) + 64
        <= offset) by {
        allocation::law_map_pages(region);
        allocation::law_map_pages(own);
        assert(slot < 8 * allocation::map_pages(region));
        let start = allocation::region_start(own);
        assert(start == 0x4400 + own * 253952);
        assert(allocation::maps_end(own) == start + allocation::map_pages(own) * 512);
        if region < own {
            assert(region * 253952 + 253952 <= own * 253952);
        } else if region > own {
            assert(own * 253952 + 253952 <= region * 253952);
            assert(allocation::region_start(own + 1) == 0x4400 + (own + 1) * 253952);
        }
    }
}

/// Every block of a plan holds from 1 to 8176 bytes, starts at a multiple of 64, and takes no room of a map page. Blocks
/// stand one behind the other, with their last 16 bytes.
pub proof fn law_planned_block_fits(plan: BlockPlan, index: int, next: int)
    requires
        block_laws::plan_wf(plan),
        0 <= index < next < plan.blocks.len(),
        plan.blocks[index].offset >= 0x4400,
    ensures
        1 <= plan.blocks[index].size <= 8176,
        plan.blocks[index].size == plan.blocks[index].data.size(),
        plan.blocks[index].offset % 64 == 0,
        avoids_maps(plan.blocks[index].offset as int, plan.blocks[index].size + 16),
        plan.blocks[index].offset + plan.blocks[index].size + 16 <= plan.blocks[next].offset,
        plan.blocks[index].id.value / 4 != plan.blocks[next].id.value / 4,
{
    let block = plan.blocks[index];
    assert(block_laws::block_wf(block));
    assert(block_laws::block_end(block) <= plan.blocks[next].offset);
    assert(allocation::range_is_free(block.offset as int, block.size + 16));
    lemma_avoids_maps(block.offset as int, block.size + 16);
}

/// Every page of a plan has room for its entries in 488 bytes, starts at a multiple of 512, and takes no room of a map
/// page. Pages stand one behind the other.
pub proof fn law_planned_page_fits(plan: PagePlan, index: int, next: int)
    requires
        btree_laws::pages_wf(plan),
        0 <= index < next < plan.pages.len(),
        plan.pages[index].page_ref.index >= 0x4400,
    ensures
        match plan.pages[index].data {
            PageContents::BlockLeaf(entries) => 1 <= entries.len() && 24 * entries.len() <= 488,
            PageContents::NodeLeaf(entries) => 1 <= entries.len() && 32 * entries.len() <= 488,
            PageContents::Intermediate(_, level, entries) => 1 <= entries.len() && 24
                * entries.len() <= 488 && 1 <= level <= 8,
        },
        plan.pages[index].page_ref.index % 512 == 0,
        avoids_maps(plan.pages[index].page_ref.index as int, 512),
        plan.pages[index].page_ref.index + 512 <= plan.pages[next].page_ref.index,
        plan.pages[index].page_ref.block.value < plan.pages[next].page_ref.block.value,
{
    let page = plan.pages[index];
    assert(btree_laws::page_fits(page.data));
    assert(plan.pages[next].page_ref.index >= page.page_ref.index + 512);
    lemma_avoids_maps(page.page_ref.index as int, 512);
}

/// A data block of a template is written where it stands, with its decoded bytes, under its identifier.
pub proof fn law_plain_block(entry: UnicodeBlockBTreeEntry, data: Seq<u8>)
    requires
        data.len() == entry.size,
        1 <= entry.size <= 8176,
    ensures
        ({
            let block = template::plain_contents(entry, data);
            let written = encoding::block_bytes(block);
            &&& block.offset == entry.block.index
            &&& written.take(entry.size as int) == data
            &&& bytes::get16(written, written.len() - 16) == entry.size
            &&& bytes::get64(written, written.len() - 8) == entry.block.block.value
        }),
{
    let block = template::plain_contents(entry, data);
    trailer_laws::law_block_takes_slots(block);
    trailer_laws::law_block_says_what_it_is(block);
    assert(encoding_laws::is_block(
        encoding::block_bytes(block).take(entry.size as int),
        block.data,
    ));
}

/// The data blocks of a file are those whose identifiers have no mark of a tree, in their order.
pub proof fn law_data_blocks(
    entries: Seq<UnicodeBlockBTreeEntry>,
    entry: UnicodeBlockBTreeEntry,
)
    ensures
        template::data_entries(entries).contains(entry) <==> entries.contains(entry)
            && entry.block.block.value / 2 % 2 == 0,
        template::data_entries(entries).len() <= entries.len(),
    decreases entries.len(),
{
    reveal(Seq::filter);
    let keep = |entry: UnicodeBlockBTreeEntry| !entry.block.block.spec_is_internal();
    if entries.len() > 0 {
        let rest = entries.drop_last();
        law_data_blocks(rest, entry);
        let kept = rest.filter(keep);
        if entries.contains(entry) {
            let i = entries.index_of(entry);
            if i < rest.len() {
                assert(rest[i] == entry);
            }
        }
        if rest.contains(entry) {
            assert(entries[rest.index_of(entry)] == entry);
        }
        assert(entries.last() == entries[entries.len() - 1]);
        if keep(entries.last()) {
            let all = kept.push(entries.last());
            assert(template::data_entries(entries) == all);
            if kept.contains(entry) {
                assert(all[kept.index_of(entry)] == entry);
            }
            if all.contains(entry) && entry != entries.last() {
                assert(kept[all.index_of(entry)] == entry);
            }
            assert(all[kept.len() as int] == entries.last());
        } else {
            assert(template::data_entries(entries) == kept);
        }
    }
}

} // verus!
