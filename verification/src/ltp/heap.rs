//! Heaps on nodes: allocations packed into data blocks.
//!
//! A heap is a sequence of pages. Slot 0 of a page stands for the page header; the slots after it
//! hold the allocations, and a [`HeapId`] names one of them by page and slot.

use vstd::prelude::*;

use crate::bytes;
use crate::error::{IoError, PstError};

verus! {

/// The largest payload of a data block.
pub const MAX_DATA_BLOCK_SIZE: usize = 8176;

/// The largest heap allocation.
pub const MAX_HEAP_ALLOCATION_SIZE: usize = 8164;

/// The largest allocation index of a heap page.
pub const MAX_HEAP_INDEX: u16 = 2047;

/// What a heap holds.
#[derive(Clone, Copy, PartialEq, Eq, Debug, Structural)]
pub enum HeapNodeType {
    Table,
    Properties,
}

impl HeapNodeType {
    /// The client signature in the heap header.
    pub open spec fn spec_code(self) -> u8 {
        match self {
            HeapNodeType::Table => 0x7C,
            HeapNodeType::Properties => 0xBC,
        }
    }

    /// The client signature in the heap header.
    pub fn code(self) -> (code: u8)
        ensures
            code == self.spec_code(),
    {
        match self {
            HeapNodeType::Table => 0x7C,
            HeapNodeType::Properties => 0xBC,
        }
    }
}

/// The identifier of a heap allocation.
#[derive(Clone, Copy, PartialEq, Eq, Debug, Structural)]
pub struct HeapId {
    pub value: u32,
}

impl HeapId {
    /// The identifier of slot `index` on page `block`, where the slot fits in 11 bits.
    pub open spec fn spec_new(index: u16, block: u16) -> Result<HeapId, PstError> {
        if index <= MAX_HEAP_INDEX {
            Ok(HeapId { value: (block * 65536 + index * 32) as u32 })
        } else {
            Err(PstError::Io(IoError::InvalidHeapIndex(index)))
        }
    }

    /// The slot that the identifier names.
    pub open spec fn spec_index(self) -> int {
        (self.value % 65536) as int / 32
    }

    /// The page that the identifier names.
    pub open spec fn spec_block(self) -> int {
        self.value as int / 65536
    }

    /// The identifier of slot `index` on page `block`. A slot of more than 11 bits is refused.
    pub fn new(index: u16, block: u16) -> (id: Result<HeapId, PstError>)
        ensures
            id == Self::spec_new(index, block),
    {
        if index <= MAX_HEAP_INDEX {
            Ok(HeapId { value: block as u32 * 65536 + index as u32 * 32 })
        } else {
            Err(PstError::Io(IoError::InvalidHeapIndex(index)))
        }
    }

    /// The identifier that names no allocation.
    pub fn none() -> (id: HeapId)
        ensures
            id == (HeapId { value: 0 }),
    {
        HeapId { value: 0 }
    }
}

/// A heap identifier names the slot and the page it was made with.
pub proof fn law_heap_id_round_trip(index: u16, block: u16)
    requires
        index <= MAX_HEAP_INDEX,
    ensures
        HeapId::spec_new(index, block) matches Ok(id) && id.spec_index() == index
            && id.spec_block() == block,
{
}

/// The identifier of an allocation on the first page.
pub open spec fn spec_heap_id(allocation_index: nat) -> Result<HeapId, PstError> {
    if allocation_index <= u16::MAX {
        HeapId::spec_new(allocation_index as u16, 0)
    } else {
        Err(PstError::IntegerConversion)
    }
}

/// The identifier of an allocation on the first page.
pub fn heap_id(allocation_index: usize) -> (id: Result<HeapId, PstError>)
    ensures
        id == spec_heap_id(allocation_index as nat),
{
    if allocation_index <= u16::MAX as usize {
        HeapId::new(allocation_index as u16, 0)
    } else {
        Err(PstError::IntegerConversion)
    }
}

/// The smallest even number that is at least `size`.
pub open spec fn round_to_even(size: nat) -> nat {
    size + size % 2
}

/// The header of the first heap page.
pub open spec fn heap_node_header(
    page_map_offset: u16,
    client_signature: HeapNodeType,
    user_root: HeapId,
) -> Seq<u8> {
    bytes::le16(page_map_offset) + seq![0xECu8, client_signature.spec_code()] + bytes::le32(
        user_root.value,
    ) + bytes::zeros(4)
}

/// The size of the header of heap page `page`.
pub open spec fn spec_header_size(page: int) -> nat {
    if page == 0 {
        12
    } else if page % 128 == 8 {
        66
    } else {
        2
    }
}

/// The header of heap page `page`. Every eighth page of 128 also holds a map of fill levels, which
/// is left empty.
pub open spec fn heap_page_header(
    page: int,
    page_map_offset: u16,
    client_signature: HeapNodeType,
    user_root: HeapId,
) -> Seq<u8> {
    if page == 0 {
        heap_node_header(page_map_offset, client_signature, user_root)
    } else if page % 128 == 8 {
        bytes::le16(page_map_offset) + bytes::zeros(64)
    } else {
        bytes::le16(page_map_offset)
    }
}

/// The end offsets of the first `count` slots, the header in slot 0 among them.
pub open spec fn slot_offsets(slots: Seq<Seq<u8>>, count: nat) -> Seq<u8>
    decreases count,
{
    if count == 0 {
        Seq::empty()
    } else {
        slot_offsets(slots, (count - 1) as nat) + bytes::le16(
            bytes::length_prefix(slots, count) as u16,
        )
    }
}

/// The number of empty slots after slot 0 among the first `count`.
pub open spec fn empty_slots(slots: Seq<Seq<u8>>, count: nat) -> nat
    decreases count,
{
    if count <= 1 {
        0
    } else {
        empty_slots(slots, (count - 1) as nat) + if slots[count - 1].len() == 0 {
            1nat
        } else {
            0nat
        }
    }
}

/// The bytes of a heap page: its slots, padding to an even offset, and the page map with the
/// number of allocations, the number of freed ones and the offsets.
pub open spec fn heap_page(slots: Seq<Seq<u8>>, free_count: u16) -> Seq<u8> {
    bytes::zero_padded(bytes::concat(slots), round_to_even(bytes::total_length(slots)))
        + bytes::le16((slots.len() - 1) as u16) + bytes::le16(free_count) + slot_offsets(
        slots,
        slots.len(),
    )
}

/// The number of bytes in the slots after slot 0.
pub open spec fn allocated_length(slots: Seq<Seq<u8>>) -> int {
    bytes::total_length(slots) - slots[0].len()
}

/// `slots` with an allocation that fills the page up to the size of a data block, where the page is
/// not the last one and not full.
pub open spec fn filled_slots(page: int, last: bool, slots: Seq<Seq<u8>>) -> Result<
    Seq<Seq<u8>>,
    PstError,
> {
    let encoded_size = spec_header_size(page) + allocated_length(slots) + 4 + 2 * slots.len();
    if last || encoded_size == MAX_DATA_BLOCK_SIZE {
        Ok(slots)
    } else if encoded_size > MAX_DATA_BLOCK_SIZE {
        Err(PstError::Io(IoError::HeapPageTooLarge))
    } else if encoded_size + 2 > MAX_DATA_BLOCK_SIZE {
        Err(PstError::Io(IoError::HeapPageHasNoPaddingRoom))
    } else {
        Ok(slots.push(bytes::zeros((MAX_DATA_BLOCK_SIZE - encoded_size - 2) as nat)))
    }
}

/// The bytes of heap page `page`, whose slots are given.
pub open spec fn finished_page(
    page: int,
    last: bool,
    slots: Seq<Seq<u8>>,
    client_signature: HeapNodeType,
    user_root: HeapId,
) -> Result<Seq<u8>, PstError> {
    match filled_slots(page, last, slots) {
        Err(error) => Err(error),
        Ok(slots) => {
            let page_map_offset = round_to_even(
                (spec_header_size(page) + allocated_length(slots)) as nat,
            );
            if page_map_offset > u16::MAX || slots.len() - 1 > u16::MAX {
                Err(PstError::IntegerConversion)
            } else {
                let header = heap_page_header(
                    page,
                    page_map_offset as u16,
                    client_signature,
                    user_root,
                );
                let data = heap_page(
                    slots.update(0, header),
                    empty_slots(slots, slots.len()) as u16,
                );
                if data.len() > MAX_DATA_BLOCK_SIZE {
                    Err(PstError::Io(IoError::HeapPageTooLarge))
                } else {
                    Ok(data)
                }
            }
        },
    }
}

/// The bytes of the heap pages from `page` on, after those in `done`; or the error of the first
/// page that has one.
pub open spec fn finished_pages(
    pages: Seq<Seq<Seq<u8>>>,
    page: int,
    done: Seq<Seq<u8>>,
    client_signature: HeapNodeType,
    user_root: HeapId,
) -> Result<Seq<Seq<u8>>, PstError>
    decreases pages.len() - page,
{
    if page >= pages.len() {
        Ok(done)
    } else {
        match finished_page(
            page,
            page + 1 == pages.len(),
            pages[page],
            client_signature,
            user_root,
        ) {
            Err(error) => Err(error),
            Ok(data) => finished_pages(
                pages,
                page + 1,
                done.push(data),
                client_signature,
                user_root,
            ),
        }
    }
}

/// The bytes of a heap of one page with the given slots. The header follows what slot 0 holds.
pub open spec fn spec_finish_heap(
    slots: Seq<Seq<u8>>,
    client_signature: HeapNodeType,
    user_root: HeapId,
) -> Result<Seq<u8>, PstError> {
    let page_map_offset = round_to_even(bytes::total_length(slots) + 12);
    if page_map_offset > u16::MAX || slots.len() - 1 > u16::MAX {
        Err(PstError::IntegerConversion)
    } else {
        let header = heap_node_header(page_map_offset as u16, client_signature, user_root);
        Ok(heap_page(slots.update(0, slots[0] + header), 0))
    }
}

/// Whether an allocation of `size` bytes fits on heap page `page` beside its slots, with room for
/// the padding allocation of a page that is not the last one and one byte of alignment.
pub open spec fn heap_fits(page: int, slots: Seq<Seq<u8>>, size: nat) -> bool {
    spec_header_size(page) + bytes::total_length(slots) + size + 4 + 2 * (slots.len() + 2) + 2
        < MAX_DATA_BLOCK_SIZE
}

/// `pages` with `data` in a new slot of the last page, and the identifier of that slot.
pub open spec fn heap_store(pages: Seq<Seq<Seq<u8>>>, data: Seq<u8>) -> (
    Seq<Seq<Seq<u8>>>,
    Result<HeapId, PstError>,
) {
    let page = pages.len() - 1;
    let slot = pages[page].len();
    if slot > u16::MAX || page > u16::MAX {
        (pages, Err(PstError::IntegerConversion))
    } else {
        match HeapId::spec_new(slot as u16, page as u16) {
            Ok(id) => (pages.update(page, pages[page].push(data)), Ok(id)),
            Err(error) => (pages, Err(error)),
        }
    }
}

/// `pages` with `data` allocated on the last page, or on a new one where it does not fit there, and
/// the identifier of the allocation.
pub open spec fn heap_alloc(pages: Seq<Seq<Seq<u8>>>, data: Seq<u8>) -> (
    Seq<Seq<Seq<u8>>>,
    Result<HeapId, PstError>,
) {
    if data.len() > MAX_HEAP_ALLOCATION_SIZE {
        (pages, Err(PstError::Io(IoError::HeapAllocationTooLarge)))
    } else if heap_fits(pages.len() - 1, pages.last(), data.len()) {
        heap_store(pages, data)
    } else {
        let grown = pages.push(seq![Seq::empty()]);
        if heap_fits(pages.len() as int, grown.last(), data.len()) {
            heap_store(grown, data)
        } else {
            (grown, Err(PstError::Io(IoError::HeapAllocationDoesNotFit)))
        }
    }
}

/// A heap has at least one page, and every page has its header slot.
pub open spec fn heap_wf(pages: Seq<Seq<Seq<u8>>>) -> bool {
    &&& pages.len() > 0
    &&& forall|i: int| 0 <= i < pages.len() ==> (#[trigger] pages[i]).len() > 0
}

/// The contents of heap pages.
pub open spec fn page_views(pages: Seq<Vec<Vec<u8>>>) -> Seq<Seq<Seq<u8>>> {
    Seq::new(pages.len(), |i: int| bytes::views(pages[i]@))
}

/// The pages of an empty heap.
pub open spec fn empty_heap() -> Seq<Seq<Seq<u8>>> {
    seq![seq![Seq::empty()]]
}

proof fn lemma_update_first(slots: Seq<Seq<u8>>, header: Seq<u8>, count: nat)
    requires
        1 <= count <= slots.len(),
    ensures
        bytes::length_prefix(slots.update(0, header), count) == bytes::length_prefix(slots, count)
            - slots[0].len() + header.len(),
    decreases count,
{
    if count > 1 {
        lemma_update_first(slots, header, (count - 1) as nat);
    } else {
        assert(bytes::length_prefix(slots, 0) == 0);
        assert(bytes::length_prefix(slots.update(0, header), 0) == 0);
    }
}

proof fn lemma_empty_slots(left: Seq<Seq<u8>>, right: Seq<Seq<u8>>, count: nat)
    requires
        count <= left.len(),
        left.len() == right.len(),
        forall|i: int| 1 <= i < left.len() ==> left[i] == right[i],
    ensures
        empty_slots(left, count) == empty_slots(right, count),
        empty_slots(left, count) <= if count == 0 {
            0
        } else {
            count - 1
        },
    decreases count,
{
    if count > 1 {
        lemma_empty_slots(left, right, (count - 1) as nat);
    }
}

proof fn lemma_slot_offsets_length(slots: Seq<Seq<u8>>, count: nat)
    ensures
        slot_offsets(slots, count).len() == 2 * count,
    decreases count,
{
    if count > 0 {
        lemma_slot_offsets_length(slots, (count - 1) as nat);
    }
}

/// The bytes of slot `slot` of a heap page, found through its page map.
pub open spec fn read_slot(data: Seq<u8>, slot: int) -> Option<Seq<u8>> {
    let page_map_offset = bytes::get16(data, 0);
    let count = bytes::get16(data, page_map_offset);
    let start = bytes::get16(data, page_map_offset + 4 + 2 * (slot - 1));
    let end = bytes::get16(data, page_map_offset + 4 + 2 * slot);
    if 1 <= slot <= count && start <= end <= data.len() {
        Some(data.subrange(start, end))
    } else {
        None
    }
}

/// The bytes of the allocation that `id` names in a heap with the given pages.
pub open spec fn read_heap(pages: Seq<Seq<u8>>, id: HeapId) -> Option<Seq<u8>> {
    if id.spec_block() < pages.len() {
        read_slot(pages[id.spec_block()], id.spec_index())
    } else {
        None
    }
}

proof fn lemma_slot_offset(slots: Seq<Seq<u8>>, count: nat, slot: int)
    requires
        0 <= slot < count <= slots.len(),
        bytes::total_length(slots) <= u16::MAX,
    ensures
        slot_offsets(slots, count).len() == 2 * count,
        slot_offsets(slots, count).subrange(2 * slot, 2 * slot + 2) == bytes::le16(
            bytes::length_prefix(slots, (slot + 1) as nat) as u16,
        ),
    decreases count,
{
    lemma_slot_offsets_length(slots, count);
    lemma_slot_offsets_length(slots, (count - 1) as nat);
    let before = slot_offsets(slots, (count - 1) as nat);
    if slot < count - 1 {
        lemma_slot_offset(slots, (count - 1) as nat, slot);
        assert(slot_offsets(slots, count).subrange(2 * slot, 2 * slot + 2) =~= before.subrange(
            2 * slot,
            2 * slot + 2,
        ));
    } else {
        assert(slot_offsets(slots, count).subrange(2 * slot, 2 * slot + 2) =~= bytes::le16(
            bytes::length_prefix(slots, count) as u16,
        ));
    }
}

proof fn lemma_heap_page_reads(slots: Seq<Seq<u8>>, free_count: u16, slot: int)
    requires
        1 <= slot < slots.len() <= 65536,
        round_to_even(bytes::total_length(slots)) <= u16::MAX,
        slots[0].len() >= 2,
        slots[0].subrange(0, 2) == bytes::le16(
            round_to_even(bytes::total_length(slots)) as u16,
        ),
    ensures
        read_slot(heap_page(slots, free_count), slot) == Some(slots[slot]),
        bytes::get16(heap_page(slots, free_count), 0) == round_to_even(bytes::total_length(slots)),
{
    let total = bytes::total_length(slots);
    let data = heap_page(slots, free_count);
    let map = round_to_even(total) as int;
    let body = bytes::concat(slots);
    bytes::lemma_concat_length(slots, slots.len());
    lemma_slot_offsets_length(slots, slots.len());
    bytes::lemma_concat_part(slots, 0, slots.len());
    bytes::lemma_concat_part(slots, slot, slots.len());
    assert(bytes::length_prefix(slots, 0) == 0);
    assert(data.subrange(0, 2) =~= slots[0].subrange(0, 2)) by {
        assert(body.subrange(0, slots[0].len() as int) =~= slots[0]);
        assert(forall|i: int| 0 <= i < 2 ==> data[i] == body[i]);
        assert(forall|i: int|
            0 <= i < 2 ==> body[i] == #[trigger] body.subrange(0, slots[0].len() as int)[i]);
    }
    bytes::lemma_get16_le16(data, 0, map as u16);
    let count = (slots.len() - 1) as u16;
    assert(data.subrange(map, map + 2) =~= bytes::le16(count));
    bytes::lemma_get16_le16(data, map, count);
    let table = slot_offsets(slots, slots.len());
    let start = bytes::length_prefix(slots, slot as nat);
    let end = bytes::length_prefix(slots, (slot + 1) as nat);
    bytes::lemma_length_prefix_monotone(slots, slot as nat, slots.len());
    bytes::lemma_length_prefix_monotone(slots, (slot + 1) as nat, slots.len());
    lemma_slot_offset(slots, slots.len(), slot - 1);
    lemma_slot_offset(slots, slots.len(), slot);
    let low = map + 4 + 2 * (slot - 1);
    let high = map + 4 + 2 * slot;
    assert(data.subrange(low, low + 2) =~= table.subrange(2 * (slot - 1), 2 * (slot - 1) + 2));
    assert(data.subrange(high, high + 2) =~= table.subrange(2 * slot, 2 * slot + 2));
    bytes::lemma_get16_le16(data, low, start as u16);
    bytes::lemma_get16_le16(data, high, end as u16);
    assert(data.subrange(start as int, end as int) =~= body.subrange(start as int, end as int));
}

#[verifier::rlimit(40)]
proof fn lemma_finished_page(
    page: int,
    last: bool,
    slots: Seq<Seq<u8>>,
    client_signature: HeapNodeType,
    user_root: HeapId,
    data: Seq<u8>,
    slot: int,
)
    requires
        0 <= page,
        slots.len() > 0,
        finished_page(page, last, slots, client_signature, user_root) == Ok::<_, PstError>(data),
    ensures
        data.len() <= MAX_DATA_BLOCK_SIZE,
        !last ==> data.len() == MAX_DATA_BLOCK_SIZE,
        bytes::get16(data, 0) % 2 == 0,
        1 <= slot < slots.len() ==> read_slot(data, slot) == Some(slots[slot]),
{
    let filled = filled_slots(page, last, slots)->Ok_0;
    assert(bytes::length_prefix(slots, 0) == 0);
    if filled != slots {
        bytes::lemma_prefix_agrees(slots, filled, slots.len());
    }
    let size = (spec_header_size(page) + allocated_length(filled)) as nat;
    let header = heap_page_header(
        page,
        round_to_even(size) as u16,
        client_signature,
        user_root,
    );
    let parts = filled.update(0, header);
    let free_count = empty_slots(filled, filled.len()) as u16;
    lemma_update_first(filled, header, filled.len());
    lemma_empty_slots(filled, parts, filled.len());
    bytes::lemma_concat_length(parts, parts.len());
    lemma_slot_offsets_length(parts, parts.len());
    assert(bytes::total_length(parts) == size);
    assert(header.subrange(0, 2) =~= bytes::le16(round_to_even(size) as u16));
    if parts.len() > 1 {
        lemma_heap_page_reads(parts, free_count, 1);
    } else {
        assert(bytes::concat_prefix(parts, 0) =~= Seq::empty());
        assert(bytes::concat(parts) =~= header);
        assert(data.subrange(0, 2) =~= header.subrange(0, 2));
        bytes::lemma_get16_le16(data, 0, round_to_even(size) as u16);
    }
    if 1 <= slot < slots.len() {
        lemma_heap_page_reads(parts, free_count, slot);
    }
}

proof fn lemma_finished_pages(
    pages: Seq<Seq<Seq<u8>>>,
    page: int,
    done: Seq<Seq<u8>>,
    client_signature: HeapNodeType,
    user_root: HeapId,
    data: Seq<Seq<u8>>,
)
    requires
        0 <= page <= pages.len(),
        done.len() == page,
        finished_pages(pages, page, done, client_signature, user_root) == Ok::<_, PstError>(data),
    ensures
        data.len() == pages.len(),
        forall|i: int| 0 <= i < page ==> data[i] == done[i],
        forall|i: int|
            page <= i < pages.len() ==> finished_page(
                i,
                i + 1 == pages.len(),
                pages[i],
                client_signature,
                user_root,
            ) == Ok::<_, PstError>(#[trigger] data[i]),
    decreases pages.len() - page,
{
    if page < pages.len() {
        let next = finished_page(
            page,
            page + 1 == pages.len(),
            pages[page],
            client_signature,
            user_root,
        )->Ok_0;
        lemma_finished_pages(
            pages,
            page + 1,
            done.push(next),
            client_signature,
            user_root,
            data,
        );
        assert(data[page] == done.push(next)[page]);
    }
}

/// A finished heap gives back every allocation under its identifier.
pub proof fn law_heap_round_trip(
    pages: Seq<Seq<Seq<u8>>>,
    client_signature: HeapNodeType,
    user_root: HeapId,
    data: Seq<Seq<u8>>,
    page: u16,
    slot: u16,
)
    requires
        heap_wf(pages),
        finished_pages(pages, 0, Seq::empty(), client_signature, user_root) == Ok::<_, PstError>(
            data,
        ),
        page < pages.len(),
        1 <= slot < pages[page as int].len(),
        slot <= MAX_HEAP_INDEX,
    ensures
        HeapId::spec_new(slot, page) matches Ok(id) && read_heap(data, id) == Some(
            pages[page as int][slot as int],
        ),
{
    law_heap_id_round_trip(slot, page);
    lemma_finished_pages(pages, 0, Seq::empty(), client_signature, user_root, data);
    lemma_finished_page(
        page as int,
        page + 1 == pages.len(),
        pages[page as int],
        client_signature,
        user_root,
        data[page as int],
        slot as int,
    );
}

proof fn lemma_heap_page_header(slots: Seq<Seq<u8>>, free_count: u16, index: int)
    requires
        slots.len() > 0,
        0 <= index < slots[0].len(),
    ensures
        index < heap_page(slots, free_count).len(),
        heap_page(slots, free_count)[index] == slots[0][index],
{
    bytes::lemma_concat_length(slots, slots.len());
    bytes::lemma_concat_part(slots, 0, slots.len());
    bytes::lemma_length_prefix_monotone(slots, 1, slots.len());
    assert(bytes::length_prefix(slots, 0) == 0);
    assert(bytes::length_prefix(slots, 1) == slots[0].len());
    let body = bytes::concat(slots);
    assert(body.subrange(0, slots[0].len() as int)[index] == body[index]);
    assert(heap_page(slots, free_count)[index] == body[index]);
}

/// The number of the first `count` allocations of a heap page that a reader finds empty.
pub open spec fn freed_slots(data: Seq<u8>, count: nat) -> nat
    decreases count,
{
    if count == 0 {
        0
    } else {
        freed_slots(data, (count - 1) as nat) + if read_slot(data, count as int) == Some(
            Seq::<u8>::empty(),
        ) {
            1nat
        } else {
            0nat
        }
    }
}

proof fn lemma_freed_slots(data: Seq<u8>, slots: Seq<Seq<u8>>, count: nat)
    requires
        count < slots.len(),
        forall|slot: int|
            1 <= slot < slots.len() ==> read_slot(data, slot) == Some(#[trigger] slots[slot]),
    ensures
        freed_slots(data, count) == empty_slots(slots, count + 1),
        empty_slots(slots, count + 1) <= count,
    decreases count,
{
    if count > 0 {
        lemma_freed_slots(data, slots, (count - 1) as nat);
        assert(read_slot(data, count as int) == Some(slots[count as int]));
        if slots[count as int].len() == 0 {
            assert(slots[count as int] =~= Seq::<u8>::empty());
        }
    }
}

proof fn lemma_page_map(slots: Seq<Seq<u8>>, free_count: u16)
    requires
        slots.len() <= 65536,
        round_to_even(bytes::total_length(slots)) <= u16::MAX,
    ensures
        ({
            let map = round_to_even(bytes::total_length(slots)) as int;
            let data = heap_page(slots, free_count);
            &&& bytes::get16(data, map) == slots.len() - 1 || slots.len() == 0
            &&& bytes::get16(data, map + 2) == free_count
        }),
{
    let map = round_to_even(bytes::total_length(slots)) as int;
    let data = heap_page(slots, free_count);
    bytes::lemma_concat_length(slots, slots.len());
    let count = (slots.len() - 1) as u16;
    assert(data.subrange(map, map + 2) =~= bytes::le16(count));
    bytes::lemma_get16_le16(data, map, count);
    assert(data.subrange(map + 2, map + 4) =~= bytes::le16(free_count));
    bytes::lemma_get16_le16(data, map + 2, free_count);
}

/// The page map of a page with `header` in front of its allocations.
proof fn lemma_filled_counts(
    filled: Seq<Seq<u8>>,
    header: Seq<u8>,
    map: u16,
    free_count: u16,
)
    requires
        1 < filled.len() <= 65536,
        header.len() >= 2,
        header.subrange(0, 2) == bytes::le16(map),
        map == round_to_even(bytes::total_length(filled.update(0, header))),
        free_count == empty_slots(filled, filled.len()) as u16,
    ensures
        ({
            let data = heap_page(filled.update(0, header), free_count);
            &&& bytes::get16(data, 0) == map
            &&& bytes::get16(data, map as int) == filled.len() - 1
            &&& bytes::get16(data, map + 2) == freed_slots(data, (filled.len() - 1) as nat)
        }),
{
    let parts = filled.update(0, header);
    let data = heap_page(parts, free_count);
    assert forall|slot: int| 1 <= slot < filled.len() implies read_slot(data, slot) == Some(
        #[trigger] filled[slot],
    ) by {
        lemma_heap_page_reads(parts, free_count, slot);
    }
    assert(bytes::get16(data, 0) == map) by {
        lemma_heap_page_reads(parts, free_count, 1);
    }
    lemma_page_map(parts, free_count);
    lemma_freed_slots(data, filled, (filled.len() - 1) as nat);
}

proof fn lemma_finished_page_counts(
    page: int,
    last: bool,
    slots: Seq<Seq<u8>>,
    client_signature: HeapNodeType,
    user_root: HeapId,
    data: Seq<u8>,
)
    requires
        0 <= page,
        slots.len() > 1,
        finished_page(page, last, slots, client_signature, user_root) == Ok::<_, PstError>(data),
    ensures
        ({
            let map = bytes::get16(data, 0);
            let count = bytes::get16(data, map);
            &&& slots.len() - 1 <= count <= slots.len()
            &&& bytes::get16(data, map + 2) == freed_slots(data, count as nat)
        }),
{
    let filled = filled_slots(page, last, slots)->Ok_0;
    assert(bytes::length_prefix(slots, 0) == 0);
    if filled != slots {
        bytes::lemma_prefix_agrees(slots, filled, slots.len());
    }
    let size = (spec_header_size(page) + allocated_length(filled)) as nat;
    let map = round_to_even(size) as u16;
    let header = heap_page_header(page, map, client_signature, user_root);
    let free_count = empty_slots(filled, filled.len()) as u16;
    lemma_update_first(filled, header, filled.len());
    assert(header.subrange(0, 2) =~= bytes::le16(map));
    lemma_filled_counts(filled, header, map, free_count);
}

/// The page map of every page of a finished heap says how many allocations the page has, and how many of them are empty.
pub proof fn law_heap_page_counts(
    pages: Seq<Seq<Seq<u8>>>,
    client_signature: HeapNodeType,
    user_root: HeapId,
    data: Seq<Seq<u8>>,
    page: int,
)
    requires
        heap_wf(pages),
        finished_pages(pages, 0, Seq::empty(), client_signature, user_root) == Ok::<_, PstError>(
            data,
        ),
        0 <= page < pages.len(),
        pages[page].len() > 1,
    ensures
        ({
            let map = bytes::get16(data[page], 0);
            let count = bytes::get16(data[page], map);
            &&& pages[page].len() - 1 <= count <= pages[page].len()
            &&& bytes::get16(data[page], map + 2) == freed_slots(data[page], count as nat)
        }),
{
    lemma_finished_pages(pages, 0, Seq::empty(), client_signature, user_root, data);
    lemma_finished_page_counts(
        page,
        page + 1 == pages.len(),
        pages[page],
        client_signature,
        user_root,
        data[page],
    );
}

/// The identifier of a heap allocation is the number of its page above 16 bits with its slot above five, and a reader
/// finds the allocation there.
pub proof fn law_heap_id_says_place(index: u16, block: u16, pages: Seq<Seq<u8>>)
    requires
        index <= 2047,
    ensures
        HeapId::spec_new(index, block) matches Ok(id) && id.value == 65536 * block + 32 * index
            && read_heap(pages, id) == (if block < pages.len() {
            read_slot(pages[block as int], index as int)
        } else {
            None
        }),
{
    law_heap_id_round_trip(index, block);
}

/// The header of a finished heap names its client and its root.
pub proof fn law_heap_header(
    pages: Seq<Seq<Seq<u8>>>,
    client_signature: HeapNodeType,
    user_root: HeapId,
    data: Seq<Seq<u8>>,
)
    requires
        heap_wf(pages),
        finished_pages(pages, 0, Seq::empty(), client_signature, user_root) == Ok::<_, PstError>(
            data,
        ),
    ensures
        data.len() == pages.len(),
        data[0].len() >= 12,
        data[0][2] == 0xEC,
        data[0][3] == client_signature.spec_code(),
        data[0][3] == (match client_signature {
            HeapNodeType::Table => 0x7Cu8,
            HeapNodeType::Properties => 0xBCu8,
        }),
        bytes::get32(data[0], 4) == user_root.value,
{
    lemma_finished_pages(pages, 0, Seq::empty(), client_signature, user_root, data);
    let last = 1 == pages.len();
    assert(finished_page(0, last, pages[0], client_signature, user_root) == Ok::<_, PstError>(
        data[0],
    ));
    let filled = filled_slots(0, last, pages[0])->Ok_0;
    let offset = round_to_even((spec_header_size(0) + allocated_length(filled)) as nat);
    let header = heap_node_header(offset as u16, client_signature, user_root);
    let slots = filled.update(0, header);
    let free_count = empty_slots(filled, filled.len()) as u16;
    assert(data[0] == heap_page(slots, free_count));
    lemma_heap_page_header(slots, free_count, 11);
    lemma_heap_page_header(slots, free_count, 2);
    lemma_heap_page_header(slots, free_count, 3);
    lemma_heap_page_header(slots, free_count, 4);
    lemma_heap_page_header(slots, free_count, 5);
    lemma_heap_page_header(slots, free_count, 6);
    lemma_heap_page_header(slots, free_count, 7);
    assert(header.subrange(4, 8) =~= bytes::le32(user_root.value));
    bytes::lemma_get32_le32(header, 4, user_root.value);
}

/// A heap of one page gives back every slot, and its header names its client and its root.
pub proof fn law_single_page_heap(
    slots: Seq<Seq<u8>>,
    client_signature: HeapNodeType,
    user_root: HeapId,
    data: Seq<u8>,
    slot: int,
)
    requires
        spec_finish_heap(slots, client_signature, user_root) == Ok::<_, PstError>(data),
        1 <= slot < slots.len(),
        slots[0].len() == 0,
    ensures
        read_slot(data, slot) == Some(slots[slot]),
        data[2] == 0xEC,
        data[3] == client_signature.spec_code(),
        data[3] == (match client_signature {
            HeapNodeType::Table => 0x7Cu8,
            HeapNodeType::Properties => 0xBCu8,
        }),
        bytes::get32(data, 4) == user_root.value,
{
    let offset = round_to_even(bytes::total_length(slots) + 12);
    let header = heap_node_header(offset as u16, client_signature, user_root);
    assert(slots[0] + header =~= header);
    let parts = slots.update(0, header);
    lemma_update_first(slots, header, slots.len());
    assert(header.subrange(0, 2) =~= bytes::le16(offset as u16));
    lemma_heap_page_reads(parts, 0, slot);
    lemma_heap_page_header(parts, 0, 2);
    lemma_heap_page_header(parts, 0, 3);
    lemma_heap_page_header(parts, 0, 4);
    lemma_heap_page_header(parts, 0, 5);
    lemma_heap_page_header(parts, 0, 6);
    lemma_heap_page_header(parts, 0, 7);
    assert(header.subrange(4, 8) =~= bytes::le32(user_root.value));
    bytes::lemma_get32_le32(header, 4, user_root.value);
}

/// Every page of a finished heap fits in a data block and has its page map at an even offset, and
/// every page but the last fills a data block exactly.
pub proof fn law_heap_page_sizes(
    pages: Seq<Seq<Seq<u8>>>,
    client_signature: HeapNodeType,
    user_root: HeapId,
    data: Seq<Seq<u8>>,
    page: int,
)
    requires
        heap_wf(pages),
        finished_pages(pages, 0, Seq::empty(), client_signature, user_root) == Ok::<_, PstError>(
            data,
        ),
        0 <= page < pages.len(),
    ensures
        data.len() == pages.len(),
        data[page].len() <= MAX_DATA_BLOCK_SIZE,
        page + 1 < pages.len() ==> data[page].len() == MAX_DATA_BLOCK_SIZE,
        bytes::get16(data[page], 0) % 2 == 0,
{
    lemma_finished_pages(pages, 0, Seq::empty(), client_signature, user_root, data);
    lemma_finished_page(
        page,
        page + 1 == pages.len(),
        pages[page],
        client_signature,
        user_root,
        data[page],
        0,
    );
}

/// Every page of a finished heap has bytes.
pub proof fn law_heap_page_not_empty(
    pages: Seq<Seq<Seq<u8>>>,
    client_signature: HeapNodeType,
    user_root: HeapId,
    data: Seq<Seq<u8>>,
    page: int,
)
    requires
        heap_wf(pages),
        finished_pages(pages, 0, Seq::empty(), client_signature, user_root) == Ok::<_, PstError>(
            data,
        ),
        0 <= page < pages.len(),
    ensures
        data[page].len() > 0,
{
    lemma_finished_pages(pages, 0, Seq::empty(), client_signature, user_root, data);
    let last = page + 1 == pages.len();
    assert(finished_page(page, last, pages[page], client_signature, user_root) == Ok::<
        _,
        PstError,
    >(data[page]));
    let filled = filled_slots(page, last, pages[page])->Ok_0;
    let offset = round_to_even((spec_header_size(page) + allocated_length(filled)) as nat);
    let header = heap_page_header(page, offset as u16, client_signature, user_root);
    lemma_heap_page_header(filled.update(0, header), empty_slots(filled, filled.len()) as u16, 0);
}

/// An allocation keeps every earlier allocation where it was and stores the new one under the
/// identifier it returns.
pub proof fn law_alloc_keeps_allocations(pages: Seq<Seq<Seq<u8>>>, data: Seq<u8>)
    requires
        heap_wf(pages),
    ensures
        ({
            let (after, result) = heap_alloc(pages, data);
            &&& heap_wf(after)
            &&& after.len() >= pages.len()
            &&& forall|page: int, slot: int|
                0 <= page < pages.len() && 0 <= slot < pages[page].len() ==> slot
                    < after[page].len() && #[trigger] after[page][slot] == pages[page][slot]
            &&& result matches Ok(id) ==> id.spec_block() == after.len() - 1 && id.spec_index()
                == after.last().len() - 1 && after.last().last() == data
        }),
{
}

/// Every page leaves room for its padding allocation.
pub open spec fn heap_packed(pages: Seq<Seq<Seq<u8>>>) -> bool {
    forall|page: int|
        0 <= page < pages.len() ==> spec_header_size(page) + bytes::total_length(
            #[trigger] pages[page],
        ) + 4 + 2 * (pages[page].len() + 1) + 2 < MAX_DATA_BLOCK_SIZE && pages[page].len() > 0
}

/// An empty heap is packed, and allocations keep it packed.
pub proof fn law_alloc_keeps_packed(pages: Seq<Seq<Seq<u8>>>, data: Seq<u8>)
    requires
        heap_wf(pages),
        heap_packed(pages),
    ensures
        heap_packed(empty_heap()),
        heap_packed(heap_alloc(pages, data).0),
{
    let fresh = seq![Seq::<u8>::empty()];
    assert(bytes::length_prefix(fresh, 1) == 0) by {
        assert(bytes::length_prefix(fresh, 0) == 0);
    }
    let last = pages.last().push(data);
    bytes::lemma_prefix_agrees(pages.last(), last, pages.last().len());
    assert(bytes::total_length(last) == bytes::total_length(pages.last()) + data.len());
    let second = fresh.push(data);
    bytes::lemma_prefix_agrees(fresh, second, 1);
    assert(bytes::total_length(second) == data.len());
}

proof fn lemma_packed_finishes(
    pages: Seq<Seq<Seq<u8>>>,
    page: int,
    done: Seq<Seq<u8>>,
    client_signature: HeapNodeType,
    user_root: HeapId,
)
    requires
        0 <= page <= pages.len(),
        heap_packed(pages),
    ensures
        finished_pages(pages, page, done, client_signature, user_root) is Ok,
    decreases pages.len() - page,
{
    if page < pages.len() {
        let slots = pages[page];
        let last = page + 1 == pages.len();
        let filled = filled_slots(page, last, slots)->Ok_0;
        bytes::lemma_length_prefix_monotone(slots, 1, slots.len());
        assert(bytes::length_prefix(slots, 1) == bytes::length_prefix(slots, 0) + slots[0].len());
        if !last {
            bytes::lemma_prefix_agrees(slots, filled, slots.len());
        }
        let header = heap_page_header(
            page,
            round_to_even((spec_header_size(page) + allocated_length(filled)) as nat) as u16,
            client_signature,
            user_root,
        );
        let parts = filled.update(0, header);
        lemma_update_first(filled, header, filled.len());
        bytes::lemma_concat_length(parts, parts.len());
        lemma_slot_offsets_length(parts, parts.len());
        let data = finished_page(page, last, slots, client_signature, user_root)->Ok_0;
        lemma_packed_finishes(pages, page + 1, done.push(data), client_signature, user_root);
    }
}

/// A packed heap can be finished.
pub proof fn law_packed_heap_finishes(
    pages: Seq<Seq<Seq<u8>>>,
    client_signature: HeapNodeType,
    user_root: HeapId,
)
    requires
        heap_packed(pages),
    ensures
        finished_pages(pages, 0, Seq::empty(), client_signature, user_root) is Ok,
{
    lemma_packed_finishes(pages, 0, Seq::empty(), client_signature, user_root);
}

/// The header of the first heap page.
fn encode_heap_node_header(
    page_map_offset: u16,
    client_signature: HeapNodeType,
    user_root: HeapId,
) -> (header: Vec<u8>)
    ensures
        header@ == heap_node_header(page_map_offset, client_signature, user_root),
{
    let mut header: Vec<u8> = Vec::new();
    bytes::push_u16(&mut header, page_map_offset);
    header.push(0xEC);
    header.push(client_signature.code());
    bytes::push_u32(&mut header, user_root.value);
    bytes::push_zeros(&mut header, 4);
    assert(header@ =~= heap_node_header(page_map_offset, client_signature, user_root));
    header
}

/// The bytes of a heap page.
fn encode_heap_page(slots: &Vec<Vec<u8>>, free_count: u16) -> (data: Vec<u8>)
    requires
        1 <= slots@.len() <= 65536,
        round_to_even(bytes::total_length(bytes::views(slots@))) <= u16::MAX,
    ensures
        data@ == heap_page(bytes::views(slots@), free_count),
{
    let ghost parts = bytes::views(slots@);
    let mut data: Vec<u8> = Vec::new();
    let mut offsets: Vec<u8> = Vec::new();
    let mut i: usize = 0;
    while i < slots.len()
        invariant
            i <= slots@.len(),
            parts == bytes::views(slots@),
            parts.len() == slots@.len(),
            round_to_even(bytes::total_length(parts)) <= u16::MAX,
            data@ == bytes::concat_prefix(parts, i as nat),
            offsets@ == slot_offsets(parts, i as nat),
        decreases slots@.len() - i,
    {
        assert(parts[i as int] == slots@[i as int]@);
        bytes::push_bytes(&mut data, slots[i].as_slice());
        i += 1;
        proof {
            bytes::lemma_concat_length(parts, i as nat);
            bytes::lemma_length_prefix_monotone(parts, i as nat, parts.len());
        }
        bytes::push_u16(&mut offsets, data.len() as u16);
    }
    proof {
        bytes::lemma_concat_length(parts, parts.len());
    }
    if data.len() % 2 == 1 {
        data.push(0);
    }
    assert(data@ =~= bytes::zero_padded(
        bytes::concat(parts),
        round_to_even(bytes::total_length(parts)),
    ));
    bytes::push_u16(&mut data, (slots.len() - 1) as u16);
    bytes::push_u16(&mut data, free_count);
    bytes::push_bytes(&mut data, offsets.as_slice());
    data
}

/// The bytes of a heap of one page, whose allocations follow the empty slot 0.
pub fn finish_heap(
    allocations: Vec<Vec<u8>>,
    client_signature: HeapNodeType,
    user_root: HeapId,
) -> (data: Result<Vec<u8>, PstError>)
    requires
        allocations@.len() > 0,
    ensures
        crate::error::result_view(data) == spec_finish_heap(
            bytes::views(allocations@),
            client_signature,
            user_root,
        ),
{
    let mut allocations = allocations;
    let ghost before = bytes::views(allocations@);
    proof {
        assert(bytes::length_prefix(before, 0) == 0);
    }
    let total: usize = bytes::saturating_total(&allocations, 0);
    if total > 65534 - 12 || allocations.len() > 65536 {
        return Err(PstError::IntegerConversion);
    }
    let size: usize = total + 12;
    let page_map_offset: u16 = (size + size % 2) as u16;
    let header = encode_heap_node_header(page_map_offset, client_signature, user_root);
    let mut first: Vec<u8> = Vec::new();
    bytes::push_bytes(&mut first, allocations[0].as_slice());
    bytes::push_bytes(&mut first, header.as_slice());
    allocations.set(0, first);
    proof {
        assert(first@ =~= before[0] + header@);
        assert(bytes::views(allocations@) =~= before.update(0, before[0] + header@));
        lemma_update_first(before, before[0] + header@, before.len());
    }
    Ok(encode_heap_page(&allocations, 0))
}

/// Whether an allocation of `size` bytes fits on heap page `page`.
fn page_has_room(page: usize, slots: &Vec<Vec<u8>>, size: usize) -> (fits: bool)
    requires
        size <= MAX_HEAP_ALLOCATION_SIZE,
    ensures
        fits == heap_fits(page as int, bytes::views(slots@), size as nat),
{
    proof {
        assert(bytes::length_prefix(bytes::views(slots@), 0) == 0);
    }
    let used: usize = bytes::saturating_total(slots, 0);
    if used >= MAX_DATA_BLOCK_SIZE || slots.len() >= MAX_DATA_BLOCK_SIZE {
        return false;
    }
    HeapBuilder::header_size(page) + used + size + 4 + 2 * (slots.len() + 2) + 2
        < MAX_DATA_BLOCK_SIZE
}

/// Collects allocations into heap pages.
pub struct HeapBuilder {
    pub pages: Vec<Vec<Vec<u8>>>,
}

impl View for HeapBuilder {
    type V = Seq<Seq<Seq<u8>>>;

    open spec fn view(&self) -> Seq<Seq<Seq<u8>>> {
        page_views(self.pages@)
    }
}

impl HeapBuilder {
    /// An empty heap.
    pub fn new() -> (builder: HeapBuilder)
        ensures
            builder@ == empty_heap(),
            heap_wf(builder@),
    {
        let mut page: Vec<Vec<u8>> = Vec::new();
        page.push(Vec::new());
        let mut pages: Vec<Vec<Vec<u8>>> = Vec::new();
        pages.push(page);
        let builder = HeapBuilder { pages };
        assert(bytes::views(page@) =~= seq![Seq::empty()]);
        assert(builder@ =~= empty_heap());
        builder
    }

    /// A heap with the given pages.
    pub fn from_pages(pages: Vec<Vec<Vec<u8>>>) -> (builder: HeapBuilder)
        ensures
            builder@ == page_views(pages@),
    {
        HeapBuilder { pages }
    }

    /// The size of the header of heap page `page`.
    pub fn header_size(page: usize) -> (size: usize)
        ensures
            size == spec_header_size(page as int),
    {
        if page == 0 {
            12
        } else if page % 128 == 8 {
            66
        } else {
            2
        }
    }

    /// Stores `data` in a new slot of the last page.
    fn store(&mut self, data: Vec<u8>) -> (id: Result<HeapId, PstError>)
        requires
            heap_wf(old(self)@),
        ensures
            (final(self)@, id) == heap_store(old(self)@, data@),
            heap_wf(final(self)@),
    {
        let page: usize = self.pages.len() - 1;
        assert(self@[page as int] == bytes::views(self.pages@[page as int]@));
        let slot: usize = self.pages[page].len();
        if slot > u16::MAX as usize || page > u16::MAX as usize {
            return Err(PstError::IntegerConversion);
        }
        let id = HeapId::new(slot as u16, page as u16)?;
        match self.pages.pop() {
            Some(mut last) => {
                let ghost before = bytes::views(last@);
                last.push(data);
                assert(bytes::views(last@) =~= before.push(data@));
                self.pages.push(last);
            },
            None => {},
        }
        assert(self@ =~= heap_store(old(self)@, data@).0);
        Ok(id)
    }

    /// Allocates `data` on the last page, or on a new one where it does not fit there.
    pub fn allocate(&mut self, data: Vec<u8>) -> (id: Result<HeapId, PstError>)
        requires
            heap_wf(old(self)@),
        ensures
            (final(self)@, id) == heap_alloc(old(self)@, data@),
            heap_wf(final(self)@),
    {
        if data.len() > MAX_HEAP_ALLOCATION_SIZE {
            return Err(PstError::Io(IoError::HeapAllocationTooLarge));
        }
        let page: usize = self.pages.len() - 1;
        assert(self@[page as int] == bytes::views(self.pages@[page as int]@));
        if page_has_room(page, &self.pages[page], data.len()) {
            return self.store(data);
        }
        let mut empty: Vec<Vec<u8>> = Vec::new();
        empty.push(Vec::new());
        assert(bytes::views(empty@) =~= seq![Seq::empty()]);
        self.pages.push(empty);
        assert(self@ =~= old(self)@.push(seq![Seq::empty()]));
        if !page_has_room(page + 1, &self.pages[page + 1], data.len()) {
            return Err(PstError::Io(IoError::HeapAllocationDoesNotFit));
        }
        self.store(data)
    }

    /// Fills a page that is not the last one up to the size of a data block.
    fn fill_page(page: usize, slots: Vec<Vec<u8>>) -> (filled: Result<Vec<Vec<u8>>, PstError>)
        requires
            slots@.len() > 0,
        ensures
            crate::error::result_views(filled) == filled_slots(
                page as int,
                false,
                bytes::views(slots@),
            ),
    {
        let mut slots = slots;
        let ghost given = bytes::views(slots@);
        proof {
            assert(bytes::length_prefix(given, 1) == bytes::length_prefix(given, 0) + given[0].len());
        }
        let used: usize = bytes::saturating_total(&slots, 1);
        if used > MAX_DATA_BLOCK_SIZE || slots.len() > MAX_DATA_BLOCK_SIZE {
            return Err(PstError::Io(IoError::HeapPageTooLarge));
        }
        let encoded_size: usize = Self::header_size(page) + used + 4 + 2 * slots.len();
        if encoded_size < MAX_DATA_BLOCK_SIZE {
            if encoded_size + 2 > MAX_DATA_BLOCK_SIZE {
                return Err(PstError::Io(IoError::HeapPageHasNoPaddingRoom));
            }
            let mut padding: Vec<u8> = Vec::new();
            bytes::push_zeros(&mut padding, MAX_DATA_BLOCK_SIZE - encoded_size - 2);
            assert(padding@ =~= bytes::zeros((MAX_DATA_BLOCK_SIZE - encoded_size - 2) as nat));
            slots.push(padding);
            assert(bytes::views(slots@) =~= given.push(padding@));
        } else if encoded_size > MAX_DATA_BLOCK_SIZE {
            return Err(PstError::Io(IoError::HeapPageTooLarge));
        }
        Ok(slots)
    }

    /// The header of heap page `page`.
    fn page_header(
        page: usize,
        page_map_offset: u16,
        client_signature: HeapNodeType,
        user_root: HeapId,
    ) -> (header: Vec<u8>)
        ensures
            header@ == heap_page_header(page as int, page_map_offset, client_signature, user_root),
            header@.len() == spec_header_size(page as int),
    {
        let mut header: Vec<u8> = Vec::new();
        if page == 0 {
            header = encode_heap_node_header(page_map_offset, client_signature, user_root);
        } else {
            bytes::push_u16(&mut header, page_map_offset);
            if page % 128 == 8 {
                bytes::push_zeros(&mut header, 64);
            }
        }
        assert(header@ =~= heap_page_header(
            page as int,
            page_map_offset,
            client_signature,
            user_root,
        ));
        header
    }

    /// The number of empty slots after slot 0.
    fn count_empty(slots: &Vec<Vec<u8>>) -> (count: u16)
        requires
            1 <= slots@.len() <= 65536,
        ensures
            count == empty_slots(bytes::views(slots@), slots@.len()),
    {
        let ghost all = bytes::views(slots@);
        let mut count: u16 = 0;
        let mut i: usize = 1;
        while i < slots.len()
            invariant
                1 <= i <= slots@.len(),
                slots@.len() <= 65536,
                all == bytes::views(slots@),
                count == empty_slots(all, i as nat),
            decreases slots@.len() - i,
        {
            proof {
                lemma_empty_slots(all, all, i as nat);
                assert(all[i as int] == slots@[i as int]@);
            }
            if slots[i].len() == 0 {
                count += 1;
            }
            i += 1;
        }
        count
    }

    /// The bytes of heap page `page`.
    fn finish_page(
        page: usize,
        last: bool,
        slots: Vec<Vec<u8>>,
        client_signature: HeapNodeType,
        user_root: HeapId,
    ) -> (data: Result<Vec<u8>, PstError>)
        requires
            slots@.len() > 0,
        ensures
            crate::error::result_view(data) == finished_page(
                page as int,
                last,
                bytes::views(slots@),
                client_signature,
                user_root,
            ),
    {
        let mut slots = slots;
        if !last {
            slots = Self::fill_page(page, slots)?;
        }
        let ghost filled = bytes::views(slots@);
        assert(bytes::length_prefix(filled, 1) == bytes::length_prefix(filled, 0)
            + filled[0].len());
        let header_size: usize = Self::header_size(page);
        let used: usize = bytes::saturating_total(&slots, 1);
        if used > 65534 - header_size || slots.len() > 65536 {
            return Err(PstError::IntegerConversion);
        }
        let size: usize = header_size + used;
        let page_map_offset: u16 = (size + size % 2) as u16;
        let free_count: u16 = Self::count_empty(&slots);
        let header = Self::page_header(page, page_map_offset, client_signature, user_root);
        slots.set(0, header);
        proof {
            assert(bytes::views(slots@) =~= filled.update(0, header@));
            lemma_update_first(filled, header@, filled.len());
        }
        let data = encode_heap_page(&slots, free_count);
        if data.len() > MAX_DATA_BLOCK_SIZE {
            return Err(PstError::Io(IoError::HeapPageTooLarge));
        }
        Ok(data)
    }

    /// The bytes of every page.
    pub fn finish(self, client_signature: HeapNodeType, user_root: HeapId) -> (data: Result<
        Vec<Vec<u8>>,
        PstError,
    >)
        requires
            heap_wf(self@),
        ensures
            crate::error::result_views(data) == finished_pages(
                self@,
                0,
                Seq::empty(),
                client_signature,
                user_root,
            ),
    {
        let ghost all = self@;
        let mut pages = self.pages;
        let page_count: usize = pages.len();
        let mut finished: Vec<Vec<u8>> = Vec::new();
        assert(bytes::views(finished@) =~= Seq::empty());
        let mut page: usize = 0;
        while page < page_count
            invariant
                page <= page_count,
                page_count == all.len(),
                all == self@,
                pages@.len() == page_count,
                heap_wf(all),
                forall|i: int| page <= i < page_count ==> bytes::views((#[trigger] pages@[i])@) == all[i],
                finished_pages(all, 0, Seq::empty(), client_signature, user_root)
                    == finished_pages(
                    all,
                    page as int,
                    bytes::views(finished@),
                    client_signature,
                    user_root,
                ),
            decreases page_count - page,
        {
            let mut slots: Vec<Vec<u8>> = Vec::new();
            assert(bytes::views(pages@[page as int]@) == all[page as int]);
            std::mem::swap(&mut slots, &mut pages[page]);
            assert(bytes::views(slots@) == all[page as int]);
            let data = Self::finish_page(
                page,
                page + 1 == page_count,
                slots,
                client_signature,
                user_root,
            )?;
            let ghost before = bytes::views(finished@);
            finished.push(data);
            assert(bytes::views(finished@) =~= before.push(data@));
            page += 1;
        }
        Ok(finished)
    }
}

} // verus!
