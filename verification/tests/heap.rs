//! Heaps.

use outlook_pst::error::{IoError, IoErrorKind, PstError};
use outlook_pst::ltp::heap::{
    finish_heap, heap_id, HeapBuilder, HeapId, HeapNodeType, MAX_DATA_BLOCK_SIZE,
    MAX_HEAP_ALLOCATION_SIZE,
};
use outlook_pst::ltp::heap_tree::{build_heap_tree, HeapTreeChild, HeapTreeLayout};

fn u16_at(data: &[u8], at: usize) -> u16 {
    u16::from_le_bytes([data[at], data[at + 1]])
}

fn u32_at(data: &[u8], at: usize) -> u32 {
    u32::from_le_bytes([data[at], data[at + 1], data[at + 2], data[at + 3]])
}

/// The ranges of the allocations that a page map names, and the end of the map.
fn read_page_map(data: &[u8], at: usize) -> (Vec<(u16, u16)>, usize) {
    let count = usize::from(u16_at(data, at));
    let offsets: Vec<u16> = (0..=count).map(|i| u16_at(data, at + 4 + 2 * i)).collect();
    let ranges = offsets.windows(2).map(|pair| (pair[0], pair[1] - pair[0])).collect();
    (ranges, at + 4 + 2 * (count + 1))
}

fn allocation<'a>(pages: &'a [Vec<u8>], id: HeapId) -> &'a [u8] {
    let page = &pages[(id.value >> 16) as usize];
    let slot = (id.value as u16 >> 5) as usize;
    let (ranges, _) = read_page_map(page, usize::from(u16_at(page, 0)));
    let (offset, size) = ranges[slot - 1];
    &page[usize::from(offset)..usize::from(offset + size)]
}

#[test]
fn aligns_heap_page_maps_to_two_bytes() {
    let data = finish_heap(
        vec![Vec::new(), vec![0x5A]],
        HeapNodeType::Properties,
        heap_id(1).unwrap(),
    )
    .unwrap();
    let page_map_offset = u16_at(&data, 0);
    assert_eq!(page_map_offset % 2, 0);
    let (_, end) = read_page_map(&data, usize::from(page_map_offset));
    assert_eq!(end, data.len());

    let mut heap = HeapBuilder::new();
    heap.allocate(vec![0x5A]).unwrap();
    let pages = heap.finish(HeapNodeType::Properties, HeapId::none()).unwrap();
    let page_map_offset = u16_at(&pages[0], 0);
    assert_eq!(page_map_offset % 2, 0);
    let (_, end) = read_page_map(&pages[0], usize::from(page_map_offset));
    assert_eq!(end, pages[0].len());
}

#[test]
fn fills_nonfinal_heap_pages_with_a_padding_allocation() {
    let mut heap = HeapBuilder::new();
    for _ in 0..100 {
        heap.allocate(vec![0x5A; 100]).unwrap();
    }
    let pages = heap.finish(HeapNodeType::Properties, HeapId::none()).unwrap();

    assert!(pages.len() > 1);
    assert_eq!(pages[0].len(), MAX_DATA_BLOCK_SIZE);
    let page_map_offset = u16_at(&pages[0], 0);
    assert_eq!(page_map_offset % 2, 0);
    let (ranges, end) = read_page_map(&pages[0], usize::from(page_map_offset));
    let last = ranges.last().unwrap();
    assert_eq!(usize::from(last.0 + last.1), usize::from(page_map_offset));
    assert_eq!(end, pages[0].len());
}

#[test]
fn writes_a_heap_header() {
    let data = finish_heap(
        vec![Vec::new(), vec![1, 2], vec![3, 4]],
        HeapNodeType::Table,
        heap_id(2).unwrap(),
    )
    .unwrap();
    assert_eq!(data[2], 0xEC);
    assert_eq!(data[3], 0x7C);
    assert_eq!(u32_at(&data, 4), 0x40);
    assert_eq!(&data[8..12], &[0, 0, 0, 0]);
    assert_eq!(&data[12..16], &[1, 2, 3, 4]);
    assert_eq!(u16_at(&data, 0), 16);
    assert_eq!(&data[16..], &[2, 0, 0, 0, 12, 0, 14, 0, 16, 0]);
}

#[test]
fn reads_back_what_was_allocated() {
    let mut heap = HeapBuilder::new();
    let values: Vec<Vec<u8>> = (0..300usize).map(|i| vec![i as u8; 1 + i % 97]).collect();
    let ids: Vec<HeapId> = values.iter().map(|v| heap.allocate(v.clone()).unwrap()).collect();
    let pages = heap.finish(HeapNodeType::Properties, ids[0]).unwrap();
    assert!(pages.len() > 1);
    for (value, id) in values.iter().zip(ids) {
        assert_eq!(allocation(&pages, id), value.as_slice());
    }
}

#[test]
fn starts_pages_with_the_fitting_header() {
    assert_eq!(HeapBuilder::header_size(0), 12);
    assert_eq!(HeapBuilder::header_size(1), 2);
    assert_eq!(HeapBuilder::header_size(8), 66);
    assert_eq!(HeapBuilder::header_size(9), 2);
    assert_eq!(HeapBuilder::header_size(136), 66);
}

#[test]
fn refuses_allocations_that_no_page_holds() {
    let mut heap = HeapBuilder::new();
    match heap.allocate(vec![0; MAX_HEAP_ALLOCATION_SIZE + 1]) {
        Err(PstError::Io(error)) => {
            assert_eq!(error, IoError::HeapAllocationTooLarge);
            assert_eq!(error.kind(), IoErrorKind::Unsupported);
        }
        _ => panic!("expected an error"),
    }
    assert!(matches!(
        heap.allocate(vec![0; MAX_HEAP_ALLOCATION_SIZE]),
        Err(PstError::Io(IoError::HeapAllocationDoesNotFit))
    ));
    assert!(matches!(
        heap_id(2_048),
        Err(PstError::Io(IoError::InvalidHeapIndex(2_048)))
    ));
    assert!(matches!(heap_id(0x1_0000), Err(PstError::IntegerConversion)));
    assert_eq!(heap_id(3).unwrap().value, 0x60);
}

#[test]
fn refuses_pages_that_are_too_large() {
    let heap = HeapBuilder::from_pages(vec![vec![Vec::new(), vec![0; 9_000]]]);
    assert!(matches!(
        heap.finish(HeapNodeType::Table, HeapId::none()),
        Err(PstError::Io(IoError::HeapPageTooLarge))
    ));
    let heap = HeapBuilder::from_pages(vec![
        vec![Vec::new(), vec![0; 8_155]],
        vec![Vec::new(), vec![1]],
    ]);
    assert!(matches!(
        heap.finish(HeapNodeType::Table, HeapId::none()),
        Err(PstError::Io(IoError::HeapPageHasNoPaddingRoom))
    ));
}

#[test]
fn builds_a_tree_over_records() {
    let mut heap = HeapBuilder::new();
    let mut children = Vec::new();
    for i in 0..3u32 {
        let id = heap.allocate(vec![i as u8; 4]).unwrap();
        children.push(HeapTreeChild { key: i * 10, id });
    }
    let header = build_heap_tree(
        &mut heap,
        children.clone(),
        HeapTreeLayout { key_size: 4, entry_size: 4, group: 750 },
    )
    .unwrap();
    let pages = heap.finish(HeapNodeType::Table, header).unwrap();
    let tree = allocation(&pages, header);
    assert_eq!((tree.len(), tree[0], tree[1], tree[2], tree[3]), (8, 0xB5, 4, 4, 1));
    let root = allocation(&pages, HeapId { value: u32_at(tree, 4) });
    assert_eq!(root.len(), 24);
    for (i, child) in children.iter().enumerate() {
        assert_eq!(u32_at(root, 8 * i), child.key);
        assert_eq!(u32_at(root, 8 * i + 4), child.id.value);
    }
}
