//! The B-trees, commits, compaction and allocation maps.

use outlook_pst::error::{IoError, NdbError, PstError};
use outlook_pst::ndb::allocation::{AMAP_DATA_SIZE, AMAP_FIRST_OFFSET, PAGE_SIZE};
use outlook_pst::ndb::amap::{
    allocation_fits, allocations_fit, block_disk_size, mark_allocation, mark_allocations,
    new_regions, Allocation, AllocationMapPageInfo,
};
use outlook_pst::ndb::block::{NewBlock, NewBlockData, UnicodeLeafSubNodeTreeEntry};
use outlook_pst::ndb::btree::{
    plan_block_btree, NewBTreePage, NewBTreePageData, PageType, UnicodeBTreePageEntry,
    UnicodeBlockBTreeEntry, UnicodeNodeBTreeEntry,
};
use outlook_pst::ndb::commit::{begin_commit, finish_commit, plan_btrees, push_block_entries};
use outlook_pst::ndb::compact::{internal_block_type, BlockReferences, InternalBlock, InternalBlockType};
use outlook_pst::ndb::encoding::{compute_crc, write_btree_page, write_new_block, write_page};
use outlook_pst::ndb::header::{AmapStatus, Header, NdbCryptMethod, Root};
use outlook_pst::ndb::ids::{
    NodeId, NodeIdType, UnicodeBlockId, UnicodeBlockRef, UnicodePageId, UnicodePageRef,
};
use outlook_pst::ndb::mark::{
    begin_allocation_map, block_page_allocation, node_page_allocation, rebuild_allocation_map,
    MarkWalk,
};
use outlook_pst::ndb::nodes::{
    find_node, first_free_block, next_free_index, next_internal_subnode, remove_node,
    remove_subnode, replace_nodes, table_rows_node,
};
use outlook_pst::ndb::template::{data_blocks, set_plain, write_plain_block};
use outlook_pst::ndb::walk::{BTreePage, BTreeWalk};
use outlook_pst::sorting::sort_by_key;

fn page_ref(index: u64) -> UnicodePageRef {
    UnicodePageRef { block: UnicodePageId { value: 1 }, index }
}

fn header() -> Header {
    Header {
        crypt_method: NdbCryptMethod::Permute,
        unique: 5,
        next_block: UnicodeBlockId::new(false, 100).unwrap(),
        next_page: UnicodePageId { value: 40 },
        next_nodes: vec![1_024; 32],
        root: Root {
            file_eof_index: AMAP_FIRST_OFFSET + AMAP_DATA_SIZE,
            amap_last_index: AMAP_FIRST_OFFSET,
            amap_free_size: 0,
            pmap_free_size: 0,
            node_btree: page_ref(0x4800),
            block_btree: page_ref(0x4A00),
            amap_is_valid: AmapStatus::Valid1,
        },
        first_free_map: vec![0; 128],
    }
}

fn block_entry(index: u64, offset: u64, size: u16) -> UnicodeBlockBTreeEntry {
    UnicodeBlockBTreeEntry::new(
        UnicodeBlockRef { block: UnicodeBlockId::new(false, index).unwrap(), index: offset },
        size,
    )
}

fn node_entry(value: u32, data: u64) -> UnicodeNodeBTreeEntry {
    UnicodeNodeBTreeEntry::new(NodeId { value }, UnicodeBlockId { value: data }, None, None)
}

fn page_at(pages: &[NewBTreePage], page: UnicodePageRef) -> &NewBTreePage {
    pages.iter().find(|planned| planned.page_ref == page).unwrap()
}

fn block_page(page: &NewBTreePage) -> BTreePage<UnicodeBlockBTreeEntry> {
    match &page.data {
        NewBTreePageData::BlockLeaf(entries) => BTreePage::Leaf(entries.clone()),
        NewBTreePageData::Intermediate(_, level, children) => {
            BTreePage::Intermediate(*level, children.clone())
        }
        NewBTreePageData::NodeLeaf(_) => panic!("a page of nodes"),
    }
}

fn node_page(page: &NewBTreePage) -> BTreePage<UnicodeNodeBTreeEntry> {
    match &page.data {
        NewBTreePageData::NodeLeaf(entries) => BTreePage::Leaf(entries.clone()),
        NewBTreePageData::Intermediate(_, level, children) => {
            BTreePage::Intermediate(*level, children.clone())
        }
        NewBTreePageData::BlockLeaf(_) => panic!("a page of blocks"),
    }
}

#[test]
fn reads_back_planned_btrees() {
    let blocks: Vec<UnicodeBlockBTreeEntry> =
        (1..=1_000).map(|i| block_entry(i, 0x4800 + 64 * i, 10)).collect();
    let nodes: Vec<UnicodeNodeBTreeEntry> = (1..=500).map(|i| node_entry(32 * i + 4, 4)).collect();
    let plan =
        plan_btrees(UnicodePageId { value: 7 }, AMAP_FIRST_OFFSET, &blocks, &nodes).unwrap();

    let mut walk = BTreeWalk::new(plan.block_btree);
    while let Some(next) = walk.next().unwrap() {
        walk.visit(next.depth, &block_page(page_at(&plan.pages, next.page)));
    }
    assert_eq!(walk.finish(), blocks);
    let mut walk = BTreeWalk::new(plan.node_btree);
    while let Some(next) = walk.next().unwrap() {
        walk.visit(next.depth, &node_page(page_at(&plan.pages, next.page)));
    }
    assert_eq!(walk.finish(), nodes);

    // 50 block leaves and 3 pages and 1 page above them; 34 node leaves and 2 and 1 above them.
    assert_eq!(plan.pages.len(), 50 + 3 + 1 + 34 + 2 + 1);
    assert_eq!(plan.next_page.value, 7 + 91);
    assert_eq!(plan.pages[0].page_ref, UnicodePageRef { block: UnicodePageId { value: 7 }, index: 0x4800 });
    assert_eq!(plan.new_eof, plan.node_btree.index + PAGE_SIZE);
}

#[test]
fn marks_every_page_and_block_of_planned_btrees() {
    let blocks: Vec<UnicodeBlockBTreeEntry> =
        (1..=104).map(|i| block_entry(i, 0x4800 + 64 * (i - 1), 10)).collect();
    let nodes = vec![node_entry(0x21, 4)];
    let plan = plan_btrees(UnicodePageId { value: 7 }, 0x4800 + 6_656, &blocks, &nodes).unwrap();
    let mut header = header();
    header.root.amap_is_valid = AmapStatus::Invalid;
    header.root.file_eof_index = plan.new_eof;
    let mut regions = begin_allocation_map(&header, u64::MAX).unwrap().unwrap();
    assert_eq!(regions.len(), 1);

    let mut walk = MarkWalk::new(plan.block_btree);
    while let Some(next) = walk.next() {
        let page = block_page(page_at(&plan.pages, next.page));
        let allocations = block_page_allocation(next.page, &page, 16);
        assert!(allocations_fit(&regions, &allocations));
        mark_allocations(&mut regions, &allocations).unwrap();
        walk.visit(next, &page).unwrap();
    }
    let mut walk = MarkWalk::new(plan.node_btree);
    while let Some(next) = walk.next() {
        let page = node_page(page_at(&plan.pages, next.page));
        mark_allocations(&mut regions, &node_page_allocation(next.page)).unwrap();
        walk.visit(next, &page).unwrap();
    }
    let used = (plan.new_eof - AMAP_FIRST_OFFSET) / 64;
    assert_eq!(regions[0].free_space, AMAP_DATA_SIZE - 64 * used);
    let pages = rebuild_allocation_map(&mut header, regions, u64::MAX).unwrap();
    assert_eq!(pages.len(), 2);
    assert_eq!((pages[0].page_type, pages[0].offset), (PageType::AllocationMap, 0x4400));
    assert_eq!((pages[1].page_type, pages[1].offset), (PageType::AllocationPageMap, 0x4600));
    assert_eq!(pages[1].map_bits, vec![0xFF; 496]);
    for bit in 0..3_968usize {
        let set = pages[0].map_bits[bit / 8] & (0x80 >> (bit % 8)) != 0;
        assert_eq!(set, (bit as u64) < used);
    }
    assert_eq!(header.unique, 6);
    assert_eq!(header.root.amap_free_size, AMAP_DATA_SIZE - 64 * used);
    assert_eq!(header.root.amap_is_valid, AmapStatus::Valid2);
    assert_eq!(header.first_free_map[0], 255);
    assert_eq!(header.first_free_map[1], 0);
}

#[test]
fn keeps_valid_allocation_maps() {
    assert!(begin_allocation_map(&header(), u64::MAX).unwrap().is_none());
}

#[test]
fn refuses_pages_at_the_wrong_level() {
    let child = UnicodeBTreePageEntry { key: 1, block: page_ref(0x5000) };
    let mut walk = MarkWalk::new(page_ref(0x4800));
    let root = walk.next().unwrap();
    walk.visit(root, &BTreePage::<UnicodeNodeBTreeEntry>::Intermediate(2, vec![child])).unwrap();
    let below = walk.next().unwrap();
    assert!(matches!(
        walk.visit(below, &BTreePage::<UnicodeNodeBTreeEntry>::Leaf(Vec::new())),
        Err(PstError::InvalidBTreePage(0x5000))
    ));
    let mut walk = BTreeWalk::<UnicodeNodeBTreeEntry>::new(page_ref(0x4800));
    for depth in 0..=8 {
        let next = walk.next().unwrap().unwrap();
        assert_eq!(next.depth, depth);
        walk.visit(depth, &BTreePage::Intermediate(1, vec![child]));
    }
    assert!(matches!(walk.next(), Err(PstError::InvalidBTreePage(0x5000))));
}

#[test]
fn marks_ranges_in_their_region() {
    let mut regions = new_regions(AMAP_FIRST_OFFSET + AMAP_DATA_SIZE + 1, u64::MAX).unwrap();
    assert_eq!(regions.len(), 2);
    assert_eq!(regions[0].free_space, AMAP_DATA_SIZE - 1_024);
    assert_eq!(regions[1].free_space, AMAP_DATA_SIZE - 512);
    assert_eq!(&regions[1].map_bits[..2], &[0xFF, 0]);
    let block = Allocation { offset: AMAP_FIRST_OFFSET + AMAP_DATA_SIZE + 512 + 64, size: 128 };
    assert!(allocation_fits(&regions, block));
    mark_allocation(&mut regions, block).unwrap();
    assert_eq!(&regions[1].map_bits[..2], &[0xFF, 0b0110_0000]);
    assert_eq!(regions[1].free_space, AMAP_DATA_SIZE - 512 - 128);
    assert!(!allocation_fits(&regions, Allocation { offset: 0x4000, size: 64 }));
    let beyond = Allocation { offset: AMAP_FIRST_OFFSET + 2 * AMAP_DATA_SIZE, size: 64 };
    assert!(matches!(
        mark_allocation(&mut regions, beyond),
        Err(PstError::AllocationMapPageNotFound(2))
    ));
    assert!(matches!(
        new_regions(AMAP_FIRST_OFFSET + 2 * AMAP_DATA_SIZE, AMAP_FIRST_OFFSET),
        Err(PstError::IntegerConversion)
    ));
    assert_eq!(block_disk_size(48, 16), 64);
    assert_eq!(block_disk_size(49, 16), 128);
    assert_eq!(block_disk_size(8_176, 16), 8_192);
    assert_eq!(block_disk_size(9_000, 16), 8_192);
}

#[test]
fn counts_free_slots_in_a_row() {
    let mut map_bits = vec![0xFF; 496];
    let region = |map_bits: &Vec<u8>| AllocationMapPageInfo { map_bits: map_bits.clone(), free_space: 0 };
    assert_eq!(region(&map_bits).max_free_slots(), 0);
    map_bits[3] = 0b1100_0000;
    map_bits[4] = 0b0001_1111;
    map_bits[9] = 0;
    assert_eq!(region(&map_bits).max_free_slots(), 9);
    assert_eq!(region(&vec![0; 496]).max_free_slots(), 255);
}

#[test]
fn encodes_btree_pages() {
    let write = write_btree_page(&NewBTreePage {
        page_ref: UnicodePageRef { block: UnicodePageId { value: 9 }, index: 0x4800 },
        data: NewBTreePageData::BlockLeaf(vec![block_entry(1, 0x4A00, 100)]),
    });
    assert_eq!((write.offset, write.data.len()), (0x4800, 512));
    assert_eq!(&write.data[..16], &[4, 0, 0, 0, 0, 0, 0, 0, 0, 0x4A, 0, 0, 0, 0, 0, 0]);
    assert_eq!(&write.data[16..24], &[100, 0, 1, 0, 0, 0, 0, 0]);
    assert_eq!(&write.data[488..492], &[1, 20, 24, 0]);
    assert_eq!(&write.data[496..500], &[0x80, 0x80, 0x09, 0x48]);
    assert_eq!(&write.data[500..504], compute_crc(&write.data[..496]).to_le_bytes().as_slice());
    assert_eq!(&write.data[504..], &[9, 0, 0, 0, 0, 0, 0, 0]);

    let write = write_btree_page(&NewBTreePage {
        page_ref: page_ref(0x4800),
        data: NewBTreePageData::NodeLeaf(vec![UnicodeNodeBTreeEntry::new(
            NodeId { value: 0x2223 },
            UnicodeBlockId { value: 4 },
            Some(UnicodeBlockId { value: 10 }),
            Some(NodeId { value: 0x122 }),
        )]),
    });
    assert_eq!(&write.data[..8], &[0x23, 0x22, 0, 0, 0, 0, 0, 0]);
    assert_eq!(&write.data[8..24], &[4, 0, 0, 0, 0, 0, 0, 0, 10, 0, 0, 0, 0, 0, 0, 0]);
    assert_eq!(&write.data[24..32], &[0x22, 1, 0, 0, 0, 0, 0, 0]);
    assert_eq!(&write.data[488..492], &[1, 15, 32, 0]);
    assert_eq!(write.data[496], 0x81);

    let write = write_btree_page(&NewBTreePage {
        page_ref: page_ref(0x4800),
        data: NewBTreePageData::Intermediate(
            PageType::NodeBTree,
            2,
            vec![UnicodeBTreePageEntry { key: 0x21, block: page_ref(0x4A00) }],
        ),
    });
    assert_eq!(&write.data[..8], &[0x21, 0, 0, 0, 0, 0, 0, 0]);
    assert_eq!(&write.data[8..24], &[1, 0, 0, 0, 0, 0, 0, 0, 0, 0x4A, 0, 0, 0, 0, 0, 0]);
    assert_eq!(&write.data[488..492], &[1, 20, 24, 2]);

    let write = write_page(PageType::AllocationMap, 0x4400, 0x4400, vec![0xFF; 496]);
    assert_eq!(&write.data[496..500], &[0x84, 0x84, 0, 0]);
}

#[test]
fn plans_a_btree_of_one_page() {
    let (mut pages, mut next_page, mut next_offset) =
        (Vec::new(), UnicodePageId { value: 1 }, 0x4800);
    let root = plan_block_btree(
        &[block_entry(1, 0x4A00, 100)],
        &mut pages,
        &mut next_page,
        &mut next_offset,
    )
    .unwrap();
    assert_eq!((pages.len(), root.index, next_offset), (1, 0x4800, 0x4A00));
    let mut last = UnicodePageId { value: u64::MAX };
    assert!(matches!(
        plan_block_btree(&[block_entry(1, 0x4A00, 100)], &mut pages, &mut last, &mut next_offset),
        Err(PstError::IntegerConversion)
    ));
}

#[test]
fn commits_a_header() {
    let mut entries = vec![block_entry(1, 0x4800, 10)];
    let blocks = vec![NewBlock {
        id: UnicodeBlockId::new(true, 2).unwrap(),
        offset: 0x4840,
        size: 16,
        data: NewBlockData::DataTree(vec![UnicodeBlockId { value: 4 }], 1, 10),
    }];
    push_block_entries(&mut entries, &blocks);
    assert_eq!(entries.len(), 2);
    assert_eq!((entries[1].block.block.value, entries[1].block.index), (10, 0x4840));
    assert_eq!((entries[1].size, entries[1].ref_count), (16, 1));

    let mut header = header();
    begin_commit(&mut header);
    assert_eq!((header.unique, header.root.amap_is_valid), (6, AmapStatus::Invalid));
    let nodes = vec![node_entry(0x21, 4)];
    let plan = plan_btrees(header.next_page, 0x4880, &entries, &nodes).unwrap();
    let message = NodeId::new(NodeIdType::NormalMessage, 2_000).unwrap();
    finish_commit(&mut header, &plan, 3, &vec![message]).unwrap();
    assert_eq!((header.unique, header.next_block.value), (7, 12));
    assert_eq!(header.next_page.value, 42);
    assert_eq!(header.next_node_index(NodeIdType::NormalMessage), 2_001);
    assert_eq!(header.next_node_index(NodeIdType::NormalFolder), 1_024);
    assert_eq!(header.root.block_btree, plan.block_btree);
    assert_eq!(header.root.node_btree, plan.node_btree);
    assert_eq!(header.root.file_eof_index, plan.new_eof);
    assert_eq!(header.root.amap_last_index, AMAP_FIRST_OFFSET);
    assert!(matches!(
        header.reserve_node(NodeId { value: 0x29 }),
        Err(PstError::NodeDatabaseError(NdbError::InvalidNodeIdType(9)))
    ));
    assert!(matches!(
        finish_commit(&mut header, &plan, 1 << 62, &Vec::new()),
        Err(PstError::NodeDatabaseError(NdbError::InvalidUnicodeBlockIndex(_)))
    ));
    header.unique = u32::MAX;
    header.update_unique();
    assert_eq!(header.unique, 0);
}

#[test]
fn drops_blocks_that_nothing_refers_to() {
    let tree = UnicodeBlockId::new(true, 3).unwrap();
    let subnodes = UnicodeBlockId::new(true, 5).unwrap();
    let internal = |id: UnicodeBlockId| {
        UnicodeBlockBTreeEntry::new(UnicodeBlockRef { block: id, index: 0x5000 }, 24)
    };
    let entries = vec![
        block_entry(1, 0x4800, 10),
        block_entry(2, 0x4840, 10),
        internal(tree),
        block_entry(4, 0x4880, 10),
        internal(subnodes),
    ];
    let nodes = vec![UnicodeNodeBTreeEntry::new(
        NodeId { value: 0x21 },
        tree,
        Some(subnodes),
        None,
    )];
    let mut references = BlockReferences::new();
    references.record_nodes(&nodes).unwrap();
    let mut seen = Vec::new();
    while let Some(entry) = references.next(&entries).unwrap() {
        seen.push(entry.block.block);
        let block = if entry.block.block == tree {
            InternalBlock::DataTree(vec![UnicodeBlockId { value: 4 }, UnicodeBlockId { value: 4 }])
        } else {
            InternalBlock::SubNodes(vec![UnicodeLeafSubNodeTreeEntry::new(
                NodeId { value: 0x671 },
                UnicodeBlockId { value: 8 },
                None,
            )])
        };
        references.record_children(&block.children()).unwrap();
    }
    assert_eq!(seen, vec![tree, subnodes]);
    let retained = references.finish(&entries).unwrap();
    let kept: Vec<(u64, u16)> =
        retained.iter().map(|entry| (entry.block.block.value, entry.ref_count)).collect();
    assert_eq!(kept, vec![(4, 3), (8, 2), (14, 2), (22, 2)]);

    let mut missing = BlockReferences::new();
    missing.record_block_reference(UnicodeBlockId { value: 40 }).unwrap();
    assert!(matches!(
        missing.next(&entries),
        Err(PstError::Io(IoError::BlockMissing(40)))
    ));
    assert_eq!(internal_block_type(1).unwrap(), InternalBlockType::DataTree);
    assert_eq!(internal_block_type(2).unwrap(), InternalBlockType::SubNodeTree);
    assert!(matches!(
        internal_block_type(3),
        Err(PstError::NodeDatabaseError(NdbError::InvalidInternalBlockType(3)))
    ));
}

#[test]
fn finds_free_indices() {
    let nodes = vec![
        node_entry(NodeId::new(NodeIdType::NormalMessage, 3_000).unwrap().value, 4),
        node_entry(NodeId::new(NodeIdType::NormalFolder, 9).unwrap().value, 8),
    ];
    assert_eq!(next_free_index(&header(), &nodes, NodeIdType::NormalMessage, 0x3F), 3_001);
    assert_eq!(next_free_index(&header(), &nodes, NodeIdType::NormalFolder, 0x3F), 1_024);
    assert_eq!(first_free_block(&header(), &vec![block_entry(7, 0x4800, 1)]), 100);
    assert_eq!(first_free_block(&header(), &vec![block_entry(700, 0x4800, 1)]), 701);
    assert_eq!(find_node(&nodes, nodes[1].node), Some(nodes[1]));
    assert_eq!(find_node(&nodes, NodeId { value: 1 }), None);
    let mut fewer = nodes.clone();
    remove_node(&mut fewer, nodes[0].node);
    assert_eq!(fewer, vec![nodes[1]]);
    replace_nodes(&mut fewer, node_entry(0x21, 4), node_entry(0x41, 4), None, &vec![nodes[0]]);
    assert_eq!(fewer, vec![nodes[1], node_entry(0x21, 4), node_entry(0x41, 4), nodes[0]]);
}

#[test]
fn finds_the_rows_of_a_table() {
    let internal = |index: u32| {
        UnicodeLeafSubNodeTreeEntry::new(
            NodeId::new(NodeIdType::Internal, index).unwrap(),
            UnicodeBlockId { value: 4 },
            None,
        )
    };
    let subnodes = vec![internal(0x80), internal(0x90)];
    assert_eq!(next_internal_subnode(&subnodes), 0x91);
    let known = NodeId { value: 0x1001 };
    assert_eq!(table_rows_node(Some(known), &subnodes).unwrap(), known);
    assert_eq!(table_rows_node(None, &subnodes).unwrap().index(), 0x91);
    let mut fewer = subnodes.clone();
    remove_subnode(&mut fewer, subnodes[0].node);
    assert_eq!(fewer, vec![subnodes[1]]);
}

#[test]
fn sorts_entries_by_key() {
    let entries = vec![node_entry(9, 1), node_entry(3, 2), node_entry(9, 3), node_entry(1, 4)];
    let sorted = sort_by_key(&entries);
    let order: Vec<u64> = sorted.iter().map(|entry| entry.data.value).collect();
    assert_eq!(order, vec![4, 2, 1, 3]);
}

#[test]
fn rewrites_template_blocks_without_encoding() {
    let entries = vec![
        block_entry(1, 0x4800, 3),
        UnicodeBlockBTreeEntry::new(
            UnicodeBlockRef { block: UnicodeBlockId { value: 10 }, index: 0x4840 },
            16,
        ),
        block_entry(3, 0x4880, 2),
    ];
    assert_eq!(data_blocks(&entries), vec![entries[0], entries[2]]);
    let write = write_plain_block(&entries[0], vec![1, 2, 3]).unwrap();
    let expected = write_new_block(&NewBlock {
        id: UnicodeBlockId { value: 4 },
        offset: 0x4800,
        size: 3,
        data: NewBlockData::Data(vec![1, 2, 3]),
    })
    .unwrap();
    assert_eq!((write.offset, write.data), (expected.offset, expected.data));
    let mut header = header();
    set_plain(&mut header);
    assert_eq!(header.crypt_method, NdbCryptMethod::Plain);
    assert_eq!(header.copy().unique, 5);
}
