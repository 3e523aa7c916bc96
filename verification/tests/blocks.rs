//! Blocks, data trees, subnode trees and the places they get in the file.

use outlook_pst::error::{IoError, NdbError, PstError};
use outlook_pst::ltp::heap::MAX_DATA_BLOCK_SIZE;
use outlook_pst::ndb::allocation::{
    map_page_count, reserve_file_range, AMAP_DATA_SIZE, AMAP_FIRST_OFFSET, FMAP_DATA_SIZE,
    FMAP_FIRST_OFFSET, FPMAP_DATA_SIZE, FPMAP_FIRST_OFFSET, PAGE_SIZE, PMAP_DATA_SIZE,
    PMAP_FIRST_OFFSET,
};
use outlook_pst::ndb::block::{
    block_size, push_block, NewBlock, NewBlockData, UnicodeIntermediateSubNodeTreeEntry,
    UnicodeLeafSubNodeTreeEntry,
};
use outlook_pst::ndb::data_tree::{push_data_tree, push_data_tree_chunks};
use outlook_pst::ndb::encoding::{compute_crc, compute_sig, write_new_block};
use outlook_pst::ndb::ids::{NodeId, NodeIdType, UnicodeBlockId, UnicodePageId};
use outlook_pst::ndb::subnode_tree::push_subnode_tree;

fn block_of(blocks: &[NewBlock], id: UnicodeBlockId) -> &NewBlock {
    blocks.iter().find(|block| block.id == id).unwrap()
}

fn read_data(blocks: &[NewBlock], id: UnicodeBlockId) -> Vec<u8> {
    match &block_of(blocks, id).data {
        NewBlockData::Data(data) => data.clone(),
        NewBlockData::DataTree(entries, _, _) => entries
            .iter()
            .flat_map(|entry| read_data(blocks, *entry))
            .collect(),
        _ => panic!("not a data tree"),
    }
}

fn read_subnodes(blocks: &[NewBlock], id: UnicodeBlockId) -> Vec<UnicodeLeafSubNodeTreeEntry> {
    match &block_of(blocks, id).data {
        NewBlockData::SubNodes(entries) => entries.clone(),
        NewBlockData::IntermediateSubNodes(entries, _) => entries
            .iter()
            .flat_map(|entry| read_subnodes(blocks, entry.block))
            .collect(),
        _ => panic!("not a subnode tree"),
    }
}

#[test]
fn fills_nonfinal_data_tree_blocks() {
    let mut blocks = Vec::new();
    let mut next_bid = 1;
    let mut next_offset = AMAP_FIRST_OFFSET;
    let root = push_data_tree_chunks(
        &mut blocks,
        &mut next_bid,
        &mut next_offset,
        vec![vec![1; 100], vec![2; 50]],
    )
    .unwrap();

    assert!(root.is_internal());
    assert_eq!(blocks[0].size as usize, MAX_DATA_BLOCK_SIZE);
    assert_eq!(blocks[1].size, 50);
    let NewBlockData::DataTree(_, _, total_size) = blocks.last().unwrap().data else {
        panic!("expected XBLOCK root");
    };
    assert_eq!(total_size as usize, MAX_DATA_BLOCK_SIZE + 50);
}

#[test]
fn writes_local_totals_for_multilevel_data_trees() {
    let mut blocks = Vec::new();
    let mut next_bid = 1;
    let mut next_offset = AMAP_FIRST_OFFSET;
    let root = push_data_tree_chunks(
        &mut blocks,
        &mut next_bid,
        &mut next_offset,
        (0..1_022).map(|_| vec![0x5A]).collect(),
    )
    .unwrap();

    let trees = blocks
        .iter()
        .filter_map(|block| match &block.data {
            NewBlockData::DataTree(entries, level, total_size) => {
                Some((block.id, *level, entries.len(), *total_size))
            }
            _ => None,
        })
        .collect::<Vec<_>>();
    let full_group_size = 1_021 * u32::try_from(MAX_DATA_BLOCK_SIZE).unwrap();
    assert_eq!(trees.len(), 3);
    assert_eq!(
        (trees[0].1, trees[0].2, trees[0].3),
        (1, 1_021, full_group_size)
    );
    assert_eq!((trees[1].1, trees[1].2, trees[1].3), (1, 1, 1));
    assert_eq!(
        (trees[2].1, trees[2].2, trees[2].3),
        (2, 2, full_group_size + 1)
    );
    assert_eq!(root, trees[2].0);
}

#[test]
fn reserves_allocation_metadata_through_64_gib() {
    const LIMIT: u64 = 64 * 1024 * 1024 * 1024;

    for (first, interval) in [
        (AMAP_FIRST_OFFSET, AMAP_DATA_SIZE),
        (PMAP_FIRST_OFFSET, PMAP_DATA_SIZE),
        (FMAP_FIRST_OFFSET, FMAP_DATA_SIZE),
        (FPMAP_FIRST_OFFSET, FPMAP_DATA_SIZE),
    ] {
        let mut metadata_offset = first;
        while metadata_offset < LIMIT {
            let mut next_offset = metadata_offset;
            let allocation = reserve_file_range(&mut next_offset, PAGE_SIZE, PAGE_SIZE);
            assert!(
                allocation > metadata_offset,
                "allocated over metadata page at 0x{metadata_offset:X}"
            );
            metadata_offset += interval;
        }
    }
}

#[test]
fn reserves_behind_maps_and_before_the_next_region() {
    // The first region starts with an allocation map and an allocation page map.
    let mut next_offset = AMAP_FIRST_OFFSET;
    assert_eq!(reserve_file_range(&mut next_offset, 64, 64), 0x4800);
    assert_eq!(next_offset, 0x4840);
    // What would cross into the second region is moved behind its map.
    let mut next_offset = AMAP_FIRST_OFFSET + AMAP_DATA_SIZE - 64;
    assert_eq!(
        reserve_file_range(&mut next_offset, 128, 64),
        AMAP_FIRST_OFFSET + AMAP_DATA_SIZE + 512
    );
    // What just fits stays.
    let mut next_offset = AMAP_FIRST_OFFSET + AMAP_DATA_SIZE - 128;
    assert_eq!(
        reserve_file_range(&mut next_offset, 128, 64),
        AMAP_FIRST_OFFSET + AMAP_DATA_SIZE - 128
    );
    // Before the first region only the alignment counts.
    let mut next_offset = 100;
    assert_eq!(reserve_file_range(&mut next_offset, 64, 64), 128);
}

#[test]
fn reserves_all_the_room_that_every_region_has() {
    let room = AMAP_DATA_SIZE - 4 * PAGE_SIZE;
    assert_eq!(room, 251_904);
    let end = AMAP_FIRST_OFFSET + AMAP_DATA_SIZE;
    for (start, alignment, expected) in [
        (AMAP_FIRST_OFFSET, 512, 0x4800),
        (0x4A01, 512, 0x4C00),
        (0x4A01, 64, 0x4A40),
        (0x4C01, 512, end + 512),
        (0x4C01, 64, end + 512),
        (FPMAP_FIRST_OFFSET, 512, FPMAP_FIRST_OFFSET + 512),
    ] {
        let mut next_offset = start;
        assert_eq!(reserve_file_range(&mut next_offset, room, alignment), expected);
        assert_eq!(next_offset, expected + room);
    }
}

#[test]
fn counts_map_pages() {
    assert_eq!(map_page_count(0), 2);
    assert_eq!(map_page_count(1), 1);
    assert_eq!(map_page_count(8), 2);
    assert_eq!(map_page_count(128), 3);
    assert_eq!(map_page_count(129), 1);
    assert_eq!(map_page_count(128 + 496), 3);
    assert_eq!(map_page_count(8_192), 4);
}

#[test]
fn reads_back_a_data_tree() {
    let data: Vec<u8> = (0..3 * MAX_DATA_BLOCK_SIZE + 17).map(|i| i as u8).collect();
    let mut blocks = Vec::new();
    let mut next_bid = 7;
    let mut next_offset = AMAP_FIRST_OFFSET;
    let root =
        push_data_tree(&mut blocks, &mut next_bid, &mut next_offset, data.as_slice()).unwrap();
    assert_eq!(read_data(&blocks, root), data);
    assert_eq!(next_bid, 12);
    let NewBlockData::DataTree(entries, level, total) = &block_of(&blocks, root).data else {
        panic!("expected a data tree");
    };
    assert_eq!((entries.len(), *level, *total as usize), (4, 1, data.len()));
    // Blocks do not overlap.
    for pair in blocks.windows(2) {
        assert!(pair[0].offset + block_size(pair[0].size) <= pair[1].offset);
    }
}

#[test]
fn small_data_is_a_single_block() {
    let mut blocks = Vec::new();
    let mut next_bid = 3;
    let mut next_offset = 0;
    let root = push_data_tree(&mut blocks, &mut next_bid, &mut next_offset, &[9]).unwrap();
    assert_eq!(root.value, 12);
    assert!(!root.is_internal());
    assert_eq!(root.index(), 3);
    assert_eq!(blocks.len(), 1);
    assert_eq!(read_data(&blocks, root), vec![9]);
}

#[test]
fn refuses_data_trees_without_data() {
    let mut blocks = Vec::new();
    let (mut next_bid, mut next_offset) = (1, AMAP_FIRST_OFFSET);
    for chunks in [vec![], vec![vec![1], vec![]]] {
        assert!(matches!(
            push_data_tree_chunks(&mut blocks, &mut next_bid, &mut next_offset, chunks),
            Err(PstError::Io(IoError::EmptyDataTreeBlock))
        ));
    }
    assert!(matches!(
        push_data_tree(&mut blocks, &mut next_bid, &mut next_offset, &[]),
        Err(PstError::Io(IoError::EmptyDataTreeBlock))
    ));
    assert!(matches!(
        push_data_tree_chunks(
            &mut blocks,
            &mut next_bid,
            &mut next_offset,
            vec![vec![0; MAX_DATA_BLOCK_SIZE + 1]],
        ),
        Err(PstError::Io(IoError::DataTreeBlockTooLarge))
    ));
    assert!(blocks.is_empty());
}

#[test]
fn reads_back_a_subnode_tree_by_node() {
    let entries: Vec<UnicodeLeafSubNodeTreeEntry> = (0..1_000u32)
        .rev()
        .map(|index| {
            UnicodeLeafSubNodeTreeEntry::new(
                NodeId::new(NodeIdType::Attachment, index).unwrap(),
                UnicodeBlockId::new(false, u64::from(index) + 1).unwrap(),
                None,
            )
        })
        .collect();
    let mut blocks = Vec::new();
    let (mut next_bid, mut next_offset) = (2_000, AMAP_FIRST_OFFSET);
    let root =
        push_subnode_tree(&mut blocks, &mut next_bid, &mut next_offset, entries.clone()).unwrap();
    let mut sorted = entries;
    sorted.reverse();
    assert_eq!(read_subnodes(&blocks, root), sorted);
    assert_eq!(blocks.len(), 4);
    let NewBlockData::IntermediateSubNodes(children, level) = &block_of(&blocks, root).data else {
        panic!("expected an intermediate block");
    };
    assert_eq!(*level, 1);
    let first: Vec<UnicodeIntermediateSubNodeTreeEntry> = children.clone();
    assert_eq!(first[1].node, sorted[340].node);
}

#[test]
fn refuses_an_empty_subnode_tree() {
    let mut blocks = Vec::new();
    let (mut next_bid, mut next_offset) = (1, AMAP_FIRST_OFFSET);
    assert!(matches!(
        push_subnode_tree(&mut blocks, &mut next_bid, &mut next_offset, Vec::new()),
        Err(PstError::Io(IoError::EmptySubnodeTree))
    ));
}

#[test]
fn computes_checksums_and_signatures() {
    assert_eq!(compute_crc(b""), 0);
    assert_eq!(compute_crc(&[1]), 0x7707_3096);
    assert_eq!(compute_crc(&[1, 2, 3]), 0xAAFD_590F);
    assert_eq!(compute_crc(b"123456789"), 0x2DFD_2D88);
    assert_eq!(compute_sig(0x4600, 4), 0x4604);
    assert_eq!(compute_sig(0x0001_0000, 0x0000_0002), 0x0003);
}

#[test]
fn encodes_a_data_block() {
    let block = NewBlock {
        id: UnicodeBlockId::new(false, 1).unwrap(),
        offset: 0x4800,
        size: 3,
        data: NewBlockData::Data(vec![1, 2, 3]),
    };
    let write = write_new_block(&block).unwrap();
    assert_eq!(write.offset, 0x4800);
    let mut expected = vec![1u8, 2, 3];
    expected.resize(48, 0);
    expected.extend([3, 0]);
    expected.extend([0x04, 0x48]);
    expected.extend([0x0F, 0x59, 0xFD, 0xAA]);
    expected.extend([4, 0, 0, 0, 0, 0, 0, 0]);
    assert_eq!(write.data, expected);
    assert_eq!(block_size(3), 64);
    assert_eq!(block_size(48), 64);
    assert_eq!(block_size(49), 128);
    assert_eq!(block_size(8_176), 8_192);
}

#[test]
fn encodes_trees() {
    let tree = write_new_block(&NewBlock {
        id: UnicodeBlockId::new(true, 3).unwrap(),
        offset: 0x4800,
        size: 24,
        data: NewBlockData::DataTree(
            vec![
                UnicodeBlockId::new(false, 1).unwrap(),
                UnicodeBlockId::new(false, 2).unwrap(),
            ],
            1,
            0x0102_0304,
        ),
    })
    .unwrap();
    assert_eq!(tree.data.len(), 64);
    assert_eq!(&tree.data[..8], &[1, 1, 2, 0, 4, 3, 2, 1]);
    assert_eq!(&tree.data[8..24], &[4, 0, 0, 0, 0, 0, 0, 0, 8, 0, 0, 0, 0, 0, 0, 0]);
    let leaf = write_new_block(&NewBlock {
        id: UnicodeBlockId::new(true, 4).unwrap(),
        offset: 0x4840,
        size: 32,
        data: NewBlockData::SubNodes(vec![UnicodeLeafSubNodeTreeEntry::new(
            NodeId { value: 0x671 },
            UnicodeBlockId { value: 0x10 },
            Some(UnicodeBlockId { value: 0x22 }),
        )]),
    })
    .unwrap();
    assert_eq!(&leaf.data[..8], &[2, 0, 1, 0, 0, 0, 0, 0]);
    assert_eq!(
        &leaf.data[8..32],
        &[0x71, 6, 0, 0, 0, 0, 0, 0, 0x10, 0, 0, 0, 0, 0, 0, 0, 0x22, 0, 0, 0, 0, 0, 0, 0]
    );
    let parent = write_new_block(&NewBlock {
        id: UnicodeBlockId::new(true, 5).unwrap(),
        offset: 0x4880,
        size: 24,
        data: NewBlockData::IntermediateSubNodes(
            vec![UnicodeIntermediateSubNodeTreeEntry {
                node: NodeId { value: 0x671 },
                block: UnicodeBlockId { value: 0x12 },
            }],
            1,
        ),
    })
    .unwrap();
    assert_eq!(&parent.data[..8], &[2, 1, 1, 0, 0, 0, 0, 0]);
    assert_eq!(&parent.data[8..24], &[0x71, 6, 0, 0, 0, 0, 0, 0, 0x12, 0, 0, 0, 0, 0, 0, 0]);
}

#[test]
fn refuses_blocks_of_impossible_sizes() {
    let block = NewBlock {
        id: UnicodeBlockId::new(false, 1).unwrap(),
        offset: 0x4800,
        size: 0,
        data: NewBlockData::Data(Vec::new()),
    };
    assert!(matches!(
        write_new_block(&block),
        Err(PstError::NodeDatabaseError(NdbError::InvalidUnicodeBlockTrailerSize(0)))
    ));
    let block = NewBlock {
        id: UnicodeBlockId::new(false, 1).unwrap(),
        offset: 0x4800,
        size: 8_177,
        data: NewBlockData::Data(vec![0; 8_177]),
    };
    assert!(matches!(
        write_new_block(&block),
        Err(PstError::NodeDatabaseError(NdbError::InvalidUnicodeBlockTrailerSize(8_177)))
    ));
}

#[test]
fn numbers_blocks_and_nodes() {
    assert_eq!(UnicodeBlockId::new(true, 5).unwrap().value, 22);
    assert_eq!(UnicodeBlockId::new(true, 5).unwrap().search_key(), 22);
    assert_eq!(UnicodeBlockId { value: 21 }.search_key(), 20);
    assert!(matches!(
        UnicodeBlockId::new(false, 1 << 62),
        Err(PstError::NodeDatabaseError(NdbError::InvalidUnicodeBlockIndex(_)))
    ));
    let node = NodeId::new(NodeIdType::NormalMessage, 3).unwrap();
    assert_eq!(node.value, 0x64);
    assert_eq!(node.index(), 3);
    assert!(node.is_type(NodeIdType::NormalMessage));
    assert!(!node.is_type(NodeIdType::NormalFolder));
    assert!(matches!(
        NodeId::new(NodeIdType::NormalMessage, 0x0800_0000),
        Err(PstError::NodeDatabaseError(NdbError::InvalidNodeIndex(0x0800_0000)))
    ));
    assert_eq!(UnicodePageId { value: 6 }.next().unwrap().value, 7);
}

#[test]
fn pushes_blocks_in_turn() {
    let mut blocks = Vec::new();
    let (mut next_bid, mut next_offset) = (1, AMAP_FIRST_OFFSET);
    let first = push_block(
        &mut blocks,
        &mut next_bid,
        &mut next_offset,
        false,
        NewBlockData::Data(vec![1; 100]),
    )
    .unwrap();
    let second = push_block(
        &mut blocks,
        &mut next_bid,
        &mut next_offset,
        true,
        NewBlockData::DataTree(vec![first], 1, 100),
    )
    .unwrap();
    assert_eq!((first.value, second.value), (4, 10));
    assert_eq!((blocks[0].offset, blocks[0].size), (0x4800, 100));
    assert_eq!((blocks[1].offset, blocks[1].size), (0x4880, 16));
    assert_eq!((next_bid, next_offset), (3, 0x48C0));
}
