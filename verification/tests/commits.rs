//! Running a commit.

use outlook_pst::error::{IoError, PstError};
use outlook_pst::ndb::allocation::{AMAP_DATA_SIZE, AMAP_FIRST_OFFSET};
use outlook_pst::ndb::block::NewBlock;
use outlook_pst::ndb::btree::{UnicodeBlockBTreeEntry, UnicodeNodeBTreeEntry};
use outlook_pst::ndb::commit::ChangePlan;
use outlook_pst::ndb::compact::InternalBlock;
use outlook_pst::ndb::data_tree::push_data_tree;
use outlook_pst::ndb::encoding::{write_page, FileWrite};
use outlook_pst::ndb::header::{AmapStatus, Header, NdbCryptMethod, Root};
use outlook_pst::ndb::ids::{
    NodeId, NodeIdType, UnicodeBlockId, UnicodeBlockRef, UnicodePageId, UnicodePageRef,
};
use outlook_pst::ndb::mark::{begin_allocation_map, rebuild_allocation_map};
use outlook_pst::ndb::transaction::{has_data, Commit, CommitAction};

const END: u64 = AMAP_FIRST_OFFSET + AMAP_DATA_SIZE;

fn header() -> Header {
    let page = |index| UnicodePageRef { block: UnicodePageId { value: 1 }, index };
    Header {
        crypt_method: NdbCryptMethod::Plain,
        unique: 5,
        next_block: UnicodeBlockId::new(false, 100).unwrap(),
        next_page: UnicodePageId { value: 40 },
        next_nodes: vec![1_024; 32],
        root: Root {
            file_eof_index: END,
            amap_last_index: AMAP_FIRST_OFFSET,
            amap_free_size: 0,
            pmap_free_size: 0,
            node_btree: page(0x4800),
            block_btree: page(0x4A00),
            amap_is_valid: AmapStatus::Valid2,
        },
        first_free_map: vec![0; 128],
    }
}

fn entry(index: u64, offset: u64) -> UnicodeBlockBTreeEntry {
    let block = UnicodeBlockId::new(false, index).unwrap();
    UnicodeBlockBTreeEntry::new(UnicodeBlockRef { block, index: offset }, 10)
}

fn node(value: u32, data: UnicodeBlockId) -> UnicodeNodeBTreeEntry {
    UnicodeNodeBTreeEntry::new(NodeId { value }, data, None, None)
}

/// A change that gives a second node 20,000 bytes, and the block of those bytes.
fn change() -> (ChangePlan, UnicodeBlockId) {
    let mut blocks: Vec<NewBlock> = Vec::new();
    let (mut next_bid, mut next_offset) = (100, END);
    let data = vec![7; 20_000];
    let root = push_data_tree(&mut blocks, &mut next_bid, &mut next_offset, &data).unwrap();
    let nbt_entries = vec![node(0x8044, root), node(0x21, UnicodeBlockId { value: 4 })];
    (ChangePlan { nbt_entries, blocks, next_bid, next_offset }, root)
}

fn number(bytes: &[u8]) -> u64 {
    u64::from_le_bytes(bytes.try_into().unwrap())
}

/// The children of a data tree in the bytes of its block.
fn children(block: &FileWrite) -> InternalBlock {
    assert_eq!(block.data[0], 1);
    let count = usize::from(u16::from_le_bytes([block.data[2], block.data[3]]));
    InternalBlock::DataTree(
        block.data[8..8 + 8 * count]
            .chunks(8)
            .map(|value| UnicodeBlockId { value: number(value) })
            .collect(),
    )
}

#[test]
fn writes_blocks_and_pages_before_the_last_header() {
    let (change, root) = change();
    let planned = change.blocks.len();
    assert_eq!(planned, 4);
    assert!(has_data(&change.nbt_entries));
    let entries = vec![entry(2, 0x4C00), entry(1, 0x4B00)];
    let message = NodeId::new(NodeIdType::NormalMessage, 2_000).unwrap();
    let mut commit = Commit::new(header(), entries, change, vec![message]);

    let mut done = Vec::new();
    let mut headers = Vec::new();
    let mut writes: Vec<FileWrite> = Vec::new();
    let mut length = 0;
    let mut tree = None;
    loop {
        let action = commit.next(tree.as_ref()).unwrap();
        tree = None;
        match action {
            CommitAction::WriteHeader(header) => {
                done.push('h');
                headers.push(header);
            }
            CommitAction::Write(write) => {
                done.push('w');
                writes.push(write);
            }
            CommitAction::ReadTree(entry) => {
                done.push('r');
                assert_eq!(entry.block.block, root);
                let block = writes.iter().find(|write| write.offset == entry.block.index);
                tree = Some(children(block.unwrap()));
            }
            CommitAction::SetLength(end) => {
                done.push('l');
                length = end;
            }
            CommitAction::SyncData => done.push('s'),
            CommitAction::SyncAll => done.push('a'),
            CommitAction::Done => break,
        }
    }
    let done: String = done.into_iter().collect();
    assert_eq!(done, "hswwwwsrwwlsha");

    // Nothing before the old end but the header is written.
    assert!(writes.iter().all(|write| write.offset >= END));
    assert!(writes.iter().all(|write| write.offset + write.data.len() as u64 <= length));

    // The first header still names the B-trees that were there before.
    let (first, last) = (&headers[0], &headers[1]);
    assert_eq!((first.root.node_btree.index, first.root.block_btree.index), (0x4800, 0x4A00));
    assert_eq!(first.root.file_eof_index, END);
    assert_eq!((first.root.amap_is_valid, first.unique), (AmapStatus::Invalid, 6));
    assert_eq!(last.root.block_btree.index, writes[4].offset);
    assert_eq!(last.root.node_btree.index, writes[5].offset);
    assert_eq!((last.root.file_eof_index, last.unique), (length, 7));
    assert!(last.root.file_eof_index > END);
    assert_eq!((last.next_page.value, last.next_block.value), (42, 104 * 4));
    assert_eq!(last.next_node_index(NodeIdType::NormalMessage), 2_001);

    // The block that no node refers to is gone from the B-tree.
    let leaf = &writes[4].data;
    assert_eq!(leaf[488], 5);
    let keys: Vec<u64> = (0..5).map(|i| number(&leaf[24 * i..24 * i + 8])).collect();
    assert_eq!(keys, vec![4, 400, 404, 408, root.value]);
    let leaf = &writes[5].data;
    assert_eq!(leaf[488], 2);
    assert_eq!((number(&leaf[..8]), number(&leaf[32..40])), (0x21, 0x8044));

    // A commit that is done stays done.
    assert!(matches!(commit.next(None), Ok(CommitAction::Done)));
}

/// The bytes of a file with a write.
fn write_to(file: &mut Vec<u8>, write: &FileWrite) {
    let (start, end) = (write.offset as usize, write.offset as usize + write.data.len());
    if file.len() < end {
        file.resize(end, 0);
    }
    file[start..end].copy_from_slice(&write.data);
}

#[test]
fn leaves_the_bytes_of_old_blocks() {
    let (change, _) = change();
    let entries = vec![entry(2, 0x4C00), entry(1, 0x4B00)];
    let mut commit = Commit::new(header(), entries, change, Vec::new());
    let old: Vec<u8> = (0..END).map(|i| (i % 251) as u8).collect();
    let mut file = old.clone();
    let mut last = header();
    let mut tree = None;
    loop {
        let action = commit.next(tree.as_ref()).unwrap();
        tree = None;
        match action {
            CommitAction::WriteHeader(header) => last = header,
            CommitAction::Write(write) => write_to(&mut file, &write),
            CommitAction::ReadTree(entry) => {
                let start = entry.block.index as usize;
                let data = file[start..start + usize::from(entry.size)].to_vec();
                tree = Some(children(&FileWrite { offset: entry.block.index, data }));
            }
            CommitAction::SetLength(length) => file.resize(length as usize, 0),
            CommitAction::SyncData | CommitAction::SyncAll => {}
            CommitAction::Done => break,
        }
        assert_eq!(&file[AMAP_FIRST_OFFSET as usize..END as usize], &old[AMAP_FIRST_OFFSET as usize..]);
    }
    assert!(last.root.file_eof_index > END);
    assert_eq!(last.root.file_eof_index, file.len() as u64);

    // The maps are written over, and nothing else. The block that no node refers to any more, at
    // 0x4C00, keeps its bytes.
    let end = last.root.file_eof_index;
    let regions = begin_allocation_map(&last, u64::MAX).unwrap().unwrap();
    assert_eq!(regions.len(), 2);
    for page in rebuild_allocation_map(&mut last, regions, u64::MAX).unwrap() {
        let offset = page.offset;
        write_to(&mut file, &write_page(page.page_type, offset, offset, page.map_bits));
    }
    assert_eq!(&file[0x4800..END as usize], &old[0x4800..]);
    assert_ne!(&file[0x4400..0x4800], &old[0x4400..0x4800]);
    assert_eq!(last.root.file_eof_index, end);
}

#[test]
fn refuses_to_commit_nodes_without_blocks() {
    let (change, _) = change();
    let mut commit = Commit::new(header(), Vec::new(), change, Vec::new());
    // The header, a sync, four blocks and a sync come first.
    for _ in 0..7 {
        assert!(commit.next(None).is_ok());
    }
    let error = loop {
        match commit.next(Some(&InternalBlock::DataTree(Vec::new()))) {
            Ok(action) => assert!(matches!(action, CommitAction::ReadTree(_))),
            Err(error) => break error,
        }
    };
    assert!(matches!(error, PstError::Io(IoError::BlockMissing(4))));
}

#[test]
fn knows_nodes_without_data() {
    assert!(!has_data(&Vec::new()));
    assert!(!has_data(&vec![node(0x21, UnicodeBlockId { value: 0 })]));
    assert!(has_data(&vec![
        node(0x21, UnicodeBlockId { value: 0 }),
        node(0x61, UnicodeBlockId { value: 4 })
    ]));
}
