//! Messages, recipients and attachments, planned as blocks and read back from them.

use outlook_pst::error::{IoError, IoErrorKind, PstError};
use outlook_pst::ltp::property::PropertyType;
use outlook_pst::ltp::table::{TableCell, TableColumnDescriptor};
use outlook_pst::messaging::append::{
    check_append, check_batch, message_ids, message_sizes, new_message_updates, push_message,
    AppendSession,
};
use outlook_pst::messaging::attachment::{
    attachment_content_id, attachment_ids, attachment_size,
};
use outlook_pst::messaging::input::{
    UnicodePstAttachment, UnicodePstBatchMessage, UnicodePstMessage, UnicodePstRecipient,
    UnicodePstRecipientType,
};
use outlook_pst::messaging::message::{entry_id_bytes, message_size, new_message_table_cell};
use outlook_pst::messaging::recipient::{
    one_off_entry_id, recipient_display, recipient_display_table_cell, recipient_search_key,
    string_table_cell,
};
use outlook_pst::messaging::search::SearchUpdateData;
use outlook_pst::ndb::allocation::AMAP_FIRST_OFFSET;
use outlook_pst::ndb::block::{NewBlock, NewBlockData, UnicodeLeafSubNodeTreeEntry};
use outlook_pst::ndb::btree::{UnicodeBlockBTreeEntry, UnicodeNodeBTreeEntry};
use outlook_pst::ndb::header::{AmapStatus, Header, NdbCryptMethod, Root};
use outlook_pst::ndb::ids::{
    NodeId, NodeIdType, UnicodeBlockId, UnicodeBlockRef, UnicodePageId, UnicodePageRef,
};
use outlook_pst::text::utf16_bytes;

const TIME: i64 = 133_750_080_000_000_000;

fn u16_at(data: &[u8], at: usize) -> u16 {
    u16::from_le_bytes([data[at], data[at + 1]])
}

fn u32_at(data: &[u8], at: usize) -> u32 {
    u32::from_le_bytes([data[at], data[at + 1], data[at + 2], data[at + 3]])
}

fn allocation(pages: &[Vec<u8>], id: u32) -> Vec<u8> {
    let page = &pages[(id >> 16) as usize];
    let slot = usize::from(id as u16 >> 5);
    let map = usize::from(u16_at(page, 0));
    let start = usize::from(u16_at(page, map + 4 + 2 * (slot - 1)));
    let end = usize::from(u16_at(page, map + 4 + 2 * slot));
    page[start..end].to_vec()
}

fn read_tree(pages: &[Vec<u8>], root: u32, level: u8, key_size: usize) -> Vec<Vec<u8>> {
    if root == 0 {
        return Vec::new();
    }
    let data = allocation(pages, root);
    if level == 0 {
        return data.chunks(8).map(|record| record.to_vec()).collect();
    }
    data.chunks(key_size + 4)
        .flat_map(|entry| read_tree(pages, u32_at(entry, key_size), level - 1, key_size))
        .collect()
}

/// The blocks of a plan.
struct Blocks<'a>(&'a [NewBlock]);

impl Blocks<'_> {
    fn block(&self, id: UnicodeBlockId) -> &NewBlock {
        self.0.iter().find(|block| block.id == id).unwrap()
    }

    fn pages(&self, id: UnicodeBlockId) -> Vec<Vec<u8>> {
        match &self.block(id).data {
            NewBlockData::Data(data) => vec![data.clone()],
            NewBlockData::DataTree(entries, _, _) => {
                entries.iter().flat_map(|entry| self.pages(*entry)).collect()
            }
            _ => panic!("not a data tree"),
        }
    }

    fn subnodes(&self, id: UnicodeBlockId) -> Vec<UnicodeLeafSubNodeTreeEntry> {
        match &self.block(id).data {
            NewBlockData::SubNodes(entries) => entries.clone(),
            NewBlockData::IntermediateSubNodes(entries, _) => {
                entries.iter().flat_map(|entry| self.subnodes(entry.block)).collect()
            }
            _ => panic!("not a subnode tree"),
        }
    }

    fn subnode(&self, tree: UnicodeBlockId, node: NodeId) -> Option<UnicodeLeafSubNodeTreeEntry> {
        self.subnodes(tree).into_iter().find(|entry| entry.node == node)
    }

    /// The value of a property of a node: its bytes, or the bytes of its number.
    fn property(
        &self,
        data: UnicodeBlockId,
        sub_node: Option<UnicodeBlockId>,
        id: u16,
    ) -> Option<(u16, Vec<u8>)> {
        let pages = self.pages(data);
        let header = allocation(&pages, u32_at(&pages[0], 4));
        let records = read_tree(&pages, u32_at(&header, 4), header[3], 2);
        let record = records.into_iter().find(|record| u16_at(record, 0) == id)?;
        let code = u16_at(&record, 2);
        let number = u32_at(&record, 4);
        let value = if matches!(code, 0x0002 | 0x0003 | 0x000A | 0x000B) {
            number.to_le_bytes().to_vec()
        } else if number == 0 {
            Vec::new()
        } else if number % 32 == 0 {
            allocation(&pages, number)
        } else {
            let entry = self.subnode(sub_node.unwrap(), NodeId { value: number }).unwrap();
            self.pages(entry.block).concat()
        };
        Some((code, value))
    }

    /// The cells of a column in the rows of a table.
    fn column(
        &self,
        data: UnicodeBlockId,
        sub_node: Option<UnicodeBlockId>,
        id: u16,
    ) -> Vec<Option<Vec<u8>>> {
        let pages = self.pages(data);
        let context = allocation(&pages, u32_at(&pages[0], 4));
        let row_size = usize::from(u16_at(&context, 8));
        let bitmap = usize::from(u16_at(&context, 6));
        let column = context[22..].chunks(8).find(|column| u16_at(column, 2) == id).unwrap();
        let (code, offset, size) = (u16_at(column, 0), usize::from(u16_at(column, 4)), column[6]);
        let bit = usize::from(column[7]);
        let node = NodeId { value: u32_at(&context, 14) };
        if node.value == 0 {
            return Vec::new();
        }
        let entry = self.subnode(sub_node.unwrap(), node).unwrap();
        self.pages(entry.block)
            .iter()
            .flat_map(|chunk| chunk.chunks_exact(row_size).map(|row| row.to_vec()))
            .filter(|row| u32_at(row, 0) != 0)
            .map(|row| {
                if row[bitmap + bit / 8] & (0x80 >> (bit % 8)) == 0 {
                    return None;
                }
                let cell = row[offset..offset + usize::from(size)].to_vec();
                if matches!(code, 0x001F | 0x0102) {
                    Some(allocation(&pages, u32_at(&cell, 0)))
                } else {
                    Some(cell)
                }
            })
            .collect()
    }
}

fn message<'a>(recipients: &'a [UnicodePstRecipient<'a>], body: &'a str) -> UnicodePstMessage<'a> {
    UnicodePstMessage {
        subject: "large",
        sender_name: "sender",
        sender_email: "sender@example.com",
        recipients,
        body,
        html_body: Some("<p>HTML 본문</p>"),
        message_id: "<large@example.com>",
        delivery_time: TIME,
    }
}

fn recipients() -> Vec<UnicodePstRecipient<'static>> {
    vec![
        UnicodePstRecipient {
            name: "",
            email: "to@example.com",
            recipient_type: UnicodePstRecipientType::To,
        },
        UnicodePstRecipient {
            name: "Copy",
            email: "cc@example.com",
            recipient_type: UnicodePstRecipientType::Cc,
        },
        UnicodePstRecipient {
            name: "Second",
            email: "two@example.com",
            recipient_type: UnicodePstRecipientType::To,
        },
    ]
}

fn node(id_type: NodeIdType, index: u32) -> NodeId {
    NodeId::new(id_type, index).unwrap()
}

fn header() -> Header {
    let page = UnicodePageRef { block: UnicodePageId { value: 1 }, index: 0x4800 };
    Header {
        crypt_method: NdbCryptMethod::Plain,
        unique: 5,
        next_block: UnicodeBlockId::new(false, 100).unwrap(),
        next_page: UnicodePageId { value: 40 },
        next_nodes: vec![0x400; 32],
        root: Root {
            file_eof_index: 0x8000,
            amap_last_index: AMAP_FIRST_OFFSET,
            amap_free_size: 0,
            pmap_free_size: 0,
            node_btree: page,
            block_btree: page,
            amap_is_valid: AmapStatus::Valid2,
        },
        first_free_map: vec![0; 128],
    }
}

#[test]
fn sizes_attachments() {
    let data = vec![7u8; 9_000];
    let large = UnicodePstAttachment {
        filename: "large.png",
        mime_type: "image/png",
        content_id: Some("<large-image@example.com>"),
        data: &data,
    };
    assert_eq!(attachment_size(&large).unwrap(), 9_124);
    assert_eq!(attachment_content_id(&large).unwrap(), Some("large-image@example.com"));
    let empty = UnicodePstAttachment {
        filename: "empty.txt",
        mime_type: "text/plain",
        content_id: None,
        data: &[],
    };
    assert_eq!(attachment_size(&empty).unwrap(), 74);
    assert_eq!(attachment_content_id(&empty).unwrap(), None);
}

#[test]
fn counts_every_byte_of_an_attachment_once() {
    let people = recipients();
    let input = message(&people, "body");
    let data = vec![7u8; 20_000];
    let attached = |data| UnicodePstAttachment {
        filename: "report.pdf",
        mime_type: "application/pdf",
        content_id: None,
        data,
    };
    let size = |attachments: &[UnicodePstAttachment<'_>], index, row_version| {
        let id = node(NodeIdType::NormalMessage, index);
        message_size(&input, attachments, id, row_version).unwrap()
    };
    let empty = size(&[attached(&[])], 0x400, 1);
    assert_eq!(size(&[attached(&data)], 0x400, 1), empty + 20_000);
    // Neither the identifier of the message nor the version of its rows matters.
    assert_eq!(size(&[attached(&data)], 0x7_0001, 0xFFFF_FFFF), empty + 20_000);
    assert_eq!(
        size(&[attached(&data), attached(&data[..1])], 0x400, 1),
        size(&[attached(&[]), attached(&[])], 0x400, 1) + 20_001
    );
}

#[test]
fn normalizes_content_identifiers() {
    let with_id = |content_id| UnicodePstAttachment {
        filename: "a",
        mime_type: "image/png",
        content_id: Some(content_id),
        data: &[],
    };
    assert_eq!(attachment_content_id(&with_id("image@x")).unwrap(), Some("image@x"));
    assert_eq!(attachment_content_id(&with_id("<image@x>")).unwrap(), Some("image@x"));
    assert_eq!(attachment_content_id(&with_id("<image@x")).unwrap(), Some("image@x"));
    assert_eq!(attachment_content_id(&with_id("image@x>")).unwrap(), Some("image@x"));
    assert_eq!(attachment_content_id(&with_id("<<a>>")).unwrap(), Some("<a>"));
    for empty in ["", "<>", "<", ">"] {
        match attachment_content_id(&with_id(empty)) {
            Err(PstError::Io(error)) => {
                assert_eq!(error, IoError::EmptyContentId);
                assert_eq!(error.kind(), IoErrorKind::InvalidInput);
            }
            _ => panic!("expected an error for {empty:?}"),
        }
    }
}

#[test]
fn numbers_attachments() {
    let ids = attachment_ids(3).unwrap();
    assert_eq!(ids.len(), 3);
    assert!(ids.iter().all(|id| id.is_type(NodeIdType::Attachment)));
    assert_eq!((ids[0].index(), ids[2].index()), (0x100, 0x102));
}

#[test]
fn shows_recipients() {
    let recipients = recipients();
    assert_eq!(
        recipient_display(&recipients, UnicodePstRecipientType::To),
        "to@example.com; Second"
    );
    assert_eq!(recipient_display(&recipients, UnicodePstRecipientType::Cc), "Copy");
    assert_eq!(recipient_display(&recipients, UnicodePstRecipientType::Bcc), "");
    assert!(recipient_display_table_cell(
        PropertyType::Unicode,
        &recipients,
        UnicodePstRecipientType::Bcc
    )
    .is_none());
    assert!(matches!(
        recipient_display_table_cell(PropertyType::Unicode, &recipients, UnicodePstRecipientType::Cc),
        Some(TableCell::Bytes(data)) if data == utf16_bytes("Copy")
    ));
    assert!(matches!(
        string_table_cell(PropertyType::String8, "ab"),
        Some(TableCell::Bytes(data)) if data == vec![97, 98, 0]
    ));
    assert!(string_table_cell(PropertyType::Integer32, "ab").is_none());
    assert_eq!(recipient_search_key("a@B.c"), b"SMTP:A@B.C\0".to_vec());
    let entry = one_off_entry_id(&recipients[1]);
    assert_eq!(&entry[..6], &[0, 0, 0, 0, 0x81, 0x2B]);
    assert_eq!(&entry[20..24], &[0, 0, 0, 0x80]);
    let text = [utf16_bytes("Copy"), utf16_bytes("SMTP"), utf16_bytes("cc@example.com")].concat();
    assert_eq!(&entry[24..], text.as_slice());
}

#[test]
fn reads_back_a_message_with_large_parts() {
    let body = "본문".repeat(2_500);
    let recipients = recipients();
    let data: Vec<u8> = (0..9_000u32).map(|i| i as u8).collect();
    let attachments = [
        UnicodePstAttachment {
            filename: "large.png",
            mime_type: "image/png",
            content_id: Some("<large-image@example.com>"),
            data: &data,
        },
        UnicodePstAttachment {
            filename: "empty.txt",
            mime_type: "text/plain",
            content_id: None,
            data: &[],
        },
    ];
    let input = UnicodePstBatchMessage { message: message(&recipients, &body), attachments: &attachments };
    let id = node(NodeIdType::NormalMessage, 0x400);
    let folder = node(NodeIdType::NormalFolder, 0x401);
    let size = message_size(&input.message, input.attachments, id, 9).unwrap();
    assert!(size > 2 * 5_000 + 9_000);
    let mut blocks = Vec::new();
    let (mut next_bid, mut next_offset) = (50, AMAP_FIRST_OFFSET);
    let entry =
        push_message(&mut blocks, &mut next_bid, &mut next_offset, &input, id, size, folder, 9)
            .unwrap();
    assert_eq!((entry.node, entry.parent), (id, Some(folder)));
    let file = Blocks(&blocks);
    let property = |id| file.property(entry.data, entry.sub_node, id);

    assert_eq!(property(0x001A), Some((0x001F, utf16_bytes("IPM.Note"))));
    assert_eq!(property(0x0037), Some((0x001F, utf16_bytes("large"))));
    assert_eq!(property(0x1000), Some((0x001F, utf16_bytes(&body))));
    assert_eq!(property(0x1013), Some((0x0102, "<p>HTML 본문</p>".as_bytes().to_vec())));
    assert_eq!(property(0x0E04), Some((0x001F, utf16_bytes("to@example.com; Second"))));
    assert_eq!(property(0x0E02), None);
    assert_eq!(property(0x0E06), Some((0x0040, TIME.to_le_bytes().to_vec())));
    assert_eq!(property(0x0E07), Some((0x0003, vec![0x11, 0, 0, 0])));
    assert_eq!(property(0x0E08), Some((0x0003, size.to_le_bytes().to_vec())));
    assert_eq!(property(0x0E1B), Some((0x000B, vec![1, 0, 0, 0])));
    assert_eq!(property(0x3FDE), Some((0x0003, 65_001u32.to_le_bytes().to_vec())));

    let table = file.subnode(entry.sub_node.unwrap(), NodeId { value: 0x692 }).unwrap();
    let column = |id| file.column(table.block, table.sub_node, id);
    assert_eq!(
        column(0x3003),
        vec![
            Some(utf16_bytes("to@example.com")),
            Some(utf16_bytes("cc@example.com")),
            Some(utf16_bytes("two@example.com")),
        ]
    );
    assert_eq!(
        column(0x0C15),
        vec![Some(vec![1, 0, 0, 0]), Some(vec![2, 0, 0, 0]), Some(vec![1, 0, 0, 0])]
    );
    let table = file.subnode(entry.sub_node.unwrap(), NodeId { value: 0x671 }).unwrap();
    let sizes = file.column(table.block, table.sub_node, 0x0E20);
    assert_eq!(
        sizes,
        vec![Some(9_124u32.to_le_bytes().to_vec()), Some(74u32.to_le_bytes().to_vec())]
    );
    let ids = attachment_ids(2).unwrap();
    let attachment = file.subnode(entry.sub_node.unwrap(), ids[0]).unwrap();
    let property = |id| file.property(attachment.block, attachment.sub_node, id);
    assert_eq!(property(0x3707), Some((0x001F, utf16_bytes("large.png"))));
    assert_eq!(property(0x370E), Some((0x001F, utf16_bytes("image/png"))));
    assert_eq!(property(0x3712), Some((0x001F, utf16_bytes("large-image@example.com"))));
    assert_eq!(property(0x3701), Some((0x0102, data.clone())));
    let empty = file.subnode(entry.sub_node.unwrap(), ids[1]).unwrap();
    assert_eq!(file.property(empty.block, empty.sub_node, 0x3712), None);
    assert_eq!(
        file.property(empty.block, empty.sub_node, 0x3701),
        Some((0x0102, Vec::new()))
    );
}

#[test]
fn writes_an_empty_html_body() {
    let recipients = recipients();
    let input = UnicodePstBatchMessage {
        message: UnicodePstMessage { html_body: Some(""), ..message(&recipients, "plain") },
        attachments: &[],
    };
    let id = node(NodeIdType::NormalMessage, 0x400);
    let mut blocks = Vec::new();
    let (mut next_bid, mut next_offset) = (50, AMAP_FIRST_OFFSET);
    let entry = push_message(
        &mut blocks,
        &mut next_bid,
        &mut next_offset,
        &input,
        id,
        1,
        node(NodeIdType::NormalFolder, 9),
        1,
    )
    .unwrap();
    let file = Blocks(&blocks);
    assert_eq!(file.property(entry.data, entry.sub_node, 0x1013), Some((0x0102, Vec::new())));
    assert_eq!(file.property(entry.data, entry.sub_node, 0x1000), Some((0x001F, utf16_bytes("plain"))));
    assert_eq!(file.property(entry.data, entry.sub_node, 0x0E07), Some((0x0003, vec![1, 0, 0, 0])));
}

#[test]
fn fills_the_row_of_a_message() {
    let recipients = recipients();
    let input = message(&recipients, "body");
    let key = [7u8; 16];
    let folder = node(NodeIdType::NormalFolder, 9);
    let id = node(NodeIdType::NormalMessage, 0x400);
    let cell = |prop_type, prop_id| {
        let column =
            TableColumnDescriptor { prop_type, prop_id, offset: 0, size: 4, existence_bitmap_index: 0 };
        new_message_table_cell(&column, &input, &[], &key, folder, id, 3, 1_234)
    };
    assert!(matches!(
        cell(PropertyType::Unicode, 0x0037),
        Some(TableCell::Bytes(data)) if data == utf16_bytes("large")
    ));
    assert!(cell(PropertyType::Unicode, 0x0E02).is_none());
    assert!(matches!(
        cell(PropertyType::Binary, 0x0FFF),
        Some(TableCell::Bytes(data)) if data == entry_id_bytes(&key, id)
    ));
    assert!(cell(PropertyType::Integer32, 0x7777).is_none());
    assert!(cell(PropertyType::Integer64, 0x0E08).is_none());
    let mut expected = vec![0u8; 4];
    expected.extend([7; 16]);
    expected.extend(id.value.to_le_bytes());
    assert_eq!(entry_id_bytes(&key, id), expected);
}

#[test]
fn checks_a_batch() {
    assert!(matches!(check_batch(&[]), Err(PstError::Io(IoError::EmptyBatch))));
    let recipients = recipients();
    let input = UnicodePstBatchMessage { message: message(&recipients, "body"), attachments: &[] };
    assert!(check_batch(&[input]).is_ok());
    let mut header = header();
    assert!(check_append(&header).is_ok());
    header.crypt_method = NdbCryptMethod::Cyclic;
    assert!(matches!(check_append(&header), Err(PstError::Io(IoError::AppendEncrypted))));
}

#[test]
fn numbers_messages_and_reports_the_one_that_fails() {
    let entries = vec![UnicodeNodeBTreeEntry::new(
        node(NodeIdType::NormalMessage, 0x500),
        UnicodeBlockId { value: 4 },
        None,
        None,
    )];
    let ids = message_ids(&header(), &entries, 2).unwrap();
    assert_eq!((ids[0].index(), ids[1].index()), (0x501, 0x502));
    assert_eq!(message_ids(&header(), &Vec::new(), 1).unwrap()[0].index(), 0x400);

    let recipients = recipients();
    let invalid = [UnicodePstAttachment {
        filename: "invalid.png",
        mime_type: "image/png",
        content_id: Some("<>"),
        data: &[],
    }];
    let inputs = [
        UnicodePstBatchMessage { message: message(&recipients, "body"), attachments: &[] },
        UnicodePstBatchMessage { message: message(&recipients, "body"), attachments: &invalid },
    ];
    match message_sizes(&inputs, &ids, 1) {
        Err(error) => {
            assert_eq!(error.position, 1);
            assert!(matches!(error.error, PstError::Io(IoError::EmptyContentId)));
        }
        Ok(_) => panic!("expected an error"),
    }
    let sizes = message_sizes(&inputs[..1], &vec![ids[0]], 1).unwrap();
    assert_eq!(sizes, vec![message_size(&inputs[0].message, &[], ids[0], 1).unwrap()]);
}

#[test]
fn appends_messages_one_after_the_other() {
    let recipients = recipients();
    let input = UnicodePstBatchMessage { message: message(&recipients, "body"), attachments: &[] };
    let existing = UnicodeBlockBTreeEntry::new(
        UnicodeBlockRef { block: UnicodeBlockId::new(false, 150).unwrap(), index: 0x4800 },
        8,
    );
    let folder = node(NodeIdType::NormalFolder, 9);
    let ids = [node(NodeIdType::NormalMessage, 0x400), node(NodeIdType::NormalMessage, 0x401)];
    let mut session = AppendSession::new(header(), vec![existing]);
    let first = session.append_message(&input, ids[0], 500, folder).unwrap();
    let second = session.append_message(&input, ids[1], 500, folder).unwrap();
    assert!(first.iter().chain(&second).all(|block| block.id.index() > 150));
    assert!(first.iter().all(|block| block.offset >= 0x8000));
    let last = first.last().unwrap();
    assert!(second.iter().all(|block| block.offset > last.offset && block.id.index() > last.id.index()));
    assert_eq!(session.bbt_entries.len(), 1 + first.len() + second.len());
    let nodes: Vec<NodeId> = session.message_entries.iter().map(|entry| entry.node).collect();
    assert_eq!(nodes, ids.to_vec());
    for (entry, blocks) in session.message_entries.iter().zip([&first, &second]) {
        let file = Blocks(blocks);
        assert_eq!(
            file.property(entry.data, entry.sub_node, 0x0037),
            Some((0x001F, utf16_bytes("large")))
        );
    }
    let updates = new_message_updates(folder, &ids.to_vec());
    assert_eq!(updates[1], SearchUpdateData::MessageAdded { parent: folder, message: ids[1] });
}
