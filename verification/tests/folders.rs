//! Folders: paths, lookups, new folders and the end of an append.

use outlook_pst::error::{IoError, IoErrorKind, PstError};
use outlook_pst::ltp::heap::HeapId;
use outlook_pst::ltp::property::{unicode, PropertyType, PropertyValue};
use outlook_pst::ltp::rebuild::{TableContext, TableRow, TableRowColumnValue};
use outlook_pst::ltp::table::{TableCell, TableColumnDescriptor, TableContextInfo};
use outlook_pst::messaging::append::{
    can_complete_append, complete_append, find_append_nodes, finish_append,
    next_contents_subnode, AppendError, AppendSession, AppendTarget,
};
use outlook_pst::messaging::create::{
    can_create_folder, check_folder_creation, create_folder, find_grandparent, find_parent_entry,
    folder_ids, new_folder_updates, reserved_nodes, FolderParent,
};
use outlook_pst::messaging::folder::{
    folder_data, new_folder_table_cell, set_folder_boolean_property, set_folder_integer_property,
    validate_folder_path, writable_folder_properties,
};
use outlook_pst::messaging::input::{UnicodePstBatchMessage, UnicodePstMessage};
use outlook_pst::messaging::message::{can_rebuild_contents_table, rebuild_contents_table};
use outlook_pst::messaging::path::{folder_step, FolderStep};
use outlook_pst::messaging::receive::{
    default_receive_folder, find_child_folder, rank_class, ChildFolder, ColumnReference,
    LookupError, ReceiveColumn, ReceiveRow, ReceivedValue,
};
use outlook_pst::messaging::search::{append_search_updates, SearchUpdateData};
use outlook_pst::messaging::update::TableNode;
use outlook_pst::ndb::allocation::AMAP_FIRST_OFFSET;
use outlook_pst::ndb::block::{NewBlock, NewBlockData};
use outlook_pst::ndb::btree::UnicodeNodeBTreeEntry;
use outlook_pst::ndb::header::{AmapStatus, Header, NdbCryptMethod, Root};
use outlook_pst::ndb::ids::{NodeId, NodeIdType, UnicodeBlockId, UnicodePageId, UnicodePageRef};
use outlook_pst::text::utf16_bytes;

fn u16_at(data: &[u8], at: usize) -> u16 {
    u16::from_le_bytes([data[at], data[at + 1]])
}

fn u32_at(data: &[u8], at: usize) -> u32 {
    u32::from_le_bytes([data[at], data[at + 1], data[at + 2], data[at + 3]])
}

fn allocation(page: &[u8], id: u32) -> Vec<u8> {
    let slot = usize::from(id as u16 >> 5);
    let map = usize::from(u16_at(page, 0));
    let start = usize::from(u16_at(page, map + 4 + 2 * (slot - 1)));
    let end = usize::from(u16_at(page, map + 4 + 2 * slot));
    page[start..end].to_vec()
}

/// The number in the record of a property in a context of one page.
fn number(page: &[u8], id: u16) -> Option<u32> {
    let header = allocation(page, u32_at(page, 4));
    let records = allocation(page, u32_at(&header, 4));
    let record = records.chunks(8).find(|record| u16_at(record, 0) == id)?;
    Some(u32_at(record, 4))
}

fn text(page: &[u8], id: u16) -> Option<Vec<u8>> {
    number(page, id).map(|value| allocation(page, value))
}

fn block(blocks: &[NewBlock], id: UnicodeBlockId) -> &NewBlock {
    blocks.iter().find(|block| block.id == id).unwrap()
}

fn data(blocks: &[NewBlock], id: UnicodeBlockId) -> Vec<u8> {
    match &block(blocks, id).data {
        NewBlockData::Data(data) => data.clone(),
        _ => panic!("not a data block"),
    }
}

fn rows(blocks: &[NewBlock], entry: &UnicodeNodeBTreeEntry, row_size: usize) -> Vec<Vec<u8>> {
    let page = data(blocks, entry.data);
    let context = allocation(&page, u32_at(&page, 4));
    let node = NodeId { value: u32_at(&context, 14) };
    let NewBlockData::SubNodes(subnodes) = &block(blocks, entry.sub_node.unwrap()).data else {
        panic!("expected subnodes");
    };
    let rows = subnodes.iter().find(|entry| entry.node == node).unwrap();
    data(blocks, rows.block).chunks(row_size).map(|row| row.to_vec()).collect()
}

fn node(id_type: NodeIdType, index: u32) -> NodeId {
    NodeId::new(id_type, index).unwrap()
}

fn entry(node: NodeId, parent: Option<NodeId>) -> UnicodeNodeBTreeEntry {
    UnicodeNodeBTreeEntry::new(node, UnicodeBlockId { value: 4 }, None, parent)
}

fn header() -> Header {
    let page = UnicodePageRef { block: UnicodePageId { value: 1 }, index: 0x4800 };
    Header {
        crypt_method: NdbCryptMethod::Plain,
        unique: 5,
        next_block: UnicodeBlockId::new(false, 100).unwrap(),
        next_page: UnicodePageId { value: 40 },
        next_nodes: vec![0x400; 32],
        root: Root {
            file_eof_index: 0x8000,
            amap_last_index: AMAP_FIRST_OFFSET,
            amap_free_size: 0,
            pmap_free_size: 0,
            node_btree: page,
            block_btree: page,
            amap_is_valid: AmapStatus::Valid2,
        },
        first_free_map: vec![0; 128],
    }
}

fn column(prop_type: PropertyType, prop_id: u16, offset: u16, size: u8, bit: u8) -> TableColumnDescriptor {
    TableColumnDescriptor { prop_type, prop_id, offset, size, existence_bitmap_index: bit }
}

fn context() -> TableContextInfo {
    TableContextInfo {
        end_4byte_values: 16,
        end_2byte_values: 16,
        end_1byte_values: 17,
        end_existence_bitmap: 18,
        row_index: HeapId::none(),
        rows: None,
        columns: vec![
            column(PropertyType::Integer32, 0x67F2, 0, 4, 0),
            column(PropertyType::Integer32, 0x67F3, 4, 4, 1),
            column(PropertyType::Unicode, 0x3001, 8, 4, 2),
            column(PropertyType::Integer32, 0x3602, 12, 4, 3),
            column(PropertyType::Boolean, 0x360A, 16, 1, 4),
        ],
    }
}

fn row(folder: NodeId, name: &str) -> TableRow {
    TableRow {
        id: folder.value,
        unique: 2,
        data: vec![0; 18],
        columns: vec![
            Some(TableRowColumnValue::Small(PropertyValue::Integer32(folder.value as i32))),
            Some(TableRowColumnValue::Small(PropertyValue::Integer32(2))),
            Some(TableRowColumnValue::Heap(HeapId { value: 0x20 }, unicode(name))),
            Some(TableRowColumnValue::Small(PropertyValue::Integer32(0))),
            Some(TableRowColumnValue::Small(PropertyValue::Boolean(false))),
        ],
    }
}

fn table_node(entry: UnicodeNodeBTreeEntry, rows: Vec<TableRow>) -> TableNode {
    TableNode {
        entry,
        table: TableContext { context: context(), rows, heap_pages: vec![vec![Vec::new()]] },
        subnodes: Vec::new(),
        rows_node: node(NodeIdType::Internal, 0x80),
    }
}

#[test]
fn checks_folder_paths() {
    assert!(validate_folder_path(&["Projects", "2026"]).is_ok());
    assert!(matches!(validate_folder_path(&[]), Err(PstError::Io(IoError::InvalidFolderPath))));
    match validate_folder_path(&["Projects", ""]) {
        Err(PstError::Io(error)) => {
            assert_eq!(error, IoError::InvalidFolderPath);
            assert_eq!(error.kind(), IoErrorKind::InvalidInput);
            assert!(error.text().is_some());
        }
        _ => panic!("expected an error"),
    }
}

#[test]
fn finds_a_folder_by_name() {
    let child = |index, name: Option<&str>| ChildFolder::<&str> {
        node: node(NodeIdType::NormalFolder, index),
        name: Ok(name.map(String::from)),
    };
    let children = vec![child(1, None), child(2, Some("Projects")), child(3, Some("PROJECTS"))];
    assert_eq!(
        find_child_folder(&children, "projects").unwrap(),
        Some(node(NodeIdType::NormalFolder, 2))
    );
    assert_eq!(find_child_folder(&children, "Archive").unwrap(), None);
    let broken = ChildFolder { node: node(NodeIdType::NormalFolder, 9), name: Err("broken") };
    let children = vec![child(2, Some("Projects")), broken];
    assert!(find_child_folder(&children, "projects").is_ok());
    assert_eq!(find_child_folder(&children, "Archive"), Err(&"broken"));
}

#[test]
fn steps_along_a_path() {
    let child = |index, name: &str| ChildFolder::<&str> {
        node: node(NodeIdType::NormalFolder, index),
        name: Ok(Some(String::from(name))),
    };
    let parent = node(NodeIdType::NormalFolder, 1);
    let found = node(NodeIdType::NormalFolder, 2);
    let children = vec![child(2, "Projects"), child(3, "PROJECTS")];
    // Names that differ in case alone lead to the same folder, and create none.
    for names in [["Projects", "2026"], ["pROJECTS", "2026"]] {
        assert_eq!(folder_step(&names, 0, parent, &children), Ok(FolderStep::Descend(found)));
        assert_eq!(
            folder_step(&names, 1, found, &children),
            Ok(FolderStep::Create(found, 1))
        );
        assert_eq!(folder_step(&names, 2, found, &children), Ok(FolderStep::Done(found)));
    }
    assert_eq!(
        folder_step(&["Archive"], 0, parent, &Vec::<ChildFolder<&str>>::new()),
        Ok(FolderStep::Create(parent, 0))
    );
    let broken = vec![ChildFolder { node: found, name: Err("broken") }];
    assert_eq!(folder_step(&["Archive"], 0, parent, &broken), Err(&"broken"));
}

fn class_row(class: &str, folder: i32) -> ReceiveRow<&'static str> {
    ReceiveRow {
        columns: Ok(vec![
            ReceiveColumn {
                prop_id: 0x001A,
                value: Some((ColumnReference::Small, Ok(ReceivedValue::Text(String::from(class))))),
            },
            ReceiveColumn {
                prop_id: 0x6605,
                value: Some((ColumnReference::Small, Ok(ReceivedValue::Integer32(folder)))),
            },
        ]),
    }
}

#[test]
fn finds_the_folder_that_receives_messages() {
    let inbox = ChildFolder::<&str> {
        node: node(NodeIdType::NormalFolder, 7),
        name: Ok(Some(String::from("INBOX"))),
    };
    let tables = vec![Some(vec![class_row("IPM.Note", 0x122)])];
    match default_receive_folder(&Some(vec![inbox]), &tables) {
        Ok(folder) => assert_eq!(folder, node(NodeIdType::NormalFolder, 7)),
        Err(_) => panic!("expected the inbox"),
    }
    let none: Vec<ChildFolder<&str>> = Vec::new();
    let tables = vec![
        None,
        Some(vec![class_row("", 0x22), class_row("ipm", 0x42), class_row("IPM", 0x62)]),
        Some(vec![class_row("IPM.Task", 0x82)]),
    ];
    match default_receive_folder(&Some(none), &tables) {
        Ok(folder) => assert_eq!(folder.value, 0x42),
        Err(_) => panic!("expected a folder"),
    }
    assert_eq!(
        (rank_class("IPM.note"), rank_class("IPM"), rank_class(""), rank_class("IPM.Task")),
        (3, 2, 1, 0)
    );
}

#[test]
fn reports_why_there_is_no_receive_folder() {
    let no_tables: Vec<Option<Vec<ReceiveRow<&str>>>> = Vec::new();
    assert!(matches!(
        default_receive_folder(&None, &no_tables),
        Err(LookupError::Missing(IoError::IpmHierarchyTableNotFound))
    ));
    let none: Vec<ChildFolder<&str>> = Vec::new();
    let children = Some(none);
    assert!(matches!(
        default_receive_folder(&children, &no_tables),
        Err(LookupError::Missing(IoError::ReceiveFolderNotFound))
    ));
    let broken = vec![Some(vec![ReceiveRow { columns: Err("broken") }])];
    assert!(matches!(
        default_receive_folder(&children, &broken),
        Err(LookupError::Read(&"broken"))
    ));
    // A value that names nothing is passed over, as is a folder of number 0.
    let null = ReceiveRow {
        columns: Ok(vec![
            ReceiveColumn {
                prop_id: 0x0FFF,
                value: Some((ColumnReference::Heap(HeapId::none()), Err("unread"))),
            },
            ReceiveColumn {
                prop_id: 0x6605,
                value: Some((ColumnReference::Small, Ok(ReceivedValue::Integer32(0)))),
            },
        ]),
    };
    assert!(matches!(
        default_receive_folder(&children, &vec![Some(vec![null])]),
        Err(LookupError::Missing(IoError::ReceiveFolderNotFound))
    ));
    let entry = ReceiveRow {
        columns: Ok(vec![ReceiveColumn {
            prop_id: 0x0FFF,
            value: Some((
                ColumnReference::Heap(HeapId { value: 0x20 }),
                Ok(ReceivedValue::Binary(Ok(NodeId { value: 0x8022 }))),
            )),
        }]),
    };
    match default_receive_folder::<&str>(&children, &vec![Some(vec![entry])]) {
        Ok(folder) => assert_eq!(folder.value, 0x8022),
        Err(_) => panic!("expected a folder"),
    }
}

#[test]
fn writes_the_properties_of_a_folder() {
    let page = folder_data("Projects", 3, true).unwrap();
    assert_eq!(text(&page, 0x3001), Some(utf16_bytes("Projects")));
    assert_eq!(number(&page, 0x3602), Some(3));
    assert_eq!(number(&page, 0x3603), Some(0));
    assert_eq!(number(&page, 0x360A), Some(1));
    assert_eq!(text(&page, 0x3613), Some(utf16_bytes("IPF.Note")));
}

#[test]
fn changes_properties_of_a_folder() {
    let mut properties = vec![
        (0x3602, PropertyValue::Integer32(1)),
        (0x3001, unicode("Inbox")),
        (0x3601, PropertyValue::Integer32(1)),
        (0x0FFF, PropertyValue::Binary(vec![1])),
    ];
    set_folder_integer_property(&mut properties, 0x3602, 8);
    set_folder_boolean_property(&mut properties, 0x360A, true);
    assert_eq!(properties.len(), 5);
    assert!(matches!(properties[0], (0x3602, PropertyValue::Integer32(8))));
    assert!(matches!(properties[4], (0x360A, PropertyValue::Boolean(true))));
    let writable = writable_folder_properties(&properties);
    let ids: Vec<u16> = writable.iter().map(|property| property.0).collect();
    assert_eq!(ids, vec![0x3602, 0x3001, 0x3601, 0x0FFF, 0x360A]);
    assert!(matches!(writable[2].1, PropertyValue::Integer32(1)));
    assert!(matches!(&writable[3].1, PropertyValue::Binary(data) if *data == vec![1]));
}

#[test]
fn fills_the_row_of_a_new_folder() {
    let folder = node(NodeIdType::NormalFolder, 0x401);
    let cell = |prop_type, id| {
        new_folder_table_cell(&column(prop_type, id, 0, 4, 0), &[1; 16], folder, "Name", false, 6)
    };
    assert!(matches!(
        cell(PropertyType::Unicode, 0x3001),
        Some(TableCell::Bytes(data)) if data == utf16_bytes("Name")
    ));
    assert!(matches!(
        cell(PropertyType::Integer32, 0x67F2),
        Some(TableCell::Value(PropertyValue::Integer32(value))) if value as u32 == folder.value
    ));
    assert!(cell(PropertyType::Integer32, 0x7777).is_none());
}

#[test]
fn finds_what_a_new_folder_needs() {
    let parent = node(NodeIdType::NormalFolder, 0x401);
    let top = node(NodeIdType::NormalFolder, 9);
    let entries = vec![entry(top, None), entry(parent, Some(top))];
    assert_eq!(find_parent_entry(&entries, parent).unwrap(), entries[1]);
    assert!(matches!(
        find_parent_entry(&entries, NodeId { value: 2 }),
        Err(PstError::Io(IoError::ParentFolderNodeNotFound))
    ));
    assert_eq!(find_grandparent(&entries[1]).unwrap(), top);
    assert!(matches!(
        find_grandparent(&entries[0]),
        Err(PstError::Io(IoError::ParentFolderHasNoParent))
    ));
    let new = folder_ids(&header(), &entries).unwrap();
    assert_eq!(new.folder, node(NodeIdType::NormalFolder, 0x402));
    assert_eq!(new.hierarchy, node(NodeIdType::HierarchyTable, 0x402));
    assert_eq!(new.contents, node(NodeIdType::ContentsTable, 0x402));
    assert_eq!(new.associated_contents, node(NodeIdType::AssociatedContentsTable, 0x402));
    assert_eq!(
        reserved_nodes(new),
        vec![new.folder, new.hierarchy, new.contents, new.associated_contents]
    );
    let mut encoded = header();
    assert!(check_folder_creation(&encoded).is_ok());
    encoded.crypt_method = NdbCryptMethod::Permute;
    assert!(matches!(
        check_folder_creation(&encoded),
        Err(PstError::Io(IoError::FolderCreationEncrypted))
    ));
}

#[test]
fn creates_a_folder_below_another() {
    let top = node(NodeIdType::NormalFolder, 9);
    let parent = node(NodeIdType::NormalFolder, 0x401);
    let hierarchy = node(NodeIdType::HierarchyTable, 0x401);
    let above = node(NodeIdType::HierarchyTable, 9);
    let contents_template = NodeId { value: 0x60E };
    let entries = vec![
        entry(parent, Some(top)),
        entry(hierarchy, None),
        entry(above, None),
        UnicodeNodeBTreeEntry::new(contents_template, UnicodeBlockId { value: 64 }, None, None),
    ];
    let new = folder_ids(&header(), &entries).unwrap();
    let existing = node(NodeIdType::NormalFolder, 0x300);
    let mut below = FolderParent {
        entry: entries[0],
        has_subfolders: false,
        properties: vec![(0x3001, unicode("Parent")), (0x360A, PropertyValue::Boolean(false))],
        subnodes: Vec::new(),
        hierarchy: Some(table_node(entries[1], Vec::new())),
        hierarchy_parent: None,
        grandparent_hierarchy: Some(table_node(
            entries[2],
            vec![row(existing, "other"), row(parent, "Parent")],
        )),
    };
    assert!(can_create_folder(&header(), &below, &[7; 16], new, "Child"));
    let hierarchy_node = below.hierarchy.take();
    let mut narrow = table_node(entries[1], Vec::new());
    narrow.table.context.end_existence_bitmap = 7;
    below.hierarchy = Some(narrow);
    assert!(!can_create_folder(&header(), &below, &[7; 16], new, "Child"));
    below.hierarchy = hierarchy_node;
    // The row above is written anew exactly where the parent had no folders.
    below.has_subfolders = true;
    assert!(!can_create_folder(&header(), &below, &[7; 16], new, "Child"));
    let above_node = below.grandparent_hierarchy.take();
    assert!(can_create_folder(&header(), &below, &[7; 16], new, "Child"));
    below.has_subfolders = false;
    assert!(!can_create_folder(&header(), &below, &[7; 16], new, "Child"));
    below.grandparent_hierarchy = above_node;
    let plan =
        create_folder(&header(), &Vec::new(), entries.clone(), below, &[7; 16], new, "Child")
            .unwrap();
    let find = |node| *plan.nbt_entries.iter().find(|entry| entry.node == node).unwrap();
    assert_eq!(plan.nbt_entries.len(), 8);
    let folder = find(new.folder);
    assert_eq!(folder.parent, Some(parent));
    let page = data(&plan.blocks, folder.data);
    assert_eq!(text(&page, 0x3001), Some(utf16_bytes("Child")));
    assert_eq!(number(&page, 0x3602), Some(0));
    // The parent keeps its name and says that it has folders.
    let page = data(&plan.blocks, find(parent).data);
    assert_eq!(text(&page, 0x3001), Some(utf16_bytes("Parent")));
    assert_eq!(number(&page, 0x360A), Some(1));
    let children = rows(&plan.blocks, &find(hierarchy), 18);
    assert_eq!(children.len(), 1);
    assert_eq!(u32_at(&children[0], 0), new.folder.value);
    let siblings = rows(&plan.blocks, &find(above), 18);
    assert_eq!((siblings[0][16], siblings[1][16]), (0, 1));
    // The contents table is that of the file, the other tables are new.
    assert_eq!(find(new.contents).data.value, 64);
    assert!(plan.blocks.iter().any(|block| block.id == find(new.hierarchy).data));
    assert!(plan.blocks.iter().all(|block| block.id.index() >= 100 && block.offset >= 0x8000));
    assert_eq!(find(contents_template), entries[3]);

    let updates = new_folder_updates(parent, new.folder);
    assert_eq!(
        updates,
        vec![
            SearchUpdateData::FolderAdded {
                parent,
                folder: new.folder,
                reserved1: 0,
                reserved2: 0
            },
            SearchUpdateData::FolderModified { folder: parent, reserved: 0 },
        ]
    );
}

#[test]
fn finishes_an_append() {
    let top = node(NodeIdType::NormalFolder, 9);
    let folder = node(NodeIdType::NormalFolder, 0x401);
    let contents = node(NodeIdType::ContentsTable, 0x401);
    let above = node(NodeIdType::HierarchyTable, 9);
    let other = node(NodeIdType::NormalFolder, 0x300);
    let entries =
        vec![entry(folder, Some(top)), entry(contents, None), entry(above, None), entry(other, None)];
    let found = find_append_nodes(&entries, folder).unwrap();
    assert_eq!(
        (found.contents, found.folder, found.parent_hierarchy),
        (entries[1], entries[0], Some(entries[2]))
    );
    let input = UnicodePstMessage {
        subject: "subject",
        sender_name: "sender",
        sender_email: "sender@example.com",
        recipients: &[],
        body: "body",
        html_body: None,
        message_id: "<id@example.com>",
        delivery_time: 0,
    };
    let inputs = [UnicodePstBatchMessage { message: input, attachments: &[] }];
    let message = node(NodeIdType::NormalMessage, 0x400);
    let mut session = AppendSession::new(header(), Vec::new());
    session.append_message(&inputs[0], message, 700, folder).unwrap();
    let contents_node = table_node(entries[1], Vec::new());
    let next = next_contents_subnode(&contents_node.subnodes, contents_node.rows_node);
    assert_eq!(next, 0x81);
    let can_rebuild = |table: &TableContext| {
        can_rebuild_contents_table(
            table,
            &inputs,
            &[7; 16],
            folder,
            &vec![message],
            &vec![700],
            next,
            session.header.unique,
        )
    };
    assert!(can_rebuild(&contents_node.table));
    let mut narrow = table_node(entries[1], Vec::new());
    narrow.table.context.end_existence_bitmap = 7;
    assert!(!can_rebuild(&narrow.table));
    let (rebuilt, external) = rebuild_contents_table(
        &contents_node.table,
        &inputs,
        &[7; 16],
        folder,
        &vec![message],
        &vec![700],
        contents_node.rows_node,
        next,
        session.header.unique,
    )
    .unwrap();
    assert!(external.is_empty());
    let mut target = AppendTarget {
        folder: entries[0],
        properties: vec![(0x3001, unicode("Inbox")), (0x3602, PropertyValue::Integer32(0))],
        subnodes: Vec::new(),
        contents: contents_node,
        parent_hierarchy: Some(table_node(entries[2], vec![row(folder, "Inbox")])),
    };
    let can_complete = |target: &AppendTarget| {
        can_complete_append(&session, target, &inputs, &[7; 16], &vec![message], &vec![700])
    };
    assert!(can_complete(&target));
    let hierarchy_node = target.parent_hierarchy.take();
    assert!(can_complete(&target));
    let mut narrow = table_node(entries[2], vec![row(folder, "Inbox")]);
    narrow.table.context.columns[0].offset = 60_000;
    target.parent_hierarchy = Some(narrow);
    assert!(!can_complete(&target));
    target.parent_hierarchy = hierarchy_node;
    let plan = finish_append(&session, entries.clone(), target, rebuilt, &external).unwrap();
    let find = |node| *plan.nbt_entries.iter().find(|entry| entry.node == node).unwrap();
    assert_eq!(find(message).parent, Some(folder));
    assert_eq!(find(other), entries[3]);
    let page = data(&plan.blocks, find(folder).data);
    assert_eq!(text(&page, 0x3001), Some(utf16_bytes("Inbox")));
    assert_eq!(number(&page, 0x3602), Some(1));
    let messages = rows(&plan.blocks, &find(contents), 18);
    assert_eq!((messages.len(), u32_at(&messages[0], 0)), (1, message.value));
    let folders = rows(&plan.blocks, &find(above), 18);
    assert_eq!((u32_at(&folders[0], 12), u32_at(&folders[0], 4)), (1, session.header.unique));

    assert!(matches!(
        find_append_nodes(&entries[..1].to_vec(), folder),
        Err(PstError::Io(IoError::ContentsNodeNotFound))
    ));
    assert!(matches!(
        find_append_nodes(&vec![entries[1]], folder),
        Err(PstError::Io(IoError::TargetFolderNodeNotFound))
    ));
    assert!(matches!(
        find_append_nodes(&entries[..2].to_vec(), folder),
        Err(PstError::Io(IoError::ParentHierarchyNodeNotFound))
    ));
}

#[test]
fn completes_an_append_to_a_table_with_rows() {
    let folder = node(NodeIdType::NormalFolder, 0x401);
    let contents = node(NodeIdType::ContentsTable, 0x401);
    let above = node(NodeIdType::HierarchyTable, 9);
    let entries = vec![
        entry(folder, Some(node(NodeIdType::NormalFolder, 9))),
        entry(contents, None),
        entry(above, None),
    ];
    let input = UnicodePstMessage {
        subject: "subject",
        sender_name: "sender",
        sender_email: "sender@example.com",
        recipients: &[],
        body: "body",
        html_body: None,
        message_id: "<id@example.com>",
        delivery_time: 0,
    };
    let inputs = [
        UnicodePstBatchMessage { message: input, attachments: &[] },
        UnicodePstBatchMessage { message: input, attachments: &[] },
    ];
    let messages =
        vec![node(NodeIdType::NormalMessage, 0x400), node(NodeIdType::NormalMessage, 0x401)];
    let sizes = vec![700, 800];
    let old = [node(NodeIdType::NormalMessage, 0x20), node(NodeIdType::NormalMessage, 0x21)];
    let target = || AppendTarget {
        folder: entries[0],
        properties: vec![(0x3601, PropertyValue::Integer32(1)), (0x3001, unicode("Inbox"))],
        subnodes: Vec::new(),
        contents: table_node(entries[1], vec![row(old[0], "first"), row(old[1], "second")]),
        parent_hierarchy: Some(table_node(entries[2], vec![row(folder, "Inbox")])),
    };
    let mut session = AppendSession::new(header(), Vec::new());
    for (message, input) in messages.iter().zip(&inputs) {
        session.append_message(input, *message, 700, folder).unwrap();
    }
    let complete = |target| {
        assert!(can_complete_append(&session, &target, &inputs, &[7; 16], &messages, &sizes));
        complete_append(&session, entries.clone(), target, &inputs, &[7; 16], &messages, &sizes)
    };
    let plan = complete(target()).unwrap();
    let find = |node| *plan.nbt_entries.iter().find(|entry| entry.node == node).unwrap();
    // The rows that were there come first, then those of the messages, and the count is that of all.
    let found: Vec<u32> =
        rows(&plan.blocks, &find(contents), 18).iter().map(|row| u32_at(row, 0)).collect();
    let expected: Vec<u32> = old.iter().chain(&messages).map(|node| node.value).collect();
    assert_eq!(found, expected);
    let page = data(&plan.blocks, find(folder).data);
    assert_eq!((number(&page, 0x3602), number(&page, 0x3601)), (Some(4), Some(1)));
    assert_eq!(text(&page, 0x3001), Some(utf16_bytes("Inbox")));
    assert_eq!(u32_at(&rows(&plan.blocks, &find(above), 18)[0], 12), 4);

    // Which part failed is told apart.
    let mut wide = target();
    wide.contents.table.context.end_existence_bitmap = 8_177;
    assert!(matches!(
        complete(wide),
        Err(AppendError::Contents(PstError::Io(IoError::TableRowDoesNotFit)))
    ));
    let mut empty = target();
    empty.parent_hierarchy = Some(table_node(entries[2], Vec::new()));
    assert!(matches!(
        complete(empty),
        Err(AppendError::Plan(PstError::Io(IoError::EmptyDataTreeBlock)))
    ));
}

#[test]
fn moves_large_cells_of_the_contents_table_to_subnodes() {
    let subject = "s".repeat(5_000);
    let inputs = [UnicodePstBatchMessage {
        message: UnicodePstMessage {
            subject: &subject,
            sender_name: "sender",
            sender_email: "sender@example.com",
            recipients: &[],
            body: "body",
            html_body: None,
            message_id: "<id@example.com>",
            delivery_time: 0,
        },
        attachments: &[],
    }];
    let contents = table_node(entry(NodeId { value: 0x8E }, None), Vec::new());
    let message = node(NodeIdType::NormalMessage, 0x400);
    let (rebuilt, external) = rebuild_contents_table(
        &contents.table,
        &inputs,
        &[7; 16],
        node(NodeIdType::NormalFolder, 4),
        &vec![message],
        &vec![700],
        contents.rows_node,
        0x81,
        5,
    )
    .unwrap();
    assert_eq!(external.len(), 1);
    assert_eq!(external[0].0, node(NodeIdType::Internal, 0x81));
    assert_eq!(external[0].1, utf16_bytes(&subject));
    assert_eq!(u32_at(&rebuilt.row_chunks[0], 8), external[0].0.value);
}

#[test]
fn queues_search_updates() {
    let queue = NodeId { value: 0x1E1 };
    let mut entries = vec![entry(queue, None)];
    let mut blocks = Vec::new();
    let (mut next_bid, mut next_offset) = (9, AMAP_FIRST_OFFSET);
    let updates = vec![SearchUpdateData::MessageAdded {
        parent: NodeId { value: 0x122 },
        message: NodeId { value: 0x8004 },
    }];
    append_search_updates(
        &mut entries,
        &mut blocks,
        &mut next_bid,
        &mut next_offset,
        &[0xAB; 20],
        &updates,
    )
    .unwrap();
    let mut expected = vec![0xAB; 20];
    expected.extend([0, 0, 1, 0, 0x22, 1, 0, 0, 4, 0x80, 0, 0, 0, 0, 0, 0, 0, 0, 0, 0]);
    assert_eq!(data(&blocks, entries[0].data), expected);
    let mut without = vec![entry(NodeId { value: 0x21 }, None)];
    let before = without.clone();
    append_search_updates(
        &mut without,
        &mut blocks,
        &mut next_bid,
        &mut next_offset,
        &[],
        &updates,
    )
    .unwrap();
    assert_eq!(without, before);
    assert_eq!(blocks.len(), 1);

    // Where the updates cannot be planned, the nodes are left as they were.
    let before = entries.clone();
    next_bid = u64::MAX;
    let result = append_search_updates(
        &mut entries,
        &mut blocks,
        &mut next_bid,
        &mut next_offset,
        &[],
        &updates,
    );
    assert!(result.is_err());
    assert_eq!(entries, before);
}
