//! Tables: rows, row indices and rebuilt tables.

use outlook_pst::error::{IoError, IoErrorKind, PstError};
use outlook_pst::ltp::heap::{HeapBuilder, HeapId};
use outlook_pst::ltp::property::{unicode, PropertyType, PropertyValue};
use outlook_pst::ltp::rebuild::{
    can_rebuild_table, has_heap, rebuild_table, rebuild_table_with_rows_and_version, NewTableRow,
    RebuiltTable, TableContext, TableRow, TableRowColumnValue, TableUpdate,
};
use outlook_pst::ltp::row_table::table_context_data;
use outlook_pst::ltp::table::{
    cells_fit, encode_context, encode_table_row, table_pointer_type, write_fixed_table_value,
    TableCell, TableColumnDescriptor, TableContextInfo,
};
use outlook_pst::ndb::ids::NodeId;

fn u16_at(data: &[u8], at: usize) -> u16 {
    u16::from_le_bytes([data[at], data[at + 1]])
}

fn u32_at(data: &[u8], at: usize) -> u32 {
    u32::from_le_bytes([data[at], data[at + 1], data[at + 2], data[at + 3]])
}

fn allocation(pages: &[Vec<u8>], id: u32) -> Vec<u8> {
    let page = &pages[(id >> 16) as usize];
    let slot = usize::from(id as u16 >> 5);
    let map = usize::from(u16_at(page, 0));
    let start = usize::from(u16_at(page, map + 4 + 2 * (slot - 1)));
    let end = usize::from(u16_at(page, map + 4 + 2 * slot));
    page[start..end].to_vec()
}

fn read_level(pages: &[Vec<u8>], root: u32, level: u8) -> Vec<(u32, u32)> {
    let data = allocation(pages, root);
    let entries: Vec<(u32, u32)> =
        data.chunks(8).map(|entry| (u32_at(entry, 0), u32_at(entry, 4))).collect();
    if level == 0 {
        return entries;
    }
    entries.iter().flat_map(|entry| read_level(pages, entry.1, level - 1)).collect()
}

/// The row index of a table: the identifier and the position of every row.
fn read_index(pages: &[Vec<u8>]) -> Vec<(u32, u32)> {
    let context = allocation(pages, u32_at(&pages[0], 4));
    assert_eq!(context[0], 0x7C);
    let header = allocation(pages, u32_at(&context, 10));
    assert_eq!((header[0], header[1], header[2]), (0xB5, 4, 4));
    if u32_at(&header, 4) == 0 {
        return Vec::new();
    }
    read_level(pages, u32_at(&header, 4), header[3])
}

fn column(prop_type: PropertyType, prop_id: u16, offset: u16, size: u8, bit: u8) -> TableColumnDescriptor {
    TableColumnDescriptor { prop_type, prop_id, offset, size, existence_bitmap_index: bit }
}

fn layout() -> TableContextInfo {
    TableContextInfo {
        end_4byte_values: 24,
        end_2byte_values: 26,
        end_1byte_values: 27,
        end_existence_bitmap: 28,
        row_index: HeapId::none(),
        rows: None,
        columns: vec![
            column(PropertyType::Integer32, 0x67F2, 0, 4, 0),
            column(PropertyType::Integer32, 0x67F3, 4, 4, 1),
            column(PropertyType::Unicode, 0x3001, 8, 4, 2),
            column(PropertyType::Time, 0x3007, 12, 8, 3),
            column(PropertyType::Binary, 0x300B, 20, 4, 4),
            column(PropertyType::Integer16, 0x3A00, 24, 2, 5),
            column(PropertyType::Boolean, 0x360A, 26, 1, 6),
        ],
    }
}

fn empty_table() -> TableContext {
    TableContext { context: layout(), rows: Vec::new(), heap_pages: vec![vec![Vec::new()]] }
}

fn new_row(id: u32, name: &str, count: i16) -> NewTableRow {
    NewTableRow {
        id: NodeId { value: id },
        cells: vec![
            None,
            None,
            Some(TableCell::Value(unicode(name))),
            Some(TableCell::Value(PropertyValue::Time(0x0102_0304_0506_0708))),
            None,
            Some(TableCell::Value(PropertyValue::Integer16(count))),
            Some(TableCell::Value(PropertyValue::Boolean(true))),
        ],
    }
}

/// The rows of a table whose rows stand in the given chunks.
fn rows(table: &RebuiltTable, row_size: usize) -> Vec<Vec<u8>> {
    table
        .row_chunks
        .iter()
        .flat_map(|chunk| chunk.chunks(row_size).map(|row| row.to_vec()))
        .collect()
}

#[test]
fn encodes_a_row() {
    let mut heap = HeapBuilder::new();
    let cells = new_row(0x21, "ab", -2).cells;
    let row = encode_table_row(&layout(), &mut heap, 0x21, 7, cells).unwrap();
    assert_eq!(row.len(), 28);
    assert_eq!(u32_at(&row, 0), 0x21);
    assert_eq!(u32_at(&row, 4), 7);
    assert_eq!(u32_at(&row, 8), 0x20);
    assert_eq!(&row[12..20], &[8, 7, 6, 5, 4, 3, 2, 1]);
    assert_eq!(&row[20..24], &[0, 0, 0, 0]);
    assert_eq!(&row[24..27], &[0xFE, 0xFF, 1]);
    // The columns that are there: name, time, count, flag.
    assert_eq!(row[27], 0b0011_0110);
}

#[test]
fn writes_fixed_values() {
    let mut row = vec![0u8; 28];
    let columns = layout().columns;
    write_fixed_table_value(&mut row, &columns[0], &PropertyValue::Integer32(0x0102_0304)).unwrap();
    assert_eq!(&row[..4], &[4, 3, 2, 1]);
    match write_fixed_table_value(&mut row, &columns[0], &PropertyValue::Boolean(true)) {
        Err(PstError::Io(error)) => {
            assert_eq!(error, IoError::TableValueMismatch(PropertyType::Integer32));
            assert_eq!(error.kind(), IoErrorKind::InvalidData);
            assert_eq!(error.text(), None);
        }
        _ => panic!("expected an error"),
    }
    let narrow = column(PropertyType::Time, 0x3007, 12, 4, 3);
    assert!(matches!(
        write_fixed_table_value(&mut row, &narrow, &PropertyValue::Time(1)),
        Err(PstError::Io(IoError::TableColumnTooNarrow))
    ));
    assert!(table_pointer_type(PropertyType::Unicode));
    assert!(table_pointer_type(PropertyType::Guid));
    assert!(!table_pointer_type(PropertyType::Integer64));
}

#[test]
fn refuses_bytes_for_a_fixed_column() {
    let mut heap = HeapBuilder::new();
    let mut cells = new_row(0x21, "ab", 1).cells;
    cells[5] = Some(TableCell::Bytes(vec![1, 2]));
    assert!(matches!(
        encode_table_row(&layout(), &mut heap, 0x21, 7, cells),
        Err(PstError::Io(IoError::IndirectFixedWidthValue))
    ));
}

#[test]
fn encodes_a_table_context() {
    let data =
        encode_context(&layout(), HeapId { value: 0x40 }, Some(NodeId { value: 0x1001 })).unwrap();
    assert_eq!(&data[..10], &[0x7C, 7, 24, 0, 26, 0, 27, 0, 28, 0]);
    assert_eq!(u32_at(&data, 10), 0x40);
    assert_eq!(u32_at(&data, 14), 0x1001);
    assert_eq!(u32_at(&data, 18), 0);
    assert_eq!(&data[22..30], &[0x03, 0, 0xF2, 0x67, 0, 0, 4, 0]);
    assert_eq!(data.len(), 22 + 7 * 8);
    let mut wide = layout();
    wide.columns = vec![column(PropertyType::Integer32, 1, 0, 4, 0); 256];
    assert!(matches!(
        encode_context(&wide, HeapId { value: 0x40 }, None),
        Err(PstError::Io(IoError::TooManyTableColumns))
    ));
}

#[test]
fn rebuilds_a_table_with_new_rows() {
    let table = empty_table();
    assert!(has_heap(&table));
    let rebuilt = rebuild_table_with_rows_and_version(
        &table,
        vec![new_row(0x44, "second", 2), new_row(0x24, "first", 1)],
        Some(NodeId { value: 0x1001 }),
        9,
    )
    .unwrap();
    assert_eq!(rebuilt.row_ids, vec![0x44, 0x24]);
    let rows = rows(&rebuilt, 28);
    assert_eq!(rows.len(), 2);
    assert_eq!((u32_at(&rows[0], 0), u32_at(&rows[0], 4)), (0x44, 9));
    assert_eq!((u32_at(&rows[1], 0), u32_at(&rows[1], 4)), (0x24, 9));
    assert_eq!(
        allocation(&rebuilt.heap_pages, u32_at(&rows[1], 8)),
        vec![b'f', 0, b'i', 0, b'r', 0, b's', 0, b't', 0, 0, 0]
    );
    assert_eq!(read_index(&rebuilt.heap_pages), vec![(0x44, 0), (0x24, 1)]);
}

#[test]
fn keeps_existing_rows() {
    let first = rebuild_table_with_rows_and_version(
        &empty_table(),
        vec![new_row(0x24, "first", 1)],
        Some(NodeId { value: 0x1001 }),
        9,
    )
    .unwrap();
    let page = &first.heap_pages[0];
    let map = usize::from(u16_at(page, 0));
    let slots: Vec<Vec<u8>> = (0..=usize::from(u16_at(page, map)))
        .map(|slot| if slot == 0 { Vec::new() } else { allocation(&first.heap_pages, 32 * slot as u32) })
        .collect();
    let table = TableContext {
        context: layout(),
        rows: vec![TableRow {
            id: 0x24,
            unique: 9,
            data: first.row_chunks[0].clone(),
            columns: Vec::new(),
        }],
        heap_pages: vec![slots],
    };
    let second = rebuild_table(
        &table,
        vec![new_row(0x44, "second", 2)],
        Some(NodeId { value: 0x1001 }),
        11,
        None,
        true,
    )
    .unwrap();
    let rows = rows(&second, 28);
    assert_eq!(second.row_ids, vec![0x24, 0x44]);
    assert_eq!(rows[0], first.row_chunks[0]);
    assert_eq!(
        allocation(&second.heap_pages, u32_at(&rows[0], 8)),
        allocation(&first.heap_pages, u32_at(&rows[0], 8))
    );
    assert_eq!(u32_at(&rows[1], 4), 11);
    assert_eq!(read_index(&second.heap_pages), vec![(0x24, 0), (0x44, 1)]);
}

#[test]
fn updates_one_property_of_one_row() {
    let row = |id: u32, name: &str| TableRow {
        id,
        unique: 3,
        data: vec![0; 28],
        columns: vec![
            Some(TableRowColumnValue::Small(PropertyValue::Integer32(id as i32))),
            Some(TableRowColumnValue::Small(PropertyValue::Integer32(3))),
            Some(TableRowColumnValue::Heap(
                HeapId { value: 0x60 },
                unicode(name),
            )),
            None,
            Some(TableRowColumnValue::Node(NodeId { value: 0x4001 })),
            None,
            Some(TableRowColumnValue::Small(PropertyValue::Boolean(false))),
        ],
    };
    let table = TableContext {
        context: layout(),
        rows: vec![row(0x24, "one"), row(0x44, "two")],
        heap_pages: vec![vec![Vec::new()]],
    };
    let rebuilt = rebuild_table(
        &table,
        Vec::new(),
        Some(NodeId { value: 0x1001 }),
        12,
        Some(TableUpdate {
            row: NodeId { value: 0x44 },
            property: 0x360A,
            value: PropertyValue::Boolean(true),
        }),
        false,
    )
    .unwrap();
    let rows = rows(&rebuilt, 28);
    assert_eq!((rows[0][26], rows[1][26]), (0, 1));
    assert_eq!((u32_at(&rows[0], 0), u32_at(&rows[1], 0)), (0x24, 0x44));
    // Only the row that changed gets the new version.
    assert_eq!((u32_at(&rows[0], 4), u32_at(&rows[1], 4)), (3, 12));
    assert_eq!(u32_at(&rows[0], 20), 0x4001);
    assert_eq!(
        allocation(&rebuilt.heap_pages, u32_at(&rows[1], 8)),
        vec![b't', 0, b'w', 0, b'o', 0, 0, 0]
    );
}

#[test]
fn refuses_rows_that_no_block_holds() {
    let mut table = empty_table();
    table.context.end_existence_bitmap = 8_177;
    assert!(matches!(
        rebuild_table_with_rows_and_version(
            &table,
            vec![new_row(0x24, "first", 1)],
            Some(NodeId { value: 0x1001 }),
            9,
        ),
        Err(PstError::Io(IoError::TableRowDoesNotFit))
    ));
    assert!(matches!(
        rebuild_table_with_rows_and_version(&empty_table(), vec![new_row(0x24, "a", 1)], None, 9),
        Err(PstError::Io(IoError::TableRowsNodeMissing))
    ));
}

#[test]
fn splits_rows_into_chunks_of_a_block() {
    let rows: Vec<NewTableRow> = (0..1_000u32).map(|i| new_row(0x20 * (i + 1), "n", 1)).collect();
    let rebuilt = rebuild_table_with_rows_and_version(
        &empty_table(),
        rows,
        Some(NodeId { value: 0x1001 }),
        1,
    )
    .unwrap();
    assert_eq!(rebuilt.row_chunks.len(), 4);
    assert_eq!(rebuilt.row_chunks[0].len(), 292 * 28);
    assert_eq!(rebuilt.row_ids.len(), 1_000);
    let index = read_index(&rebuilt.heap_pages);
    assert_eq!(index.len(), 1_000);
    assert!(index.iter().enumerate().all(|(i, e)| *e == (0x20 * (i as u32 + 1), i as u32)));
}

#[test]
fn recognises_rows_that_cannot_hold_their_cells() {
    let number = |value| Some(TableCell::Value(PropertyValue::Integer32(value)));
    assert!(cells_fit(&layout(), &new_row(0x24, "first", 1).cells));
    // A column outside the row, or with its bit outside, only matters where it gets a cell.
    let mut outside = layout();
    outside.columns = vec![
        column(PropertyType::Integer32, 1, 8, 4, 0),
        column(PropertyType::Integer32, 2, 25, 4, 1),
    ];
    assert!(cells_fit(&outside, &vec![number(1), None]));
    assert!(cells_fit(&outside, &vec![number(1)]));
    assert!(!cells_fit(&outside, &vec![number(1), number(2)]));
    let mut bit = layout();
    bit.columns = vec![column(PropertyType::Integer32, 1, 8, 4, 8)];
    assert!(cells_fit(&bit, &vec![None]));
    assert!(!cells_fit(&bit, &vec![number(1)]));
    let mut short = layout();
    short.columns.clear();
    short.end_existence_bitmap = 7;
    assert!(!cells_fit(&short, &Vec::new()));

    let mut heap = HeapBuilder::new();
    let row = encode_table_row(&outside, &mut heap, 0x24, 9, vec![number(5), None]).unwrap();
    assert_eq!((u32_at(&row, 0), u32_at(&row, 4), u32_at(&row, 8)), (0x24, 9, 5));
    assert_eq!((row[27], row.len()), (0x80, 28));
}

#[test]
fn recognises_tables_that_cannot_be_rebuilt() {
    let mut table = empty_table();
    table.context.columns.push(column(PropertyType::Integer32, 1, 26, 4, 7));
    table.rows = vec![TableRow {
        id: 0x24,
        unique: 9,
        data: vec![3; 28],
        columns: vec![None, None, None, None, None, None, None, Some(
            TableRowColumnValue::Small(PropertyValue::Integer32(7)),
        )],
    }];
    let update = |row, property| {
        Some(TableUpdate {
            row: NodeId { value: row },
            property,
            value: PropertyValue::Boolean(true),
        })
    };
    let none = Vec::new();
    // Rows that are kept are not encoded.
    assert!(can_rebuild_table(&table, &none, 11, &None, true));
    assert!(!can_rebuild_table(&table, &none, 11, &None, false));
    assert!(can_rebuild_table(&table, &none, 11, &update(0x44, 0x360A), true));
    assert!(!can_rebuild_table(&table, &none, 11, &update(0x24, 0x360A), true));
    assert!(can_rebuild_table(&table, &vec![new_row(0x44, "new", 1)], 11, &None, true));
    assert!(has_heap(&table));
    let rebuilt = rebuild_table(
        &table,
        vec![new_row(0x44, "new", 1)],
        Some(NodeId { value: 0x1001 }),
        11,
        None,
        true,
    )
    .unwrap();
    assert_eq!(rows(&rebuilt, 28)[0], vec![3; 28]);
    table.heap_pages.push(Vec::new());
    assert!(!has_heap(&table));
    table.heap_pages.clear();
    assert!(!has_heap(&table));
}

#[test]
fn writes_a_table_of_row_identifiers() {
    let data = table_context_data(&[NodeId { value: 0x22 }, NodeId { value: 0x42 }]).unwrap();
    let pages = vec![data];
    assert_eq!(read_index(&pages), vec![(0x22, 0), (0x42, 1)]);
    let context = allocation(&pages, u32_at(&pages[0], 4));
    let rows = allocation(&pages, u32_at(&context, 14));
    assert_eq!(rows.len(), 18);
    assert_eq!((u32_at(&rows, 0), rows[8]), (0x22, 0xC0));
    assert_eq!((u32_at(&rows, 9), rows[17]), (0x42, 0xC0));
    let empty = table_context_data(&[]).unwrap();
    assert!(read_index(&[empty]).is_empty());
}
