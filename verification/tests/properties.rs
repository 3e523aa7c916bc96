//! Property values and property contexts.

use outlook_pst::error::{IoError, PstError};
use outlook_pst::ltp::heap::{HeapId, MAX_HEAP_ALLOCATION_SIZE};
use outlook_pst::ltp::property::{
    integer32, property_value_bytes, small_property_record, unicode, MultipleType, PropertyType,
    PropertyValue,
};
use outlook_pst::ltp::property_context::{
    property_context_data, property_context_data_with_nodes, property_context_pages,
    SimpleProperty,
};
use outlook_pst::ndb::ids::{NodeId, NodeIdType};
use outlook_pst::text::{eq_ignore_ascii_case, utf16_bytes, utf8_bytes};

fn u16_at(data: &[u8], at: usize) -> u16 {
    u16::from_le_bytes([data[at], data[at + 1]])
}

fn u32_at(data: &[u8], at: usize) -> u32 {
    u32::from_le_bytes([data[at], data[at + 1], data[at + 2], data[at + 3]])
}

fn allocation(pages: &[Vec<u8>], id: HeapId) -> Vec<u8> {
    let page = &pages[(id.value >> 16) as usize];
    let slot = usize::from(id.value as u16 >> 5);
    let map = usize::from(u16_at(page, 0));
    let start = usize::from(u16_at(page, map + 4 + 2 * (slot - 1)));
    let end = usize::from(u16_at(page, map + 4 + 2 * slot));
    page[start..end].to_vec()
}

fn read_level(pages: &[Vec<u8>], root: u32, level: u8) -> Vec<Vec<u8>> {
    let data = allocation(pages, HeapId { value: root });
    if level == 0 {
        return data.chunks(8).map(|record| record.to_vec()).collect();
    }
    data.chunks(6).flat_map(|entry| read_level(pages, u32_at(entry, 2), level - 1)).collect()
}

/// The records of a property context: identifier, type code and number.
fn read_records(pages: &[Vec<u8>]) -> Vec<(u16, u16, u32)> {
    assert_eq!(pages[0][2], 0xEC);
    assert_eq!(pages[0][3], 0xBC);
    let header = allocation(pages, HeapId { value: u32_at(&pages[0], 4) });
    assert_eq!((header.len(), header[0], header[1], header[2]), (8, 0xB5, 2, 6));
    read_level(pages, u32_at(&header, 4), header[3])
        .iter()
        .map(|record| (u16_at(record, 0), u16_at(record, 2), u32_at(record, 4)))
        .collect()
}

#[test]
fn externalizes_large_folder_properties() {
    let value = vec![0x5A; MAX_HEAP_ALLOCATION_SIZE + 1];
    let (pages, external) =
        property_context_pages(vec![(0x300B, PropertyValue::Binary(value.clone()))], 0x300)
            .unwrap();
    assert!(!pages.is_empty());
    assert_eq!(external.len(), 1);
    assert_eq!(
        external[0].0,
        NodeId::new(NodeIdType::Internal, 0x300).unwrap()
    );
    assert_eq!(external[0].1, value);
}

#[test]
fn keeps_values_where_they_fit() {
    let large = vec![7u8; MAX_HEAP_ALLOCATION_SIZE - 20];
    let (pages, external) = property_context_pages(
        vec![
            (0x3001, unicode("Name")),
            (0x0E08, PropertyValue::Integer32(-2)),
            (0x1000, PropertyValue::Binary(large.clone())),
            (0x0E1B, PropertyValue::Boolean(true)),
            (0x2000, PropertyValue::Binary(vec![1; 9_000])),
            (0x2001, PropertyValue::Binary(vec![2; 9_000])),
            (0x2002, PropertyValue::Binary(Vec::new())),
        ],
        0x80,
    )
    .unwrap();
    let records = read_records(&pages);
    let ids: Vec<u16> = records.iter().map(|record| record.0).collect();
    assert_eq!(ids, vec![0x0E08, 0x0E1B, 0x1000, 0x2000, 0x2001, 0x2002, 0x3001]);
    assert_eq!(records[0], (0x0E08, 0x0003, 0xFFFF_FFFE));
    assert_eq!(records[1], (0x0E1B, 0x000B, 1));
    assert_eq!(records[2].1, 0x0102);
    assert_eq!(allocation(&pages, HeapId { value: records[2].2 }), large);
    assert_eq!(records[3].2, external[0].0.value);
    assert_eq!(records[4].2, external[1].0.value);
    assert_eq!((external[0].0.index(), external[1].0.index()), (0x80, 0x81));
    assert_eq!((external[0].1[0], external[1].1[0]), (1, 2));
    assert_eq!(records[5].2, 0);
    assert_eq!(records[6].1, 0x001F);
    assert_eq!(
        allocation(&pages, HeapId { value: records[6].2 }),
        vec![b'N', 0, b'a', 0, b'm', 0, b'e', 0, 0, 0]
    );
}

#[test]
fn reads_back_many_properties() {
    let properties: Vec<(u16, PropertyValue)> = (0..2_000u16)
        .rev()
        .map(|id| (id, PropertyValue::Integer32(i32::from(id) * 3)))
        .collect();
    let (pages, external) = property_context_pages(properties, 1).unwrap();
    assert!(external.is_empty());
    let records = read_records(&pages);
    assert_eq!(records.len(), 2_000);
    for (position, record) in records.iter().enumerate() {
        assert_eq!(*record, (position as u16, 0x0003, 3 * position as u32));
    }
}

#[test]
fn encodes_values() {
    assert_eq!(property_value_bytes(&PropertyValue::Null), Vec::<u8>::new());
    assert_eq!(property_value_bytes(&PropertyValue::Integer16(-2)), vec![0xFE, 0xFF]);
    assert_eq!(property_value_bytes(&PropertyValue::Integer32(0x0102_0304)), vec![4, 3, 2, 1]);
    assert_eq!(property_value_bytes(&PropertyValue::Floating32(0x3F80_0000)), vec![0, 0, 0x80, 0x3F]);
    assert_eq!(
        property_value_bytes(&PropertyValue::Floating64(0x3FF0_0000_0000_0000)),
        vec![0, 0, 0, 0, 0, 0, 0xF0, 0x3F]
    );
    assert_eq!(
        property_value_bytes(&PropertyValue::Time(0x0102_0304_0506_0708)),
        vec![8, 7, 6, 5, 4, 3, 2, 1]
    );
    assert_eq!(property_value_bytes(&PropertyValue::Boolean(true)), vec![1]);
    assert_eq!(property_value_bytes(&PropertyValue::ErrorCode(-1)), vec![0xFF; 4]);
    assert_eq!(property_value_bytes(&PropertyValue::String8(vec![65, 66])), vec![65, 66, 0]);
    assert_eq!(property_value_bytes(&PropertyValue::Unicode(vec![0x41, 0xC218])), vec![0x41, 0, 0x18, 0xC2, 0, 0]);
    assert_eq!(property_value_bytes(&PropertyValue::Guid([9; 16])), vec![9; 16]);
    assert_eq!(
        property_value_bytes(&PropertyValue::Object(NodeId { value: 0x2001 }, 5)),
        vec![1, 0x20, 0, 0, 5, 0, 0, 0]
    );
    assert_eq!(
        property_value_bytes(&PropertyValue::Multiple(MultipleType::Integer32, vec![1, 0, 0, 0])),
        vec![1, 0, 0, 0]
    );
}

#[test]
fn keeps_small_values_in_the_record() {
    assert_eq!(small_property_record(&PropertyValue::Integer16(-1)), Some(0xFFFF));
    assert_eq!(small_property_record(&PropertyValue::Integer32(-1)), Some(0xFFFF_FFFF));
    assert_eq!(small_property_record(&PropertyValue::ErrorCode(3)), Some(3));
    assert_eq!(small_property_record(&PropertyValue::Floating32(9)), Some(9));
    assert_eq!(small_property_record(&PropertyValue::Boolean(false)), Some(0));
    assert_eq!(small_property_record(&PropertyValue::Integer64(1)), None);
    assert_eq!(small_property_record(&PropertyValue::Null), None);
    assert_eq!(small_property_record(&PropertyValue::Binary(vec![1])), None);
}

#[test]
fn names_property_types() {
    assert_eq!(PropertyType::Null.code(), 0x0001);
    assert_eq!(PropertyType::Unicode.code(), 0x001F);
    assert_eq!(PropertyType::Binary.code(), 0x0102);
    assert_eq!(PropertyType::MultipleUnicode.code(), 0x101F);
    assert_eq!(unicode("a").property_type(), PropertyType::Unicode);
    assert_eq!(
        PropertyValue::Multiple(MultipleType::Guid, Vec::new()).property_type(),
        PropertyType::MultipleGuid
    );
    assert!(matches!(integer32(0xFFFF_FFFF), PropertyValue::Integer32(-1)));
}

#[test]
fn writes_simple_contexts() {
    let data = property_context_data(vec![
        SimpleProperty::with_value(0x3001, PropertyType::Unicode, vec![b'a', 0]),
        SimpleProperty::with_small(0x3602, PropertyType::Integer32, 7),
    ])
    .unwrap();
    let pages = vec![data];
    let records = read_records(&pages);
    assert_eq!(records.len(), 2);
    assert_eq!(records[1], (0x3602, 3, 7));
    assert_eq!(allocation(&pages, HeapId { value: records[0].2 }), vec![b'a', 0]);
    let data = property_context_data_with_nodes(
        vec![SimpleProperty::with_small(0x3701, PropertyType::Binary, 0)],
        &vec![(0x3701, NodeId { value: 0x2001 })],
    )
    .unwrap();
    assert_eq!(read_records(&[data]), vec![(0x3701, 0x0102, 0x2001)]);
}

#[test]
fn refuses_more_subnodes_than_there_are_indices() {
    let large = || PropertyValue::Binary(vec![0; 9_000]);
    assert!(matches!(
        property_context_pages(vec![(1, large())], 0x0800_0000),
        Err(PstError::NodeDatabaseError(_))
    ));
}

#[test]
fn refuses_simple_values_that_no_page_holds() {
    assert!(matches!(
        property_context_data(vec![SimpleProperty::with_value(
            0x3001,
            PropertyType::Binary,
            vec![0; 70_000]
        )]),
        Err(PstError::IntegerConversion) | Err(PstError::Io(IoError::HeapPageTooLarge))
    ));
}

#[test]
fn encodes_text() {
    assert_eq!(utf16_bytes("aé"), vec![b'a', 0, 0xE9, 0, 0, 0]);
    assert_eq!(utf16_bytes("😀"), vec![0x3D, 0xD8, 0x00, 0xDE, 0, 0]);
    assert_eq!(utf8_bytes("aé"), vec![b'a', 0xC3, 0xA9]);
    assert!(eq_ignore_ascii_case("InBox", "inbox"));
    assert!(!eq_ignore_ascii_case("Inbox", "Inbo"));
    assert!(!eq_ignore_ascii_case("É", "é"));
}
