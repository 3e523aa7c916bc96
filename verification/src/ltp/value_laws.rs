//! What a reader finds in the encoded value of a property, by the code of its type.

use vstd::prelude::*;

use crate::bytes;
use crate::ltp::property;
use crate::ltp::property::{MultipleType, PropertyType, PropertyValue};

verus! {

/// The number of a property type.
pub open spec fn type_number(prop_type: PropertyType) -> int {
    match prop_type {
        PropertyType::Null => 1,
        PropertyType::Integer16 => 2,
        PropertyType::Integer32 => 3,
        PropertyType::Floating32 => 4,
        PropertyType::Floating64 => 5,
        PropertyType::Currency => 6,
        PropertyType::FloatingTime => 7,
        PropertyType::ErrorCode => 10,
        PropertyType::Boolean => 11,
        PropertyType::Object => 13,
        PropertyType::Integer64 => 20,
        PropertyType::String8 => 30,
        PropertyType::Unicode => 31,
        PropertyType::Time => 64,
        PropertyType::Guid => 72,
        PropertyType::Binary => 258,
        PropertyType::MultipleInteger16 => 0x1000int + 2,
        PropertyType::MultipleInteger32 => 0x1000int + 3,
        PropertyType::MultipleFloating32 => 0x1000int + 4,
        PropertyType::MultipleFloating64 => 0x1000int + 5,
        PropertyType::MultipleCurrency => 0x1000int + 6,
        PropertyType::MultipleFloatingTime => 0x1000int + 7,
        PropertyType::MultipleInteger64 => 0x1000int + 20,
        PropertyType::MultipleString8 => 0x1000int + 30,
        PropertyType::MultipleUnicode => 0x1000int + 31,
        PropertyType::MultipleTime => 0x1000int + 64,
        PropertyType::MultipleGuid => 0x1000int + 72,
        PropertyType::MultipleBinary => 0x1000int + 258,
    }
}

/// The number of the type of one of several values.
pub open spec fn element_number(element: MultipleType) -> int {
    match element {
        MultipleType::Integer16 => 2,
        MultipleType::Integer32 => 3,
        MultipleType::Floating32 => 4,
        MultipleType::Floating64 => 5,
        MultipleType::Currency => 6,
        MultipleType::FloatingTime => 7,
        MultipleType::Integer64 => 20,
        MultipleType::String8 => 30,
        MultipleType::Unicode => 31,
        MultipleType::Time => 64,
        MultipleType::Guid => 72,
        MultipleType::Binary => 258,
    }
}

/// Every property type has its number, a value of several has the number of one of them and 0x1000, and a value
/// of at most eight bytes and a fixed size stands in a row itself.
pub proof fn law_type_numbers(prop_type: PropertyType, element: MultipleType)
    ensures
        prop_type.spec_code() == type_number(prop_type),
        element.spec_property_type().spec_code() == 0x1000 + element_number(element),
        prop_type.is_pointer() <==> type_number(prop_type) == 13 || type_number(prop_type) == 30
            || type_number(prop_type) == 31 || type_number(prop_type) == 72 || type_number(
            prop_type,
        ) >= 258,
        prop_type.is_small() <==> type_number(prop_type) == 2 || type_number(prop_type) == 3
            || type_number(prop_type) == 4 || type_number(prop_type) == 10 || type_number(
            prop_type,
        ) == 11,
{
}

/// Whether bytes under the number of a type are a value.
pub open spec fn is_encoded(code: int, data: Seq<u8>, value: PropertyValue) -> bool {
    match value {
        PropertyValue::Null => code == 1 && data.len() == 0,
        PropertyValue::Integer16(number) => code == 2 && data.len() == 2 && bytes::get16(data, 0)
            == number as u16,
        PropertyValue::Integer32(number) => code == 3 && data.len() == 4 && bytes::get32(data, 0)
            == number as u32,
        PropertyValue::Floating32(bits) => code == 4 && data.len() == 4 && bytes::get32(data, 0)
            == bits,
        PropertyValue::Floating64(bits) => code == 5 && data.len() == 8 && bytes::get64(data, 0)
            == bits,
        PropertyValue::Currency(number) => code == 6 && data.len() == 8 && bytes::get64(data, 0)
            == number as u64,
        PropertyValue::FloatingTime(bits) => code == 7 && data.len() == 8 && bytes::get64(data, 0)
            == bits,
        PropertyValue::ErrorCode(number) => code == 10 && data.len() == 4 && bytes::get32(data, 0)
            == number as u32,
        PropertyValue::Boolean(flag) => code == 11 && data.len() == 1 && (data[0] == 1 <==> flag)
            && (data[0] == 0 <==> !flag),
        PropertyValue::Integer64(number) => code == 20 && data.len() == 8 && bytes::get64(data, 0)
            == number as u64,
        PropertyValue::String8(text) => code == 30 && data == text@.push(0),
        PropertyValue::Unicode(units) => {
            &&& code == 31
            &&& data.len() == 2 * units@.len() + 2
            &&& forall|i: int|
                0 <= i < units@.len() ==> bytes::get16(data, 2 * i) == #[trigger] units@[i]
            &&& bytes::get16(data, 2 * units@.len() as int) == 0
        },
        PropertyValue::Time(time) => code == 64 && data.len() == 8 && bytes::get64(data, 0)
            == time as u64,
        PropertyValue::Guid(guid) => code == 72 && data == guid@,
        PropertyValue::Binary(bytes) => code == 258 && data == bytes@,
        PropertyValue::Object(node, size) => code == 13 && data.len() == 8 && bytes::get32(data, 0)
            == node.value && bytes::get32(data, 4) == size,
        PropertyValue::Multiple(element, encoded) => code == 0x1000 + element_number(element)
            && data == encoded@,
    }
}

proof fn lemma_units(units: Seq<u16>, count: nat, index: int)
    requires
        0 <= index < count <= units.len(),
    ensures
        property::utf16_prefix(units, count).len() == 2 * count,
        property::utf16_prefix(units, count).subrange(2 * index, 2 * index + 2) == bytes::le16(
            units[index],
        ),
    decreases count,
{
    let all = property::utf16_prefix(units, count);
    let before = property::utf16_prefix(units, (count - 1) as nat);
    if count > 1 {
        lemma_units(
            units,
            (count - 1) as nat,
            if index < count - 1 {
                index
            } else {
                0
            },
        );
    } else {
        assert(before =~= Seq::empty());
    }
    if index == count - 1 {
        assert(all.subrange(2 * index, 2 * index + 2) =~= bytes::le16(units[index]));
    } else {
        assert(all.subrange(2 * index, 2 * index + 2) =~= before.subrange(
            2 * index,
            2 * index + 2,
        ));
    }
}

proof fn lemma_number_16(number: u16)
    ensures
        bytes::le16(number).len() == 2,
        bytes::get16(bytes::le16(number), 0) == number,
{
    let data = bytes::le16(number);
    assert(data.subrange(0, 2) =~= data);
    bytes::lemma_get16_le16(data, 0, number);
}

proof fn lemma_number_32(number: u32)
    ensures
        bytes::le32(number).len() == 4,
        bytes::get32(bytes::le32(number), 0) == number,
{
    let data = bytes::le32(number);
    assert(data.subrange(0, 4) =~= data);
    bytes::lemma_get32_le32(data, 0, number);
}

proof fn lemma_number_64(number: u64)
    ensures
        bytes::le64(number).len() == 8,
        bytes::get64(bytes::le64(number), 0) == number,
{
    let data = bytes::le64(number);
    assert(data.subrange(0, 8) =~= data);
    bytes::lemma_get64_le64(data, 0, number);
}

/// The encoded form of a value gives it back.
pub proof fn law_value_reads_back(value: PropertyValue)
    ensures
        is_encoded(value@.prop_type.spec_code() as int, value@.data, value),
{
    let data = value@.data;
    match value {
        PropertyValue::Integer16(number) => lemma_number_16(number as u16),
        PropertyValue::Integer32(number) => lemma_number_32(number as u32),
        PropertyValue::Floating32(bits) => lemma_number_32(bits),
        PropertyValue::Floating64(bits) => lemma_number_64(bits),
        PropertyValue::Currency(number) => lemma_number_64(number as u64),
        PropertyValue::FloatingTime(bits) => lemma_number_64(bits),
        PropertyValue::ErrorCode(number) => lemma_number_32(number as u32),
        PropertyValue::Integer64(number) => lemma_number_64(number as u64),
        PropertyValue::Time(time) => lemma_number_64(time as u64),
        PropertyValue::String8(text) => {
            assert(data =~= text@.push(0));
        },
        PropertyValue::Unicode(units) => {
            let all = units@;
            let part = property::utf16_prefix(all, all.len());
            if all.len() > 0 {
                lemma_units(all, all.len(), 0);
            }
            assert(part.len() == 2 * all.len());
            assert forall|i: int| 0 <= i < all.len() implies bytes::get16(data, 2 * i)
                == #[trigger] all[i] by {
                lemma_units(all, all.len(), i);
                assert(data.subrange(2 * i, 2 * i + 2) =~= part.subrange(2 * i, 2 * i + 2));
                bytes::lemma_get16_le16(data, 2 * i, all[i]);
            }
        },
        PropertyValue::Object(node, size) => {
            assert(data.subrange(0, 4) =~= bytes::le32(node.value));
            bytes::lemma_get32_le32(data, 0, node.value);
            assert(data.subrange(4, 8) =~= bytes::le32(size));
            bytes::lemma_get32_le32(data, 4, size);
        },
        _ => {},
    }
}

} // verus!
