//! Property types and values.

use vstd::prelude::*;

use crate::bytes;
use crate::ndb::ids::NodeId;

verus! {

/// The type of a property.
#[derive(Clone, Copy, PartialEq, Eq, Debug, Structural)]
pub enum PropertyType {
    Null,
    Integer16,
    Integer32,
    Floating32,
    Floating64,
    Currency,
    FloatingTime,
    ErrorCode,
    Boolean,
    Integer64,
    String8,
    Unicode,
    Time,
    Guid,
    Binary,
    Object,
    MultipleInteger16,
    MultipleInteger32,
    MultipleFloating32,
    MultipleFloating64,
    MultipleCurrency,
    MultipleFloatingTime,
    MultipleInteger64,
    MultipleString8,
    MultipleUnicode,
    MultipleTime,
    MultipleGuid,
    MultipleBinary,
}

impl PropertyType {
    /// The code of the property type.
    pub open spec fn spec_code(self) -> u16 {
        match self {
            PropertyType::Null => 0x0001,
            PropertyType::Integer16 => 0x0002,
            PropertyType::Integer32 => 0x0003,
            PropertyType::Floating32 => 0x0004,
            PropertyType::Floating64 => 0x0005,
            PropertyType::Currency => 0x0006,
            PropertyType::FloatingTime => 0x0007,
            PropertyType::ErrorCode => 0x000A,
            PropertyType::Boolean => 0x000B,
            PropertyType::Integer64 => 0x0014,
            PropertyType::String8 => 0x001E,
            PropertyType::Unicode => 0x001F,
            PropertyType::Time => 0x0040,
            PropertyType::Guid => 0x0048,
            PropertyType::Binary => 0x0102,
            PropertyType::Object => 0x000D,
            PropertyType::MultipleInteger16 => 0x1002,
            PropertyType::MultipleInteger32 => 0x1003,
            PropertyType::MultipleFloating32 => 0x1004,
            PropertyType::MultipleFloating64 => 0x1005,
            PropertyType::MultipleCurrency => 0x1006,
            PropertyType::MultipleFloatingTime => 0x1007,
            PropertyType::MultipleInteger64 => 0x1014,
            PropertyType::MultipleString8 => 0x101E,
            PropertyType::MultipleUnicode => 0x101F,
            PropertyType::MultipleTime => 0x1040,
            PropertyType::MultipleGuid => 0x1048,
            PropertyType::MultipleBinary => 0x1102,
        }
    }

    /// The code of the property type.
    pub fn code(self) -> (code: u16)
        ensures
            code == self.spec_code(),
    {
        match self {
            PropertyType::Null => 0x0001,
            PropertyType::Integer16 => 0x0002,
            PropertyType::Integer32 => 0x0003,
            PropertyType::Floating32 => 0x0004,
            PropertyType::Floating64 => 0x0005,
            PropertyType::Currency => 0x0006,
            PropertyType::FloatingTime => 0x0007,
            PropertyType::ErrorCode => 0x000A,
            PropertyType::Boolean => 0x000B,
            PropertyType::Integer64 => 0x0014,
            PropertyType::String8 => 0x001E,
            PropertyType::Unicode => 0x001F,
            PropertyType::Time => 0x0040,
            PropertyType::Guid => 0x0048,
            PropertyType::Binary => 0x0102,
            PropertyType::Object => 0x000D,
            PropertyType::MultipleInteger16 => 0x1002,
            PropertyType::MultipleInteger32 => 0x1003,
            PropertyType::MultipleFloating32 => 0x1004,
            PropertyType::MultipleFloating64 => 0x1005,
            PropertyType::MultipleCurrency => 0x1006,
            PropertyType::MultipleFloatingTime => 0x1007,
            PropertyType::MultipleInteger64 => 0x1014,
            PropertyType::MultipleString8 => 0x101E,
            PropertyType::MultipleUnicode => 0x101F,
            PropertyType::MultipleTime => 0x1040,
            PropertyType::MultipleGuid => 0x1048,
            PropertyType::MultipleBinary => 0x1102,
        }
    }

    /// Whether a table column of this type holds the identifier of its value instead of the value.
    pub open spec fn is_pointer(self) -> bool {
        match self {
            PropertyType::Null
            | PropertyType::Integer16
            | PropertyType::Integer32
            | PropertyType::Floating32
            | PropertyType::Floating64
            | PropertyType::Currency
            | PropertyType::FloatingTime
            | PropertyType::ErrorCode
            | PropertyType::Boolean
            | PropertyType::Integer64
            | PropertyType::Time => false,
            _ => true,
        }
    }

    /// Whether a property record holds a value of this type itself.
    pub open spec fn is_small(self) -> bool {
        match self {
            PropertyType::Integer16
            | PropertyType::Integer32
            | PropertyType::ErrorCode
            | PropertyType::Floating32
            | PropertyType::Boolean => true,
            _ => false,
        }
    }
}

/// Two property types with one code are the same.
pub proof fn law_property_codes_differ(left: PropertyType, right: PropertyType)
    requires
        left.spec_code() == right.spec_code(),
    ensures
        left == right,
{
}

/// The element type of a property with several values.
#[derive(Clone, Copy, PartialEq, Eq, Debug, Structural)]
pub enum MultipleType {
    Integer16,
    Integer32,
    Floating32,
    Floating64,
    Currency,
    FloatingTime,
    Integer64,
    String8,
    Unicode,
    Time,
    Guid,
    Binary,
}

impl MultipleType {
    /// The type of the property.
    pub open spec fn spec_property_type(self) -> PropertyType {
        match self {
            MultipleType::Integer16 => PropertyType::MultipleInteger16,
            MultipleType::Integer32 => PropertyType::MultipleInteger32,
            MultipleType::Floating32 => PropertyType::MultipleFloating32,
            MultipleType::Floating64 => PropertyType::MultipleFloating64,
            MultipleType::Currency => PropertyType::MultipleCurrency,
            MultipleType::FloatingTime => PropertyType::MultipleFloatingTime,
            MultipleType::Integer64 => PropertyType::MultipleInteger64,
            MultipleType::String8 => PropertyType::MultipleString8,
            MultipleType::Unicode => PropertyType::MultipleUnicode,
            MultipleType::Time => PropertyType::MultipleTime,
            MultipleType::Guid => PropertyType::MultipleGuid,
            MultipleType::Binary => PropertyType::MultipleBinary,
        }
    }

    /// The type of the property.
    pub fn property_type(self) -> (prop_type: PropertyType)
        ensures
            prop_type == self.spec_property_type(),
    {
        match self {
            MultipleType::Integer16 => PropertyType::MultipleInteger16,
            MultipleType::Integer32 => PropertyType::MultipleInteger32,
            MultipleType::Floating32 => PropertyType::MultipleFloating32,
            MultipleType::Floating64 => PropertyType::MultipleFloating64,
            MultipleType::Currency => PropertyType::MultipleCurrency,
            MultipleType::FloatingTime => PropertyType::MultipleFloatingTime,
            MultipleType::Integer64 => PropertyType::MultipleInteger64,
            MultipleType::String8 => PropertyType::MultipleString8,
            MultipleType::Unicode => PropertyType::MultipleUnicode,
            MultipleType::Time => PropertyType::MultipleTime,
            MultipleType::Guid => PropertyType::MultipleGuid,
            MultipleType::Binary => PropertyType::MultipleBinary,
        }
    }
}

/// The value of a property. Floating-point values are held by their bits, strings without a
/// terminator, and several values in their encoded form.
pub enum PropertyValue {
    Null,
    Integer16(i16),
    Integer32(i32),
    Floating32(u32),
    Floating64(u64),
    Currency(i64),
    FloatingTime(u64),
    ErrorCode(i32),
    Boolean(bool),
    Integer64(i64),
    String8(Vec<u8>),
    Unicode(Vec<u16>),
    Time(i64),
    Guid([u8; 16]),
    Binary(Vec<u8>),
    Object(NodeId, u32),
    Multiple(MultipleType, Vec<u8>),
}

/// A property value by its type and its encoded bytes.
#[verifier::ext_equal]
pub struct EncodedValue {
    pub prop_type: PropertyType,
    pub data: Seq<u8>,
}

/// The little-endian bytes of the first `count` of `units`.
pub open spec fn utf16_prefix(units: Seq<u16>, count: nat) -> Seq<u8>
    decreases count,
{
    if count == 0 {
        Seq::empty()
    } else {
        utf16_prefix(units, (count - 1) as nat) + bytes::le16(units[count - 1])
    }
}

impl View for PropertyValue {
    type V = EncodedValue;

    open spec fn view(&self) -> EncodedValue {
        EncodedValue { prop_type: self.spec_property_type(), data: self.spec_data() }
    }
}

impl PropertyValue {
    /// The type of the value.
    pub open spec fn spec_property_type(&self) -> PropertyType {
        match self {
            PropertyValue::Null => PropertyType::Null,
            PropertyValue::Integer16(_) => PropertyType::Integer16,
            PropertyValue::Integer32(_) => PropertyType::Integer32,
            PropertyValue::Floating32(_) => PropertyType::Floating32,
            PropertyValue::Floating64(_) => PropertyType::Floating64,
            PropertyValue::Currency(_) => PropertyType::Currency,
            PropertyValue::FloatingTime(_) => PropertyType::FloatingTime,
            PropertyValue::ErrorCode(_) => PropertyType::ErrorCode,
            PropertyValue::Boolean(_) => PropertyType::Boolean,
            PropertyValue::Integer64(_) => PropertyType::Integer64,
            PropertyValue::String8(_) => PropertyType::String8,
            PropertyValue::Unicode(_) => PropertyType::Unicode,
            PropertyValue::Time(_) => PropertyType::Time,
            PropertyValue::Guid(_) => PropertyType::Guid,
            PropertyValue::Binary(_) => PropertyType::Binary,
            PropertyValue::Object(..) => PropertyType::Object,
            PropertyValue::Multiple(element, _) => element.spec_property_type(),
        }
    }

    /// The encoded value. Strings end with a terminator.
    pub open spec fn spec_data(&self) -> Seq<u8> {
        match self {
            PropertyValue::Null => Seq::empty(),
            PropertyValue::Integer16(value) => bytes::le16(*value as u16),
            PropertyValue::Integer32(value) => bytes::le32(*value as u32),
            PropertyValue::Floating32(value) => bytes::le32(*value),
            PropertyValue::Floating64(value) => bytes::le64(*value),
            PropertyValue::Currency(value) => bytes::le64(*value as u64),
            PropertyValue::FloatingTime(value) => bytes::le64(*value),
            PropertyValue::ErrorCode(value) => bytes::le32(*value as u32),
            PropertyValue::Boolean(value) => seq![if *value {
                1u8
            } else {
                0u8
            }],
            PropertyValue::Integer64(value) => bytes::le64(*value as u64),
            PropertyValue::String8(value) => value@ + seq![0u8],
            PropertyValue::Unicode(value) => utf16_prefix(value@, value@.len()) + seq![0u8, 0u8],
            PropertyValue::Time(value) => bytes::le64(*value as u64),
            PropertyValue::Guid(value) => value@,
            PropertyValue::Binary(value) => value@,
            PropertyValue::Object(node, size) => bytes::le32(node.value) + bytes::le32(*size),
            PropertyValue::Multiple(_, data) => data@,
        }
    }

    /// The type of the value.
    pub fn property_type(&self) -> (prop_type: PropertyType)
        ensures
            prop_type == self@.prop_type,
    {
        match self {
            PropertyValue::Null => PropertyType::Null,
            PropertyValue::Integer16(_) => PropertyType::Integer16,
            PropertyValue::Integer32(_) => PropertyType::Integer32,
            PropertyValue::Floating32(_) => PropertyType::Floating32,
            PropertyValue::Floating64(_) => PropertyType::Floating64,
            PropertyValue::Currency(_) => PropertyType::Currency,
            PropertyValue::FloatingTime(_) => PropertyType::FloatingTime,
            PropertyValue::ErrorCode(_) => PropertyType::ErrorCode,
            PropertyValue::Boolean(_) => PropertyType::Boolean,
            PropertyValue::Integer64(_) => PropertyType::Integer64,
            PropertyValue::String8(_) => PropertyType::String8,
            PropertyValue::Unicode(_) => PropertyType::Unicode,
            PropertyValue::Time(_) => PropertyType::Time,
            PropertyValue::Guid(_) => PropertyType::Guid,
            PropertyValue::Binary(_) => PropertyType::Binary,
            PropertyValue::Object(_, _) => PropertyType::Object,
            PropertyValue::Multiple(element, _) => element.property_type(),
        }
    }

    /// A copy of the value.
    pub fn copy(&self) -> (value: PropertyValue)
        ensures
            value@ == self@,
    {
        match self {
            PropertyValue::Null => PropertyValue::Null,
            PropertyValue::Integer16(value) => PropertyValue::Integer16(*value),
            PropertyValue::Integer32(value) => PropertyValue::Integer32(*value),
            PropertyValue::Floating32(value) => PropertyValue::Floating32(*value),
            PropertyValue::Floating64(value) => PropertyValue::Floating64(*value),
            PropertyValue::Currency(value) => PropertyValue::Currency(*value),
            PropertyValue::FloatingTime(value) => PropertyValue::FloatingTime(*value),
            PropertyValue::ErrorCode(value) => PropertyValue::ErrorCode(*value),
            PropertyValue::Boolean(value) => PropertyValue::Boolean(*value),
            PropertyValue::Integer64(value) => PropertyValue::Integer64(*value),
            PropertyValue::String8(value) => PropertyValue::String8(bytes::copy(value.as_slice())),
            PropertyValue::Unicode(value) => {
                let copy: Vec<u16> = vstd::slice::slice_to_vec(value.as_slice());
                assert(copy@ =~= value@);
                PropertyValue::Unicode(copy)
            },
            PropertyValue::Time(value) => PropertyValue::Time(*value),
            PropertyValue::Guid(value) => PropertyValue::Guid(*value),
            PropertyValue::Binary(value) => PropertyValue::Binary(bytes::copy(value.as_slice())),
            PropertyValue::Object(node, size) => PropertyValue::Object(*node, *size),
            PropertyValue::Multiple(element, data) => PropertyValue::Multiple(
                *element,
                bytes::copy(data.as_slice()),
            ),
        }
    }
}

/// The number that a property record holds in place of a small value.
pub open spec fn small_value(value: EncodedValue) -> u32 {
    match value.prop_type {
        PropertyType::Boolean => value.data[0] as u32,
        PropertyType::Integer16 => bytes::get16(value.data, 0) as u32,
        _ => bytes::get32(value.data, 0) as u32,
    }
}

/// A number as a property value.
pub open spec fn integer32_value(number: u32) -> EncodedValue {
    EncodedValue { prop_type: PropertyType::Integer32, data: bytes::le32(number) }
}

/// A truth value as a property value.
pub open spec fn boolean_value(flag: bool) -> EncodedValue {
    EncodedValue {
        prop_type: PropertyType::Boolean,
        data: seq![if flag {
            1u8
        } else {
            0u8
        }],
    }
}

/// Text as a property value.
pub open spec fn unicode_value(text: Seq<char>) -> EncodedValue {
    EncodedValue { prop_type: PropertyType::Unicode, data: crate::text::utf16_text(text) }
}

/// A time as a property value.
pub open spec fn time_value(time: i64) -> EncodedValue {
    EncodedValue { prop_type: PropertyType::Time, data: bytes::le64(time as u64) }
}

/// Bytes as a property value.
pub open spec fn binary_value(data: Seq<u8>) -> EncodedValue {
    EncodedValue { prop_type: PropertyType::Binary, data }
}

/// Text as a property value.
pub fn unicode(text: &str) -> (value: PropertyValue)
    ensures
        value@ == unicode_value(text@),
{
    let mut units: Vec<u16> = Vec::new();
    for c in it: text.chars()
        invariant
            it.seq() == text@,
            utf16_prefix(units@, units@.len()) == crate::text::utf16_units(
                text@,
                it.index() as nat,
            ),
    {
        let code: u32 = c as u32;
        let ghost before = units@;
        if code < 0x10000 {
            units.push(code as u16);
            proof {
                lemma_utf16_prefix_agrees(before, units@, before.len());
            }
        } else {
            units.push((0xD800 + (code - 0x10000) / 0x400) as u16);
            units.push((0xDC00 + (code - 0x10000) % 0x400) as u16);
            proof {
                lemma_utf16_prefix_agrees(before, units@, before.len());
                let first = utf16_prefix(units@, before.len() + 1);
                assert(first == utf16_prefix(before, before.len()) + bytes::le16(
                    units@[before.len() as int],
                ));
            }
        }
        assert(utf16_prefix(units@, units@.len()) =~= crate::text::utf16_units(
            text@,
            (it.index() + 1) as nat,
        ));
    }
    PropertyValue::Unicode(units)
}

proof fn lemma_utf16_prefix_agrees(left: Seq<u16>, right: Seq<u16>, count: nat)
    requires
        count <= left.len() <= right.len(),
        forall|i: int| 0 <= i < left.len() ==> left[i] == right[i],
    ensures
        utf16_prefix(left, count) == utf16_prefix(right, count),
    decreases count,
{
    if count > 0 {
        lemma_utf16_prefix_agrees(left, right, (count - 1) as nat);
    }
}

/// A number as a property value.
pub fn integer32(number: u32) -> (value: PropertyValue)
    ensures
        value@ == integer32_value(number),
{
    let signed: i32 = #[verifier::truncate]
    (number as i32);
    assert((number as i32) as u32 == number) by (bit_vector);
    PropertyValue::Integer32(signed)
}

/// The encoded value. Strings end with a terminator.
pub fn property_value_bytes(value: &PropertyValue) -> (data: Vec<u8>)
    ensures
        data@ == value@.data,
{
    let mut data: Vec<u8> = Vec::new();
    match value {
        PropertyValue::Null => {},
        PropertyValue::Integer16(value) => {
            bytes::push_u16(
                &mut data,
                #[verifier::truncate]
                (*value as u16),
            );
        },
        PropertyValue::Integer32(value) | PropertyValue::ErrorCode(value) => {
            bytes::push_u32(
                &mut data,
                #[verifier::truncate]
                (*value as u32),
            );
        },
        PropertyValue::Floating32(value) => {
            bytes::push_u32(&mut data, *value);
        },
        PropertyValue::Floating64(value) | PropertyValue::FloatingTime(value) => {
            bytes::push_u64(&mut data, *value);
        },
        PropertyValue::Currency(value)
        | PropertyValue::Integer64(value)
        | PropertyValue::Time(value) => {
            bytes::push_u64(
                &mut data,
                #[verifier::truncate]
                (*value as u64),
            );
        },
        PropertyValue::Boolean(value) => {
            data.push(
                if *value {
                    1
                } else {
                    0
                },
            );
        },
        PropertyValue::String8(value) => {
            bytes::push_bytes(&mut data, value.as_slice());
            data.push(0);
        },
        PropertyValue::Unicode(value) => {
            let mut i: usize = 0;
            while i < value.len()
                invariant
                    i <= value@.len(),
                    data@ == utf16_prefix(value@, i as nat),
                decreases value@.len() - i,
            {
                bytes::push_u16(&mut data, value[i]);
                i += 1;
            }
            data.push(0);
            data.push(0);
        },
        PropertyValue::Guid(value) => {
            bytes::push_bytes(&mut data, value.as_slice());
        },
        PropertyValue::Binary(value) => {
            bytes::push_bytes(&mut data, value.as_slice());
        },
        PropertyValue::Object(node, size) => {
            bytes::push_u32(&mut data, node.value);
            bytes::push_u32(&mut data, *size);
        },
        PropertyValue::Multiple(_, encoded) => {
            bytes::push_bytes(&mut data, encoded.as_slice());
        },
    }
    assert(data@ =~= value@.data);
    data
}

/// The number that a property record holds in place of the value, where the value is small.
pub fn small_property_record(value: &PropertyValue) -> (small: Option<u32>)
    ensures
        small == (if value@.prop_type.is_small() {
            Some(small_value(value@))
        } else {
            None
        }),
{
    proof {
        let data = value@.data;
        assert(data.len() == 2 ==> data.subrange(0, 2) =~= data);
        assert(data.len() == 4 ==> data.subrange(0, 4) =~= data);
    }
    match value {
        PropertyValue::Integer16(number) => {
            let unsigned: u16 = #[verifier::truncate]
            (*number as u16);
            proof {
                bytes::lemma_get16_le16(value@.data, 0, unsigned);
            }
            Some(unsigned as u32)
        },
        PropertyValue::Integer32(number) | PropertyValue::ErrorCode(number) => {
            let unsigned: u32 = #[verifier::truncate]
            (*number as u32);
            proof {
                bytes::lemma_get32_le32(value@.data, 0, unsigned);
            }
            Some(unsigned)
        },
        PropertyValue::Floating32(number) => {
            proof {
                bytes::lemma_get32_le32(value@.data, 0, *number);
            }
            Some(*number)
        },
        PropertyValue::Boolean(flag) => Some(
            if *flag {
                1
            } else {
                0
            },
        ),
        _ => None,
    }
}

} // verus!
