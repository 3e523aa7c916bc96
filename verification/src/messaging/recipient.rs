//! Recipients: how they are shown and their table.

use vstd::prelude::*;

use crate::bytes;
use crate::error::PstError;
use crate::ltp::heap;
use crate::ltp::heap::{HeapBuilder, HeapId};
use crate::ltp::property;
use crate::ltp::property::{PropertyType, PropertyValue};
use crate::ltp::rebuild;
use crate::ltp::rebuild::{RebuiltContents, RebuiltTable, RowsSoFar};
use crate::ltp::table;
use crate::ltp::table::{
    CellContents, TableCell, TableColumnDescriptor, TableContextInfo, TableLayout,
    LTP_ROW_ID_PROP_ID, LTP_ROW_VERSION_PROP_ID,
};
use crate::messaging::input::{UnicodePstRecipient, UnicodePstRecipientType};
use crate::ndb::ids::NodeId;
use crate::text;

verus! {

/// The node of the rows of a recipient table or an attachment table.
pub const ROWS_NODE: u32 = 0x1001;

/// The name under which a recipient is shown: the name, or the address where there is no name.
pub open spec fn display_name(recipient: UnicodePstRecipient<'_>) -> Seq<char> {
    if recipient.name@.len() == 0 {
        recipient.email@
    } else {
        recipient.name@
    }
}

/// The number of recipients of the given type among the first `count`.
pub open spec fn recipients_of_type(
    recipients: Seq<UnicodePstRecipient<'_>>,
    recipient_type: UnicodePstRecipientType,
    count: nat,
) -> nat
    decreases count,
{
    if count == 0 {
        0
    } else {
        recipients_of_type(recipients, recipient_type, (count - 1) as nat) + if recipients[count
            - 1].recipient_type == recipient_type {
            1nat
        } else {
            0nat
        }
    }
}

/// The names of the recipients of the given type among the first `count`, separated by `; `.
pub open spec fn displayed_recipients(
    recipients: Seq<UnicodePstRecipient<'_>>,
    recipient_type: UnicodePstRecipientType,
    count: nat,
) -> Seq<char>
    decreases count,
{
    if count == 0 {
        Seq::empty()
    } else {
        let before = displayed_recipients(recipients, recipient_type, (count - 1) as nat);
        let last = recipients[count - 1];
        if last.recipient_type != recipient_type {
            before
        } else if recipients_of_type(recipients, recipient_type, (count - 1) as nat) == 0 {
            display_name(last)
        } else {
            before + "; "@ + display_name(last)
        }
    }
}

/// The names of the recipients of the given type, separated by `; `.
pub open spec fn spec_recipient_display(
    recipients: Seq<UnicodePstRecipient<'_>>,
    recipient_type: UnicodePstRecipientType,
) -> Seq<char> {
    displayed_recipients(recipients, recipient_type, recipients.len())
}

/// The cell with the given text. Only columns of text can hold it.
pub open spec fn text_cell(prop_type: PropertyType, value: Seq<char>) -> Option<CellContents> {
    match prop_type {
        PropertyType::String8 => Some(CellContents::Bytes(text::utf8_text(value) + seq![0u8])),
        PropertyType::Unicode => Some(CellContents::Bytes(text::utf16_text(value))),
        _ => None,
    }
}

/// The cell with the names of the recipients of the given type, where there are any.
pub open spec fn display_cell(
    prop_type: PropertyType,
    recipients: Seq<UnicodePstRecipient<'_>>,
    recipient_type: UnicodePstRecipientType,
) -> Option<CellContents> {
    let display = spec_recipient_display(recipients, recipient_type);
    if display.len() == 0 {
        None
    } else {
        text_cell(prop_type, display)
    }
}

/// The provider of one-off entry identifiers.
pub open spec fn one_off_provider() -> Seq<u8> {
    seq![
        0x81, 0x2B, 0x1F, 0xA4, 0xBE, 0xA3, 0x10, 0x19, 0x9D, 0x6E, 0x00, 0xDD, 0x01, 0x0F, 0x54,
        0x02,
    ]
}

/// The one-off entry identifier of a recipient: its name, the address type and its address.
pub open spec fn one_off_entry(recipient: UnicodePstRecipient<'_>) -> Seq<u8> {
    bytes::zeros(4) + one_off_provider() + bytes::le16(0) + bytes::le16(0x8000) + text::utf16_text(
        display_name(recipient),
    ) + text::utf16_text("SMTP"@) + text::utf16_text(recipient.email@)
}

/// A byte with an ASCII letter in upper case.
pub open spec fn upper_byte(byte: u8) -> u8 {
    if 0x61 <= byte <= 0x7A {
        (byte - 0x20) as u8
    } else {
        byte
    }
}

/// The search key of an address: `SMTP:` and the address with its ASCII letters in upper case,
/// terminated.
pub open spec fn search_key(email: Seq<char>) -> Seq<u8> {
    let address = text::utf8_text(email);
    seq![0x53u8, 0x4D, 0x54, 0x50, 0x3A] + Seq::new(
        address.len(),
        |i: int| upper_byte(address[i]),
    ) + seq![0u8]
}

/// A column of a table.
pub open spec fn column(
    prop_type: PropertyType,
    prop_id: u16,
    offset: u16,
    size: u8,
    existence_bitmap_index: u8,
) -> TableColumnDescriptor {
    TableColumnDescriptor { prop_type, prop_id, offset, size, existence_bitmap_index }
}

/// The layout of a recipient table.
pub open spec fn recipient_layout() -> TableLayout {
    TableLayout {
        end_4byte_values: 52,
        end_2byte_values: 52,
        end_1byte_values: 54,
        end_existence_bitmap: 56,
        columns: seq![
            column(PropertyType::Integer32, 0x0C15, 8, 4, 2),
            column(PropertyType::Boolean, 0x0E0F, 52, 1, 3),
            column(PropertyType::Binary, 0x0FF9, 12, 4, 4),
            column(PropertyType::Integer32, 0x0FFE, 16, 4, 5),
            column(PropertyType::Binary, 0x0FFF, 20, 4, 6),
            column(PropertyType::Unicode, 0x3001, 24, 4, 7),
            column(PropertyType::Unicode, 0x3002, 28, 4, 8),
            column(PropertyType::Unicode, 0x3003, 32, 4, 9),
            column(PropertyType::Binary, 0x300B, 36, 4, 10),
            column(PropertyType::Integer32, 0x3900, 40, 4, 11),
            column(PropertyType::Unicode, 0x39FE, 44, 4, 12),
            column(PropertyType::Unicode, 0x39FF, 48, 4, 13),
            column(PropertyType::Boolean, 0x3A40, 53, 1, 14),
            column(PropertyType::Integer32, LTP_ROW_ID_PROP_ID, 0, 4, 0),
            column(PropertyType::Integer32, LTP_ROW_VERSION_PROP_ID, 4, 4, 1),
        ],
    }
}

/// A cell with a number.
pub open spec fn number_cell(number: u32) -> Option<CellContents> {
    Some(CellContents::Value(property::integer32_value(number)))
}

/// A cell with a truth value.
pub open spec fn flag_cell(flag: bool) -> Option<CellContents> {
    Some(CellContents::Value(property::boolean_value(flag)))
}

/// The cells of a recipient.
pub open spec fn recipient_cells(
    recipient: UnicodePstRecipient<'_>,
    row_id: u32,
    row_version: u32,
) -> Seq<Option<CellContents>> {
    let display = text_cell(PropertyType::Unicode, display_name(recipient));
    let email = text_cell(PropertyType::Unicode, recipient.email@);
    seq![
        number_cell(recipient.recipient_type.spec_code()),
        flag_cell(true),
        None,
        number_cell(6),
        Some(CellContents::Bytes(one_off_entry(recipient))),
        display,
        text_cell(PropertyType::Unicode, "SMTP"@),
        email,
        Some(CellContents::Bytes(search_key(recipient.email@))),
        number_cell(0),
        email,
        display,
        flag_cell(false),
        number_cell(row_id),
        number_cell(row_version),
    ]
}

/// `rows` with the recipients from `index` on, numbered from one.
pub open spec fn with_recipients(
    rows: RowsSoFar,
    recipients: Seq<UnicodePstRecipient<'_>>,
    index: int,
    row_version: u32,
) -> Result<RowsSoFar, PstError>
    decreases recipients.len() - index,
{
    if index >= recipients.len() {
        Ok(rows)
    } else if index + 1 > i32::MAX {
        Err(PstError::IntegerConversion)
    } else {
        let row_id = (index + 1) as u32;
        match rebuild::with_encoded_row(
            rows,
            recipient_layout(),
            row_id,
            row_version,
            recipient_cells(recipients[index], row_id, row_version),
        ) {
            Err(error) => Err(error),
            Ok(next) => with_recipients(next, recipients, index + 1, row_version),
        }
    }
}

/// A table without rows.
pub open spec fn no_rows() -> RowsSoFar {
    RowsSoFar { pages: heap::empty_heap(), chunks: Seq::empty(), ids: Seq::empty() }
}

/// The recipient table of a message.
#[verifier::opaque]
pub open spec fn recipient_table(
    recipients: Seq<UnicodePstRecipient<'_>>,
    row_version: u32,
) -> Result<RebuiltContents, PstError> {
    if recipients.len() > u32::MAX {
        Err(PstError::IntegerConversion)
    } else {
        match with_recipients(no_rows(), recipients, 0, row_version) {
            Err(error) => Err(error),
            Ok(rows) => rebuild::finished_table(
                rows,
                recipient_layout(),
                Some(NodeId { value: ROWS_NODE }),
            ),
        }
    }
}

/// The names of the recipients of the given type, separated by `; `.
pub fn recipient_display(
    recipients: &[UnicodePstRecipient<'_>],
    recipient_type: UnicodePstRecipientType,
) -> (display: String)
    ensures
        display@ == spec_recipient_display(recipients@, recipient_type),
{
    let mut display = String::new();
    let mut first: bool = true;
    let mut i: usize = 0;
    while i < recipients.len()
        invariant
            i <= recipients@.len(),
            first == (recipients_of_type(recipients@, recipient_type, i as nat) == 0),
            display@ == displayed_recipients(recipients@, recipient_type, i as nat),
            first ==> display@.len() == 0,
        decreases recipients@.len() - i,
    {
        let recipient: &UnicodePstRecipient<'_> = &recipients[i];
        if recipient.recipient_type == recipient_type {
            if !first {
                display.append("; ");
            }
            if recipient.name.is_empty() {
                display.append(recipient.email);
            } else {
                display.append(recipient.name);
            }
            first = false;
        }
        i += 1;
        assert(display@ =~= displayed_recipients(recipients@, recipient_type, i as nat));
    }
    display
}

/// The cell with the given text. Only columns of text can hold it.
pub fn string_table_cell(prop_type: PropertyType, value: &str) -> (cell: Option<TableCell>)
    ensures
        table::cell_view(cell) == text_cell(prop_type, value@),
{
    match prop_type {
        PropertyType::String8 => {
            let mut data = text::utf8_bytes(value);
            data.push(0);
            assert(data@ =~= text::utf8_text(value@) + seq![0u8]);
            Some(TableCell::Bytes(data))
        },
        PropertyType::Unicode => Some(TableCell::Bytes(text::utf16_bytes(value))),
        _ => None,
    }
}

/// The cell with the names of the recipients of the given type, where there are any.
pub fn recipient_display_table_cell(
    prop_type: PropertyType,
    recipients: &[UnicodePstRecipient<'_>],
    recipient_type: UnicodePstRecipientType,
) -> (cell: Option<TableCell>)
    ensures
        table::cell_view(cell) == display_cell(prop_type, recipients@, recipient_type),
{
    let display = recipient_display(recipients, recipient_type);
    if display.as_str().is_empty() {
        None
    } else {
        string_table_cell(prop_type, display.as_str())
    }
}

/// The one-off entry identifier of a recipient.
pub fn one_off_entry_id(recipient: &UnicodePstRecipient<'_>) -> (data: Vec<u8>)
    ensures
        data@ == one_off_entry(*recipient),
{
    let provider: [u8; 16] = [
        0x81, 0x2B, 0x1F, 0xA4, 0xBE, 0xA3, 0x10, 0x19, 0x9D, 0x6E, 0x00, 0xDD, 0x01, 0x0F, 0x54,
        0x02,
    ];
    assert(provider@ =~= one_off_provider());
    let mut data: Vec<u8> = Vec::new();
    bytes::push_zeros(&mut data, 4);
    bytes::push_bytes(&mut data, provider.as_slice());
    bytes::push_u16(&mut data, 0);
    bytes::push_u16(&mut data, 0x8000);
    let name = if recipient.name.is_empty() {
        text::utf16_bytes(recipient.email)
    } else {
        text::utf16_bytes(recipient.name)
    };
    bytes::push_bytes(&mut data, name.as_slice());
    bytes::push_bytes(&mut data, text::utf16_bytes("SMTP").as_slice());
    bytes::push_bytes(&mut data, text::utf16_bytes(recipient.email).as_slice());
    assert(data@ =~= one_off_entry(*recipient));
    data
}

/// The search key of an address.
pub fn recipient_search_key(email: &str) -> (key: Vec<u8>)
    ensures
        key@ == search_key(email@),
{
    let mut key: Vec<u8> = Vec::new();
    key.push(0x53);
    key.push(0x4D);
    key.push(0x54);
    key.push(0x50);
    key.push(0x3A);
    let address = text::utf8_bytes(email);
    let mut i: usize = 0;
    while i < address.len()
        invariant
            i <= address@.len(),
            address@ == text::utf8_text(email@),
            key@ == seq![0x53u8, 0x4D, 0x54, 0x50, 0x3A] + Seq::new(
                i as nat,
                |j: int| upper_byte(address@[j]),
            ),
        decreases address@.len() - i,
    {
        let byte: u8 = address[i];
        key.push(
            if 0x61 <= byte && byte <= 0x7A {
                byte - 0x20
            } else {
                byte
            },
        );
        i += 1;
        assert(key@ =~= seq![0x53u8, 0x4D, 0x54, 0x50, 0x3A] + Seq::new(
            i as nat,
            |j: int| upper_byte(address@[j]),
        ));
    }
    key.push(0);
    assert(key@ =~= search_key(email@));
    key
}

/// A column of a table.
pub fn new_column(
    prop_type: PropertyType,
    prop_id: u16,
    offset: u16,
    size: u8,
    existence_bitmap_index: u8,
) -> (descriptor: TableColumnDescriptor)
    ensures
        descriptor == column(prop_type, prop_id, offset, size, existence_bitmap_index),
{
    TableColumnDescriptor { prop_type, prop_id, offset, size, existence_bitmap_index }
}

/// A cell with a number.
pub fn new_number_cell(number: u32) -> (cell: Option<TableCell>)
    ensures
        table::cell_view(cell) == number_cell(number),
{
    Some(TableCell::Value(property::integer32(number)))
}

/// A cell with a truth value.
pub fn new_flag_cell(flag: bool) -> (cell: Option<TableCell>)
    ensures
        table::cell_view(cell) == flag_cell(flag),
{
    let value = PropertyValue::Boolean(flag);
    assert(value@ == property::boolean_value(flag));
    Some(TableCell::Value(value))
}

/// The layout of a recipient table.
fn recipient_context() -> (context: TableContextInfo)
    ensures
        context@ == recipient_layout(),
        table::layout_wf(context@),
{
    let columns: Vec<TableColumnDescriptor> = vec![
        new_column(PropertyType::Integer32, 0x0C15, 8, 4, 2),
        new_column(PropertyType::Boolean, 0x0E0F, 52, 1, 3),
        new_column(PropertyType::Binary, 0x0FF9, 12, 4, 4),
        new_column(PropertyType::Integer32, 0x0FFE, 16, 4, 5),
        new_column(PropertyType::Binary, 0x0FFF, 20, 4, 6),
        new_column(PropertyType::Unicode, 0x3001, 24, 4, 7),
        new_column(PropertyType::Unicode, 0x3002, 28, 4, 8),
        new_column(PropertyType::Unicode, 0x3003, 32, 4, 9),
        new_column(PropertyType::Binary, 0x300B, 36, 4, 10),
        new_column(PropertyType::Integer32, 0x3900, 40, 4, 11),
        new_column(PropertyType::Unicode, 0x39FE, 44, 4, 12),
        new_column(PropertyType::Unicode, 0x39FF, 48, 4, 13),
        new_column(PropertyType::Boolean, 0x3A40, 53, 1, 14),
        new_column(PropertyType::Integer32, LTP_ROW_ID_PROP_ID, 0, 4, 0),
        new_column(PropertyType::Integer32, LTP_ROW_VERSION_PROP_ID, 4, 4, 1),
    ];
    assert(columns@ =~= recipient_layout().columns);
    TableContextInfo {
        end_4byte_values: 52,
        end_2byte_values: 52,
        end_1byte_values: 54,
        end_existence_bitmap: 56,
        row_index: HeapId::none(),
        rows: None,
        columns,
    }
}

/// The cells of a recipient.
fn new_recipient_cells(
    recipient: &UnicodePstRecipient<'_>,
    row_id: u32,
    row_version: u32,
) -> (cells: Vec<Option<TableCell>>)
    ensures
        table::cell_views(cells@) == recipient_cells(*recipient, row_id, row_version),
{
    let display: &str = if recipient.name.is_empty() {
        recipient.email
    } else {
        recipient.name
    };
    let cells: Vec<Option<TableCell>> = vec![
        new_number_cell(recipient.recipient_type.code()),
        new_flag_cell(true),
        None,
        new_number_cell(6),
        Some(TableCell::Bytes(one_off_entry_id(recipient))),
        string_table_cell(PropertyType::Unicode, display),
        string_table_cell(PropertyType::Unicode, "SMTP"),
        string_table_cell(PropertyType::Unicode, recipient.email),
        Some(TableCell::Bytes(recipient_search_key(recipient.email))),
        new_number_cell(0),
        string_table_cell(PropertyType::Unicode, recipient.email),
        string_table_cell(PropertyType::Unicode, display),
        new_flag_cell(false),
        new_number_cell(row_id),
        new_number_cell(row_version),
    ];
    assert(table::cell_views(cells@) =~= recipient_cells(*recipient, row_id, row_version));
    cells
}

/// Adds the rows of the recipients.
fn push_recipients(
    context: &TableContextInfo,
    heap: &mut HeapBuilder,
    chunks: &mut Vec<Vec<u8>>,
    ids: &mut Vec<u32>,
    recipients: &[UnicodePstRecipient<'_>],
    row_version: u32,
) -> (result: Result<(), PstError>)
    requires
        heap::heap_wf(old(heap)@),
        context@ == recipient_layout(),
        table::layout_wf(context@),
    ensures
        heap::heap_wf(final(heap)@),
        match with_recipients(
            (RowsSoFar {
                pages: old(heap)@,
                chunks: bytes::views(old(chunks)@),
                ids: old(ids)@,
            }),
            recipients@,
            0,
            row_version,
        ) {
            Ok(after) => result is Ok && after == (RowsSoFar {
                pages: final(heap)@,
                chunks: bytes::views(final(chunks)@),
                ids: final(ids)@,
            }),
            Err(error) => result == Err::<(), PstError>(error),
        },
{
    let mut i: usize = 0;
    while i < recipients.len()
        invariant
            i <= recipients@.len(),
            context@ == recipient_layout(),
            table::layout_wf(context@),
            heap::heap_wf(heap@),
            with_recipients(
                RowsSoFar {
                    pages: old(heap)@,
                    chunks: bytes::views(old(chunks)@),
                    ids: old(ids)@,
                },
                recipients@,
                0,
                row_version,
            ) == with_recipients(
                RowsSoFar { pages: heap@, chunks: bytes::views(chunks@), ids: ids@ },
                recipients@,
                i as int,
                row_version,
            ),
        decreases recipients@.len() - i,
    {
        if i >= i32::MAX as usize {
            return Err(PstError::IntegerConversion);
        }
        let row_id: u32 = (i + 1) as u32;
        let cells = new_recipient_cells(&recipients[i], row_id, row_version);
        rebuild::push_encoded_row(context, heap, chunks, ids, row_id, row_version, cells)?;
        i += 1;
    }
    Ok(())
}

/// The recipient table of a message.
pub fn recipient_table_data(recipients: &[UnicodePstRecipient<'_>], row_version: u32) -> (result:
    Result<RebuiltTable, PstError>)
    ensures
        crate::error::result_view(result) == recipient_table(recipients@, row_version),
{
    reveal(recipient_table);
    if recipients.len() > u32::MAX as usize {
        return Err(PstError::IntegerConversion);
    }
    let context = recipient_context();
    let mut heap = HeapBuilder::new();
    let mut chunks: Vec<Vec<u8>> = Vec::new();
    let mut ids: Vec<u32> = Vec::new();
    assert(bytes::views(chunks@) =~= Seq::empty());
    push_recipients(&context, &mut heap, &mut chunks, &mut ids, recipients, row_version)?;
    rebuild::finish_table(&context, heap, chunks, ids, Some(NodeId { value: ROWS_NODE }))
}

} // verus!
