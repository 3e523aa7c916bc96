//! What a reader finds in the tables of a stored message, property by property.

use vstd::prelude::*;

use crate::error::PstError;
use crate::ltp::column_laws;
use crate::ltp::property::PropertyType;
use crate::ltp::rebuild::RebuiltContents;
use crate::ltp::table::{CellContents, TableLayout};
use crate::messaging::input::{UnicodePstRecipient, UnicodePstRecipientType};
use crate::messaging::recipient;
use crate::messaging::row_laws;
use crate::text;

verus! {

/// The number of a recipient type.
pub open spec fn recipient_number(recipient_type: UnicodePstRecipientType) -> u32 {
    match recipient_type {
        UnicodePstRecipientType::To => 1,
        UnicodePstRecipientType::Cc => 2,
        UnicodePstRecipientType::Bcc => 3,
    }
}

/// The name of a recipient, or the address of one without a name.
pub open spec fn shown_name(recipient: UnicodePstRecipient<'_>) -> Seq<char> {
    if recipient.name@ == Seq::<char>::empty() {
        recipient.email@
    } else {
        recipient.name@
    }
}

/// Whether row `index` of a recipient table is that of a recipient, as a reader finds it.
pub open spec fn is_stored_recipient(
    table: RebuiltContents,
    index: int,
    recipient: UnicodePstRecipient<'_>,
    row_version: u32,
) -> bool {
    let (pages, chunks) = (table.heap_pages, table.row_chunks);
    let kind = recipient_number(recipient.recipient_type);
    &&& column_laws::column_number(pages, chunks, index, 0x0C15, kind)
    &&& column_laws::column_text(pages, chunks, index, 0x3001, shown_name(recipient))
    &&& column_laws::column_text(pages, chunks, index, 0x39FF, shown_name(recipient))
    &&& column_laws::column_text(pages, chunks, index, 0x3002, "SMTP"@)
    &&& column_laws::column_text(pages, chunks, index, 0x3003, recipient.email@)
    &&& column_laws::column_text(pages, chunks, index, 0x39FE, recipient.email@)
    &&& column_laws::column_flag(pages, chunks, index, 0x0E0F, true)
    &&& column_laws::column_flag(pages, chunks, index, 0x3A40, false)
    &&& column_laws::column_number(pages, chunks, index, 0x0FFE, 6)
    &&& column_laws::column_number(pages, chunks, index, 0x3900, 0)
    &&& column_laws::column_number(pages, chunks, index, 0x67F2, (index + 1) as u32)
    &&& column_laws::column_number(pages, chunks, index, 0x67F3, row_version)
    &&& column_laws::column_none(pages, chunks, index, 0x0FF9)
    &&& column_laws::table_column(pages, chunks, index, 0x0FFF) matches Some(
        (code, column_laws::ColumnValue::Bytes(data)),
    ) && code == 0x0102 && is_one_off_entry(data, recipient)
    &&& column_laws::table_column(pages, chunks, index, 0x300B) matches Some(
        (code, column_laws::ColumnValue::Bytes(data)),
    ) && code == 0x0102 && is_search_key(data, recipient.email@)
    &&& forall|id: u16|
        !is_recipient_property(id) ==> #[trigger] column_laws::column_none(
            pages,
            chunks,
            index,
            id,
        )
}

/// The identifiers of the properties of a recipient.
pub open spec fn is_recipient_property(id: u16) -> bool {
    ||| id == 0x0C15 || id == 0x0E0F || id == 0x0FFE || id == 0x0FFF || id == 0x3001
    ||| id == 0x3002 || id == 0x3003 || id == 0x300B || id == 0x3900 || id == 0x39FE
    ||| id == 0x39FF || id == 0x3A40 || id == 0x67F2 || id == 0x67F3
}

/// Whether bytes are the one-off entry identifier of a recipient: four flag bytes, the provider, a version
/// and the Unicode flag, and behind them the name, the type of the address and the address.
pub open spec fn is_one_off_entry(data: Seq<u8>, recipient: UnicodePstRecipient<'_>) -> bool {
    &&& data.len() >= 24
    &&& data.take(24) == seq![
        0u8, 0, 0, 0, 0x81, 0x2B, 0x1F, 0xA4, 0xBE, 0xA3, 0x10, 0x19, 0x9D, 0x6E, 0x00, 0xDD, 0x01,
        0x0F, 0x54, 0x02, 0, 0, 0, 0x80,
    ]
    &&& exists|name: Seq<u8>, kind: Seq<u8>, address: Seq<u8>|
        data.skip(24) == #[trigger] (name + kind + address) && text::read_utf16(name) == Some(
            shown_name(recipient),
        ) && text::read_utf16(kind) == Some("SMTP"@) && text::read_utf16(address) == Some(
            recipient.email@,
        )
}

/// Whether bytes are the search key of an address: the type of the address, a colon, the address in UTF-8
/// with `a` to `z` in upper case, and a terminator.
pub open spec fn is_search_key(data: Seq<u8>, email: Seq<char>) -> bool {
    let address = vstd::utf8::encode_utf8(email);
    &&& data.len() == address.len() + 6
    &&& data.take(5) == seq![0x53u8, 0x4D, 0x54, 0x50, 0x3A]
    &&& data.last() == 0
    &&& forall|i: int|
        0 <= i < address.len() ==> #[trigger] data[5 + i] == (if 0x61 <= address[i] <= 0x7A {
            (address[i] - 0x20) as u8
        } else {
            address[i]
        })
}

proof fn lemma_one_off_entry(recipient: UnicodePstRecipient<'_>)
    ensures
        is_one_off_entry(recipient::one_off_entry(recipient), recipient),
{
    let data = recipient::one_off_entry(recipient);
    let name = text::utf16_text(recipient::display_name(recipient));
    let kind = text::utf16_text("SMTP"@);
    let address = text::utf16_text(recipient.email@);
    assert(recipient::display_name(recipient) == shown_name(recipient)) by {
        if recipient.name@.len() == 0 {
            assert(recipient.name@ =~= Seq::<char>::empty());
        }
    }
    text::law_utf16_reads_back(recipient::display_name(recipient));
    text::law_utf16_reads_back("SMTP"@);
    text::law_utf16_reads_back(recipient.email@);
    assert(data.take(24) =~= seq![
        0u8, 0, 0, 0, 0x81, 0x2B, 0x1F, 0xA4, 0xBE, 0xA3, 0x10, 0x19, 0x9D, 0x6E, 0x00, 0xDD, 0x01,
        0x0F, 0x54, 0x02, 0, 0, 0, 0x80,
    ]);
    assert(data.skip(24) =~= name + kind + address);
}

proof fn lemma_search_key(email: Seq<char>)
    ensures
        is_search_key(recipient::search_key(email), email),
{
    let data = recipient::search_key(email);
    assert(data.take(5) =~= seq![0x53u8, 0x4D, 0x54, 0x50, 0x3A]);
}

/// A number in a row is found.
pub proof fn lemma_number_column(
    pages: Seq<Seq<u8>>,
    chunks: Seq<Seq<u8>>,
    index: int,
    layout: TableLayout,
    cells: Seq<Option<CellContents>>,
    column: int,
    number: u32,
)
    requires
        column_laws::row_holds(pages, chunks, index, layout, cells),
        column_laws::is_first(layout.columns, column),
        column < cells.len(),
        layout.columns[column].prop_type == PropertyType::Integer32,
        cells[column] == recipient::number_cell(number),
    ensures
        column_laws::column_number(
            pages,
            chunks,
            index,
            layout.columns[column].prop_id,
            number,
        ),
{
    column_laws::lemma_fixed_number(number);
    column_laws::law_table_column(pages, chunks, index, layout, cells, column);
}

/// A truth value in a row is found.
pub proof fn lemma_flag_column(
    pages: Seq<Seq<u8>>,
    chunks: Seq<Seq<u8>>,
    index: int,
    layout: TableLayout,
    cells: Seq<Option<CellContents>>,
    column: int,
    flag: bool,
)
    requires
        column_laws::row_holds(pages, chunks, index, layout, cells),
        column_laws::is_first(layout.columns, column),
        column < cells.len(),
        layout.columns[column].prop_type == PropertyType::Boolean,
        cells[column] == recipient::flag_cell(flag),
    ensures
        column_laws::column_flag(
            pages,
            chunks,
            index,
            layout.columns[column].prop_id,
            flag,
        ),
{
    column_laws::law_table_column(pages, chunks, index, layout, cells, column);
}

/// A text in a row is found.
pub proof fn lemma_text_column(
    pages: Seq<Seq<u8>>,
    chunks: Seq<Seq<u8>>,
    index: int,
    layout: TableLayout,
    cells: Seq<Option<CellContents>>,
    column: int,
    value: Seq<char>,
)
    requires
        column_laws::row_holds(pages, chunks, index, layout, cells),
        column_laws::is_first(layout.columns, column),
        column < cells.len(),
        layout.columns[column].prop_type == PropertyType::Unicode,
        cells[column] == recipient::text_cell(PropertyType::Unicode, value),
    ensures
        column_laws::column_text(
            pages,
            chunks,
            index,
            layout.columns[column].prop_id,
            value,
        ),
{
    text::law_utf16_reads_back(value);
    column_laws::law_table_column(pages, chunks, index, layout, cells, column);
}

/// The bytes of a row are found.
pub proof fn lemma_binary_column(
    pages: Seq<Seq<u8>>,
    chunks: Seq<Seq<u8>>,
    index: int,
    layout: TableLayout,
    cells: Seq<Option<CellContents>>,
    column: int,
    data: Seq<u8>,
)
    requires
        column_laws::row_holds(pages, chunks, index, layout, cells),
        column_laws::is_first(layout.columns, column),
        column < cells.len(),
        layout.columns[column].prop_type == PropertyType::Binary,
        cells[column] == Some(CellContents::Bytes(data)),
    ensures
        column_laws::column_binary(
            pages,
            chunks,
            index,
            layout.columns[column].prop_id,
            data,
        ),
{
    column_laws::law_table_column(pages, chunks, index, layout, cells, column);
}

/// Nothing is found of an empty cell.
pub proof fn lemma_none_column(
    pages: Seq<Seq<u8>>,
    chunks: Seq<Seq<u8>>,
    index: int,
    layout: TableLayout,
    cells: Seq<Option<CellContents>>,
    column: int,
)
    requires
        column_laws::row_holds(pages, chunks, index, layout, cells),
        column_laws::is_first(layout.columns, column),
        column < cells.len(),
        cells[column] == None::<CellContents>,
    ensures
        column_laws::column_none(
            pages,
            chunks,
            index,
            layout.columns[column].prop_id,
        ),
{
    column_laws::law_table_column(pages, chunks, index, layout, cells, column);
}

/// The cells of a recipient in a stored table.
pub proof fn lemma_recipient_row(
    recipients: Seq<UnicodePstRecipient<'_>>,
    row_version: u32,
    table: RebuiltContents,
    index: int,
)
    requires
        recipient::recipient_table(recipients, row_version) == Ok::<_, PstError>(table),
        0 <= index < recipients.len(),
    ensures
        table.row_ids.len() == recipients.len(),
        table.row_ids[index] == index + 1,
        column_laws::row_holds(
            table.heap_pages,
            table.row_chunks,
            index,
            recipient::recipient_layout(),
            recipient::recipient_cells(recipients[index], (index + 1) as u32, row_version),
        ),
{
    reveal(column_laws::row_holds);
    row_laws::law_recipient_table_reads_back(recipients, row_version, table, index);
    let size = recipient::recipient_layout().end_existence_bitmap;
    assert(size == 56);
}

proof fn lemma_first_columns(
    pages: Seq<Seq<u8>>,
    chunks: Seq<Seq<u8>>,
    index: int,
    recipient: UnicodePstRecipient<'_>,
    row_id: u32,
    row_version: u32,
)
    requires
        column_laws::row_holds(
            pages,
            chunks,
            index,
            recipient::recipient_layout(),
            recipient::recipient_cells(recipient, row_id, row_version),
        ),
    ensures
        column_laws::column_number(pages, chunks, index, 0x0C15, recipient_number(recipient.recipient_type)),
        column_laws::column_flag(pages, chunks, index, 0x0E0F, true),
        column_laws::column_none(pages, chunks, index, 0x0FF9),
        column_laws::column_number(pages, chunks, index, 0x0FFE, 6),
        column_laws::column_binary(pages, chunks, index, 0x0FFF, recipient::one_off_entry(recipient)),
{
    let layout = recipient::recipient_layout();
    let cells = recipient::recipient_cells(recipient, row_id, row_version);
    lemma_shown_name(recipient);
    assert(column_laws::column_number(pages, chunks, index, 0x0C15, recipient_number(recipient.recipient_type))) by {
        lemma_number_column(pages, chunks, index, layout, cells, 0, recipient_number(recipient.recipient_type));
    }
    assert(column_laws::column_flag(pages, chunks, index, 0x0E0F, true)) by {
        lemma_flag_column(pages, chunks, index, layout, cells, 1, true);
    }
    assert(column_laws::column_none(pages, chunks, index, 0x0FF9)) by {
        lemma_none_column(pages, chunks, index, layout, cells, 2);
    }
    assert(column_laws::column_number(pages, chunks, index, 0x0FFE, 6)) by {
        lemma_number_column(pages, chunks, index, layout, cells, 3, 6);
    }
    assert(column_laws::column_binary(pages, chunks, index, 0x0FFF, recipient::one_off_entry(recipient))) by {
        lemma_binary_column(pages, chunks, index, layout, cells, 4, recipient::one_off_entry(recipient));
    }
}

proof fn lemma_middle_columns(
    pages: Seq<Seq<u8>>,
    chunks: Seq<Seq<u8>>,
    index: int,
    recipient: UnicodePstRecipient<'_>,
    row_id: u32,
    row_version: u32,
)
    requires
        column_laws::row_holds(
            pages,
            chunks,
            index,
            recipient::recipient_layout(),
            recipient::recipient_cells(recipient, row_id, row_version),
        ),
    ensures
        column_laws::column_text(pages, chunks, index, 0x3001, shown_name(recipient)),
        column_laws::column_text(pages, chunks, index, 0x3002, "SMTP"@),
        column_laws::column_text(pages, chunks, index, 0x3003, recipient.email@),
        column_laws::column_binary(pages, chunks, index, 0x300B, recipient::search_key(recipient.email@)),
        column_laws::column_number(pages, chunks, index, 0x3900, 0),
{
    let layout = recipient::recipient_layout();
    let cells = recipient::recipient_cells(recipient, row_id, row_version);
    lemma_shown_name(recipient);
    assert(column_laws::column_text(pages, chunks, index, 0x3001, shown_name(recipient))) by {
        lemma_text_column(pages, chunks, index, layout, cells, 5, shown_name(recipient));
    }
    assert(column_laws::column_text(pages, chunks, index, 0x3002, "SMTP"@)) by {
        lemma_text_column(pages, chunks, index, layout, cells, 6, "SMTP"@);
    }
    assert(column_laws::column_text(pages, chunks, index, 0x3003, recipient.email@)) by {
        lemma_text_column(pages, chunks, index, layout, cells, 7, recipient.email@);
    }
    assert(column_laws::column_binary(pages, chunks, index, 0x300B, recipient::search_key(recipient.email@))) by {
        lemma_binary_column(pages, chunks, index, layout, cells, 8, recipient::search_key(recipient.email@));
    }
    assert(column_laws::column_number(pages, chunks, index, 0x3900, 0)) by {
        lemma_number_column(pages, chunks, index, layout, cells, 9, 0);
    }
}

proof fn lemma_last_columns(
    pages: Seq<Seq<u8>>,
    chunks: Seq<Seq<u8>>,
    index: int,
    recipient: UnicodePstRecipient<'_>,
    row_id: u32,
    row_version: u32,
)
    requires
        column_laws::row_holds(
            pages,
            chunks,
            index,
            recipient::recipient_layout(),
            recipient::recipient_cells(recipient, row_id, row_version),
        ),
    ensures
        column_laws::column_text(pages, chunks, index, 0x39FE, recipient.email@),
        column_laws::column_text(pages, chunks, index, 0x39FF, shown_name(recipient)),
        column_laws::column_flag(pages, chunks, index, 0x3A40, false),
        column_laws::column_number(pages, chunks, index, 0x67F2, row_id),
        column_laws::column_number(pages, chunks, index, 0x67F3, row_version),
{
    let layout = recipient::recipient_layout();
    let cells = recipient::recipient_cells(recipient, row_id, row_version);
    lemma_shown_name(recipient);
    assert(column_laws::column_text(pages, chunks, index, 0x39FE, recipient.email@)) by {
        lemma_text_column(pages, chunks, index, layout, cells, 10, recipient.email@);
    }
    assert(column_laws::column_text(pages, chunks, index, 0x39FF, shown_name(recipient))) by {
        lemma_text_column(pages, chunks, index, layout, cells, 11, shown_name(recipient));
    }
    assert(column_laws::column_flag(pages, chunks, index, 0x3A40, false)) by {
        lemma_flag_column(pages, chunks, index, layout, cells, 12, false);
    }
    assert(column_laws::column_number(pages, chunks, index, 0x67F2, row_id)) by {
        lemma_number_column(pages, chunks, index, layout, cells, 13, row_id);
    }
    assert(column_laws::column_number(pages, chunks, index, 0x67F3, row_version)) by {
        lemma_number_column(pages, chunks, index, layout, cells, 14, row_version);
    }
}

proof fn lemma_recipient_others(
    pages: Seq<Seq<u8>>,
    chunks: Seq<Seq<u8>>,
    index: int,
    recipient: UnicodePstRecipient<'_>,
    row_id: u32,
    row_version: u32,
    id: u16,
)
    requires
        column_laws::row_holds(
            pages,
            chunks,
            index,
            recipient::recipient_layout(),
            recipient::recipient_cells(recipient, row_id, row_version),
        ),
        !is_recipient_property(id),
        id != 0x0FF9,
    ensures
        column_laws::column_none(pages, chunks, index, id),
{
    let layout = recipient::recipient_layout();
    let cells = recipient::recipient_cells(recipient, row_id, row_version);
    column_laws::law_no_table_column(pages, chunks, index, layout, cells, id);
}

proof fn lemma_shown_name(recipient: UnicodePstRecipient<'_>)
    ensures
        recipient::display_name(recipient) == shown_name(recipient),
{
    if recipient.name@.len() == 0 {
        assert(recipient.name@ =~= Seq::<char>::empty());
    }
}

/// A stored recipient table has a row for every recipient, in their order, with its type, its name and its
/// address under their identifiers, and no others.
pub proof fn law_recipient_is_stored(
    recipients: Seq<UnicodePstRecipient<'_>>,
    row_version: u32,
    table: RebuiltContents,
    index: int,
)
    requires
        recipient::recipient_table(recipients, row_version) == Ok::<_, PstError>(table),
        0 <= index < recipients.len(),
    ensures
        table.row_ids.len() == recipients.len(),
        is_stored_recipient(table, index, recipients[index], row_version),
{
    lemma_recipient_row(recipients, row_version, table, index);
    let recipient = recipients[index];
    let row_id = (index + 1) as u32;
    let (pages, chunks) = (table.heap_pages, table.row_chunks);
    lemma_one_off_entry(recipient);
    lemma_search_key(recipient.email@);
    lemma_first_columns(pages, chunks, index, recipient, row_id, row_version);
    lemma_middle_columns(pages, chunks, index, recipient, row_id, row_version);
    lemma_last_columns(pages, chunks, index, recipient, row_id, row_version);
    assert forall|id: u16| !is_recipient_property(id) implies #[trigger] column_laws::column_none(
        pages,
        chunks,
        index,
        id,
    ) by {
        if id != 0x0FF9 {
            lemma_recipient_others(pages, chunks, index, recipient, row_id, row_version, id);
        }
    }
}

/// Two rows of a recipient table have the same number as their type exactly where their recipients are of
/// the same type: 1 stands for the primary recipients, 2 for copies and 3 for blind copies.
pub proof fn law_recipient_types_are_told_apart(
    recipients: Seq<UnicodePstRecipient<'_>>,
    row_version: u32,
    table: RebuiltContents,
    first: int,
    second: int,
)
    requires
        recipient::recipient_table(recipients, row_version) == Ok::<_, PstError>(table),
        0 <= first < recipients.len(),
        0 <= second < recipients.len(),
    ensures
        column_laws::column_number(table.heap_pages, table.row_chunks, first, 0x0C15, 1)
            <==> recipients[first].recipient_type is To,
        column_laws::column_number(table.heap_pages, table.row_chunks, first, 0x0C15, 2)
            <==> recipients[first].recipient_type is Cc,
        column_laws::column_number(table.heap_pages, table.row_chunks, first, 0x0C15, 3)
            <==> recipients[first].recipient_type is Bcc,
        column_laws::table_column(table.heap_pages, table.row_chunks, first, 0x0C15)
            == column_laws::table_column(table.heap_pages, table.row_chunks, second, 0x0C15)
            <==> recipients[first].recipient_type == recipients[second].recipient_type,
{
    law_recipient_is_stored(recipients, row_version, table, first);
    law_recipient_is_stored(recipients, row_version, table, second);
    let one = column_laws::table_column(table.heap_pages, table.row_chunks, first, 0x0C15);
    let other = column_laws::table_column(table.heap_pages, table.row_chunks, second, 0x0C15);
    if recipients[first].recipient_type == recipients[second].recipient_type {
        let number = recipient_number(recipients[first].recipient_type);
        column_laws::lemma_number_bytes((one->Some_0).1->Fixed_0, number);
        column_laws::lemma_number_bytes((other->Some_0).1->Fixed_0, number);
    }
}

proof fn lemma_display_prefix(
    recipients: Seq<UnicodePstRecipient<'_>>,
    more: Seq<UnicodePstRecipient<'_>>,
    recipient_type: UnicodePstRecipientType,
    count: nat,
)
    requires
        count <= recipients.len(),
        recipients.len() <= more.len(),
        forall|i: int| 0 <= i < recipients.len() ==> #[trigger] more[i] == recipients[i],
    ensures
        recipient::displayed_recipients(more, recipient_type, count)
            == recipient::displayed_recipients(recipients, recipient_type, count),
        recipient::recipients_of_type(more, recipient_type, count)
            == recipient::recipients_of_type(recipients, recipient_type, count),
        recipient::recipients_of_type(recipients, recipient_type, count) == 0 <==> (forall|i: int|
            0 <= i < count ==> (#[trigger] recipients[i]).recipient_type != recipient_type),
    decreases count,
{
    if count > 0 {
        lemma_display_prefix(recipients, more, recipient_type, (count - 1) as nat);
        assert(more[count - 1] == recipients[count - 1]);
    }
}

/// The names of the recipients of a type are those of its recipients alone, in their order, with a semicolon and
/// a space between any two: a recipient of another type adds nothing, the first of the type adds its name, and
/// each further one adds the separator and its name.
pub proof fn law_display_names(
    recipients: Seq<UnicodePstRecipient<'_>>,
    recipient_type: UnicodePstRecipientType,
    next: UnicodePstRecipient<'_>,
)
    ensures
        recipient::spec_recipient_display(Seq::empty(), recipient_type) == Seq::<char>::empty(),
        next.recipient_type != recipient_type ==> recipient::spec_recipient_display(
            recipients.push(next),
            recipient_type,
        ) == recipient::spec_recipient_display(recipients, recipient_type),
        next.recipient_type == recipient_type && (forall|i: int|
            0 <= i < recipients.len() ==> (#[trigger] recipients[i]).recipient_type
                != recipient_type) ==> recipient::spec_recipient_display(
            recipients.push(next),
            recipient_type,
        ) == shown_name(next),
        next.recipient_type == recipient_type && (exists|i: int|
            0 <= i < recipients.len() && (#[trigger] recipients[i]).recipient_type
                == recipient_type) ==> recipient::spec_recipient_display(
            recipients.push(next),
            recipient_type,
        ) == recipient::spec_recipient_display(recipients, recipient_type) + seq![';', ' ']
            + shown_name(next),
{
    let more = recipients.push(next);
    lemma_display_prefix(recipients, more, recipient_type, recipients.len());
    if next.name@.len() == 0 {
        assert(next.name@ =~= Seq::<char>::empty());
    }
    reveal_strlit("; ");
    assert("; "@ =~= seq![';', ' ']);
}

} // verus!
