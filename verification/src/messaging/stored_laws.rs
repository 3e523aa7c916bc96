//! What a reader finds in a stored message, property by property.

use vstd::prelude::*;

use crate::bytes;
use crate::error::PstError;
use crate::ltp::property;
use crate::ltp::property::EncodedValue;
use crate::ltp::property_laws;
use crate::ltp::property_laws::ReadValue;
use crate::messaging::input::{UnicodePstMessage, UnicodePstRecipientType};
use crate::messaging::message;
use crate::messaging::message_laws;
use crate::messaging::recipient;
use crate::ndb::ids::NodeId;
use crate::text;

verus! {

/// The type code and the bytes of a property that stands in the heap or in a subnode.
pub open spec fn stored_bytes(
    pages: Seq<Seq<u8>>,
    external: Seq<(NodeId, Seq<u8>)>,
    id: u16,
) -> Option<(int, Seq<u8>)> {
    match property_laws::property_in_pages(pages, id) {
        Some((code, ReadValue::Bytes(data))) => Some((code, data)),
        Some((code, ReadValue::Node(node))) => match property_laws::external_data(
            external,
            node,
            0,
        ) {
            Some(data) => Some((code, data)),
            None => None,
        },
        _ => None,
    }
}

/// Whether a property is the given text.
pub open spec fn has_text(
    pages: Seq<Seq<u8>>,
    external: Seq<(NodeId, Seq<u8>)>,
    id: u16,
    value: Seq<char>,
) -> bool {
    stored_bytes(pages, external, id) matches Some((code, data)) && code == 0x001F
        && text::read_utf16(data) == Some(value)
}

/// Whether a property is the given time.
pub open spec fn has_time(
    pages: Seq<Seq<u8>>,
    external: Seq<(NodeId, Seq<u8>)>,
    id: u16,
    time: i64,
) -> bool {
    stored_bytes(pages, external, id) matches Some((code, data)) && code == 0x0040 && data.len() == 8
        && bytes::get64(data, 0) == time as u64
}

/// Whether a property has the given bytes.
pub open spec fn has_binary(
    pages: Seq<Seq<u8>>,
    external: Seq<(NodeId, Seq<u8>)>,
    id: u16,
    value: Seq<u8>,
) -> bool {
    stored_bytes(pages, external, id) == Some((0x0102int, value))
}

/// Whether a property is the given number.
pub open spec fn has_number(pages: Seq<Seq<u8>>, id: u16, number: u32) -> bool {
    property_laws::property_in_pages(pages, id) == Some((0x0003int, ReadValue::Small(number)))
}

/// Whether a property is the given truth value.
pub open spec fn has_flag(pages: Seq<Seq<u8>>, id: u16, flag: bool) -> bool {
    property_laws::property_in_pages(pages, id) == Some(
        (
            0x000Bint,
            ReadValue::Small(
                if flag {
                    1
                } else {
                    0
                },
            ),
        ),
    )
}

/// Whether there is no such property.
pub open spec fn has_none(pages: Seq<Seq<u8>>, id: u16) -> bool {
    property_laws::property_in_pages(pages, id) is None
}

/// Whether a property has the names of the recipients of one type, where there are any with a name.
pub open spec fn has_display(
    pages: Seq<Seq<u8>>,
    external: Seq<(NodeId, Seq<u8>)>,
    id: u16,
    input: UnicodePstMessage<'_>,
    recipient_type: UnicodePstRecipientType,
) -> bool {
    let display = recipient::spec_recipient_display(input.recipients@, recipient_type);
    if display.len() == 0 {
        has_none(pages, id)
    } else {
        has_text(pages, external, id, display)
    }
}

/// Whether a property context is that of a message: a reader finds the subject, the sender, the texts and
/// the times of the input under their identifiers, and no other property.
pub open spec fn is_stored_message(
    pages: Seq<Seq<u8>>,
    external: Seq<(NodeId, Seq<u8>)>,
    input: UnicodePstMessage<'_>,
    has_attachments: bool,
    message: NodeId,
    row_version: u32,
    message_size: u32,
) -> bool {
    &&& has_text(pages, external, 0x001A, "IPM.Note"@)
    &&& has_text(pages, external, 0x0037, input.subject@)
    &&& has_text(pages, external, 0x0070, input.subject@)
    &&& has_text(pages, external, 0x0042, input.sender_name@)
    &&& has_text(pages, external, 0x0C1A, input.sender_name@)
    &&& has_text(pages, external, 0x0C1F, input.sender_email@)
    &&& has_text(pages, external, 0x1000, input.body@)
    &&& has_text(pages, external, 0x1035, input.message_id@)
    &&& has_time(pages, external, 0x0039, input.delivery_time)
    &&& has_time(pages, external, 0x0E06, input.delivery_time)
    &&& has_time(pages, external, 0x3007, input.delivery_time)
    &&& has_time(pages, external, 0x3008, input.delivery_time)
    &&& has_number(
        pages,
        0x0E07,
        if has_attachments {
            0x11
        } else {
            0x01
        },
    )
    &&& has_number(pages, 0x0E08, message_size)
    &&& has_number(pages, 0x0E17, 0)
    &&& has_flag(pages, 0x0E1B, has_attachments)
    &&& has_binary(pages, external, 0x300B, vstd::utf8::encode_utf8(input.message_id@))
    &&& has_number(pages, 0x3FDE, 65001)
    &&& has_number(pages, 0x67F2, message.value)
    &&& has_number(pages, 0x67F3, row_version)
    &&& has_display(pages, external, 0x0E02, input, UnicodePstRecipientType::Bcc)
    &&& has_display(pages, external, 0x0E03, input, UnicodePstRecipientType::Cc)
    &&& has_display(pages, external, 0x0E04, input, UnicodePstRecipientType::To)
    &&& match input.html_body {
        None => has_none(pages, 0x1013),
        Some(html) => has_binary(pages, external, 0x1013, vstd::utf8::encode_utf8(html@)),
    }
    &&& forall|id: u16| !is_message_property(id) ==> #[trigger] has_none(pages, id)
}

/// The identifiers of the properties that a message can have.
pub open spec fn is_message_property(id: u16) -> bool {
    ||| id == 0x001A || id == 0x0037 || id == 0x0039 || id == 0x0042 || id == 0x0070
    ||| id == 0x0C1A || id == 0x0C1F || id == 0x0E02 || id == 0x0E03 || id == 0x0E04
    ||| id == 0x0E06 || id == 0x0E07 || id == 0x0E08 || id == 0x0E17 || id == 0x0E1B
    ||| id == 0x1000 || id == 0x1013 || id == 0x1035 || id == 0x3007 || id == 0x3008
    ||| id == 0x300B || id == 0x3FDE || id == 0x67F2 || id == 0x67F3
}

pub proof fn lemma_text_value(
    pages: Seq<Seq<u8>>,
    external: Seq<(NodeId, Seq<u8>)>,
    id: u16,
    value: Seq<char>,
)
    requires
        property_laws::is_value(
            property_laws::property_in_pages(pages, id),
            external,
            property::unicode_value(value),
        ),
    ensures
        has_text(pages, external, id, value),
{
    text::law_utf16_reads_back(value);
}

pub proof fn lemma_time_value(
    pages: Seq<Seq<u8>>,
    external: Seq<(NodeId, Seq<u8>)>,
    id: u16,
    time: i64,
)
    requires
        property_laws::is_value(
            property_laws::property_in_pages(pages, id),
            external,
            property::time_value(time),
        ),
    ensures
        has_time(pages, external, id, time),
{
    let data = bytes::le64(time as u64);
    assert(data.subrange(0, 8) =~= data);
    bytes::lemma_get64_le64(data, 0, time as u64);
}

pub proof fn lemma_number_value(
    pages: Seq<Seq<u8>>,
    external: Seq<(NodeId, Seq<u8>)>,
    id: u16,
    number: u32,
)
    requires
        property_laws::is_value(
            property_laws::property_in_pages(pages, id),
            external,
            property::integer32_value(number),
        ),
    ensures
        has_number(pages, id, number),
{
    let data = bytes::le32(number);
    assert(data.subrange(0, 4) =~= data);
    bytes::lemma_get32_le32(data, 0, number);
}

/// The value that a list of properties gives for an identifier is found in the pages.
proof fn lemma_value_at(
    input: UnicodePstMessage<'_>,
    has_attachments: bool,
    message: NodeId,
    row_version: u32,
    message_size: u32,
    pages: Seq<Seq<u8>>,
    external: Seq<(NodeId, Seq<u8>)>,
    at: int,
    id: u16,
    value: EncodedValue,
)
    requires
        message::message_context(input, has_attachments, message, row_version, message_size)
            == Ok::<_, PstError>((pages, external)),
        ({
            let properties = message::message_properties(
                input,
                has_attachments,
                message,
                row_version,
                message_size,
            );
            0 <= at < properties.len() && properties[at] == (id, value)
        }),
    ensures
        property_laws::is_value(property_laws::property_in_pages(pages, id), external, value),
{
    message_laws::law_message_properties_read_back(
        input,
        has_attachments,
        message,
        row_version,
        message_size,
        pages,
        external,
        at,
    );
}

pub proof fn lemma_no_property(
    properties: Seq<(u16, EncodedValue)>,
    id: u16,
    index: int,
)
    requires
        0 <= index,
        forall|i: int| 0 <= i < properties.len() ==> (#[trigger] properties[i]).0 != id,
    ensures
        property_laws::first_property(properties, id, index) is None,
    decreases properties.len() - index,
{
    if index < properties.len() {
        assert(properties[index].0 != id);
        lemma_no_property(properties, id, index + 1);
    }
}

proof fn lemma_absent(
    input: UnicodePstMessage<'_>,
    has_attachments: bool,
    message: NodeId,
    row_version: u32,
    message_size: u32,
    pages: Seq<Seq<u8>>,
    external: Seq<(NodeId, Seq<u8>)>,
    id: u16,
)
    requires
        message::message_context(input, has_attachments, message, row_version, message_size)
            == Ok::<_, PstError>((pages, external)),
        ({
            let properties = message::message_properties(
                input,
                has_attachments,
                message,
                row_version,
                message_size,
            );
            forall|i: int| 0 <= i < properties.len() ==> (#[trigger] properties[i]).0 != id
        }),
    ensures
        has_none(pages, id),
{
    let properties = message::message_properties(
        input,
        has_attachments,
        message,
        row_version,
        message_size,
    );
    message_laws::lemma_message_properties(
        input,
        has_attachments,
        message,
        row_version,
        message_size,
    );
    lemma_no_property(properties, id, 0);
    property_laws::law_property_context_reads_back(
        properties,
        message::FIRST_PROPERTY_INDEX,
        pages,
        external,
        id,
    );
}

/// The texts of a message.
proof fn lemma_texts(
    input: UnicodePstMessage<'_>,
    has_attachments: bool,
    message: NodeId,
    row_version: u32,
    message_size: u32,
    pages: Seq<Seq<u8>>,
    external: Seq<(NodeId, Seq<u8>)>,
    at: int,
    id: u16,
    value: Seq<char>,
)
    requires
        message::message_context(input, has_attachments, message, row_version, message_size)
            == Ok::<_, PstError>((pages, external)),
        ({
            let properties = message::message_properties(
                input,
                has_attachments,
                message,
                row_version,
                message_size,
            );
            0 <= at < properties.len() && properties[at] == (id, property::unicode_value(value))
        }),
    ensures
        has_text(pages, external, id, value),
{
    lemma_value_at(
        input,
        has_attachments,
        message,
        row_version,
        message_size,
        pages,
        external,
        at,
        id,
        property::unicode_value(value),
    );
    lemma_text_value(pages, external, id, value);
}

/// The properties that every message has, by their position.
proof fn lemma_fixed(
    input: UnicodePstMessage<'_>,
    has_attachments: bool,
    message: NodeId,
    row_version: u32,
    message_size: u32,
)
    ensures
        ({
            let properties = message::message_properties(
                input,
                has_attachments,
                message,
                row_version,
                message_size,
            );
            let fixed = message::fixed_properties(
                input,
                has_attachments,
                message,
                row_version,
                message_size,
            );
            fixed.len() == 20 && properties.len() >= 20 && forall|i: int|
                0 <= i < 20 ==> #[trigger] properties[i] == fixed[i]
        }),
{
}

proof fn lemma_stored_texts(
    input: UnicodePstMessage<'_>,
    has_attachments: bool,
    message: NodeId,
    row_version: u32,
    message_size: u32,
    pages: Seq<Seq<u8>>,
    external: Seq<(NodeId, Seq<u8>)>,
)
    requires
        message::message_context(input, has_attachments, message, row_version, message_size)
            == Ok::<_, PstError>((pages, external)),
    ensures
        has_text(pages, external, 0x001A, "IPM.Note"@),
        has_text(pages, external, 0x0037, input.subject@),
        has_text(pages, external, 0x0070, input.subject@),
        has_text(pages, external, 0x0042, input.sender_name@),
        has_text(pages, external, 0x0C1A, input.sender_name@),
        has_text(pages, external, 0x0C1F, input.sender_email@),
        has_text(pages, external, 0x1000, input.body@),
        has_text(pages, external, 0x1035, input.message_id@),
{
    let (h, m, v, s, p, e) = (
        has_attachments,
        message,
        row_version,
        message_size,
        pages,
        external,
    );
    lemma_fixed(input, h, m, v, s);
    lemma_texts(input, h, m, v, s, p, e, 0, 0x001A, "IPM.Note"@);
    lemma_texts(input, h, m, v, s, p, e, 1, 0x0037, input.subject@);
    lemma_texts(input, h, m, v, s, p, e, 4, 0x0070, input.subject@);
    lemma_texts(input, h, m, v, s, p, e, 3, 0x0042, input.sender_name@);
    lemma_texts(input, h, m, v, s, p, e, 5, 0x0C1A, input.sender_name@);
    lemma_texts(input, h, m, v, s, p, e, 6, 0x0C1F, input.sender_email@);
    lemma_texts(input, h, m, v, s, p, e, 12, 0x1000, input.body@);
    lemma_texts(input, h, m, v, s, p, e, 13, 0x1035, input.message_id@);
}

proof fn lemma_stored_times(
    input: UnicodePstMessage<'_>,
    has_attachments: bool,
    message: NodeId,
    row_version: u32,
    message_size: u32,
    pages: Seq<Seq<u8>>,
    external: Seq<(NodeId, Seq<u8>)>,
)
    requires
        message::message_context(input, has_attachments, message, row_version, message_size)
            == Ok::<_, PstError>((pages, external)),
    ensures
        has_time(pages, external, 0x0039, input.delivery_time),
        has_time(pages, external, 0x0E06, input.delivery_time),
        has_time(pages, external, 0x3007, input.delivery_time),
        has_time(pages, external, 0x3008, input.delivery_time),
{
    let (h, m, v, s, p, e) = (
        has_attachments,
        message,
        row_version,
        message_size,
        pages,
        external,
    );
    let time = property::time_value(input.delivery_time);
    lemma_fixed(input, h, m, v, s);
    lemma_value_at(input, h, m, v, s, p, e, 2, 0x0039, time);
    lemma_value_at(input, h, m, v, s, p, e, 7, 0x0E06, time);
    lemma_value_at(input, h, m, v, s, p, e, 14, 0x3007, time);
    lemma_value_at(input, h, m, v, s, p, e, 15, 0x3008, time);
    lemma_time_value(p, e, 0x0039, input.delivery_time);
    lemma_time_value(p, e, 0x0E06, input.delivery_time);
    lemma_time_value(p, e, 0x3007, input.delivery_time);
    lemma_time_value(p, e, 0x3008, input.delivery_time);
}

proof fn lemma_stored_numbers(
    input: UnicodePstMessage<'_>,
    has_attachments: bool,
    message: NodeId,
    row_version: u32,
    message_size: u32,
    pages: Seq<Seq<u8>>,
    external: Seq<(NodeId, Seq<u8>)>,
)
    requires
        message::message_context(input, has_attachments, message, row_version, message_size)
            == Ok::<_, PstError>((pages, external)),
    ensures
        has_number(
            pages,
            0x0E07,
            if has_attachments {
                0x11
            } else {
                0x01
            },
        ),
        has_number(pages, 0x0E08, message_size),
        has_number(pages, 0x0E17, 0),
        has_flag(pages, 0x0E1B, has_attachments),
        has_binary(pages, external, 0x300B, vstd::utf8::encode_utf8(input.message_id@)),
        has_number(pages, 0x3FDE, 65001),
        has_number(pages, 0x67F2, message.value),
        has_number(pages, 0x67F3, row_version),
{
    let (h, m, v, s, p, e) = (
        has_attachments,
        message,
        row_version,
        message_size,
        pages,
        external,
    );
    let flags = message::message_flags(has_attachments);
    lemma_fixed(input, h, m, v, s);
    lemma_value_at(input, h, m, v, s, p, e, 8, 0x0E07, property::integer32_value(flags));
    lemma_value_at(input, h, m, v, s, p, e, 9, 0x0E08, property::integer32_value(message_size));
    lemma_value_at(input, h, m, v, s, p, e, 10, 0x0E17, property::integer32_value(0));
    lemma_value_at(input, h, m, v, s, p, e, 11, 0x0E1B, property::boolean_value(has_attachments));
    lemma_value_at(
        input,
        h,
        m,
        v,
        s,
        p,
        e,
        16,
        0x300B,
        property::binary_value(text::utf8_text(input.message_id@)),
    );
    lemma_value_at(input, h, m, v, s, p, e, 17, 0x3FDE, property::integer32_value(65001));
    lemma_value_at(input, h, m, v, s, p, e, 18, 0x67F2, property::integer32_value(message.value));
    lemma_value_at(input, h, m, v, s, p, e, 19, 0x67F3, property::integer32_value(row_version));
    lemma_number_value(p, e, 0x0E07, flags);
    lemma_number_value(p, e, 0x0E08, message_size);
    lemma_number_value(p, e, 0x0E17, 0);
    lemma_number_value(p, e, 0x3FDE, 65001);
    lemma_number_value(p, e, 0x67F2, message.value);
    lemma_number_value(p, e, 0x67F3, row_version);
}

/// The names of the recipients of one type, at their position or nowhere.
proof fn lemma_stored_display(
    input: UnicodePstMessage<'_>,
    has_attachments: bool,
    message: NodeId,
    row_version: u32,
    message_size: u32,
    pages: Seq<Seq<u8>>,
    external: Seq<(NodeId, Seq<u8>)>,
    id: u16,
    recipient_type: UnicodePstRecipientType,
)
    requires
        message::message_context(input, has_attachments, message, row_version, message_size)
            == Ok::<_, PstError>((pages, external)),
        id == (match recipient_type {
            UnicodePstRecipientType::Bcc => 0x0E02u16,
            UnicodePstRecipientType::Cc => 0x0E03u16,
            UnicodePstRecipientType::To => 0x0E04u16,
        }),
    ensures
        has_display(pages, external, id, input, recipient_type),
{
    let (h, m, v, s, p, e) = (
        has_attachments,
        message,
        row_version,
        message_size,
        pages,
        external,
    );
    let properties = message::message_properties(input, h, m, v, s);
    let display = recipient::spec_recipient_display(input.recipients@, recipient_type);
    let fixed = message::fixed_properties(input, h, m, v, s);
    let bcc = message::with_display(fixed, input, 0x0E02, UnicodePstRecipientType::Bcc);
    let cc = message::with_display(bcc, input, 0x0E03, UnicodePstRecipientType::Cc);
    let to = message::with_display(cc, input, 0x0E04, UnicodePstRecipientType::To);
    if display.len() == 0 {
        lemma_absent(input, h, m, v, s, p, e, id);
    } else {
        let at = match recipient_type {
            UnicodePstRecipientType::Bcc => bcc.len() - 1,
            UnicodePstRecipientType::Cc => cc.len() - 1,
            UnicodePstRecipientType::To => to.len() - 1,
        };
        assert(properties[at] == (id, property::unicode_value(display)));
        lemma_texts(input, h, m, v, s, p, e, at, id, display);
    }
}

proof fn lemma_stored_html(
    input: UnicodePstMessage<'_>,
    has_attachments: bool,
    message: NodeId,
    row_version: u32,
    message_size: u32,
    pages: Seq<Seq<u8>>,
    external: Seq<(NodeId, Seq<u8>)>,
)
    requires
        message::message_context(input, has_attachments, message, row_version, message_size)
            == Ok::<_, PstError>((pages, external)),
    ensures
        match input.html_body {
            None => has_none(pages, 0x1013),
            Some(html) => has_binary(pages, external, 0x1013, vstd::utf8::encode_utf8(html@)),
        },
{
    let (h, m, v, s, p, e) = (
        has_attachments,
        message,
        row_version,
        message_size,
        pages,
        external,
    );
    let properties = message::message_properties(input, h, m, v, s);
    match input.html_body {
        None => {
            lemma_absent(input, h, m, v, s, p, e, 0x1013);
        },
        Some(html) => {
            lemma_value_at(
                input,
                h,
                m,
                v,
                s,
                p,
                e,
                properties.len() - 1,
                0x1013,
                property::binary_value(text::utf8_text(html@)),
            );
        },
    }
}

proof fn lemma_fixed_ids(
    input: UnicodePstMessage<'_>,
    has_attachments: bool,
    message: NodeId,
    row_version: u32,
    message_size: u32,
    at: int,
)
    requires
        0 <= at < 20,
    ensures
        is_message_property(
            message::fixed_properties(
                input,
                has_attachments,
                message,
                row_version,
                message_size,
            )[at].0,
        ),
{
}

proof fn lemma_property_ids(
    input: UnicodePstMessage<'_>,
    has_attachments: bool,
    message: NodeId,
    row_version: u32,
    message_size: u32,
    at: int,
)
    requires
        0 <= at < message::message_properties(
            input,
            has_attachments,
            message,
            row_version,
            message_size,
        ).len(),
    ensures
        is_message_property(
            message::message_properties(
                input,
                has_attachments,
                message,
                row_version,
                message_size,
            )[at].0,
        ),
{
    lemma_fixed(input, has_attachments, message, row_version, message_size);
    if at < 20 {
        lemma_fixed_ids(input, has_attachments, message, row_version, message_size, at);
    }
}

proof fn lemma_stored_others(
    input: UnicodePstMessage<'_>,
    has_attachments: bool,
    message: NodeId,
    row_version: u32,
    message_size: u32,
    pages: Seq<Seq<u8>>,
    external: Seq<(NodeId, Seq<u8>)>,
    id: u16,
)
    requires
        message::message_context(input, has_attachments, message, row_version, message_size)
            == Ok::<_, PstError>((pages, external)),
        !is_message_property(id),
    ensures
        has_none(pages, id),
{
    let properties = message::message_properties(
        input,
        has_attachments,
        message,
        row_version,
        message_size,
    );
    assert forall|i: int| 0 <= i < properties.len() implies (#[trigger] properties[i]).0 != id by {
        lemma_property_ids(input, has_attachments, message, row_version, message_size, i);
    }
    lemma_absent(
        input,
        has_attachments,
        message,
        row_version,
        message_size,
        pages,
        external,
        id,
    );
}

/// A stored message is what was given: a reader of its property context finds each part of the input under
/// its identifier.
pub proof fn law_message_is_stored(
    input: UnicodePstMessage<'_>,
    has_attachments: bool,
    message: NodeId,
    row_version: u32,
    message_size: u32,
    pages: Seq<Seq<u8>>,
    external: Seq<(NodeId, Seq<u8>)>,
)
    requires
        message::message_context(input, has_attachments, message, row_version, message_size)
            == Ok::<_, PstError>((pages, external)),
    ensures
        is_stored_message(
            pages,
            external,
            input,
            has_attachments,
            message,
            row_version,
            message_size,
        ),
{
    let (h, m, v, s, p, e) = (
        has_attachments,
        message,
        row_version,
        message_size,
        pages,
        external,
    );
    lemma_stored_texts(input, h, m, v, s, p, e);
    lemma_stored_times(input, h, m, v, s, p, e);
    lemma_stored_numbers(input, h, m, v, s, p, e);
    lemma_stored_display(input, h, m, v, s, p, e, 0x0E02, UnicodePstRecipientType::Bcc);
    lemma_stored_display(input, h, m, v, s, p, e, 0x0E03, UnicodePstRecipientType::Cc);
    lemma_stored_display(input, h, m, v, s, p, e, 0x0E04, UnicodePstRecipientType::To);
    lemma_stored_html(input, h, m, v, s, p, e);
    assert forall|id: u16| !is_message_property(id) implies #[trigger] has_none(pages, id) by {
        lemma_stored_others(input, h, m, v, s, p, e, id);
    }
}

} // verus!
