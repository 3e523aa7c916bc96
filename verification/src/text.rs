//! Text in the encodings of the file.

use vstd::prelude::*;

use crate::bytes;

verus! {

/// The UTF-16 code units of a character, as little-endian bytes.
pub open spec fn utf16_char(c: char) -> Seq<u8> {
    let code = c as u32;
    if code < 0x10000 {
        bytes::le16(code as u16)
    } else {
        bytes::le16((0xD800 + (code - 0x10000) / 0x400) as u16) + bytes::le16(
            (0xDC00 + (code - 0x10000) % 0x400) as u16,
        )
    }
}

/// The UTF-16 code units of the first `count` of `text`, as little-endian bytes.
pub open spec fn utf16_units(text: Seq<char>, count: nat) -> Seq<u8>
    decreases count,
{
    if count == 0 {
        Seq::empty()
    } else {
        utf16_units(text, (count - 1) as nat) + utf16_char(text[count - 1])
    }
}

/// `text` in UTF-16 with a terminator, as little-endian bytes.
pub open spec fn utf16_text(text: Seq<char>) -> Seq<u8> {
    utf16_units(text, text.len()) + seq![0u8, 0u8]
}

/// `text` in UTF-8.
pub open spec fn utf8_text(text: Seq<char>) -> Seq<u8> {
    vstd::utf8::encode_utf8(text)
}

/// The code of a character, with `A` to `Z` folded onto `a` to `z`.
pub open spec fn folded(c: char) -> int {
    if 65 <= c as u32 <= 90 {
        c as u32 + 32
    } else {
        c as u32 as int
    }
}

/// Whether two texts are equal but for the case of ASCII letters.
pub open spec fn equal_ignoring_case(first: Seq<char>, second: Seq<char>) -> bool {
    first.len() == second.len() && forall|i: int|
        0 <= i < first.len() ==> folded(#[trigger] first[i]) == folded(second[i])
}

/// The codes of the characters of a text, with `A` to `Z` folded onto `a` to `z`.
fn folded_codes(text: &str) -> (codes: Vec<u32>)
    ensures
        codes@.len() == text@.len(),
        forall|i: int| 0 <= i < codes@.len() ==> #[trigger] codes@[i] == folded(text@[i]),
{
    let mut codes: Vec<u32> = Vec::new();
    for c in it: text.chars()
        invariant
            it.seq() == text@,
            codes@.len() == it.index(),
            forall|i: int| 0 <= i < codes@.len() ==> #[trigger] codes@[i] == folded(text@[i]),
    {
        let code: u32 = c as u32;
        if 65 <= code && code <= 90 {
            codes.push(code + 32);
        } else {
            codes.push(code);
        }
    }
    codes
}

/// Whether two texts are equal but for the case of ASCII letters.
pub fn eq_ignore_ascii_case(first: &str, second: &str) -> (equal: bool)
    ensures
        equal == equal_ignoring_case(first@, second@),
{
    let first_codes = folded_codes(first);
    let second_codes = folded_codes(second);
    if first_codes.len() != second_codes.len() {
        return false;
    }
    let mut i: usize = 0;
    while i < first_codes.len()
        invariant
            i <= first_codes@.len(),
            first_codes@.len() == second_codes@.len(),
            first_codes@.len() == first@.len(),
            second_codes@.len() == second@.len(),
            forall|j: int|
                0 <= j < first_codes@.len() ==> #[trigger] first_codes@[j] == folded(first@[j]),
            forall|j: int|
                0 <= j < second_codes@.len() ==> #[trigger] second_codes@[j] == folded(second@[j]),
            forall|j: int| 0 <= j < i ==> folded(#[trigger] first@[j]) == folded(second@[j]),
        decreases first_codes@.len() - i,
    {
        if first_codes[i] != second_codes[i] {
            assert(folded(first@[i as int]) != folded(second@[i as int]));
            return false;
        }
        assert(folded(first@[i as int]) == folded(second@[i as int]));
        i += 1;
    }
    true
}

/// Texts that are equal but for the case of ASCII letters are so in either order, and every text is
/// equal to itself.
pub proof fn law_equal_ignoring_case(first: Seq<char>, second: Seq<char>)
    ensures
        equal_ignoring_case(first, first),
        equal_ignoring_case(first, second) == equal_ignoring_case(second, first),
{
}

/// `value` in UTF-16 with a terminator, as little-endian bytes.
pub fn utf16_bytes(value: &str) -> (data: Vec<u8>)
    ensures
        data@ == utf16_text(value@),
{
    let mut data: Vec<u8> = Vec::new();
    for c in it: value.chars()
        invariant
            it.seq() == value@,
            data@ == utf16_units(value@, it.index() as nat),
    {
        let code: u32 = c as u32;
        if code < 0x10000 {
            bytes::push_u16(&mut data, code as u16);
        } else {
            bytes::push_u16(&mut data, (0xD800 + (code - 0x10000) / 0x400) as u16);
            bytes::push_u16(&mut data, (0xDC00 + (code - 0x10000) % 0x400) as u16);
        }
        assert(data@ =~= utf16_units(value@, (it.index() + 1) as nat));
    }
    data.push(0);
    data.push(0);
    assert(data@ =~= utf16_text(value@));
    data
}

/// `value` in UTF-8.
pub fn utf8_bytes(value: &str) -> (data: Vec<u8>)
    ensures
        data@ == utf8_text(value@),
{
    bytes::copy(value.as_bytes())
}

/// The characters of little-endian UTF-16 code units. Two units of a surrogate pair are one character.
pub open spec fn utf16_chars(data: Seq<u8>) -> Seq<char>
    decreases data.len(),
{
    if data.len() < 2 {
        Seq::empty()
    } else {
        let unit = bytes::get16(data, 0);
        if 0xD800 <= unit < 0xDC00 && data.len() >= 4 {
            let low = bytes::get16(data, 2);
            seq![(0x10000 + (unit - 0xD800) * 0x400 + (low - 0xDC00)) as char] + utf16_chars(
                data.skip(4),
            )
        } else {
            seq![unit as char] + utf16_chars(data.skip(2))
        }
    }
}

/// The text in little-endian UTF-16 code units with a terminator.
pub open spec fn read_utf16(data: Seq<u8>) -> Option<Seq<char>> {
    if data.len() >= 2 && data[data.len() - 2] == 0 && data[data.len() - 1] == 0 {
        Some(utf16_chars(data.take(data.len() - 2)))
    } else {
        None
    }
}

proof fn lemma_units_first(text: Seq<char>, count: nat)
    requires
        0 < count <= text.len(),
    ensures
        utf16_units(text, count) == utf16_char(text[0]) + utf16_units(
            text.skip(1),
            (count - 1) as nat,
        ),
    decreases count,
{
    if count > 1 {
        lemma_units_first(text, (count - 1) as nat);
        assert(text.skip(1)[count - 2] == text[count - 1]);
        let rest = utf16_units(text.skip(1), (count - 2) as nat);
        assert(utf16_char(text[0]) + rest + utf16_char(text[count - 1]) =~= utf16_char(text[0]) + (
        rest + utf16_char(text[count - 1])));
    } else {
        assert(utf16_units(text, 0) =~= Seq::empty());
        assert(utf16_units(text.skip(1), 0) =~= Seq::empty());
        assert(Seq::<u8>::empty() + utf16_char(text[0]) =~= utf16_char(text[0]) + Seq::empty());
    }
}

proof fn lemma_char(c: char, rest: Seq<u8>)
    ensures
        utf16_chars(utf16_char(c) + rest) == seq![c] + utf16_chars(rest),
{
    let data = utf16_char(c) + rest;
    let code = c as u32;
    if code < 0x10000 {
        assert(data.subrange(0, 2) =~= bytes::le16(code as u16));
        bytes::lemma_get16_le16(data, 0, code as u16);
        assert(data.skip(2) =~= rest);
    } else {
        let high = (0xD800 + (code - 0x10000) / 0x400) as u16;
        let low = (0xDC00 + (code - 0x10000) % 0x400) as u16;
        assert(data.subrange(0, 2) =~= bytes::le16(high));
        assert(data.subrange(2, 4) =~= bytes::le16(low));
        bytes::lemma_get16_le16(data, 0, high);
        bytes::lemma_get16_le16(data, 2, low);
        assert(data.skip(4) =~= rest);
    }
}

proof fn lemma_units(text: Seq<char>)
    ensures
        utf16_chars(utf16_units(text, text.len())) == text,
    decreases text.len(),
{
    if text.len() > 0 {
        let rest = text.skip(1);
        lemma_units_first(text, text.len());
        lemma_units(rest);
        lemma_char(text[0], utf16_units(rest, rest.len()));
        assert(seq![text[0]] + rest =~= text);
    } else {
        assert(utf16_chars(Seq::empty()) =~= text);
    }
}

/// Text in UTF-16 is read back, whatever characters it has.
pub proof fn law_utf16_reads_back(text: Seq<char>)
    ensures
        read_utf16(utf16_text(text)) == Some(text),
{
    let data = utf16_text(text);
    lemma_units(text);
    assert(data.take(data.len() - 2) =~= utf16_units(text, text.len()));
}

} // verus!
