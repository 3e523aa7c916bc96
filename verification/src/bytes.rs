//! Byte sequences: little-endian integers, concatenation and padding.

use vstd::prelude::*;

verus! {

/// The views of `items`.
pub open spec fn views<T: View>(items: Seq<T>) -> Seq<T::V> {
    Seq::new(items.len(), |i: int| items[i]@)
}

/// The two little-endian bytes of `value`.
pub open spec fn le16(value: u16) -> Seq<u8> {
    seq![(value % 256) as u8, (value / 256) as u8]
}

/// The four little-endian bytes of `value`.
pub open spec fn le32(value: u32) -> Seq<u8> {
    seq![
        (value % 256) as u8,
        (value / 256 % 256) as u8,
        (value / 65536 % 256) as u8,
        (value / 16777216) as u8,
    ]
}

/// The eight little-endian bytes of `value`.
pub open spec fn le64(value: u64) -> Seq<u8> {
    le32((value % 0x1_0000_0000) as u32) + le32((value / 0x1_0000_0000) as u32)
}

/// The integer whose two little-endian bytes stand in `data` at `at`.
pub open spec fn get16(data: Seq<u8>, at: int) -> int {
    data[at] + 256 * data[at + 1]
}

/// The integer whose four little-endian bytes stand in `data` at `at`.
pub open spec fn get32(data: Seq<u8>, at: int) -> int {
    data[at] + 256 * data[at + 1] + 65536 * data[at + 2] + 16777216 * data[at + 3]
}

/// The integer whose eight little-endian bytes stand in `data` at `at`.
pub open spec fn get64(data: Seq<u8>, at: int) -> int {
    get32(data, at) + 0x1_0000_0000 * get32(data, at + 4)
}

/// `count` zero bytes.
pub open spec fn zeros(count: nat) -> Seq<u8> {
    Seq::new(count, |i: int| 0u8)
}

/// `data` followed by zero bytes up to `size`, or `data` itself where it is at least that long.
pub open spec fn zero_padded(data: Seq<u8>, size: nat) -> Seq<u8> {
    data + zeros((if data.len() < size { size - data.len() } else { 0 }) as nat)
}

/// The first `count` of `parts`, one after the other.
pub open spec fn concat_prefix(parts: Seq<Seq<u8>>, count: nat) -> Seq<u8>
    decreases count,
{
    if count == 0 {
        Seq::empty()
    } else {
        concat_prefix(parts, (count - 1) as nat) + parts[count - 1]
    }
}

/// All of `parts`, one after the other.
pub open spec fn concat(parts: Seq<Seq<u8>>) -> Seq<u8> {
    concat_prefix(parts, parts.len())
}

/// The number of bytes in the first `count` of `parts`.
pub open spec fn length_prefix(parts: Seq<Seq<u8>>, count: nat) -> nat
    decreases count,
{
    if count == 0 {
        0
    } else {
        length_prefix(parts, (count - 1) as nat) + parts[count - 1].len()
    }
}

/// The number of bytes in `parts`.
pub open spec fn total_length(parts: Seq<Seq<u8>>) -> nat {
    length_prefix(parts, parts.len())
}

/// `data` with the bytes from `at` on replaced by `part`.
pub open spec fn spliced(data: Seq<u8>, at: int, part: Seq<u8>) -> Seq<u8> {
    Seq::new(
        data.len(),
        |i: int| if at <= i < at + part.len() { part[i - at] } else { data[i] },
    )
}

pub proof fn lemma_le_lengths(a: u16, b: u32, c: u64)
    ensures
        le16(a).len() == 2,
        le32(b).len() == 4,
        le64(c).len() == 8,
{
}

/// A value that was written can be read back: `get16` undoes `le16`.
pub proof fn lemma_get16_le16(data: Seq<u8>, at: int, value: u16)
    requires
        0 <= at,
        at + 2 <= data.len(),
        data.subrange(at, at + 2) == le16(value),
    ensures
        get16(data, at) == value,
{
    let part = data.subrange(at, at + 2);
    assert(part[0] == data[at]);
    assert(part[1] == data[at + 1]);
}

/// A value that was written can be read back: `get32` undoes `le32`.
pub proof fn lemma_get32_le32(data: Seq<u8>, at: int, value: u32)
    requires
        0 <= at,
        at + 4 <= data.len(),
        data.subrange(at, at + 4) == le32(value),
    ensures
        get32(data, at) == value,
{
    let part = data.subrange(at, at + 4);
    assert(part[0] == data[at]);
    assert(part[1] == data[at + 1]);
    assert(part[2] == data[at + 2]);
    assert(part[3] == data[at + 3]);
}

/// A value that was written can be read back: `get64` undoes `le64`.
pub proof fn lemma_get64_le64(data: Seq<u8>, at: int, value: u64)
    requires
        0 <= at,
        at + 8 <= data.len(),
        data.subrange(at, at + 8) == le64(value),
    ensures
        get64(data, at) == value,
{
    let part = data.subrange(at, at + 8);
    assert(data.subrange(at, at + 4) =~= part.subrange(0, 4));
    assert(part.subrange(0, 4) =~= le32((value % 0x1_0000_0000) as u32));
    assert(data.subrange(at + 4, at + 8) =~= part.subrange(4, 8));
    assert(part.subrange(4, 8) =~= le32((value / 0x1_0000_0000) as u32));
    lemma_get32_le32(data, at, (value % 0x1_0000_0000) as u32);
    lemma_get32_le32(data, at + 4, (value / 0x1_0000_0000) as u32);
}

pub proof fn lemma_concat_length(parts: Seq<Seq<u8>>, count: nat)
    requires
        count <= parts.len(),
    ensures
        concat_prefix(parts, count).len() == length_prefix(parts, count),
    decreases count,
{
    if count > 0 {
        lemma_concat_length(parts, (count - 1) as nat);
    }
}

/// The prefix functions only look at the parts they count.
pub proof fn lemma_prefix_agrees(left: Seq<Seq<u8>>, right: Seq<Seq<u8>>, count: nat)
    requires
        count <= left.len(),
        count <= right.len(),
        forall|i: int| 0 <= i < count ==> left[i] == right[i],
    ensures
        concat_prefix(left, count) == concat_prefix(right, count),
        length_prefix(left, count) == length_prefix(right, count),
    decreases count,
{
    if count > 0 {
        lemma_prefix_agrees(left, right, (count - 1) as nat);
    }
}

pub proof fn lemma_length_prefix_monotone(parts: Seq<Seq<u8>>, low: nat, high: nat)
    requires
        low <= high <= parts.len(),
    ensures
        length_prefix(parts, low) <= length_prefix(parts, high),
    decreases high,
{
    if low < high {
        lemma_length_prefix_monotone(parts, low, (high - 1) as nat);
    }
}

/// Part `index` stands in the concatenation right after the parts before it.
pub proof fn lemma_concat_part(parts: Seq<Seq<u8>>, index: int, count: nat)
    requires
        0 <= index < count <= parts.len(),
    ensures
        length_prefix(parts, index as nat) + parts[index].len() <= concat_prefix(parts, count).len(),
        concat_prefix(parts, count).subrange(
            length_prefix(parts, index as nat) as int,
            (length_prefix(parts, index as nat) + parts[index].len()) as int,
        ) == parts[index],
    decreases count,
{
    lemma_concat_length(parts, count);
    lemma_concat_length(parts, (count - 1) as nat);
    lemma_concat_length(parts, index as nat);
    let start = length_prefix(parts, index as nat) as int;
    let end = (start + parts[index].len()) as int;
    let whole = concat_prefix(parts, count);
    if index == count - 1 {
        assert(whole.subrange(start, end) =~= parts[index]);
    } else {
        lemma_concat_part(parts, index, (count - 1) as nat);
        let before = concat_prefix(parts, (count - 1) as nat);
        assert(whole.subrange(start, end) =~= before.subrange(start, end));
    }
}

/// `byteorder::LittleEndian::write_u16` on a fresh array: the two bytes of `value`, least
/// significant first.
#[verifier::external_body]
fn little_endian_u16(value: u16) -> (bytes: [u8; 2])
    ensures
        bytes@ == le16(value),
{
    let mut bytes = [0u8; 2];
    <byteorder::LittleEndian as byteorder::ByteOrder>::write_u16(&mut bytes, value);
    bytes
}

/// `byteorder::LittleEndian::write_u32` on a fresh array: the four bytes of `value`, least
/// significant first.
#[verifier::external_body]
fn little_endian_u32(value: u32) -> (bytes: [u8; 4])
    ensures
        bytes@ == le32(value),
{
    let mut bytes = [0u8; 4];
    <byteorder::LittleEndian as byteorder::ByteOrder>::write_u32(&mut bytes, value);
    bytes
}

/// `byteorder::LittleEndian::write_u64` on a fresh array: the eight bytes of `value`, least
/// significant first.
#[verifier::external_body]
fn little_endian_u64(value: u64) -> (bytes: [u8; 8])
    ensures
        bytes@ == le64(value),
{
    let mut bytes = [0u8; 8];
    <byteorder::LittleEndian as byteorder::ByteOrder>::write_u64(&mut bytes, value);
    bytes
}

/// Appends the bytes of `part` to `data`.
pub fn push_bytes(data: &mut Vec<u8>, part: &[u8])
    ensures
        final(data)@ == old(data)@ + part@,
{
    data.extend_from_slice(part);
    assert(data@ =~= old(data)@ + part@);
}

/// A copy of `part`.
pub fn copy(part: &[u8]) -> (data: Vec<u8>)
    ensures
        data@ == part@,
{
    let mut data: Vec<u8> = Vec::new();
    push_bytes(&mut data, part);
    assert(data@ =~= part@);
    data
}

/// Appends the two little-endian bytes of `value`.
pub fn push_u16(data: &mut Vec<u8>, value: u16)
    ensures
        final(data)@ == old(data)@ + le16(value),
{
    let bytes = little_endian_u16(value);
    push_bytes(data, bytes.as_slice());
}

/// Appends the four little-endian bytes of `value`.
pub fn push_u32(data: &mut Vec<u8>, value: u32)
    ensures
        final(data)@ == old(data)@ + le32(value),
{
    let bytes = little_endian_u32(value);
    push_bytes(data, bytes.as_slice());
}

/// Appends the eight little-endian bytes of `value`.
pub fn push_u64(data: &mut Vec<u8>, value: u64)
    ensures
        final(data)@ == old(data)@ + le64(value),
{
    let bytes = little_endian_u64(value);
    push_bytes(data, bytes.as_slice());
}

/// Appends `count` zero bytes.
pub fn push_zeros(data: &mut Vec<u8>, count: usize)
    ensures
        final(data)@ == old(data)@ + zeros(count as nat),
{
    let mut done: usize = 0;
    while done < count
        invariant
            done <= count,
            data@ == old(data)@ + zeros(done as nat),
        decreases count - done,
    {
        data.push(0);
        done += 1;
        assert(data@ =~= old(data)@ + zeros(done as nat));
    }
    assert(data@ =~= old(data)@ + zeros(count as nat));
}

/// Replaces the bytes of `data` from `at` on by `part`.
pub fn write_at(data: &mut Vec<u8>, at: usize, part: &[u8])
    requires
        at + part@.len() <= old(data)@.len(),
    ensures
        final(data)@ == spliced(old(data)@, at as int, part@),
{
    let total: usize = data.len();
    let mut i: usize = 0;
    while i < part.len()
        invariant
            i <= part@.len(),
            total == old(data)@.len(),
            at + part@.len() <= old(data)@.len(),
            data@.len() == old(data)@.len(),
            forall|j: int| 0 <= j < data@.len() ==> data@[j] == (if at <= j < at + i {
                part@[j - at]
            } else {
                old(data)@[j]
            }),
        decreases part@.len() - i,
    {
        data.set(at + i, part[i]);
        i += 1;
    }
    assert(data@ =~= spliced(old(data)@, at as int, part@));
}

/// Replaces four bytes of `data` by those of `value`.
pub fn write_u32_at(data: &mut Vec<u8>, at: usize, value: u32)
    requires
        at + 4 <= old(data)@.len(),
    ensures
        final(data)@ == spliced(old(data)@, at as int, le32(value)),
{
    let bytes = little_endian_u32(value);
    write_at(data, at, bytes.as_slice());
}

/// The number of bytes in `parts` from part `from` on, or `usize::MAX` where that is smaller.
pub fn saturating_total(parts: &Vec<Vec<u8>>, from: usize) -> (total: usize)
    requires
        from <= parts@.len(),
    ensures
        total == (if length_prefix(views(parts@), parts@.len()) - length_prefix(
            views(parts@),
            from as nat,
        ) <= usize::MAX {
            length_prefix(views(parts@), parts@.len()) - length_prefix(
                views(parts@),
                from as nat,
            )
        } else {
            usize::MAX as int
        }),
{
    let mut total: usize = 0;
    let mut i: usize = from;
    while i < parts.len()
        invariant
            from <= i <= parts@.len(),
            total == (if length_prefix(views(parts@), i as nat) - length_prefix(
                views(parts@),
                from as nat,
            ) <= usize::MAX {
                length_prefix(views(parts@), i as nat) - length_prefix(
                    views(parts@),
                    from as nat,
                )
            } else {
                usize::MAX as int
            }),
        decreases parts@.len() - i,
    {
        proof {
            lemma_length_prefix_monotone(views(parts@), from as nat, i as nat);
            assert(views(parts@)[i as int] == parts@[i as int]@);
        }
        total = total.saturating_add(parts[i].len());
        i += 1;
    }
    total
}

} // verus!
