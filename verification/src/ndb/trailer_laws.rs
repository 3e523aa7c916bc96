//! What stands at the end of a block and of a page: what it is, where it belongs, and whether it is whole.

use vstd::prelude::*;

use crate::bytes;
use crate::ndb::block;
use crate::ndb::block::{PlannedBlock, MAX_BLOCK_DATA_SIZE};
use crate::ndb::btree::PageType;
use crate::ndb::encoding;
use crate::ndb::encoding_laws;

verus! {

/// The low 32 bits of a place and an identifier, one against the other, and then their halves.
pub open spec fn folded(offset: u64, id: u64) -> u64 {
    ((offset ^ id) & 0xFFFF) ^ (((offset ^ id) >> 16) & 0xFFFF)
}

/// A signature is the low half of the place and the identifier against the next half.
pub proof fn law_signature(offset: u64, id: u64)
    ensures
        encoding::signature(offset, id) == folded(offset, id),
        encoding::signature(offset, id) == encoding::signature(id, offset),
        encoding::signature(offset, offset) == 0,
{
    assert(({
        let value = (offset as u32) ^ (id as u32);
        ((value >> 16) ^ value) as u16
    }) == ((offset ^ id) & 0xFFFF) ^ (((offset ^ id) >> 16) & 0xFFFF)) by (bit_vector);
    assert((offset as u32) ^ (id as u32) == (id as u32) ^ (offset as u32)) by (bit_vector);
    assert(({
        let value = (offset as u32) ^ (offset as u32);
        ((value >> 16) ^ value) as u16
    }) == 0) by (bit_vector);
}

/// Eight steps of the checksum drop a low byte of zeros.
proof fn lemma_zero_byte(value: u32)
    requires
        value & 0xFF == 0,
    ensures
        encoding::crc_steps(value, 8) == value >> 8,
{
    reveal_with_fuel(encoding::crc_steps, 9);
    assert(value & 1 == 0 && (value >> 1) & 1 == 0 && ((value >> 1) >> 1) & 1 == 0 && (((value
        >> 1) >> 1) >> 1) & 1 == 0) by (bit_vector)
        requires
            value & 0xFF == 0,
    ;
    let four = (((value >> 1) >> 1) >> 1) >> 1;
    assert(four & 0x0F == 0 && four == value >> 4) by (bit_vector)
        requires
            value & 0xFF == 0,
            four == (((value >> 1) >> 1) >> 1) >> 1,
    ;
    assert(four & 1 == 0 && (four >> 1) & 1 == 0 && ((four >> 1) >> 1) & 1 == 0 && (((four >> 1)
        >> 1) >> 1) & 1 == 0) by (bit_vector)
        requires
            four & 0x0F == 0,
    ;
    assert((((four >> 1) >> 1) >> 1) >> 1 == value >> 8) by (bit_vector)
        requires
            four == value >> 4,
    ;
}

/// A byte that is the low byte of a checksum takes it away.
proof fn lemma_own_byte(value: u32, byte: u8)
    requires
        byte == value % 256,
    ensures
        encoding::crc_steps(value ^ (byte as u32), 8) == value / 256,
{
    assert((value ^ (byte as u32)) & 0xFF == 0 && (value ^ (byte as u32)) >> 8 == value / 256)
        by (bit_vector)
        requires
            byte == value % 256,
    ;
    lemma_zero_byte(value ^ (byte as u32));
}

proof fn lemma_prefix(data: Seq<u8>, more: Seq<u8>, count: nat)
    requires
        count <= data.len(),
    ensures
        encoding::crc_prefix(data + more, count) == encoding::crc_prefix(data, count),
    decreases count,
{
    if count > 0 {
        lemma_prefix(data, more, (count - 1) as nat);
        assert((data + more)[count - 1] == data[count - 1]);
    }
}

/// The checksum of nothing is 0, and the checksum of data with its own checksum behind it is 0, so that a reader
/// can tell whether data and checksum belong together.
pub proof fn law_checksum_cancels(data: Seq<u8>)
    ensures
        encoding::crc(Seq::empty()) == 0,
        encoding::crc(data + bytes::le32(encoding::crc(data))) == 0,
{
    let checksum = encoding::crc(data);
    let own = bytes::le32(checksum);
    let all = data + own;
    let length = data.len();
    lemma_prefix(data, own, length);
    lemma_own_byte(checksum, own[0]);
    assert(all[length as int] == own[0]);
    assert(encoding::crc_prefix(all, length + 1) == checksum / 256);
    assert(own[1] == (checksum / 256) % 256);
    lemma_own_byte(checksum / 256, own[1]);
    assert(all[length + 1int] == own[1]);
    assert(encoding::crc_prefix(all, length + 2) == checksum / 256 / 256);
    assert(own[2] == (checksum / 256 / 256) % 256);
    lemma_own_byte(checksum / 256 / 256, own[2]);
    assert(all[length + 2int] == own[2]);
    assert(encoding::crc_prefix(all, length + 3) == checksum / 256 / 256 / 256);
    assert(own[3] == (checksum / 256 / 256 / 256) % 256);
    lemma_own_byte(checksum / 256 / 256 / 256, own[3]);
    assert(all[length + 3int] == own[3]);
    assert(encoding::crc_prefix(all, length + 4) == 0);
}

/// A step of the checksum halves an even number, and halves an odd one against the polynomial.
pub proof fn law_checksum_step(value: u32, steps: nat)
    ensures
        encoding::crc_steps(value, 0) == value,
        encoding::crc_steps(value, steps) % 2 == 0 ==> encoding::crc_steps(value, steps + 1)
            == encoding::crc_steps(value, steps) / 2,
        encoding::crc_steps(value, steps) % 2 == 1 ==> encoding::crc_steps(value, steps + 1)
            == encoding::crc_steps(value, steps) / 2 ^ 0xEDB8_8320u32,
{
    let before = encoding::crc_steps(value, steps);
    assert(before & 1 == before % 2 && before >> 1 == before / 2) by (bit_vector);
}

/// One more byte is taken into a checksum against its low byte, and then eight steps are made.
pub proof fn law_checksum_of_one_more(data: Seq<u8>, byte: u8)
    ensures
        encoding::crc(data.push(byte)) == encoding::crc_steps(
            encoding::crc(data) ^ (byte as u32),
            8,
        ),
{
    lemma_prefix(data, seq![byte], data.len());
    assert(data.push(byte) =~= data + seq![byte]);
}

/// The number of a page type.
pub open spec fn page_number(page_type: PageType) -> u8 {
    match page_type {
        PageType::BlockBTree => 128,
        PageType::NodeBTree => 129,
        PageType::FreeMap => 130,
        PageType::AllocationPageMap => 131,
        PageType::AllocationMap => 132,
        PageType::FreePageMap => 133,
        PageType::DensityList => 134,
    }
}

/// The last 16 bytes of a page say twice what it is, then where it belongs, which map pages leave out, the
/// checksum of what stands before, and its identifier.
pub proof fn law_page_says_what_it_is(page_type: PageType, offset: u64, id: u64, body: Seq<u8>)
    requires
        body.len() == 496,
    ensures
        ({
            let data = encoding::page_bytes(page_type, offset, id, body);
            &&& data.len() == 512
            &&& data.take(496) == body
            &&& data[496] == page_number(page_type)
            &&& data[497] == page_number(page_type)
            &&& bytes::get16(data, 498) == (match page_type {
                PageType::BlockBTree | PageType::NodeBTree | PageType::DensityList => folded(
                    offset,
                    id,
                ) as int,
                _ => 0,
            })
            &&& encoding::crc(body + data.subrange(500, 504)) == 0
            &&& bytes::get64(data, 504) == id
        }),
{
    encoding_laws::law_page_trailer(page_type, offset, id, body);
    law_signature(offset, id);
    law_checksum_cancels(body);
    let data = encoding::page_bytes(page_type, offset, id, body);
    let signature = encoding::page_signature(page_type, offset, id);
    bytes::lemma_le_lengths(signature, encoding::crc(body), id);
    assert(data.subrange(500, 504) =~= bytes::le32(encoding::crc(body)));
}

proof fn lemma_slots(size: int)
    requires
        1 <= size,
    ensures
        block::disk_size(size) % 64 == 0,
        size + 16 <= block::disk_size(size) < size + 16 + 64,
{
}

/// A block takes whole slots of 64 bytes in the file, and no more than its bytes and the 16 behind them need. It starts
/// with its contents.
pub proof fn law_block_takes_slots(block: PlannedBlock)
    requires
        block.size == block.data.size(),
        1 <= block.size <= MAX_BLOCK_DATA_SIZE,
    ensures
        encoding::block_bytes(block).len() % 64 == 0,
        block.size + 16 <= encoding::block_bytes(block).len() < block.size + 16 + 64,
        encoding_laws::is_block(
            encoding::block_bytes(block).take(block.size as int),
            block.data,
        ),
{
    let data = encoding::block_bytes(block);
    assert(data.len() == block::disk_size(block.size as int) && data.take(block.size as int)
        == encoding::block_body(block.data)) by {
        encoding::law_block_bytes(block);
    }
    lemma_slots(block.size as int);
    encoding_laws::law_block_body_reads_back(block.data);
}

/// The last 16 bytes of a block say how many bytes it has, where it belongs, the checksum of its bytes, and its
/// identifier.
pub proof fn law_block_says_what_it_is(block: PlannedBlock)
    requires
        block.size == block.data.size(),
        1 <= block.size <= MAX_BLOCK_DATA_SIZE,
    ensures
        ({
            let data = encoding::block_bytes(block);
            let trailer = data.len() - 16;
            &&& bytes::get16(data, trailer) == block.size
            &&& bytes::get16(data, trailer + 2) == folded(block.offset, block.id.value)
            &&& bytes::get32(data, trailer + 4) == encoding::crc(data.take(block.size as int))
            &&& bytes::get64(data, trailer + 8) == block.id.value
        }),
{
    let data = encoding::block_bytes(block);
    let trailer = data.len() - 16;
    let id = block.id.value;
    assert(data.len() >= 16) by {
        law_block_takes_slots(block);
    }
    assert(bytes::get64(data, trailer + 8) == id) by {
        encoding::law_block_bytes(block);
        assert(data.subrange(trailer + 8, trailer + 16) =~= data.skip(trailer + 8));
        bytes::lemma_get64_le64(data, trailer + 8, id);
    }
    assert(bytes::get16(data, trailer + 2) == folded(block.offset, id)) by {
        encoding::law_block_bytes(block);
        law_signature(block.offset, id);
    }
    encoding::law_block_bytes(block);
}

} // verus!
