//! A new file starts as a copy of a template, whose data blocks are then written without an
//! encoding.

use vstd::prelude::*;

use crate::error::PstError;
use crate::ndb::block::{BlockContents, NewBlock, NewBlockData, PlannedBlock};
use crate::ndb::btree::UnicodeBlockBTreeEntry;
use crate::ndb::encoding;
use crate::ndb::encoding::FileWrite;
use crate::ndb::header::{Header, HeaderContents, NdbCryptMethod};

verus! {

/// The blocks that hold data: those of data trees and subnode trees have no encoding.
pub open spec fn data_entries(entries: Seq<UnicodeBlockBTreeEntry>) -> Seq<UnicodeBlockBTreeEntry> {
    entries.filter(|entry: UnicodeBlockBTreeEntry| !entry.block.block.spec_is_internal())
}

/// The blocks that hold data.
pub fn data_blocks(entries: &Vec<UnicodeBlockBTreeEntry>) -> (blocks: Vec<UnicodeBlockBTreeEntry>)
    ensures
        blocks@ == data_entries(entries@),
{
    let mut blocks: Vec<UnicodeBlockBTreeEntry> = Vec::new();
    let ghost holds_data = |entry: UnicodeBlockBTreeEntry| !entry.block.block.spec_is_internal();
    let mut i: usize = 0;
    assert(entries@.take(0).filter(holds_data) =~= Seq::empty()) by {
        reveal(Seq::filter);
    }
    while i < entries.len()
        invariant
            i <= entries@.len(),
            holds_data == (|entry: UnicodeBlockBTreeEntry|
                !entry.block.block.spec_is_internal()),
            blocks@ == entries@.take(i as int).filter(holds_data),
        decreases entries@.len() - i,
    {
        assert(entries@.take(i + 1).drop_last() =~= entries@.take(i as int));
        assert(entries@.take(i + 1).filter(holds_data) == if holds_data(entries@[i as int]) {
            entries@.take(i as int).filter(holds_data).push(entries@[i as int])
        } else {
            entries@.take(i as int).filter(holds_data)
        }) by {
            reveal(Seq::filter);
        }
        if !entries[i].block.block.is_internal() {
            blocks.push(entries[i]);
        }
        i += 1;
    }
    assert(entries@.take(i as int) =~= entries@);
    blocks
}

/// The block of `entry` with its decoded data.
pub open spec fn plain_contents(entry: UnicodeBlockBTreeEntry, data: Seq<u8>) -> PlannedBlock {
    PlannedBlock {
        id: entry.block.block,
        offset: entry.block.index,
        size: entry.size,
        data: BlockContents::Data(data),
    }
}

/// The bytes of a data block without an encoding, and where they are to be written: where the block
/// stands.
pub fn write_plain_block(entry: &UnicodeBlockBTreeEntry, data: Vec<u8>) -> (write: Result<
    FileWrite,
    PstError,
>)
    requires
        data@.len() == entry.size,
    ensures
        match write {
            Ok(write) => encoding::can_write(entry.size) && write.offset == entry.block.index
                && write.data@ == encoding::block_bytes(plain_contents(*entry, data@)),
            Err(error) => !encoding::can_write(entry.size) && error == encoding::size_error(
                entry.size,
            ),
        },
{
    let block = NewBlock {
        id: entry.block.block,
        offset: entry.block.index,
        size: entry.size,
        data: NewBlockData::Data(data),
    };
    assert(block@ == plain_contents(*entry, data@));
    encoding::write_new_block(&block)
}

/// The header of a file whose data blocks have no encoding.
pub open spec fn plain_header(header: HeaderContents) -> HeaderContents {
    HeaderContents { crypt_method: NdbCryptMethod::Plain, ..header }
}

/// Says that data blocks have no encoding.
pub fn set_plain(header: &mut Header)
    ensures
        final(header)@ == plain_header(old(header)@),
{
    header.crypt_method = NdbCryptMethod::Plain;
}

} // verus!
