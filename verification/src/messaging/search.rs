//! Updates for the search index, which readers of the file take from a queue.

use vstd::prelude::*;

use crate::bytes;
use crate::error::PstError;
use crate::ndb::block;
use crate::ndb::block::{BlockPlan, NewBlock};
use crate::ndb::block_laws;
use crate::ndb::btree::UnicodeNodeBTreeEntry;
use crate::ndb::data_tree;
use crate::ndb::ids::{NodeId, NID_SEARCH_MANAGEMENT_QUEUE};
use crate::ndb::nodes;

verus! {

/// An update for the search index.
#[derive(Clone, Copy, PartialEq, Eq, Debug, Structural)]
pub enum SearchUpdateData {
    MessageAdded { parent: NodeId, message: NodeId },
    FolderAdded { parent: NodeId, folder: NodeId, reserved1: u32, reserved2: u32 },
    FolderModified { folder: NodeId, reserved: u32 },
}

/// The 20 bytes of an update: no flags, its type, and its data padded with zeros.
pub open spec fn update_bytes(update: SearchUpdateData) -> Seq<u8> {
    bytes::le16(0) + match update {
        SearchUpdateData::MessageAdded { parent, message } => bytes::le16(1) + bytes::le32(
            parent.value,
        ) + bytes::le32(message.value) + bytes::zeros(8),
        SearchUpdateData::FolderAdded { parent, folder, reserved1, reserved2 } => bytes::le16(5)
            + bytes::le32(parent.value) + bytes::le32(folder.value) + bytes::le32(reserved1)
            + bytes::le32(reserved2),
        SearchUpdateData::FolderModified { folder, reserved } => bytes::le16(6) + bytes::le32(
            folder.value,
        ) + bytes::le32(reserved) + bytes::zeros(8),
    }
}

/// The bytes of the first `count` updates.
pub open spec fn updates_bytes(updates: Seq<SearchUpdateData>, count: nat) -> Seq<u8>
    decreases count,
{
    if count == 0 {
        Seq::empty()
    } else {
        updates_bytes(updates, (count - 1) as nat) + update_bytes(updates[count - 1])
    }
}

/// An update takes 20 bytes.
pub proof fn law_update_length(updates: Seq<SearchUpdateData>, count: nat)
    ensures
        updates_bytes(updates, count).len() == 20 * count,
    decreases count,
{
    if count > 0 {
        law_update_length(updates, (count - 1) as nat);
    }
}

/// Adds the bytes of an update.
fn push_update(data: &mut Vec<u8>, update: SearchUpdateData)
    ensures
        final(data)@ == old(data)@ + update_bytes(update),
{
    bytes::push_u16(data, 0);
    match update {
        SearchUpdateData::MessageAdded { parent, message } => {
            bytes::push_u16(data, 1);
            bytes::push_u32(data, parent.value);
            bytes::push_u32(data, message.value);
            bytes::push_zeros(data, 8);
        },
        SearchUpdateData::FolderAdded { parent, folder, reserved1, reserved2 } => {
            bytes::push_u16(data, 5);
            bytes::push_u32(data, parent.value);
            bytes::push_u32(data, folder.value);
            bytes::push_u32(data, reserved1);
            bytes::push_u32(data, reserved2);
        },
        SearchUpdateData::FolderModified { folder, reserved } => {
            bytes::push_u16(data, 6);
            bytes::push_u32(data, folder.value);
            bytes::push_u32(data, reserved);
            bytes::push_zeros(data, 8);
        },
    }
    assert(data@ =~= old(data)@ + update_bytes(update));
}

/// The node of the queue.
pub open spec fn queue_node() -> NodeId {
    NodeId { value: NID_SEARCH_MANAGEMENT_QUEUE }
}

/// The plan and the nodes with more updates in the queue. A file without a queue is left as it is.
#[verifier::opaque]
pub open spec fn with_search_updates(
    plan: BlockPlan,
    entries: Seq<UnicodeNodeBTreeEntry>,
    queue: Seq<u8>,
    updates: Seq<SearchUpdateData>,
) -> (BlockPlan, Result<Seq<UnicodeNodeBTreeEntry>, PstError>) {
    match nodes::node_entry(entries, queue_node()) {
        None => (plan, Ok(entries)),
        Some(entry) => match data_tree::with_data_tree(
            plan,
            data_tree::data_chunks(queue + updates_bytes(updates, updates.len())),
        ) {
            (after, Err(error)) => (after, Err(error)),
            (after, Ok(data)) => (
                after,
                Ok(
                    nodes::without_node(entries, queue_node()).push(
                        UnicodeNodeBTreeEntry { node: queue_node(), data, ..entry },
                    ),
                ),
            ),
        },
    }
}

/// Adds updates to the queue, which holds the bytes `queue` so far. A file without a queue is left
/// as it is, and so are the nodes where the updates could not be planned.
pub fn append_search_updates(
    nbt_entries: &mut Vec<UnicodeNodeBTreeEntry>,
    blocks: &mut Vec<NewBlock>,
    next_bid: &mut u64,
    next_offset: &mut u64,
    queue: &[u8],
    updates: &Vec<SearchUpdateData>,
) -> (result: Result<(), PstError>)
    ensures
        ({
            let (after, expected) = with_search_updates(
                block::plan(old(blocks)@, *old(next_bid), *old(next_offset)),
                old(nbt_entries)@,
                queue@,
                updates@,
            );
            &&& block::plan(final(blocks)@, *final(next_bid), *final(next_offset)) == after
            &&& match expected {
                Ok(entries) => result is Ok && final(nbt_entries)@ == entries,
                Err(error) => result == Err::<(), PstError>(error) && final(nbt_entries)@ == old(
                    nbt_entries,
                )@,
            }
        }),
        block_laws::plan_wf(block::plan(old(blocks)@, *old(next_bid), *old(next_offset)))
            ==> block_laws::plan_wf(
            block::plan(final(blocks)@, *final(next_bid), *final(next_offset)),
        ),
{
    reveal(with_search_updates);
    let ghost before = block::plan(blocks@, *next_bid, *next_offset);
    let node = NodeId { value: NID_SEARCH_MANAGEMENT_QUEUE };
    let entry: UnicodeNodeBTreeEntry = match nodes::find_node(nbt_entries, node) {
        None => {
            return Ok(());
        },
        Some(entry) => entry,
    };
    let mut data: Vec<u8> = bytes::copy(queue);
    let mut i: usize = 0;
    assert(data@ =~= queue@ + updates_bytes(updates@, 0));
    while i < updates.len()
        invariant
            i <= updates@.len(),
            data@ == queue@ + updates_bytes(updates@, i as nat),
        decreases updates@.len() - i,
    {
        push_update(&mut data, updates[i]);
        i += 1;
        assert(data@ =~= queue@ + updates_bytes(updates@, i as nat));
    }
    proof {
        if block_laws::plan_wf(before) {
            block_laws::law_data_tree_round_trip(before, data_tree::data_chunks(data@));
        }
    }
    let data = data_tree::push_data_tree(blocks, next_bid, next_offset, data.as_slice())?;
    nodes::remove_node(nbt_entries, node);
    nbt_entries.push(UnicodeNodeBTreeEntry::new(node, data, entry.sub_node, entry.parent));
    Ok(())
}

} // verus!
