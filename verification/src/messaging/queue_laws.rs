//! What a reader finds in the queue of updates for the search index.

use vstd::prelude::*;

use crate::bytes;
use crate::error::PstError;
use crate::messaging::append;
use crate::messaging::append_laws;
use crate::messaging::plan_laws;
use crate::messaging::search;
use crate::messaging::search::SearchUpdateData;
use crate::ndb::block::BlockPlan;
use crate::ndb::block_laws;
use crate::ndb::btree::UnicodeNodeBTreeEntry;
use crate::ndb::ids::NodeId;
use crate::ndb::nodes;

verus! {

/// The update at `at` in a queue, where there is one without flags and of a known type.
pub open spec fn read_update(queue: Seq<u8>, at: int) -> Option<SearchUpdateData> {
    let first = NodeId { value: bytes::get32(queue, at + 4) as u32 };
    let second = bytes::get32(queue, at + 8) as u32;
    if at + 20 > queue.len() || bytes::get16(queue, at) != 0 {
        None
    } else if bytes::get16(queue, at + 2) == 1 {
        Some(SearchUpdateData::MessageAdded { parent: first, message: NodeId { value: second } })
    } else if bytes::get16(queue, at + 2) == 5 {
        Some(
            SearchUpdateData::FolderAdded {
                parent: first,
                folder: NodeId { value: second },
                reserved1: bytes::get32(queue, at + 12) as u32,
                reserved2: bytes::get32(queue, at + 16) as u32,
            },
        )
    } else if bytes::get16(queue, at + 2) == 6 {
        Some(SearchUpdateData::FolderModified { folder: first, reserved: second })
    } else {
        None
    }
}

/// An update is read back from its bytes.
pub proof fn law_update_reads_back(queue: Seq<u8>, at: int, update: SearchUpdateData)
    requires
        0 <= at,
        at + 20 <= queue.len(),
        queue.subrange(at, at + 20) == search::update_bytes(update),
    ensures
        read_update(queue, at) == Some(update),
{
    let data = search::update_bytes(update);
    assert(queue.subrange(at, at + 2) =~= data.subrange(0, 2));
    assert(data.subrange(0, 2) =~= bytes::le16(0));
    bytes::lemma_get16_le16(queue, at, 0);
    assert(queue.subrange(at + 2, at + 4) =~= data.subrange(2, 4));
    assert(queue.subrange(at + 4, at + 8) =~= data.subrange(4, 8));
    assert(queue.subrange(at + 8, at + 12) =~= data.subrange(8, 12));
    assert(queue.subrange(at + 12, at + 16) =~= data.subrange(12, 16));
    assert(queue.subrange(at + 16, at + 20) =~= data.subrange(16, 20));
    match update {
        SearchUpdateData::MessageAdded { parent, message } => {
            assert(data.subrange(2, 4) =~= bytes::le16(1));
            bytes::lemma_get16_le16(queue, at + 2, 1);
            assert(data.subrange(4, 8) =~= bytes::le32(parent.value));
            bytes::lemma_get32_le32(queue, at + 4, parent.value);
            assert(data.subrange(8, 12) =~= bytes::le32(message.value));
            bytes::lemma_get32_le32(queue, at + 8, message.value);
        },
        SearchUpdateData::FolderAdded { parent, folder, reserved1, reserved2 } => {
            assert(data.subrange(2, 4) =~= bytes::le16(5));
            bytes::lemma_get16_le16(queue, at + 2, 5);
            assert(data.subrange(4, 8) =~= bytes::le32(parent.value));
            bytes::lemma_get32_le32(queue, at + 4, parent.value);
            assert(data.subrange(8, 12) =~= bytes::le32(folder.value));
            bytes::lemma_get32_le32(queue, at + 8, folder.value);
            assert(data.subrange(12, 16) =~= bytes::le32(reserved1));
            bytes::lemma_get32_le32(queue, at + 12, reserved1);
            assert(data.subrange(16, 20) =~= bytes::le32(reserved2));
            bytes::lemma_get32_le32(queue, at + 16, reserved2);
        },
        SearchUpdateData::FolderModified { folder, reserved } => {
            assert(data.subrange(2, 4) =~= bytes::le16(6));
            bytes::lemma_get16_le16(queue, at + 2, 6);
            assert(data.subrange(4, 8) =~= bytes::le32(folder.value));
            bytes::lemma_get32_le32(queue, at + 4, folder.value);
            assert(data.subrange(8, 12) =~= bytes::le32(reserved));
            bytes::lemma_get32_le32(queue, at + 8, reserved);
        },
    }
}

proof fn lemma_updates(updates: Seq<SearchUpdateData>, count: nat, index: int)
    requires
        0 <= index < count <= updates.len(),
    ensures
        search::updates_bytes(updates, count).len() == 20 * count,
        search::updates_bytes(updates, count).subrange(20 * index, 20 * index + 20)
            == search::update_bytes(updates[index]),
    decreases count,
{
    search::law_update_length(updates, count);
    search::law_update_length(updates, (count - 1) as nat);
    let all = search::updates_bytes(updates, count);
    let before = search::updates_bytes(updates, (count - 1) as nat);
    if index == count - 1 {
        assert(all.subrange(20 * index, 20 * index + 20) =~= search::update_bytes(updates[index]));
    } else {
        lemma_updates(updates, (count - 1) as nat, index);
        assert(all.subrange(20 * index, 20 * index + 20) =~= before.subrange(
            20 * index,
            20 * index + 20,
        ));
    }
}

/// Whether a queue has more updates behind what it had.
pub open spec fn has_more(
    after: Seq<u8>,
    before: Seq<u8>,
    updates: Seq<SearchUpdateData>,
) -> bool {
    &&& after.len() == before.len() + 20 * updates.len()
    &&& after.take(before.len() as int) == before
    &&& forall|i: int|
        0 <= i < updates.len() ==> read_update(after, before.len() + 20 * i) == Some(
            #[trigger] updates[i],
        )
}

/// A queue that got updates still has what it had, and behind it each update in its order. The node of the
/// queue keeps its place, and a file without a queue is left as it is.
pub proof fn law_updates_are_queued(
    plan: BlockPlan,
    entries: Seq<UnicodeNodeBTreeEntry>,
    queue: Seq<u8>,
    updates: Seq<SearchUpdateData>,
    entry: UnicodeNodeBTreeEntry,
)
    requires
        block_laws::plan_wf(plan),
    ensures
        ({
            let (after, result) = search::with_search_updates(plan, entries, queue, updates);
            &&& (forall|i: int| 0 <= i < entries.len() ==> (#[trigger] entries[i]).node.value != 0x1E1)
                ==> after == plan && result == Ok::<_, PstError>(entries)
            &&& result matches Ok(replaced) ==> entry.node.value == 0x1E1 && replaced.contains(entry)
                ==> exists|data: Seq<u8>| #[trigger]
                plan_laws::data_reads(after, entry.data, data) && has_more(data, queue, updates)
        }),
{
    reveal(search::with_search_updates);
    append_laws::law_search_updates_keep_nodes(plan, entries, queue, updates, entry);
    nodes::law_node_entry(entries, search::queue_node());
    let data = queue + search::updates_bytes(updates, updates.len());
    search::law_update_length(updates, updates.len());
    assert(data.take(queue.len() as int) =~= queue);
    assert forall|i: int| 0 <= i < updates.len() implies read_update(data, queue.len() + 20 * i)
        == Some(#[trigger] updates[i]) by {
        lemma_updates(updates, updates.len(), i);
        let at = queue.len() + 20 * i;
        assert(data.subrange(at, at + 20) =~= search::updates_bytes(
            updates,
            updates.len(),
        ).subrange(20 * i, 20 * i + 20));
        law_update_reads_back(data, at, updates[i]);
    }
    assert(has_more(data, queue, updates));
}

/// The updates of an append tell of every message that it was added to the folder, in their order.
pub proof fn law_messages_are_told(folder: NodeId, messages: Seq<NodeId>)
    ensures
        append::message_updates(folder, messages).len() == messages.len(),
        forall|i: int|
            0 <= i < messages.len() ==> #[trigger] append::message_updates(folder, messages)[i]
                == (SearchUpdateData::MessageAdded { parent: folder, message: messages[i] }),
{
}

} // verus!
