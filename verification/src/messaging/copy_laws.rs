//! What appending messages and creating folders leave of the bytes that a file had before.

use vstd::prelude::*;

use crate::error::PstError;
use crate::file;
use crate::ltp::rebuild::RebuiltContents;
use crate::messaging::append;
use crate::messaging::append::{SessionContents, TargetContents};
use crate::messaging::append_laws;
use crate::messaging::create;
use crate::messaging::create::{FolderNodes, ParentContents};
use crate::messaging::input::UnicodePstBatchMessage;
use crate::messaging::search;
use crate::messaging::search::SearchUpdateData;
use crate::ndb::allocation;
use crate::ndb::allocation::{AMAP_FIRST_OFFSET, PAGE_SIZE};
use crate::ndb::amap;
use crate::ndb::amap::AllocationMapPageInfo;
use crate::ndb::btree::{UnicodeBlockBTreeEntry, UnicodeNodeBTreeEntry};
use crate::ndb::copy_laws;
use crate::ndb::header::HeaderContents;
use crate::ndb::ids::{NodeId, UnicodeBlockId};
use crate::ndb::mark;
use crate::ndb::transaction;
use crate::ndb::transaction::ActionContents;
use crate::ndb::transaction_laws;

verus! {

/// The session after the first `count` messages, and the writes of their blocks.
pub open spec fn appended_messages(
    session: SessionContents,
    inputs: Seq<UnicodePstBatchMessage<'_>>,
    messages: Seq<NodeId>,
    sizes: Seq<i32>,
    folder: NodeId,
    count: nat,
) -> Result<(SessionContents, Seq<ActionContents>), PstError>
    decreases count,
{
    if count == 0 {
        Ok((session, Seq::empty()))
    } else {
        match appended_messages(session, inputs, messages, sizes, folder, (count - 1) as nat) {
            Err(error) => Err(error),
            Ok((before, writes)) => match append::with_next_message(
                before,
                inputs[count - 1],
                messages[count - 1],
                sizes[count - 1],
                folder,
            ) {
                Err(error) => Err(error),
                Ok((after, plan)) => Ok(
                    (
                        after,
                        writes + transaction_laws::block_writes(plan.blocks, plan.blocks.len()),
                    ),
                ),
            },
        }
    }
}

/// The blocks of a batch of messages are all written behind `end`.
pub proof fn law_messages_are_written_behind(
    session: SessionContents,
    end: u64,
    inputs: Seq<UnicodePstBatchMessage<'_>>,
    messages: Seq<NodeId>,
    sizes: Seq<i32>,
    folder: NodeId,
    count: nat,
)
    requires
        append_laws::session_is_behind(session, end),
    ensures
        appended_messages(session, inputs, messages, sizes, folder, count) matches Ok((after, writes))
            ==> {
            &&& append_laws::session_is_behind(after, end)
            &&& after.header == session.header
            &&& forall|i: int|
                0 <= i < writes.len() ==> transaction_laws::behind(#[trigger] writes[i], end)
        },
    decreases count,
{
    if count > 0 {
        law_messages_are_written_behind(
            session,
            end,
            inputs,
            messages,
            sizes,
            folder,
            (count - 1) as nat,
        );
        if let Ok((before, writes)) = appended_messages(
            session,
            inputs,
            messages,
            sizes,
            folder,
            (count - 1) as nat,
        ) {
            let input = inputs[count - 1];
            let message = messages[count - 1];
            let size = sizes[count - 1];
            append_laws::law_appended_blocks_are_new(
                before,
                end,
                input,
                message,
                size,
                folder,
                0,
                0,
            );
            if let Ok((after, plan)) = append::with_next_message(
                before,
                input,
                message,
                size,
                folder,
            ) {
                let more = transaction_laws::block_writes(plan.blocks, plan.blocks.len());
                let all = writes + more;
                assert forall|i: int| 0 <= i < all.len() implies transaction_laws::behind(
                    #[trigger] all[i],
                    end,
                ) by {
                    if i < writes.len() {
                        assert(all[i] == writes[i]);
                    } else {
                        append_laws::law_appended_blocks_are_new(
                            before,
                            end,
                            input,
                            message,
                            size,
                            folder,
                            i - writes.len(),
                            0,
                        );
                        assert(all[i] == more[i - writes.len()]);
                    }
                }
            }
        }
    }
}

/// What an append writes before its commit: the header that says that the allocation maps cannot be
/// relied on, and the blocks of the messages.
pub open spec fn announced(
    session: SessionContents,
    writes: Seq<ActionContents>,
) -> Seq<ActionContents> {
    seq![ActionContents::WriteHeader(session.header), ActionContents::SyncData] + writes + seq![
        ActionContents::SyncData,
    ]
}

/// An append is copy on write: after any number of its actions, from the first header to the density
/// list, the bytes of every block that the file had before are as they were, also those of blocks that no
/// node names any more, and the last header puts the end of the file behind the end that it had.
pub proof fn law_append_is_copy_on_write(
    header: HeaderContents,
    block_entries: Seq<UnicodeBlockBTreeEntry>,
    inputs: Seq<UnicodePstBatchMessage<'_>>,
    messages: Seq<NodeId>,
    sizes: Seq<i32>,
    folder: NodeId,
    entries: Seq<UnicodeNodeBTreeEntry>,
    target: TargetContents,
    rebuilt: RebuiltContents,
    external: Seq<(NodeId, Seq<u8>)>,
    queue: Seq<u8>,
    updates: Seq<SearchUpdateData>,
    trees: Seq<Seq<UnicodeBlockId>>,
    steps: nat,
    regions: Seq<AllocationMapPageInfo>,
    max_index: u64,
    list_bytes: Seq<u8>,
    file: Seq<u8>,
    header_bytes: spec_fn(HeaderContents) -> Seq<u8>,
    count: int,
    offset: int,
    size: int,
)
    requires
        header.wf(),
        amap::maps_wf(regions),
        allocation::region_start(regions.len() as int) <= u64::MAX,
        list_bytes.len() <= PAGE_SIZE,
        copy_laws::headers_fit(header_bytes),
        AMAP_FIRST_OFFSET <= offset,
        0 <= size,
        offset + size <= header.root.file_eof_index <= file.len(),
        allocation::range_is_free(offset, size),
    ensures
        appended_messages(
            append::new_session(header, block_entries),
            inputs,
            messages,
            sizes,
            folder,
            inputs.len(),
        ) matches Ok((session, writes)) ==> (append::finished_append(
            session,
            entries,
            target,
            rebuilt,
            external,
        ) matches Ok(change) ==> (search::with_search_updates(
            change.0,
            change.1,
            queue,
            updates,
        ) matches (plan, Ok(nodes)) ==> transaction::names_data(nodes) && plan.blocks.len()
            <= usize::MAX ==> (copy_laws::run(
            transaction::new_commit(session.header, session.block_entries, (plan, nodes), messages),
            trees,
            steps,
        ) matches Ok((state, trace)) ==> copy_laws::can_count_pages(state) && state.stage is Done ==> (
        mark::rebuilt_maps(state.header, regions, max_index) matches Ok((pages, mapped)) ==> {
            let actions = announced(session, writes) + trace + copy_laws::finishing(
                pages,
                mapped,
                list_bytes,
            );
            &&& 0 <= count <= actions.len() ==> copy_laws::same_bytes(
                copy_laws::after_actions(file, actions.take(count), header_bytes),
                file,
                offset,
                size,
            )
            &&& file::finished_header(mapped).root.file_eof_index > header.root.file_eof_index
        })))),
{
    let first = append::new_session(header, block_entries);
    let end = header.root.file_eof_index;
    append_laws::law_new_session_is_behind(header, block_entries);
    law_messages_are_written_behind(first, end, inputs, messages, sizes, folder, inputs.len());
    if let Ok((session, writes)) = appended_messages(
        first,
        inputs,
        messages,
        sizes,
        folder,
        inputs.len(),
    ) {
        let before = announced(session, writes);
        assert forall|i: int| 0 <= i < before.len() implies transaction_laws::behind(
            #[trigger] before[i],
            end,
        ) by {
            if 2 <= i < 2 + writes.len() {
                assert(before[i] == writes[i - 2]);
            }
        }
        append_laws::law_append_can_be_committed(
            session,
            end,
            entries,
            target,
            rebuilt,
            external,
            queue,
            updates,
            messages,
            0,
            0,
        );
        if let Ok(change) = append::finished_append(session, entries, target, rebuilt, external) {
            if let (plan, Ok(nodes)) = search::with_search_updates(
                change.0,
                change.1,
                queue,
                updates,
            ) {
                if transaction::names_data(nodes) && plan.blocks.len() <= usize::MAX {
                    transaction::law_new_commit_is_well_formed(
                        session.header,
                        session.block_entries,
                        (plan, nodes),
                        messages,
                    );
                    copy_laws::law_commit_is_copy_on_write(
                        before,
                        transaction::new_commit(
                            session.header,
                            session.block_entries,
                            (plan, nodes),
                            messages,
                        ),
                        trees,
                        steps,
                        end,
                        regions,
                        max_index,
                        list_bytes,
                        file,
                        header_bytes,
                        count,
                        offset,
                        size,
                    );
                }
            }
        }
    }
}

/// Creating a folder is copy on write: after any number of its actions the bytes of every block that the
/// file had before are as they were, also those of blocks that no node names any more, and the last
/// header puts the end of the file behind the end that it had.
pub proof fn law_new_folder_is_copy_on_write(
    header: HeaderContents,
    block_entries: Seq<UnicodeBlockBTreeEntry>,
    entries: Seq<UnicodeNodeBTreeEntry>,
    parent: ParentContents,
    store_record_key: Seq<u8>,
    new: FolderNodes,
    name: Seq<char>,
    queue: Seq<u8>,
    updates: Seq<SearchUpdateData>,
    reserved: Seq<NodeId>,
    trees: Seq<Seq<UnicodeBlockId>>,
    steps: nat,
    regions: Seq<AllocationMapPageInfo>,
    max_index: u64,
    list_bytes: Seq<u8>,
    file: Seq<u8>,
    header_bytes: spec_fn(HeaderContents) -> Seq<u8>,
    count: int,
    offset: int,
    size: int,
)
    requires
        header.wf(),
        amap::maps_wf(regions),
        allocation::region_start(regions.len() as int) <= u64::MAX,
        list_bytes.len() <= PAGE_SIZE,
        copy_laws::headers_fit(header_bytes),
        AMAP_FIRST_OFFSET <= offset,
        0 <= size,
        offset + size <= header.root.file_eof_index <= file.len(),
        allocation::range_is_free(offset, size),
    ensures
        create::planned_folder(
            header,
            block_entries,
            entries,
            parent,
            store_record_key,
            new,
            name,
        ) matches Ok(change) ==> (search::with_search_updates(
            change.0,
            change.1,
            queue,
            updates,
        ) matches (plan, Ok(nodes)) ==> transaction::names_data(nodes) && plan.blocks.len()
            <= usize::MAX ==> (copy_laws::run(
            transaction::new_commit(header, block_entries, (plan, nodes), reserved),
            trees,
            steps,
        ) matches Ok((state, trace)) ==> copy_laws::can_count_pages(state) && state.stage is Done ==> (
        mark::rebuilt_maps(state.header, regions, max_index) matches Ok((pages, mapped)) ==> {
            let actions = trace + copy_laws::finishing(pages, mapped, list_bytes);
            &&& 0 <= count <= actions.len() ==> copy_laws::same_bytes(
                copy_laws::after_actions(file, actions.take(count), header_bytes),
                file,
                offset,
                size,
            )
            &&& file::finished_header(mapped).root.file_eof_index > header.root.file_eof_index
        }))),
{
    append_laws::law_folder_can_be_committed(
        header,
        block_entries,
        entries,
        parent,
        store_record_key,
        new,
        name,
        queue,
        updates,
        reserved,
        0,
        0,
    );
    if let Ok(change) = create::planned_folder(
        header,
        block_entries,
        entries,
        parent,
        store_record_key,
        new,
        name,
    ) {
        if let (plan, Ok(nodes)) = search::with_search_updates(change.0, change.1, queue, updates) {
            if transaction::names_data(nodes) && plan.blocks.len() <= usize::MAX {
                let start = transaction::new_commit(
                    header,
                    block_entries,
                    (plan, nodes),
                    reserved,
                );
                transaction::law_new_commit_is_well_formed(
                    header,
                    block_entries,
                    (plan, nodes),
                    reserved,
                );
                let none = Seq::<ActionContents>::empty();
                copy_laws::law_commit_is_copy_on_write(
                    none,
                    start,
                    trees,
                    steps,
                    header.root.file_eof_index,
                    regions,
                    max_index,
                    list_bytes,
                    file,
                    header_bytes,
                    count,
                    offset,
                    size,
                );
                if let Ok((_, trace)) = copy_laws::run(start, trees, steps) {
                    assert(none + trace =~= trace);
                }
            }
        }
    }
}

} // verus!
