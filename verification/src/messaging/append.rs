//! Appending messages to a folder.
//!
//! The messages are planned one by one, so that the blocks of each can be written before the next is
//! planned. Then the contents table, the properties of the folder and its row in the hierarchy table
//! of its parent are written anew, and the nodes of the file are replaced by the new ones.

use vstd::prelude::*;

use crate::bytes;
use crate::error::{IoError, PstError};
use crate::ltp::property;
use crate::ltp::property::{EncodedValue, PropertyValue};
use crate::ltp::rebuild;
use crate::ltp::rebuild::{RebuiltContents, RebuiltTable, TableUpdate, UpdateContents};
use crate::messaging::append_laws;
use crate::messaging::attachment;
use crate::messaging::folder;
use crate::messaging::input::UnicodePstBatchMessage;
use crate::messaging::message;
use crate::messaging::message_laws;
use crate::messaging::search::SearchUpdateData;
use crate::messaging::update;
use crate::messaging::update::{TableNode, TableNodeContents};
use crate::ndb::block;
use crate::ndb::block::{BlockPlan, NewBlock, UnicodeLeafSubNodeTreeEntry};
use crate::ndb::block_laws;
use crate::ndb::btree::{UnicodeBlockBTreeEntry, UnicodeNodeBTreeEntry};
use crate::ndb::commit;
use crate::ndb::commit::ChangePlan;
use crate::ndb::data_tree;
use crate::ndb::header::{Header, HeaderContents, NdbCryptMethod};
use crate::ndb::ids::{NodeId, NodeIdType, NID_RECIPIENT_TABLE};
use crate::ndb::nodes;
use crate::ndb::subnode_tree;

verus! {

/// The largest message index that is not in use in a file without messages.
pub const LEAST_MESSAGE_INDEX: u32 = 0x3F;

/// Refuses an empty batch.
pub fn check_batch(inputs: &[UnicodePstBatchMessage<'_>]) -> (result: Result<(), PstError>)
    ensures
        result == (if inputs@.len() == 0 {
            Err(PstError::Io(IoError::EmptyBatch))
        } else {
            Ok(())
        }),
{
    if inputs.len() == 0 {
        Err(PstError::Io(IoError::EmptyBatch))
    } else {
        Ok(())
    }
}

/// Refuses a file whose data blocks are encoded.
pub fn check_append(header: &Header) -> (result: Result<(), PstError>)
    ensures
        result == (if header.crypt_method == NdbCryptMethod::Plain {
            Ok(())
        } else {
            Err(PstError::Io(IoError::AppendEncrypted))
        }),
{
    if header.crypt_method == NdbCryptMethod::Plain {
        Ok(())
    } else {
        Err(PstError::Io(IoError::AppendEncrypted))
    }
}

/// The nodes of `count` new messages from index `first` on.
pub open spec fn message_nodes(first: u32, count: nat) -> Result<Seq<NodeId>, PstError>
    decreases count,
{
    if count == 0 {
        Ok(Seq::empty())
    } else {
        match message_nodes(first, (count - 1) as nat) {
            Err(error) => Err(error),
            Ok(nodes) => if first + (count - 1) > u32::MAX {
                Err(PstError::IntegerConversion)
            } else {
                match NodeId::spec_new(NodeIdType::NormalMessage, (first + (count - 1)) as u32) {
                    Err(error) => Err(error),
                    Ok(node) => Ok(nodes.push(node)),
                }
            },
        }
    }
}

/// The nodes of new messages: message nodes of consecutive indices from the next free one on.
pub open spec fn new_message_nodes(
    header: HeaderContents,
    entries: Seq<UnicodeNodeBTreeEntry>,
    count: nat,
) -> Result<Seq<NodeId>, PstError> {
    message_nodes(
        nodes::next_index(
            header,
            nodes::nodes_of(entries),
            NodeIdType::NormalMessage,
            LEAST_MESSAGE_INDEX,
        ),
        count,
    )
}

/// Where an error is at hand for the first nodes, it is there for all of them.
proof fn lemma_message_nodes_fail(first: u32, few: nat, count: nat)
    requires
        few <= count,
        message_nodes(first, few) is Err,
    ensures
        message_nodes(first, count) == message_nodes(first, few),
    decreases count,
{
    if few < count {
        lemma_message_nodes_fail(first, few, (count - 1) as nat);
    }
}

/// The nodes of new messages.
pub fn message_ids(
    header: &Header,
    nbt_entries: &Vec<UnicodeNodeBTreeEntry>,
    count: usize,
) -> (messages: Result<Vec<NodeId>, PstError>)
    requires
        header@.wf(),
    ensures
        crate::error::result_view(messages) == new_message_nodes(
            header@,
            nbt_entries@,
            count as nat,
        ),
{
    let first: u32 = nodes::next_free_index(
        header,
        nbt_entries,
        NodeIdType::NormalMessage,
        LEAST_MESSAGE_INDEX,
    );
    let mut messages: Vec<NodeId> = Vec::new();
    let mut i: usize = 0;
    while i < count
        invariant
            i <= count,
            first == nodes::next_index(
                header@,
                nodes::nodes_of(nbt_entries@),
                NodeIdType::NormalMessage,
                LEAST_MESSAGE_INDEX,
            ),
            message_nodes(first, i as nat) == Ok::<_, PstError>(messages@),
        decreases count - i,
    {
        if i > (u32::MAX - first) as usize {
            proof {
                lemma_message_nodes_fail(first, (i + 1) as nat, count as nat);
            }
            return Err(PstError::IntegerConversion);
        }
        match NodeId::new(NodeIdType::NormalMessage, first + i as u32) {
            Ok(node) => {
                messages.push(node);
            },
            Err(error) => {
                proof {
                    lemma_message_nodes_fail(first, (i + 1) as nat, count as nat);
                }
                return Err(error);
            },
        }
        i += 1;
    }
    Ok(messages)
}

/// The nodes of new messages are message nodes, all different, and none of them is in use.
pub proof fn law_message_nodes_are_new(
    header: HeaderContents,
    entries: Seq<UnicodeNodeBTreeEntry>,
    count: nat,
)
    ensures
        new_message_nodes(header, entries, count) matches Ok(messages) ==> ({
            &&& messages.len() == count
            &&& forall|i: int|
                0 <= i < count ==> (#[trigger] messages[i]).has_type(NodeIdType::NormalMessage)
                    && !nodes::nodes_of(entries).contains(messages[i])
            &&& forall|i: int, j: int|
                0 <= i < j < count ==> #[trigger] messages[i] != #[trigger] messages[j]
        }),
{
    let first = nodes::next_index(
        header,
        nodes::nodes_of(entries),
        NodeIdType::NormalMessage,
        LEAST_MESSAGE_INDEX,
    );
    lemma_message_nodes(first, count);
    if let Ok(messages) = new_message_nodes(header, entries, count) {
        assert forall|i: int| 0 <= i < count implies (#[trigger] messages[i]).has_type(
            NodeIdType::NormalMessage,
        ) && !nodes::nodes_of(entries).contains(messages[i]) by {
            nodes::law_next_index_is_free(
                header,
                nodes::nodes_of(entries),
                NodeIdType::NormalMessage,
                LEAST_MESSAGE_INDEX,
                messages[i],
            );
        }
    }
}

proof fn lemma_message_nodes(first: u32, count: nat)
    ensures
        message_nodes(first, count) matches Ok(messages) ==> messages.len() == count && forall|
            i: int,
        |
            0 <= i < count ==> (#[trigger] messages[i]).has_type(NodeIdType::NormalMessage)
                && messages[i].spec_index() == first + i,
    decreases count,
{
    if count > 0 {
        lemma_message_nodes(first, (count - 1) as nat);
    }
}

/// The sizes of the first `count` messages, or the first that has none and why.
pub open spec fn sizes_of(
    inputs: Seq<UnicodePstBatchMessage<'_>>,
    messages: Seq<NodeId>,
    row_version: u32,
    count: nat,
) -> Result<Seq<i32>, (nat, PstError)>
    decreases count,
{
    if count == 0 {
        Ok(Seq::empty())
    } else {
        match sizes_of(inputs, messages, row_version, (count - 1) as nat) {
            Err(error) => Err(error),
            Ok(sizes) => match message::spec_message_size(
                inputs[count - 1].message,
                inputs[count - 1].attachments@,
                messages[count - 1],
                row_version,
            ) {
                Err(error) => Err(((count - 1) as nat, error)),
                Ok(size) => Ok(sizes.push(size)),
            },
        }
    }
}

proof fn lemma_sizes_fail(
    inputs: Seq<UnicodePstBatchMessage<'_>>,
    messages: Seq<NodeId>,
    row_version: u32,
    few: nat,
    count: nat,
)
    requires
        few <= count,
        sizes_of(inputs, messages, row_version, few) is Err,
    ensures
        sizes_of(inputs, messages, row_version, count) == sizes_of(
            inputs,
            messages,
            row_version,
            few,
        ),
    decreases count,
{
    if few < count {
        lemma_sizes_fail(inputs, messages, row_version, few, (count - 1) as nat);
    }
}

/// An error, and the position of the message that it is about.
#[derive(Debug)]
pub struct MessageError {
    pub position: usize,
    pub error: PstError,
}

/// The sizes of new messages. An error comes with the position of its message.
pub fn message_sizes(
    inputs: &[UnicodePstBatchMessage<'_>],
    messages: &Vec<NodeId>,
    row_version: u32,
) -> (sizes: Result<Vec<i32>, MessageError>)
    requires
        messages@.len() == inputs@.len(),
    ensures
        match sizes_of(inputs@, messages@, row_version, inputs@.len()) {
            Ok(expected) => sizes matches Ok(sizes) && sizes@ == expected,
            Err((position, error)) => sizes matches Err(found) && found.position == position
                && found.error == error,
        },
{
    let mut sizes: Vec<i32> = Vec::new();
    let mut i: usize = 0;
    while i < inputs.len()
        invariant
            i <= inputs@.len(),
            messages@.len() == inputs@.len(),
            sizes_of(inputs@, messages@, row_version, i as nat) == Ok::<_, (nat, PstError)>(
                sizes@,
            ),
        decreases inputs@.len() - i,
    {
        match message::message_size(
            &inputs[i].message,
            inputs[i].attachments,
            messages[i],
            row_version,
        ) {
            Ok(size) => {
                sizes.push(size);
            },
            Err(error) => {
                proof {
                    lemma_sizes_fail(
                        inputs@,
                        messages@,
                        row_version,
                        (i + 1) as nat,
                        inputs@.len(),
                    );
                }
                return Err(MessageError { position: i, error });
            },
        }
        i += 1;
    }
    Ok(sizes)
}

/// The nodes that an append replaces: the contents table of the folder, the folder, and the
/// hierarchy table of its parent, where it has a parent.
pub struct AppendNodes {
    pub contents: UnicodeNodeBTreeEntry,
    pub folder: UnicodeNodeBTreeEntry,
    pub parent_hierarchy: Option<UnicodeNodeBTreeEntry>,
}

/// The nodes that an append to `folder` replaces.
pub open spec fn append_nodes(entries: Seq<UnicodeNodeBTreeEntry>, folder: NodeId) -> Result<
    AppendNodes,
    PstError,
> {
    match NodeId::spec_new(NodeIdType::ContentsTable, folder.spec_index()) {
        Err(error) => Err(error),
        Ok(contents) => match (
            nodes::node_entry(entries, contents),
            nodes::node_entry(entries, folder),
        ) {
            (None, _) => Err(PstError::Io(IoError::ContentsNodeNotFound)),
            (Some(_), None) => Err(PstError::Io(IoError::TargetFolderNodeNotFound)),
            (Some(contents), Some(folder)) => match folder.parent {
                None => Ok(AppendNodes { contents, folder, parent_hierarchy: None }),
                Some(parent) => match hierarchy_entry(entries, parent) {
                    Err(error) => Err(error),
                    Ok(entry) => Ok(
                        AppendNodes { contents, folder, parent_hierarchy: Some(entry) },
                    ),
                },
            },
        },
    }
}

/// The entry of the hierarchy table of a folder that must have one.
pub open spec fn hierarchy_entry(entries: Seq<UnicodeNodeBTreeEntry>, folder: NodeId) -> Result<
    UnicodeNodeBTreeEntry,
    PstError,
> {
    match NodeId::spec_new(NodeIdType::HierarchyTable, folder.spec_index()) {
        Err(error) => Err(error),
        Ok(node) => match nodes::node_entry(entries, node) {
            Some(entry) => Ok(entry),
            None => Err(PstError::Io(IoError::ParentHierarchyNodeNotFound)),
        },
    }
}

/// The entry of the hierarchy table of a folder that must have one.
pub fn find_hierarchy_entry(
    nbt_entries: &Vec<UnicodeNodeBTreeEntry>,
    folder: NodeId,
) -> (entry: Result<UnicodeNodeBTreeEntry, PstError>)
    ensures
        entry == hierarchy_entry(nbt_entries@, folder),
{
    let node = NodeId::new(NodeIdType::HierarchyTable, folder.index())?;
    match nodes::find_node(nbt_entries, node) {
        Some(entry) => Ok(entry),
        None => Err(PstError::Io(IoError::ParentHierarchyNodeNotFound)),
    }
}

/// The nodes that an append to `folder` replaces.
pub fn find_append_nodes(
    nbt_entries: &Vec<UnicodeNodeBTreeEntry>,
    folder: NodeId,
) -> (found: Result<AppendNodes, PstError>)
    ensures
        found == append_nodes(nbt_entries@, folder),
{
    let contents_node = NodeId::new(NodeIdType::ContentsTable, folder.index())?;
    let contents: UnicodeNodeBTreeEntry = match nodes::find_node(nbt_entries, contents_node) {
        Some(entry) => entry,
        None => {
            return Err(PstError::Io(IoError::ContentsNodeNotFound));
        },
    };
    let folder: UnicodeNodeBTreeEntry = match nodes::find_node(nbt_entries, folder) {
        Some(entry) => entry,
        None => {
            return Err(PstError::Io(IoError::TargetFolderNodeNotFound));
        },
    };
    let parent_hierarchy: Option<UnicodeNodeBTreeEntry> = match folder.parent {
        None => None,
        Some(parent) => {
            let entry = find_hierarchy_entry(nbt_entries, parent)?;
            Some(entry)
        },
    };
    Ok(AppendNodes { contents, folder, parent_hierarchy })
}

/// The plan with a message: its properties, its recipients and its attachments. Its node stands
/// below the folder.
#[verifier::opaque]
pub open spec fn with_message(
    plan: BlockPlan,
    input: UnicodePstBatchMessage<'_>,
    message: NodeId,
    message_size: i32,
    folder: NodeId,
    row_version: u32,
) -> (BlockPlan, Result<UnicodeNodeBTreeEntry, PstError>) {
    match message::message_context(
        input.message,
        input.attachments@.len() > 0,
        message,
        row_version,
        message_size as u32,
    ) {
        Err(error) => (plan, Err(error)),
        Ok((pages, external)) => match data_tree::with_data_tree(plan, pages) {
            (after, Err(error)) => (after, Err(error)),
            (after, Ok(data)) => match with_message_subnodes(after, input, external, row_version) {
                (after, Err(error)) => (after, Err(error)),
                (after, Ok(subnodes)) => match subnode_tree::with_subnode_tree(after, subnodes) {
                    (after, Err(error)) => (after, Err(error)),
                    (after, Ok(root)) => (
                        after,
                        Ok(
                            UnicodeNodeBTreeEntry {
                                node: message,
                                data,
                                sub_node: Some(root),
                                parent: Some(folder),
                            },
                        ),
                    ),
                },
            },
        },
    }
}

/// The plan with the subnodes of a message: its recipient table, its large properties, its
/// attachment table and its attachments.
pub open spec fn with_message_subnodes(
    plan: BlockPlan,
    input: UnicodePstBatchMessage<'_>,
    external: Seq<(NodeId, Seq<u8>)>,
    row_version: u32,
) -> (BlockPlan, Result<Seq<UnicodeLeafSubNodeTreeEntry>, PstError>) {
    match attachment::with_recipient_table(plan, input.message.recipients@, row_version) {
        (after, Err(error)) => (after, Err(error)),
        (after, Ok((block, sub_node))) => match update::with_external(
            after,
            external,
            0,
            seq![
                UnicodeLeafSubNodeTreeEntry {
                    node: NodeId { value: NID_RECIPIENT_TABLE },
                    block,
                    sub_node,
                },
            ],
        ) {
            (after, Err(error)) => (after, Err(error)),
            (after, Ok(subnodes)) => attachment::with_attachments(
                after,
                input.attachments@,
                row_version,
                subnodes,
            ),
        },
    }
}

/// Adds the subnodes of a message.
fn push_message_subnodes(
    blocks: &mut Vec<NewBlock>,
    next_bid: &mut u64,
    next_offset: &mut u64,
    input: &UnicodePstBatchMessage<'_>,
    external: &Vec<(NodeId, Vec<u8>)>,
    row_version: u32,
) -> (result: Result<Vec<UnicodeLeafSubNodeTreeEntry>, PstError>)
    ensures
        (
            block::plan(final(blocks)@, *final(next_bid), *final(next_offset)),
            crate::error::result_view(result),
        ) == with_message_subnodes(
            block::plan(old(blocks)@, *old(next_bid), *old(next_offset)),
            *input,
            bytes::views(external@),
            row_version,
        ),
{
    let (block, sub_node) = attachment::push_recipient_table(
        blocks,
        next_bid,
        next_offset,
        input.message.recipients,
        row_version,
    )?;
    let mut subnodes: Vec<UnicodeLeafSubNodeTreeEntry> = Vec::new();
    subnodes.push(
        UnicodeLeafSubNodeTreeEntry::new(NodeId { value: NID_RECIPIENT_TABLE }, block, sub_node),
    );
    assert(subnodes@ =~= seq![
        UnicodeLeafSubNodeTreeEntry {
            node: NodeId { value: NID_RECIPIENT_TABLE },
            block,
            sub_node,
        },
    ]);
    update::push_external(blocks, next_bid, next_offset, external, &mut subnodes)?;
    attachment::push_attachments(
        blocks,
        next_bid,
        next_offset,
        input.attachments,
        row_version,
        &mut subnodes,
    )?;
    Ok(subnodes)
}

/// Adds a message and returns the entry of its node.
pub fn push_message(
    blocks: &mut Vec<NewBlock>,
    next_bid: &mut u64,
    next_offset: &mut u64,
    input: &UnicodePstBatchMessage<'_>,
    message: NodeId,
    message_size: i32,
    folder: NodeId,
    row_version: u32,
) -> (result: Result<UnicodeNodeBTreeEntry, PstError>)
    ensures
        (block::plan(final(blocks)@, *final(next_bid), *final(next_offset)), result)
            == with_message(
            block::plan(old(blocks)@, *old(next_bid), *old(next_offset)),
            *input,
            message,
            message_size,
            folder,
            row_version,
        ),
{
    reveal(with_message);
    let (pages, external) = message::message_data(
        &input.message,
        input.attachments,
        message,
        row_version,
        message_size,
    )?;
    let data = data_tree::push_data_tree_chunks(blocks, next_bid, next_offset, pages)?;
    let subnodes = push_message_subnodes(
        blocks,
        next_bid,
        next_offset,
        input,
        &external,
        row_version,
    )?;
    let root = subnode_tree::push_subnode_tree(blocks, next_bid, next_offset, subnodes)?;
    Ok(UnicodeNodeBTreeEntry::new(message, data, Some(root), Some(folder)))
}

/// An append that is under way: the header, the entries of the blocks so far, the next block and the
/// end of the file, and the entries of the messages so far.
pub struct AppendSession {
    pub header: Header,
    pub bbt_entries: Vec<UnicodeBlockBTreeEntry>,
    pub next_bid: u64,
    pub next_offset: u64,
    pub message_entries: Vec<UnicodeNodeBTreeEntry>,
}

/// The contents of an append that is under way.
#[verifier::ext_equal]
pub struct SessionContents {
    pub header: HeaderContents,
    pub block_entries: Seq<UnicodeBlockBTreeEntry>,
    pub next_bid: u64,
    pub next_offset: u64,
    pub message_entries: Seq<UnicodeNodeBTreeEntry>,
}

impl View for AppendSession {
    type V = SessionContents;

    open spec fn view(&self) -> SessionContents {
        SessionContents {
            header: self.header@,
            block_entries: self.bbt_entries@,
            next_bid: self.next_bid,
            next_offset: self.next_offset,
            message_entries: self.message_entries@,
        }
    }
}

impl SessionContents {
    /// No new blocks, behind those that the session has planned.
    pub open spec fn next_plan(self) -> BlockPlan {
        BlockPlan { blocks: Seq::empty(), next_bid: self.next_bid, next_offset: self.next_offset }
    }

    /// The session once the blocks of a plan have been written.
    pub open spec fn with_plan(self, plan: BlockPlan) -> SessionContents {
        SessionContents {
            block_entries: self.block_entries + commit::new_entries(plan.blocks),
            next_bid: plan.next_bid,
            next_offset: plan.next_offset,
            ..self
        }
    }
}

/// The start of an append: behind the blocks and the end of the file, with a header that says that
/// the allocation maps cannot be relied on.
pub open spec fn new_session(
    header: HeaderContents,
    block_entries: Seq<UnicodeBlockBTreeEntry>,
) -> SessionContents {
    SessionContents {
        header: commit::committing_header(header),
        block_entries,
        next_bid: nodes::next_block_index(header, block_entries),
        next_offset: header.root.file_eof_index,
        message_entries: Seq::empty(),
    }
}

/// The session with one more message, and the blocks of the message.
pub open spec fn with_next_message(
    session: SessionContents,
    input: UnicodePstBatchMessage<'_>,
    message: NodeId,
    message_size: i32,
    folder: NodeId,
) -> Result<(SessionContents, BlockPlan), PstError> {
    match with_message(
        session.next_plan(),
        input,
        message,
        message_size,
        folder,
        session.header.unique,
    ) {
        (_, Err(error)) => Err(error),
        (plan, Ok(entry)) => Ok(
            (
                SessionContents {
                    message_entries: session.message_entries.push(entry),
                    ..session.with_plan(plan)
                },
                plan,
            ),
        ),
    }
}

/// The session after a message that could not be planned: the numbers of blocks and the room that were
/// taken for it are not used again.
pub open spec fn with_failed_message(
    session: SessionContents,
    input: UnicodePstBatchMessage<'_>,
    message: NodeId,
    message_size: i32,
    folder: NodeId,
) -> SessionContents {
    let plan = with_message(
        session.next_plan(),
        input,
        message,
        message_size,
        folder,
        session.header.unique,
    ).0;
    SessionContents { next_bid: plan.next_bid, next_offset: plan.next_offset, ..session }
}

impl AppendSession {
    /// Begins an append. The header of the session is to be written before any block.
    pub fn new(header: Header, bbt_entries: Vec<UnicodeBlockBTreeEntry>) -> (session: AppendSession)
        ensures
            session@ == new_session(header@, bbt_entries@),
    {
        let next_bid: u64 = nodes::first_free_block(&header, &bbt_entries);
        let next_offset: u64 = header.root.file_eof_index;
        let mut header = header;
        commit::begin_commit(&mut header);
        AppendSession { header, bbt_entries, next_bid, next_offset, message_entries: Vec::new() }
    }

    /// Plans a message and returns its blocks, which are to be written.
    pub fn append_message(
        &mut self,
        input: &UnicodePstBatchMessage<'_>,
        message: NodeId,
        message_size: i32,
        folder: NodeId,
    ) -> (result: Result<Vec<NewBlock>, PstError>)
        ensures
            match with_next_message(old(self)@, *input, message, message_size, folder) {
                Ok((session, plan)) => final(self)@ == session && block_laws::plan_wf(plan) && (
                result matches Ok(blocks) && bytes::views(blocks@) == plan.blocks),
                Err(error) => (result matches Err(found) && found == error) && final(self)@
                    == with_failed_message(old(self)@, *input, message, message_size, folder),
            },
    {
        let mut blocks: Vec<NewBlock> = Vec::new();
        assert(bytes::views(blocks@) =~= Seq::empty());
        let row_version: u32 = self.header.unique;
        proof {
            message_laws::law_message_reads_back(
                self@.next_plan(),
                *input,
                message,
                message_size,
                folder,
                row_version,
            );
        }
        let entry = push_message(
            &mut blocks,
            &mut self.next_bid,
            &mut self.next_offset,
            input,
            message,
            message_size,
            folder,
            row_version,
        )?;
        commit::push_block_entries(&mut self.bbt_entries, &blocks);
        self.message_entries.push(entry);
        Ok(blocks)
    }
}

/// The index of the first subnode for a value of the contents table: behind the internal ones and
/// the one with the rows.
pub open spec fn next_contents_index(subnodes: Seq<NodeId>, rows_node: NodeId) -> u32 {
    let free = nodes::next_internal_index(subnodes);
    if free > rows_node.spec_index() {
        free
    } else {
        (rows_node.spec_index() + 1) as u32
    }
}

/// The index of the first subnode for a value of the contents table.
pub fn next_contents_subnode(
    subnodes: &Vec<UnicodeLeafSubNodeTreeEntry>,
    rows_node: NodeId,
) -> (index: u32)
    ensures
        index == next_contents_index(nodes::subnodes_of(subnodes@), rows_node),
{
    let free: u32 = nodes::next_internal_subnode(subnodes);
    if free > rows_node.index() {
        free
    } else {
        rows_node.index() + 1
    }
}

/// The folder that messages are appended to: its entry, its properties and its subnodes, its
/// contents table, and the hierarchy table of its parent, where it has a parent.
pub struct AppendTarget {
    pub folder: UnicodeNodeBTreeEntry,
    pub properties: Vec<(u16, PropertyValue)>,
    pub subnodes: Vec<UnicodeLeafSubNodeTreeEntry>,
    pub contents: TableNode,
    pub parent_hierarchy: Option<TableNode>,
}

/// The contents of the folder that messages are appended to.
#[verifier::ext_equal]
pub struct TargetContents {
    pub folder: UnicodeNodeBTreeEntry,
    pub properties: Seq<(u16, EncodedValue)>,
    pub subnodes: Seq<UnicodeLeafSubNodeTreeEntry>,
    pub contents: TableNodeContents,
    pub parent_hierarchy: Option<TableNodeContents>,
}

impl View for AppendTarget {
    type V = TargetContents;

    open spec fn view(&self) -> TargetContents {
        TargetContents {
            folder: self.folder,
            properties: bytes::views(self.properties@),
            subnodes: self.subnodes@,
            contents: self.contents@,
            parent_hierarchy: update::node_view(self.parent_hierarchy),
        }
    }
}

/// The plan with the contents table of a folder, and the entry of its node.
#[verifier::opaque]
pub open spec fn with_contents(
    plan: BlockPlan,
    contents: TableNodeContents,
    rebuilt: RebuiltContents,
    external: Seq<(NodeId, Seq<u8>)>,
) -> (BlockPlan, Result<UnicodeNodeBTreeEntry, PstError>) {
    match update::with_table_rows(plan, rebuilt, contents.rows_node, contents.subnodes) {
        (after, Err(error)) => (after, Err(error)),
        (after, Ok((data, subnodes))) => match update::with_external(after, external, 0, subnodes) {
            (after, Err(error)) => (after, Err(error)),
            (after, Ok(entries)) => match subnode_tree::with_subnode_tree(after, entries) {
                (after, Err(error)) => (after, Err(error)),
                (after, Ok(root)) => (
                    after,
                    Ok(UnicodeNodeBTreeEntry { data, sub_node: Some(root), ..contents.entry }),
                ),
            },
        },
    }
}

/// Adds the contents table of a folder and returns the entry of its node.
fn push_contents(
    blocks: &mut Vec<NewBlock>,
    next_bid: &mut u64,
    next_offset: &mut u64,
    contents: TableNode,
    rebuilt: RebuiltTable,
    external: &Vec<(NodeId, Vec<u8>)>,
) -> (result: Result<UnicodeNodeBTreeEntry, PstError>)
    ensures
        (block::plan(final(blocks)@, *final(next_bid), *final(next_offset)), result)
            == with_contents(
            block::plan(old(blocks)@, *old(next_bid), *old(next_offset)),
            contents@,
            rebuilt@,
            bytes::views(external@),
        ),
{
    reveal(with_contents);
    let mut subnodes = contents.subnodes;
    let data = update::push_table_rows(
        blocks,
        next_bid,
        next_offset,
        rebuilt,
        contents.rows_node,
        &mut subnodes,
    )?;
    update::push_external(blocks, next_bid, next_offset, external, &mut subnodes)?;
    let root = subnode_tree::push_subnode_tree(blocks, next_bid, next_offset, subnodes)?;
    Ok(UnicodeNodeBTreeEntry::new(contents.entry.node, data, Some(root), contents.entry.parent))
}

/// The update of a folder's row in the hierarchy table of its parent, once the folder holds `count`
/// messages.
pub open spec fn count_update(folder: NodeId, count: nat) -> UpdateContents {
    UpdateContents {
        row: folder,
        property: 0x3602,
        value: property::integer32_value(count as u32),
    }
}

/// The update of a folder's row once the folder holds `count` messages.
fn new_count_update(folder: NodeId, count: usize) -> (update: TableUpdate)
    requires
        count <= i32::MAX,
    ensures
        rebuild::update_view(Some(update)) == Some(
            count_update(folder, count as nat),
        ),
{
    TableUpdate { row: folder, property: 0x3602, value: property::integer32(count as u32) }
}

/// Whether the row of a folder in the hierarchy table of its parent, where it has one, can be written
/// anew with `count` messages. A count that is no number of messages is written nowhere.
pub open spec fn counted_row_fits(
    parent_hierarchy: Option<TableNodeContents>,
    folder: NodeId,
    count: nat,
    row_version: u32,
) -> bool {
    parent_hierarchy matches Some(parent) ==> count <= i32::MAX ==> update::update_fits(
        parent.table,
        row_version,
        count_update(folder, count),
    )
}

/// The plan with a folder that holds `count` messages and its row in the hierarchy table of its
/// parent, where it has a parent, and the entries of both.
#[verifier::opaque]
pub open spec fn with_counted_folder(
    plan: BlockPlan,
    folder: UnicodeNodeBTreeEntry,
    properties: Seq<(u16, EncodedValue)>,
    subnodes: Seq<UnicodeLeafSubNodeTreeEntry>,
    parent_hierarchy: Option<TableNodeContents>,
    count: nat,
    row_version: u32,
) -> (BlockPlan, Result<(UnicodeNodeBTreeEntry, Option<UnicodeNodeBTreeEntry>), PstError>) {
    if count > i32::MAX {
        (plan, Err(PstError::IntegerConversion))
    } else {
        let value = property::integer32_value(count as u32);
        match update::with_property_node(
            plan,
            folder::with_property(properties, 0x3602, value, 0),
            subnodes,
        ) {
            (after, Err(error)) => (after, Err(error)),
            (after, Ok((data, sub_node))) => {
                let entry = UnicodeNodeBTreeEntry { data, sub_node, ..folder };
                match parent_hierarchy {
                    None => (after, Ok((entry, None))),
                    Some(parent) => match update::with_updated_table(
                        after,
                        parent,
                        row_version,
                        count_update(folder.node, count),
                    ) {
                        (after, Err(error)) => (after, Err(error)),
                        (after, Ok(hierarchy)) => (after, Ok((entry, Some(hierarchy)))),
                    },
                }
            },
        }
    }
}

/// Adds a folder that holds `count` messages and its row in the hierarchy table of its parent, and
/// returns the entries of both.
fn push_counted_folder(
    blocks: &mut Vec<NewBlock>,
    next_bid: &mut u64,
    next_offset: &mut u64,
    folder: UnicodeNodeBTreeEntry,
    properties: Vec<(u16, PropertyValue)>,
    subnodes: Vec<UnicodeLeafSubNodeTreeEntry>,
    parent_hierarchy: Option<TableNode>,
    count: usize,
    row_version: u32,
) -> (result: Result<(UnicodeNodeBTreeEntry, Option<UnicodeNodeBTreeEntry>), PstError>)
    requires
        counted_row_fits(
            update::node_view(parent_hierarchy),
            folder.node,
            count as nat,
            row_version,
        ),
    ensures
        (block::plan(final(blocks)@, *final(next_bid), *final(next_offset)), result)
            == with_counted_folder(
            block::plan(old(blocks)@, *old(next_bid), *old(next_offset)),
            folder,
            bytes::views(properties@),
            subnodes@,
            update::node_view(parent_hierarchy),
            count as nat,
            row_version,
        ),
{
    reveal(with_counted_folder);
    if count > i32::MAX as usize {
        return Err(PstError::IntegerConversion);
    }
    let mut changed = properties;
    folder::set_folder_integer_property(&mut changed, 0x3602, count as i32);
    let (data, sub_node) = update::push_property_node(
        blocks,
        next_bid,
        next_offset,
        changed,
        subnodes,
    )?;
    let entry = UnicodeNodeBTreeEntry::new(folder.node, data, sub_node, folder.parent);
    match parent_hierarchy {
        None => Ok((entry, None)),
        Some(parent) => {
            let change = new_count_update(folder.node, count);
            let hierarchy = update::push_updated_table(
                blocks,
                next_bid,
                next_offset,
                parent,
                row_version,
                change,
            )?;
            Ok((entry, Some(hierarchy)))
        },
    }
}

/// The blocks and the nodes of an append. The contents table was rebuilt as `rebuilt`, with the values
/// `external` in subnodes.
#[verifier::opaque]
pub open spec fn finished_append(
    session: SessionContents,
    entries: Seq<UnicodeNodeBTreeEntry>,
    target: TargetContents,
    rebuilt: RebuiltContents,
    external: Seq<(NodeId, Seq<u8>)>,
) -> Result<(BlockPlan, Seq<UnicodeNodeBTreeEntry>), PstError> {
    match with_contents(session.next_plan(), target.contents, rebuilt, external) {
        (_, Err(error)) => Err(error),
        (after, Ok(contents)) => match with_counted_folder(
            after,
            target.folder,
            target.properties,
            target.subnodes,
            target.parent_hierarchy,
            rebuilt.row_ids.len(),
            session.header.unique,
        ) {
            (_, Err(error)) => Err(error),
            (after, Ok((folder, hierarchy))) => Ok(
                (
                    after,
                    nodes::replaced_nodes(entries, contents, folder, hierarchy, session.message_entries),
                ),
            ),
        },
    }
}

/// Plans the rest of an append, once the messages have been planned and the contents table has been
/// rebuilt as `rebuilt`, with the values `external` in subnodes.
pub fn finish_append(
    session: &AppendSession,
    nbt_entries: Vec<UnicodeNodeBTreeEntry>,
    target: AppendTarget,
    rebuilt: RebuiltTable,
    external: &Vec<(NodeId, Vec<u8>)>,
) -> (change: Result<ChangePlan, PstError>)
    requires
        counted_row_fits(
            target@.parent_hierarchy,
            target@.folder.node,
            rebuilt@.row_ids.len(),
            session@.header.unique,
        ),
    ensures
        crate::error::result_view(change) == finished_append(
            session@,
            nbt_entries@,
            target@,
            rebuilt@,
            bytes::views(external@),
        ),
        change matches Ok(change) ==> block_laws::plan_wf(change@.0),
{
    proof {
        append_laws::law_append_plan_is_well_formed(
            session@,
            nbt_entries@,
            target@,
            rebuilt@,
            bytes::views(external@),
        );
    }
    reveal(finished_append);
    let mut blocks: Vec<NewBlock> = Vec::new();
    assert(bytes::views(blocks@) =~= Seq::empty());
    let mut next_bid: u64 = session.next_bid;
    let mut next_offset: u64 = session.next_offset;
    let count: usize = rebuilt.row_ids.len();
    let contents = push_contents(
        &mut blocks,
        &mut next_bid,
        &mut next_offset,
        target.contents,
        rebuilt,
        external,
    )?;
    let (folder, hierarchy) = push_counted_folder(
        &mut blocks,
        &mut next_bid,
        &mut next_offset,
        target.folder,
        target.properties,
        target.subnodes,
        target.parent_hierarchy,
        count,
        session.header.unique,
    )?;
    let mut entries = nbt_entries;
    nodes::replace_nodes(&mut entries, contents, folder, hierarchy, &session.message_entries);
    Ok(ChangePlan { blocks, next_bid, next_offset, nbt_entries: entries })
}

/// Why an append could not be completed: the contents table could not be written anew, or something
/// after it could not be planned.
#[derive(Debug)]
pub enum AppendError {
    Contents(PstError),
    Plan(PstError),
}

/// The contents table of the folder with the messages of a batch, and the values that stand in subnodes.
pub open spec fn appended_contents(
    session: SessionContents,
    target: TargetContents,
    inputs: Seq<UnicodePstBatchMessage<'_>>,
    store_record_key: Seq<u8>,
    messages: Seq<NodeId>,
    message_sizes: Seq<i32>,
) -> Result<(RebuiltContents, Seq<(NodeId, Seq<u8>)>), PstError> {
    message::spec_rebuild_contents_table(
        target.contents.table,
        inputs,
        store_record_key,
        target.folder.node,
        messages,
        message_sizes,
        target.contents.rows_node,
        next_contents_index(
            nodes::subnodes_of(target.contents.subnodes),
            target.contents.rows_node,
        ),
        session.header.unique,
    )
}

/// The blocks and the nodes of an append of a batch whose messages have been planned: the contents table
/// with their rows, and the folder with the number of its rows.
pub open spec fn completed_append(
    session: SessionContents,
    entries: Seq<UnicodeNodeBTreeEntry>,
    target: TargetContents,
    inputs: Seq<UnicodePstBatchMessage<'_>>,
    store_record_key: Seq<u8>,
    messages: Seq<NodeId>,
    message_sizes: Seq<i32>,
) -> Result<(BlockPlan, Seq<UnicodeNodeBTreeEntry>), AppendError> {
    match appended_contents(session, target, inputs, store_record_key, messages, message_sizes) {
        Err(error) => Err(AppendError::Contents(error)),
        Ok((rebuilt, external)) => match finished_append(
            session,
            entries,
            target,
            rebuilt,
            external,
        ) {
            Err(error) => Err(AppendError::Plan(error)),
            Ok(change) => Ok(change),
        },
    }
}

/// Whether the tables of an append can be written anew: the rows that are encoded can hold their cells,
/// and the heap of the hierarchy table can be written to.
pub open spec fn append_fits(
    session: SessionContents,
    target: TargetContents,
    inputs: Seq<UnicodePstBatchMessage<'_>>,
    store_record_key: Seq<u8>,
    messages: Seq<NodeId>,
    message_sizes: Seq<i32>,
) -> bool {
    &&& message::contents_fit(
        target.contents.table,
        inputs,
        store_record_key,
        target.folder.node,
        messages,
        message_sizes,
        next_contents_index(
            nodes::subnodes_of(target.contents.subnodes),
            target.contents.rows_node,
        ),
        session.header.unique,
    )
    &&& counted_row_fits(
        target.parent_hierarchy,
        target.folder.node,
        target.contents.table.rows.len() + message::batch_count(inputs, messages, message_sizes),
        session.header.unique,
    )
}

/// Whether the row of a folder in the hierarchy table of its parent can be written anew, once the folder
/// holds `old` messages and `new` more.
fn can_count_messages(
    parent_hierarchy: &Option<TableNode>,
    folder: NodeId,
    old: usize,
    new: usize,
    row_version: u32,
) -> (can: bool)
    ensures
        can == counted_row_fits(
            update::node_view(*parent_hierarchy),
            folder,
            (old + new) as nat,
            row_version,
        ),
{
    match parent_hierarchy {
        Some(parent) => {
            let most: usize = i32::MAX as usize;
            old > most || new > most - old || update::can_update_table(
                &parent.table,
                row_version,
                new_count_update(folder, old + new),
            )
        },
        None => true,
    }
}

/// Whether the tables of an append can be written anew.
pub fn can_complete_append(
    session: &AppendSession,
    target: &AppendTarget,
    inputs: &[UnicodePstBatchMessage<'_>],
    store_record_key: &[u8; 16],
    messages: &Vec<NodeId>,
    message_sizes: &Vec<i32>,
) -> (can: bool)
    ensures
        can == append_fits(
            session@,
            target@,
            inputs@,
            store_record_key@,
            messages@,
            message_sizes@,
        ),
{
    let new: usize = if inputs.len() <= messages.len() && inputs.len() <= message_sizes.len() {
        inputs.len()
    } else if messages.len() <= message_sizes.len() {
        messages.len()
    } else {
        message_sizes.len()
    };
    let fits: bool = message::can_rebuild_contents_table(
        &target.contents.table,
        inputs,
        store_record_key,
        target.folder.node,
        messages,
        message_sizes,
        next_contents_subnode(&target.contents.subnodes, target.contents.rows_node),
        session.header.unique,
    );
    assert(target@.contents.table.rows.len() == target.contents.table.rows.len());
    fits && can_count_messages(
        &target.parent_hierarchy,
        target.folder.node,
        target.contents.table.rows.len(),
        new,
        session.header.unique,
    )
}

/// Plans the rest of an append, once its messages have been planned: the contents table with a row for
/// each of them, the folder with the number of its rows, and its row in the hierarchy table above.
pub fn complete_append(
    session: &AppendSession,
    nbt_entries: Vec<UnicodeNodeBTreeEntry>,
    target: AppendTarget,
    inputs: &[UnicodePstBatchMessage<'_>],
    store_record_key: &[u8; 16],
    messages: &Vec<NodeId>,
    message_sizes: &Vec<i32>,
) -> (change: Result<ChangePlan, AppendError>)
    requires
        append_fits(
            session@,
            target@,
            inputs@,
            store_record_key@,
            messages@,
            message_sizes@,
        ),
    ensures
        (match change {
            Ok(change) => Ok(change@),
            Err(error) => Err(error),
        }) == completed_append(
            session@,
            nbt_entries@,
            target@,
            inputs@,
            store_record_key@,
            messages@,
            message_sizes@,
        ),
        change matches Ok(change) ==> block_laws::plan_wf(change@.0),
{
    let next: u32 = next_contents_subnode(&target.contents.subnodes, target.contents.rows_node);
    proof {
        message::law_contents_row_count(
            target@.contents.table,
            inputs@,
            store_record_key@,
            target@.folder.node,
            messages@,
            message_sizes@,
            target@.contents.rows_node,
            next,
            session@.header.unique,
        );
    }
    match message::rebuild_contents_table(
        &target.contents.table,
        inputs,
        store_record_key,
        target.folder.node,
        messages,
        message_sizes,
        target.contents.rows_node,
        next,
        session.header.unique,
    ) {
        Err(error) => Err(AppendError::Contents(error)),
        Ok((rebuilt, external)) => match finish_append(
            session,
            nbt_entries,
            target,
            rebuilt,
            &external,
        ) {
            Err(error) => Err(AppendError::Plan(error)),
            Ok(change) => Ok(change),
        },
    }
}

/// The updates for the search index: one for every message.
pub open spec fn message_updates(folder: NodeId, messages: Seq<NodeId>) -> Seq<SearchUpdateData> {
    Seq::new(
        messages.len(),
        |i: int| SearchUpdateData::MessageAdded { parent: folder, message: messages[i] },
    )
}

/// The updates for the search index: one for every message.
pub fn new_message_updates(folder: NodeId, messages: &Vec<NodeId>) -> (updates: Vec<
    SearchUpdateData,
>)
    ensures
        updates@ == message_updates(folder, messages@),
{
    let ghost all = message_updates(folder, messages@);
    let mut updates: Vec<SearchUpdateData> = Vec::new();
    let mut i: usize = 0;
    while i < messages.len()
        invariant
            i <= messages@.len(),
            all == message_updates(folder, messages@),
            updates@ == all.take(i as int),
        decreases messages@.len() - i,
    {
        updates.push(SearchUpdateData::MessageAdded { parent: folder, message: messages[i] });
        i += 1;
        assert(updates@ =~= all.take(i as int));
    }
    assert(all.take(i as int) =~= all);
    updates
}

} // verus!
