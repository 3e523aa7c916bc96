//! Which nodes an append changes, which nodes new messages and folders get, and what their tables start with.

use vstd::prelude::*;

use crate::error::PstError;
use crate::ltp::row_table;
use crate::messaging::append;
use crate::messaging::append::AppendNodes;
use crate::messaging::create;
use crate::messaging::create::FolderNodes;
use crate::messaging::folder;
use crate::messaging::plan_laws;
use crate::ndb::block::BlockPlan;
use crate::ndb::block_laws;
use crate::ndb::btree::UnicodeNodeBTreeEntry;
use crate::ndb::header::HeaderContents;
use crate::ndb::ids::{NodeId, UnicodeBlockId};
use crate::ndb::nodes;

verus! {

/// The number of the node of a folder with another number of the type in its low five bits.
pub open spec fn sibling(folder: NodeId, id_type: int) -> int {
    folder.value - folder.value % 32 + id_type
}

/// An append to a folder changes the folder, its contents table, and the hierarchy table of the folder above, where
/// there is one above. All of them are in the list.
pub proof fn law_append_changes_nodes(
    entries: Seq<UnicodeNodeBTreeEntry>,
    folder: NodeId,
    found: AppendNodes,
)
    requires
        append::append_nodes(entries, folder) == Ok::<_, PstError>(found),
    ensures
        entries.contains(found.folder),
        found.folder.node == folder,
        entries.contains(found.contents),
        found.contents.node.value == sibling(folder, 0x0E),
        found.folder.parent is None ==> found.parent_hierarchy is None,
        found.folder.parent matches Some(parent) ==> (found.parent_hierarchy matches Some(above)
            && entries.contains(above) && above.node.value == sibling(parent, 0x0D)),
{
    let contents = NodeId { value: (folder.value / 32 * 32 + 0x0E) as u32 };
    nodes::law_node_entry(entries, contents);
    nodes::law_node_entry(entries, folder);
    if let Some(parent) = found.folder.parent {
        let above = NodeId { value: (parent.value / 32 * 32 + 0x0D) as u32 };
        nodes::law_node_entry(entries, above);
    }
}

/// The nodes of new messages are message nodes, whose type is 4, with consecutive indices.
pub proof fn law_message_nodes_are_consecutive(first: u32, count: nat, found: Seq<NodeId>)
    requires
        append::message_nodes(first, count) == Ok::<_, PstError>(found),
    ensures
        found.len() == count,
        forall|i: int|
            0 <= i < count ==> (#[trigger] found[i]).value == (first + i) * 32 + 4,
    decreases count,
{
    if count > 0 {
        let before = append::message_nodes(first, (count - 1) as nat)->Ok_0;
        law_message_nodes_are_consecutive(first, (count - 1) as nat, before);
        assert forall|i: int| 0 <= i < count implies (#[trigger] found[i]).value == (first + i)
            * 32 + 4 by {
            if i < count - 1 {
                assert(found[i] == before[i]);
            }
        }
    }
}

/// The nodes of a new folder have the types 2 for the folder, 0x0D for its hierarchy table, 0x0E for its contents table
/// and 0x0F for its table of associated contents, and one index.
pub proof fn law_folder_nodes_belong_together(
    header: HeaderContents,
    entries: Seq<UnicodeNodeBTreeEntry>,
    new: FolderNodes,
)
    requires
        create::new_folder_nodes(header, entries) == Ok::<_, PstError>(new),
    ensures
        new.folder.value % 32 == 2,
        new.hierarchy.value == sibling(new.folder, 0x0D),
        new.contents.value == sibling(new.folder, 0x0E),
        new.associated_contents.value == sibling(new.folder, 0x0F),
{
}

/// Whether a block is what a table of a new folder starts with: that of the template, where the file has the template,
/// and else a table without rows.
pub open spec fn starts_empty(
    plan: BlockPlan,
    entries: Seq<UnicodeNodeBTreeEntry>,
    template: u32,
    data: UnicodeBlockId,
) -> bool {
    ||| exists|i: int|
        0 <= i < entries.len() && (#[trigger] entries[i]).node.value == template && entries[i].data
            == data
    ||| (forall|i: int| 0 <= i < entries.len() ==> (#[trigger] entries[i]).node.value != template)
        && (row_table::row_table(Seq::empty()) matches Ok(table) && plan_laws::data_reads(
        plan,
        data,
        table,
    ))
}

proof fn lemma_empty_table(
    plan: BlockPlan,
    entries: Seq<UnicodeNodeBTreeEntry>,
    template: u32,
)
    requires
        block_laws::plan_wf(plan),
    ensures
        ({
            let (after, result) = create::with_empty_table(
                plan,
                create::data_of(entries, template),
            );
            &&& block_laws::plan_wf(after)
            &&& block_laws::plan_grows(plan, after)
            &&& result matches Ok(data) ==> starts_empty(after, entries, template, data)
        }),
{
    assert(plan.blocks.take(plan.blocks.len() as int) =~= plan.blocks);
    nodes::law_node_entry(entries, NodeId { value: template });
    match nodes::node_entry(entries, NodeId { value: template }) {
        Some(entry) => {
            let i = choose|i: int| 0 <= i < entries.len() && entries[i] == entry;
            assert(entries[i].node.value == template);
        },
        None => {
            reveal(create::with_data_block);
            if let Ok(table) = row_table::row_table(Seq::empty()) {
                plan_laws::lemma_data_block(plan, table);
            }
        },
    }
}

proof fn lemma_starts_empty_grows(
    before: BlockPlan,
    after: BlockPlan,
    entries: Seq<UnicodeNodeBTreeEntry>,
    template: u32,
    data: UnicodeBlockId,
)
    requires
        block_laws::plan_wf(before),
        block_laws::plan_grows(before, after),
        starts_empty(before, entries, template, data),
    ensures
        starts_empty(after, entries, template, data),
{
    if let Ok(table) = row_table::row_table(Seq::empty()) {
        if plan_laws::data_reads(before, data, table) {
            plan_laws::lemma_data_reads_grows(before, after, data, table);
        }
    }
}

/// A new folder stands below its parent, and has a hierarchy table, a contents table and a table of associated contents
/// without rows.
pub proof fn law_new_folder_has_tables(
    plan: BlockPlan,
    entries: Seq<UnicodeNodeBTreeEntry>,
    new: FolderNodes,
    parent: NodeId,
    name: Seq<char>,
)
    requires
        block_laws::plan_wf(plan),
    ensures
        ({
            let (after, result) = create::with_folder(plan, entries, new, parent, name);
            result matches Ok(added) ==> {
                &&& added.len() == 4
                &&& added[0].node == new.folder && added[0].parent == Some(parent)
                &&& added[1].node == new.hierarchy && starts_empty(
                    after,
                    entries,
                    0x60D,
                    added[1].data,
                )
                &&& added[2].node == new.contents && starts_empty(
                    after,
                    entries,
                    0x60E,
                    added[2].data,
                )
                &&& added[3].node == new.associated_contents && starts_empty(
                    after,
                    entries,
                    0x60F,
                    added[3].data,
                )
                &&& forall|i: int| 0 <= i < 4 ==> (#[trigger] added[i]).sub_node is None
                &&& forall|i: int| 1 <= i < 4 ==> (#[trigger] added[i]).parent is None
            }
        }),
{
    reveal(create::with_folder);
    let context = folder::folder_context(name, 0, false);
    let (first, result) = create::with_data_block(plan, context);
    assert(block_laws::plan_wf(first)) by {
        reveal(create::with_data_block);
        if let Ok(data) = context {
            plan_laws::lemma_data_block(plan, data);
        }
    }
    if result is Ok {
        lemma_empty_table(first, entries, 0x60D);
        let (second, hierarchy) = create::with_empty_table(
            first,
            create::data_of(entries, 0x60D),
        );
        if hierarchy is Ok {
            lemma_empty_table(second, entries, 0x60E);
            let (third, contents) = create::with_empty_table(
                second,
                create::data_of(entries, 0x60E),
            );
            if contents is Ok {
                lemma_empty_table(third, entries, 0x60F);
                let (fourth, associated) = create::with_empty_table(
                    third,
                    create::data_of(entries, 0x60F),
                );
                lemma_starts_empty_grows(second, third, entries, 0x60D, hierarchy->Ok_0);
                lemma_starts_empty_grows(third, fourth, entries, 0x60D, hierarchy->Ok_0);
                lemma_starts_empty_grows(third, fourth, entries, 0x60E, contents->Ok_0);
            }
        }
    }
}

} // verus!
