//! Which nodes new things get, and which values leave the heap.

use vstd::prelude::*;

use crate::error::PstError;
use crate::ltp::property::{EncodedValue, PropertyType};
use crate::ltp::property_context;
use crate::ltp::property_context::PlacedProperties;
use crate::ltp::table::CellContents;
use crate::messaging::append;
use crate::messaging::attachment;
use crate::messaging::input::{UnicodePstAttachment, UnicodePstMessage};
use crate::messaging::message;
use crate::messaging::message::MovedCells;
use crate::messaging::node_laws;
use crate::ndb::btree::{UnicodeBlockBTreeEntry, UnicodeNodeBTreeEntry};
use crate::ndb::header::{HeaderContents, NdbCryptMethod};
use crate::ndb::ids::{NodeId, NodeIdType};
use crate::ndb::nodes;
use crate::ndb::template;

verus! {

/// The next index of a node type is behind every index of that type in use, and not before the one in the header. It is
/// the first such index, but for a file without nodes of that type, where it is also behind `least`.
pub proof fn law_next_index_is_the_first(
    header: HeaderContents,
    nodes: Seq<NodeId>,
    id_type: NodeIdType,
    least: u32,
)
    requires
        least < u32::MAX,
    ensures
        ({
            let next = nodes::next_index(header, nodes, id_type, least);
            &&& next >= header.next_node_index(id_type)
            &&& forall|i: int|
                0 <= i < nodes.len() && (#[trigger] nodes[i]).has_type(id_type)
                    ==> nodes[i].spec_index() < next
            &&& next == header.next_node_index(id_type) || (exists|i: int|
                0 <= i < nodes.len() && (#[trigger] nodes[i]).has_type(id_type)
                    && nodes[i].spec_index() + 1 == next) || (next == least + 1 && forall|i: int|
                0 <= i < nodes.len() ==> !(#[trigger] nodes[i]).has_type(id_type))
            &&& (forall|i: int| 0 <= i < nodes.len() ==> !(#[trigger] nodes[i]).has_type(id_type))
                ==> next > least
        }),
{
    nodes::law_largest_index(nodes, id_type);
    if let Some(index) = nodes::largest_index(nodes, id_type) {
        let i = choose|i: int|
            0 <= i < nodes.len() && (#[trigger] nodes[i]).has_type(id_type)
                && nodes[i].spec_index() == index;
        assert(nodes[i].has_type(id_type));
    } else {
        assert forall|i: int| 0 <= i < nodes.len() implies !(#[trigger] nodes[i]).has_type(
            id_type,
        ) by {
            if nodes[i].has_type(id_type) {
                assert(nodes::is_at_most(nodes[i].spec_index(), None));
            }
        }
    }
}

/// New messages get message nodes behind all that the file has. The first message of a file gets an index above 0x3F.
pub proof fn law_message_nodes_are_behind(
    header: HeaderContents,
    entries: Seq<UnicodeNodeBTreeEntry>,
    count: nat,
    found: Seq<NodeId>,
    index: int,
)
    requires
        append::new_message_nodes(header, entries, count) == Ok::<_, PstError>(found),
        0 <= index < count,
    ensures
        found.len() == count,
        found[index].value % 32 == 4,
        found[index].value / 32 == found[0].value / 32 + index,
        forall|i: int|
            0 <= i < entries.len() && (#[trigger] entries[i]).node.value % 32 == 4
                ==> entries[i].node.value < found[index].value,
        (forall|i: int| 0 <= i < entries.len() ==> (#[trigger] entries[i]).node.value % 32 != 4)
            ==> found[index].value / 32 > 0x3F,
        found[0].value / 32 == header.next_node_index(NodeIdType::NormalMessage) || found[0].value
            / 32 == 0x40 || exists|i: int|
            0 <= i < entries.len() && (#[trigger] entries[i]).node.value + 32 == found[0].value,
{
    let all = nodes::nodes_of(entries);
    let first = nodes::next_index(header, all, NodeIdType::NormalMessage, 0x3F);
    law_next_index_is_the_first(header, all, NodeIdType::NormalMessage, 0x3F);
    node_laws::law_message_nodes_are_consecutive(first, count, found);
    assert(found[0].value == first * 32 + 4);
    assert(found[index].value == (first + index) * 32 + 4);
    assert forall|i: int|
        0 <= i < entries.len() && (#[trigger] entries[i]).node.value % 32
            == 4 implies entries[i].node.value < found[index].value by {
        assert(all[i] == entries[i].node);
        assert(all[i].has_type(NodeIdType::NormalMessage));
    }
    if forall|i: int| 0 <= i < entries.len() ==> (#[trigger] entries[i]).node.value % 32 != 4 {
        assert forall|i: int| 0 <= i < all.len() implies !(#[trigger] all[i]).has_type(
            NodeIdType::NormalMessage,
        ) by {
            assert(entries[i].node.value % 32 != 4);
        }
    }
    if exists|i: int|
        0 <= i < all.len() && (#[trigger] all[i]).has_type(NodeIdType::NormalMessage)
            && all[i].spec_index() + 1 == first {
        let i = choose|i: int|
            0 <= i < all.len() && (#[trigger] all[i]).has_type(NodeIdType::NormalMessage)
                && all[i].spec_index() + 1 == first;
        assert(entries[i].node.value + 32 == found[0].value);
    }
}

/// The attachments of a message get attachment nodes, whose type is 5, from index 0x100 on, and their data internal nodes,
/// whose type is 1, from index 0x200 on. An attachment without data has no node for it.
pub proof fn law_attachment_nodes(
    input: UnicodePstAttachment<'_>,
    count: nat,
    ids: Seq<NodeId>,
    index: int,
)
    requires
        attachment::spec_attachment_ids(count) == Ok::<_, PstError>(ids),
        0 <= index < count,
    ensures
        ids.len() == count,
        ids[index].value == (0x100 + index) * 32 + 5,
        match attachment::data_node(input, index) {
            Ok(None) => input.data@.len() == 0,
            Ok(Some(node)) => input.data@.len() > 0 && node.value == (0x200 + index) * 32 + 1,
            Err(_) => input.data@.len() > 0 && 0x200 + index >= 0x800_0000,
        },
{
}

/// A value of more than 8164 bytes stands in a subnode of its own, and any other in the heap or in its record.
pub proof fn law_large_values_leave_the_heap(
    placed: PlacedProperties,
    id: u16,
    value: EncodedValue,
    after: PlacedProperties,
)
    requires
        property_context::with_property(placed, id, value) == Ok::<_, PstError>(after),
        value.prop_type == PropertyType::Unicode || value.prop_type == PropertyType::Binary,
    ensures
        value.data.len() > 8164 ==> after.pages == placed.pages && after.external.len()
            == placed.external.len() + 1 && after.external.last().1 == value.data,
        value.data.len() <= 8164 ==> after.external == placed.external,
{
}

/// The values of cells with more than 8164 bytes are moved to subnodes. Every other cell stays as it is.
pub proof fn law_large_cells_are_moved(moved: MovedCells, index: int, after: MovedCells, cell: int)
    requires
        message::with_moved_cells(moved, index) == Ok::<_, PstError>(after),
        0 <= index,
        0 <= cell < moved.cells.len(),
    ensures
        after.cells.len() == moved.cells.len(),
        match moved.cells[cell] {
            Some(CellContents::Bytes(data)) => if cell >= index && data.len() > 8164 {
                after.cells[cell] is Some && after.cells[cell]->Some_0 is Node
            } else {
                after.cells[cell] == moved.cells[cell]
            },
            _ => after.cells[cell] == moved.cells[cell],
        },
    decreases moved.cells.len() - index,
{
    if index < moved.cells.len() {
        match moved.cells[index] {
            Some(CellContents::Bytes(data)) if data.len() > 8164 => {
                let node = NodeId::spec_new(NodeIdType::Internal, moved.next_index)->Ok_0;
                law_large_cells_are_moved(
                    MovedCells {
                        cells: moved.cells.update(index, Some(CellContents::Node(node))),
                        external: moved.external.push((node, data)),
                        next_index: (moved.next_index + 1) as u32,
                    },
                    index + 1,
                    after,
                    cell,
                );
            },
            _ => {
                law_large_cells_are_moved(moved, index + 1, after, cell);
            },
        }
    }
}

/// The rows of a table stay in the node that has them. Rows that stand in the heap, or that there were none of, get an
/// internal node, whose type is 1, behind all that the table has.
pub proof fn law_rows_get_a_node(rows: Option<NodeId>, subnodes: Seq<NodeId>, node: NodeId)
    requires
        nodes::rows_node(rows, subnodes) == Ok::<_, PstError>(node),
    ensures
        rows matches Some(old) && old.value % 32 != 0 ==> node == rows->Some_0,
        rows is None || (rows->Some_0).value % 32 == 0 ==> node.value % 32 == 1 && node.value >= 33
            && !subnodes.contains(node) && forall|i: int|
            0 <= i < subnodes.len() && (#[trigger] subnodes[i]).value % 32 == 1
                ==> subnodes[i].value < node.value,
{
    nodes::law_largest_index(subnodes, NodeIdType::Internal);
    if rows is None || (rows->Some_0).value % 32 == 0 {
        assert forall|i: int|
            0 <= i < subnodes.len() && (#[trigger] subnodes[i]).value % 32
                == 1 implies subnodes[i].value < node.value by {
            assert(subnodes[i].has_type(NodeIdType::Internal));
        }
        if subnodes.contains(node) {
            assert(subnodes[subnodes.index_of(node)] == node);
        }
    }
}

/// The subnodes for values of a contents table are behind all internal nodes that the table has, and behind the node
/// with its rows.
pub proof fn law_contents_subnodes_are_behind(subnodes: Seq<NodeId>, rows: NodeId)
    ensures
        append::next_contents_index(subnodes, rows) > rows.value / 32,
        append::next_contents_index(subnodes, rows) >= 1,
        forall|i: int|
            0 <= i < subnodes.len() && (#[trigger] subnodes[i]).value % 32 == 1
                ==> subnodes[i].value / 32 < append::next_contents_index(subnodes, rows),
        append::next_contents_index(subnodes, rows) == rows.value / 32 + 1
            || append::next_contents_index(subnodes, rows) == 1 || exists|i: int|
            0 <= i < subnodes.len() && (#[trigger] subnodes[i]).value / 32 + 1
                == append::next_contents_index(subnodes, rows),
{
    nodes::law_largest_index(subnodes, NodeIdType::Internal);
    assert forall|i: int|
        0 <= i < subnodes.len() && (#[trigger] subnodes[i]).value % 32
            == 1 implies subnodes[i].value / 32 < append::next_contents_index(subnodes, rows) by {
        assert(subnodes[i].has_type(NodeIdType::Internal));
    }
    if let Some(index) = nodes::largest_index(subnodes, NodeIdType::Internal) {
        let i = choose|i: int|
            0 <= i < subnodes.len() && (#[trigger] subnodes[i]).has_type(NodeIdType::Internal)
                && subnodes[i].spec_index() == index;
        assert(subnodes[i].value / 32 == index);
    }
}

/// New blocks get indices behind all blocks of the file, from 1 on, and not before the one in the header. The first is
/// the first such index.
pub proof fn law_next_block_is_the_first(
    header: HeaderContents,
    entries: Seq<UnicodeBlockBTreeEntry>,
)
    ensures
        ({
            let next = nodes::next_block_index(header, entries);
            &&& next >= 1
            &&& next >= header.next_block.value / 4
            &&& forall|i: int|
                0 <= i < entries.len() ==> (#[trigger] entries[i]).block.block.value / 4 < next
            &&& next == 1 || next == header.next_block.value / 4 || exists|i: int|
                0 <= i < entries.len() && (#[trigger] entries[i]).block.block.value / 4 + 1 == next
        }),
    decreases entries.len(),
{
    if entries.len() > 0 {
        let rest = entries.drop_last();
        law_next_block_is_the_first(header, rest);
        let next = nodes::next_block_index(header, entries);
        assert forall|i: int| 0 <= i < entries.len() implies (
        #[trigger] entries[i]).block.block.value / 4 < next by {
            if i < rest.len() {
                assert(rest[i] == entries[i]);
            }
        }
        assert(entries[entries.len() - 1] == entries.last());
        if exists|i: int|
            0 <= i < rest.len() && (#[trigger] rest[i]).block.block.value / 4 + 1
                == nodes::next_block_index(header, rest) {
            let i = choose|i: int|
                0 <= i < rest.len() && (#[trigger] rest[i]).block.block.value / 4 + 1
                    == nodes::next_block_index(header, rest);
            assert(entries[i] == rest[i]);
        }
    }
}

/// A file that is made from a template only differs in its header in that its data blocks have no encoding.
pub proof fn law_plain_header(header: HeaderContents)
    ensures
        template::plain_header(header).crypt_method == NdbCryptMethod::Plain,
        template::plain_header(header).root == header.root,
        template::plain_header(header).unique == header.unique,
        template::plain_header(header).next_block == header.next_block,
        template::plain_header(header).next_page == header.next_page,
        template::plain_header(header).next_nodes == header.next_nodes,
{
}

/// Whether values in subnodes have internal nodes, whose type is 1, of consecutive indices from `first` on.
pub open spec fn are_consecutive(external: Seq<(NodeId, Seq<u8>)>, first: int) -> bool {
    forall|i: int|
        0 <= i < external.len() ==> (#[trigger] external[i]).0.value == (first + i) * 32 + 1
}

proof fn lemma_external_nodes(
    placed: PlacedProperties,
    properties: Seq<(u16, EncodedValue)>,
    index: int,
    first: int,
)
    requires
        0 <= index,
        placed.next_index == first + placed.external.len(),
        are_consecutive(placed.external, first),
    ensures
        property_context::with_properties(placed, properties, index) matches Ok(after)
            ==> are_consecutive(after.external, first),
    decreases properties.len() - index,
{
    if index < properties.len() {
        if let Ok(next) = property_context::with_property(
            placed,
            properties[index].0,
            properties[index].1,
        ) {
            assert(are_consecutive(next.external, first));
            lemma_external_nodes(next, properties, index + 1, first);
        }
    }
}

proof fn lemma_context_nodes(
    properties: Seq<(u16, EncodedValue)>,
    first: u32,
    pages: Seq<Seq<u8>>,
    external: Seq<(NodeId, Seq<u8>)>,
)
    requires
        property_context::spec_property_context_pages(properties, first) == Ok::<_, PstError>(
            (pages, external),
        ),
    ensures
        are_consecutive(external, first as int),
{
    reveal(property_context::spec_property_context_pages);
    lemma_external_nodes(property_context::no_properties(first), properties, 0, first as int);
}

/// The large values of a message stand in internal nodes from index 0x80 on.
pub proof fn law_message_values_have_nodes(
    input: UnicodePstMessage<'_>,
    has_attachments: bool,
    node: NodeId,
    row_version: u32,
    message_size: u32,
    pages: Seq<Seq<u8>>,
    external: Seq<(NodeId, Seq<u8>)>,
)
    requires
        message::message_context(input, has_attachments, node, row_version, message_size) == Ok::<
            _,
            PstError,
        >((pages, external)),
    ensures
        are_consecutive(external, 0x80),
{
    let properties = message::message_properties(
        input,
        has_attachments,
        node,
        row_version,
        message_size,
    );
    lemma_context_nodes(properties, 0x80, pages, external);
}

} // verus!
