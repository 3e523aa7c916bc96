//! Lists of nodes and subnodes: finding, replacing and numbering them.

use vstd::prelude::*;

use crate::error::PstError;
use crate::ndb::block::UnicodeLeafSubNodeTreeEntry;
use crate::ndb::btree::{UnicodeBlockBTreeEntry, UnicodeNodeBTreeEntry};
use crate::ndb::header::{Header, HeaderContents};
use crate::ndb::ids::{NodeId, NodeIdType};

verus! {

/// The first entry of a node.
pub open spec fn node_entry(entries: Seq<UnicodeNodeBTreeEntry>, node: NodeId) -> Option<
    UnicodeNodeBTreeEntry,
>
    decreases entries.len(),
{
    if entries.len() == 0 {
        None
    } else if entries[0].node == node {
        Some(entries[0])
    } else {
        node_entry(entries.skip(1), node)
    }
}

/// The first entry of a node.
pub fn find_node(entries: &Vec<UnicodeNodeBTreeEntry>, node: NodeId) -> (entry: Option<
    UnicodeNodeBTreeEntry,
>)
    ensures
        entry == node_entry(entries@, node),
{
    assert(entries@.skip(0) =~= entries@);
    let mut i: usize = 0;
    while i < entries.len()
        invariant
            i <= entries@.len(),
            node_entry(entries@, node) == node_entry(entries@.skip(i as int), node),
        decreases entries@.len() - i,
    {
        if entries[i].node == node {
            return Some(entries[i]);
        }
        assert(entries@.skip(i as int).skip(1) =~= entries@.skip(i + 1));
        i += 1;
    }
    None
}

/// The entry that is found is one of the list and is that of the node, and where none is found the
/// list has none.
pub proof fn law_node_entry(entries: Seq<UnicodeNodeBTreeEntry>, node: NodeId)
    ensures
        match node_entry(entries, node) {
            Some(entry) => entry.node == node && entries.contains(entry),
            None => forall|i: int| 0 <= i < entries.len() ==> (#[trigger] entries[i]).node != node,
        },
    decreases entries.len(),
{
    if entries.len() > 0 && entries[0].node != node {
        law_node_entry(entries.skip(1), node);
        match node_entry(entries.skip(1), node) {
            Some(entry) => {
                let i = choose|i: int|
                    0 <= i < entries.skip(1).len() && entries.skip(1)[i] == entry;
                assert(entries[i + 1] == entry);
            },
            None => {
                assert forall|i: int| 0 <= i < entries.len() implies (
                #[trigger] entries[i]).node != node by {
                    if i > 0 {
                        assert(entries.skip(1)[i - 1] == entries[i]);
                    }
                }
            },
        }
    }
}

/// The list without the entries of a node.
pub open spec fn without_node(
    entries: Seq<UnicodeNodeBTreeEntry>,
    node: NodeId,
) -> Seq<UnicodeNodeBTreeEntry> {
    entries.filter(|entry: UnicodeNodeBTreeEntry| entry.node != node)
}

/// The list without the entries of a subnode.
pub open spec fn without_subnode(
    entries: Seq<UnicodeLeafSubNodeTreeEntry>,
    node: NodeId,
) -> Seq<UnicodeLeafSubNodeTreeEntry> {
    entries.filter(|entry: UnicodeLeafSubNodeTreeEntry| entry.node != node)
}

/// The items before `index + 1` that satisfy `keep` are those before `index`, and the item at
/// `index` where it does.
proof fn lemma_filter_step<T>(items: Seq<T>, keep: spec_fn(T) -> bool, index: int)
    requires
        0 <= index < items.len(),
    ensures
        items.take(index + 1).filter(keep) == if keep(items[index]) {
            items.take(index).filter(keep).push(items[index])
        } else {
            items.take(index).filter(keep)
        },
{
    reveal(Seq::filter);
    assert(items.take(index + 1).drop_last() =~= items.take(index));
}

/// Removes the entries of a node.
pub fn remove_node(entries: &mut Vec<UnicodeNodeBTreeEntry>, node: NodeId)
    ensures
        final(entries)@ == without_node(old(entries)@, node),
{
    let ghost all = entries@;
    let ghost keep = |entry: UnicodeNodeBTreeEntry| entry.node != node;
    let mut kept: Vec<UnicodeNodeBTreeEntry> = Vec::new();
    let mut i: usize = 0;
    reveal(Seq::filter);
    assert(all.take(0) =~= Seq::empty());
    while i < entries.len()
        invariant
            i <= all.len(),
            entries@ == all,
            keep == (|entry: UnicodeNodeBTreeEntry| entry.node != node),
            kept@ == all.take(i as int).filter(keep),
        decreases all.len() - i,
    {
        proof {
            lemma_filter_step(all, keep, i as int);
        }
        if entries[i].node != node {
            kept.push(entries[i]);
        }
        i += 1;
    }
    assert(all.take(all.len() as int) =~= all);
    *entries = kept;
}

/// Removes the entries of a subnode.
pub fn remove_subnode(entries: &mut Vec<UnicodeLeafSubNodeTreeEntry>, node: NodeId)
    ensures
        final(entries)@ == without_subnode(old(entries)@, node),
{
    let ghost all = entries@;
    let ghost keep = |entry: UnicodeLeafSubNodeTreeEntry| entry.node != node;
    let mut kept: Vec<UnicodeLeafSubNodeTreeEntry> = Vec::new();
    let mut i: usize = 0;
    reveal(Seq::filter);
    assert(all.take(0) =~= Seq::empty());
    while i < entries.len()
        invariant
            i <= all.len(),
            entries@ == all,
            keep == (|entry: UnicodeLeafSubNodeTreeEntry| entry.node != node),
            kept@ == all.take(i as int).filter(keep),
        decreases all.len() - i,
    {
        proof {
            lemma_filter_step(all, keep, i as int);
        }
        if entries[i].node != node {
            kept.push(entries[i]);
        }
        i += 1;
    }
    assert(all.take(all.len() as int) =~= all);
    *entries = kept;
}

/// Removing a node keeps the entries of every other node and leaves none of its own.
pub proof fn law_without_node(
    entries: Seq<UnicodeNodeBTreeEntry>,
    node: NodeId,
    entry: UnicodeNodeBTreeEntry,
)
    ensures
        without_node(entries, node).contains(entry) <==> entries.contains(entry) && entry.node
            != node,
    decreases entries.len(),
{
    reveal(Seq::filter);
    let keep = |entry: UnicodeNodeBTreeEntry| entry.node != node;
    if entries.len() > 0 {
        let rest = entries.drop_last();
        law_without_node(rest, node, entry);
        let kept = rest.filter(keep);
        if entries.contains(entry) {
            let i = entries.index_of(entry);
            if i < rest.len() {
                assert(rest[i] == entry);
            }
        }
        if rest.contains(entry) {
            assert(entries[rest.index_of(entry)] == entry);
        }
        assert(entries.contains(entries.last())) by {
            assert(entries[entries.len() - 1] == entries.last());
        }
        let grown = kept.push(entries.last());
        assert(grown[kept.len() as int] == entries.last());
        if kept.contains(entry) {
            assert(grown[kept.index_of(entry)] == entry);
        }
        if grown.contains(entry) && entry != entries.last() {
            assert(kept[grown.index_of(entry)] == entry);
        }
    }
}

/// Removing a subnode keeps the entries of every other subnode and leaves none of its own.
pub proof fn law_without_subnode(
    entries: Seq<UnicodeLeafSubNodeTreeEntry>,
    node: NodeId,
    entry: UnicodeLeafSubNodeTreeEntry,
)
    ensures
        without_subnode(entries, node).contains(entry) <==> entries.contains(entry) && entry.node
            != node,
    decreases entries.len(),
{
    reveal(Seq::filter);
    let keep = |entry: UnicodeLeafSubNodeTreeEntry| entry.node != node;
    if entries.len() > 0 {
        let rest = entries.drop_last();
        law_without_subnode(rest, node, entry);
        let kept = rest.filter(keep);
        if entries.contains(entry) {
            let i = entries.index_of(entry);
            if i < rest.len() {
                assert(rest[i] == entry);
            }
        }
        if rest.contains(entry) {
            assert(entries[rest.index_of(entry)] == entry);
        }
        assert(entries.contains(entries.last())) by {
            assert(entries[entries.len() - 1] == entries.last());
        }
        let grown = kept.push(entries.last());
        assert(grown[kept.len() as int] == entries.last());
        if kept.contains(entry) {
            assert(grown[kept.index_of(entry)] == entry);
        }
        if grown.contains(entry) && entry != entries.last() {
            assert(kept[grown.index_of(entry)] == entry);
        }
    }
}

/// The larger of an index that may be missing and the index of a node, where the node is of the
/// given type.
pub open spec fn larger_index(largest: Option<u32>, node: NodeId, id_type: NodeIdType) -> Option<
    u32,
> {
    if !node.has_type(id_type) {
        largest
    } else {
        match largest {
            Some(index) if index >= node.spec_index() => Some(index),
            _ => Some(node.spec_index()),
        }
    }
}

/// The largest index among the nodes of a type.
pub open spec fn largest_index(nodes: Seq<NodeId>, id_type: NodeIdType) -> Option<u32>
    decreases nodes.len(),
{
    if nodes.len() == 0 {
        None
    } else {
        larger_index(largest_index(nodes.drop_last(), id_type), nodes.last(), id_type)
    }
}

/// Whether there is a largest index and `index` is not above it.
pub open spec fn is_at_most(index: u32, largest: Option<u32>) -> bool {
    match largest {
        Some(largest) => index <= largest,
        None => false,
    }
}

/// The largest index is that of a node of the type, and no such node has a larger one.
pub proof fn law_largest_index(nodes: Seq<NodeId>, id_type: NodeIdType)
    ensures
        match largest_index(nodes, id_type) {
            Some(index) => index < crate::ndb::ids::NODE_INDEX_LIMIT && (exists|i: int|
                0 <= i < nodes.len() && (#[trigger] nodes[i]).has_type(id_type)
                    && nodes[i].spec_index() == index),
            None => true,
        },
        forall|i: int|
            0 <= i < nodes.len() && (#[trigger] nodes[i]).has_type(id_type) ==> is_at_most(
                nodes[i].spec_index(),
                largest_index(nodes, id_type),
            ),
    decreases nodes.len(),
{
    if nodes.len() > 0 {
        let rest = nodes.drop_last();
        law_largest_index(rest, id_type);
        assert forall|i: int|
            0 <= i < nodes.len() && (#[trigger] nodes[i]).has_type(id_type) implies is_at_most(
            nodes[i].spec_index(),
            largest_index(nodes, id_type),
        ) by {
            if i < rest.len() {
                assert(rest[i] == nodes[i]);
            }
        }
        if let Some(index) = largest_index(rest, id_type) {
            let i = choose|i: int|
                0 <= i < rest.len() && (#[trigger] rest[i]).has_type(id_type)
                    && rest[i].spec_index() == index;
            assert(nodes[i] == rest[i]);
        }
        assert(nodes[nodes.len() - 1] == nodes.last());
    }
}

/// The nodes of a list of entries.
pub open spec fn nodes_of(entries: Seq<UnicodeNodeBTreeEntry>) -> Seq<NodeId> {
    Seq::new(entries.len(), |i: int| entries[i].node)
}

/// The subnodes of a list of entries.
pub open spec fn subnodes_of(entries: Seq<UnicodeLeafSubNodeTreeEntry>) -> Seq<NodeId> {
    Seq::new(entries.len(), |i: int| entries[i].node)
}

/// The larger of an index that may be missing and that of a node of the given type.
fn larger(largest: Option<u32>, node: NodeId, id_type: NodeIdType) -> (larger: Option<u32>)
    ensures
        larger == larger_index(largest, node, id_type),
{
    if !node.is_type(id_type) {
        return largest;
    }
    match largest {
        Some(index) => if index >= node.index() {
            Some(index)
        } else {
            Some(node.index())
        },
        None => Some(node.index()),
    }
}

/// The largest index among the nodes of a type.
pub fn largest_node_index(entries: &Vec<UnicodeNodeBTreeEntry>, id_type: NodeIdType) -> (index:
    Option<u32>)
    ensures
        index == largest_index(nodes_of(entries@), id_type),
{
    let ghost nodes = nodes_of(entries@);
    let mut largest: Option<u32> = None;
    let mut i: usize = 0;
    while i < entries.len()
        invariant
            i <= entries@.len(),
            nodes == nodes_of(entries@),
            largest == largest_index(nodes.take(i as int), id_type),
        decreases entries@.len() - i,
    {
        assert(nodes.take(i + 1).drop_last() =~= nodes.take(i as int));
        largest = larger(largest, entries[i].node, id_type);
        i += 1;
    }
    assert(nodes.take(i as int) =~= nodes);
    largest
}

/// The largest index among the subnodes of a type.
pub fn largest_subnode_index(
    entries: &Vec<UnicodeLeafSubNodeTreeEntry>,
    id_type: NodeIdType,
) -> (index: Option<u32>)
    ensures
        index == largest_index(subnodes_of(entries@), id_type),
{
    let ghost nodes = subnodes_of(entries@);
    let mut largest: Option<u32> = None;
    let mut i: usize = 0;
    while i < entries.len()
        invariant
            i <= entries@.len(),
            nodes == subnodes_of(entries@),
            largest == largest_index(nodes.take(i as int), id_type),
        decreases entries@.len() - i,
    {
        assert(nodes.take(i + 1).drop_last() =~= nodes.take(i as int));
        largest = larger(largest, entries[i].node, id_type);
        i += 1;
    }
    assert(nodes.take(i as int) =~= nodes);
    largest
}

/// The index behind the largest one among the internal subnodes.
pub open spec fn next_internal_index(subnodes: Seq<NodeId>) -> u32 {
    match largest_index(subnodes, NodeIdType::Internal) {
        Some(index) => (index + 1) as u32,
        None => 1,
    }
}

/// The index behind the largest one among the internal subnodes.
pub fn next_internal_subnode(entries: &Vec<UnicodeLeafSubNodeTreeEntry>) -> (index: u32)
    ensures
        index == next_internal_index(subnodes_of(entries@)),
        1 <= index <= crate::ndb::ids::NODE_INDEX_LIMIT,
{
    proof {
        law_largest_index(subnodes_of(entries@), NodeIdType::Internal);
    }
    match largest_subnode_index(entries, NodeIdType::Internal) {
        Some(index) => index + 1,
        None => 1,
    }
}

/// The node that holds the rows of a table: the one it has, unless that is on its heap, and else a
/// new internal subnode.
pub open spec fn rows_node(rows: Option<NodeId>, subnodes: Seq<NodeId>) -> Result<
    NodeId,
    PstError,
> {
    match rows {
        Some(node) if !node.has_type(NodeIdType::HeapNode) => Ok(node),
        _ => NodeId::spec_new(NodeIdType::Internal, next_internal_index(subnodes)),
    }
}

/// The node that holds the rows of a table, which `rows` names where the table has any: a node on
/// the heap of the table is replaced by a new internal subnode.
pub fn table_rows_node(
    rows: Option<NodeId>,
    subnodes: &Vec<UnicodeLeafSubNodeTreeEntry>,
) -> (node: Result<NodeId, PstError>)
    ensures
        node == rows_node(rows, subnodes_of(subnodes@)),
{
    match rows {
        Some(node) => {
            if !node.is_type(NodeIdType::HeapNode) {
                return Ok(node);
            }
        },
        None => {},
    }
    NodeId::new(NodeIdType::Internal, next_internal_subnode(subnodes))
}

/// The next index of a node type: behind the largest one in use, or behind `least` where there is
/// none, and not before the one in the header.
pub open spec fn next_index(
    header: HeaderContents,
    nodes: Seq<NodeId>,
    id_type: NodeIdType,
    least: u32,
) -> u32 {
    let free = (match largest_index(nodes, id_type) {
        Some(index) => index,
        None => least,
    }) + 1;
    if free >= header.next_node_index(id_type) {
        free as u32
    } else {
        header.next_node_index(id_type)
    }
}

/// The next index of a node type: behind the largest one in use, or behind `least` where there is
/// none, and not before the one in the header.
pub fn next_free_index(
    header: &Header,
    entries: &Vec<UnicodeNodeBTreeEntry>,
    id_type: NodeIdType,
    least: u32,
) -> (index: u32)
    requires
        header@.wf(),
        least < u32::MAX,
    ensures
        index == next_index(header@, nodes_of(entries@), id_type, least),
{
    proof {
        law_largest_index(nodes_of(entries@), id_type);
    }
    let free: u32 = match largest_node_index(entries, id_type) {
        Some(index) => index + 1,
        None => least + 1,
    };
    let reserved: u32 = header.next_node_index(id_type);
    if free >= reserved {
        free
    } else {
        reserved
    }
}

/// No node of the type has the next index or one behind it.
pub proof fn law_next_index_is_free(
    header: HeaderContents,
    nodes: Seq<NodeId>,
    id_type: NodeIdType,
    least: u32,
    node: NodeId,
)
    requires
        least < u32::MAX,
        node.has_type(id_type),
        node.spec_index() >= next_index(header, nodes, id_type, least),
    ensures
        !nodes.contains(node),
{
    law_largest_index(nodes, id_type);
    if nodes.contains(node) {
        assert(nodes[nodes.index_of(node)] == node);
    }
}

/// The first block index that is free: not before the one in the header, and behind every index in
/// use.
pub open spec fn next_block_index(
    header: HeaderContents,
    entries: Seq<UnicodeBlockBTreeEntry>,
) -> u64
    decreases entries.len(),
{
    if entries.len() == 0 {
        if header.next_block.spec_index() >= 1 {
            header.next_block.spec_index()
        } else {
            1
        }
    } else {
        let before = next_block_index(header, entries.drop_last());
        let behind = entries.last().block.block.spec_index() + 1;
        if before >= behind {
            before
        } else {
            behind as u64
        }
    }
}

/// The first block index that is free.
pub fn first_free_block(header: &Header, entries: &Vec<UnicodeBlockBTreeEntry>) -> (index: u64)
    ensures
        index == next_block_index(header@, entries@),
{
    let reserved: u64 = header.next_block.index();
    let mut next: u64 = if reserved >= 1 {
        reserved
    } else {
        1
    };
    let mut i: usize = 0;
    assert(entries@.take(0) =~= Seq::empty());
    while i < entries.len()
        invariant
            i <= entries@.len(),
            next == next_block_index(header@, entries@.take(i as int)),
        decreases entries@.len() - i,
    {
        assert(entries@.take(i + 1).drop_last() =~= entries@.take(i as int));
        let behind: u64 = entries[i].block.block.index() + 1;
        if next < behind {
            next = behind;
        }
        i += 1;
    }
    assert(entries@.take(i as int) =~= entries@);
    next
}

/// No block in use has the first free index or one behind it.
pub proof fn law_next_block_index_is_free(
    header: HeaderContents,
    entries: Seq<UnicodeBlockBTreeEntry>,
    at: int,
)
    requires
        0 <= at < entries.len(),
    ensures
        entries[at].block.block.spec_index() < next_block_index(header, entries),
    decreases entries.len(),
{
    if at < entries.len() - 1 {
        law_next_block_index_is_free(header, entries.drop_last(), at);
    }
}

/// The nodes with two or three of them replaced, and more added.
pub open spec fn replaced_nodes(
    entries: Seq<UnicodeNodeBTreeEntry>,
    first: UnicodeNodeBTreeEntry,
    second: UnicodeNodeBTreeEntry,
    third: Option<UnicodeNodeBTreeEntry>,
    added: Seq<UnicodeNodeBTreeEntry>,
) -> Seq<UnicodeNodeBTreeEntry> {
    let kept = without_node(without_node(entries, first.node), second.node);
    let replaced = match third {
        Some(entry) => without_node(kept, entry.node).push(entry),
        None => kept,
    };
    replaced.push(first).push(second) + added
}

/// Puts two or three entries in place of those of the same nodes, and adds more.
pub fn replace_nodes(
    nbt_entries: &mut Vec<UnicodeNodeBTreeEntry>,
    first: UnicodeNodeBTreeEntry,
    second: UnicodeNodeBTreeEntry,
    third: Option<UnicodeNodeBTreeEntry>,
    added: &Vec<UnicodeNodeBTreeEntry>,
)
    ensures
        final(nbt_entries)@ == replaced_nodes(old(nbt_entries)@, first, second, third, added@),
{
    remove_node(nbt_entries, first.node);
    remove_node(nbt_entries, second.node);
    match third {
        Some(entry) => {
            remove_node(nbt_entries, entry.node);
            nbt_entries.push(entry);
        },
        None => {},
    }
    nbt_entries.push(first);
    nbt_entries.push(second);
    let ghost before = nbt_entries@;
    let mut i: usize = 0;
    assert(before + added@.take(0) =~= before);
    while i < added.len()
        invariant
            i <= added@.len(),
            nbt_entries@ == before + added@.take(i as int),
        decreases added@.len() - i,
    {
        nbt_entries.push(added[i]);
        i += 1;
        assert(nbt_entries@ =~= before + added@.take(i as int));
    }
    assert(added@.take(i as int) =~= added@);
}

pub proof fn lemma_push_contains<T>(items: Seq<T>, last: T, item: T)
    ensures
        items.push(last).contains(item) <==> items.contains(item) || item == last,
{
    let grown = items.push(last);
    assert(grown[items.len() as int] == last);
    if items.contains(item) {
        assert(grown[items.index_of(item)] == item);
    }
    if grown.contains(item) && item != last {
        assert(items[grown.index_of(item)] == item);
    }
}

proof fn lemma_add_contains<T>(left: Seq<T>, right: Seq<T>, item: T)
    ensures
        (left + right).contains(item) <==> left.contains(item) || right.contains(item),
{
    let whole = left + right;
    if left.contains(item) {
        assert(whole[left.index_of(item)] == item);
    }
    if right.contains(item) {
        assert(whole[left.len() + right.index_of(item)] == item);
    }
    if whole.contains(item) {
        let at = whole.index_of(item);
        if at < left.len() {
            assert(left[at] == item);
        } else {
            assert(right[at - left.len()] == item);
        }
    }
}

/// Whether an entry that may be missing is not that of a node.
pub open spec fn is_not(entry: Option<UnicodeNodeBTreeEntry>, node: NodeId) -> bool {
    match entry {
        Some(entry) => entry.node != node,
        None => true,
    }
}

/// Replacing nodes keeps every entry of every other node, and the list has the new entries and nothing
/// else.
pub proof fn law_replaced_nodes(
    entries: Seq<UnicodeNodeBTreeEntry>,
    first: UnicodeNodeBTreeEntry,
    second: UnicodeNodeBTreeEntry,
    third: Option<UnicodeNodeBTreeEntry>,
    added: Seq<UnicodeNodeBTreeEntry>,
    entry: UnicodeNodeBTreeEntry,
)
    ensures
        replaced_nodes(entries, first, second, third, added).contains(entry) <==> (
        entries.contains(entry) && entry.node != first.node && entry.node != second.node
            && is_not(third, entry.node)) || entry == first || entry == second || Some(
            entry,
        ) == third || added.contains(entry),
{
    let once = without_node(entries, first.node);
    let kept = without_node(once, second.node);
    law_without_node(entries, first.node, entry);
    law_without_node(once, second.node, entry);
    let replaced = match third {
        Some(third) => {
            let less = without_node(kept, third.node);
            law_without_node(kept, third.node, entry);
            lemma_push_contains(less, third, entry);
            less.push(third)
        },
        None => kept,
    };
    lemma_push_contains(replaced, first, entry);
    lemma_push_contains(replaced.push(first), second, entry);
    lemma_add_contains(replaced.push(first).push(second), added, entry);
}

} // verus!
