//! Property contexts: the properties of a node in a heap.

use vstd::prelude::*;

use crate::bytes;
use crate::error::PstError;
use crate::ltp::heap;
use crate::ltp::heap::{HeapBuilder, HeapId, HeapNodeType, MAX_HEAP_ALLOCATION_SIZE};
use crate::ltp::heap_tree;
use crate::ltp::heap_tree::{HeapTreeChild, HeapTreeLayout, HEAP_TREE_LEAF_CAPACITY};
use crate::ltp::property;
use crate::ltp::property::{EncodedValue, PropertyType, PropertyValue};
use crate::ndb::ids::{NodeId, NodeIdType};
use crate::ndb::levels;
use crate::sorting;
use crate::sorting::Keyed;

verus! {

/// The number of children of an intermediate allocation of a property tree.
pub const PROPERTY_TREE_GROUP: usize = 900;

/// Where the value of a property stands.
#[derive(Clone, Copy, PartialEq, Eq, Debug, Structural)]
pub enum PropertyValueRecord {
    /// In the record itself.
    Small(u32),
    /// In the heap.
    Heap(HeapId),
    /// In a subnode.
    Node(NodeId),
}

impl PropertyValueRecord {
    /// The number in the record.
    pub open spec fn spec_number(self) -> u32 {
        match self {
            PropertyValueRecord::Small(value) => value,
            PropertyValueRecord::Heap(id) => id.value,
            PropertyValueRecord::Node(node) => node.value,
        }
    }

    /// The number in the record.
    pub fn number(self) -> (number: u32)
        ensures
            number == self.spec_number(),
    {
        match self {
            PropertyValueRecord::Small(value) => value,
            PropertyValueRecord::Heap(id) => id.value,
            PropertyValueRecord::Node(node) => node.value,
        }
    }
}

/// The record of a property.
#[derive(Clone, Copy, PartialEq, Eq, Debug, Structural)]
pub struct PropertyTreeRecord {
    pub id: u16,
    pub prop_type: PropertyType,
    pub value: PropertyValueRecord,
}

impl Keyed for PropertyTreeRecord {
    open spec fn spec_key(&self) -> u64 {
        self.id as u64
    }

    fn key(&self) -> (key: u64) {
        self.id as u64
    }
}

/// The bytes of a property record.
pub open spec fn record_bytes(record: PropertyTreeRecord) -> Seq<u8> {
    bytes::le16(record.id) + bytes::le16(record.prop_type.spec_code()) + bytes::le32(
        record.value.spec_number(),
    )
}

/// The bytes of `count` of `records` from `start` on.
pub open spec fn records_bytes(
    records: Seq<PropertyTreeRecord>,
    start: int,
    count: nat,
) -> Seq<u8>
    decreases count,
{
    if count == 0 {
        Seq::empty()
    } else {
        records_bytes(records, start, (count - 1) as nat) + record_bytes(
            records[start + count - 1],
        )
    }
}

/// The layout of a property tree: keys of two bytes and six bytes behind them.
pub open spec fn property_layout() -> HeapTreeLayout {
    HeapTreeLayout { key_size: 2, entry_size: 6, group: PROPERTY_TREE_GROUP }
}

/// The heap with one leaf allocation for every group of records from `start` on, after the
/// allocations in `done`.
pub open spec fn with_property_leaves(
    pages: Seq<Seq<Seq<u8>>>,
    records: Seq<PropertyTreeRecord>,
    start: int,
    done: Seq<HeapTreeChild>,
) -> (Seq<Seq<Seq<u8>>>, Result<Seq<HeapTreeChild>, PstError>)
    decreases records.len() - start,
{
    if start >= records.len() {
        (pages, Ok(done))
    } else {
        let end = levels::group_end(
            start,
            HEAP_TREE_LEAF_CAPACITY as int,
            records.len() as int,
        );
        match heap::heap_alloc(pages, records_bytes(records, start, (end - start) as nat)) {
            (after, Err(error)) => (after, Err(error)),
            (after, Ok(id)) => with_property_leaves(
                after,
                records,
                end,
                done.push(HeapTreeChild { key: records[start].id as u32, id }),
            ),
        }
    }
}

/// The heap with a tree of the given records, and the identifier of its header.
pub open spec fn with_property_tree(
    pages: Seq<Seq<Seq<u8>>>,
    records: Seq<PropertyTreeRecord>,
) -> (Seq<Seq<Seq<u8>>>, Result<HeapId, PstError>) {
    match with_property_leaves(pages, records, 0, Seq::empty()) {
        (after, Err(error)) => (after, Err(error)),
        (after, Ok(children)) => heap_tree::with_heap_tree(after, children, property_layout(), 0),
    }
}

/// The properties placed so far: the heap, the values in subnodes, the index of the next subnode,
/// and the records.
#[verifier::ext_equal]
pub struct PlacedProperties {
    pub pages: Seq<Seq<Seq<u8>>>,
    pub external: Seq<(NodeId, Seq<u8>)>,
    pub next_index: u32,
    pub records: Seq<PropertyTreeRecord>,
}

/// `placed` with one more property. A missing value is left out, a small one stands in its record,
/// one too large for a heap allocation in a subnode, and every other one in the heap.
pub open spec fn with_property(placed: PlacedProperties, id: u16, value: EncodedValue) -> Result<
    PlacedProperties,
    PstError,
> {
    let prop_type = value.prop_type;
    if prop_type == PropertyType::Null {
        Ok(placed)
    } else if prop_type.is_small() {
        let record = PropertyValueRecord::Small(property::small_value(value));
        Ok(
            PlacedProperties {
                records: placed.records.push(PropertyTreeRecord { id, prop_type, value: record }),
                ..placed
            },
        )
    } else if value.data.len() == 0 {
        let record = PropertyValueRecord::Heap(HeapId { value: 0 });
        Ok(
            PlacedProperties {
                records: placed.records.push(PropertyTreeRecord { id, prop_type, value: record }),
                ..placed
            },
        )
    } else if value.data.len() > MAX_HEAP_ALLOCATION_SIZE {
        match NodeId::spec_new(NodeIdType::Internal, placed.next_index) {
            Err(error) => Err(error),
            Ok(node) => Ok(
                PlacedProperties {
                    external: placed.external.push((node, value.data)),
                    next_index: (placed.next_index + 1) as u32,
                    records: placed.records.push(
                        PropertyTreeRecord {
                            id,
                            prop_type,
                            value: PropertyValueRecord::Node(node),
                        },
                    ),
                    ..placed
                },
            ),
        }
    } else {
        match heap::heap_alloc(placed.pages, value.data) {
            (_, Err(error)) => Err(error),
            (pages, Ok(heap_id)) => Ok(
                PlacedProperties {
                    pages,
                    records: placed.records.push(
                        PropertyTreeRecord {
                            id,
                            prop_type,
                            value: PropertyValueRecord::Heap(heap_id),
                        },
                    ),
                    ..placed
                },
            ),
        }
    }
}

/// `placed` with the properties from `index` on.
pub open spec fn with_properties(
    placed: PlacedProperties,
    properties: Seq<(u16, EncodedValue)>,
    index: int,
) -> Result<PlacedProperties, PstError>
    decreases properties.len() - index,
{
    if index >= properties.len() {
        Ok(placed)
    } else {
        match with_property(placed, properties[index].0, properties[index].1) {
            Err(error) => Err(error),
            Ok(next) => with_properties(next, properties, index + 1),
        }
    }
}

/// No property placed yet.
pub open spec fn no_properties(next_index: u32) -> PlacedProperties {
    PlacedProperties {
        pages: heap::empty_heap(),
        external: Seq::empty(),
        next_index,
        records: Seq::empty(),
    }
}

/// The heap pages of a property context and the values that stand in subnodes.
#[verifier::opaque]
pub open spec fn spec_property_context_pages(
    properties: Seq<(u16, EncodedValue)>,
    next_index: u32,
) -> Result<(Seq<Seq<u8>>, Seq<(NodeId, Seq<u8>)>), PstError> {
    match with_properties(no_properties(next_index), properties, 0) {
        Err(error) => Err(error),
        Ok(placed) => match with_property_tree(
            placed.pages,
            sorting::sorted_by_key(placed.records),
        ) {
            (_, Err(error)) => Err(error),
            (pages, Ok(root)) => match heap::finished_pages(
                pages,
                0,
                Seq::empty(),
                HeapNodeType::Properties,
                root,
            ) {
                Err(error) => Err(error),
                Ok(data) => Ok((data, placed.external)),
            },
        },
    }
}

/// Heap pages and subnodes by their contents.
pub open spec fn context_view(
    result: Result<(Vec<Vec<u8>>, Vec<(NodeId, Vec<u8>)>), PstError>,
) -> Result<(Seq<Seq<u8>>, Seq<(NodeId, Seq<u8>)>), PstError> {
    match result {
        Ok((pages, external)) => Ok((bytes::views(pages@), bytes::views(external@))),
        Err(error) => Err(error),
    }
}

/// Builds a tree of the given records.
pub fn build_property_tree(heap: &mut HeapBuilder, records: &Vec<PropertyTreeRecord>) -> (header:
    Result<HeapId, PstError>)
    requires
        heap::heap_wf(old(heap)@),
    ensures
        (final(heap)@, header) == with_property_tree(old(heap)@, records@),
        heap::heap_wf(final(heap)@),
{
    let mut children: Vec<HeapTreeChild> = Vec::new();
    let mut start: usize = 0;
    while start < records.len()
        invariant
            start <= records@.len(),
            heap::heap_wf(heap@),
            forall|i: int| 0 <= i < children@.len() ==> (#[trigger] children@[i]).key <= u16::MAX,
            with_property_leaves(old(heap)@, records@, 0, Seq::empty()) == with_property_leaves(
                heap@,
                records@,
                start as int,
                children@,
            ),
        decreases records@.len() - start,
    {
        let end: usize = levels::next_group(start, HEAP_TREE_LEAF_CAPACITY, records.len());
        let mut data: Vec<u8> = Vec::new();
        let mut i: usize = start;
        while i < end
            invariant
                start <= i <= end <= records@.len(),
                data@ == records_bytes(records@, start as int, (i - start) as nat),
            decreases end - i,
        {
            let record: PropertyTreeRecord = records[i];
            bytes::push_u16(&mut data, record.id);
            bytes::push_u16(&mut data, record.prop_type.code());
            bytes::push_u32(&mut data, record.value.number());
            i += 1;
            assert(data@ =~= records_bytes(records@, start as int, (i - start) as nat));
        }
        let id = heap.allocate(data)?;
        children.push(HeapTreeChild { key: records[start].id as u32, id });
        start = end;
    }
    let layout = HeapTreeLayout { key_size: 2, entry_size: 6, group: PROPERTY_TREE_GROUP };
    heap_tree::build_heap_tree(heap, children, layout)
}

/// Places the properties: the heap, the values in subnodes, and the records.
fn place_properties(
    properties: &Vec<(u16, PropertyValue)>,
    next_subnode_index: u32,
) -> (result: Result<(HeapBuilder, Vec<(NodeId, Vec<u8>)>, Vec<PropertyTreeRecord>), PstError>)
    ensures
        match with_properties(
            no_properties(next_subnode_index),
            bytes::views(properties@),
            0,
        ) {
            Ok(placed) => result matches Ok((heap, external, records)) && heap::heap_wf(heap@)
                && heap@ == placed.pages && bytes::views(external@) == placed.external
                && records@ == placed.records,
            Err(error) => result matches Err(result) && result == error,
        },
{
    let ghost given = bytes::views(properties@);
    let mut heap = HeapBuilder::new();
    let mut external: Vec<(NodeId, Vec<u8>)> = Vec::new();
    let mut records: Vec<PropertyTreeRecord> = Vec::new();
    let mut next_index: u32 = next_subnode_index;
    assert(bytes::views(external@) =~= Seq::empty());
    let mut i: usize = 0;
    while i < properties.len()
        invariant
            i <= properties@.len(),
            given == bytes::views(properties@),
            heap::heap_wf(heap@),
            with_properties(no_properties(next_subnode_index), given, 0) == with_properties(
                PlacedProperties {
                    pages: heap@,
                    external: bytes::views(external@),
                    next_index,
                    records: records@,
                },
                given,
                i as int,
            ),
        decreases properties@.len() - i,
    {
        let id: u16 = properties[i].0;
        let value: &PropertyValue = &properties[i].1;
        assert(given[i as int] == (id, value@));
        let prop_type: PropertyType = value.property_type();
        i += 1;
        if prop_type == PropertyType::Null {
            continue;
        }
        let record = match property::small_property_record(value) {
            Some(small) => PropertyValueRecord::Small(small),
            None => {
                let data = property::property_value_bytes(value);
                if data.len() == 0 {
                    PropertyValueRecord::Heap(HeapId::none())
                } else if data.len() > MAX_HEAP_ALLOCATION_SIZE {
                    let node = NodeId::new(NodeIdType::Internal, next_index)?;
                    next_index += 1;
                    let ghost before = bytes::views(external@);
                    external.push((node, data));
                    assert(bytes::views(external@) =~= before.push((node, data@)));
                    PropertyValueRecord::Node(node)
                } else {
                    PropertyValueRecord::Heap(heap.allocate(data)?)
                }
            },
        };
        records.push(PropertyTreeRecord { id, prop_type, value: record });
    }
    Ok((heap, external, records))
}

/// The heap pages of a property context and the values that stand in subnodes, numbered from
/// `next_subnode_index` on.
pub fn property_context_pages(
    properties: Vec<(u16, PropertyValue)>,
    next_subnode_index: u32,
) -> (result: Result<(Vec<Vec<u8>>, Vec<(NodeId, Vec<u8>)>), PstError>)
    ensures
        context_view(result) == spec_property_context_pages(
            bytes::views(properties@),
            next_subnode_index,
        ),
{
    reveal(spec_property_context_pages);
    let (mut heap, external, records) = place_properties(&properties, next_subnode_index)?;
    let sorted = sorting::sort_by_key(&records);
    let root = build_property_tree(&mut heap, &sorted)?;
    let pages = heap.finish(HeapNodeType::Properties, root)?;
    Ok((pages, external))
}

/// A property with an encoded value, or with a number in its record.
pub struct SimpleProperty {
    pub id: u16,
    pub prop_type: PropertyType,
    pub value: Option<Vec<u8>>,
    pub small: u32,
}

/// A property with an encoded value, or with a number in its record.
#[verifier::ext_equal]
pub struct SimpleContents {
    pub id: u16,
    pub prop_type: PropertyType,
    pub value: Option<Seq<u8>>,
    pub small: u32,
}

impl View for SimpleProperty {
    type V = SimpleContents;

    open spec fn view(&self) -> SimpleContents {
        SimpleContents {
            id: self.id,
            prop_type: self.prop_type,
            value: match self.value {
                Some(value) => Some(value@),
                None => None,
            },
            small: self.small,
        }
    }
}

impl SimpleProperty {
    /// A property with an encoded value.
    pub fn with_value(id: u16, prop_type: PropertyType, value: Vec<u8>) -> (property:
        SimpleProperty)
        ensures
            property@ == (SimpleContents { id, prop_type, value: Some(value@), small: 0 }),
    {
        SimpleProperty { id, prop_type, value: Some(value), small: 0 }
    }

    /// A property with a number in its record.
    pub fn with_small(id: u16, prop_type: PropertyType, small: u32) -> (property: SimpleProperty)
        ensures
            property@ == (SimpleContents { id, prop_type, value: None, small }),
    {
        SimpleProperty { id, prop_type, value: None, small }
    }
}

/// The first node that `nodes` gives for the property `id`, from `index` on.
pub open spec fn node_of(nodes: Seq<(u16, NodeId)>, id: u16, index: int) -> Option<NodeId>
    decreases nodes.len() - index,
{
    if index >= nodes.len() {
        None
    } else if nodes[index].0 == id {
        Some(nodes[index].1)
    } else {
        node_of(nodes, id, index + 1)
    }
}

/// The record of a simple property whose value would stand in slot `slot`, and whether it does.
pub open spec fn simple_record(
    property: SimpleContents,
    nodes: Seq<(u16, NodeId)>,
    slot: nat,
) -> Result<(PropertyValueRecord, bool), PstError> {
    match node_of(nodes, property.id, 0) {
        Some(node) => Ok((PropertyValueRecord::Node(node), false)),
        None => match property.value {
            Some(_) => match heap::spec_heap_id(slot) {
                Ok(id) => Ok((PropertyValueRecord::Heap(id), true)),
                Err(error) => Err(error),
            },
            None => Ok((PropertyValueRecord::Small(property.small), false)),
        },
    }
}

/// The slots and the records of the properties from `index` on, after those given.
pub open spec fn simple_slots(
    properties: Seq<SimpleContents>,
    nodes: Seq<(u16, NodeId)>,
    index: int,
    slots: Seq<Seq<u8>>,
    records: Seq<u8>,
) -> Result<(Seq<Seq<u8>>, Seq<u8>), PstError>
    decreases properties.len() - index,
{
    if index >= properties.len() {
        Ok((slots, records))
    } else {
        let property = properties[index];
        match simple_record(property, nodes, slots.len()) {
            Err(error) => Err(error),
            Ok((value, stored)) => simple_slots(
                properties,
                nodes,
                index + 1,
                if stored {
                    slots.push(property.value->Some_0)
                } else {
                    slots
                },
                records + record_bytes(
                    PropertyTreeRecord { id: property.id, prop_type: property.prop_type, value },
                ),
            ),
        }
    }
}

/// The bytes of a property context of one page with the given properties, in the order given. Slot
/// 1 holds the header of the property tree and slot 2 its records.
#[verifier::opaque]
pub open spec fn simple_context(properties: Seq<SimpleContents>, nodes: Seq<(u16, NodeId)>) -> Result<
    Seq<u8>,
    PstError,
> {
    match simple_slots(
        properties,
        nodes,
        0,
        seq![Seq::empty(), Seq::empty(), Seq::empty()],
        Seq::empty(),
    ) {
        Err(error) => Err(error),
        Ok((slots, records)) => heap::spec_finish_heap(
            slots.update(
                1,
                heap_tree::tree_header(property_layout(), 0, HeapId { value: 64 }),
            ).update(2, records),
            HeapNodeType::Properties,
            HeapId { value: 32 },
        ),
    }
}

/// The first node that `nodes` gives for the property `id`.
fn find_node(nodes: &Vec<(u16, NodeId)>, id: u16) -> (node: Option<NodeId>)
    ensures
        node == node_of(nodes@, id, 0),
{
    let mut i: usize = 0;
    while i < nodes.len()
        invariant
            i <= nodes@.len(),
            node_of(nodes@, id, 0) == node_of(nodes@, id, i as int),
        decreases nodes@.len() - i,
    {
        if nodes[i].0 == id {
            return Some(nodes[i].1);
        }
        i += 1;
    }
    None
}

/// The bytes of a property context of one page with the given properties, in the order given.
pub fn property_context_data(properties: Vec<SimpleProperty>) -> (data: Result<Vec<u8>, PstError>)
    ensures
        crate::error::result_view(data) == simple_context(
            bytes::views(properties@),
            Seq::empty(),
        ),
{
    let nodes: Vec<(u16, NodeId)> = Vec::new();
    property_context_data_with_nodes(properties, &nodes)
}

/// The slots and the records of the properties.
fn place_simple_properties(
    properties: &Vec<SimpleProperty>,
    nodes: &Vec<(u16, NodeId)>,
) -> (result: Result<(Vec<Vec<u8>>, Vec<u8>), PstError>)
    ensures
        match simple_slots(
            bytes::views(properties@),
            nodes@,
            0,
            seq![Seq::empty(), Seq::empty(), Seq::empty()],
            Seq::empty(),
        ) {
            Ok((slots, records)) => result matches Ok((result_slots, result_records))
                && result_slots@.len() >= 3 && bytes::views(result_slots@) == slots
                && result_records@ == records,
            Err(error) => result == Err::<(Vec<Vec<u8>>, Vec<u8>), PstError>(error),
        },
{
    let ghost given = bytes::views(properties@);
    let ghost start: Seq<Seq<u8>> = seq![Seq::empty(), Seq::empty(), Seq::empty()];
    let mut slots: Vec<Vec<u8>> = Vec::new();
    slots.push(Vec::new());
    slots.push(Vec::new());
    slots.push(Vec::new());
    let mut records: Vec<u8> = Vec::new();
    assert(bytes::views(slots@) =~= start);
    let mut i: usize = 0;
    while i < properties.len()
        invariant
            i <= properties@.len(),
            given == bytes::views(properties@),
            slots@.len() >= 3,
            start == seq![Seq::<u8>::empty(), Seq::<u8>::empty(), Seq::<u8>::empty()],
            simple_slots(given, nodes@, 0, start, Seq::empty()) == simple_slots(
                given,
                nodes@,
                i as int,
                bytes::views(slots@),
                records@,
            ),
        decreases properties@.len() - i,
    {
        let property: &SimpleProperty = &properties[i];
        assert(given[i as int] == property@);
        let ghost before = bytes::views(slots@);
        let ghost records_before = records@;
        let value = match find_node(nodes, property.id) {
            Some(node) => PropertyValueRecord::Node(node),
            None => match &property.value {
                Some(value) => {
                    let slot: usize = slots.len();
                    let id = heap::heap_id(slot)?;
                    slots.push(bytes::copy(value.as_slice()));
                    assert(bytes::views(slots@) =~= before.push(value@));
                    PropertyValueRecord::Heap(id)
                },
                None => PropertyValueRecord::Small(property.small),
            },
        };
        bytes::push_u16(&mut records, property.id);
        bytes::push_u16(&mut records, property.prop_type.code());
        bytes::push_u32(&mut records, value.number());
        assert(records@ =~= records_before + record_bytes(
            PropertyTreeRecord { id: property.id, prop_type: property.prop_type, value },
        ));
        i += 1;
    }
    Ok((slots, records))
}

/// The bytes of a property context of one page with the given properties, in the order given. A
/// property that `nodes` names has its value in the node.
pub fn property_context_data_with_nodes(
    properties: Vec<SimpleProperty>,
    nodes: &Vec<(u16, NodeId)>,
) -> (data: Result<Vec<u8>, PstError>)
    ensures
        crate::error::result_view(data) == simple_context(bytes::views(properties@), nodes@),
{
    reveal(simple_context);
    let (mut slots, records) = place_simple_properties(&properties, nodes)?;
    let ghost filled = bytes::views(slots@);
    let mut header: Vec<u8> = Vec::new();
    header.push(0xB5);
    header.push(2);
    header.push(6);
    header.push(0);
    bytes::push_u32(&mut header, 64);
    assert(header@ =~= heap_tree::tree_header(property_layout(), 0, HeapId { value: 64 }));
    slots.set(1, header);
    slots.set(2, records);
    assert(bytes::views(slots@) =~= filled.update(1, header@).update(2, records@));
    heap::finish_heap(slots, HeapNodeType::Properties, HeapId { value: 32 })
}

} // verus!
