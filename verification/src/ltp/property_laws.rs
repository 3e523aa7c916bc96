//! What property contexts give back.

use vstd::prelude::*;

use crate::bytes;
use crate::error::PstError;
use crate::ltp::heap;
use crate::ltp::heap::{HeapId, HeapNodeType, MAX_HEAP_ALLOCATION_SIZE};
use crate::ltp::heap_laws;
use crate::ltp::heap_tree;
use crate::ltp::heap_tree::{HeapTreeChild, HEAP_TREE_LEAF_CAPACITY};
use crate::ltp::property;
use crate::ltp::property::{EncodedValue, PropertyType};
use crate::ltp::property_context;
use crate::ltp::property_context::{
    PlacedProperties, PropertyTreeRecord, PropertyValueRecord, SimpleContents,
};
use crate::ndb::block_laws;
use crate::ndb::ids;
use crate::ndb::ids::{NodeId, NodeIdType};
use crate::ndb::levels;
use crate::sorting;

verus! {

/// What a property record leads to.
#[verifier::ext_equal]
pub enum ReadValue {
    /// A number in the record itself.
    Small(u32),
    /// Bytes in the heap.
    Bytes(Seq<u8>),
    /// The subnode that holds the bytes.
    Node(NodeId),
}

/// Whether a record holds values of the type with the given code itself.
pub open spec fn is_small_code(code: int) -> bool {
    code == 0x02 || code == 0x03 || code == 0x04 || code == 0x0A || code == 0x0B
}

/// The type code and the number of the first record of a property, from record `index` on.
pub open spec fn find_record(data: Seq<u8>, id: u16, index: nat) -> Option<(int, u32)>
    decreases data.len() - 8 * index,
{
    if 8 * (index + 1) > data.len() {
        None
    } else if bytes::get16(data, 8 * (index as int)) == id {
        Some(
            (
                bytes::get16(data, 8 * (index as int) + 2),
                bytes::get32(data, 8 * (index as int) + 4) as u32,
            ),
        )
    } else {
        find_record(data, id, index + 1)
    }
}

/// What the number in a record of the given type leads to. A number with the bits of a node type names a
/// subnode, and no number at all an empty value.
pub open spec fn read_value(
    lookup: spec_fn(HeapId) -> Option<Seq<u8>>,
    code: int,
    number: u32,
) -> Option<ReadValue> {
    if is_small_code(code) {
        Some(ReadValue::Small(number))
    } else if number == 0 {
        Some(ReadValue::Bytes(Seq::empty()))
    } else if number % 32 != 0 {
        Some(ReadValue::Node(NodeId { value: number }))
    } else {
        match lookup(HeapId { value: number }) {
            Some(data) => Some(ReadValue::Bytes(data)),
            None => None,
        }
    }
}

/// The type code and the value of a property, found through the tree below `root`.
pub open spec fn read_property(
    lookup: spec_fn(HeapId) -> Option<Seq<u8>>,
    root: HeapId,
    id: u16,
) -> Option<(int, ReadValue)> {
    match heap_laws::read_records(lookup, root, 2, 6) {
        None => None,
        Some(data) => match find_record(data, id, 0) {
            None => None,
            Some((code, number)) => match read_value(lookup, code, number) {
                Some(value) => Some((code, value)),
                None => None,
            },
        },
    }
}

/// The type code and the value of a property in a finished heap.
pub open spec fn property_in_pages(pages: Seq<Seq<u8>>, id: u16) -> Option<(int, ReadValue)> {
    read_property(heap_laws::in_pages(pages), heap_laws::read_user_root(pages), id)
}

/// The data of the first subnode of the given name.
pub open spec fn external_data(external: Seq<(NodeId, Seq<u8>)>, node: NodeId, index: int) -> Option<
    Seq<u8>,
>
    decreases external.len() - index,
{
    if index >= external.len() {
        None
    } else if external[index].0 == node {
        Some(external[index].1)
    } else {
        external_data(external, node, index + 1)
    }
}

/// Whether what was read is the value, where large values stand in the given subnodes.
pub open spec fn is_value(
    read: Option<(int, ReadValue)>,
    external: Seq<(NodeId, Seq<u8>)>,
    value: EncodedValue,
) -> bool {
    match read {
        None => false,
        Some((code, read)) => code == value.prop_type.spec_code() && match read {
            ReadValue::Small(number) => value.prop_type.is_small() && number
                == property::small_value(value),
            ReadValue::Bytes(data) => !value.prop_type.is_small() && data == value.data,
            ReadValue::Node(node) => !value.prop_type.is_small() && external_data(
                external,
                node,
                0,
            ) == Some(value.data),
        },
    }
}

/// The first value of a property, from `index` on. A property without a value is not there.
pub open spec fn first_property(
    properties: Seq<(u16, EncodedValue)>,
    id: u16,
    index: int,
) -> Option<EncodedValue>
    decreases properties.len() - index,
{
    if index >= properties.len() {
        None
    } else if properties[index].0 == id && properties[index].1.prop_type != PropertyType::Null {
        Some(properties[index].1)
    } else {
        first_property(properties, id, index + 1)
    }
}

/// The first record of a property, from `index` on.
pub open spec fn first_record(records: Seq<PropertyTreeRecord>, id: u16, index: int) -> Option<
    PropertyTreeRecord,
>
    decreases records.len() - index,
{
    if index >= records.len() {
        None
    } else if records[index].id == id {
        Some(records[index])
    } else {
        first_record(records, id, index + 1)
    }
}

proof fn lemma_record_at(records: Seq<PropertyTreeRecord>, start: int, count: nat, index: int)
    requires
        0 <= index < count,
    ensures
        ({
            let data = property_context::records_bytes(records, start, count);
            &&& data.len() == 8 * count
            &&& bytes::get16(data, 8 * index) == records[start + index].id
            &&& bytes::get16(data, 8 * index + 2) == records[start + index].prop_type.spec_code()
            &&& bytes::get32(data, 8 * index + 4) == records[start + index].value.spec_number()
        }),
    decreases count,
{
    let data = property_context::records_bytes(records, start, count);
    let before = property_context::records_bytes(records, start, (count - 1) as nat);
    let record = records[start + count - 1];
    if count > 1 {
        lemma_record_at(
            records,
            start,
            (count - 1) as nat,
            if index < count - 1 {
                index
            } else {
                0
            },
        );
    } else {
        assert(before =~= Seq::empty());
    }
    let at = 8 * index;
    if index == count - 1 {
        assert(data.subrange(at, at + 2) =~= bytes::le16(record.id));
        assert(data.subrange(at + 2, at + 4) =~= bytes::le16(record.prop_type.spec_code()));
        assert(data.subrange(at + 4, at + 8) =~= bytes::le32(record.value.spec_number()));
        bytes::lemma_get16_le16(data, at, record.id);
        bytes::lemma_get16_le16(data, at + 2, record.prop_type.spec_code());
        bytes::lemma_get32_le32(data, at + 4, record.value.spec_number());
    } else {
        assert(forall|k: int| at <= k < at + 8 ==> data[k] == before[k]);
    }
}

/// The records give back the first one of each property.
pub proof fn lemma_find_record(records: Seq<PropertyTreeRecord>, id: u16, index: nat)
    requires
        index <= records.len(),
    ensures
        find_record(
            property_context::records_bytes(records, 0, records.len()),
            id,
            index,
        ) == match first_record(records, id, index as int) {
            None => None,
            Some(record) => Some(
                (record.prop_type.spec_code() as int, record.value.spec_number()),
            ),
        },
    decreases records.len() - index,
{
    if index < records.len() {
        lemma_record_at(records, 0, records.len(), index as int);
        lemma_find_record(records, id, index + 1);
    } else if records.len() > 0 {
        lemma_record_at(records, 0, records.len(), 0);
    }
}

proof fn lemma_first_of_key(records: Seq<PropertyTreeRecord>, id: u16, index: int)
    requires
        0 <= index <= records.len(),
        forall|i: int| 0 <= i < index ==> (#[trigger] records[i]).id != id,
    ensures
        first_record(records, id, index) == (if sorting::with_key(records, id as u64).len() == 0 {
            None
        } else {
            Some(sorting::with_key(records, id as u64)[0])
        }),
    decreases records.len() - index,
{
    if index < records.len() {
        if records[index].id == id {
            lemma_key_starts(records, id, index);
        } else {
            lemma_first_of_key(records, id, index + 1);
        }
    } else {
        lemma_no_key(records, id);
    }
}

proof fn lemma_no_key(records: Seq<PropertyTreeRecord>, id: u16)
    requires
        forall|i: int| 0 <= i < records.len() ==> (#[trigger] records[i]).id != id,
    ensures
        sorting::with_key(records, id as u64).len() == 0,
    decreases records.len(),
{
    if records.len() > 0 {
        assert(records.last() == records[records.len() - 1]);
        lemma_no_key(records.drop_last(), id);
    }
}

proof fn lemma_key_starts(records: Seq<PropertyTreeRecord>, id: u16, index: int)
    requires
        0 <= index < records.len(),
        records[index].id == id,
        forall|i: int| 0 <= i < index ==> (#[trigger] records[i]).id != id,
    ensures
        sorting::with_key(records, id as u64).len() > 0,
        sorting::with_key(records, id as u64)[0] == records[index],
    decreases records.len(),
{
    let rest = records.drop_last();
    if index < records.len() - 1 {
        lemma_key_starts(rest, id, index);
    } else {
        lemma_no_key(rest, id);
    }
}

/// Sorting keeps the first record of every property.
proof fn lemma_first_record_sorted(records: Seq<PropertyTreeRecord>, id: u16)
    ensures
        first_record(sorting::sorted_by_key(records), id, 0) == first_record(records, id, 0),
{
    sorting::law_sorted_by_key(records, id as u64);
    lemma_first_of_key(records, id, 0);
    lemma_first_of_key(sorting::sorted_by_key(records), id, 0);
}

/// The records, each by its bytes.
pub open spec fn record_parts(records: Seq<PropertyTreeRecord>) -> Seq<Seq<u8>> {
    Seq::new(records.len(), |i: int| property_context::record_bytes(records[i]))
}

proof fn lemma_joined_records(records: Seq<PropertyTreeRecord>, start: int, count: nat)
    requires
        0 <= start,
        start + count <= records.len(),
    ensures
        block_laws::joined(record_parts(records), start, start + count)
            == property_context::records_bytes(records, start, count),
    decreases count,
{
    if count > 0 {
        lemma_joined_records(records, start, (count - 1) as nat);
    }
}

proof fn lemma_property_leaves(
    pages: Seq<Seq<Seq<u8>>>,
    records: Seq<PropertyTreeRecord>,
    start: int,
    done: Seq<HeapTreeChild>,
    done_parts: Seq<Seq<u8>>,
)
    requires
        heap::heap_wf(pages),
        0 <= start <= records.len(),
        heap_laws::children_hold(pages, done, done_parts, 2, 0),
    ensures
        ({
            let (after, result) = property_context::with_property_leaves(
                pages,
                records,
                start,
                done,
            );
            &&& heap::heap_wf(after)
            &&& heap_laws::heap_keeps(pages, after)
            &&& result matches Ok(children) ==> children.len() <= done.len() + records.len()
                - start && heap_laws::children_hold(
                after,
                children,
                done_parts + block_laws::level_parts(
                    record_parts(records),
                    start,
                    HEAP_TREE_LEAF_CAPACITY as int,
                ),
                2,
                0,
            )
        }),
    decreases records.len() - start,
{
    let size = HEAP_TREE_LEAF_CAPACITY as int;
    let parts = record_parts(records);
    if start < records.len() {
        let end = levels::group_end(start, size, records.len() as int);
        let data = property_context::records_bytes(records, start, (end - start) as nat);
        heap_laws::law_alloc_reads_back(pages, data);
        if let (after, Ok(id)) = heap::heap_alloc(pages, data) {
            let next = done.push(HeapTreeChild { key: records[start].id as u32, id });
            let next_parts = done_parts.push(block_laws::joined(parts, start, end));
            lemma_joined_records(records, start, (end - start) as nat);
            heap_laws::lemma_children_hold_grows(pages, after, done, done_parts, 2, 0);
            assert(heap_laws::in_heap(after)(id) == Some(data));
            assert(parts[start] == property_context::record_bytes(records[start]));
            assert(parts[start].subrange(0, 2) =~= bytes::le16(records[start].id));
            bytes::lemma_get16_le16(parts[start], 0, records[start].id);
            heap_laws::lemma_joined_starts(parts, start, end, 2);
            assert(heap_laws::children_hold(after, next, next_parts, 2, 0)) by {
                assert forall|i: int| 0 <= i < next.len() implies heap_laws::read_tree(
                    heap_laws::in_heap(after),
                    (#[trigger] next[i]).id,
                    2,
                    0,
                ) == Some(next_parts[i]) && next_parts[i].len() >= 2 && next[i].key
                    == heap_laws::first_key(next_parts[i], 2) by {
                    if i < done.len() {
                        assert(next[i] == done[i]);
                    }
                }
            }
            lemma_property_leaves(after, records, end, next, next_parts);
            assert(next_parts + block_laws::level_parts(parts, end, size) =~= done_parts
                + block_laws::level_parts(parts, start, size));
        }
    } else {
        assert(done_parts + block_laws::level_parts(parts, start, size) =~= done_parts);
    }
}

/// A property tree gives back its records, in their order.
pub proof fn law_property_tree_reads_back(
    pages: Seq<Seq<Seq<u8>>>,
    records: Seq<PropertyTreeRecord>,
)
    requires
        heap::heap_wf(pages),
        records.len() <= u64::MAX,
    ensures
        ({
            let (after, result) = property_context::with_property_tree(pages, records);
            &&& heap::heap_wf(after)
            &&& heap_laws::heap_keeps(pages, after)
            &&& result matches Ok(header) ==> heap_laws::read_records(
                heap_laws::in_heap(after),
                header,
                2,
                6,
            ) == Some(property_context::records_bytes(records, 0, records.len()))
        }),
{
    let size = HEAP_TREE_LEAF_CAPACITY as int;
    lemma_property_leaves(pages, records, 0, Seq::empty(), Seq::empty());
    if let (after, Ok(children)) = property_context::with_property_leaves(
        pages,
        records,
        0,
        Seq::empty(),
    ) {
        let parts = block_laws::level_parts(record_parts(records), 0, size);
        assert(Seq::<Seq<u8>>::empty() + parts =~= parts);
        heap_laws::law_heap_tree_reads_back(
            after,
            children,
            parts,
            property_context::property_layout(),
            0,
        );
        block_laws::lemma_level_parts_join(record_parts(records), 0, size);
        lemma_joined_records(records, 0, records.len());
    }
}

/// Whether a record holds a value.
pub open spec fn record_holds(
    placed: PlacedProperties,
    record: PropertyTreeRecord,
    id: u16,
    value: EncodedValue,
) -> bool {
    &&& record.id == id
    &&& record.prop_type == value.prop_type
    &&& match record.value {
        PropertyValueRecord::Small(number) => value.prop_type.is_small() && number
            == property::small_value(value),
        PropertyValueRecord::Heap(heap_id) => !value.prop_type.is_small() && heap_id.value % 32
            == 0 && if heap_id.value == 0 {
            value.data.len() == 0
        } else {
            heap_laws::slot_data(placed.pages, heap_id) == Some(value.data)
        },
        PropertyValueRecord::Node(node) => !value.prop_type.is_small() && node.value % 32 != 0
            && placed.external.contains((node, value.data)),
    }
}

/// Whether the subnodes are internal ones of consecutive indices, the last of which comes before the
/// next index.
pub open spec fn external_wf(placed: PlacedProperties, first: int) -> bool {
    &&& placed.next_index == first + placed.external.len()
    &&& forall|i: int|
        0 <= i < placed.external.len() ==> (#[trigger] placed.external[i]).0.has_type(
            NodeIdType::Internal,
        ) && placed.external[i].0.spec_index() == first + i
}

/// The properties that have a value, from `index` on.
pub open spec fn valued(properties: Seq<(u16, EncodedValue)>, index: int) -> Seq<
    (u16, EncodedValue),
>
    decreases properties.len() - index,
{
    if index >= properties.len() {
        Seq::empty()
    } else if properties[index].1.prop_type == PropertyType::Null {
        valued(properties, index + 1)
    } else {
        seq![properties[index]] + valued(properties, index + 1)
    }
}

/// Whether the records from `from` on hold the given values.
pub open spec fn records_hold(
    placed: PlacedProperties,
    from: int,
    values: Seq<(u16, EncodedValue)>,
) -> bool {
    &&& placed.records.len() == from + values.len()
    &&& forall|i: int|
        0 <= i < values.len() ==> record_holds(
            placed,
            #[trigger] placed.records[from + i],
            values[i].0,
            values[i].1,
        )
}

/// Whether `after` has what `before` has.
pub open spec fn placed_grows(before: PlacedProperties, after: PlacedProperties) -> bool {
    &&& heap_laws::heap_keeps(before.pages, after.pages)
    &&& before.records.len() <= after.records.len()
    &&& forall|i: int|
        0 <= i < before.records.len() ==> #[trigger] after.records[i] == before.records[i]
    &&& before.external.len() <= after.external.len()
    &&& forall|i: int|
        0 <= i < before.external.len() ==> #[trigger] after.external[i] == before.external[i]
}

proof fn lemma_record_holds_grows(
    before: PlacedProperties,
    after: PlacedProperties,
    record: PropertyTreeRecord,
    id: u16,
    value: EncodedValue,
)
    requires
        placed_grows(before, after),
        record_holds(before, record, id, value),
    ensures
        record_holds(after, record, id, value),
{
    match record.value {
        PropertyValueRecord::Heap(heap_id) => {
            if heap_id.value != 0 {
                assert(heap_laws::slot_data(after.pages, heap_id) == heap_laws::slot_data(
                    before.pages,
                    heap_id,
                ));
            }
        },
        PropertyValueRecord::Node(node) => {
            let i = before.external.index_of((node, value.data));
            assert(after.external[i] == before.external[i]);
        },
        PropertyValueRecord::Small(_) => {},
    }
}

proof fn lemma_with_property(
    placed: PlacedProperties,
    id: u16,
    value: EncodedValue,
    first: int,
)
    requires
        heap::heap_wf(placed.pages),
        external_wf(placed, first),
    ensures
        property_context::with_property(placed, id, value) matches Ok(after) ==> ({
            &&& heap::heap_wf(after.pages)
            &&& external_wf(after, first)
            &&& placed_grows(placed, after)
            &&& if value.prop_type == PropertyType::Null {
                after.records.len() == placed.records.len()
            } else {
                after.records.len() == placed.records.len() + 1 && record_holds(
                    after,
                    after.records.last(),
                    id,
                    value,
                )
            }
        }),
{
    if let Ok(after) = property_context::with_property(placed, id, value) {
        if value.prop_type == PropertyType::Null || value.prop_type.is_small() {
        } else if value.data.len() == 0 {
        } else if value.data.len() > MAX_HEAP_ALLOCATION_SIZE {
            let node = NodeId::spec_new(NodeIdType::Internal, placed.next_index)->Ok_0;
            ids::law_node_id_round_trip(NodeIdType::Internal, placed.next_index);
            assert(after.external[placed.external.len() as int] == (node, value.data));
        } else {
            heap_laws::law_alloc_reads_back(placed.pages, value.data);
        }
    }
}

proof fn lemma_with_properties(
    placed: PlacedProperties,
    properties: Seq<(u16, EncodedValue)>,
    index: int,
    first: int,
)
    requires
        heap::heap_wf(placed.pages),
        external_wf(placed, first),
        0 <= index <= properties.len(),
    ensures
        property_context::with_properties(placed, properties, index) matches Ok(after) ==> ({
            &&& heap::heap_wf(after.pages)
            &&& external_wf(after, first)
            &&& placed_grows(placed, after)
            &&& records_hold(after, placed.records.len() as int, valued(properties, index))
        }),
    decreases properties.len() - index,
{
    if index < properties.len() {
        let (id, value) = properties[index];
        lemma_with_property(placed, id, value, first);
        if let Ok(next) = property_context::with_property(placed, id, value) {
            lemma_with_properties(next, properties, index + 1, first);
            if let Ok(after) = property_context::with_properties(next, properties, index + 1) {
                let rest = valued(properties, index + 1);
                let from = placed.records.len() as int;
                assert(placed_grows(placed, after)) by {
                    assert forall|i: int|
                        0 <= i < placed.records.len() implies #[trigger] after.records[i]
                        == placed.records[i] by {
                        assert(next.records[i] == placed.records[i]);
                    }
                    assert forall|i: int|
                        0 <= i < placed.external.len() implies #[trigger] after.external[i]
                        == placed.external[i] by {
                        assert(next.external[i] == placed.external[i]);
                    }
                }
                if value.prop_type != PropertyType::Null {
                    let values = seq![(id, value)] + rest;
                    assert(valued(properties, index) == values);
                    assert forall|i: int| 0 <= i < values.len() implies record_holds(
                        after,
                        #[trigger] after.records[from + i],
                        values[i].0,
                        values[i].1,
                    ) by {
                        if i == 0 {
                            assert(next.records.last() == next.records[from]);
                            assert(after.records[from] == next.records[from]);
                            lemma_record_holds_grows(next, after, next.records[from], id, value);
                        } else {
                            assert(from + i == next.records.len() + (i - 1));
                            assert(record_holds(
                                after,
                                after.records[next.records.len() + (i - 1)],
                                rest[i - 1].0,
                                rest[i - 1].1,
                            ));
                        }
                    }
                }
            }
        }
    }
}

/// The first record of a property holds the first value of the property.
proof fn lemma_first_record_holds(
    placed: PlacedProperties,
    properties: Seq<(u16, EncodedValue)>,
    values_from: int,
    index: int,
    id: u16,
)
    requires
        0 <= index <= properties.len(),
        0 <= values_from <= placed.records.len(),
        records_hold(placed, values_from, valued(properties, index)),
    ensures
        match first_property(properties, id, index) {
            None => first_record(placed.records, id, values_from) is None,
            Some(value) => first_record(placed.records, id, values_from) is Some && record_holds(
                placed,
                first_record(placed.records, id, values_from)->Some_0,
                id,
                value,
            ),
        },
    decreases properties.len() - index,
{
    if index < properties.len() {
        let (own, value) = properties[index];
        let rest = valued(properties, index + 1);
        if value.prop_type == PropertyType::Null {
            lemma_first_record_holds(placed, properties, values_from, index + 1, id);
        } else {
            let values = seq![(own, value)] + rest;
            assert(valued(properties, index) == values);
            assert(record_holds(
                placed,
                placed.records[values_from + 0],
                values[0].0,
                values[0].1,
            ));
            assert(records_hold(placed, values_from + 1, rest)) by {
                assert forall|i: int| 0 <= i < rest.len() implies record_holds(
                    placed,
                    #[trigger] placed.records[values_from + 1 + i],
                    rest[i].0,
                    rest[i].1,
                ) by {
                    assert(placed.records[values_from + (i + 1)] == placed.records[values_from + 1
                        + i]);
                    assert(values[i + 1] == rest[i]);
                }
            }
            lemma_first_record_holds(placed, properties, values_from + 1, index + 1, id);
        }
    }
}

proof fn lemma_external_data(
    external: Seq<(NodeId, Seq<u8>)>,
    node: NodeId,
    data: Seq<u8>,
    index: int,
    at: int,
)
    requires
        0 <= index <= at < external.len(),
        external[at] == (node, data),
        forall|i: int, j: int|
            0 <= i < j < external.len() ==> (#[trigger] external[i]).0 != (
            #[trigger] external[j]).0,
    ensures
        external_data(external, node, index) == Some(data),
    decreases at - index,
{
    if index < at {
        assert(external[index].0 != external[at].0);
        lemma_external_data(external, node, data, index + 1, at);
    }
}

proof fn lemma_small_code(prop_type: PropertyType)
    ensures
        is_small_code(prop_type.spec_code() as int) == prop_type.is_small(),
{
}

/// A property context gives back the value of every property: the first one that was given for it, and
/// none where none was given. A large value stands in the subnode that the context names.
pub proof fn law_property_context_reads_back(
    properties: Seq<(u16, EncodedValue)>,
    next_index: u32,
    pages: Seq<Seq<u8>>,
    external: Seq<(NodeId, Seq<u8>)>,
    id: u16,
)
    requires
        property_context::spec_property_context_pages(properties, next_index) == Ok::<
            _,
            PstError,
        >((pages, external)),
        properties.len() <= u64::MAX,
    ensures
        match first_property(properties, id, 0) {
            None => property_in_pages(pages, id) is None,
            Some(value) => is_value(property_in_pages(pages, id), external, value),
        },
{
    reveal(property_context::spec_property_context_pages);
    let start = property_context::no_properties(next_index);
    let placed = property_context::with_properties(start, properties, 0)->Ok_0;
    lemma_with_properties(start, properties, 0, next_index as int);
    lemma_valued_length(properties, 0);
    let records = sorting::sorted_by_key(placed.records);
    sorting::law_sorted_by_key(placed.records, 0);
    let (heap_pages, result) = property_context::with_property_tree(placed.pages, records);
    let root = result->Ok_0;
    law_property_tree_reads_back(placed.pages, records);
    lemma_pages_find(heap_pages, root, pages);
    let lookup = heap_laws::in_pages(pages);
    heap_laws::law_read_records_grows(heap_laws::in_heap(heap_pages), lookup, root, 2, 6);
    lemma_find_record(records, id, 0);
    lemma_first_record_sorted(placed.records, id);
    lemma_first_record_holds(placed, properties, 0, 0, id);
    if let Some(value) = first_property(properties, id, 0) {
        let record = first_record(placed.records, id, 0)->Some_0;
        lemma_small_code(value.prop_type);
        match record.value {
            PropertyValueRecord::Small(_) => {},
            PropertyValueRecord::Heap(heap_id) => {
                if heap_id.value != 0 {
                    assert(heap_laws::slot_data(heap_pages, heap_id) == heap_laws::slot_data(
                        placed.pages,
                        heap_id,
                    ));
                    assert(lookup(heap_id) == heap_laws::in_heap(heap_pages)(heap_id));
                } else {
                    assert(value.data =~= Seq::empty());
                }
            },
            PropertyValueRecord::Node(node) => {
                let at = external.index_of((node, value.data));
                assert forall|i: int, j: int| 0 <= i < j < external.len() implies (
                #[trigger] external[i]).0 != (#[trigger] external[j]).0 by {
                    assert(external[i].0.spec_index() != external[j].0.spec_index());
                }
                lemma_external_data(external, node, value.data, 0, at);
            },
        }
    }
}

/// Whether records stand in the order of their identifiers, as a reader that searches them needs.
pub open spec fn is_ascending(records: Seq<u8>) -> bool {
    &&& records.len() % 8 == 0
    &&& forall|i: int, j: int|
        #![trigger bytes::get16(records, 8 * i), bytes::get16(records, 8 * j)]
        0 <= i < j && 8 * j < records.len() ==> bytes::get16(records, 8 * i) <= bytes::get16(
            records,
            8 * j,
        )
}

/// The records of the properties in a finished heap.
pub open spec fn records_in_pages(pages: Seq<Seq<u8>>) -> Option<Seq<u8>> {
    heap_laws::read_records(
        heap_laws::in_pages(pages),
        heap_laws::read_user_root(pages),
        2,
        6,
    )
}

/// The heap of a property context says that it holds properties, and their records stand in the order of their
/// identifiers.
pub proof fn law_properties_are_ordered(
    properties: Seq<(u16, EncodedValue)>,
    next_index: u32,
    pages: Seq<Seq<u8>>,
    external: Seq<(NodeId, Seq<u8>)>,
)
    requires
        property_context::spec_property_context_pages(properties, next_index) == Ok::<
            _,
            PstError,
        >((pages, external)),
        properties.len() <= u64::MAX,
    ensures
        records_in_pages(pages) matches Some(records) && is_ascending(records),
        heap_laws::heap_is_for(pages, 0xBC),
{
    reveal(property_context::spec_property_context_pages);
    let start = property_context::no_properties(next_index);
    let placed = property_context::with_properties(start, properties, 0)->Ok_0;
    lemma_with_properties(start, properties, 0, next_index as int);
    lemma_valued_length(properties, 0);
    let records = sorting::sorted_by_key(placed.records);
    sorting::law_sorted_by_key(placed.records, 0);
    let (heap_pages, result) = property_context::with_property_tree(placed.pages, records);
    let root = result->Ok_0;
    law_property_tree_reads_back(placed.pages, records);
    lemma_pages_find(heap_pages, root, pages);
    let lookup = heap_laws::in_pages(pages);
    heap_laws::law_read_records_grows(heap_laws::in_heap(heap_pages), lookup, root, 2, 6);
    lemma_ascending(records);
}

proof fn lemma_ascending(records: Seq<PropertyTreeRecord>)
    requires
        forall|i: int, j: int|
            0 <= i < j < records.len() ==> (#[trigger] records[i]).id <= (
            #[trigger] records[j]).id,
    ensures
        is_ascending(property_context::records_bytes(records, 0, records.len())),
{
    let data = property_context::records_bytes(records, 0, records.len());
    if records.len() > 0 {
        lemma_record_at(records, 0, records.len(), 0);
    }
    assert forall|i: int, j: int|
        #![trigger bytes::get16(data, 8 * i), bytes::get16(data, 8 * j)]
        0 <= i < j && 8 * j < data.len() implies bytes::get16(data, 8 * i) <= bytes::get16(
        data,
        8 * j,
    ) by {
        lemma_record_at(records, 0, records.len(), i);
        lemma_record_at(records, 0, records.len(), j);
        assert(records[i].id <= records[j].id);
    }
}

/// The heap of a property context is well formed.
pub proof fn lemma_context_heap(properties: Seq<(u16, EncodedValue)>, next_index: u32)
    requires
        properties.len() <= u64::MAX,
    ensures
        property_context::with_properties(
            property_context::no_properties(next_index),
            properties,
            0,
        ) matches Ok(placed) ==> heap::heap_wf(
            property_context::with_property_tree(
                placed.pages,
                sorting::sorted_by_key(placed.records),
            ).0,
        ),
{
    let start = property_context::no_properties(next_index);
    lemma_with_properties(start, properties, 0, next_index as int);
    lemma_valued_length(properties, 0);
    if let Ok(placed) = property_context::with_properties(start, properties, 0) {
        sorting::law_sorted_by_key(placed.records, 0);
        law_property_tree_reads_back(placed.pages, sorting::sorted_by_key(placed.records));
    }
}

proof fn lemma_valued_length(properties: Seq<(u16, EncodedValue)>, index: int)
    requires
        0 <= index <= properties.len(),
    ensures
        valued(properties, index).len() <= properties.len() - index,
    decreases properties.len() - index,
{
    if index < properties.len() {
        lemma_valued_length(properties, index + 1);
    }
}

/// A finished heap finds what the heap finds, and its header names its root.
proof fn lemma_pages_find(heap_pages: Seq<Seq<Seq<u8>>>, root: HeapId, pages: Seq<Seq<u8>>)
    requires
        heap::heap_wf(heap_pages),
        heap::finished_pages(heap_pages, 0, Seq::empty(), HeapNodeType::Properties, root) == Ok::<
            _,
            PstError,
        >(pages),
    ensures
        heap_laws::finds_more(heap_laws::in_heap(heap_pages), heap_laws::in_pages(pages)),
        heap_laws::read_user_root(pages) == root,
        heap_laws::heap_is_for(pages, 0xBC),
{
    heap::law_heap_header(heap_pages, HeapNodeType::Properties, root, pages);
    assert forall|id: HeapId|
        heap_laws::in_heap(heap_pages)(id) is Some implies #[trigger] heap_laws::in_pages(pages)(
        id,
    ) == heap_laws::in_heap(heap_pages)(id) by {
        heap_laws::law_finished_heap_reads_back(
            heap_pages,
            HeapNodeType::Properties,
            root,
            pages,
            id,
        );
    }
}

/// Whether a record holds a simple property, whose value stands in one of the slots or in one of the
/// nodes.
pub open spec fn simple_holds(
    slots: Seq<Seq<u8>>,
    nodes: Seq<(u16, NodeId)>,
    record: PropertyTreeRecord,
    property: SimpleContents,
) -> bool {
    &&& record.id == property.id
    &&& record.prop_type == property.prop_type
    &&& match property_context::node_of(nodes, property.id, 0) {
        Some(node) => record.value == PropertyValueRecord::Node(node),
        None => match property.value {
            None => record.value == PropertyValueRecord::Small(property.small),
            Some(value) => record.value matches PropertyValueRecord::Heap(id) && id.spec_block()
                == 0 && 3 <= id.spec_index() < slots.len() && id.value % 32 == 0
                && slots[id.spec_index()] == value,
        },
    }
}

proof fn lemma_records_agree(
    left: Seq<PropertyTreeRecord>,
    right: Seq<PropertyTreeRecord>,
    count: nat,
)
    requires
        count <= left.len(),
        count <= right.len(),
        forall|i: int| 0 <= i < count ==> left[i] == right[i],
    ensures
        property_context::records_bytes(left, 0, count) == property_context::records_bytes(
            right,
            0,
            count,
        ),
    decreases count,
{
    if count > 0 {
        lemma_records_agree(left, right, (count - 1) as nat);
    }
}

proof fn lemma_simple_slots(
    properties: Seq<SimpleContents>,
    nodes: Seq<(u16, NodeId)>,
    index: int,
    slots: Seq<Seq<u8>>,
    records: Seq<u8>,
    done: Seq<PropertyTreeRecord>,
) -> (all: Seq<PropertyTreeRecord>)
    requires
        0 <= index <= properties.len(),
        slots.len() >= 3,
        done.len() == index,
        records == property_context::records_bytes(done, 0, done.len()),
        forall|i: int|
            0 <= i < index ==> simple_holds(slots, nodes, #[trigger] done[i], properties[i]),
    ensures
        property_context::simple_slots(properties, nodes, index, slots, records) matches Ok(
            (after, data),
        ) ==> ({
            &&& after.len() >= slots.len()
            &&& forall|i: int| 0 <= i < slots.len() ==> #[trigger] after[i] == slots[i]
            &&& all.len() == properties.len()
            &&& data == property_context::records_bytes(all, 0, all.len())
            &&& forall|i: int|
                0 <= i < all.len() ==> simple_holds(after, nodes, #[trigger] all[i], properties[i])
        }),
    decreases properties.len() - index,
{
    if index < properties.len() {
        let property = properties[index];
        match property_context::simple_record(property, nodes, slots.len()) {
            Err(_) => done,
            Ok((value, stored)) => {
                let record = PropertyTreeRecord {
                    id: property.id,
                    prop_type: property.prop_type,
                    value,
                };
                let next = if stored {
                    slots.push(property.value->Some_0)
                } else {
                    slots
                };
                let grown = done.push(record);
                lemma_records_agree(done, grown, done.len());
                assert forall|i: int| 0 <= i < grown.len() implies simple_holds(
                    next,
                    nodes,
                    #[trigger] grown[i],
                    properties[i],
                ) by {
                    if i < index {
                        assert(simple_holds(slots, nodes, done[i], properties[i]));
                    }
                }
                lemma_simple_slots(
                    properties,
                    nodes,
                    index + 1,
                    next,
                    records + property_context::record_bytes(record),
                    grown,
                )
            },
        }
    } else {
        done
    }
}

/// The first simple property with the given identifier, from `index` on.
pub open spec fn first_simple(properties: Seq<SimpleContents>, id: u16, index: int) -> Option<
    SimpleContents,
>
    decreases properties.len() - index,
{
    if index >= properties.len() {
        None
    } else if properties[index].id == id {
        Some(properties[index])
    } else {
        first_simple(properties, id, index + 1)
    }
}

/// Whether what was read is a simple property.
pub open spec fn is_simple(
    read: Option<(int, ReadValue)>,
    nodes: Seq<(u16, NodeId)>,
    property: SimpleContents,
) -> bool {
    match read {
        None => false,
        Some((code, read)) => code == property.prop_type.spec_code() && read == match (
            property_context::node_of(nodes, property.id, 0),
            property.value,
        ) {
            (Some(node), _) => ReadValue::Node(node),
            (None, Some(value)) => ReadValue::Bytes(value),
            (None, None) => if property.prop_type.is_small() {
                ReadValue::Small(property.small)
            } else {
                ReadValue::Bytes(Seq::empty())
            },
        },
    }
}

/// Whether a simple property can be told from its record: it has a number where its type is small, and
/// else bytes or a node, or nothing at all.
pub open spec fn simple_wf(property: SimpleContents, nodes: Seq<(u16, NodeId)>) -> bool {
    match property_context::node_of(nodes, property.id, 0) {
        Some(node) => !property.prop_type.is_small() && node.value % 32 != 0,
        None => match property.value {
            Some(_) => !property.prop_type.is_small(),
            None => property.prop_type.is_small() || property.small == 0,
        },
    }
}

proof fn lemma_first_simple(
    records: Seq<PropertyTreeRecord>,
    properties: Seq<SimpleContents>,
    slots: Seq<Seq<u8>>,
    nodes: Seq<(u16, NodeId)>,
    id: u16,
    index: int,
)
    requires
        0 <= index <= properties.len(),
        records.len() == properties.len(),
        forall|i: int|
            0 <= i < records.len() ==> simple_holds(slots, nodes, #[trigger] records[i], properties[i]),
    ensures
        match first_simple(properties, id, index) {
            None => first_record(records, id, index) is None,
            Some(property) => first_record(records, id, index) is Some && property.id == id
                && simple_holds(
                slots,
                nodes,
                first_record(records, id, index)->Some_0,
                property,
            ),
        },
    decreases properties.len() - index,
{
    if index < properties.len() {
        assert(simple_holds(slots, nodes, records[index], properties[index]));
        lemma_first_simple(records, properties, slots, nodes, id, index + 1);
    }
}

/// A property context of one page gives back every property that was given, and no other.
pub proof fn law_simple_context_reads_back(
    properties: Seq<SimpleContents>,
    nodes: Seq<(u16, NodeId)>,
    data: Seq<u8>,
    id: u16,
)
    requires
        property_context::simple_context(properties, nodes) == Ok::<_, PstError>(data),
        first_simple(properties, id, 0) matches Some(property) ==> simple_wf(property, nodes),
    ensures
        match first_simple(properties, id, 0) {
            None => property_in_pages(seq![data], id) is None,
            Some(property) => is_simple(property_in_pages(seq![data], id), nodes, property),
        },
{
    reveal(property_context::simple_context);
    let start: Seq<Seq<u8>> = seq![Seq::empty(), Seq::empty(), Seq::empty()];
    let none = Seq::<PropertyTreeRecord>::empty();
    assert(property_context::records_bytes(none, 0, 0) =~= Seq::empty());
    let all = lemma_simple_slots(properties, nodes, 0, start, Seq::empty(), none);
    let (slots, records) = property_context::simple_slots(
        properties,
        nodes,
        0,
        start,
        Seq::empty(),
    )->Ok_0;
    let root = HeapId { value: 64 };
    let header = heap_tree::tree_header(property_context::property_layout(), 0, root);
    let filled = slots.update(1, header).update(2, records);
    let pages = seq![data];
    let lookup = heap_laws::in_pages(pages);
    assert(slots[0] == start[0]);
    heap::law_single_page_heap(filled, HeapNodeType::Properties, HeapId { value: 32 }, data, 1);
    heap::law_single_page_heap(filled, HeapNodeType::Properties, HeapId { value: 32 }, data, 2);
    assert(lookup(HeapId { value: 32 }) == Some(header));
    assert(lookup(root) == Some(records));
    assert(header.subrange(4, 8) =~= bytes::le32(64));
    bytes::lemma_get32_le32(header, 4, 64);
    assert(heap_laws::read_user_root(pages) == HeapId { value: 32 });
    assert(heap_laws::read_tree(lookup, root, 2, 0) == Some(records));
    lemma_find_record(all, id, 0);
    lemma_first_simple(all, properties, slots, nodes, id, 0);
    if let Some(property) = first_simple(properties, id, 0) {
        let record = first_record(all, id, 0)->Some_0;
        lemma_small_code(property.prop_type);
        if let PropertyValueRecord::Heap(heap_id) = record.value {
            heap::law_single_page_heap(
                filled,
                HeapNodeType::Properties,
                HeapId { value: 32 },
                data,
                heap_id.spec_index(),
            );
            assert(lookup(heap_id) == Some(filled[heap_id.spec_index()]));
        }
    }
}

/// The records of a simple property context stand in the order of their identifiers, where the properties do.
pub proof fn law_simple_properties_are_ordered(
    properties: Seq<SimpleContents>,
    nodes: Seq<(u16, NodeId)>,
    data: Seq<u8>,
)
    requires
        property_context::simple_context(properties, nodes) == Ok::<_, PstError>(data),
        forall|i: int, j: int|
            0 <= i < j < properties.len() ==> (#[trigger] properties[i]).id <= (
            #[trigger] properties[j]).id,
    ensures
        records_in_pages(seq![data]) matches Some(records) && is_ascending(records),
{
    reveal(property_context::simple_context);
    let start: Seq<Seq<u8>> = seq![Seq::empty(), Seq::empty(), Seq::empty()];
    let none = Seq::<PropertyTreeRecord>::empty();
    assert(property_context::records_bytes(none, 0, 0) =~= Seq::empty());
    let all = lemma_simple_slots(properties, nodes, 0, start, Seq::empty(), none);
    let (slots, records) = property_context::simple_slots(
        properties,
        nodes,
        0,
        start,
        Seq::empty(),
    )->Ok_0;
    let root = HeapId { value: 64 };
    let header = heap_tree::tree_header(property_context::property_layout(), 0, root);
    let filled = slots.update(1, header).update(2, records);
    let pages = seq![data];
    let lookup = heap_laws::in_pages(pages);
    assert(slots[0] == start[0]);
    heap::law_single_page_heap(filled, HeapNodeType::Properties, HeapId { value: 32 }, data, 1);
    heap::law_single_page_heap(filled, HeapNodeType::Properties, HeapId { value: 32 }, data, 2);
    assert(lookup(HeapId { value: 32 }) == Some(header));
    assert(lookup(root) == Some(records));
    assert(header.subrange(4, 8) =~= bytes::le32(64));
    bytes::lemma_get32_le32(header, 4, 64);
    assert(heap_laws::read_user_root(pages) == HeapId { value: 32 });
    assert(heap_laws::read_tree(lookup, root, 2, 0) == Some(records));
    assert forall|i: int, j: int| 0 <= i < j < all.len() implies (#[trigger] all[i]).id <= (
    #[trigger] all[j]).id by {
        assert(simple_holds(slots, nodes, all[i], properties[i]));
        assert(simple_holds(slots, nodes, all[j], properties[j]));
        assert(properties[i].id <= properties[j].id);
    }
    lemma_ascending(all);
}

/// Whether no two simple properties have the same identifier.
pub open spec fn simple_distinct(properties: Seq<SimpleContents>) -> bool {
    forall|i: int, j: int|
        0 <= i < j < properties.len() ==> (#[trigger] properties[i]).id != (
        #[trigger] properties[j]).id
}

pub proof fn lemma_first_simple_at(properties: Seq<SimpleContents>, index: int, at: int)
    requires
        simple_distinct(properties),
        0 <= index <= at < properties.len(),
    ensures
        first_simple(properties, properties[at].id, index) == Some(properties[at]),
    decreases at - index,
{
    if index < at {
        assert(properties[index].id != properties[at].id);
        lemma_first_simple_at(properties, index + 1, at);
    }
}

/// Whether no two properties have the same identifier.
pub open spec fn properties_distinct(properties: Seq<(u16, EncodedValue)>) -> bool {
    forall|i: int, j: int|
        0 <= i < j < properties.len() ==> (#[trigger] properties[i]).0 != (
        #[trigger] properties[j]).0
}

pub proof fn lemma_first_property_at(
    properties: Seq<(u16, EncodedValue)>,
    index: int,
    at: int,
)
    requires
        properties_distinct(properties),
        0 <= index <= at < properties.len(),
        properties[at].1.prop_type != PropertyType::Null,
    ensures
        first_property(properties, properties[at].0, index) == Some(properties[at].1),
    decreases at - index,
{
    if index < at {
        assert(properties[index].0 != properties[at].0);
        lemma_first_property_at(properties, index + 1, at);
    }
}

} // verus!
