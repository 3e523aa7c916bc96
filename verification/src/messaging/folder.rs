//! Folders: their names, their properties and their row in the hierarchy table of their parent.

use vstd::prelude::*;

use crate::bytes;
use crate::error::{IoError, PstError};
use crate::ltp::heap;
use crate::ltp::property;
use crate::ltp::property::{EncodedValue, PropertyType, PropertyValue};
use crate::ltp::property_context;
use crate::ltp::property_context::{SimpleContents, SimpleProperty};
use crate::ltp::rebuild;
use crate::ltp::rebuild::{
    NewRowContents, NewTableRow, RebuiltContents, RebuiltTable, TableContents, TableContext,
};
use crate::ltp::table;
use crate::ltp::table::{
    CellContents, TableCell, TableColumnDescriptor, LTP_ROW_ID_PROP_ID, LTP_ROW_VERSION_PROP_ID,
};
use crate::messaging::attachment;
use crate::messaging::message;
use crate::messaging::recipient;
use crate::ndb::ids::NodeId;

verus! {

/// Whether a folder path has names and none of them is empty.
pub open spec fn path_is_valid(folder_path: Seq<&str>) -> bool {
    folder_path.len() > 0 && forall|i: int|
        0 <= i < folder_path.len() ==> (#[trigger] folder_path[i])@.len() > 0
}

/// Refuses a folder path without names or with an empty one.
pub fn validate_folder_path(folder_path: &[&str]) -> (result: Result<(), PstError>)
    ensures
        result == (if path_is_valid(folder_path@) {
            Ok(())
        } else {
            Err(PstError::Io(IoError::InvalidFolderPath))
        }),
{
    if folder_path.len() == 0 {
        return Err(PstError::Io(IoError::InvalidFolderPath));
    }
    let mut i: usize = 0;
    while i < folder_path.len()
        invariant
            i <= folder_path@.len(),
            folder_path@.len() > 0,
            forall|j: int| 0 <= j < i ==> (#[trigger] folder_path@[j])@.len() > 0,
        decreases folder_path@.len() - i,
    {
        if folder_path[i].unicode_len() == 0 {
            assert(folder_path@[i as int]@.len() == 0);
            return Err(PstError::Io(IoError::InvalidFolderPath));
        }
        i += 1;
    }
    Ok(())
}

/// The flag of a folder with or without folders in it.
pub open spec fn subfolder_flag(has_subfolders: bool) -> u32 {
    if has_subfolders {
        1
    } else {
        0
    }
}

/// The properties of a folder: its name, the number of its messages, that none is unread, whether
/// there are folders in it, and its class.
pub open spec fn folder_properties(
    name: Seq<char>,
    content_count: u32,
    has_subfolders: bool,
) -> Seq<SimpleContents> {
    seq![
        attachment::text_property(0x3001, name),
        attachment::number_property(0x3602, content_count),
        attachment::number_property(0x3603, 0),
        SimpleContents {
            id: 0x360A,
            prop_type: PropertyType::Boolean,
            value: None,
            small: subfolder_flag(has_subfolders),
        },
        attachment::text_property(0x3613, "IPF.Note"@),
    ]
}

/// The bytes of the property context of a folder.
pub open spec fn folder_context(
    name: Seq<char>,
    content_count: nat,
    has_subfolders: bool,
) -> Result<Seq<u8>, PstError> {
    if content_count > u32::MAX {
        Err(PstError::IntegerConversion)
    } else {
        property_context::simple_context(
            folder_properties(name, content_count as u32, has_subfolders),
            Seq::empty(),
        )
    }
}

/// The bytes of the property context of a folder.
pub fn folder_data(name: &str, content_count: usize, has_subfolders: bool) -> (data: Result<
    Vec<u8>,
    PstError,
>)
    ensures
        crate::error::result_view(data) == folder_context(
            name@,
            content_count as nat,
            has_subfolders,
        ),
{
    if content_count > u32::MAX as usize {
        return Err(PstError::IntegerConversion);
    }
    let mut properties: Vec<SimpleProperty> = Vec::new();
    properties.push(attachment::new_text_property(0x3001, name));
    properties.push(attachment::new_number_property(0x3602, content_count as u32));
    properties.push(attachment::new_number_property(0x3603, 0));
    properties.push(
        SimpleProperty::with_small(
            0x360A,
            PropertyType::Boolean,
            if has_subfolders {
                1
            } else {
                0
            },
        ),
    );
    properties.push(attachment::new_text_property(0x3613, "IPF.Note"));
    assert(bytes::views(properties@) =~= folder_properties(
        name@,
        content_count as u32,
        has_subfolders,
    ));
    property_context::property_context_data(properties)
}

/// The cell of a folder in the hierarchy table of its parent.
pub open spec fn folder_cell(
    column: TableColumnDescriptor,
    store_record_key: Seq<u8>,
    folder: NodeId,
    name: Seq<char>,
    has_subfolders: bool,
    row_version: u32,
) -> Option<CellContents> {
    let id = column.prop_id;
    let prop_type = column.prop_type;
    if id == 0x3001 {
        recipient::text_cell(prop_type, name)
    } else if id == 0x3613 {
        recipient::text_cell(prop_type, "IPF.Note"@)
    } else if id == LTP_ROW_ID_PROP_ID && prop_type == PropertyType::Integer32 {
        recipient::number_cell(folder.value)
    } else if id == LTP_ROW_VERSION_PROP_ID && prop_type == PropertyType::Integer32 {
        recipient::number_cell(row_version)
    } else if (id == 0x3602 || id == 0x3603) && prop_type == PropertyType::Integer32 {
        recipient::number_cell(0)
    } else if id == 0x360A && prop_type == PropertyType::Boolean {
        recipient::flag_cell(has_subfolders)
    } else if id == 0x0FFF && prop_type == PropertyType::Binary {
        Some(CellContents::Bytes(message::entry_id(store_record_key, folder)))
    } else {
        None
    }
}

/// The cell of a folder in the hierarchy table of its parent.
pub fn new_folder_table_cell(
    column: &TableColumnDescriptor,
    store_record_key: &[u8; 16],
    folder: NodeId,
    name: &str,
    has_subfolders: bool,
    row_version: u32,
) -> (cell: Option<TableCell>)
    ensures
        table::cell_view(cell) == folder_cell(
            *column,
            store_record_key@,
            folder,
            name@,
            has_subfolders,
            row_version,
        ),
{
    let prop_type: PropertyType = column.prop_type;
    match column.prop_id {
        0x3001 => recipient::string_table_cell(prop_type, name),
        0x3613 => recipient::string_table_cell(prop_type, "IPF.Note"),
        id => match prop_type {
            PropertyType::Integer32 => if id == LTP_ROW_ID_PROP_ID {
                recipient::new_number_cell(folder.value)
            } else if id == LTP_ROW_VERSION_PROP_ID {
                recipient::new_number_cell(row_version)
            } else if id == 0x3602 || id == 0x3603 {
                recipient::new_number_cell(0)
            } else {
                None
            },
            PropertyType::Boolean => if id == 0x360A {
                recipient::new_flag_cell(has_subfolders)
            } else {
                None
            },
            PropertyType::Binary => if id == 0x0FFF {
                Some(TableCell::Bytes(message::entry_id_bytes(store_record_key, folder)))
            } else {
                None
            },
            _ => None,
        },
    }
}

/// The row of a folder in the hierarchy table of its parent.
pub open spec fn folder_row(
    columns: Seq<TableColumnDescriptor>,
    store_record_key: Seq<u8>,
    folder: NodeId,
    name: Seq<char>,
    has_subfolders: bool,
    row_version: u32,
) -> NewRowContents {
    NewRowContents {
        id: folder,
        cells: Seq::new(
            columns.len(),
            |i: int|
                folder_cell(
                    columns[i],
                    store_record_key,
                    folder,
                    name,
                    has_subfolders,
                    row_version,
                ),
        ),
    }
}

/// The hierarchy table of a folder with one more folder. The rows that it has are kept.
pub open spec fn hierarchy_table(
    table: TableContents,
    store_record_key: Seq<u8>,
    folder: NodeId,
    name: Seq<char>,
    has_subfolders: bool,
    rows_node: NodeId,
    row_version: u32,
) -> Result<RebuiltContents, PstError> {
    rebuild::spec_rebuild_table(
        table,
        seq![
            folder_row(
                table.layout.columns,
                store_record_key,
                folder,
                name,
                has_subfolders,
                row_version,
            ),
        ],
        Some(rows_node),
        row_version,
        None,
        true,
    )
}

/// Whether a hierarchy table can be written anew with one more folder: its row can hold its cells, and the
/// heap can be written to.
pub open spec fn hierarchy_fits(
    table: TableContents,
    store_record_key: Seq<u8>,
    folder: NodeId,
    name: Seq<char>,
    has_subfolders: bool,
    row_version: u32,
) -> bool {
    let row = folder_row(
        table.layout.columns,
        store_record_key,
        folder,
        name,
        has_subfolders,
        row_version,
    );
    rebuild::rows_fit(table, seq![row], row_version, None, true) && heap::heap_wf(table.pages)
}

/// Whether a hierarchy table can be written anew with one more folder.
pub fn can_rebuild_hierarchy_table(
    table: &TableContext,
    store_record_key: &[u8; 16],
    folder: NodeId,
    name: &str,
    has_subfolders: bool,
    row_version: u32,
) -> (can: bool)
    ensures
        can == hierarchy_fits(
            table@,
            store_record_key@,
            folder,
            name@,
            has_subfolders,
            row_version,
        ),
{
    let rows = new_folder_rows(
        &table.context.columns,
        store_record_key,
        folder,
        name,
        has_subfolders,
        row_version,
    );
    let fits: bool = rebuild::can_rebuild_table(table, &rows, row_version, &None, true);
    fits && rebuild::has_heap(table)
}

/// The row of a folder in the hierarchy table of its parent, alone.
fn new_folder_rows(
    columns: &Vec<TableColumnDescriptor>,
    store_record_key: &[u8; 16],
    folder: NodeId,
    name: &str,
    has_subfolders: bool,
    row_version: u32,
) -> (rows: Vec<NewTableRow>)
    ensures
        bytes::views(rows@) == seq![
            folder_row(
                columns@,
                store_record_key@,
                folder,
                name@,
                has_subfolders,
                row_version,
            ),
        ],
{
    let ghost row = folder_row(
        columns@,
        store_record_key@,
        folder,
        name@,
        has_subfolders,
        row_version,
    );
    let mut cells: Vec<Option<TableCell>> = Vec::new();
    let mut i: usize = 0;
    while i < columns.len()
        invariant
            i <= columns@.len(),
            row == folder_row(
                columns@,
                store_record_key@,
                folder,
                name@,
                has_subfolders,
                row_version,
            ),
            table::cell_views(cells@) == row.cells.take(i as int),
        decreases columns@.len() - i,
    {
        let ghost before = cells@;
        let cell = new_folder_table_cell(
            &columns[i],
            store_record_key,
            folder,
            name,
            has_subfolders,
            row_version,
        );
        cells.push(cell);
        assert(table::cell_views(cells@) =~= table::cell_views(before).push(
            table::cell_view(cell),
        ));
        i += 1;
        assert(table::cell_views(cells@) =~= row.cells.take(i as int));
    }
    assert(row.cells.take(i as int) =~= row.cells);
    let mut rows: Vec<NewTableRow> = Vec::new();
    rows.push(NewTableRow { id: folder, cells });
    assert(rows@[0]@ == row);
    assert(bytes::views(rows@) =~= seq![row]);
    rows
}

/// Adds a folder to the hierarchy table of its parent. The rows that it has are kept.
pub fn rebuild_hierarchy_table(
    table: &TableContext,
    store_record_key: &[u8; 16],
    folder: NodeId,
    name: &str,
    has_subfolders: bool,
    rows_node: NodeId,
    row_version: u32,
) -> (result: Result<RebuiltTable, PstError>)
    requires
        hierarchy_fits(
            table@,
            store_record_key@,
            folder,
            name@,
            has_subfolders,
            row_version,
        ),
    ensures
        crate::error::result_view(result) == hierarchy_table(
            table@,
            store_record_key@,
            folder,
            name@,
            has_subfolders,
            rows_node,
            row_version,
        ),
{
    let rows = new_folder_rows(
        &table.context.columns,
        store_record_key,
        folder,
        name,
        has_subfolders,
        row_version,
    );
    rebuild::rebuild_table(table, rows, Some(rows_node), row_version, None, true)
}

/// The properties of a folder that are written back: all that it has, in their order.
pub fn writable_folder_properties(properties: &Vec<(u16, PropertyValue)>) -> (writable: Vec<
    (u16, PropertyValue),
>)
    ensures
        bytes::views(writable@) == bytes::views(properties@),
{
    let ghost all = bytes::views(properties@);
    let mut writable: Vec<(u16, PropertyValue)> = Vec::new();
    let mut i: usize = 0;
    assert(bytes::views(writable@) =~= all.take(0));
    while i < properties.len()
        invariant
            i <= properties@.len(),
            all == bytes::views(properties@),
            bytes::views(writable@) == all.take(i as int),
        decreases properties@.len() - i,
    {
        let ghost before = bytes::views(writable@);
        let id: u16 = properties[i].0;
        writable.push((id, properties[i].1.copy()));
        assert(bytes::views(writable@) =~= before.push(all[i as int]));
        i += 1;
        assert(bytes::views(writable@) =~= all.take(i as int));
    }
    assert(all.take(i as int) =~= all);
    writable
}

/// The properties with one of them set: the first with that identifier, or a new one.
pub open spec fn with_property(
    properties: Seq<(u16, EncodedValue)>,
    id: u16,
    value: EncodedValue,
    index: int,
) -> Seq<(u16, EncodedValue)>
    decreases properties.len() - index,
{
    if index < 0 || index >= properties.len() {
        properties.push((id, value))
    } else if properties[index].0 == id {
        properties.update(index, (id, value))
    } else {
        with_property(properties, id, value, index + 1)
    }
}

/// Sets one property: the first with that identifier, or a new one.
fn set_folder_property(properties: &mut Vec<(u16, PropertyValue)>, id: u16, value: PropertyValue)
    ensures
        bytes::views(final(properties)@) == with_property(
            bytes::views(old(properties)@),
            id,
            value@,
            0,
        ),
{
    let ghost before = bytes::views(properties@);
    let ghost encoded = value@;
    let mut i: usize = 0;
    while i < properties.len()
        invariant
            i <= properties@.len(),
            bytes::views(properties@) == before,
            before == bytes::views(old(properties)@),
            encoded == value@,
            with_property(before, id, encoded, 0) == with_property(before, id, encoded, i as int),
        decreases properties@.len() - i,
    {
        assert(before[i as int].0 == properties@[i as int].0);
        if properties[i].0 == id {
            properties.set(i, (id, value));
            assert(bytes::views(properties@) =~= before.update(i as int, (id, encoded)));
            return;
        }
        i += 1;
    }
    properties.push((id, value));
    assert(bytes::views(properties@) =~= before.push((id, encoded)));
}

/// Sets a property to a number.
pub fn set_folder_integer_property(properties: &mut Vec<(u16, PropertyValue)>, id: u16, value: i32)
    ensures
        bytes::views(final(properties)@) == with_property(
            bytes::views(old(properties)@),
            id,
            property::integer32_value(value as u32),
            0,
        ),
{
    set_folder_property(
        properties,
        id,
        property::integer32(
            #[verifier::truncate]
            (value as u32),
        ),
    );
}

/// Sets a property to a flag.
pub fn set_folder_boolean_property(properties: &mut Vec<(u16, PropertyValue)>, id: u16, value: bool)
    ensures
        bytes::views(final(properties)@) == with_property(
            bytes::views(old(properties)@),
            id,
            property::boolean_value(value),
            0,
        ),
{
    set_folder_property(properties, id, PropertyValue::Boolean(value));
}

/// Setting a property leaves the others as they are, and the list has it afterwards.
pub proof fn law_with_property(
    properties: Seq<(u16, EncodedValue)>,
    id: u16,
    value: EncodedValue,
    index: int,
)
    requires
        0 <= index <= properties.len(),
    ensures
        ({
            let after = with_property(properties, id, value, index);
            &&& after.contains((id, value))
            &&& properties.len() <= after.len() <= properties.len() + 1
            &&& forall|i: int|
                0 <= i < properties.len() && (#[trigger] properties[i]).0 != id ==> after[i]
                    == properties[i]
        }),
    decreases properties.len() - index,
{
    let after = with_property(properties, id, value, index);
    if index >= properties.len() {
        assert(after[properties.len() as int] == (id, value));
    } else if properties[index].0 == id {
        assert(after[index] == (id, value));
    } else {
        law_with_property(properties, id, value, index + 1);
    }
}

} // verus!
