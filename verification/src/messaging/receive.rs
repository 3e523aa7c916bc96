//! Finding folders: by name below a parent, and the one that receives new messages.

use vstd::prelude::*;

use crate::error::IoError;
use crate::ltp::heap::HeapId;
use crate::ndb::ids::NodeId;
use crate::text;

verus! {

/// A folder below another one: its node, and its name where it has one. Opening it may have failed.
pub struct ChildFolder<E> {
    pub node: NodeId,
    pub name: Result<Option<String>, E>,
}

/// Whether a folder has the given name, but for the case of ASCII letters.
pub open spec fn is_named(name: Option<String>, wanted: Seq<char>) -> bool {
    match name {
        Some(name) => text::equal_ignoring_case(name@, wanted),
        None => false,
    }
}

/// The first of the folders from `index` on with the given name. A folder before it that could not
/// be opened is an error.
pub open spec fn child_named<E>(
    children: Seq<ChildFolder<E>>,
    name: Seq<char>,
    index: int,
) -> Result<Option<NodeId>, E>
    decreases children.len() - index,
{
    if index >= children.len() {
        Ok(None)
    } else {
        match children[index].name {
            Err(error) => Err(error),
            Ok(child) => if is_named(child, name) {
                Ok(Some(children[index].node))
            } else {
                child_named(children, name, index + 1)
            },
        }
    }
}

/// A result that refers to its error.
pub open spec fn with_error<T, E>(result: Result<T, &E>) -> Result<T, E> {
    match result {
        Ok(value) => Ok(value),
        Err(error) => Err(*error),
    }
}

/// The first folder with the given name, but for the case of ASCII letters. A folder before it that
/// could not be opened is an error.
pub fn find_child_folder<'a, E>(children: &'a Vec<ChildFolder<E>>, name: &str) -> (child: Result<
    Option<NodeId>,
    &'a E,
>)
    ensures
        with_error(child) == child_named(children@, name@, 0),
{
    let mut i: usize = 0;
    while i < children.len()
        invariant
            i <= children@.len(),
            child_named(children@, name@, 0) == child_named(children@, name@, i as int),
        decreases children@.len() - i,
    {
        match &children[i].name {
            Err(error) => {
                return Err(error);
            },
            Ok(Some(child)) => {
                if text::eq_ignore_ascii_case(child.as_str(), name) {
                    return Ok(Some(children[i].node));
                }
            },
            Ok(None) => {},
        }
        i += 1;
    }
    Ok(None)
}

/// Where the value of a column stands: in the row, in the heap of the table, or in a subnode.
pub enum ColumnReference {
    Small,
    Heap(HeapId),
    Node(NodeId),
}

impl ColumnReference {
    /// Whether the reference names nothing.
    pub open spec fn spec_is_null(self) -> bool {
        match self {
            ColumnReference::Small => false,
            ColumnReference::Heap(id) => id.value == 0,
            ColumnReference::Node(node) => node.value == 0,
        }
    }

    /// Whether the reference names nothing.
    pub fn is_null(&self) -> (null: bool)
        ensures
            null == self.spec_is_null(),
    {
        match self {
            ColumnReference::Small => false,
            ColumnReference::Heap(id) => id.value == 0,
            ColumnReference::Node(node) => node.value == 0,
        }
    }
}

/// A value of a receive-folder table: text in either encoding, a number, or bytes, of which the node
/// that they name as an entry identifier is given. Taking them as one may have failed.
pub enum ReceivedValue<E> {
    Text(String),
    Integer32(i32),
    Binary(Result<NodeId, E>),
    Other,
}

/// A column of a row: its property, and its value where it has one. Reading it may have failed.
pub struct ReceiveColumn<E> {
    pub prop_id: u16,
    pub value: Option<(ColumnReference, Result<ReceivedValue<E>, E>)>,
}

/// A row of a receive-folder table. Reading its columns may have failed.
pub struct ReceiveRow<E> {
    pub columns: Result<Vec<ReceiveColumn<E>>, E>,
}

/// The message class that a row is for, and its folder, as far as they are known.
pub struct Mapping {
    pub message_class: Option<Seq<char>>,
    pub folder: Option<NodeId>,
}

/// The mapping with one more column.
pub open spec fn with_column<E>(mapping: Mapping, column: ReceiveColumn<E>) -> Result<Mapping, E> {
    match column.value {
        None => Ok(mapping),
        Some((reference, value)) => if reference.spec_is_null() {
            Ok(mapping)
        } else if column.prop_id == 0x001A {
            match value {
                Err(error) => Err(error),
                Ok(ReceivedValue::Text(class)) => Ok(
                    Mapping { message_class: Some(class@), ..mapping },
                ),
                Ok(_) => Ok(mapping),
            }
        } else if column.prop_id == 0x6605 {
            match value {
                Err(error) => Err(error),
                Ok(ReceivedValue::Integer32(number)) if number != 0 => Ok(
                    Mapping { folder: Some(NodeId { value: number as u32 }), ..mapping },
                ),
                Ok(_) => Ok(mapping),
            }
        } else if column.prop_id == 0x0FFF {
            match value {
                Err(error) => Err(error),
                Ok(ReceivedValue::Binary(Err(error))) => Err(error),
                Ok(ReceivedValue::Binary(Ok(node))) => Ok(
                    Mapping { folder: Some(node), ..mapping },
                ),
                Ok(_) => Ok(mapping),
            }
        } else {
            Ok(mapping)
        },
    }
}

/// The mapping with the columns from `index` on.
pub open spec fn with_columns<E>(
    mapping: Mapping,
    columns: Seq<ReceiveColumn<E>>,
    index: int,
) -> Result<Mapping, E>
    decreases columns.len() - index,
{
    if index >= columns.len() {
        Ok(mapping)
    } else {
        match with_column(mapping, columns[index]) {
            Err(error) => Err(error),
            Ok(next) => with_columns(next, columns, index + 1),
        }
    }
}

/// How well a message class fits mail messages; 0 where it does not.
pub open spec fn class_rank(class: Seq<char>) -> u8 {
    if text::equal_ignoring_case(class, "IPM.Note"@) {
        3
    } else if text::equal_ignoring_case(class, "IPM"@) {
        2
    } else if class.len() == 0 {
        1
    } else {
        0
    }
}

/// The best folder so far and its rank.
pub open spec fn best_rank(best: Option<(u8, NodeId)>) -> u8 {
    match best {
        Some((rank, _)) => rank,
        None => 0,
    }
}

/// The better of the best folder so far and that of a mapping. The earlier one of two with the same
/// rank is kept.
pub open spec fn better(best: Option<(u8, NodeId)>, mapping: Mapping) -> Option<(u8, NodeId)> {
    match mapping.folder {
        None => best,
        Some(folder) => {
            let rank = class_rank(
                match mapping.message_class {
                    Some(class) => class,
                    None => Seq::empty(),
                },
            );
            if rank > best_rank(best) {
                Some((rank, folder))
            } else {
                best
            }
        },
    }
}

/// The best folder of the rows from `index` on.
pub open spec fn best_of_rows<E>(
    best: Option<(u8, NodeId)>,
    rows: Seq<ReceiveRow<E>>,
    index: int,
) -> Result<Option<(u8, NodeId)>, E>
    decreases rows.len() - index,
{
    if index >= rows.len() {
        Ok(best)
    } else {
        match rows[index].columns {
            Err(error) => Err(error),
            Ok(columns) => match with_columns(
                Mapping { message_class: None, folder: None },
                columns@,
                0,
            ) {
                Err(error) => Err(error),
                Ok(mapping) => best_of_rows(better(best, mapping), rows, index + 1),
            },
        }
    }
}

/// The best folder of the tables from `index` on. A table that could not be read is passed over.
pub open spec fn best_of_tables<E>(
    best: Option<(u8, NodeId)>,
    tables: Seq<Option<Vec<ReceiveRow<E>>>>,
    index: int,
) -> Result<Option<(u8, NodeId)>, E>
    decreases tables.len() - index,
{
    if index >= tables.len() {
        Ok(best)
    } else {
        match tables[index] {
            None => best_of_tables(best, tables, index + 1),
            Some(rows) => match best_of_rows(best, rows@, 0) {
                Err(error) => Err(error),
                Ok(next) => best_of_tables(next, tables, index + 1),
            },
        }
    }
}

/// Why no receive folder was found: something could not be read, or it is not there.
pub enum LookupError<E> {
    Read(E),
    Missing(IoError),
}

/// The folder that receives new messages: the one named Inbox below the top of the folders, or else
/// the one that a receive-folder table names for the class that fits mail messages best.
pub open spec fn receive_folder<E>(
    children: Option<Vec<ChildFolder<E>>>,
    tables: Seq<Option<Vec<ReceiveRow<E>>>>,
) -> Result<NodeId, LookupError<E>> {
    match children {
        None => Err(LookupError::Missing(IoError::IpmHierarchyTableNotFound)),
        Some(children) => match child_named(children@, "Inbox"@, 0) {
            Err(error) => Err(LookupError::Read(error)),
            Ok(Some(node)) => Ok(node),
            Ok(None) => match best_of_tables(None, tables, 0) {
                Err(error) => Err(LookupError::Read(error)),
                Ok(Some((_, node))) => Ok(node),
                Ok(None) => Err(LookupError::Missing(IoError::ReceiveFolderNotFound)),
            },
        },
    }
}

/// The class and the folder of a row so far.
struct RowMapping<'a> {
    message_class: Option<&'a str>,
    folder: Option<NodeId>,
}

impl<'a> View for RowMapping<'a> {
    type V = Mapping;

    closed spec fn view(&self) -> Mapping {
        Mapping {
            message_class: match self.message_class {
                Some(class) => Some(class@),
                None => None,
            },
            folder: self.folder,
        }
    }
}

/// The mapping with one more column.
fn add_column<'a, E>(mapping: RowMapping<'a>, column: &'a ReceiveColumn<E>) -> (result: Result<
    RowMapping<'a>,
    &'a E,
>)
    ensures
        match with_column(mapping@, *column) {
            Ok(next) => result matches Ok(after) && after@ == next,
            Err(error) => result matches Err(found) && *found == error,
        },
{
    let (reference, value) = match &column.value {
        None => {
            return Ok(mapping);
        },
        Some(pair) => (&pair.0, &pair.1),
    };
    if reference.is_null() {
        return Ok(mapping);
    }
    if column.prop_id != 0x001A && column.prop_id != 0x6605 && column.prop_id != 0x0FFF {
        return Ok(mapping);
    }
    let value: &ReceivedValue<E> = match value {
        Err(error) => {
            return Err(error);
        },
        Ok(value) => value,
    };
    let mut after = mapping;
    match value {
        ReceivedValue::Text(class) => {
            if column.prop_id == 0x001A {
                after.message_class = Some(class.as_str());
            }
        },
        ReceivedValue::Integer32(number) => {
            if column.prop_id == 0x6605 && *number != 0 {
                after.folder = Some(
                    NodeId {
                        value: #[verifier::truncate]
                        (*number as u32),
                    },
                );
            }
        },
        ReceivedValue::Binary(node) => {
            if column.prop_id == 0x0FFF {
                match node {
                    Ok(node) => {
                        after.folder = Some(*node);
                    },
                    Err(error) => {
                        return Err(error);
                    },
                }
            }
        },
        ReceivedValue::Other => {},
    }
    Ok(after)
}

/// The mapping of a row.
fn read_mapping<'a, E>(columns: &'a Vec<ReceiveColumn<E>>) -> (result: Result<
    RowMapping<'a>,
    &'a E,
>)
    ensures
        match with_columns(Mapping { message_class: None, folder: None }, columns@, 0) {
            Ok(mapping) => result matches Ok(after) && after@ == mapping,
            Err(error) => result matches Err(found) && *found == error,
        },
{
    let mut mapping: RowMapping<'a> = RowMapping { message_class: None, folder: None };
    let mut i: usize = 0;
    while i < columns.len()
        invariant
            i <= columns@.len(),
            with_columns(Mapping { message_class: None, folder: None }, columns@, 0)
                == with_columns(mapping@, columns@, i as int),
        decreases columns@.len() - i,
    {
        mapping = match add_column(mapping, &columns[i]) {
            Ok(next) => next,
            Err(error) => {
                return Err(error);
            },
        };
        i += 1;
    }
    Ok(mapping)
}

/// How well a message class fits mail messages; 0 where it does not.
pub fn rank_class(class: &str) -> (rank: u8)
    ensures
        rank == class_rank(class@),
{
    if text::eq_ignore_ascii_case(class, "IPM.Note") {
        3
    } else if text::eq_ignore_ascii_case(class, "IPM") {
        2
    } else if class.unicode_len() == 0 {
        1
    } else {
        0
    }
}

/// The better of the best folder so far and that of a mapping.
fn pick_better(best: Option<(u8, NodeId)>, mapping: RowMapping<'_>) -> (picked: Option<
    (u8, NodeId),
>)
    ensures
        picked == better(best, mapping@),
{
    let folder: NodeId = match mapping.folder {
        None => {
            return best;
        },
        Some(folder) => folder,
    };
    let rank: u8 = match mapping.message_class {
        Some(class) => rank_class(class),
        None => {
            proof {
                reveal_strlit("IPM.Note");
                reveal_strlit("IPM");
            }
            1
        },
    };
    let so_far: u8 = match best {
        Some((rank, _)) => rank,
        None => 0,
    };
    if rank > so_far {
        Some((rank, folder))
    } else {
        best
    }
}

/// The best folder of the rows of a table.
fn best_row<'a, E>(best: Option<(u8, NodeId)>, rows: &'a Vec<ReceiveRow<E>>) -> (result: Result<
    Option<(u8, NodeId)>,
    &'a E,
>)
    ensures
        with_error(result) == best_of_rows(best, rows@, 0),
{
    let mut found: Option<(u8, NodeId)> = best;
    let mut i: usize = 0;
    while i < rows.len()
        invariant
            i <= rows@.len(),
            best_of_rows(best, rows@, 0) == best_of_rows(found, rows@, i as int),
        decreases rows@.len() - i,
    {
        let columns = match &rows[i].columns {
            Ok(columns) => columns,
            Err(error) => {
                return Err(error);
            },
        };
        let mapping = match read_mapping(columns) {
            Ok(mapping) => mapping,
            Err(error) => {
                return Err(error);
            },
        };
        found = pick_better(found, mapping);
        i += 1;
    }
    Ok(found)
}

/// The folder that receives new messages: the one named Inbox below the top of the folders, or else
/// the one that a receive-folder table names for the class that fits mail messages best. `children`
/// are the folders below the top one, where that has a hierarchy table, and `tables` the rows of the
/// receive-folder tables that could be read.
pub fn default_receive_folder<'a, E>(
    children: &'a Option<Vec<ChildFolder<E>>>,
    tables: &'a Vec<Option<Vec<ReceiveRow<E>>>>,
) -> (folder: Result<NodeId, LookupError<&'a E>>)
    ensures
        match receive_folder(*children, tables@) {
            Ok(node) => folder == Ok::<NodeId, LookupError<&E>>(node),
            Err(LookupError::Missing(error)) => folder == Err::<NodeId, LookupError<&E>>(
                LookupError::Missing(error),
            ),
            Err(LookupError::Read(error)) => folder matches Err(LookupError::Read(found)) && *found
                == error,
        },
{
    let below: &'a Vec<ChildFolder<E>> = match children {
        Some(below) => below,
        None => {
            return Err(LookupError::Missing(IoError::IpmHierarchyTableNotFound));
        },
    };
    match find_child_folder(below, "Inbox") {
        Err(error) => {
            return Err(LookupError::Read(error));
        },
        Ok(Some(node)) => {
            return Ok(node);
        },
        Ok(None) => {},
    }
    let mut best: Option<(u8, NodeId)> = None;
    let mut i: usize = 0;
    while i < tables.len()
        invariant
            i <= tables@.len(),
            *children == Some(*below),
            child_named(below@, "Inbox"@, 0) == Ok::<Option<NodeId>, E>(None),
            best_of_tables(None, tables@, 0) == best_of_tables(best, tables@, i as int),
        decreases tables@.len() - i,
    {
        match &tables[i] {
            None => {},
            Some(rows) => {
                best = match best_row(best, rows) {
                    Ok(next) => next,
                    Err(error) => {
                        return Err(LookupError::Read(error));
                    },
                };
            },
        }
        i += 1;
    }
    match best {
        Some((_, node)) => Ok(node),
        None => Err(LookupError::Missing(IoError::ReceiveFolderNotFound)),
    }
}

/// A folder named Inbox receives new messages whatever the receive-folder tables say.
pub proof fn law_inbox_comes_first<E>(
    children: Vec<ChildFolder<E>>,
    tables: Seq<Option<Vec<ReceiveRow<E>>>>,
    node: NodeId,
)
    requires
        child_named(children@, "Inbox"@, 0) == Ok::<Option<NodeId>, E>(Some(node)),
    ensures
        receive_folder(Some(children), tables) == Ok::<NodeId, LookupError<E>>(node),
{
}

/// Later rows and tables never replace a folder for `IPM.Note`.
pub proof fn law_best_rank_is_kept<E>(
    folder: NodeId,
    tables: Seq<Option<Vec<ReceiveRow<E>>>>,
    index: int,
)
    requires
        0 <= index,
    ensures
        best_of_tables(Some((3u8, folder)), tables, index) matches Ok(best) ==> best == Some(
            (3u8, folder),
        ),
    decreases tables.len() - index,
{
    if index < tables.len() {
        if let Some(rows) = tables[index] {
            lemma_best_row_is_kept(folder, rows@, 0);
        }
        law_best_rank_is_kept(folder, tables, index + 1);
    }
}

proof fn lemma_best_row_is_kept<E>(folder: NodeId, rows: Seq<ReceiveRow<E>>, index: int)
    requires
        0 <= index,
    ensures
        best_of_rows(Some((3u8, folder)), rows, index) matches Ok(best) ==> best == Some(
            (3u8, folder),
        ),
    decreases rows.len() - index,
{
    if index < rows.len() {
        lemma_best_row_is_kept(folder, rows, index + 1);
    }
}

} // verus!
