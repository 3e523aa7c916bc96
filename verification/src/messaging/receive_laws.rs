//! Which folder a name leads to, and which one receives new messages.

use vstd::prelude::*;

use crate::messaging::receive;
use crate::messaging::receive::{
    ChildFolder, LookupError, Mapping, ReceiveColumn, ReceiveRow, ReceivedValue,
};
use crate::ndb::ids::NodeId;
use crate::text;

verus! {

/// A character, with a lower case letter of ASCII in place of an upper case one.
pub open spec fn small_letter(c: char) -> int {
    let code = c as u32;
    if 0x41 <= code <= 0x5A {
        code + 0x20
    } else {
        code as int
    }
}

/// Whether two texts differ in the case of ASCII letters at most.
pub open spec fn differ_in_case(first: Seq<char>, second: Seq<char>) -> bool {
    first.len() == second.len() && forall|i: int|
        0 <= i < first.len() ==> small_letter(#[trigger] first[i]) == small_letter(second[i])
}

/// Names are compared but for the case of ASCII letters.
pub proof fn law_names_are_compared(first: Seq<char>, second: Seq<char>)
    ensures
        text::equal_ignoring_case(first, second) <==> differ_in_case(first, second),
{
    if text::equal_ignoring_case(first, second) {
        assert forall|i: int| 0 <= i < first.len() implies small_letter(#[trigger] first[i])
            == small_letter(second[i]) by {
            assert(text::folded(first[i]) == text::folded(second[i]));
        }
    }
    if differ_in_case(first, second) {
        assert forall|i: int| 0 <= i < first.len() implies text::folded(#[trigger] first[i])
            == text::folded(second[i]) by {
            assert(small_letter(first[i]) == small_letter(second[i]));
        }
    }
}

/// Whether a folder was opened and has the given name.
pub open spec fn has_name<E>(child: ChildFolder<E>, name: Seq<char>) -> bool {
    child.name matches Ok(Some(own)) && differ_in_case(own@, name)
}

/// Whether a folder is neither one that could not be opened nor one of the given name.
pub open spec fn is_passed<E>(child: ChildFolder<E>, name: Seq<char>) -> bool {
    child.name is Ok && !has_name(child, name)
}

/// A name leads to the first folder of that name. Where a folder before it could not be opened, that error is the
/// answer, and where there is no such folder at all, nothing is.
pub proof fn law_name_leads_to_first<E>(
    children: Seq<ChildFolder<E>>,
    name: Seq<char>,
    index: int,
)
    requires
        0 <= index <= children.len(),
    ensures
        match receive::child_named(children, name, index) {
            Ok(None) => forall|i: int|
                index <= i < children.len() ==> is_passed(#[trigger] children[i], name),
            Ok(Some(node)) => exists|i: int|
                index <= i < children.len() && has_name(#[trigger] children[i], name)
                    && children[i].node == node && forall|j: int|
                    index <= j < i ==> is_passed(#[trigger] children[j], name),
            Err(error) => exists|i: int|
                index <= i < children.len() && (#[trigger] children[i]).name == Err::<
                    Option<String>,
                    E,
                >(error) && forall|j: int|
                    index <= j < i ==> is_passed(#[trigger] children[j], name),
        },
    decreases children.len() - index,
{
    if index < children.len() {
        if let Ok(Some(own)) = children[index].name {
            law_names_are_compared(own@, name);
        }
        law_name_leads_to_first(children, name, index + 1);
        if is_passed(children[index], name) {
            let found = receive::child_named(children, name, index + 1);
            assert(receive::child_named(children, name, index) == found);
            match found {
                Ok(None) => {},
                Ok(Some(node)) => {
                    let i = choose|i: int|
                        index + 1 <= i < children.len() && has_name(#[trigger] children[i], name)
                            && children[i].node == node && forall|j: int|
                            index + 1 <= j < i ==> is_passed(#[trigger] children[j], name);
                    assert(has_name(children[i], name));
                },
                Err(error) => {
                    let i = choose|i: int|
                        index + 1 <= i < children.len() && (#[trigger] children[i]).name == Err::<
                            Option<String>,
                            E,
                        >(error) && forall|j: int|
                            index + 1 <= j < i ==> is_passed(#[trigger] children[j], name);
                    assert(children[i].name == Err::<Option<String>, E>(error));
                },
            }
        } else {
            assert(has_name(children[index], name) || children[index].name is Err);
        }
    }
}

/// The message class that a column says.
pub open spec fn column_class<E>(column: ReceiveColumn<E>) -> Option<Seq<char>> {
    match column.value {
        Some((reference, Ok(ReceivedValue::Text(class)))) => if column.prop_id == 0x001A
            && !reference.spec_is_null() {
            Some(class@)
        } else {
            None
        },
        _ => None,
    }
}

/// The folder that a column says: a number that is not 0 under 0x6605, or the node of an entry identifier under
/// 0x0FFF.
pub open spec fn column_folder<E>(column: ReceiveColumn<E>) -> Option<NodeId> {
    match column.value {
        Some((reference, Ok(ReceivedValue::Integer32(number)))) => if column.prop_id == 0x6605
            && number != 0 && !reference.spec_is_null() {
            Some(NodeId { value: number as u32 })
        } else {
            None
        },
        Some((reference, Ok(ReceivedValue::Binary(Ok(node))))) => if column.prop_id == 0x0FFF
            && !reference.spec_is_null() {
            Some(node)
        } else {
            None
        },
        _ => None,
    }
}

/// What the last column says that says a class, among the first `count`.
pub open spec fn last_class<E>(columns: Seq<ReceiveColumn<E>>, count: nat) -> Option<Seq<char>>
    decreases count,
{
    if count == 0 {
        None
    } else {
        match column_class(columns[count - 1]) {
            Some(class) => Some(class),
            None => last_class(columns, (count - 1) as nat),
        }
    }
}

/// What the last column says that says a folder, among the first `count`.
pub open spec fn last_folder<E>(columns: Seq<ReceiveColumn<E>>, count: nat) -> Option<NodeId>
    decreases count,
{
    if count == 0 {
        None
    } else {
        match column_folder(columns[count - 1]) {
            Some(folder) => Some(folder),
            None => last_folder(columns, (count - 1) as nat),
        }
    }
}

proof fn lemma_mapping<E>(mapping: Mapping, columns: Seq<ReceiveColumn<E>>, index: int)
    requires
        0 <= index <= columns.len(),
        mapping.message_class == last_class(columns, index as nat),
        mapping.folder == last_folder(columns, index as nat),
    ensures
        receive::with_columns(mapping, columns, index) matches Ok(all) ==> all.message_class
            == last_class(columns, columns.len()) && all.folder == last_folder(
            columns,
            columns.len(),
        ),
    decreases columns.len() - index,
{
    if index < columns.len() {
        if let Ok(next) = receive::with_column(mapping, columns[index]) {
            lemma_mapping(next, columns, index + 1);
        }
    }
}

/// A row of a receive-folder table is for the class and the folder that its last columns of them say.
pub proof fn law_row_says_class_and_folder<E>(columns: Seq<ReceiveColumn<E>>)
    ensures
        receive::with_columns(
            Mapping { message_class: None, folder: None },
            columns,
            0,
        ) matches Ok(mapping) ==> mapping.message_class == last_class(columns, columns.len())
            && mapping.folder == last_folder(columns, columns.len()),
{
    lemma_mapping(Mapping { message_class: None, folder: None }, columns, 0);
}

/// How well a row fits mail messages: 3 for the class `IPM.Note`, 2 for `IPM`, 1 for no class or an empty one, and
/// 0 for any other class and for a row without a folder.
pub open spec fn row_rank<E>(row: ReceiveRow<E>) -> int {
    match row.columns {
        Err(_) => 0,
        Ok(columns) => {
            let class = last_class(columns@, columns@.len());
            if last_folder(columns@, columns@.len()) is None {
                0
            } else {
                match class {
                    None => 1,
                    Some(class) => if differ_in_case(class, "IPM.Note"@) {
                        3
                    } else if differ_in_case(class, "IPM"@) {
                        2
                    } else if class.len() == 0 {
                        1
                    } else {
                        0
                    },
                }
            }
        },
    }
}

/// The folder of a row.
pub open spec fn row_folder<E>(row: ReceiveRow<E>) -> Option<NodeId> {
    match row.columns {
        Err(_) => None,
        Ok(columns) => last_folder(columns@, columns@.len()),
    }
}

proof fn lemma_better<E>(best: Option<(u8, NodeId)>, row: ReceiveRow<E>, mapping: Mapping)
    requires
        row.columns matches Ok(columns) && receive::with_columns(
            Mapping { message_class: None, folder: None },
            columns@,
            0,
        ) == Ok::<_, E>(mapping),
    ensures
        receive::better(best, mapping) == (if row_rank(row) > receive::best_rank(best) {
            Some((row_rank(row) as u8, row_folder(row)->Some_0))
        } else {
            best
        }),
{
    let columns = row.columns->Ok_0@;
    law_row_says_class_and_folder(columns);
    reveal_strlit("IPM.Note");
    reveal_strlit("IPM");
    if let Some(class) = mapping.message_class {
        law_names_are_compared(class, "IPM.Note"@);
        law_names_are_compared(class, "IPM"@);
    } else {
        let none = Seq::<char>::empty();
        law_names_are_compared(none, "IPM.Note"@);
        law_names_are_compared(none, "IPM"@);
    }
}

/// The folder of the rows of a table is that of the first row of the best rank, unless the best so far has that rank
/// already: no row has a better one, and where no row is better the best so far is kept.
pub proof fn law_best_row_is_first<E>(
    best: Option<(u8, NodeId)>,
    rows: Seq<ReceiveRow<E>>,
    index: int,
)
    requires
        0 <= index <= rows.len(),
    ensures
        receive::best_of_rows(best, rows, index) matches Ok(found) ==> ({
            &&& forall|i: int|
                index <= i < rows.len() ==> row_rank(#[trigger] rows[i]) <= receive::best_rank(
                    found,
                )
            &&& found == best || exists|i: int|
                index <= i < rows.len() && row_rank(#[trigger] rows[i]) == receive::best_rank(
                    found,
                ) && row_rank(rows[i]) > receive::best_rank(best) && found == Some(
                    (row_rank(rows[i]) as u8, row_folder(rows[i])->Some_0),
                ) && forall|j: int|
                    index <= j < i ==> row_rank(#[trigger] rows[j]) < row_rank(rows[i])
            &&& receive::best_rank(found) >= receive::best_rank(best)
        }),
    decreases rows.len() - index,
{
    if index < rows.len() {
        if let Ok(columns) = rows[index].columns {
            if let Ok(mapping) = receive::with_columns(
                Mapping { message_class: None, folder: None },
                columns@,
                0,
            ) {
                lemma_better(best, rows[index], mapping);
                let next = receive::better(best, mapping);
                law_best_row_is_first(next, rows, index + 1);
                if let Ok(found) = receive::best_of_rows(next, rows, index + 1) {
                    if found == next {
                        if next != best {
                            assert(row_rank(rows[index]) == receive::best_rank(found));
                        }
                    } else {
                        let i = choose|i: int|
                            index + 1 <= i < rows.len() && row_rank(#[trigger] rows[i])
                                == receive::best_rank(found) && row_rank(rows[i])
                                > receive::best_rank(next) && found == Some(
                                (row_rank(rows[i]) as u8, row_folder(rows[i])->Some_0),
                            ) && forall|j: int|
                                index + 1 <= j < i ==> row_rank(#[trigger] rows[j]) < row_rank(
                                    rows[i],
                                );
                        assert(row_rank(rows[i]) == receive::best_rank(found));
                    }
                }
            }
        }
    }
}

/// Without a folder named Inbox no table can make a folder receive new messages that does not fit mail messages,
/// and a folder is found where one of the rows that were read fits.
pub proof fn law_receive_folder_fits<E>(
    children: Vec<ChildFolder<E>>,
    tables: Seq<Option<Vec<ReceiveRow<E>>>>,
    rows: Vec<ReceiveRow<E>>,
)
    requires
        forall|i: int|
            0 <= i < children@.len() ==> is_passed(#[trigger] children@[i], "Inbox"@),
        tables == seq![Some(rows)],
    ensures
        match receive::receive_folder(Some(children), tables) {
            Ok(node) => exists|i: int|
                0 <= i < rows@.len() && row_rank(#[trigger] rows@[i]) > 0 && row_folder(rows@[i])
                    == Some(node) && (forall|j: int|
                    0 <= j < rows@.len() ==> row_rank(#[trigger] rows@[j]) <= row_rank(rows@[i]))
                    && forall|j: int|
                    0 <= j < i ==> row_rank(#[trigger] rows@[j]) < row_rank(rows@[i]),
            Err(LookupError::Missing(_)) => forall|i: int|
                0 <= i < rows@.len() ==> row_rank(#[trigger] rows@[i]) == 0,
            Err(LookupError::Read(_)) => true,
        },
{
    law_name_leads_to_first(children@, "Inbox"@, 0);
    law_best_row_is_first(None, rows@, 0);
    reveal_with_fuel(receive::best_of_tables, 3);
    assert forall|row: ReceiveRow<E>| row_rank(row) >= 0 && (row_rank(row) > 0 ==> row_folder(row)
        is Some) by {}
    if let Ok(Some(found)) = receive::best_of_rows(None, rows@, 0) {
        let i = choose|i: int|
            0 <= i < rows@.len() && row_rank(#[trigger] rows@[i]) == receive::best_rank(Some(found))
                && row_rank(rows@[i]) > 0 && Some(found) == Some(
                (row_rank(rows@[i]) as u8, row_folder(rows@[i])->Some_0),
            ) && forall|j: int| 0 <= j < i ==> row_rank(#[trigger] rows@[j]) < row_rank(rows@[i]);
        assert(row_rank(rows@[i]) > 0);
    }
}

} // verus!
