//! Following a path of folder names, and creating the folders that are missing.

use vstd::prelude::*;

use crate::messaging::receive;
use crate::messaging::receive::ChildFolder;
use crate::ndb::ids::NodeId;
use crate::text;

verus! {

/// What is to be done next on the way along a path.
#[derive(Clone, Copy, PartialEq, Eq, Debug, Structural)]
pub enum FolderStep {
    /// The path ends here.
    Done(NodeId),
    /// The next name is that of this folder.
    Descend(NodeId),
    /// The next name, at this position of the path, is that of no folder below the given one.
    Create(NodeId, usize),
}

/// What is to be done at name `index` of a path below `parent`, whose folders are `children`.
pub open spec fn path_step<E>(
    names: Seq<&str>,
    index: usize,
    parent: NodeId,
    children: Seq<ChildFolder<E>>,
) -> Result<FolderStep, E> {
    if index >= names.len() {
        Ok(FolderStep::Done(parent))
    } else {
        match receive::child_named(children, names[index as int]@, 0) {
            Err(error) => Err(error),
            Ok(Some(node)) => Ok(FolderStep::Descend(node)),
            Ok(None) => Ok(FolderStep::Create(parent, index)),
        }
    }
}

/// What is to be done at name `index` of a path below `parent`, whose folders are `children`: nothing at
/// the end of the path, and else to go on with the first folder of that name, but for the case of ASCII
/// letters, or to create one. A folder before it that could not be opened is an error.
pub fn folder_step<'a, E>(
    names: &[&str],
    index: usize,
    parent: NodeId,
    children: &'a Vec<ChildFolder<E>>,
) -> (step: Result<FolderStep, &'a E>)
    requires
        index <= names@.len(),
    ensures
        receive::with_error(step) == path_step(names@, index, parent, children@),
{
    if index == names.len() {
        return Ok(FolderStep::Done(parent));
    }
    match receive::find_child_folder(children, names[index]) {
        Err(error) => Err(error),
        Ok(Some(node)) => Ok(FolderStep::Descend(node)),
        Ok(None) => Ok(FolderStep::Create(parent, index)),
    }
}

/// Whether two paths have the same names, but for the case of ASCII letters.
pub open spec fn same_path(first: Seq<&str>, second: Seq<&str>) -> bool {
    first.len() == second.len() && forall|i: int|
        0 <= i < first.len() ==> text::equal_ignoring_case(
            (#[trigger] first[i])@,
            second[i]@,
        )
}

/// The folder at the end of a path from name `index` on, where every folder on it is there. `folders`
/// gives the folders below each folder.
pub open spec fn folder_at<E>(
    names: Seq<&str>,
    index: usize,
    parent: NodeId,
    folders: spec_fn(NodeId) -> Seq<ChildFolder<E>>,
) -> Option<NodeId>
    decreases names.len() - index,
{
    match path_step(names, index, parent, folders(parent)) {
        Ok(FolderStep::Done(node)) => Some(node),
        Ok(FolderStep::Descend(node)) => if index < names.len() <= usize::MAX {
            folder_at(names, (index + 1) as usize, node, folders)
        } else {
            None
        },
        _ => None,
    }
}

proof fn lemma_same_child<E>(
    children: Seq<ChildFolder<E>>,
    first: Seq<char>,
    second: Seq<char>,
    index: int,
)
    requires
        0 <= index,
        text::equal_ignoring_case(first, second),
    ensures
        receive::child_named(children, first, index) == receive::child_named(
            children,
            second,
            index,
        ),
    decreases children.len() - index,
{
    if index < children.len() {
        if let Ok(Some(name)) = children[index].name {
            assert(text::equal_ignoring_case(name@, first) == text::equal_ignoring_case(
                name@,
                second,
            )) by {
                if text::equal_ignoring_case(name@, first) {
                    assert forall|i: int| 0 <= i < name@.len() implies text::folded(
                        #[trigger] name@[i],
                    ) == text::folded(second[i]) by {
                        assert(text::folded(first[i]) == text::folded(second[i]));
                    }
                }
                if text::equal_ignoring_case(name@, second) {
                    assert forall|i: int| 0 <= i < name@.len() implies text::folded(
                        #[trigger] name@[i],
                    ) == text::folded(first[i]) by {
                        assert(text::folded(first[i]) == text::folded(second[i]));
                    }
                }
            }
        }
        lemma_same_child(children, first, second, index + 1);
    }
}

/// Paths whose names are equal but for the case of ASCII letters go the same way, step by step.
pub proof fn law_case_does_not_change_a_step<E>(
    first: Seq<&str>,
    second: Seq<&str>,
    index: usize,
    parent: NodeId,
    children: Seq<ChildFolder<E>>,
)
    requires
        same_path(first, second),
    ensures
        path_step(first, index, parent, children) == path_step(second, index, parent, children),
{
    if index < first.len() {
        assert(text::equal_ignoring_case(first[index as int]@, second[index as int]@));
        lemma_same_child(children, first[index as int]@, second[index as int]@, 0);
    }
}

/// Where every folder on a path is there, a path with the same names but for the case of ASCII letters
/// leads to the same folder and creates none.
pub proof fn law_case_leads_to_the_same_folder<E>(
    first: Seq<&str>,
    second: Seq<&str>,
    index: usize,
    parent: NodeId,
    folders: spec_fn(NodeId) -> Seq<ChildFolder<E>>,
)
    requires
        same_path(first, second),
    ensures
        folder_at(first, index, parent, folders) == folder_at(second, index, parent, folders),
    decreases first.len() - index,
{
    law_case_does_not_change_a_step(first, second, index, parent, folders(parent));
    if let Ok(FolderStep::Descend(node)) = path_step(first, index, parent, folders(parent)) {
        if index < first.len() <= usize::MAX {
            law_case_leads_to_the_same_folder(first, second, (index + 1) as usize, node, folders);
        }
    }
}

/// A path is at its end where it has no more names, and there its folder is the one that was reached. A folder is created
/// below the one that was reached, with the next name, and only where every folder there could be opened and none has
/// that name. A folder that the path goes on with is the first there with that name.
pub proof fn law_step_follows_the_path<E>(
    names: Seq<&str>,
    index: usize,
    parent: NodeId,
    children: Seq<ChildFolder<E>>,
)
    ensures
        match path_step(names, index, parent, children) {
            Ok(FolderStep::Done(node)) => index >= names.len() && node == parent,
            Ok(FolderStep::Create(node, at)) => {
                &&& index < names.len()
                &&& node == parent
                &&& at == index
                &&& forall|i: int|
                    0 <= i < children.len() ==> ((#[trigger] children[i]).name matches Ok(name)
                        && !receive::is_named(name, names[index as int]@))
            },
            Ok(FolderStep::Descend(node)) => index < names.len() && exists|i: int|
                0 <= i < children.len() && (#[trigger] children[i]).node == node && (
                children[i].name matches Ok(name) && receive::is_named(
                    name,
                    names[index as int]@,
                )) && forall|j: int|
                    0 <= j < i ==> ((#[trigger] children[j]).name matches Ok(name)
                        && !receive::is_named(name, names[index as int]@)),
            Err(error) => index < names.len() && exists|i: int|
                0 <= i < children.len() && (#[trigger] children[i]).name == Err::<
                    Option<String>,
                    E,
                >(error),
        },
{
    if index < names.len() {
        lemma_child_named(children, names[index as int]@, 0);
    }
}

proof fn lemma_child_named<E>(children: Seq<ChildFolder<E>>, name: Seq<char>, index: int)
    requires
        0 <= index <= children.len(),
    ensures
        match receive::child_named(children, name, index) {
            Ok(None) => forall|i: int|
                index <= i < children.len() ==> ((#[trigger] children[i]).name matches Ok(child)
                    && !receive::is_named(child, name)),
            Ok(Some(node)) => exists|i: int|
                index <= i < children.len() && (#[trigger] children[i]).node == node && (
                children[i].name matches Ok(child) && receive::is_named(child, name)) && forall|j: int|
                    index <= j < i ==> ((#[trigger] children[j]).name matches Ok(child)
                        && !receive::is_named(child, name)),
            Err(error) => exists|i: int|
                index <= i < children.len() && (#[trigger] children[i]).name == Err::<
                    Option<String>,
                    E,
                >(error),
        },
    decreases children.len() - index,
{
    if index < children.len() {
        let first = children[index];
        if first.name matches Ok(child) && !receive::is_named(child, name) {
            lemma_child_named(children, name, index + 1);
        }
    }
}

/// Where all folders could be opened and one of them has the next name of a path, but for the case of
/// ASCII letters, the path goes on below a folder of that name, and none is created.
pub proof fn law_existing_folder_is_not_created<E>(
    names: Seq<&str>,
    index: usize,
    parent: NodeId,
    children: Seq<ChildFolder<E>>,
    at: int,
)
    requires
        index < names.len(),
        0 <= at < children.len(),
        children[at].name matches Ok(name) && receive::is_named(name, names[index as int]@),
        forall|i: int| 0 <= i < children.len() ==> (#[trigger] children[i]).name is Ok,
    ensures
        path_step(names, index, parent, children) matches Ok(FolderStep::Descend(node))
            && exists|i: int|
            0 <= i <= at && (#[trigger] children[i]).node == node && (children[i].name matches Ok(
                name,
            ) && receive::is_named(name, names[index as int]@)),
{
    lemma_child_is_found(children, names[index as int]@, 0, at);
}

proof fn lemma_child_is_found<E>(
    children: Seq<ChildFolder<E>>,
    name: Seq<char>,
    index: int,
    at: int,
)
    requires
        0 <= index <= at < children.len(),
        children[at].name matches Ok(child) && receive::is_named(child, name),
        forall|i: int| 0 <= i < children.len() ==> (#[trigger] children[i]).name is Ok,
    ensures
        receive::child_named(children, name, index) matches Ok(Some(node)) && exists|i: int|
            index <= i <= at && (#[trigger] children[i]).node == node && (children[i].name matches Ok(
                child,
            ) && receive::is_named(child, name)),
    decreases at - index,
{
    assert(children[index].name is Ok);
    if !(children[index].name matches Ok(child) && receive::is_named(child, name)) {
        lemma_child_is_found(children, name, index + 1, at);
    }
}

} // verus!
