//! Walks over the pages of a B-tree. The caller reads each page and hands it in.

use vstd::prelude::*;

use crate::error::PstError;
use crate::ndb::btree::UnicodeBTreePageEntry;
use crate::ndb::ids::UnicodePageRef;
use crate::sorting;
use crate::sorting::Keyed;

verus! {

/// The number of levels that a walk goes down.
pub const MAX_WALK_DEPTH: u8 = 8;

/// A page of a B-tree that was read.
pub enum BTreePage<T> {
    /// The level and the children of an intermediate page.
    Intermediate(u8, Vec<UnicodeBTreePageEntry>),
    /// The entries of a leaf page.
    Leaf(Vec<T>),
}

/// The contents of a page of a B-tree.
pub enum BTreePageContents<T> {
    Intermediate(u8, Seq<UnicodeBTreePageEntry>),
    Leaf(Seq<T>),
}

impl<T> View for BTreePage<T> {
    type V = BTreePageContents<T>;

    open spec fn view(&self) -> BTreePageContents<T> {
        match self {
            BTreePage::Intermediate(level, children) => BTreePageContents::Intermediate(
                *level,
                children@,
            ),
            BTreePage::Leaf(entries) => BTreePageContents::Leaf(entries@),
        }
    }
}

/// A page that is still to be read, and its depth below the root.
#[derive(Clone, Copy, PartialEq, Eq, Debug, Structural)]
pub struct PendingPage {
    pub page: UnicodePageRef,
    pub depth: u8,
}

/// The entries below `page`, which lies `depth` levels below the root of the tree in `file`.
pub open spec fn entries_below<T>(
    file: spec_fn(UnicodePageRef) -> BTreePageContents<T>,
    page: UnicodePageRef,
    depth: int,
) -> Result<Seq<T>, PstError>
    decreases MAX_WALK_DEPTH + 1 - depth, 0nat,
{
    if depth > MAX_WALK_DEPTH {
        Err(PstError::InvalidBTreePage(page.index))
    } else {
        match file(page) {
            BTreePageContents::Leaf(entries) => Ok(entries),
            BTreePageContents::Intermediate(_, children) => entries_of_children(
                file,
                children,
                0,
                depth + 1,
            ),
        }
    }
}

/// The entries below the children from `index` on.
pub open spec fn entries_of_children<T>(
    file: spec_fn(UnicodePageRef) -> BTreePageContents<T>,
    children: Seq<UnicodeBTreePageEntry>,
    index: int,
    depth: int,
) -> Result<Seq<T>, PstError>
    decreases MAX_WALK_DEPTH + 1 - depth, children.len() - index + 1,
{
    if index >= children.len() {
        Ok(Seq::empty())
    } else if depth > MAX_WALK_DEPTH {
        Err(PstError::InvalidBTreePage(children[index].block.index))
    } else {
        match entries_below(file, children[index].block, depth) {
            Err(error) => Err(error),
            Ok(first) => match entries_of_children(file, children, index + 1, depth) {
                Err(error) => Err(error),
                Ok(rest) => Ok(first + rest),
            },
        }
    }
}

/// The entries below the pending pages, the last of them first.
pub open spec fn entries_of_pending<T>(
    file: spec_fn(UnicodePageRef) -> BTreePageContents<T>,
    pending: Seq<PendingPage>,
) -> Result<Seq<T>, PstError>
    decreases pending.len(),
{
    if pending.len() == 0 {
        Ok(Seq::empty())
    } else {
        match entries_below(file, pending.last().page, pending.last().depth as int) {
            Err(error) => Err(error),
            Ok(first) => match entries_of_pending(file, pending.drop_last()) {
                Err(error) => Err(error),
                Ok(rest) => Ok(first + rest),
            },
        }
    }
}

/// `pending` with the children from `index` on, the first of them last.
pub open spec fn with_children(
    pending: Seq<PendingPage>,
    children: Seq<UnicodeBTreePageEntry>,
    index: int,
    depth: u8,
) -> Seq<PendingPage>
    decreases children.len() - index,
{
    if index >= children.len() {
        pending
    } else {
        with_children(pending, children, index + 1, depth).push(
            PendingPage { page: children[index].block, depth },
        )
    }
}

proof fn lemma_children_pending<T>(
    file: spec_fn(UnicodePageRef) -> BTreePageContents<T>,
    pending: Seq<PendingPage>,
    children: Seq<UnicodeBTreePageEntry>,
    index: int,
    depth: u8,
)
    requires
        0 <= index <= children.len(),
    ensures
        entries_of_pending(file, with_children(pending, children, index, depth)) == (
        match entries_of_children(file, children, index, depth as int) {
            Err(error) => Err(error),
            Ok(first) => match entries_of_pending(file, pending) {
                Err(error) => Err(error),
                Ok(rest) => Ok(first + rest),
            },
        }),
    decreases children.len() - index,
{
    if index < children.len() {
        lemma_children_pending(file, pending, children, index + 1, depth);
        let rest = with_children(pending, children, index + 1, depth);
        let all = with_children(pending, children, index, depth);
        assert(all.drop_last() =~= rest);
        if let Ok(first) = entries_below(file, children[index].block, depth as int) {
            if let Ok(second) = entries_of_children(file, children, index + 1, depth as int) {
                if let Ok(third) = entries_of_pending(file, pending) {
                    assert(first + (second + third) =~= (first + second) + third);
                }
            }
        }
    } else {
        if let Ok(rest) = entries_of_pending(file, pending) {
            assert(Seq::<T>::empty() + rest =~= rest);
        }
    }
}

/// A walk that collects the entries of a B-tree.
pub struct BTreeWalk<T> {
    pub pending: Vec<PendingPage>,
    pub entries: Vec<T>,
}

/// What a walk has still to read and what it has collected.
#[verifier::ext_equal]
pub struct WalkState<T> {
    pub pending: Seq<PendingPage>,
    pub entries: Seq<T>,
}

impl<T> View for BTreeWalk<T> {
    type V = WalkState<T>;

    open spec fn view(&self) -> WalkState<T> {
        WalkState { pending: self.pending@, entries: self.entries@ }
    }
}

/// The state after `page` was read, which had been `depth` levels below the root.
pub open spec fn after_page<T>(
    state: WalkState<T>,
    depth: u8,
    page: BTreePageContents<T>,
) -> WalkState<T> {
    match page {
        BTreePageContents::Leaf(entries) => WalkState {
            pending: state.pending,
            entries: state.entries + entries,
        },
        BTreePageContents::Intermediate(_, children) => WalkState {
            pending: with_children(state.pending, children, 0, (depth + 1) as u8),
            entries: state.entries,
        },
    }
}

/// What a walk collects in all: what it has, and the entries below what is pending.
pub open spec fn walk_outcome<T>(
    file: spec_fn(UnicodePageRef) -> BTreePageContents<T>,
    state: WalkState<T>,
) -> Result<Seq<T>, PstError> {
    match entries_of_pending(file, state.pending) {
        Err(error) => Err(error),
        Ok(rest) => Ok(state.entries + rest),
    }
}

/// Reading the pending pages of a tree one by one collects the entries below its root in order: the
/// outcome of the walk stays the same from the root to the end.
pub proof fn law_walk_collects<T>(
    file: spec_fn(UnicodePageRef) -> BTreePageContents<T>,
    state: WalkState<T>,
    root: UnicodePageRef,
)
    ensures
        walk_outcome(
            file,
            (WalkState { pending: seq![PendingPage { page: root, depth: 0 }], entries: Seq::empty() }),
        ) == entries_below(file, root, 0),
        state.pending.len() == 0 ==> walk_outcome(file, state) == Ok::<_, PstError>(state.entries),
        state.pending.len() > 0 && state.pending.last().depth <= MAX_WALK_DEPTH ==> walk_outcome(
            file,
            after_page(
                (WalkState { pending: state.pending.drop_last(), entries: state.entries }),
                state.pending.last().depth,
                file(state.pending.last().page),
            ),
        ) == walk_outcome(file, state),
        state.pending.len() > 0 && state.pending.last().depth > MAX_WALK_DEPTH ==> walk_outcome(
            file,
            state,
        ) == Err::<Seq<T>, _>(PstError::InvalidBTreePage(state.pending.last().page.index)),
{
    let start = seq![PendingPage { page: root, depth: 0 }];
    assert(start.drop_last() =~= Seq::empty());
    assert(start.last() == (PendingPage { page: root, depth: 0 }));
    assert(entries_of_pending(file, start.drop_last()) == Ok::<_, PstError>(Seq::<T>::empty()));
    if let Ok(entries) = entries_below(file, root, 0) {
        assert(Seq::<T>::empty() + (entries + Seq::<T>::empty()) =~= entries);
    }
    if state.pending.len() == 0 {
        assert(state.entries + Seq::<T>::empty() =~= state.entries);
    } else if state.pending.last().depth <= MAX_WALK_DEPTH {
        let top = state.pending.last();
        let rest = state.pending.drop_last();
        match file(top.page) {
            BTreePageContents::Leaf(entries) => {
                if let Ok(others) = entries_of_pending(file, rest) {
                    assert(state.entries + (entries + others) =~= (state.entries + entries)
                        + others);
                }
            },
            BTreePageContents::Intermediate(_, children) => {
                lemma_children_pending(file, rest, children, 0, (top.depth + 1) as u8);
            },
        }
    }
}

impl<T: Copy> BTreeWalk<T> {
    /// A walk from the root of a B-tree.
    pub fn new(root: UnicodePageRef) -> (walk: BTreeWalk<T>)
        ensures
            walk@ == (WalkState {
                pending: seq![PendingPage { page: root, depth: 0 }],
                entries: Seq::<T>::empty(),
            }),
    {
        let mut pending: Vec<PendingPage> = Vec::new();
        pending.push(PendingPage { page: root, depth: 0 });
        let walk = BTreeWalk { pending, entries: Vec::new() };
        assert(walk@.pending =~= seq![PendingPage { page: root, depth: 0 }]);
        walk
    }

    /// Takes the page that is to be read next. One too far below the root is refused.
    pub fn next(&mut self) -> (page: Result<Option<PendingPage>, PstError>)
        ensures
            final(self)@.entries == old(self)@.entries,
            match page {
                Ok(None) => old(self)@.pending.len() == 0 && final(self)@ == old(self)@,
                Ok(Some(page)) => old(self)@.pending.len() > 0 && page == old(self)@.pending.last()
                    && page.depth <= MAX_WALK_DEPTH && final(self)@.pending
                    == old(self)@.pending.drop_last(),
                Err(error) => old(self)@.pending.len() > 0 && old(self)@.pending.last().depth
                    > MAX_WALK_DEPTH && error == PstError::InvalidBTreePage(
                    old(self)@.pending.last().page.index,
                ),
            },
    {
        match self.pending.pop() {
            None => Ok(None),
            Some(pending) => {
                if pending.depth > MAX_WALK_DEPTH {
                    return Err(PstError::InvalidBTreePage(pending.page.index));
                }
                Ok(Some(pending))
            },
        }
    }

    /// Takes in a page that was read, which lies `depth` levels below the root.
    pub fn visit(&mut self, depth: u8, page: &BTreePage<T>)
        requires
            depth <= MAX_WALK_DEPTH,
        ensures
            final(self)@ == after_page(old(self)@, depth, page@),
    {
        match page {
            BTreePage::Leaf(entries) => {
                let mut i: usize = 0;
                while i < entries.len()
                    invariant
                        i <= entries@.len(),
                        self.pending@ == old(self).pending@,
                        self.entries@ == old(self).entries@ + entries@.take(i as int),
                    decreases entries@.len() - i,
                {
                    self.entries.push(entries[i]);
                    i += 1;
                    assert(self.entries@ =~= old(self).entries@ + entries@.take(i as int));
                }
                assert(entries@.take(i as int) =~= entries@);
            },
            BTreePage::Intermediate(_, children) => {
                let mut i: usize = children.len();
                while i > 0
                    invariant
                        i <= children@.len(),
                        depth <= MAX_WALK_DEPTH,
                        self.entries@ == old(self).entries@,
                        self.pending@ == with_children(
                            old(self).pending@,
                            children@,
                            i as int,
                            (depth + 1) as u8,
                        ),
                    decreases i,
                {
                    i -= 1;
                    self.pending.push(PendingPage { page: children[i].block, depth: depth + 1 });
                }
            },
        }
        assert(self@ =~= after_page(old(self)@, depth, page@));
    }
}

impl<T: Copy + Keyed> BTreeWalk<T> {
    /// The collected entries by ascending key.
    pub fn finish(self) -> (entries: Vec<T>)
        ensures
            entries@ == sorting::sorted_by_key(self@.entries),
    {
        sorting::sort_by_key(&self.entries)
    }
}

} // verus!
