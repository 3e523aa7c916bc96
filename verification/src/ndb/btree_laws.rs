//! What holds of planned B-tree pages.

use vstd::prelude::*;

use crate::ndb::allocation;
use crate::ndb::block_laws;
use crate::ndb::btree;
use crate::ndb::btree::{
    PageContents, PagePlan, PageType, PlannedPage, UnicodeBTreePageEntry, UnicodeBlockBTreeEntry,
    UnicodeNodeBTreeEntry, BTREE_CAPACITY, MAX_BTREE_LEVEL, NODE_LEAF_CAPACITY,
};
use crate::ndb::ids::UnicodePageRef;
use crate::ndb::levels;
use crate::sorting::Keyed;

verus! {

/// Whether a page holds no more entries than it has room for, and at least one.
pub open spec fn page_fits(data: PageContents) -> bool {
    match data {
        PageContents::BlockLeaf(entries) => 1 <= entries.len() <= BTREE_CAPACITY,
        PageContents::NodeLeaf(entries) => 1 <= entries.len() <= NODE_LEAF_CAPACITY,
        PageContents::Intermediate(_, level, entries) => 1 <= entries.len() <= BTREE_CAPACITY && 1
            <= level <= MAX_BTREE_LEVEL,
    }
}

/// Whether a plan is well formed: its pages stand aligned where pages may stand, one behind the
/// other, and no two have the same identifier.
pub open spec fn pages_wf(plan: PagePlan) -> bool {
    &&& forall|i: int|
        0 <= i < plan.pages.len() ==> page_fits((#[trigger] plan.pages[i]).data)
            && plan.pages[i].page_ref.index % allocation::PAGE_SIZE == 0
            && allocation::range_is_free(
            plan.pages[i].page_ref.index as int,
            allocation::PAGE_SIZE as int,
        ) && plan.pages[i].page_ref.index + allocation::PAGE_SIZE <= plan.next_offset
            && plan.pages[i].page_ref.block.value < plan.next_page.value
    &&& forall|i: int, j: int|
        0 <= i < j < plan.pages.len() ==> (#[trigger] plan.pages[i]).page_ref.index
            + allocation::PAGE_SIZE <= (#[trigger] plan.pages[j]).page_ref.index
            && plan.pages[i].page_ref.block.value < plan.pages[j].page_ref.block.value
}

/// Whether `after` holds the pages of `before`, then new pages behind them.
pub open spec fn pages_grow(before: PagePlan, after: PagePlan) -> bool {
    &&& before.pages.len() <= after.pages.len()
    &&& after.pages.take(before.pages.len() as int) == before.pages
    &&& before.next_page.value <= after.next_page.value
    &&& before.next_offset <= after.next_offset
    &&& forall|i: int|
        before.pages.len() <= i < after.pages.len() ==> (
        #[trigger] after.pages[i]).page_ref.index >= before.next_offset
            && after.pages[i].page_ref.block.value >= before.next_page.value
}

pub proof fn lemma_pages_grow_transitive(first: PagePlan, second: PagePlan, third: PagePlan)
    requires
        pages_grow(first, second),
        pages_grow(second, third),
    ensures
        pages_grow(first, third),
{
    assert(third.pages.take(first.pages.len() as int) =~= first.pages) by {
        assert forall|i: int| 0 <= i < first.pages.len() implies third.pages[i]
            == first.pages[i] by {
            assert(second.pages.take(first.pages.len() as int)[i] == first.pages[i]);
            assert(third.pages.take(second.pages.len() as int)[i] == second.pages[i]);
        }
    }
    assert forall|i: int|
        first.pages.len() <= i < third.pages.len() implies (
        #[trigger] third.pages[i]).page_ref.index >= first.next_offset
        && third.pages[i].page_ref.block.value >= first.next_page.value by {
        if i < second.pages.len() {
            assert(third.pages.take(second.pages.len() as int)[i] == second.pages[i]);
        }
    }
}

/// Planning a page keeps the plan well formed and only adds to it.
pub proof fn law_page(plan: PagePlan, data: PageContents)
    requires
        pages_wf(plan),
        page_fits(data),
    ensures
        pages_wf(btree::with_page(plan, data).0),
        pages_grow(plan, btree::with_page(plan, data).0),
        btree::with_page(plan, data).1 matches Ok(page_ref) ==> ({
            let after = btree::with_page(plan, data).0;
            &&& after.pages.len() == plan.pages.len() + 1
            &&& after.pages.last() == (PlannedPage { page_ref, data })
        }),
{
    let after = btree::with_page(plan, data).0;
    allocation::law_reserved_offset_is_first_fit(plan.next_offset as int, 512, 512);
    if btree::with_page(plan, data).1 is Ok {
        assert(after.pages == plan.pages.push(after.pages.last()));
    }
    assert(after.pages.take(plan.pages.len() as int) =~= plan.pages);
}

/// The page with the given reference.
pub open spec fn find_page(pages: Seq<PlannedPage>, page_ref: UnicodePageRef) -> Option<
    PlannedPage,
>
    decreases pages.len(),
{
    if pages.len() == 0 {
        None
    } else if pages.last().page_ref == page_ref {
        Some(pages.last())
    } else {
        find_page(pages.drop_last(), page_ref)
    }
}

/// The entry of a node or of a block.
pub enum LeafEntry {
    Block(UnicodeBlockBTreeEntry),
    Node(UnicodeNodeBTreeEntry),
}

impl LeafEntry {
    /// The key of the entry.
    pub open spec fn key(self) -> u64 {
        match self {
            LeafEntry::Block(entry) => entry.spec_key(),
            LeafEntry::Node(entry) => entry.spec_key(),
        }
    }
}

/// The entries of blocks as leaf entries.
pub open spec fn block_entries(entries: Seq<UnicodeBlockBTreeEntry>) -> Seq<LeafEntry> {
    Seq::new(entries.len(), |i: int| LeafEntry::Block(entries[i]))
}

/// The entries of nodes as leaf entries.
pub open spec fn node_entries(entries: Seq<UnicodeNodeBTreeEntry>) -> Seq<LeafEntry> {
    Seq::new(entries.len(), |i: int| LeafEntry::Node(entries[i]))
}

/// The entries of a B-tree of the given type whose root is `page_ref`, at `level`. Every
/// intermediate page has to name its type, its level, and the first key below each child.
pub open spec fn read_btree(
    pages: Seq<PlannedPage>,
    page_type: PageType,
    page_ref: UnicodePageRef,
    level: nat,
) -> Option<Seq<LeafEntry>>
    decreases level, 0nat,
{
    match find_page(pages, page_ref) {
        None => None,
        Some(page) => match page.data {
            PageContents::BlockLeaf(entries) => if level == 0 && page_type
                == PageType::BlockBTree {
                Some(block_entries(entries))
            } else {
                None
            },
            PageContents::NodeLeaf(entries) => if level == 0 && page_type == PageType::NodeBTree {
                Some(node_entries(entries))
            } else {
                None
            },
            PageContents::Intermediate(named_type, named_level, children) => if level == 0
                || named_level != level || named_type != page_type {
                None
            } else {
                read_btree_children(
                    pages,
                    page_type,
                    children,
                    children.len(),
                    (level - 1) as nat,
                )
            },
        },
    }
}

/// The entries below the first `count` of `children`.
pub open spec fn read_btree_children(
    pages: Seq<PlannedPage>,
    page_type: PageType,
    children: Seq<UnicodeBTreePageEntry>,
    count: nat,
    level: nat,
) -> Option<Seq<LeafEntry>>
    decreases level, count + 1,
{
    if count == 0 {
        Some(Seq::empty())
    } else {
        match (
            read_btree_children(pages, page_type, children, (count - 1) as nat, level),
            read_btree(pages, page_type, children[count - 1].block, level),
        ) {
            (Some(before), Some(last)) => if last.len() > 0 && last[0].key() == children[count
                - 1].key {
                Some(before + last)
            } else {
                None
            },
            _ => None,
        }
    }
}

proof fn lemma_find_page_index(pages: Seq<PlannedPage>, page_ref: UnicodePageRef)
    ensures
        find_page(pages, page_ref) matches Some(found) ==> found.page_ref == page_ref && exists|
            i: int,
        |
            0 <= i < pages.len() && pages[i] == found,
    decreases pages.len(),
{
    if pages.len() > 0 {
        if pages.last().page_ref == page_ref {
            assert(pages[pages.len() - 1] == pages.last());
        } else {
            lemma_find_page_index(pages.drop_last(), page_ref);
            if let Some(found) = find_page(pages.drop_last(), page_ref) {
                let i = choose|i: int|
                    0 <= i < pages.drop_last().len() && pages.drop_last()[i] == found;
                assert(pages[i] == found);
            }
        }
    }
}

proof fn lemma_find_page_grows(before: PagePlan, after: PagePlan, page_ref: UnicodePageRef)
    requires
        pages_wf(before),
        pages_grow(before, after),
        find_page(before.pages, page_ref) is Some,
    ensures
        find_page(after.pages, page_ref) == find_page(before.pages, page_ref),
    decreases after.pages.len(),
{
    lemma_find_page_index(before.pages, page_ref);
    if after.pages.len() == before.pages.len() {
        assert(after.pages.take(before.pages.len() as int) =~= after.pages);
    } else {
        let shorter = PagePlan { pages: after.pages.drop_last(), ..after };
        assert(shorter.pages.take(before.pages.len() as int) =~= after.pages.take(
            before.pages.len() as int,
        ));
        assert(pages_grow(before, shorter)) by {
            assert forall|i: int|
                before.pages.len() <= i < shorter.pages.len() implies (
                #[trigger] shorter.pages[i]).page_ref.index >= before.next_offset
                && shorter.pages[i].page_ref.block.value >= before.next_page.value by {
                assert(shorter.pages[i] == after.pages[i]);
            }
        }
        lemma_find_page_grows(before, shorter, page_ref);
        assert(after.pages.last() == after.pages[after.pages.len() - 1]);
    }
}

/// What could be read from a plan can be read from every plan that grows from it.
pub proof fn law_read_btree_grows(
    before: PagePlan,
    after: PagePlan,
    page_type: PageType,
    page_ref: UnicodePageRef,
    level: nat,
)
    requires
        pages_wf(before),
        pages_grow(before, after),
        read_btree(before.pages, page_type, page_ref, level) is Some,
    ensures
        read_btree(after.pages, page_type, page_ref, level) == read_btree(
            before.pages,
            page_type,
            page_ref,
            level,
        ),
    decreases level, 0nat,
{
    lemma_find_page_grows(before, after, page_ref);
    if let PageContents::Intermediate(_, _, children) = find_page(
        before.pages,
        page_ref,
    )->Some_0.data {
        lemma_read_btree_children_grows(
            before,
            after,
            page_type,
            children,
            children.len(),
            (level - 1) as nat,
        );
    }
}

proof fn lemma_read_btree_children_grows(
    before: PagePlan,
    after: PagePlan,
    page_type: PageType,
    children: Seq<UnicodeBTreePageEntry>,
    count: nat,
    level: nat,
)
    requires
        pages_wf(before),
        pages_grow(before, after),
        read_btree_children(before.pages, page_type, children, count, level) is Some,
    ensures
        read_btree_children(after.pages, page_type, children, count, level)
            == read_btree_children(before.pages, page_type, children, count, level),
    decreases level, count + 1,
{
    if count > 0 {
        lemma_read_btree_children_grows(
            before,
            after,
            page_type,
            children,
            (count - 1) as nat,
            level,
        );
        law_read_btree_grows(before, after, page_type, children[count - 1].block, level);
    }
}

spec fn pages_hold(
    plan: PagePlan,
    page_type: PageType,
    children: Seq<UnicodeBTreePageEntry>,
    parts: Seq<Seq<LeafEntry>>,
    level: nat,
) -> bool {
    &&& children.len() == parts.len()
    &&& forall|i: int|
        0 <= i < children.len() ==> read_btree(
            plan.pages,
            page_type,
            (#[trigger] children[i]).block,
            level,
        ) == Some(parts[i]) && parts[i].len() > 0 && parts[i][0].key() == children[i].key
}

proof fn lemma_pages_hold_grows(
    before: PagePlan,
    after: PagePlan,
    page_type: PageType,
    children: Seq<UnicodeBTreePageEntry>,
    parts: Seq<Seq<LeafEntry>>,
    level: nat,
)
    requires
        pages_wf(before),
        pages_grow(before, after),
        pages_hold(before, page_type, children, parts, level),
    ensures
        pages_hold(after, page_type, children, parts, level),
{
    assert forall|i: int| 0 <= i < children.len() implies read_btree(
        after.pages,
        page_type,
        (#[trigger] children[i]).block,
        level,
    ) == Some(parts[i]) && parts[i].len() > 0 && parts[i][0].key() == children[i].key by {
        law_read_btree_grows(before, after, page_type, children[i].block, level);
    }
}

proof fn lemma_find_last_page(plan: PagePlan)
    requires
        plan.pages.len() > 0,
    ensures
        find_page(plan.pages, plan.pages.last().page_ref) == Some(plan.pages.last()),
{
}

proof fn lemma_block_leaves(
    plan: PagePlan,
    entries: Seq<UnicodeBlockBTreeEntry>,
    start: int,
    done: Seq<UnicodeBTreePageEntry>,
    done_parts: Seq<Seq<LeafEntry>>,
)
    requires
        pages_wf(plan),
        0 <= start <= entries.len(),
        pages_hold(plan, PageType::BlockBTree, done, done_parts, 0),
    ensures
        ({
            let (after, result) = btree::with_block_leaves(plan, entries, start, done);
            &&& pages_wf(after)
            &&& pages_grow(plan, after)
            &&& result matches Ok(children) ==> pages_hold(
                after,
                PageType::BlockBTree,
                children,
                done_parts + block_laws::level_parts(
                    block_laws::singletons(block_entries(entries)),
                    start,
                    BTREE_CAPACITY as int,
                ),
                0,
            )
        }),
    decreases entries.len() - start,
{
    let size = BTREE_CAPACITY as int;
    let all = block_laws::singletons(block_entries(entries));
    if start < entries.len() {
        let end = levels::group_end(start, size, entries.len() as int);
        let data = PageContents::BlockLeaf(entries.subrange(start, end));
        law_page(plan, data);
        if let (after, Ok(block)) = btree::with_page(plan, data) {
            let group = block_entries(entries.subrange(start, end));
            let next = done.push(UnicodeBTreePageEntry { key: entries[start].spec_key(), block });
            let next_parts = done_parts.push(group);
            lemma_pages_hold_grows(plan, after, PageType::BlockBTree, done, done_parts, 0);
            lemma_find_last_page(after);
            assert(pages_hold(after, PageType::BlockBTree, next, next_parts, 0)) by {
                assert forall|i: int| 0 <= i < next.len() implies read_btree(
                    after.pages,
                    PageType::BlockBTree,
                    (#[trigger] next[i]).block,
                    0,
                ) == Some(next_parts[i]) && next_parts[i].len() > 0 && next_parts[i][0].key()
                    == next[i].key by {
                    if i < done.len() {
                        assert(next[i] == done[i]);
                    }
                }
            }
            lemma_block_leaves(after, entries, end, next, next_parts);
            block_laws::lemma_joined_singletons(block_entries(entries), start, end);
            assert(block_entries(entries).subrange(start, end) =~= group);
            assert(next_parts + block_laws::level_parts(all, end, size) =~= done_parts
                + block_laws::level_parts(all, start, size));
            lemma_pages_grow_transitive(
                plan,
                after,
                btree::with_block_leaves(after, entries, end, next).0,
            );
        }
    } else {
        assert(plan.pages.take(plan.pages.len() as int) =~= plan.pages);
        assert(done_parts + block_laws::level_parts(all, start, size) =~= done_parts);
    }
}

proof fn lemma_node_leaves(
    plan: PagePlan,
    entries: Seq<UnicodeNodeBTreeEntry>,
    start: int,
    done: Seq<UnicodeBTreePageEntry>,
    done_parts: Seq<Seq<LeafEntry>>,
)
    requires
        pages_wf(plan),
        0 <= start <= entries.len(),
        pages_hold(plan, PageType::NodeBTree, done, done_parts, 0),
    ensures
        ({
            let (after, result) = btree::with_node_leaves(plan, entries, start, done);
            &&& pages_wf(after)
            &&& pages_grow(plan, after)
            &&& result matches Ok(children) ==> pages_hold(
                after,
                PageType::NodeBTree,
                children,
                done_parts + block_laws::level_parts(
                    block_laws::singletons(node_entries(entries)),
                    start,
                    NODE_LEAF_CAPACITY as int,
                ),
                0,
            )
        }),
    decreases entries.len() - start,
{
    let size = NODE_LEAF_CAPACITY as int;
    let all = block_laws::singletons(node_entries(entries));
    if start < entries.len() {
        let end = levels::group_end(start, size, entries.len() as int);
        let data = PageContents::NodeLeaf(entries.subrange(start, end));
        law_page(plan, data);
        if let (after, Ok(block)) = btree::with_page(plan, data) {
            let group = node_entries(entries.subrange(start, end));
            let next = done.push(UnicodeBTreePageEntry { key: entries[start].spec_key(), block });
            let next_parts = done_parts.push(group);
            lemma_pages_hold_grows(plan, after, PageType::NodeBTree, done, done_parts, 0);
            lemma_find_last_page(after);
            assert(pages_hold(after, PageType::NodeBTree, next, next_parts, 0)) by {
                assert forall|i: int| 0 <= i < next.len() implies read_btree(
                    after.pages,
                    PageType::NodeBTree,
                    (#[trigger] next[i]).block,
                    0,
                ) == Some(next_parts[i]) && next_parts[i].len() > 0 && next_parts[i][0].key()
                    == next[i].key by {
                    if i < done.len() {
                        assert(next[i] == done[i]);
                    }
                }
            }
            lemma_node_leaves(after, entries, end, next, next_parts);
            block_laws::lemma_joined_singletons(node_entries(entries), start, end);
            assert(node_entries(entries).subrange(start, end) =~= group);
            assert(next_parts + block_laws::level_parts(all, end, size) =~= done_parts
                + block_laws::level_parts(all, start, size));
            lemma_pages_grow_transitive(
                plan,
                after,
                btree::with_node_leaves(after, entries, end, next).0,
            );
        }
    } else {
        assert(plan.pages.take(plan.pages.len() as int) =~= plan.pages);
        assert(done_parts + block_laws::level_parts(all, start, size) =~= done_parts);
    }
}

proof fn lemma_page_group_reads(
    plan: PagePlan,
    page_type: PageType,
    children: Seq<UnicodeBTreePageEntry>,
    parts: Seq<Seq<LeafEntry>>,
    start: int,
    end: int,
    count: nat,
    level: nat,
)
    requires
        pages_hold(plan, page_type, children, parts, level),
        0 <= start <= end <= children.len(),
        count <= end - start,
    ensures
        read_btree_children(
            plan.pages,
            page_type,
            children.subrange(start, end),
            count,
            level,
        ) == Some(block_laws::joined(parts, start, start + count)),
        count > 0 ==> block_laws::joined(parts, start, start + count).len() > 0
            && block_laws::joined(parts, start, start + count)[0].key() == children[start].key,
    decreases count,
{
    if count > 0 {
        lemma_page_group_reads(
            plan,
            page_type,
            children,
            parts,
            start,
            end,
            (count - 1) as nat,
            level,
        );
        let at = start + count - 1;
        assert(children.subrange(start, end)[count - 1] == children[at]);
        assert(parts[at].len() > 0 && parts[at][0].key() == children[at].key);
    }
}

proof fn lemma_page_level(
    plan: PagePlan,
    page_type: PageType,
    children: Seq<UnicodeBTreePageEntry>,
    parts: Seq<Seq<LeafEntry>>,
    start: int,
    level: u8,
    done: Seq<UnicodeBTreePageEntry>,
    done_parts: Seq<Seq<LeafEntry>>,
)
    requires
        pages_wf(plan),
        1 <= level <= MAX_BTREE_LEVEL,
        0 <= start <= children.len(),
        pages_hold(plan, page_type, children, parts, (level - 1) as nat),
        pages_hold(plan, page_type, done, done_parts, level as nat),
    ensures
        ({
            let (after, result) = btree::with_page_level(
                plan,
                page_type,
                children,
                start,
                level,
                done,
            );
            &&& pages_wf(after)
            &&& pages_grow(plan, after)
            &&& result matches Ok(next) ==> pages_hold(
                after,
                page_type,
                next,
                done_parts + block_laws::level_parts(parts, start, BTREE_CAPACITY as int),
                level as nat,
            )
        }),
    decreases children.len() - start,
{
    let size = BTREE_CAPACITY as int;
    if start < children.len() {
        let end = levels::group_end(start, size, children.len() as int);
        let data = PageContents::Intermediate(page_type, level, children.subrange(start, end));
        law_page(plan, data);
        if let (after, Ok(block)) = btree::with_page(plan, data) {
            let whole = block_laws::joined(parts, start, end);
            let next = done.push(UnicodeBTreePageEntry { key: children[start].key, block });
            let next_parts = done_parts.push(whole);
            lemma_pages_hold_grows(plan, after, page_type, children, parts, (level - 1) as nat);
            lemma_pages_hold_grows(plan, after, page_type, done, done_parts, level as nat);
            lemma_page_group_reads(
                after,
                page_type,
                children,
                parts,
                start,
                end,
                (end - start) as nat,
                (level - 1) as nat,
            );
            lemma_find_last_page(after);
            assert(pages_hold(after, page_type, next, next_parts, level as nat)) by {
                assert forall|i: int| 0 <= i < next.len() implies read_btree(
                    after.pages,
                    page_type,
                    (#[trigger] next[i]).block,
                    level as nat,
                ) == Some(next_parts[i]) && next_parts[i].len() > 0 && next_parts[i][0].key()
                    == next[i].key by {
                    if i < done.len() {
                        assert(next[i] == done[i]);
                    }
                }
            }
            lemma_page_level(after, page_type, children, parts, end, level, next, next_parts);
            assert(next_parts + block_laws::level_parts(parts, end, size) =~= done_parts
                + block_laws::level_parts(parts, start, size));
            lemma_pages_grow_transitive(
                plan,
                after,
                btree::with_page_level(after, page_type, children, end, level, next).0,
            );
        }
    } else {
        assert(plan.pages.take(plan.pages.len() as int) =~= plan.pages);
        assert(done_parts + block_laws::level_parts(parts, start, size) =~= done_parts);
    }
}

proof fn lemma_intermediate_pages(
    plan: PagePlan,
    page_type: PageType,
    children: Seq<UnicodeBTreePageEntry>,
    parts: Seq<Seq<LeafEntry>>,
    level: u8,
) -> (top: nat)
    requires
        pages_wf(plan),
        1 <= level <= MAX_BTREE_LEVEL + 1,
        children.len() > 0,
        pages_hold(plan, page_type, children, parts, (level - 1) as nat),
    ensures
        ({
            let (after, result) = btree::with_intermediate_pages(plan, page_type, children, level);
            &&& pages_wf(after)
            &&& pages_grow(plan, after)
            &&& result matches Ok(root) ==> read_btree(after.pages, page_type, root, top) == Some(
                block_laws::joined(parts, 0, parts.len() as int),
            )
        }),
        top <= MAX_BTREE_LEVEL,
    decreases children.len(),
{
    if children.len() <= 1 {
        assert(plan.pages.take(plan.pages.len() as int) =~= plan.pages);
        assert(parts[0].len() > 0 && parts[0][0].key() == children[0].key);
        assert(block_laws::joined(parts, 0, 0) =~= Seq::empty());
        assert(block_laws::joined(parts, 0, 1) =~= parts[0]);
        (level - 1) as nat
    } else if level > MAX_BTREE_LEVEL {
        assert(plan.pages.take(plan.pages.len() as int) =~= plan.pages);
        0
    } else {
        let (after, result) = btree::with_page_level(
            plan,
            page_type,
            children,
            0,
            level,
            Seq::empty(),
        );
        btree::lemma_page_level_length(plan, page_type, children, 0, level, Seq::empty());
        lemma_page_level(plan, page_type, children, parts, 0, level, Seq::empty(), Seq::empty());
        if let Ok(next) = result {
            let above = block_laws::level_parts(parts, 0, BTREE_CAPACITY as int);
            assert(Seq::<Seq<LeafEntry>>::empty() + above =~= above);
            let top = lemma_intermediate_pages(
                after,
                page_type,
                next,
                above,
                (level + 1) as u8,
            );
            lemma_pages_grow_transitive(
                plan,
                after,
                btree::with_intermediate_pages(after, page_type, next, (level + 1) as u8).0,
            );
            block_laws::lemma_level_parts_join(parts, 0, BTREE_CAPACITY as int);
            top
        } else {
            0
        }
    }
}

/// A planned block B-tree reads back as its entries, with at most eight levels above its leaves.
/// Planning it keeps the plan well formed and only adds to it, whatever comes of it.
pub proof fn law_block_btree_round_trip(plan: PagePlan, entries: Seq<UnicodeBlockBTreeEntry>)
    requires
        pages_wf(plan),
        entries.len() > 0,
    ensures
        pages_wf(btree::with_block_btree(plan, entries).0),
        pages_grow(plan, btree::with_block_btree(plan, entries).0),
        btree::with_block_btree(plan, entries) matches (after, Ok(root)) ==> exists|level: nat|
            level <= MAX_BTREE_LEVEL && read_btree(after.pages, PageType::BlockBTree, root, level)
                == Some(block_entries(entries)),
{
    reveal(btree::with_block_btree);
    let size = BTREE_CAPACITY as int;
    let all = block_entries(entries);
    lemma_block_leaves(plan, entries, 0, Seq::empty(), Seq::empty());
    btree::lemma_block_leaves_grow(plan, entries, 0, Seq::empty());
    if let (after, Ok(children)) = btree::with_block_leaves(plan, entries, 0, Seq::empty()) {
        let parts = block_laws::level_parts(block_laws::singletons(all), 0, size);
        assert(Seq::<Seq<LeafEntry>>::empty() + parts =~= parts);
        let top = lemma_intermediate_pages(after, PageType::BlockBTree, children, parts, 1);
        lemma_pages_grow_transitive(
            plan,
            after,
            btree::with_intermediate_pages(after, PageType::BlockBTree, children, 1).0,
        );
        block_laws::lemma_level_parts_join(block_laws::singletons(all), 0, size);
        block_laws::lemma_joined_singletons(all, 0, all.len() as int);
        assert(all.subrange(0, all.len() as int) =~= all);
    }
}

/// A planned node B-tree reads back as its entries, with at most eight levels above its leaves.
/// Planning it keeps the plan well formed and only adds to it, whatever comes of it.
pub proof fn law_node_btree_round_trip(plan: PagePlan, entries: Seq<UnicodeNodeBTreeEntry>)
    requires
        pages_wf(plan),
        entries.len() > 0,
    ensures
        pages_wf(btree::with_node_btree(plan, entries).0),
        pages_grow(plan, btree::with_node_btree(plan, entries).0),
        btree::with_node_btree(plan, entries) matches (after, Ok(root)) ==> exists|level: nat|
            level <= MAX_BTREE_LEVEL && read_btree(after.pages, PageType::NodeBTree, root, level)
                == Some(node_entries(entries)),
{
    reveal(btree::with_node_btree);
    let size = NODE_LEAF_CAPACITY as int;
    let all = node_entries(entries);
    lemma_node_leaves(plan, entries, 0, Seq::empty(), Seq::empty());
    btree::lemma_node_leaves_grow(plan, entries, 0, Seq::empty());
    if let (after, Ok(children)) = btree::with_node_leaves(plan, entries, 0, Seq::empty()) {
        let parts = block_laws::level_parts(block_laws::singletons(all), 0, size);
        assert(Seq::<Seq<LeafEntry>>::empty() + parts =~= parts);
        let top = lemma_intermediate_pages(after, PageType::NodeBTree, children, parts, 1);
        lemma_pages_grow_transitive(
            plan,
            after,
            btree::with_intermediate_pages(after, PageType::NodeBTree, children, 1).0,
        );
        block_laws::lemma_level_parts_join(block_laws::singletons(all), 0, size);
        block_laws::lemma_joined_singletons(all, 0, all.len() as int);
        assert(all.subrange(0, all.len() as int) =~= all);
    }
}

} // verus!
