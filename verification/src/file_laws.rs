//! What the density list and the header of an open file say around a transaction.

use vstd::prelude::*;

use crate::error::PstError;
use crate::file;
use crate::file::DensityContents;
use crate::ndb::commit_laws;
use crate::ndb::header::{AmapStatus, HeaderContents};
use crate::ndb::trailer_laws;

verus! {

/// A density list that belongs to the next page is kept. Any other is replaced by an empty one that names the region
/// of the last allocation map and is signed for its place, 0x4200, and the next page.
pub proof fn law_density_list_is_ensured(
    header: HeaderContents,
    list: Option<DensityContents>,
    after: DensityContents,
)
    requires
        file::ensured_density(header, list) == Ok::<_, PstError>(after),
        header.root.amap_last_index >= 0x4400,
    ensures
        list matches Some(old) && old.page_id == header.next_page ==> after == list->Some_0,
        (list is None || (list->Some_0).page_id != header.next_page) ==> {
            &&& !after.backfill_complete
            &&& after.entries.len() == 0
            &&& after.page_id == header.next_page
            &&& after.signature == trailer_laws::folded(0x4200, header.next_page.value)
            &&& after.current_page * 253952 <= header.root.amap_last_index - 0x4400 < (
            after.current_page + 1) * 253952
        },
{
    trailer_laws::law_signature(0x4200, header.next_page.value);
    let from = header.root.amap_last_index - 0x4400;
    assert(from == 253952 * (from / 253952) + from % 253952);
}

/// At the end of a transaction a density list belongs to the next page and is signed for it. What it says of the
/// regions stays as it was.
pub proof fn law_density_list_is_renumbered(
    header: HeaderContents,
    list: DensityContents,
    after: DensityContents,
)
    requires
        file::renumbered_density(header, Some(list)) == Some(after),
    ensures
        after.page_id == header.next_page,
        after.backfill_complete == list.backfill_complete,
        after.current_page == list.current_page,
        after.entries == list.entries,
        list.page_id != header.next_page ==> after.signature == trailer_laws::folded(
            0x4200,
            header.next_page.value,
        ),
        list.page_id == header.next_page ==> after.signature == list.signature,
{
    trailer_laws::law_signature(0x4200, header.next_page.value);
}

/// Around a transaction the header only says that the allocation maps cannot be relied on, and then that they can
/// again. Its changing number is moved on both times.
pub proof fn law_transaction_marks_header(header: HeaderContents)
    ensures
        ({
            let started = file::started_header(header);
            let finished = file::finished_header(started);
            &&& started.root.amap_is_valid == AmapStatus::Invalid
            &&& finished.root.amap_is_valid == AmapStatus::Valid2
            &&& commit_laws::was_moved_on(header.unique, started.unique)
            &&& commit_laws::was_moved_on(started.unique, finished.unique)
            &&& finished.root.node_btree == header.root.node_btree
            &&& finished.root.block_btree == header.root.block_btree
            &&& finished.root.file_eof_index == header.root.file_eof_index
            &&& finished.root.amap_last_index == header.root.amap_last_index
            &&& finished.root.amap_free_size == header.root.amap_free_size
            &&& finished.next_block == header.next_block
            &&& finished.next_page == header.next_page
            &&& finished.next_nodes == header.next_nodes
            &&& finished.crypt_method == header.crypt_method
        }),
{
}

} // verus!
