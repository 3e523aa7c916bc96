//! An open file: its header, its density list, and the transactions that write to it.

use vstd::prelude::*;

use crate::error::PstError;
use crate::ndb::allocation::{AMAP_DATA_SIZE, AMAP_FIRST_OFFSET};
use crate::ndb::encoding;
use crate::ndb::header::{AmapStatus, Header, HeaderContents};
use crate::ndb::ids::UnicodePageId;
use crate::ndb::btree::PageType;

verus! {

/// The offset of the density list.
pub const DENSITY_LIST_FILE_OFFSET: u64 = 0x4200;

/// What distinguishes the two formats of a file.
pub trait PstFile {
    /// The largest offset that the format can hold.
    spec fn spec_max_index() -> u64;

    /// The size of a block trailer.
    spec fn spec_block_trailer_size() -> u16;

    /// The largest offset that the format can hold.
    fn max_index() -> (index: u64)
        ensures
            index == Self::spec_max_index(),
    ;

    /// The size of a block trailer.
    fn block_trailer_size() -> (size: u16)
        ensures
            size == Self::spec_block_trailer_size(),
    ;
}

/// A file with 64-bit offsets and Unicode text.
pub struct UnicodePstFile {
    pub inner: PstFileInner,
}

/// A file with 32-bit offsets and text in a code page.
pub struct AnsiPstFile {
    pub inner: PstFileInner,
}

impl PstFile for UnicodePstFile {
    open spec fn spec_max_index() -> u64 {
        u64::MAX
    }

    open spec fn spec_block_trailer_size() -> u16 {
        16
    }

    fn max_index() -> (index: u64) {
        u64::MAX
    }

    fn block_trailer_size() -> (size: u16) {
        16
    }
}

impl PstFile for AnsiPstFile {
    open spec fn spec_max_index() -> u64 {
        0xFFFF_FFFF
    }

    open spec fn spec_block_trailer_size() -> u16 {
        12
    }

    fn max_index() -> (index: u64) {
        0xFFFF_FFFF
    }

    fn block_trailer_size() -> (size: u16) {
        12
    }
}

/// The density list.
pub struct DensityListPage {
    pub backfill_complete: bool,
    pub current_page: u32,
    pub entries: Vec<u32>,
    pub signature: u16,
    pub page_id: UnicodePageId,
}

/// The contents of the density list.
#[verifier::ext_equal]
pub struct DensityContents {
    pub backfill_complete: bool,
    pub current_page: u32,
    pub entries: Seq<u32>,
    pub signature: u16,
    pub page_id: UnicodePageId,
}

impl View for DensityListPage {
    type V = DensityContents;

    open spec fn view(&self) -> DensityContents {
        DensityContents {
            backfill_complete: self.backfill_complete,
            current_page: self.current_page,
            entries: self.entries@,
            signature: self.signature,
            page_id: self.page_id,
        }
    }
}

/// The contents of an optional density list.
pub open spec fn density_view(list: Option<DensityListPage>) -> Option<DensityContents> {
    match list {
        Some(list) => Some(list@),
        None => None,
    }
}

/// The signature of the density list under the given identifier.
pub open spec fn density_signature(page: UnicodePageId) -> u16 {
    encoding::page_signature(PageType::DensityList, DENSITY_LIST_FILE_OFFSET, page.value)
}

/// Whether a file can be written to.
pub enum Writer {
    Open,
    ReadOnly,
    NoAccess(String),
}

/// An open file: its header, its density list where it could be read, and whether it can be written
/// to.
pub struct PstFileInner {
    pub header: Header,
    pub density_list: Option<DensityListPage>,
    pub writer: Writer,
}

/// The density list at the start of a transaction: the one that there is where it belongs to the
/// next page, and else an empty one.
pub open spec fn ensured_density(header: HeaderContents, list: Option<DensityContents>) -> Result<
    DensityContents,
    PstError,
> {
    match list {
        Some(list) if list.page_id == header.next_page => Ok(list),
        _ => {
            let page = (header.root.amap_last_index - AMAP_FIRST_OFFSET) / AMAP_DATA_SIZE as int;
            if page > u32::MAX {
                Err(PstError::IntegerConversion)
            } else {
                Ok(
                    DensityContents {
                        backfill_complete: false,
                        current_page: page as u32,
                        entries: Seq::empty(),
                        signature: density_signature(header.next_page),
                        page_id: header.next_page,
                    },
                )
            }
        },
    }
}

/// Whether a density list for the next page is there or can be made: the last allocation map does not
/// stand before the first.
pub open spec fn can_ensure_density(
    header: HeaderContents,
    list: Option<DensityContents>,
) -> bool {
    (list matches Some(list) && list.page_id == header.next_page) || header.root.amap_last_index
        >= AMAP_FIRST_OFFSET
}

/// The density list at the end of a transaction: it belongs to the next page.
pub open spec fn renumbered_density(
    header: HeaderContents,
    list: Option<DensityContents>,
) -> Option<DensityContents> {
    match list {
        None => None,
        Some(list) => if list.page_id == header.next_page {
            Some(list)
        } else {
            Some(
                DensityContents {
                    signature: density_signature(header.next_page),
                    page_id: header.next_page,
                    ..list
                },
            )
        },
    }
}

/// The header at the start of a transaction.
pub open spec fn started_header(header: HeaderContents) -> HeaderContents {
    header.updated().with_status(AmapStatus::Invalid)
}

/// The header at the end of a transaction.
pub open spec fn finished_header(header: HeaderContents) -> HeaderContents {
    header.updated().with_status(AmapStatus::Valid2)
}

/// Why a file cannot be written to.
pub open spec fn writer_error(writer: Writer) -> Option<PstError> {
    match writer {
        Writer::Open => None,
        Writer::ReadOnly => Some(PstError::OpenedReadOnly),
        Writer::NoAccess(path) => Some(PstError::NoWriteAccess(path)),
    }
}

/// A transaction that ended leaves the header as it was, but for its changing number and the state
/// of the allocation maps, which are valid; and a density list belongs to the next page.
pub proof fn law_transaction(header: HeaderContents, list: Option<DensityContents>)
    ensures
        started_header(header).root.amap_is_valid == AmapStatus::Invalid,
        finished_header(started_header(header)).root.amap_is_valid == AmapStatus::Valid2,
        finished_header(started_header(header)) == header.updated().updated().with_status(
            AmapStatus::Valid2,
        ),
        renumbered_density(header, list) matches Some(after) ==> after.page_id == header.next_page,
        ensured_density(header, list) matches Ok(after) ==> after.page_id == header.next_page
            && renumbered_density(finished_header(started_header(header)), Some(after)) == Some(
            after,
        ),
{
}

/// A copy of the density list.
fn copy_density(list: &DensityListPage) -> (copy: DensityListPage)
    ensures
        copy@ == list@,
{
    let entries: Vec<u32> = vstd::slice::slice_to_vec(list.entries.as_slice());
    assert(entries@ =~= list.entries@);
    DensityListPage {
        backfill_complete: list.backfill_complete,
        current_page: list.current_page,
        entries,
        signature: list.signature,
        page_id: list.page_id,
    }
}

/// What the end of a transaction writes: the header, and the density list where there is one.
pub struct FinishedWrite {
    pub header: Header,
    pub density_list: Option<DensityListPage>,
}

impl PstFileInner {
    /// An open file that can only be read.
    pub fn read_from(header: Header, density_list: Option<DensityListPage>) -> (file: PstFileInner)
        ensures
            file.header == header,
            file.density_list == density_list,
            file.writer is ReadOnly,
    {
        PstFileInner { header, density_list, writer: Writer::ReadOnly }
    }

    /// Fails where the file cannot be written to.
    pub fn check_writer(&self) -> (result: Result<(), PstError>)
        ensures
            result == (match writer_error(self.writer) {
                None => Ok(()),
                Some(error) => Err(error),
            }),
    {
        match &self.writer {
            Writer::Open => Ok(()),
            Writer::ReadOnly => Err(PstError::OpenedReadOnly),
            Writer::NoAccess(path) => Err(PstError::NoWriteAccess(path.clone())),
        }
    }

    /// Whether a density list for the next page is there or can be made.
    pub fn can_ensure_density_list(&self) -> (can: bool)
        ensures
            can == can_ensure_density(self.header@, density_view(self.density_list)),
    {
        let belongs: bool = match &self.density_list {
            Some(list) => list.page_id == self.header.next_page,
            None => false,
        };
        belongs || self.header.root.amap_last_index >= AMAP_FIRST_OFFSET
    }

    /// Makes sure that there is a density list that belongs to the next page.
    pub fn ensure_density_list(&mut self) -> (result: Result<(), PstError>)
        requires
            can_ensure_density(old(self).header@, density_view(old(self).density_list)),
        ensures
            final(self).header == old(self).header,
            final(self).writer == old(self).writer,
            match ensured_density(old(self).header@, density_view(old(self).density_list)) {
                Ok(list) => result is Ok && density_view(final(self).density_list) == Some(list),
                Err(error) => result == Err::<(), PstError>(error)
                    && final(self).density_list == old(self).density_list,
            },
    {
        match &self.density_list {
            Some(list) => {
                if list.page_id == self.header.next_page {
                    return Ok(());
                }
            },
            None => {},
        }
        let page: u64 = (self.header.root.amap_last_index - AMAP_FIRST_OFFSET) / AMAP_DATA_SIZE;
        if page > u32::MAX as u64 {
            return Err(PstError::IntegerConversion);
        }
        let page_id: UnicodePageId = self.header.next_page;
        self.density_list = Some(
            DensityListPage {
                backfill_complete: false,
                current_page: page as u32,
                entries: Vec::new(),
                signature: encoding::compute_sig(DENSITY_LIST_FILE_OFFSET, page_id.value),
                page_id,
            },
        );
        Ok(())
    }

    /// Makes the density list, where there is one, belong to the next page.
    pub fn update_density_list_page_id(&mut self)
        ensures
            final(self).header == old(self).header,
            final(self).writer == old(self).writer,
            density_view(final(self).density_list) == renumbered_density(
                old(self).header@,
                density_view(old(self).density_list),
            ),
    {
        let next_page: UnicodePageId = self.header.next_page;
        let renumbered: Option<DensityListPage> = match &self.density_list {
            None => None,
            Some(list) => {
                let mut copy = copy_density(list);
                if copy.page_id != next_page {
                    copy.page_id = next_page;
                    copy.signature = encoding::compute_sig(
                        DENSITY_LIST_FILE_OFFSET,
                        next_page.value,
                    );
                }
                Some(copy)
            },
        };
        self.density_list = renumbered;
    }

    /// Begins a transaction, once the allocation maps are valid: there is a density list for the
    /// next page, and the header says that the allocation maps cannot be relied on until the
    /// transaction ends. Returns the header that is to be written.
    pub fn start_write(&mut self) -> (header: Result<Header, PstError>)
        requires
            can_ensure_density(old(self).header@, density_view(old(self).density_list)),
        ensures
            final(self).writer == old(self).writer,
            match ensured_density(old(self).header@, density_view(old(self).density_list)) {
                Err(error) => header matches Err(result) && result == error
                    && final(self).header == old(self).header && final(self).density_list == old(
                    self,
                ).density_list,
                Ok(list) => density_view(final(self).density_list) == Some(list)
                    && final(self).header@ == started_header(old(self).header@) && match writer_error(
                    old(self).writer,
                ) {
                    Some(error) => header matches Err(result) && result == error,
                    None => header matches Ok(header) && header@ == final(self).header@,
                },
            },
    {
        self.ensure_density_list()?;
        self.header.update_unique();
        self.header.set_amap_status(AmapStatus::Invalid);
        self.check_writer()?;
        Ok(self.header.copy())
    }

    /// Ends a transaction: the allocation maps are valid, and the density list belongs to the next
    /// page. Returns what is to be written.
    pub fn finish_write(&mut self) -> (write: Result<FinishedWrite, PstError>)
        ensures
            final(self).writer == old(self).writer,
            final(self).header@ == finished_header(old(self).header@),
            density_view(final(self).density_list) == renumbered_density(
                old(self).header@,
                density_view(old(self).density_list),
            ),
            match writer_error(old(self).writer) {
                Some(error) => write matches Err(result) && result == error,
                None => write matches Ok(write) && write.header@ == final(self).header@
                    && density_view(write.density_list) == density_view(final(self).density_list),
            },
    {
        self.header.update_unique();
        self.header.set_amap_status(AmapStatus::Valid2);
        self.update_density_list_page_id();
        self.check_writer()?;
        let density_list: Option<DensityListPage> = match &self.density_list {
            Some(list) => Some(copy_density(list)),
            None => None,
        };
        Ok(FinishedWrite { header: self.header.copy(), density_list })
    }
}

/// A file in either format.
pub enum Store {
    Unicode(UnicodePstFile),
    Ansi(AnsiPstFile),
}

/// What opening a file came to, or what is to be tried next.
pub enum StoreStep<E> {
    /// The file is open.
    Opened(Store),
    /// The file is to be opened in the format with 32-bit offsets.
    TryAnsi,
    /// The file could not be opened.
    Failed(E),
}

/// Opens a file in the Unicode format where that works, and else in the other one. `unicode` is the file
/// where it could be opened in the first, and `ansi` what came of the second, once it was tried.
pub fn open_store<E>(
    unicode: Option<UnicodePstFile>,
    ansi: Option<Result<AnsiPstFile, E>>,
) -> (step: StoreStep<E>)
    ensures
        step == (match (unicode, ansi) {
            (Some(file), _) => StoreStep::Opened(Store::Unicode(file)),
            (None, None) => StoreStep::TryAnsi,
            (None, Some(Ok(file))) => StoreStep::Opened(Store::Ansi(file)),
            (None, Some(Err(error))) => StoreStep::Failed(error),
        }),
{
    match unicode {
        Some(file) => StoreStep::Opened(Store::Unicode(file)),
        None => match ansi {
            None => StoreStep::TryAnsi,
            Some(Ok(file)) => StoreStep::Opened(Store::Ansi(file)),
            Some(Err(error)) => StoreStep::Failed(error),
        },
    }
}

/// A transaction on a file.
pub struct PstFileLockGuard<'a> {
    pub pst: &'a mut PstFileInner,
}

impl<'a> PstFileLockGuard<'a> {
    /// Begins a transaction, once the allocation maps are valid. Returns it with the header that is
    /// to be written.
    pub fn new(pst: &'a mut PstFileInner) -> (guard: Result<
        (PstFileLockGuard<'a>, Header),
        PstError,
    >)
        requires
            can_ensure_density(old(pst).header@, density_view(old(pst).density_list)),
        ensures
            match (
                ensured_density(old(pst).header@, density_view(old(pst).density_list)),
                writer_error(old(pst).writer),
            ) {
                (Err(error), _) => guard matches Err(result) && result == error
                    && final(pst).header == old(pst).header && final(pst).density_list == old(
                    pst,
                ).density_list && final(pst).writer == old(pst).writer,
                (Ok(list), Some(error)) => guard matches Err(result) && result == error
                    && final(pst).header@ == started_header(old(pst).header@) && density_view(
                    final(pst).density_list,
                ) == Some(list) && final(pst).writer == old(pst).writer,
                (Ok(list), None) => guard matches Ok((guard, header)) && header@
                    == started_header(old(pst).header@) && (*guard.pst).header@ == header@
                    && (*guard.pst).writer == old(pst).writer && density_view(
                    (*guard.pst).density_list,
                ) == Some(list) && *final(guard.pst) == *final(pst),
            },
    {
        let header = pst.start_write()?;
        Ok((PstFileLockGuard { pst }, header))
    }

    /// Ends the transaction and returns what is to be written. A later flush can be made.
    pub fn flush(&mut self) -> (write: Result<FinishedWrite, PstError>)
        ensures
            (*final(self).pst).writer == (*old(self).pst).writer,
            (*final(self).pst).header@ == finished_header((*old(self).pst).header@),
            density_view((*final(self).pst).density_list) == renumbered_density(
                (*old(self).pst).header@,
                density_view((*old(self).pst).density_list),
            ),
            *final(final(self).pst) == *final(old(self).pst),
            match writer_error((*old(self).pst).writer) {
                Some(error) => write matches Err(result) && result == error,
                None => write matches Ok(write) && write.header@ == (*final(self).pst).header@
                    && density_view(write.density_list) == density_view(
                    (*final(self).pst).density_list,
                ),
            },
    {
        self.pst.finish_write()
    }
}

} // verus!
