//! Open files: transactions, the density list and errors.

use outlook_pst::error::{IoError, IoErrorKind, NdbError, PstError};
use outlook_pst::file::{
    open_store, AnsiPstFile, DensityListPage, PstFile, PstFileInner, PstFileLockGuard, Store,
    StoreStep, UnicodePstFile, Writer,
};
use outlook_pst::ndb::allocation::{AMAP_DATA_SIZE, AMAP_FIRST_OFFSET};
use outlook_pst::ndb::encoding::compute_sig;
use outlook_pst::ndb::header::{AmapStatus, Header, NdbCryptMethod, Root};
use outlook_pst::ndb::ids::{UnicodeBlockId, UnicodePageId, UnicodePageRef};

fn header() -> Header {
    let page = UnicodePageRef { block: UnicodePageId { value: 1 }, index: 0x4800 };
    Header {
        crypt_method: NdbCryptMethod::Plain,
        unique: 5,
        next_block: UnicodeBlockId::new(false, 100).unwrap(),
        next_page: UnicodePageId { value: 40 },
        next_nodes: vec![0x400; 32],
        root: Root {
            file_eof_index: 0x8000,
            amap_last_index: AMAP_FIRST_OFFSET + 3 * AMAP_DATA_SIZE,
            amap_free_size: 0,
            pmap_free_size: 0,
            node_btree: page,
            block_btree: page,
            amap_is_valid: AmapStatus::Valid2,
        },
        first_free_map: vec![0; 128],
    }
}

fn density(page: u64) -> DensityListPage {
    DensityListPage {
        backfill_complete: true,
        current_page: 9,
        entries: vec![1, 2, 3],
        signature: 77,
        page_id: UnicodePageId { value: page },
    }
}

fn writable(density_list: Option<DensityListPage>) -> PstFileInner {
    PstFileInner { header: header(), density_list, writer: Writer::Open }
}

#[test]
fn begins_and_ends_a_transaction() {
    let mut file = writable(None);
    let (mut guard, started) = PstFileLockGuard::new(&mut file).unwrap();
    assert_eq!((started.unique, started.root.amap_is_valid), (6, AmapStatus::Invalid));
    let list = guard.pst.density_list.as_ref().unwrap();
    assert_eq!((list.current_page, list.page_id.value), (3, 40));
    assert!(!list.backfill_complete && list.entries.is_empty());
    assert_eq!(list.signature, compute_sig(0x4200, 40));

    guard.pst.header.next_page = UnicodePageId { value: 55 };
    let write = guard.flush().unwrap();
    assert_eq!((write.header.unique, write.header.root.amap_is_valid), (7, AmapStatus::Valid2));
    let list = write.density_list.unwrap();
    assert_eq!((list.page_id.value, list.signature), (55, compute_sig(0x4200, 55)));
    assert_eq!(list.current_page, 3);
    assert_eq!(guard.flush().unwrap().header.unique, 8);
    // The file is left as the transaction ended.
    assert_eq!((file.header.unique, file.header.root.amap_is_valid), (8, AmapStatus::Valid2));
}

#[test]
fn keeps_a_density_list_that_belongs_to_the_next_page() {
    let mut file = writable(Some(density(40)));
    file.ensure_density_list().unwrap();
    let list = file.density_list.as_ref().unwrap();
    assert_eq!((list.signature, list.current_page), (77, 9));
    assert_eq!(list.entries, vec![1, 2, 3]);
    let mut file = writable(Some(density(40)));
    file.header.root.amap_last_index = 0;
    assert!(file.can_ensure_density_list());
    assert_eq!(file.start_write().unwrap().unique, 6);
    assert_eq!(file.density_list.as_ref().unwrap().current_page, 9);
    let mut file = writable(None);
    file.header.root.amap_last_index = 0;
    assert!(!file.can_ensure_density_list());
    let mut file = writable(Some(density(39)));
    file.ensure_density_list().unwrap();
    assert_eq!(file.density_list.as_ref().unwrap().current_page, 3);
    let mut file = writable(Some(density(39)));
    file.update_density_list_page_id();
    let list = file.density_list.as_ref().unwrap();
    assert_eq!((list.page_id.value, list.current_page), (40, 9));
    assert_eq!(list.entries, vec![1, 2, 3]);
    let mut file = writable(None);
    file.update_density_list_page_id();
    assert!(file.density_list.is_none());
}

#[test]
fn refuses_to_write_to_a_file_that_can_only_be_read() {
    let mut file = PstFileInner::read_from(header(), None);
    assert!(matches!(file.check_writer(), Err(PstError::OpenedReadOnly)));
    assert!(matches!(PstFileLockGuard::new(&mut file), Err(PstError::OpenedReadOnly)));
    let mut file = writable(None);
    file.writer = Writer::NoAccess(String::from("a.pst"));
    assert!(matches!(
        file.start_write(),
        Err(PstError::NoWriteAccess(path)) if path == "a.pst"
    ));
    match file.finish_write() {
        Err(error) => assert_eq!(error.kind(), IoErrorKind::PermissionDenied),
        Ok(_) => panic!("expected an error"),
    }
}

#[test]
fn refuses_a_density_list_that_cannot_name_its_page() {
    let mut file = writable(None);
    file.header.root.amap_last_index = u64::MAX;
    assert!(matches!(file.ensure_density_list(), Err(PstError::IntegerConversion)));
    assert!(file.density_list.is_none());
}

#[test]
fn opens_either_format() {
    let unicode = || UnicodePstFile { inner: writable(None) };
    let ansi = || AnsiPstFile { inner: writable(None) };
    let both = open_store::<PstError>(Some(unicode()), Some(Ok(ansi())));
    assert!(matches!(both, StoreStep::Opened(Store::Unicode(_))));
    let first = open_store::<PstError>(Some(unicode()), None);
    assert!(matches!(first, StoreStep::Opened(Store::Unicode(_))));
    assert!(matches!(open_store::<PstError>(None, None), StoreStep::TryAnsi));
    let second = open_store::<PstError>(None, Some(Ok(ansi())));
    assert!(matches!(second, StoreStep::Opened(Store::Ansi(_))));
    assert!(matches!(
        open_store(None, Some(Err(PstError::LockError))),
        StoreStep::Failed(PstError::LockError)
    ));
    assert_eq!(UnicodePstFile::max_index(), u64::MAX);
    assert_eq!(AnsiPstFile::max_index(), 0xFFFF_FFFF);
    assert_eq!(UnicodePstFile::block_trailer_size(), 16);
    assert_eq!(AnsiPstFile::block_trailer_size(), 12);
}

#[test]
fn reports_errors_with_a_kind() {
    assert_eq!(PstError::Io(IoError::BTreeTooDeep).kind(), IoErrorKind::Unsupported);
    assert_eq!(PstError::Io(IoError::ContentsTableNotFound).kind(), IoErrorKind::NotFound);
    assert_eq!(PstError::Io(IoError::TableColumnTooNarrow).kind(), IoErrorKind::WriteZero);
    assert_eq!(
        PstError::NodeDatabaseError(NdbError::InvalidNodeIndex(1)).kind(),
        IoErrorKind::Other
    );
    assert_eq!(IoError::EmptySubnodeTree.kind(), IoErrorKind::InvalidInput);
    assert!(IoError::EmptySubnodeTree.text().is_some());
}
