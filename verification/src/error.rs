//! Errors of the PST writer.

use vstd::prelude::*;

use crate::ltp::property::PropertyType;

verus! {

/// What the node database layer rejects.
#[derive(Clone, Copy, PartialEq, Eq, Debug, Structural)]
pub enum NdbError {
    /// A node index that does not fit in 27 bits.
    InvalidNodeIndex(u32),
    /// A node type code that names no node type.
    InvalidNodeIdType(u8),
    /// A block index that does not fit in 62 bits.
    InvalidUnicodeBlockIndex(u64),
    /// A block payload that is empty or larger than one block.
    InvalidUnicodeBlockTrailerSize(u16),
    /// An internal block whose first byte names no block type.
    InvalidInternalBlockType(u8),
}

/// The kind of an I/O failure, as `std::io::ErrorKind` names it.
#[derive(Clone, Copy, PartialEq, Eq, Debug, Structural)]
pub enum IoErrorKind {
    InvalidData,
    InvalidInput,
    NotFound,
    Other,
    PermissionDenied,
    Unsupported,
    WriteZero,
}

/// A failure that the writer reports with an I/O error kind and a message.
#[derive(Clone, Copy, PartialEq, Eq, Debug, Structural)]
pub enum IoError {
    HeapAllocationTooLarge,
    HeapAllocationDoesNotFit,
    HeapPageHasNoPaddingRoom,
    HeapPageTooLarge,
    /// A heap allocation index that does not fit in 11 bits.
    InvalidHeapIndex(u16),
    /// A table value of another type than its column, whose type is given.
    TableValueMismatch(PropertyType),
    TableColumnTooNarrow,
    IndirectFixedWidthValue,
    TableRowDoesNotFit,
    TableRowsNodeMissing,
    TooManyTableColumns,
    InvalidFolderPath,
    EmptyContentId,
    BTreeTooDeep,
    EmptyDataTreeBlock,
    DataTreeBlockTooLarge,
    EmptySubnodeTree,
    IpmHierarchyTableNotFound,
    ReceiveFolderNotFound,
    /// A block that a node or a tree refers to and the block B-tree lacks.
    BlockMissing(u64),
    AppendEncrypted,
    FolderCreationEncrypted,
    ParentFolderNodeNotFound,
    ParentFolderHasNoParent,
    ParentHierarchyNodeNotFound,
    ParentHierarchyTableNotFound,
    EmptyBatch,
    ContentsTableNotFound,
    ContentsNodeNotFound,
    TargetFolderNodeNotFound,
}

/// An error of the PST writer.
#[derive(Debug)]
pub enum PstError {
    OpenedReadOnly,
    NoWriteAccess(String),
    Io(IoError),
    BorrowedIo(String),
    LockError,
    IntegerConversion,
    NodeDatabaseError(NdbError),
    AllocationMapPageNotFound(usize),
    InvalidBTreePage(u64),
}

impl IoError {
    /// The I/O error kind that the failure is reported with.
    pub open spec fn spec_kind(self) -> IoErrorKind {
        match self {
            IoError::HeapAllocationTooLarge
            | IoError::HeapAllocationDoesNotFit
            | IoError::TableRowDoesNotFit
            | IoError::BTreeTooDeep
            | IoError::AppendEncrypted
            | IoError::FolderCreationEncrypted => IoErrorKind::Unsupported,
            IoError::HeapPageHasNoPaddingRoom
            | IoError::HeapPageTooLarge
            | IoError::InvalidHeapIndex(_)
            | IoError::TableValueMismatch(_)
            | IoError::IndirectFixedWidthValue
            | IoError::TableRowsNodeMissing
            | IoError::TooManyTableColumns
            | IoError::BlockMissing(_)
            | IoError::ParentFolderHasNoParent => IoErrorKind::InvalidData,
            IoError::TableColumnTooNarrow => IoErrorKind::WriteZero,
            IoError::InvalidFolderPath
            | IoError::EmptyContentId
            | IoError::EmptyDataTreeBlock
            | IoError::DataTreeBlockTooLarge
            | IoError::EmptySubnodeTree
            | IoError::EmptyBatch => IoErrorKind::InvalidInput,
            IoError::IpmHierarchyTableNotFound
            | IoError::ReceiveFolderNotFound
            | IoError::ParentFolderNodeNotFound
            | IoError::ParentHierarchyNodeNotFound
            | IoError::ParentHierarchyTableNotFound
            | IoError::ContentsTableNotFound
            | IoError::ContentsNodeNotFound
            | IoError::TargetFolderNodeNotFound => IoErrorKind::NotFound,
        }
    }

    /// The I/O error kind that the failure is reported with.
    pub fn kind(self) -> (kind: IoErrorKind)
        ensures
            kind == self.spec_kind(),
    {
        match self {
            IoError::HeapAllocationTooLarge
            | IoError::HeapAllocationDoesNotFit
            | IoError::TableRowDoesNotFit
            | IoError::BTreeTooDeep
            | IoError::AppendEncrypted
            | IoError::FolderCreationEncrypted => IoErrorKind::Unsupported,
            IoError::HeapPageHasNoPaddingRoom
            | IoError::HeapPageTooLarge
            | IoError::InvalidHeapIndex(_)
            | IoError::TableValueMismatch(_)
            | IoError::IndirectFixedWidthValue
            | IoError::TableRowsNodeMissing
            | IoError::TooManyTableColumns
            | IoError::BlockMissing(_)
            | IoError::ParentFolderHasNoParent => IoErrorKind::InvalidData,
            IoError::TableColumnTooNarrow => IoErrorKind::WriteZero,
            IoError::InvalidFolderPath
            | IoError::EmptyContentId
            | IoError::EmptyDataTreeBlock
            | IoError::DataTreeBlockTooLarge
            | IoError::EmptySubnodeTree
            | IoError::EmptyBatch => IoErrorKind::InvalidInput,
            IoError::IpmHierarchyTableNotFound
            | IoError::ReceiveFolderNotFound
            | IoError::ParentFolderNodeNotFound
            | IoError::ParentHierarchyNodeNotFound
            | IoError::ParentHierarchyTableNotFound
            | IoError::ContentsTableNotFound
            | IoError::ContentsNodeNotFound
            | IoError::TargetFolderNodeNotFound => IoErrorKind::NotFound,
        }
    }

    /// What the failure is reported as, where that does not depend on a value.
    pub open spec fn spec_text(self) -> Option<Seq<char>> {
        match self {
            IoError::HeapAllocationTooLarge => Some("heap allocation exceeds one Unicode PST data block"@),
            IoError::HeapAllocationDoesNotFit => Some("heap allocation does not fit in a Unicode PST data block"@),
            IoError::HeapPageHasNoPaddingRoom => Some("heap page has no room for a padding allocation"@),
            IoError::HeapPageTooLarge => Some("encoded heap page exceeds one Unicode PST data block"@),
            IoError::TableColumnTooNarrow => Some("failed to write whole buffer"@),
            IoError::IndirectFixedWidthValue => Some("fixed-width table column has an indirect value"@),
            IoError::TableRowDoesNotFit => Some("table rows do not fit in a Unicode PST data block"@),
            IoError::TableRowsNodeMissing => Some("table rows node is missing"@),
            IoError::TooManyTableColumns => Some("too many table columns"@),
            IoError::InvalidFolderPath => Some("folder path must contain only non-empty names"@),
            IoError::EmptyContentId => Some("attachment Content-ID must not be empty"@),
            IoError::BTreeTooDeep => Some("Unicode PST B-tree exceeds eight levels"@),
            IoError::EmptyDataTreeBlock => Some("data tree cannot contain empty blocks"@),
            IoError::DataTreeBlockTooLarge => Some("data tree block exceeds the Unicode PST block limit"@),
            IoError::EmptySubnodeTree => Some("subnode tree cannot be empty"@),
            IoError::IpmHierarchyTableNotFound => Some("IPM hierarchy table not found"@),
            IoError::ReceiveFolderNotFound => Some("default receive-folder mapping not found"@),
            IoError::AppendEncrypted => Some("append only supports unencrypted Unicode PSTs"@),
            IoError::FolderCreationEncrypted => Some("folder creation only supports unencrypted Unicode PSTs"@),
            IoError::ParentFolderNodeNotFound => Some("parent folder node not found"@),
            IoError::ParentFolderHasNoParent => Some("parent folder has no parent"@),
            IoError::ParentHierarchyNodeNotFound => Some("parent hierarchy node not found"@),
            IoError::ParentHierarchyTableNotFound => Some("parent hierarchy table not found"@),
            IoError::EmptyBatch => Some("bulk append requires at least one message"@),
            IoError::ContentsTableNotFound => Some("target-folder contents table not found"@),
            IoError::ContentsNodeNotFound => Some("target contents node not found"@),
            IoError::TargetFolderNodeNotFound => Some("target folder node not found"@),
            IoError::InvalidHeapIndex(_)
            | IoError::TableValueMismatch(_)
            | IoError::BlockMissing(_) => None,
        }
    }

    /// What the failure is reported as, where that does not depend on a value.
    pub fn text(self) -> (text: Option<&'static str>)
        ensures
            match text {
                Some(text) => self.spec_text() == Some(text@),
                None => self.spec_text() is None,
            },
    {
        match self {
            IoError::HeapAllocationTooLarge => Some("heap allocation exceeds one Unicode PST data block"),
            IoError::HeapAllocationDoesNotFit => Some("heap allocation does not fit in a Unicode PST data block"),
            IoError::HeapPageHasNoPaddingRoom => Some("heap page has no room for a padding allocation"),
            IoError::HeapPageTooLarge => Some("encoded heap page exceeds one Unicode PST data block"),
            IoError::TableColumnTooNarrow => Some("failed to write whole buffer"),
            IoError::IndirectFixedWidthValue => Some("fixed-width table column has an indirect value"),
            IoError::TableRowDoesNotFit => Some("table rows do not fit in a Unicode PST data block"),
            IoError::TableRowsNodeMissing => Some("table rows node is missing"),
            IoError::TooManyTableColumns => Some("too many table columns"),
            IoError::InvalidFolderPath => Some("folder path must contain only non-empty names"),
            IoError::EmptyContentId => Some("attachment Content-ID must not be empty"),
            IoError::BTreeTooDeep => Some("Unicode PST B-tree exceeds eight levels"),
            IoError::EmptyDataTreeBlock => Some("data tree cannot contain empty blocks"),
            IoError::DataTreeBlockTooLarge => Some("data tree block exceeds the Unicode PST block limit"),
            IoError::EmptySubnodeTree => Some("subnode tree cannot be empty"),
            IoError::IpmHierarchyTableNotFound => Some("IPM hierarchy table not found"),
            IoError::ReceiveFolderNotFound => Some("default receive-folder mapping not found"),
            IoError::AppendEncrypted => Some("append only supports unencrypted Unicode PSTs"),
            IoError::FolderCreationEncrypted => Some("folder creation only supports unencrypted Unicode PSTs"),
            IoError::ParentFolderNodeNotFound => Some("parent folder node not found"),
            IoError::ParentFolderHasNoParent => Some("parent folder has no parent"),
            IoError::ParentHierarchyNodeNotFound => Some("parent hierarchy node not found"),
            IoError::ParentHierarchyTableNotFound => Some("parent hierarchy table not found"),
            IoError::EmptyBatch => Some("bulk append requires at least one message"),
            IoError::ContentsTableNotFound => Some("target-folder contents table not found"),
            IoError::ContentsNodeNotFound => Some("target contents node not found"),
            IoError::TargetFolderNodeNotFound => Some("target folder node not found"),
            IoError::InvalidHeapIndex(_)
            | IoError::TableValueMismatch(_)
            | IoError::BlockMissing(_) => None,
        }
    }
}

impl PstError {
    /// The I/O error kind that the error is reported with.
    pub open spec fn spec_kind(self) -> IoErrorKind {
        match self {
            PstError::NoWriteAccess(_) => IoErrorKind::PermissionDenied,
            PstError::Io(error) => error.spec_kind(),
            _ => IoErrorKind::Other,
        }
    }

    /// The I/O error kind that the error is reported with.
    pub fn kind(&self) -> (kind: IoErrorKind)
        ensures
            kind == self.spec_kind(),
    {
        match self {
            PstError::NoWriteAccess(_) => IoErrorKind::PermissionDenied,
            PstError::Io(error) => error.kind(),
            _ => IoErrorKind::Other,
        }
    }
}

/// A result with the value replaced by its view.
pub open spec fn result_view<T: View>(result: Result<T, PstError>) -> Result<T::V, PstError> {
    match result {
        Ok(value) => Ok(value@),
        Err(error) => Err(error),
    }
}

/// A result with every item of the value replaced by its view.
pub open spec fn result_views<T: View>(result: Result<Vec<T>, PstError>) -> Result<
    Seq<T::V>,
    PstError,
> {
    match result {
        Ok(value) => Ok(crate::bytes::views(value@)),
        Err(error) => Err(error),
    }
}

} // verus!
