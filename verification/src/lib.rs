//! Planning and encoding for Unicode PST files.
//!
//! The library takes plain values that describe an open PST (its header, its
//! B-tree entries, the folders and tables a change touches) together with the
//! messages to store, and computes every byte and every table entry that the
//! change writes. It performs no I/O.

pub mod bytes;
pub mod error;
pub mod file;
pub mod file_laws;
pub mod ltp;
pub mod messaging;
pub mod ndb;
pub mod sorting;
pub mod text;
