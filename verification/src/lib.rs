//! A content-addressable storage layer.
//!
//! Records are stored under a deterministic digest of their own content;
//! entity-attribute-value metadata assertions about those records are stored
//! under a composite digest of the subject's address and the attribute name.
//! Two backends implement the same interface: a file-backed table and an
//! in-memory table whose behaviour is fully specified.

pub mod content;
pub mod entry;
pub mod entry_meta;
pub mod file_table;
pub mod json;
pub mod mem_table;
pub mod sort;
pub mod strorder;

use vstd::prelude::*;

verus! {

/// Every failure a storage operation can surface: an I/O or construction
/// failure with the underlying message, or stored bytes that do not parse
/// as the expected typed structure.
#[derive(Debug)]
pub enum StoreError {
    Io(String),
    Decode(String),
}

impl StoreError {
    /// A human-readable description of the failure.
    pub fn message(&self) -> (m: String)
        ensures
            self is Io ==> m@ == self->Io_0@,
            self is Decode ==> m@ == self->Decode_0@,
    {
        match self {
            StoreError::Io(s) => s.clone(),
            StoreError::Decode(s) => s.clone(),
        }
    }
}

} // verus!
