//! The error taxonomy of the core: every failing operation reports one of
//! these kinds, together with a displayable message.

use vstd::prelude::*;

verus! {

/// What went wrong. Contracts across the crate speak of this kind.
#[derive(Clone, Copy, Debug, PartialEq, Eq, Structural)]
pub enum ErrorKind {
    /// The note text was empty after trimming.
    InvalidInput,
    /// A delete named an identifier that is not in the collection.
    NotFound,
    /// The backing file could not be read.
    StorageRead,
    /// The backing file could not be written.
    StorageWrite,
    /// The backing file held malformed content.
    StorageCorrupt,
    /// The write lock was poisoned by a holder that terminated abnormally.
    StorageLock,
    /// The system clipboard was unavailable or rejected the text.
    ClipboardAccess,
    /// A window surface failed to materialize.
    WindowCreation,
}

/// An error of the core: a kind plus a message fit for display.
#[derive(Debug)]
pub struct NoteError {
    pub kind: ErrorKind,
    pub message: String,
}

impl NoteError {
    pub fn new(kind: ErrorKind, message: String) -> (r: NoteError)
        ensures
            r.kind == kind,
            r.message@ == message@,
    {
        NoteError { kind, message }
    }

    pub fn invalid_input() -> (r: NoteError)
        ensures
            r.kind == ErrorKind::InvalidInput,
    {
        NoteError { kind: ErrorKind::InvalidInput, message: String::from_str("Note text cannot be empty") }
    }

    pub fn not_found() -> (r: NoteError)
        ensures
            r.kind == ErrorKind::NotFound,
    {
        NoteError { kind: ErrorKind::NotFound, message: String::from_str("Note not found") }
    }

    pub fn storage_lock() -> (r: NoteError)
        ensures
            r.kind == ErrorKind::StorageLock,
    {
        NoteError { kind: ErrorKind::StorageLock, message: String::from_str("Storage lock was poisoned") }
    }

    pub fn storage_corrupt() -> (r: NoteError)
        ensures
            r.kind == ErrorKind::StorageCorrupt,
    {
        NoteError { kind: ErrorKind::StorageCorrupt, message: String::from_str("Failed to parse notes file") }
    }

    /// The message, for display; the core has no `Display` impls.
    pub fn message(&self) -> (r: &str)
        ensures
            r@ == self.message@,
    {
        self.message.as_str()
    }
}

} // verus!
