//! The error kinds that the library's operations report.

use vstd::prelude::*;

verus! {

/// An error reported by a library operation.
///
/// `NotFound` is the outcome of a positional lookup or archive whose index
/// lies outside the current unarchived listing. `InvalidRow` rejects a
/// handed-over persisted row that violates the store's invariants: more
/// than one populated content column, an empty title, a negative timestamp,
/// an id out of range, or rows out of key order.
/// `EmptyEditorCommand` rejects a configured editor command with no program
/// name. `ConflictingContentFlags` rejects a request that supplies more
/// than one content source for a new note, and `EmptyTitle` a new note
/// whose title is empty.
#[derive(Clone, Copy, PartialEq, Eq, Structural, Debug)]
pub enum RecallError {
    NotFound,
    InvalidRow,
    EmptyEditorCommand,
    ConflictingContentFlags,
    EmptyTitle,
}

impl RecallError {
    /// A short human-readable description of the error.
    pub fn message(&self) -> (r: &'static str)
        ensures
            r@ == self.spec_message(),
    {
        match self {
            RecallError::NotFound => "note not found",
            RecallError::InvalidRow => "a stored row violates the store invariants",
            RecallError::EmptyEditorCommand => (
                "the first entry in editor_command must be the path to a text editor program"
            ),
            RecallError::ConflictingContentFlags => (
                "at most one of path, link and text may be supplied"
            ),
            RecallError::EmptyTitle => "a note title must not be empty",
        }
    }

    /// What `message` returns for each variant.
    pub open spec fn spec_message(self) -> Seq<char> {
        match self {
            RecallError::NotFound => "note not found"@,
            RecallError::InvalidRow => "a stored row violates the store invariants"@,
            RecallError::EmptyEditorCommand => (
                "the first entry in editor_command must be the path to a text editor program"@
            ),
            RecallError::ConflictingContentFlags => (
                "at most one of path, link and text may be supplied"@
            ),
            RecallError::EmptyTitle => "a note title must not be empty"@,
        }
    }
}

} // verus!
