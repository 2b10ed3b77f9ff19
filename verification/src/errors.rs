//! The error taxonomy of the library.

use vstd::prelude::*;

verus! {

/// Mathematical view of a [`NoteError`].
pub enum NoteErrorView {
    MissingField { field: Seq<char> },
    NotAValidID,
}

/// An error raised while interpreting a command line: a required argument is
/// absent, or an id argument does not parse as an integer. Both are recovered
/// by the caller printing a message.
#[derive(Debug, PartialEq)]
pub enum NoteError {
    MissingField { field: String },
    NotAValidID,
}

impl View for NoteError {
    type V = NoteErrorView;

    open spec fn view(&self) -> NoteErrorView {
        match self {
            NoteError::MissingField { field } => NoteErrorView::MissingField { field: field@ },
            NoteError::NotAValidID => NoteErrorView::NotAValidID,
        }
    }
}

/// An error raised by the storage engine. `Unavailable` means the backing
/// medium could not be opened or initialized; `Failed` means an individual
/// statement failed against an open store. Neither is retried.
#[derive(Debug, PartialEq, Eq, Structural, Clone, Copy)]
pub enum StorageError {
    Unavailable,
    Failed,
}

} // verus!
