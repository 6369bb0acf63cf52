//! Errors of single backend operations and of transfers between two sides.

use vstd::prelude::*;

use crate::path::ObjectPath;

verus! {

/// A failure of one operation on one backend. Every kind carries the path it
/// concerns, so that a message can be built without further context.
#[derive(Clone, Debug, PartialEq, Eq)]
pub enum StorageError {
    /// Nothing exists at the path.
    NotFound(ObjectPath),
    /// The text could not be read as a path.
    InvalidPath(String),
    /// Something already exists at the path.
    AlreadyExists(ObjectPath),
    /// The backend refuses the operation at the path.
    PermissionDenied(ObjectPath),
    /// Any other failure of the backend or of its transport.
    Backend(ObjectPath, String),
}

/// What a [`StorageError`] says, as mathematical values.
pub ghost enum ErrorView {
    NotFound(Seq<Seq<char>>),
    InvalidPath(Seq<char>),
    AlreadyExists(Seq<Seq<char>>),
    PermissionDenied(Seq<Seq<char>>),
    Backend(Seq<Seq<char>>, Seq<char>),
}

impl View for StorageError {
    type V = ErrorView;

    open spec fn view(&self) -> ErrorView {
        match self {
            StorageError::NotFound(p) => ErrorView::NotFound(p@),
            StorageError::InvalidPath(s) => ErrorView::InvalidPath(s@),
            StorageError::AlreadyExists(p) => ErrorView::AlreadyExists(p@),
            StorageError::PermissionDenied(p) => ErrorView::PermissionDenied(p@),
            StorageError::Backend(p, m) => ErrorView::Backend(p@, m@),
        }
    }
}

/// A failure of a transfer, tagged with the side that caused it.
#[derive(Clone, Debug, PartialEq, Eq)]
pub enum TransferError {
    /// Reading from the source failed.
    SourceError(StorageError),
    /// Writing to the target failed.
    TargetError(StorageError),
    /// A move copied the object but could not remove the source afterwards.
    SourceNotRemoved(StorageError),
}

/// What a [`TransferError`] says, as mathematical values.
pub ghost enum TransferErrorView {
    SourceError(ErrorView),
    TargetError(ErrorView),
    SourceNotRemoved(ErrorView),
}

impl View for TransferError {
    type V = TransferErrorView;

    open spec fn view(&self) -> TransferErrorView {
        match self {
            TransferError::SourceError(e) => TransferErrorView::SourceError(e@),
            TransferError::TargetError(e) => TransferErrorView::TargetError(e@),
            TransferError::SourceNotRemoved(e) => TransferErrorView::SourceNotRemoved(e@),
        }
    }
}

impl TransferError {
    /// The error of the side at fault.
    pub fn storage_error(&self) -> (r: &StorageError)
        ensures
            match self {
                TransferError::SourceError(e) => r == e,
                TransferError::TargetError(e) => r == e,
                TransferError::SourceNotRemoved(e) => r == e,
            },
    {
        match self {
            TransferError::SourceError(e) => e,
            TransferError::TargetError(e) => e,
            TransferError::SourceNotRemoved(e) => e,
        }
    }
}

} // verus!
