//! What the stores and the delivery refuse, and why.

use vstd::prelude::*;

verus! {

/// The kind of access that a caller asks for.
#[derive(Clone, Copy, Debug, PartialEq, Eq, Structural)]
pub enum Operation {
    Read,
    Write,
}

/// Why an operation was refused.
#[derive(Debug, Clone, PartialEq, Eq)]
pub enum Error {
    /// The rule of the collection does not let the caller do this.
    PermissionDenied { collection: String, operation: Operation },
    /// The record, encoding or chunk asked for is not there.
    NotFound,
    /// The version that the caller expected is not the stored one.
    VersionConflict,
    /// The assembled content is longer than the rule allows.
    SizeLimitExceeded,
    /// The upload batch is past its expiry.
    BatchExpired,
    /// No upload batch has this id.
    BatchNotFound,
    /// The content changed since the continuation token was issued.
    IntegrityMismatch,
    /// The request is malformed or cannot be carried out as given.
    InvalidInput,
}

/// The model of an [`Error`].
pub enum ErrorView {
    PermissionDenied { collection: Seq<char>, operation: Operation },
    NotFound,
    VersionConflict,
    SizeLimitExceeded,
    BatchExpired,
    BatchNotFound,
    IntegrityMismatch,
    InvalidInput,
}

impl DeepView for Error {
    type V = ErrorView;

    open spec fn deep_view(&self) -> ErrorView {
        match self {
            Error::PermissionDenied { collection, operation } => ErrorView::PermissionDenied {
                collection: collection@,
                operation: *operation,
            },
            Error::NotFound => ErrorView::NotFound,
            Error::VersionConflict => ErrorView::VersionConflict,
            Error::SizeLimitExceeded => ErrorView::SizeLimitExceeded,
            Error::BatchExpired => ErrorView::BatchExpired,
            Error::BatchNotFound => ErrorView::BatchNotFound,
            Error::IntegrityMismatch => ErrorView::IntegrityMismatch,
            Error::InvalidInput => ErrorView::InvalidInput,
        }
    }
}

impl View for Error {
    type V = ErrorView;

    open spec fn view(&self) -> ErrorView {
        self.deep_view()
    }
}

/// The refusal of `operation` on `collection`.
pub open spec fn denied(collection: Seq<char>, operation: Operation) -> ErrorView {
    ErrorView::PermissionDenied { collection, operation }
}

/// What a refusal says.
pub open spec fn error_text(error: ErrorView) -> Seq<char> {
    match error {
        ErrorView::PermissionDenied { collection, operation } => match operation {
            Operation::Read => "Reading is not permitted in collection "@ + collection,
            Operation::Write => "Writing is not permitted in collection "@ + collection,
        },
        ErrorView::NotFound => "Not found."@,
        ErrorView::VersionConflict => "The version is not the stored one."@,
        ErrorView::SizeLimitExceeded => "The content is larger than the collection allows."@,
        ErrorView::BatchExpired => "The batch has expired."@,
        ErrorView::BatchNotFound => "The batch does not exist."@,
        ErrorView::IntegrityMismatch => "The content has changed."@,
        ErrorView::InvalidInput => "The request cannot be carried out."@,
    }
}

impl Error {
    /// What this refusal says.
    pub fn message(&self) -> (r: String)
        ensures
            r@ == error_text(self.deep_view()),
    {
        match self {
            Error::PermissionDenied { collection, operation } => match operation {
                Operation::Read => String::from_str(
                    "Reading is not permitted in collection ",
                ).concat(collection.as_str()),
                Operation::Write => String::from_str(
                    "Writing is not permitted in collection ",
                ).concat(collection.as_str()),
            },
            Error::NotFound => String::from_str("Not found."),
            Error::VersionConflict => String::from_str("The version is not the stored one."),
            Error::SizeLimitExceeded => String::from_str(
                "The content is larger than the collection allows.",
            ),
            Error::BatchExpired => String::from_str("The batch has expired."),
            Error::BatchNotFound => String::from_str("The batch does not exist."),
            Error::IntegrityMismatch => String::from_str("The content has changed."),
            Error::InvalidInput => String::from_str("The request cannot be carried out."),
        }
    }
}

} // verus!
