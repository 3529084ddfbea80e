//! What can go wrong while an archive is made.

use vstd::prelude::*;
use vstd::string::*;

use crate::text::{digits, digits_of, joined_text, quote_path, quoted_path};

verus! {

/// The cause of an error.
#[derive(Debug, PartialEq, Eq)]
pub enum Failure {
    /// The source directory lies on a virtual file system.
    VirtualFileSystem,
    /// The metadata of the source directory could not be read.
    SourceMetadata(String),
    /// A pattern was refused.
    Pattern(String),
    /// There are more entries than this limit allows.
    EntryLimit(usize),
    /// The file at this path could not be examined.
    Stat(Vec<u8>, String),
    /// A file is of this unknown type.
    UnknownFileType(u64),
    /// Something outside of the archive's own rules failed.
    Outside(String),
}

/// The mathematical value of a [`Failure`].
pub enum FailureView {
    /// The source directory lies on a virtual file system.
    VirtualFileSystem,
    /// The metadata of the source directory could not be read.
    SourceMetadata(Seq<char>),
    /// A pattern was refused.
    Pattern(Seq<char>),
    /// There are more entries than this limit allows.
    EntryLimit(usize),
    /// The file at this path could not be examined.
    Stat(Seq<u8>, Seq<char>),
    /// A file is of this unknown type.
    UnknownFileType(u64),
    /// Something outside of the archive's own rules failed.
    Outside(Seq<char>),
}

impl View for Failure {
    type V = FailureView;

    open spec fn view(&self) -> FailureView {
        match *self {
            Failure::VirtualFileSystem => FailureView::VirtualFileSystem,
            Failure::SourceMetadata(message) => FailureView::SourceMetadata(message@),
            Failure::Pattern(message) => FailureView::Pattern(message@),
            Failure::EntryLimit(limit) => FailureView::EntryLimit(limit),
            Failure::Stat(path, message) => FailureView::Stat(path@, message@),
            Failure::UnknownFileType(file_type) => FailureView::UnknownFileType(file_type),
            Failure::Outside(message) => FailureView::Outside(message@),
        }
    }
}

impl FailureView {
    /// The message of the cause.
    pub open spec fn text(self) -> Seq<char> {
        match self {
            FailureView::VirtualFileSystem => "refusing to backup a virtual file system"@,
            FailureView::SourceMetadata(message) => "failed to get metadata for source directory: "@
                + message,
            FailureView::Pattern(message) => message,
            FailureView::EntryLimit(limit) => "exceeded allowed number of file entries (> "@ + digits(
                limit as nat,
                10,
            ) + ")"@,
            FailureView::Stat(path, message) => "stat failed on "@ + quoted_path(path) + ": "@ + message,
            FailureView::UnknownFileType(file_type) => "encountered unknown file type: 0x"@ + digits(
                file_type as nat,
                16,
            ) + " (0o"@ + digits(file_type as nat, 8) + ")"@,
            FailureView::Outside(message) => message,
        }
    }
}

impl Failure {
    /// The message of the cause.
    pub fn to_string(&self) -> (r: String)
        ensures
            r@ == self@.text(),
    {
        match self {
            Failure::VirtualFileSystem => "refusing to backup a virtual file system".to_owned(),
            Failure::SourceMetadata(message) => {
                joined_text("failed to get metadata for source directory: ", message.as_str())
            },
            Failure::Pattern(message) => message.clone(),
            Failure::EntryLimit(limit) => {
                let mut r = joined_text(
                    "exceeded allowed number of file entries (> ",
                    digits_of(*limit as u64, 10).as_str(),
                );
                r.append(")");
                r
            },
            Failure::Stat(path, message) => {
                let mut r = joined_text("stat failed on ", quote_path(path.as_slice()).as_str());
                r.append(": ");
                r.append(message.as_str());
                r
            },
            Failure::UnknownFileType(file_type) => {
                let mut r = joined_text(
                    "encountered unknown file type: 0x",
                    digits_of(*file_type, 16).as_str(),
                );
                r.append(" (0o");
                r.append(digits_of(*file_type, 8).as_str());
                r.append(")");
                r
            },
            Failure::Outside(message) => message.clone(),
        }
    }
}

/// An error, and the path at which it came up.
#[derive(Debug, PartialEq, Eq)]
pub struct ArchiveError {
    /// The path.
    pub path: Vec<u8>,
    /// The cause.
    pub error: Failure,
}

impl ArchiveError {
    /// Puts a path to an error.
    pub fn new(path: Vec<u8>, error: Failure) -> (r: ArchiveError)
        ensures
            r.path == path,
            r.error == error,
    {
        ArchiveError { path, error }
    }

    /// The message of the error: its path and its cause.
    pub fn to_string(&self) -> (r: String)
        ensures
            r@ == "error at "@ + quoted_path(self.path@) + ": "@ + self.error@.text(),
    {
        let mut r = joined_text("error at ", quote_path(self.path.as_slice()).as_str());
        r.append(": ");
        r.append(self.error.to_string().as_str());
        r
    }
}

/// An error, with or without the path at which it came up.
#[derive(Debug, PartialEq, Eq)]
pub enum Error {
    /// An error with a path.
    At(ArchiveError),
    /// An error without one.
    Plain(Failure),
}

/// The mathematical value of an [`Error`].
pub enum ErrorView {
    /// An error with a path.
    At(Seq<u8>, FailureView),
    /// An error without one.
    Plain(FailureView),
}

impl View for Error {
    type V = ErrorView;

    open spec fn view(&self) -> ErrorView {
        match *self {
            Error::At(error) => ErrorView::At(error.path@, error.error@),
            Error::Plain(failure) => ErrorView::Plain(failure@),
        }
    }
}

impl ErrorView {
    /// The message of the error.
    pub open spec fn text(self) -> Seq<char> {
        match self {
            ErrorView::At(path, failure) => "error at "@ + quoted_path(path) + ": "@ + failure.text(),
            ErrorView::Plain(failure) => failure.text(),
        }
    }

    /// The error with the given path, unless it has a path already.
    pub open spec fn wrapped(self, path: Seq<u8>) -> ErrorView {
        match self {
            ErrorView::At(_, _) => self,
            ErrorView::Plain(failure) => ErrorView::At(path, failure),
        }
    }
}

impl Error {
    /// The message of the error.
    pub fn to_string(&self) -> (r: String)
        ensures
            r@ == self@.text(),
    {
        match self {
            Error::At(error) => error.to_string(),
            Error::Plain(failure) => failure.to_string(),
        }
    }
}

/// Puts the given path to an error, unless it has a path already.
pub fn wrap_err(err: Error, path: &[u8]) -> (r: Error)
    ensures
        r@ == err@.wrapped(path@),
{
    match err {
        Error::At(error) => Error::At(error),
        Error::Plain(failure) => Error::At(ArchiveError::new(crate::bytes::bytes_copy(path), failure)),
    }
}

/// An error keeps the first path that is put to it, and is never without one after.
pub proof fn law_first_path_stays(err: ErrorView, first: Seq<u8>, second: Seq<u8>)
    ensures
        err.wrapped(first).wrapped(second) == err.wrapped(first),
        err.wrapped(first) is At,
{
}

} // verus!
