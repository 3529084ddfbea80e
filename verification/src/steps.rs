//! The conversation between an archiver and the program that runs it.
//!
//! The archiver says what to do next, the program does it and says what came of it. The types
//! stand for the values the program handles when they are filled with byte strings, and for their
//! mathematical values when they are filled with sequences.

use vstd::prelude::*;
use vstd::string::*;

use crate::error::{Error, ErrorView};
use crate::files::{FileListEntry, FileView};
use crate::flags::Flags;
use crate::metadata::{FileFacts, Metadata, MetadataView};
use crate::mode::FileStat;
use crate::text::{joined_text, quote_path, quoted_path};

verus! {

/// What goes into the catalog of an archive.
#[derive(Debug, PartialEq, Eq)]
pub enum CatalogOp<B> {
    /// A directory starts.
    StartDirectory(B),
    /// The directory ends.
    EndDirectory,
    /// A regular file.
    AddFile {
        /// Its name.
        name: B,
        /// Its size.
        size: u64,
        /// The time of its last change.
        mtime: u64,
    },
    /// Another name of a file.
    AddHardlink(B),
    /// A socket.
    AddSocket(B),
    /// A named pipe.
    AddFifo(B),
    /// A symbolic link.
    AddSymlink(B),
    /// A block device.
    AddBlockDevice(B),
    /// A character device.
    AddCharDevice(B),
}

/// What goes into an archive.
#[derive(Debug, PartialEq, Eq)]
pub enum EncodeOp<B, M> {
    /// The archive itself, with the metadata of the source directory.
    NewArchive(M),
    /// A regular file whose contents are at hand.
    Content {
        /// Its name.
        name: B,
        /// Its metadata.
        metadata: M,
        /// Its contents.
        content: B,
    },
    /// Another name of a file that is in the archive.
    Hardlink {
        /// The name.
        name: B,
        /// The path of the file.
        target: B,
        /// The place of the file in the archive.
        offset: u64,
    },
    /// The open regular file.
    File {
        /// Its name.
        name: B,
        /// Its metadata.
        metadata: M,
        /// Its size.
        size: u64,
    },
    /// The open directory.
    Directory {
        /// Its name.
        name: B,
        /// Its metadata.
        metadata: M,
    },
    /// A socket.
    Socket {
        /// Its name.
        name: B,
        /// Its metadata.
        metadata: M,
    },
    /// A named pipe.
    Fifo {
        /// Its name.
        name: B,
        /// Its metadata.
        metadata: M,
    },
    /// The open symbolic link.
    Symlink {
        /// Its name.
        name: B,
        /// Its metadata.
        metadata: M,
    },
    /// A device.
    Device {
        /// Its name.
        name: B,
        /// Its metadata.
        metadata: M,
        /// What it stands for.
        rdev: u64,
    },
    /// The end of the directory, or of the archive.
    Finish,
}

/// What to do next.
#[derive(Debug, PartialEq, Eq)]
pub enum Action<B, M, E> {
    /// Find out on what file system the directory lies.
    DetectFs,
    /// Examine the source directory.
    StatSource,
    /// Read what the metadata of the open file is put together from.
    ReadMetadata {
        /// What is known of the file.
        stat: FileStat,
        /// The features that count.
        flags: Flags,
        /// The file system.
        fs_magic: i64,
    },
    /// Read the `.pxarexclude` of the directory, if there is one.
    ReadExcludes,
    /// Read the next name of the directory.
    NextName,
    /// Examine an entry of the directory.
    StatEntry {
        /// Its name.
        name: B,
        /// Its path.
        path: B,
    },
    /// Announce a path.
    Callback(B),
    /// Open an entry of the directory.
    Open {
        /// Its name.
        name: B,
        /// Whether only the place in the file system is opened, not the contents.
        path_only: bool,
    },
    /// Write to the catalog.
    Catalog(CatalogOp<B>),
    /// Write to the archive.
    Encode(EncodeOp<B, M>),
    /// The archive is done, or given up.
    Finished(Result<(), E>),
}

/// What came of the last action.
#[derive(Debug, PartialEq, Eq)]
pub enum Event {
    /// It was done.
    Done,
    /// It failed.
    Failed(String),
    /// There is no such file, no further name, or nothing that may be opened.
    Missing,
    /// The lines of the `.pxarexclude`, up to the error that ended the reading, if one did.
    Lines {
        /// The lines.
        lines: Vec<Vec<u8>>,
        /// The error.
        error: Option<String>,
    },
    /// A name of the directory, and what is wrong with it as the name of an entry.
    Name {
        /// The name.
        name: Vec<u8>,
        /// What is wrong.
        invalid: Option<String>,
    },
    /// What is known of the file.
    Stat(FileStat),
    /// What the metadata of the file is put together from.
    Facts(FileFacts),
    /// The file was written at this place of the archive.
    Offset(u64),
    /// The file system.
    Fs {
        /// Its magic number.
        magic: i64,
        /// The features it has.
        flags: Flags,
    },
}

/// What the archiver waits for.
#[derive(Debug)]
pub enum Phase<B, F, M, E> {
    /// The file system of the source directory.
    SourceFs,
    /// The stat of the source directory.
    SourceStat,
    /// The metadata of the source directory.
    SourceMetadata(FileStat),
    /// The start of the archive.
    SourceEncoder(FileStat),
    /// The exclude patterns of the directory.
    Excludes,
    /// A name of the directory.
    Names,
    /// The stat of an entry.
    EntryStat {
        /// Its name.
        name: B,
        /// Its path.
        path: B,
    },
    /// The announcement of an entry.
    Callback(F),
    /// The opening of an entry.
    Open(F),
    /// The metadata of an entry.
    Metadata(F),
    /// The catalog, before something goes into the archive.
    Catalog {
        /// What goes into the archive.
        next: EncodeOp<B, M>,
        /// The device and inode of a file with more than one name.
        link: Option<(u64, u64)>,
        /// Whether it is an entry on disk.
        in_entry: bool,
    },
    /// The archive.
    Encode {
        /// Whether it is an entry on disk.
        in_entry: bool,
    },
    /// The contents of a file.
    File {
        /// The device and inode of a file with more than one name.
        link: Option<(u64, u64)>,
    },
    /// The catalog, before a directory starts.
    DirCatalog {
        /// Its name.
        name: B,
        /// Its metadata.
        metadata: M,
        /// Its device.
        st_dev: u64,
    },
    /// The start of a directory.
    DirEncode {
        /// Its device.
        st_dev: u64,
    },
    /// The file system of a directory.
    DirFs {
        /// Its device.
        st_dev: u64,
    },
    /// The end of a directory, and the error that ended it.
    Finish(Option<E>),
    /// The catalog, at the end of a directory, and the error that ended it.
    EndDirectory(Option<E>),
    /// The end of the archive.
    FinishArchive,
    /// Nothing more.
    Finished,
}

/// Something that is reported and passed over.
#[derive(Debug, PartialEq, Eq)]
pub enum Warning<B, T> {
    /// A pattern in the `.pxarexclude` of this directory was refused.
    BadPattern(B, T),
    /// The `.pxarexclude` of this directory could not be read to its end.
    UnreadableExcludes(B, T),
}

/// The value of an optional error.
pub open spec fn error_view(error: Option<Error>) -> Option<ErrorView> {
    match error {
        Some(error) => Some(error@),
        None => None,
    }
}

impl View for CatalogOp<Vec<u8>> {
    type V = CatalogOp<Seq<u8>>;

    open spec fn view(&self) -> CatalogOp<Seq<u8>> {
        match *self {
            CatalogOp::StartDirectory(name) => CatalogOp::StartDirectory(name@),
            CatalogOp::EndDirectory => CatalogOp::EndDirectory,
            CatalogOp::AddFile { name, size, mtime } => CatalogOp::AddFile { name: name@, size, mtime },
            CatalogOp::AddHardlink(name) => CatalogOp::AddHardlink(name@),
            CatalogOp::AddSocket(name) => CatalogOp::AddSocket(name@),
            CatalogOp::AddFifo(name) => CatalogOp::AddFifo(name@),
            CatalogOp::AddSymlink(name) => CatalogOp::AddSymlink(name@),
            CatalogOp::AddBlockDevice(name) => CatalogOp::AddBlockDevice(name@),
            CatalogOp::AddCharDevice(name) => CatalogOp::AddCharDevice(name@),
        }
    }
}

impl View for EncodeOp<Vec<u8>, Metadata> {
    type V = EncodeOp<Seq<u8>, MetadataView>;

    open spec fn view(&self) -> EncodeOp<Seq<u8>, MetadataView> {
        match *self {
            EncodeOp::NewArchive(metadata) => EncodeOp::NewArchive(metadata@),
            EncodeOp::Content { name, metadata, content } => EncodeOp::Content {
                name: name@,
                metadata: metadata@,
                content: content@,
            },
            EncodeOp::Hardlink { name, target, offset } => EncodeOp::Hardlink {
                name: name@,
                target: target@,
                offset,
            },
            EncodeOp::File { name, metadata, size } => EncodeOp::File {
                name: name@,
                metadata: metadata@,
                size,
            },
            EncodeOp::Directory { name, metadata } => EncodeOp::Directory {
                name: name@,
                metadata: metadata@,
            },
            EncodeOp::Socket { name, metadata } => EncodeOp::Socket {
                name: name@,
                metadata: metadata@,
            },
            EncodeOp::Fifo { name, metadata } => EncodeOp::Fifo { name: name@, metadata: metadata@ },
            EncodeOp::Symlink { name, metadata } => EncodeOp::Symlink {
                name: name@,
                metadata: metadata@,
            },
            EncodeOp::Device { name, metadata, rdev } => EncodeOp::Device {
                name: name@,
                metadata: metadata@,
                rdev,
            },
            EncodeOp::Finish => EncodeOp::Finish,
        }
    }
}

impl View for Action<Vec<u8>, Metadata, Error> {
    type V = Action<Seq<u8>, MetadataView, ErrorView>;

    open spec fn view(&self) -> Action<Seq<u8>, MetadataView, ErrorView> {
        match *self {
            Action::DetectFs => Action::DetectFs,
            Action::StatSource => Action::StatSource,
            Action::ReadMetadata { stat, flags, fs_magic } => Action::ReadMetadata { stat, flags, fs_magic },
            Action::ReadExcludes => Action::ReadExcludes,
            Action::NextName => Action::NextName,
            Action::StatEntry { name, path } => Action::StatEntry { name: name@, path: path@ },
            Action::Callback(path) => Action::Callback(path@),
            Action::Open { name, path_only } => Action::Open { name: name@, path_only },
            Action::Catalog(op) => Action::Catalog(op@),
            Action::Encode(op) => Action::Encode(op@),
            Action::Finished(Ok(_)) => Action::Finished(Ok(())),
            Action::Finished(Err(error)) => Action::Finished(Err(error@)),
        }
    }
}

impl View for Phase<Vec<u8>, FileListEntry, Metadata, Error> {
    type V = Phase<Seq<u8>, FileView, MetadataView, ErrorView>;

    open spec fn view(&self) -> Phase<Seq<u8>, FileView, MetadataView, ErrorView> {
        match *self {
            Phase::SourceFs => Phase::SourceFs,
            Phase::SourceStat => Phase::SourceStat,
            Phase::SourceMetadata(stat) => Phase::SourceMetadata(stat),
            Phase::SourceEncoder(stat) => Phase::SourceEncoder(stat),
            Phase::Excludes => Phase::Excludes,
            Phase::Names => Phase::Names,
            Phase::EntryStat { name, path } => Phase::EntryStat { name: name@, path: path@ },
            Phase::Callback(entry) => Phase::Callback(entry@),
            Phase::Open(entry) => Phase::Open(entry@),
            Phase::Metadata(entry) => Phase::Metadata(entry@),
            Phase::Catalog { next, link, in_entry } => Phase::Catalog { next: next@, link, in_entry },
            Phase::Encode { in_entry } => Phase::Encode { in_entry },
            Phase::File { link } => Phase::File { link },
            Phase::DirCatalog { name, metadata, st_dev } => Phase::DirCatalog {
                name: name@,
                metadata: metadata@,
                st_dev,
            },
            Phase::DirEncode { st_dev } => Phase::DirEncode { st_dev },
            Phase::DirFs { st_dev } => Phase::DirFs { st_dev },
            Phase::Finish(error) => Phase::Finish(error_view(error)),
            Phase::EndDirectory(error) => Phase::EndDirectory(error_view(error)),
            Phase::FinishArchive => Phase::FinishArchive,
            Phase::Finished => Phase::Finished,
        }
    }
}

impl View for Warning<Vec<u8>, String> {
    type V = Warning<Seq<u8>, Seq<char>>;

    open spec fn view(&self) -> Warning<Seq<u8>, Seq<char>> {
        match *self {
            Warning::BadPattern(path, message) => Warning::BadPattern(path@, message@),
            Warning::UnreadableExcludes(path, message) => Warning::UnreadableExcludes(path@, message@),
        }
    }
}

/// The message of a warning.
pub open spec fn warning_text(warning: Warning<Seq<u8>, Seq<char>>) -> Seq<char> {
    match warning {
        Warning::BadPattern(path, message) => "bad pattern in "@ + quoted_path(path) + ": "@ + message,
        Warning::UnreadableExcludes(path, message) => "ignoring .pxarexclude after read error in "@
            + quoted_path(path) + ": "@ + message,
    }
}

impl Warning<Vec<u8>, String> {
    /// The message of the warning.
    pub fn to_string(&self) -> (r: String)
        ensures
            r@ == warning_text(self@),
    {
        let (start, path, message) = match self {
            Warning::BadPattern(path, message) => ("bad pattern in ", path, message),
            Warning::UnreadableExcludes(path, message) => {
                ("ignoring .pxarexclude after read error in ", path, message)
            },
        };
        let mut r = joined_text(start, quote_path(path.as_slice()).as_str());
        r.append(": ");
        r.append(message.as_str());
        r
    }
}

} // verus!
