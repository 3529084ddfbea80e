//! How an archive is made: what an archiver does next, given where it is and what came of the
//! last action.

use vstd::prelude::*;
use vstd::string::*;

use crate::error::{ErrorView, FailureView};
use crate::excludes::{byte_strings, exclude_entries, exclude_errors, excludes_cli, is_line_readable};
use crate::files::{is_sorted_list_of, joined, FileView};
use crate::flags::Flags;
use crate::fs_magic::virtual_magics;
use crate::hardlinks::LinkView;
use crate::acl::AclView;
use crate::metadata::{metadata_of, type_bits, MetadataView, Stat};
use crate::mode::{
    FileStat, IFBLK, IFCHR, IFDIR, IFIFO, IFLNK, IFMT, IFREG, IFSOCK,
};
use crate::patterns::{
    glob_error, glob_text, is_excluded, parsed_entry, EntryView, MatchType, PATH_NAME,
};
use crate::steps::{Action, CatalogOp, EncodeOp, Event, Phase, Warning};

verus! {

/// What is kept of a directory while its contents are archived.
pub struct FrameView {
    /// The file system of the directory above.
    pub outer_magic: i64,
    /// The features of the file system of the directory above.
    pub outer_flags: Flags,
    /// The device of the directory above.
    pub outer_dev: u64,
    /// The number of entries when the contents were begun.
    pub saved_counter: usize,
    /// The number of patterns when the contents were begun.
    pub saved_patterns: nat,
    /// The path of the directory.
    pub saved_path: Seq<u8>,
    /// The entries that are still to be archived.
    pub queue: Seq<FileView>,
}

/// Where an archiver is.
#[verifier::ext_equal]
pub struct State {
    /// The features that are asked for.
    pub feature_flags: Flags,
    /// The features of the file system.
    pub fs_feature_flags: Flags,
    /// The file system.
    pub fs_magic: i64,
    /// The patterns that count.
    pub patterns: Seq<EntryView>,
    /// Whether there is a catalog.
    pub has_catalog: bool,
    /// Whether `lost+found` is left out.
    pub skip_lost_and_found: bool,
    /// The path of the current file.
    pub path: Seq<u8>,
    /// The number of entries in the lists of the open directories.
    pub entry_counter: usize,
    /// The largest number of such entries.
    pub entry_limit: usize,
    /// The device of the current directory.
    pub current_st_dev: u64,
    /// The devices whose directories are entered; `None` for all.
    pub device_set: Option<Set<u64>>,
    /// The files with more than one name that are in the archive.
    pub hardlinks: Map<(u64, u64), LinkView>,
    /// The entries of the current directory that were found so far.
    pub listed: Seq<FileView>,
    /// The open directories, the source directory first.
    pub stack: Seq<FrameView>,
    /// What was passed over.
    pub warnings: Seq<Warning<Seq<u8>, Seq<char>>>,
    /// What the archiver waits for.
    pub phase: Phase<Seq<u8>, FileView, MetadataView, ErrorView>,
}

/// An action, over mathematical values.
pub type ActionView = Action<Seq<u8>, MetadataView, ErrorView>;

/// Something that goes into the archive, over mathematical values.
pub type EncodeView = EncodeOp<Seq<u8>, MetadataView>;

/// The name of the file with the exclude patterns of a directory.
pub open spec fn excludes_name() -> Seq<u8> {
    ".pxarexclude".spec_bytes()
}

/// The name of the file that records the exclude patterns of an archive.
pub open spec fn cli_name() -> Seq<u8> {
    ".pxarexclude-cli".spec_bytes()
}

/// An error from outside.
pub open spec fn outside(message: Seq<char>) -> ErrorView {
    ErrorView::Plain(FailureView::Outside(message))
}

impl State {
    /// Whether the contents of the source directory are being archived.
    pub open spec fn is_root(self) -> bool {
        self.stack.len() == 1
    }

    /// The features that count: those that are asked for and that the file system has.
    pub open spec fn flags(self) -> Flags {
        self.feature_flags.spec_and(self.fs_feature_flags)
    }

    /// The state with another innermost directory.
    pub open spec fn with_top(self, frame: FrameView) -> State {
        State { stack: self.stack.drop_last().push(frame), ..self }
    }

    /// The state that waits for something else.
    pub open spec fn waiting(self, phase: Phase<Seq<u8>, FileView, MetadataView, ErrorView>) -> State {
        State { phase, ..self }
    }
}

// ---------------------------------------------------------------------------------------------
// The end of directories
// ---------------------------------------------------------------------------------------------

/// The archive is given up.
pub open spec fn give_up(s: State, error: ErrorView) -> (State, ActionView) {
    (s.waiting(Phase::Finished), Action::Finished(Err(error)))
}

/// The innermost directory, which is not the source directory, ends: what was known of the file
/// system of the directory above counts again.
pub open spec fn leave(s: State, error: Option<ErrorView>) -> (State, ActionView) {
    let frame = s.stack.last();
    (
        State {
            fs_magic: frame.outer_magic,
            fs_feature_flags: frame.outer_flags,
            current_st_dev: frame.outer_dev,
            ..s
        }.waiting(Phase::Finish(error)),
        Action::Encode(EncodeOp::Finish),
    )
}

/// The contents of the innermost directory cannot be archived.
pub open spec fn fail_contents(s: State, error: ErrorView) -> (State, ActionView) {
    if s.is_root() {
        give_up(s, error)
    } else {
        leave(s, Some(error))
    }
}

/// An entry of the innermost directory cannot be archived: the error gets the path of the current
/// file, unless it has a path already.
pub open spec fn fail_entry(s: State, error: ErrorView) -> (State, ActionView) {
    fail_contents(s, error.wrapped(s.path))
}

/// The contents of the innermost directory are archived: its path, the number of entries and the
/// patterns from before count again.
pub open spec fn end_contents(s: State) -> (State, ActionView) {
    let frame = s.stack.last();
    let restored = State {
        path: frame.saved_path,
        entry_counter: frame.saved_counter,
        patterns: if frame.saved_patterns <= s.patterns.len() {
            s.patterns.take(frame.saved_patterns as int)
        } else {
            s.patterns
        },
        ..s
    };
    if s.is_root() {
        (restored.waiting(Phase::FinishArchive), Action::Encode(EncodeOp::Finish))
    } else {
        leave(restored, None)
    }
}

// ---------------------------------------------------------------------------------------------
// Entries
// ---------------------------------------------------------------------------------------------

/// Something goes into the archive.
pub open spec fn encode(s: State, op: EncodeView, link: Option<(u64, u64)>, in_entry: bool) -> (
    State,
    ActionView,
) {
    (
        s.waiting(
            if op is File {
                Phase::File { link }
            } else {
                Phase::Encode { in_entry }
            },
        ),
        Action::Encode(op),
    )
}

/// Something goes into the catalog, if there is one, and then into the archive.
pub open spec fn record(
    s: State,
    catalog: CatalogOp<Seq<u8>>,
    op: EncodeView,
    link: Option<(u64, u64)>,
    in_entry: bool,
) -> (State, ActionView) {
    if s.has_catalog {
        (s.waiting(Phase::Catalog { next: op, link, in_entry }), Action::Catalog(catalog))
    } else {
        encode(s, op, link, in_entry)
    }
}

/// The metadata of the file that records the exclude patterns: a regular file that its owner may
/// read and write.
pub open spec fn cli_metadata() -> MetadataView {
    MetadataView {
        stat: Stat { mode: 0x8180, flags: 0, uid: 0, gid: 0, mtime_secs: 0, mtime_nanos: 0 },
        xattrs: Seq::empty(),
        acl: AclView::empty(),
        fcaps: None,
        quota_project_id: None,
    }
}

/// The file that records the exclude patterns goes into the archive.
pub open spec fn encode_pxarexclude_cli(s: State) -> (State, ActionView) {
    let content = excludes_cli(s.patterns);
    record(
        s,
        CatalogOp::AddFile { name: cli_name(), size: content.len() as u64, mtime: 0 },
        EncodeOp::Content { name: cli_name(), metadata: cli_metadata(), content },
        None,
        false,
    )
}

/// The next entry of the innermost directory.
#[verifier::opaque]
pub open spec fn next_entry(s: State) -> (State, ActionView) {
    let frame = s.stack.last();
    if frame.queue.len() == 0 {
        end_contents(s)
    } else {
        let entry = frame.queue[0];
        let rest = s.with_top(FrameView { queue: frame.queue.drop_first(), ..frame });
        if s.is_root() && entry.name == cli_name() {
            encode_pxarexclude_cli(rest)
        } else {
            (rest.waiting(Phase::Callback(entry)), Action::Callback(entry.path))
        }
    }
}

/// Whether only the place of a file is opened: for all but regular files and directories.
pub open spec fn opens_path_only(mode: u32) -> bool {
    mode & IFMT != IFREG && mode & IFMT != IFDIR
}

/// What is known of the file with the given stat, if it has more than one name and is in the
/// archive.
pub open spec fn known_link(s: State, stat: FileStat) -> Option<LinkView> {
    if stat.st_nlink > 1 && s.hardlinks.contains_key((stat.st_dev, stat.st_ino)) {
        Some(s.hardlinks[(stat.st_dev, stat.st_ino)])
    } else {
        None
    }
}

/// A directory starts.
pub open spec fn start_directory(s: State, name: Seq<u8>, metadata: MetadataView, st_dev: u64) -> (
    State,
    ActionView,
) {
    let frame = FrameView {
        outer_magic: s.fs_magic,
        outer_flags: s.fs_feature_flags,
        outer_dev: s.current_st_dev,
        saved_counter: s.entry_counter,
        saved_patterns: s.patterns.len(),
        saved_path: s.path,
        queue: Seq::empty(),
    };
    (
        State { stack: s.stack.push(frame), ..s }.waiting(Phase::DirEncode { st_dev }),
        Action::Encode(EncodeOp::Directory { name, metadata }),
    )
}

/// An entry with its metadata is archived, according to its file type.
#[verifier::opaque]
pub open spec fn add_entry(s: State, entry: FileView, metadata: MetadataView) -> (State, ActionView) {
    let name = entry.name;
    let stat = entry.stat;
    let file_type = type_bits(metadata.stat.mode);
    if is_excluded(s.patterns, s.path, stat.st_mode) {
        next_entry(s)
    } else if file_type == IFREG {
        match known_link(s, stat) {
            Some(link) => record(
                s,
                CatalogOp::AddHardlink(name),
                EncodeOp::Hardlink { name, target: link.path, offset: link.offset },
                None,
                true,
            ),
            None => record(
                s,
                CatalogOp::AddFile { name, size: stat.st_size as u64, mtime: stat.st_mtime as u64 },
                EncodeOp::File { name, metadata, size: stat.st_size as u64 },
                if stat.st_nlink > 1 {
                    Some((stat.st_dev, stat.st_ino))
                } else {
                    None
                },
                true,
            ),
        }
    } else if file_type == IFDIR {
        if s.has_catalog {
            (
                s.waiting(Phase::DirCatalog { name, metadata, st_dev: stat.st_dev }),
                Action::Catalog(CatalogOp::StartDirectory(name)),
            )
        } else {
            start_directory(s, name, metadata, stat.st_dev)
        }
    } else if file_type == IFSOCK {
        record(s, CatalogOp::AddSocket(name), EncodeOp::Socket { name, metadata }, None, true)
    } else if file_type == IFIFO {
        record(s, CatalogOp::AddFifo(name), EncodeOp::Fifo { name, metadata }, None, true)
    } else if file_type == IFLNK {
        record(s, CatalogOp::AddSymlink(name), EncodeOp::Symlink { name, metadata }, None, true)
    } else if file_type == IFBLK {
        record(
            s,
            CatalogOp::AddBlockDevice(name),
            EncodeOp::Device { name, metadata, rdev: stat.st_rdev },
            None,
            true,
        )
    } else if file_type == IFCHR {
        record(
            s,
            CatalogOp::AddCharDevice(name),
            EncodeOp::Device { name, metadata, rdev: stat.st_rdev },
            None,
            true,
        )
    } else {
        fail_entry(s, ErrorView::Plain(FailureView::UnknownFileType(file_type)))
    }
}

/// The innermost directory is done with, or given up.
pub open spec fn directory_done(s: State, error: Option<ErrorView>) -> (State, ActionView) {
    let outer = State { stack: s.stack.drop_last(), ..s };
    match error {
        Some(error) => fail_entry(outer, error),
        None => next_entry(outer),
    }
}

/// The innermost directory ends in the catalog, if there is one.
pub open spec fn end_directory(s: State, error: Option<ErrorView>) -> (State, ActionView) {
    if s.has_catalog {
        (s.waiting(Phase::EndDirectory(error)), Action::Catalog(CatalogOp::EndDirectory))
    } else {
        directory_done(s, error)
    }
}

// ---------------------------------------------------------------------------------------------
// The contents of a directory
// ---------------------------------------------------------------------------------------------

/// The contents of the innermost directory are begun.
pub open spec fn begin_contents(s: State) -> (State, ActionView) {
    let frame = FrameView {
        saved_counter: s.entry_counter,
        saved_patterns: s.patterns.len(),
        ..s.stack.last()
    };
    (s.with_top(frame).waiting(Phase::Excludes), Action::ReadExcludes)
}

/// The entry that stands for the file that records the exclude patterns.
pub open spec fn cli_entry() -> FileView {
    FileView { name: cli_name(), path: Seq::empty(), stat: FileStat::spec_zeroed() }
}

/// The names of the innermost directory are read. The source directory has one that is not on
/// disk, if there are patterns.
pub open spec fn start_listing(s: State) -> (State, ActionView) {
    (
        State {
            listed: if s.is_root() && s.patterns.len() > 0 {
                seq![cli_entry()]
            } else {
                Seq::empty()
            },
            ..s
        }.waiting(Phase::Names),
        Action::NextName,
    )
}

/// The state after the `.pxarexclude` of the innermost directory was read.
pub open spec fn with_excludes(s: State, lines: Seq<Seq<u8>>, error: Option<Seq<char>>) -> State {
    let bad = exclude_errors(s.path, lines).map_values(
        |message: Seq<char>| Warning::<Seq<u8>, Seq<char>>::BadPattern(s.path, message),
    );
    match error {
        Some(message) => State {
            warnings: (s.warnings + bad).push(Warning::UnreadableExcludes(s.path, message)),
            ..s
        },
        None => State {
            warnings: s.warnings + bad,
            patterns: s.patterns + exclude_entries(s.path, lines),
            ..s
        },
    }
}

/// Whether a name of a directory is passed over.
pub open spec fn is_skipped_name(name: Seq<u8>, is_root: bool) -> bool {
    name == ".".spec_bytes() || name == "..".spec_bytes() || (is_root && name == cli_name()) || name
        == excludes_name()
}

/// All names of the innermost directory are read; its entries are archived in the given order.
pub open spec fn start_entries(s: State, order: Seq<FileView>) -> (State, ActionView) {
    let frame = FrameView { saved_path: s.path, queue: order, ..s.stack.last() };
    next_entry(State { path: Seq::empty(), listed: Seq::empty(), ..s }.with_top(frame))
}

/// An entry of the innermost directory was examined.
pub open spec fn list_entry(s: State, name: Seq<u8>, path: Seq<u8>, stat: FileStat) -> (State, ActionView) {
    if is_excluded(s.patterns, path, stat.st_mode) {
        (s.waiting(Phase::Names), Action::NextName)
    } else if s.entry_counter + 1 > s.entry_limit {
        fail_contents(s, ErrorView::Plain(FailureView::EntryLimit(s.entry_limit)))
    } else {
        (
            State {
                entry_counter: (s.entry_counter + 1) as usize,
                listed: s.listed.push(FileView { name, path, stat }),
                ..s
            }.waiting(Phase::Names),
            Action::NextName,
        )
    }
}

/// The file system of a directory on another device was found. The contents of virtual file
/// systems, and of devices that are not asked for, are left out.
pub open spec fn enter_device(s: State, st_dev: u64, magic: i64, flags: Flags) -> (State, ActionView) {
    let entered = State {
        fs_magic: magic,
        fs_feature_flags: flags,
        current_st_dev: st_dev,
        ..s
    };
    let skip = virtual_magics().contains(magic) || match s.device_set {
        Some(set) => !set.contains(st_dev),
        None => false,
    };
    if skip {
        leave(entered, None)
    } else {
        begin_contents(entered)
    }
}

// ---------------------------------------------------------------------------------------------
// The start of an archive
// ---------------------------------------------------------------------------------------------

/// The pattern that leaves `lost+found` out.
pub open spec fn lost_and_found() -> Seq<u8> {
    "lost+found".spec_bytes()
}

/// The archive is started; the contents of the source directory follow.
pub open spec fn start_contents(s: State, stat: FileStat) -> (State, ActionView) {
    let refused = glob_error(glob_text(lost_and_found()), PATH_NAME);
    let patterns = if s.skip_lost_and_found {
        s.patterns.push(parsed_entry(lost_and_found(), PATH_NAME, MatchType::Exclude))
    } else {
        s.patterns
    };
    if s.skip_lost_and_found && refused is Some {
        give_up(s, ErrorView::Plain(FailureView::Pattern(refused->0)))
    } else {
        let frame = FrameView {
            outer_magic: s.fs_magic,
            outer_flags: s.fs_feature_flags,
            outer_dev: stat.st_dev,
            saved_counter: s.entry_counter,
            saved_patterns: patterns.len(),
            saved_path: s.path,
            queue: Seq::empty(),
        };
        begin_contents(State { patterns, current_st_dev: stat.st_dev, stack: seq![frame], ..s })
    }
}

/// A new archiver.
pub open spec fn initial(
    patterns: Seq<EntryView>,
    feature_flags: Flags,
    device_set: Option<Set<u64>>,
    skip_lost_and_found: bool,
    entry_limit: usize,
    has_catalog: bool,
) -> State {
    State {
        feature_flags,
        fs_feature_flags: feature_flags,
        fs_magic: 0,
        patterns,
        has_catalog,
        skip_lost_and_found,
        path: Seq::empty(),
        entry_counter: 0,
        entry_limit,
        current_st_dev: 0,
        device_set,
        hardlinks: Map::empty(),
        listed: Seq::empty(),
        stack: Seq::empty(),
        warnings: Seq::empty(),
        phase: Phase::SourceFs,
    }
}

// ---------------------------------------------------------------------------------------------
// Steps
// ---------------------------------------------------------------------------------------------

/// Whether an event is one that the archiver waits for.
pub open spec fn accepts(s: State, e: Event) -> bool {
    match s.phase {
        Phase::SourceFs => e is Fs || e is Failed,
        Phase::SourceStat => e is Stat || e is Failed,
        Phase::SourceMetadata(_) => e is Facts,
        Phase::SourceEncoder(_) => e is Done || e is Failed,
        Phase::Excludes => match e {
            Event::Lines { lines, .. } => forall|i: int|
                0 <= i < lines@.len() ==> is_line_readable(s.path, #[trigger] lines@[i]@),
            _ => e is Missing || e is Failed,
        },
        Phase::Names => e is Name || e is Missing || e is Failed,
        Phase::EntryStat { .. } => e is Stat || e is Missing || e is Failed,
        Phase::Callback(_) => e is Done || e is Failed,
        Phase::Open(_) => e is Done || e is Missing || e is Failed,
        Phase::Metadata(_) => e is Facts,
        Phase::Catalog { .. } => e is Done || e is Failed,
        Phase::Encode { .. } => e is Done || e is Failed,
        Phase::File { .. } => e is Offset || e is Failed,
        Phase::DirCatalog { .. } => e is Done || e is Failed,
        Phase::DirEncode { .. } => e is Done || e is Failed,
        Phase::DirFs { .. } => e is Fs || e is Failed,
        Phase::Finish(_) => e is Done || e is Failed,
        Phase::EndDirectory(_) => e is Done || e is Failed,
        Phase::FinishArchive => e is Done || e is Failed,
        Phase::Finished => false,
    }
}

/// Whether `order` is an order in which the entries may be archived, where the event ends the
/// list of a directory: by name.
pub open spec fn is_order(s: State, e: Event, order: Seq<FileView>) -> bool {
    s.phase is Names && e is Missing ==> is_sorted_list_of(order, s.listed)
}

/// What is done next at the start or at the end of an archive.
#[verifier::opaque]
pub open spec fn step_source(s: State, e: Event) -> (State, ActionView) {
    match (s.phase, e) {
        (Phase::SourceFs, Event::Fs { magic, flags }) => if virtual_magics().contains(magic) {
            give_up(s, ErrorView::Plain(FailureView::VirtualFileSystem))
        } else {
            (
                State { fs_magic: magic, fs_feature_flags: flags, ..s }.waiting(Phase::SourceStat),
                Action::StatSource,
            )
        },
        (Phase::SourceFs, Event::Failed(message)) => give_up(s, outside(message@)),
        (Phase::SourceStat, Event::Stat(stat)) => (
            s.waiting(Phase::SourceMetadata(stat)),
            Action::ReadMetadata { stat, flags: s.flags(), fs_magic: s.fs_magic },
        ),
        (Phase::SourceStat, Event::Failed(message)) => give_up(s, outside(message@)),
        (Phase::SourceMetadata(stat), Event::Facts(facts)) => match metadata_of(
            stat,
            s.flags(),
            s.fs_magic,
            facts,
        ) {
            Ok(metadata) => (
                State {
                    device_set: match s.device_set {
                        Some(set) => Some(set.insert(stat.st_dev)),
                        None => None,
                    },
                    ..s
                }.waiting(Phase::SourceEncoder(stat)),
                Action::Encode(EncodeOp::NewArchive(metadata)),
            ),
            Err(error) => give_up(s, ErrorView::Plain(FailureView::SourceMetadata(error.text()))),
        },
        (Phase::SourceEncoder(stat), Event::Done) => start_contents(s, stat),
        (Phase::SourceEncoder(_), Event::Failed(message)) => give_up(s, outside(message@)),
        (Phase::FinishArchive, Event::Done) => (
            s.waiting(Phase::Finished),
            Action::Finished(Ok(())),
        ),
        (Phase::FinishArchive, Event::Failed(message)) => give_up(s, outside(message@)),
        _ => (s, Action::Finished(Ok(()))),
    }
}

/// What is done next before the entries of a directory are archived.
#[verifier::opaque]
pub open spec fn step_list(s: State, e: Event) -> (State, ActionView) {
    match (s.phase, e) {
        (Phase::Excludes, Event::Missing) => start_listing(s),
        (Phase::Excludes, Event::Lines { lines, error }) => start_listing(
            with_excludes(
                s,
                byte_strings(lines@),
                match error {
                    Some(message) => Some(message@),
                    None => None,
                },
            ),
        ),
        (Phase::Excludes, Event::Failed(message)) => fail_contents(s, outside(message@)),
        (Phase::EntryStat { name, path }, Event::Stat(stat)) => list_entry(s, name, path, stat),
        (Phase::EntryStat { .. }, Event::Missing) => (s.waiting(Phase::Names), Action::NextName),
        (Phase::EntryStat { path, .. }, Event::Failed(message)) => fail_contents(
            s,
            ErrorView::Plain(FailureView::Stat(path, message@)),
        ),
        _ => (s, Action::Finished(Ok(()))),
    }
}

/// What is done next while the names of a directory are read.
#[verifier::opaque]
pub open spec fn step_names(s: State, e: Event, order: Seq<FileView>) -> (State, ActionView) {
    match (s.phase, e) {
        (Phase::Names, Event::Name { name, invalid }) => if is_skipped_name(name@, s.is_root()) {
            (s, Action::NextName)
        } else {
            match invalid {
                Some(message) => fail_contents(s, outside(message@)),
                None => (
                    s.waiting(Phase::EntryStat { name: name@, path: joined(s.path, name@) }),
                    Action::StatEntry { name: name@, path: joined(s.path, name@) },
                ),
            }
        },
        (Phase::Names, Event::Missing) => start_entries(s, order),
        (Phase::Names, Event::Failed(message)) => fail_contents(s, outside(message@)),
        _ => (s, Action::Finished(Ok(()))),
    }
}

/// What is done next with an entry of a directory.
#[verifier::opaque]
pub open spec fn step_entry(s: State, e: Event) -> (State, ActionView) {
    match (s.phase, e) {
        (Phase::Callback(entry), Event::Done) => (
            State { path: entry.path, ..s }.waiting(Phase::Open(entry)),
            Action::Open { name: entry.name, path_only: opens_path_only(entry.stat.st_mode) },
        ),
        (Phase::Callback(_), Event::Failed(message)) => fail_contents(s, outside(message@)),
        (Phase::Open(entry), Event::Done) => (
            s.waiting(Phase::Metadata(entry)),
            Action::ReadMetadata { stat: entry.stat, flags: s.flags(), fs_magic: s.fs_magic },
        ),
        (Phase::Open(_), Event::Missing) => next_entry(s),
        (Phase::Open(_), Event::Failed(message)) => fail_entry(s, outside(message@)),
        (Phase::Metadata(entry), Event::Facts(facts)) => match metadata_of(
            entry.stat,
            s.flags(),
            s.fs_magic,
            facts,
        ) {
            Ok(metadata) => add_entry(s, entry, metadata),
            Err(error) => fail_entry(s, outside(error.text())),
        },
        (Phase::Catalog { next, link, in_entry }, Event::Done) => encode(s, next, link, in_entry),
        (Phase::Catalog { in_entry, .. }, Event::Failed(message)) => if in_entry {
            fail_entry(s, outside(message@))
        } else {
            fail_contents(s, outside(message@))
        },
        (Phase::Encode { .. }, Event::Done) => next_entry(s),
        (Phase::Encode { in_entry }, Event::Failed(message)) => if in_entry {
            fail_entry(s, outside(message@))
        } else {
            fail_contents(s, outside(message@))
        },
        (Phase::File { link }, Event::Offset(offset)) => next_entry(
            match link {
                Some(id) => State {
                    hardlinks: s.hardlinks.insert(id, LinkView { path: s.path, offset }),
                    ..s
                },
                None => s,
            },
        ),
        (Phase::File { .. }, Event::Failed(message)) => fail_entry(s, outside(message@)),
        _ => (s, Action::Finished(Ok(()))),
    }
}

/// What is done next at the start or at the end of a directory.
#[verifier::opaque]
pub open spec fn step_directory(s: State, e: Event) -> (State, ActionView) {
    match (s.phase, e) {
        (Phase::DirCatalog { name, metadata, st_dev }, Event::Done) => start_directory(
            s,
            name,
            metadata,
            st_dev,
        ),
        (Phase::DirCatalog { .. }, Event::Failed(message)) => fail_entry(s, outside(message@)),
        (Phase::DirEncode { st_dev }, Event::Done) => if s.current_st_dev != st_dev {
            (s.waiting(Phase::DirFs { st_dev }), Action::DetectFs)
        } else {
            begin_contents(s)
        },
        (Phase::DirEncode { .. }, Event::Failed(message)) => end_directory(
            s,
            Some(outside(message@)),
        ),
        (Phase::DirFs { st_dev }, Event::Fs { magic, flags }) => enter_device(s, st_dev, magic, flags),
        (Phase::DirFs { .. }, Event::Failed(message)) => end_directory(s, Some(outside(message@))),
        (Phase::Finish(error), Event::Done) => end_directory(s, error),
        (Phase::Finish(_), Event::Failed(message)) => end_directory(s, Some(outside(message@))),
        (Phase::EndDirectory(error), Event::Done) => directory_done(s, error),
        (Phase::EndDirectory(_), Event::Failed(message)) => directory_done(
            s,
            Some(outside(message@)),
        ),
        _ => (s, Action::Finished(Ok(()))),
    }
}

/// What an archiver does next. Events that it does not wait for change nothing.
pub open spec fn step(s: State, e: Event, order: Seq<FileView>) -> (State, ActionView) {
    match s.phase {
        Phase::SourceFs
        | Phase::SourceStat
        | Phase::SourceMetadata(_)
        | Phase::SourceEncoder(_)
        | Phase::FinishArchive => step_source(s, e),
        Phase::Excludes | Phase::EntryStat { .. } => step_list(s, e),
        Phase::Names => step_names(s, e, order),
        Phase::Callback(_)
        | Phase::Open(_)
        | Phase::Metadata(_)
        | Phase::Catalog { .. }
        | Phase::Encode { .. }
        | Phase::File { .. } => step_entry(s, e),
        Phase::DirCatalog { .. }
        | Phase::DirEncode { .. }
        | Phase::DirFs { .. }
        | Phase::Finish(_)
        | Phase::EndDirectory(_) => step_directory(s, e),
        Phase::Finished => (s, Action::Finished(Ok(()))),
    }
}

/// Whether something that goes into the archive is a file, not a directory or an end.
pub open spec fn is_file_op(op: EncodeView) -> bool {
    !(op is NewArchive || op is Directory || op is Finish)
}

/// Whether the open directories fit to what the archiver waits for.
pub open spec fn is_well_formed(s: State) -> bool {
    match s.phase {
        Phase::SourceFs | Phase::SourceStat | Phase::SourceMetadata(_) | Phase::SourceEncoder(_) => {
            s.stack.len() == 0
        },
        Phase::Excludes
        | Phase::Names
        | Phase::EntryStat { .. }
        | Phase::Callback(_)
        | Phase::Open(_)
        | Phase::Metadata(_)
        | Phase::Encode { .. }
        | Phase::File { .. }
        | Phase::DirCatalog { .. } => s.stack.len() >= 1,
        Phase::Catalog { next, .. } => s.stack.len() >= 1 && is_file_op(next),
        Phase::DirEncode { .. } | Phase::DirFs { .. } | Phase::Finish(_) | Phase::EndDirectory(_) => {
            s.stack.len() >= 2
        },
        Phase::FinishArchive => s.stack.len() == 1,
        Phase::Finished => true,
    }
}

/// What is done next with the entries does not depend on what was waited for.
pub proof fn lemma_phase_is_past(s: State, phase: Phase<Seq<u8>, FileView, MetadataView, ErrorView>)
    ensures
        next_entry(s.waiting(phase)) == next_entry(s),
        forall|entry: FileView, metadata: MetadataView| #[trigger]
            add_entry(s.waiting(phase), entry, metadata) == add_entry(s, entry, metadata),
{
    reveal(next_entry);
    assert forall|entry: FileView, metadata: MetadataView| #[trigger]
        add_entry(s.waiting(phase), entry, metadata) == add_entry(s, entry, metadata) by {
        reveal(add_entry);
    }
}

/// The next entry needs one open directory, and leaves them as they are.
proof fn lemma_next_entry(s: State)
    requires
        s.stack.len() >= 1,
    ensures
        is_well_formed(next_entry(s).0),
        next_entry(s).0.stack.len() == s.stack.len(),
{
    reveal(next_entry);
}

/// An entry opens at most one directory.
proof fn lemma_add_entry(s: State, entry: FileView, metadata: MetadataView)
    requires
        s.stack.len() >= 1,
    ensures
        is_well_formed(add_entry(s, entry, metadata).0),
{
    reveal(add_entry);
    lemma_next_entry(s);
}

/// In every step the open directories go on to fit to what the archiver waits for.
pub proof fn law_stays_well_formed(s: State, e: Event, order: Seq<FileView>)
    requires
        is_well_formed(s),
        accepts(s, e),
    ensures
        is_well_formed(step(s, e, order).0),
{
    match s.phase {
        Phase::Names => {
            reveal(step_names);
            let frame = FrameView { saved_path: s.path, queue: order, ..s.stack.last() };
            lemma_next_entry(State { path: Seq::empty(), listed: Seq::empty(), ..s }.with_top(frame));
        },
        Phase::Metadata(entry) => {
            reveal(step_entry);
            if let Event::Facts(facts) = e {
                if let Ok(metadata) = metadata_of(entry.stat, s.flags(), s.fs_magic, facts) {
                    lemma_add_entry(s, entry, metadata);
                }
            }
        },
        Phase::File { link } => {
            reveal(step_entry);
            if let Event::Offset(offset) = e {
                if let Some(id) = link {
                    lemma_next_entry(
                        State {
                            hardlinks: s.hardlinks.insert(id, LinkView { path: s.path, offset }),
                            ..s
                        },
                    );
                }
            }
            lemma_next_entry(s);
        },
        Phase::Callback(_) | Phase::Open(_) | Phase::Catalog { .. } | Phase::Encode { .. } => {
            reveal(step_entry);
            lemma_next_entry(s);
        },
        Phase::DirCatalog { .. }
        | Phase::DirEncode { .. }
        | Phase::DirFs { .. }
        | Phase::Finish(_)
        | Phase::EndDirectory(_) => {
            reveal(step_directory);
            if s.stack.len() >= 2 {
                lemma_next_entry(State { stack: s.stack.drop_last(), ..s });
            }
        },
        Phase::Excludes | Phase::EntryStat { .. } => {
            reveal(step_list);
        },
        _ => {
            reveal(step_source);
        },
    }
}

} // verus!
