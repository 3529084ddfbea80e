//! The archiver: it decides, step by step, what goes into an archive.
//!
//! The archiver does no input and no output. Its caller starts it with [`create_archive`], performs
//! the action it gets, and hands what came of it to [`Archiver::step`], which gives the next action,
//! until the action is [`Action::Finished`].

use std::collections::HashSet;

use vstd::prelude::*;
use vstd::string::*;

use crate::acl::Acl;
use crate::bytes::{bytes_copy, bytes_eq};
use crate::error::{wrap_err, Error, Failure};
use crate::excludes::{
    byte_strings, can_read_line, generate_pxar_excludes_cli, is_line_readable, read_pxar_excludes,
    texts,
};
use crate::files::{file_views, is_sorted_list_of, join, FileList, FileListEntry, FileView};
use crate::flags::Flags;
use crate::fs_magic::is_virtual_file_system;
use crate::hardlinks::HardLinks;
use crate::metadata::{get_metadata, Metadata, Stat};
use crate::mode::{FileStat, IFBLK, IFCHR, IFDIR, IFIFO, IFLNK, IFMT, IFREG, IFSOCK};
use crate::patterns::{
    glob_text, glob_unclosed, is_excluded, lemma_no_class, MatchEntry, MatchType, PatternList,
    CLASS_OPEN, PATH_NAME,
};
use crate::plan;
use crate::plan::{
    accepts, cli_metadata, is_order, is_skipped_name, is_well_formed, lost_and_found, FrameView,
    State,
};
use crate::steps::{Action, CatalogOp, EncodeOp, Event, Phase, Warning};

verus! {

/// What is kept of a directory while its contents are archived.
#[derive(Debug)]
struct Frame {
    outer_magic: i64,
    outer_flags: Flags,
    outer_dev: u64,
    saved_counter: usize,
    saved_patterns: usize,
    saved_path: Vec<u8>,
    queue: FileList,
}

impl View for Frame {
    type V = FrameView;

    closed spec fn view(&self) -> FrameView {
        FrameView {
            outer_magic: self.outer_magic,
            outer_flags: self.outer_flags,
            outer_dev: self.outer_dev,
            saved_counter: self.saved_counter,
            saved_patterns: self.saved_patterns as nat,
            saved_path: self.saved_path@,
            queue: self.queue@,
        }
    }
}

/// An archive in the making.
#[derive(Debug)]
pub struct Archiver {
    feature_flags: Flags,
    fs_feature_flags: Flags,
    fs_magic: i64,
    patterns: PatternList,
    has_catalog: bool,
    skip_lost_and_found: bool,
    path: Vec<u8>,
    entry_counter: usize,
    entry_limit: usize,
    current_st_dev: u64,
    device_set: Option<HashSet<u64>>,
    hardlinks: HardLinks,
    listed: Vec<FileListEntry>,
    stack: Vec<Frame>,
    warnings: Vec<Warning<Vec<u8>, String>>,
    phase: Phase<Vec<u8>, FileListEntry, Metadata, Error>,
}

/// The action of an [`Archiver`].
pub type ArchiveAction = Action<Vec<u8>, Metadata, Error>;

/// The values of a set of devices.
pub open spec fn device_view(set: Option<HashSet<u64>>) -> Option<Set<u64>> {
    match set {
        Some(set) => Some(set@),
        None => None,
    }
}

/// The values of a list of warnings.
pub open spec fn warning_views(warnings: Seq<Warning<Vec<u8>, String>>) -> Seq<Warning<Seq<u8>, Seq<char>>> {
    warnings.map_values(|warning: Warning<Vec<u8>, String>| warning@)
}

impl View for Archiver {
    type V = State;

    closed spec fn view(&self) -> State {
        State {
            feature_flags: self.feature_flags,
            fs_feature_flags: self.fs_feature_flags,
            fs_magic: self.fs_magic,
            patterns: self.patterns@,
            has_catalog: self.has_catalog,
            skip_lost_and_found: self.skip_lost_and_found,
            path: self.path@,
            entry_counter: self.entry_counter,
            entry_limit: self.entry_limit,
            current_st_dev: self.current_st_dev,
            device_set: device_view(self.device_set),
            hardlinks: self.hardlinks@,
            listed: file_views(self.listed@),
            stack: self.stack@.map_values(|frame: Frame| frame@),
            warnings: warning_views(self.warnings@),
            phase: self.phase@,
        }
    }
}

/// The metadata of the file that records the exclude patterns.
fn make_cli_metadata() -> (r: Metadata)
    ensures
        r@ == cli_metadata(),
{
    let r = Metadata {
        stat: Stat { mode: 0x8180, flags: 0, uid: 0, gid: 0, mtime_secs: 0, mtime_nanos: 0 },
        xattrs: Vec::new(),
        acl: Acl::empty(),
        fcaps: None,
        quota_project_id: None,
    };
    assert(r@ =~= cli_metadata());
    r
}

/// Decides whether a name of a directory is passed over.
fn skips_name(name: &[u8], is_root: bool) -> (r: bool)
    ensures
        r == is_skipped_name(name@, is_root),
{
    bytes_eq(name, ".".as_bytes()) || bytes_eq(name, "..".as_bytes()) || (is_root && bytes_eq(
        name,
        ".pxarexclude-cli".as_bytes(),
    )) || bytes_eq(name, ".pxarexclude".as_bytes())
}

/// Decides whether only the place of a file is opened.
fn is_path_only(mode: u32) -> (r: bool)
    ensures
        r == plan::opens_path_only(mode),
{
    mode & IFMT != IFREG && mode & IFMT != IFDIR
}

/// An error from outside.
fn outside(message: String) -> (r: Error)
    ensures
        r@ == plan::outside(message@),
{
    Error::Plain(Failure::Outside(message))
}

/// The pattern that leaves `lost+found` out can be read.
proof fn lemma_lost_and_found()
    ensures
        !glob_unclosed(glob_text(lost_and_found())),
{
    broadcast use is_ascii_spec_bytes;

    reveal_strlit("lost+found");
    assert("lost+found".is_ascii());
    let line = lost_and_found();
    assert(line.len() == 10);
    assert(line[0] == 'l' as u8 && line[1] == 'o' as u8 && line[2] == 's' as u8 && line[3] == 't' as u8);
    assert(line[4] == '+' as u8 && line[5] == 'f' as u8 && line[6] == 'o' as u8 && line[7] == 'u' as u8);
    assert(line[8] == 'n' as u8 && line[9] == 'd' as u8);
    assert(glob_text(line) == line);
    assert(forall|k: int| 0 <= k < line.len() ==> line[k] != CLASS_OPEN);
    lemma_no_class(line, 0);
}

/// Starts an archive of a source directory.
///
/// `patterns` leave files out, `feature_flags` are the features asked for, `device_set` are the
/// devices whose directories are entered besides that of the source directory (`None` for all),
/// `entry_limit` is the largest number of entries in the lists of the open directories, and
/// `has_catalog` says whether there is a catalog to write.
pub fn create_archive(
    patterns: Vec<MatchEntry>,
    feature_flags: Flags,
    device_set: Option<HashSet<u64>>,
    skip_lost_and_found: bool,
    entry_limit: usize,
    has_catalog: bool,
) -> (r: (Archiver, ArchiveAction))
    ensures
        r.0@ == plan::initial(
            patterns@.map_values(|entry: MatchEntry| entry@),
            feature_flags,
            device_view(device_set),
            skip_lost_and_found,
            entry_limit,
            has_catalog,
        ),
        r.0.wf(),
        r.1@ == Action::<Seq<u8>, crate::metadata::MetadataView, crate::error::ErrorView>::DetectFs,
{
    let archiver = Archiver {
        feature_flags,
        fs_feature_flags: feature_flags,
        fs_magic: 0,
        patterns: PatternList::new(patterns),
        has_catalog,
        skip_lost_and_found,
        path: Vec::new(),
        entry_counter: 0,
        entry_limit,
        current_st_dev: 0,
        device_set,
        hardlinks: HardLinks::new(),
        listed: Vec::new(),
        stack: Vec::new(),
        warnings: Vec::new(),
        phase: Phase::SourceFs,
    };
    proof {
        assert(file_views(archiver.listed@) =~= Seq::<FileView>::empty());
        assert(archiver@.stack =~= Seq::<FrameView>::empty());
        assert(warning_views(archiver.warnings@) =~= Seq::<Warning<Seq<u8>, Seq<char>>>::empty());
    }
    (archiver, Action::DetectFs)
}

impl Archiver {
    /// Whether the open directories fit to what the archiver waits for.
    pub open spec fn wf(self) -> bool {
        is_well_formed(self@)
    }

    // -----------------------------------------------------------------------------------------
    // The open directories
    // -----------------------------------------------------------------------------------------

    /// Opens a directory.
    fn push_frame(&mut self, frame: Frame)
        ensures
            final(self)@ == (State { stack: old(self)@.stack.push(frame@), ..old(self)@ }),
    {
        self.stack.push(frame);
        assert(self@.stack =~= old(self)@.stack.push(frame@));
    }

    /// Takes the innermost directory.
    fn pop_frame(&mut self) -> (r: Frame)
        requires
            old(self)@.stack.len() > 0,
        ensures
            r@ == old(self)@.stack.last(),
            final(self)@ == (State { stack: old(self)@.stack.drop_last(), ..old(self)@ }),
    {
        let r = self.stack.pop().unwrap();
        assert(self@.stack =~= old(self)@.stack.drop_last());
        r
    }

    /// Decides whether the contents of the source directory are being archived.
    fn is_root(&self) -> (r: bool)
        ensures
            r == self@.is_root(),
    {
        self.stack.len() == 1
    }

    /// The features that count.
    pub fn flags(&self) -> (r: Flags)
        ensures
            r == self@.flags(),
    {
        self.feature_flags.and(self.fs_feature_flags)
    }

    // -----------------------------------------------------------------------------------------
    // The end of directories
    // -----------------------------------------------------------------------------------------

    /// Gives the archive up.
    fn give_up(&mut self, error: Error) -> (r: ArchiveAction)
        ensures
            (final(self)@, r@) == plan::give_up(old(self)@, error@),
    {
        self.phase = Phase::Finished;
        Action::Finished(Err(error))
    }

    /// Ends the innermost directory.
    fn leave(&mut self, error: Option<Error>) -> (r: ArchiveAction)
        requires
            old(self)@.stack.len() > 0,
        ensures
            (final(self)@, r@) == plan::leave(old(self)@, crate::steps::error_view(error)),
    {
        let frame = self.pop_frame();
        self.fs_magic = frame.outer_magic;
        self.fs_feature_flags = frame.outer_flags;
        self.current_st_dev = frame.outer_dev;
        self.push_frame(frame);
        assert(self@.stack =~= old(self)@.stack);
        self.phase = Phase::Finish(error);
        Action::Encode(EncodeOp::Finish)
    }

    /// Gives the contents of the innermost directory up.
    fn fail_contents(&mut self, error: Error) -> (r: ArchiveAction)
        requires
            old(self)@.stack.len() > 0,
        ensures
            (final(self)@, r@) == plan::fail_contents(old(self)@, error@),
    {
        if self.is_root() {
            self.give_up(error)
        } else {
            self.leave(Some(error))
        }
    }

    /// Gives an entry of the innermost directory up.
    fn fail_entry(&mut self, error: Error) -> (r: ArchiveAction)
        requires
            old(self)@.stack.len() > 0,
        ensures
            (final(self)@, r@) == plan::fail_entry(old(self)@, error@),
    {
        let error = wrap_err(error, self.path.as_slice());
        self.fail_contents(error)
    }

    /// Ends the contents of the innermost directory.
    fn end_contents(&mut self) -> (r: ArchiveAction)
        requires
            old(self)@.stack.len() > 0,
        ensures
            (final(self)@, r@) == plan::end_contents(old(self)@),
    {
        let frame = self.pop_frame();
        self.path = bytes_copy(frame.saved_path.as_slice());
        self.entry_counter = frame.saved_counter;
        self.patterns.truncate(frame.saved_patterns);
        self.push_frame(frame);
        assert(self@.stack =~= old(self)@.stack);
        if self.is_root() {
            self.phase = Phase::FinishArchive;
            Action::Encode(EncodeOp::Finish)
        } else {
            self.leave(None)
        }
    }

    // -----------------------------------------------------------------------------------------
    // Entries
    // -----------------------------------------------------------------------------------------

    /// Writes to the archive.
    fn encode(&mut self, op: EncodeOp<Vec<u8>, Metadata>, link: Option<(u64, u64)>, in_entry: bool) -> (r:
        ArchiveAction)
        ensures
            (final(self)@, r@) == plan::encode(old(self)@, op@, link, in_entry),
    {
        self.phase = match op {
            EncodeOp::File { .. } => Phase::File { link },
            _ => Phase::Encode { in_entry },
        };
        Action::Encode(op)
    }

    /// Writes to the catalog, if there is one, and then to the archive.
    fn record(
        &mut self,
        catalog: CatalogOp<Vec<u8>>,
        op: EncodeOp<Vec<u8>, Metadata>,
        link: Option<(u64, u64)>,
        in_entry: bool,
    ) -> (r: ArchiveAction)
        ensures
            (final(self)@, r@) == plan::record(old(self)@, catalog@, op@, link, in_entry),
    {
        if self.has_catalog {
            self.phase = Phase::Catalog { next: op, link, in_entry };
            Action::Catalog(catalog)
        } else {
            self.encode(op, link, in_entry)
        }
    }

    /// Writes the file that records the exclude patterns.
    fn encode_pxarexclude_cli(&mut self) -> (r: ArchiveAction)
        ensures
            (final(self)@, r@) == plan::encode_pxarexclude_cli(old(self)@),
    {
        let content = generate_pxar_excludes_cli(&self.patterns);
        let size: u64 = content.len() as u64;
        let catalog = CatalogOp::AddFile {
            name: bytes_copy(".pxarexclude-cli".as_bytes()),
            size,
            mtime: 0,
        };
        let op = EncodeOp::Content {
            name: bytes_copy(".pxarexclude-cli".as_bytes()),
            metadata: make_cli_metadata(),
            content,
        };
        self.record(catalog, op, None, false)
    }

    /// Goes on with the next entry of the innermost directory.
    fn next_entry(&mut self) -> (r: ArchiveAction)
        requires
            old(self)@.stack.len() > 0,
        ensures
            (final(self)@, r@) == plan::next_entry(old(self)@),
    {
        proof {
            reveal(plan::next_entry);
        }
        let is_root = self.is_root();
        let mut frame = self.pop_frame();
        let next = frame.queue.pop_first();
        self.push_frame(frame);
        match next {
            None => {
                assert(self@.stack =~= old(self)@.stack);
                self.end_contents()
            },
            Some(entry) => {
                if is_root && bytes_eq(entry.name.as_slice(), ".pxarexclude-cli".as_bytes()) {
                    self.encode_pxarexclude_cli()
                } else {
                    let path = bytes_copy(entry.path.as_slice());
                    self.phase = Phase::Callback(entry);
                    Action::Callback(path)
                }
            },
        }
    }

    /// Starts a directory.
    fn start_directory(&mut self, name: Vec<u8>, metadata: Metadata, st_dev: u64) -> (r: ArchiveAction)
        ensures
            (final(self)@, r@) == plan::start_directory(old(self)@, name@, metadata@, st_dev),
    {
        let frame = Frame {
            outer_magic: self.fs_magic,
            outer_flags: self.fs_feature_flags,
            outer_dev: self.current_st_dev,
            saved_counter: self.entry_counter,
            saved_patterns: self.patterns.len(),
            saved_path: bytes_copy(self.path.as_slice()),
            queue: FileList::empty(),
        };
        self.push_frame(frame);
        self.phase = Phase::DirEncode { st_dev };
        Action::Encode(EncodeOp::Directory { name, metadata })
    }

    /// Decides whether the patterns leave a file out.
    fn excludes(&self, path: &[u8], mode: u32) -> (r: bool)
        ensures
            r == is_excluded(self@.patterns, path@, mode),
    {
        match self.patterns.matches(path, mode) {
            Some(MatchType::Exclude) => true,
            _ => false,
        }
    }

    /// Archives a regular file, or another name of one.
    fn add_regular_file(&mut self, name: Vec<u8>, stat: FileStat, metadata: Metadata) -> (r: ArchiveAction)
        ensures
            (final(self)@, r@) == match plan::known_link(old(self)@, stat) {
                Some(link) => plan::record(
                    old(self)@,
                    CatalogOp::AddHardlink(name@),
                    EncodeOp::Hardlink { name: name@, target: link.path, offset: link.offset },
                    None,
                    true,
                ),
                None => plan::record(
                    old(self)@,
                    CatalogOp::AddFile {
                        name: name@,
                        size: stat.st_size as u64,
                        mtime: stat.st_mtime as u64,
                    },
                    EncodeOp::File { name: name@, metadata: metadata@, size: stat.st_size as u64 },
                    if stat.st_nlink > 1 {
                        Some((stat.st_dev, stat.st_ino))
                    } else {
                        None
                    },
                    true,
                ),
            },
    {
        if stat.st_nlink > 1 {
            if let Some((target, offset)) = self.hardlinks.get(stat.st_dev, stat.st_ino) {
                let copy = bytes_copy(name.as_slice());
                return self.record(
                    CatalogOp::AddHardlink(copy),
                    EncodeOp::Hardlink { name, target, offset },
                    None,
                    true,
                );
            }
        }
        let size: u64 = stat.st_size as u64;
        let copy = bytes_copy(name.as_slice());
        let link = if stat.st_nlink > 1 {
            Some((stat.st_dev, stat.st_ino))
        } else {
            None
        };
        self.record(
            CatalogOp::AddFile { name: copy, size, mtime: stat.st_mtime as u64 },
            EncodeOp::File { name, metadata, size },
            link,
            true,
        )
    }

    /// Archives an entry with its metadata.
    fn add_entry(&mut self, entry: FileListEntry, metadata: Metadata) -> (r: ArchiveAction)
        requires
            old(self)@.stack.len() > 0,
        ensures
            (final(self)@, r@) == plan::add_entry(old(self)@, entry@, metadata@),
    {
        proof {
            reveal(plan::add_entry);
        }
        let stat = entry.stat;
        if self.excludes(self.path.as_slice(), stat.st_mode) {
            return self.next_entry();
        }
        let name = entry.name;
        let file_type: u64 = metadata.file_type();
        let copy = bytes_copy(name.as_slice());
        if file_type == IFREG as u64 {
            self.add_regular_file(name, stat, metadata)
        } else if file_type == IFDIR as u64 {
            if self.has_catalog {
                self.phase = Phase::DirCatalog { name, metadata, st_dev: stat.st_dev };
                Action::Catalog(CatalogOp::StartDirectory(copy))
            } else {
                self.start_directory(name, metadata, stat.st_dev)
            }
        } else if file_type == IFSOCK as u64 {
            self.record(CatalogOp::AddSocket(copy), EncodeOp::Socket { name, metadata }, None, true)
        } else if file_type == IFIFO as u64 {
            self.record(CatalogOp::AddFifo(copy), EncodeOp::Fifo { name, metadata }, None, true)
        } else if file_type == IFLNK as u64 {
            self.record(CatalogOp::AddSymlink(copy), EncodeOp::Symlink { name, metadata }, None, true)
        } else if file_type == IFBLK as u64 {
            self.record(
                CatalogOp::AddBlockDevice(copy),
                EncodeOp::Device { name, metadata, rdev: stat.st_rdev },
                None,
                true,
            )
        } else if file_type == IFCHR as u64 {
            self.record(
                CatalogOp::AddCharDevice(copy),
                EncodeOp::Device { name, metadata, rdev: stat.st_rdev },
                None,
                true,
            )
        } else {
            self.fail_entry(Error::Plain(Failure::UnknownFileType(file_type)))
        }
    }

    /// Goes on after the innermost directory.
    fn directory_done(&mut self, error: Option<Error>) -> (r: ArchiveAction)
        requires
            old(self)@.stack.len() > 1,
        ensures
            (final(self)@, r@) == plan::directory_done(old(self)@, crate::steps::error_view(error)),
    {
        let _frame = self.pop_frame();
        match error {
            Some(error) => self.fail_entry(error),
            None => self.next_entry(),
        }
    }

    /// Ends the innermost directory in the catalog, if there is one.
    fn end_directory(&mut self, error: Option<Error>) -> (r: ArchiveAction)
        requires
            old(self)@.stack.len() > 1,
        ensures
            (final(self)@, r@) == plan::end_directory(old(self)@, crate::steps::error_view(error)),
    {
        if self.has_catalog {
            self.phase = Phase::EndDirectory(error);
            Action::Catalog(CatalogOp::EndDirectory)
        } else {
            self.directory_done(error)
        }
    }

    // -----------------------------------------------------------------------------------------
    // The contents of a directory
    // -----------------------------------------------------------------------------------------

    /// Begins the contents of the innermost directory.
    fn begin_contents(&mut self) -> (r: ArchiveAction)
        requires
            old(self)@.stack.len() > 0,
        ensures
            (final(self)@, r@) == plan::begin_contents(old(self)@),
    {
        let mut frame = self.pop_frame();
        frame.saved_counter = self.entry_counter;
        frame.saved_patterns = self.patterns.len();
        self.push_frame(frame);
        self.phase = Phase::Excludes;
        Action::ReadExcludes
    }

    /// Starts to list the innermost directory.
    fn start_listing(&mut self) -> (r: ArchiveAction)
        ensures
            (final(self)@, r@) == plan::start_listing(old(self)@),
    {
        let mut listed: Vec<FileListEntry> = Vec::new();
        if self.is_root() && self.patterns.len() > 0 {
            listed.push(
                FileListEntry {
                    name: bytes_copy(".pxarexclude-cli".as_bytes()),
                    path: Vec::new(),
                    stat: FileStat::zeroed(),
                },
            );
            assert(listed@[0]@.path =~= Seq::<u8>::empty());
            assert(file_views(listed@) =~= seq![plan::cli_entry()]);
        } else {
            assert(file_views(listed@) =~= Seq::<FileView>::empty());
        }
        self.listed = listed;
        self.phase = Phase::Names;
        Action::NextName
    }

    /// Keeps a warning.
    fn warn(&mut self, warning: Warning<Vec<u8>, String>)
        ensures
            final(self)@ == (State { warnings: old(self)@.warnings.push(warning@), ..old(self)@ }),
    {
        self.warnings.push(warning);
        assert(self@.warnings =~= old(self)@.warnings.push(warning@));
    }

    /// Takes the patterns of the innermost directory in.
    fn read_excludes(&mut self, lines: Vec<Vec<u8>>, error: Option<String>)
        requires
            forall|i: int| 0 <= i < lines@.len() ==> is_line_readable(old(self)@.path, #[trigger] lines@[i]@),
        ensures
            final(self)@ == plan::with_excludes(
                old(self)@,
                byte_strings(lines@),
                match error {
                    Some(message) => Some(message@),
                    None => None,
                },
            ),
    {
        let complete = error.is_none();
        let messages = read_pxar_excludes(self.path.as_slice(), &lines, complete, &mut self.patterns);
        let ghost bad = texts(messages@).map_values(
            |message: Seq<char>| Warning::<Seq<u8>, Seq<char>>::BadPattern(old(self)@.path, message),
        );
        let ghost start = self@;
        let mut i: usize = 0;
        assert(start.warnings + bad.take(0) =~= start.warnings);
        while i < messages.len()
            invariant
                i <= messages@.len(),
                bad.len() == messages@.len(),
                bad == texts(messages@).map_values(
                    |message: Seq<char>| Warning::<Seq<u8>, Seq<char>>::BadPattern(start.path, message),
                ),
                self@ == (State { warnings: start.warnings + bad.take(i as int), ..start }),
            decreases messages@.len() - i,
        {
            let path = bytes_copy(self.path.as_slice());
            self.warn(Warning::BadPattern(path, messages[i].clone()));
            assert(start.warnings + bad.take(i + 1) =~= (start.warnings + bad.take(i as int)).push(bad[i as int]));
            i += 1;
        }
        assert(bad.take(i as int) =~= bad);
        if let Some(message) = error {
            let path = bytes_copy(self.path.as_slice());
            self.warn(Warning::UnreadableExcludes(path, message));
        }
    }

    /// Lists a name of the innermost directory.
    fn list_name(&mut self, name: Vec<u8>, invalid: Option<String>) -> (r: ArchiveAction)
        requires
            old(self)@.stack.len() > 0,
        ensures
            (final(self)@, r@) == if is_skipped_name(name@, old(self)@.is_root()) {
                (old(self)@.waiting(Phase::Names), plan::ActionView::NextName)
            } else {
                match invalid {
                    Some(message) => plan::fail_contents(old(self)@, plan::outside(message@)),
                    None => {
                        let path = crate::files::joined(old(self)@.path, name@);
                        (
                            old(self)@.waiting(Phase::EntryStat { name: name@, path }),
                            plan::ActionView::StatEntry { name: name@, path },
                        )
                    },
                }
            },
    {
        if skips_name(name.as_slice(), self.is_root()) {
            self.phase = Phase::Names;
            return Action::NextName;
        }
        match invalid {
            Some(message) => self.fail_contents(outside(message)),
            None => {
                let path = join(self.path.as_slice(), name.as_slice());
                let action = Action::StatEntry {
                    name: bytes_copy(name.as_slice()),
                    path: bytes_copy(path.as_slice()),
                };
                self.phase = Phase::EntryStat { name, path };
                action
            },
        }
    }

    /// Starts to archive the entries of the innermost directory, in the order of their names.
    fn start_entries(&mut self) -> (r: ArchiveAction)
        requires
            old(self)@.stack.len() > 0,
        ensures
            exists|order: Seq<FileView>| #[trigger]
                is_sorted_list_of(order, old(self)@.listed) && (final(self)@, r@) == plan::start_entries(
                    old(self)@,
                    order,
                ),
    {
        let mut listed: Vec<FileListEntry> = Vec::new();
        core::mem::swap(&mut listed, &mut self.listed);
        let mut path: Vec<u8> = Vec::new();
        core::mem::swap(&mut path, &mut self.path);
        let queue = FileList::sorted(listed);
        let ghost order = queue@;
        proof {
            assert(file_views(self.listed@) =~= Seq::<FileView>::empty());
            assert(self.path@ =~= Seq::<u8>::empty());
            assert(is_sorted_list_of(order, old(self)@.listed));
        }
        let mut frame = self.pop_frame();
        frame.saved_path = path;
        frame.queue = queue;
        self.push_frame(frame);
        self.next_entry()
    }

    /// Lists an entry of the innermost directory that was examined.
    fn list_entry(&mut self, name: Vec<u8>, path: Vec<u8>, stat: FileStat) -> (r: ArchiveAction)
        requires
            old(self)@.stack.len() > 0,
        ensures
            (final(self)@, r@) == plan::list_entry(old(self)@, name@, path@, stat),
    {
        if self.excludes(path.as_slice(), stat.st_mode) {
            self.phase = Phase::Names;
            Action::NextName
        } else if self.entry_counter >= self.entry_limit {
            self.fail_contents(Error::Plain(Failure::EntryLimit(self.entry_limit)))
        } else {
            self.entry_counter += 1;
            self.listed.push(FileListEntry { name, path, stat });
            self.phase = Phase::Names;
            assert(self@.listed =~= old(self)@.listed.push(FileView { name: name@, path: path@, stat }));
            Action::NextName
        }
    }

    /// Goes on with a directory on another device.
    fn enter_device(&mut self, st_dev: u64, magic: i64, flags: Flags) -> (r: ArchiveAction)
        requires
            old(self)@.stack.len() > 0,
        ensures
            (final(self)@, r@) == plan::enter_device(old(self)@, st_dev, magic, flags),
    {
        broadcast use vstd::std_specs::hash::group_hash_axioms;

        self.fs_magic = magic;
        self.fs_feature_flags = flags;
        self.current_st_dev = st_dev;
        let skip = is_virtual_file_system(magic) || match &self.device_set {
            Some(set) => !set.contains(&st_dev),
            None => false,
        };
        if skip {
            self.leave(None)
        } else {
            self.begin_contents()
        }
    }

    // -----------------------------------------------------------------------------------------
    // The start of an archive
    // -----------------------------------------------------------------------------------------

    /// Goes on after the file system of the source directory was found.
    fn check_source(&mut self, magic: i64, flags: Flags) -> (r: ArchiveAction)
        ensures
            (final(self)@, r@) == if crate::fs_magic::virtual_magics().contains(magic) {
                plan::give_up(
                    old(self)@,
                    crate::error::ErrorView::Plain(crate::error::FailureView::VirtualFileSystem),
                )
            } else {
                (
                    (State { fs_magic: magic, fs_feature_flags: flags, ..old(self)@ }).waiting(
                        Phase::SourceStat,
                    ),
                    plan::ActionView::StatSource,
                )
            },
    {
        if is_virtual_file_system(magic) {
            return self.give_up(Error::Plain(Failure::VirtualFileSystem));
        }
        self.fs_magic = magic;
        self.fs_feature_flags = flags;
        self.phase = Phase::SourceStat;
        Action::StatSource
    }

    /// Counts the device of the source directory among those that are entered.
    fn add_source_device(&mut self, st_dev: u64)
        ensures
            final(self)@ == (State {
                device_set: match old(self)@.device_set {
                    Some(set) => Some(set.insert(st_dev)),
                    None => None,
                },
                ..old(self)@
            }),
    {
        broadcast use vstd::std_specs::hash::group_hash_axioms;

        let mut devices: Option<HashSet<u64>> = None;
        core::mem::swap(&mut devices, &mut self.device_set);
        if let Some(mut set) = devices {
            set.insert(st_dev);
            self.device_set = Some(set);
        }
    }

    /// Starts the contents of the source directory.
    fn start_contents(&mut self, stat: FileStat) -> (r: ArchiveAction)
        requires
            old(self)@.stack.len() == 0,
        ensures
            (final(self)@, r@) == plan::start_contents(old(self)@, stat),
    {
        if self.skip_lost_and_found {
            proof {
                lemma_lost_and_found();
            }
            match MatchEntry::parse_pattern("lost+found".as_bytes(), PATH_NAME, MatchType::Exclude) {
                Ok(entry) => self.patterns.push(entry),
                Err(message) => return self.give_up(Error::Plain(Failure::Pattern(message))),
            }
        }
        self.current_st_dev = stat.st_dev;
        let frame = Frame {
            outer_magic: self.fs_magic,
            outer_flags: self.fs_feature_flags,
            outer_dev: stat.st_dev,
            saved_counter: self.entry_counter,
            saved_patterns: self.patterns.len(),
            saved_path: bytes_copy(self.path.as_slice()),
            queue: FileList::empty(),
        };
        self.push_frame(frame);
        assert(self@.stack =~= seq![frame@]);
        self.begin_contents()
    }

    // -----------------------------------------------------------------------------------------
    // Steps
    // -----------------------------------------------------------------------------------------

    /// Decides whether an event is one that the archiver waits for.
    pub fn expects(&self, event: &Event) -> (r: bool)
        ensures
            r == accepts(self@, *event),
    {
        match &self.phase {
            Phase::SourceFs | Phase::DirFs { .. } => matches!(event, Event::Fs { .. } | Event::Failed(_)),
            Phase::SourceStat => matches!(event, Event::Stat(_) | Event::Failed(_)),
            Phase::SourceMetadata(_) | Phase::Metadata(_) => matches!(event, Event::Facts(_)),
            Phase::Excludes => match event {
                Event::Lines { lines, .. } => self.can_read_lines(lines),
                Event::Missing | Event::Failed(_) => true,
                _ => false,
            },
            Phase::Names => matches!(event, Event::Name { .. } | Event::Missing | Event::Failed(_)),
            Phase::EntryStat { .. } => matches!(event, Event::Stat(_) | Event::Missing | Event::Failed(_)),
            Phase::Open(_) => matches!(event, Event::Done | Event::Missing | Event::Failed(_)),
            Phase::File { .. } => matches!(event, Event::Offset(_) | Event::Failed(_)),
            Phase::SourceEncoder(_)
            | Phase::Callback(_)
            | Phase::Catalog { .. }
            | Phase::Encode { .. }
            | Phase::DirCatalog { .. }
            | Phase::DirEncode { .. }
            | Phase::Finish(_)
            | Phase::EndDirectory(_)
            | Phase::FinishArchive => matches!(event, Event::Done | Event::Failed(_)),
            Phase::Finished => false,
        }
    }

    /// Decides whether all lines of the `.pxarexclude` of the innermost directory can be read.
    fn can_read_lines(&self, lines: &Vec<Vec<u8>>) -> (r: bool)
        ensures
            r == (forall|i: int| 0 <= i < lines@.len() ==> is_line_readable(self@.path, #[trigger] lines@[i]@)),
    {
        let mut i: usize = 0;
        while i < lines.len()
            invariant
                i <= lines@.len(),
                forall|k: int| 0 <= k < i ==> is_line_readable(self@.path, #[trigger] lines@[k]@),
            decreases lines@.len() - i,
        {
            if !can_read_line(self.path.as_slice(), lines[i].as_slice()) {
                return false;
            }
            i += 1;
        }
        true
    }

    /// A step at the start or at the end of an archive.
    fn step_source(&mut self, phase: Phase<Vec<u8>, FileListEntry, Metadata, Error>, event: Event) -> (r:
        ArchiveAction)
        requires
            is_well_formed(old(self)@.waiting(phase@)),
            accepts(old(self)@.waiting(phase@), event),
            phase is SourceFs || phase is SourceStat || phase is SourceMetadata || phase is SourceEncoder || phase is FinishArchive,
        ensures
            (final(self)@, r@) == plan::step_source(old(self)@.waiting(phase@), event),
    {
        proof {
            reveal(plan::step_source);
        }
        match phase {
            Phase::SourceFs => match event {
                Event::Fs { magic, flags } => self.check_source(magic, flags),
                Event::Failed(message) => self.give_up(outside(message)),
                _ => Action::Finished(Ok(())),
            },
            Phase::SourceStat => match event {
                Event::Stat(stat) => {
                    self.phase = Phase::SourceMetadata(stat);
                    Action::ReadMetadata { stat, flags: self.flags(), fs_magic: self.fs_magic }
                },
                Event::Failed(message) => self.give_up(outside(message)),
                _ => Action::Finished(Ok(())),
            },
            Phase::SourceMetadata(stat) => match event {
                Event::Facts(facts) => match get_metadata(&stat, self.flags(), self.fs_magic, &facts) {
                    Ok(metadata) => {
                        self.add_source_device(stat.st_dev);
                        self.phase = Phase::SourceEncoder(stat);
                        Action::Encode(EncodeOp::NewArchive(metadata))
                    },
                    Err(error) => self.give_up(Error::Plain(Failure::SourceMetadata(error.to_string()))),
                },
                _ => Action::Finished(Ok(())),
            },
            Phase::SourceEncoder(stat) => match event {
                Event::Done => self.start_contents(stat),
                Event::Failed(message) => self.give_up(outside(message)),
                _ => Action::Finished(Ok(())),
            },
            Phase::FinishArchive => match event {
                Event::Done => {
                    self.phase = Phase::Finished;
                    Action::Finished(Ok(()))
                },
                Event::Failed(message) => self.give_up(outside(message)),
                _ => Action::Finished(Ok(())),
            },
            _ => Action::Finished(Ok(())),
        }
    }

    /// A step before the entries of a directory are archived.
    fn step_list(&mut self, phase: Phase<Vec<u8>, FileListEntry, Metadata, Error>, event: Event) -> (r:
        ArchiveAction)
        requires
            is_well_formed(old(self)@.waiting(phase@)),
            accepts(old(self)@.waiting(phase@), event),
            phase is Excludes || phase is EntryStat,
        ensures
            (final(self)@, r@) == plan::step_list(old(self)@.waiting(phase@), event),
    {
        proof {
            reveal(plan::step_list);
        }
        match phase {
            Phase::Excludes => match event {
                Event::Missing => self.start_listing(),
                Event::Lines { lines, error } => {
                    self.read_excludes(lines, error);
                    self.start_listing()
                },
                Event::Failed(message) => self.fail_contents(outside(message)),
                _ => Action::Finished(Ok(())),
            },
            Phase::EntryStat { name, path } => match event {
                Event::Stat(stat) => self.list_entry(name, path, stat),
                Event::Missing => {
                    self.phase = Phase::Names;
                    Action::NextName
                },
                Event::Failed(message) => self.fail_contents(Error::Plain(Failure::Stat(path, message))),
                _ => Action::Finished(Ok(())),
            },
            _ => Action::Finished(Ok(())),
        }
    }

    /// A step with an entry of a directory.
    fn step_entry(&mut self, phase: Phase<Vec<u8>, FileListEntry, Metadata, Error>, event: Event) -> (r:
        ArchiveAction)
        requires
            is_well_formed(old(self)@.waiting(phase@)),
            accepts(old(self)@.waiting(phase@), event),
            phase is Callback || phase is Open || phase is Metadata || phase is Catalog || phase is Encode || phase is File,
        ensures
            (final(self)@, r@) == plan::step_entry(old(self)@.waiting(phase@), event),
    {
        proof {
            reveal(plan::step_entry);
            plan::lemma_phase_is_past(self@, phase@);
        }
        match phase {
            Phase::Callback(entry) => match event {
                Event::Done => {
                    self.path = bytes_copy(entry.path.as_slice());
                    let name = bytes_copy(entry.name.as_slice());
                    let path_only = is_path_only(entry.stat.st_mode);
                    self.phase = Phase::Open(entry);
                    Action::Open { name, path_only }
                },
                Event::Failed(message) => self.fail_contents(outside(message)),
                _ => Action::Finished(Ok(())),
            },
            Phase::Open(entry) => match event {
                Event::Done => {
                    let stat = entry.stat;
                    self.phase = Phase::Metadata(entry);
                    Action::ReadMetadata { stat, flags: self.flags(), fs_magic: self.fs_magic }
                },
                Event::Missing => self.next_entry(),
                Event::Failed(message) => self.fail_entry(outside(message)),
                _ => Action::Finished(Ok(())),
            },
            Phase::Metadata(entry) => match event {
                Event::Facts(facts) => match get_metadata(&entry.stat, self.flags(), self.fs_magic, &facts) {
                    Ok(metadata) => self.add_entry(entry, metadata),
                    Err(error) => self.fail_entry(outside(error.to_string())),
                },
                _ => Action::Finished(Ok(())),
            },
            Phase::Catalog { next, link, in_entry } => match event {
                Event::Done => self.encode(next, link, in_entry),
                Event::Failed(message) => self.fail_write(message, in_entry),
                _ => Action::Finished(Ok(())),
            },
            Phase::Encode { in_entry } => match event {
                Event::Done => self.next_entry(),
                Event::Failed(message) => self.fail_write(message, in_entry),
                _ => Action::Finished(Ok(())),
            },
            Phase::File { link } => match event {
                Event::Offset(offset) => {
                    if let Some((st_dev, st_ino)) = link {
                        let path = bytes_copy(self.path.as_slice());
                        self.hardlinks.insert(st_dev, st_ino, path, offset);
                    }
                    proof {
                        plan::lemma_phase_is_past(self@, phase@);
                    }
                    self.next_entry()
                },
                Event::Failed(message) => self.fail_entry(outside(message)),
                _ => Action::Finished(Ok(())),
            },
            _ => Action::Finished(Ok(())),
        }
    }

    /// A step at the start or at the end of a directory.
    fn step_directory(&mut self, phase: Phase<Vec<u8>, FileListEntry, Metadata, Error>, event: Event) -> (r:
        ArchiveAction)
        requires
            is_well_formed(old(self)@.waiting(phase@)),
            accepts(old(self)@.waiting(phase@), event),
            phase is DirCatalog || phase is DirEncode || phase is DirFs || phase is Finish || phase is EndDirectory,
        ensures
            (final(self)@, r@) == plan::step_directory(old(self)@.waiting(phase@), event),
    {
        proof {
            reveal(plan::step_directory);
            plan::lemma_phase_is_past(State { stack: self@.stack.drop_last(), ..self@ }, phase@);
        }
        match phase {
            Phase::DirCatalog { name, metadata, st_dev } => match event {
                Event::Done => self.start_directory(name, metadata, st_dev),
                Event::Failed(message) => self.fail_entry(outside(message)),
                _ => Action::Finished(Ok(())),
            },
            Phase::DirEncode { st_dev } => match event {
                Event::Done => {
                    if self.current_st_dev != st_dev {
                        self.phase = Phase::DirFs { st_dev };
                        Action::DetectFs
                    } else {
                        self.begin_contents()
                    }
                },
                Event::Failed(message) => self.end_directory(Some(outside(message))),
                _ => Action::Finished(Ok(())),
            },
            Phase::DirFs { st_dev } => match event {
                Event::Fs { magic, flags } => self.enter_device(st_dev, magic, flags),
                Event::Failed(message) => self.end_directory(Some(outside(message))),
                _ => Action::Finished(Ok(())),
            },
            Phase::Finish(error) => match event {
                Event::Done => self.end_directory(error),
                Event::Failed(message) => self.end_directory(Some(outside(message))),
                _ => Action::Finished(Ok(())),
            },
            Phase::EndDirectory(error) => match event {
                Event::Done => self.directory_done(error),
                Event::Failed(message) => self.directory_done(Some(outside(message))),
                _ => Action::Finished(Ok(())),
            },
            _ => Action::Finished(Ok(())),
        }
    }

    /// A step while the names of a directory are read.
    fn step_names(&mut self, event: Event) -> (r: ArchiveAction)
        requires
            old(self)@.stack.len() > 0,
            accepts(old(self)@.waiting(Phase::Names), event),
        ensures
            exists|order: Seq<FileView>| #[trigger]
                is_order(old(self)@.waiting(Phase::Names), event, order) && (final(self)@, r@)
                    == plan::step_names(old(self)@.waiting(Phase::Names), event, order),
    {
        proof {
            reveal(plan::step_names);
            reveal(plan::next_entry);
        }
        let ghost start = self@;
        let ghost named = self@.waiting(Phase::Names);
        match event {
            Event::Name { name, invalid } => {
                assert(is_order(named, event, Seq::empty()));
                self.list_name(name, invalid)
            },
            Event::Failed(message) => {
                assert(is_order(named, event, Seq::empty()));
                self.fail_contents(outside(message))
            },
            _ => {
                let r = self.start_entries();
                proof {
                    let order = choose|order: Seq<FileView>| #[trigger]
                        is_sorted_list_of(order, start.listed) && (self@, r@) == plan::start_entries(
                            start,
                            order,
                        );
                    assert(is_order(named, event, order));
                }
                r
            },
        }
    }

    /// Takes what came of the last action, and gives the next one.
    pub fn step(&mut self, event: Event) -> (r: ArchiveAction)
        requires
            old(self).wf(),
            accepts(old(self)@, event),
        ensures
            final(self).wf(),
            exists|order: Seq<FileView>| #[trigger]
                is_order(old(self)@, event, order) && (final(self)@, r@) == plan::step(
                    old(self)@,
                    event,
                    order,
                ),
    {
        let mut phase = Phase::Finished;
        core::mem::swap(&mut phase, &mut self.phase);
        let ghost start = self@;
        proof {
            assert(start.waiting(phase@) == old(self)@);
            assert(!(phase is Names) ==> is_order(old(self)@, event, Seq::empty()));
            plan::law_stays_well_formed(old(self)@, event, Seq::empty());
        }
        match phase {
            Phase::SourceFs
            | Phase::SourceStat
            | Phase::SourceMetadata(_)
            | Phase::SourceEncoder(_)
            | Phase::FinishArchive => self.step_source(phase, event),
            Phase::Excludes | Phase::EntryStat { .. } => self.step_list(phase, event),
            Phase::Names => {
                let r = self.step_names(event);
                proof {
                    let order = choose|order: Seq<FileView>| #[trigger]
                        is_order(old(self)@, event, order) && (self@, r@) == plan::step_names(
                            old(self)@,
                            event,
                            order,
                        );
                    plan::law_stays_well_formed(old(self)@, event, order);
                }
                r
            },
            Phase::Callback(_)
            | Phase::Open(_)
            | Phase::Metadata(_)
            | Phase::Catalog { .. }
            | Phase::Encode { .. }
            | Phase::File { .. } => self.step_entry(phase, event),
            Phase::DirCatalog { .. }
            | Phase::DirEncode { .. }
            | Phase::DirFs { .. }
            | Phase::Finish(_)
            | Phase::EndDirectory(_) => self.step_directory(phase, event),
            Phase::Finished => Action::Finished(Ok(())),
        }
    }

    /// Gives up after a write to the catalog or the archive failed.
    fn fail_write(&mut self, message: String, in_entry: bool) -> (r: ArchiveAction)
        requires
            old(self)@.stack.len() > 0,
        ensures
            (final(self)@, r@) == if in_entry {
                plan::fail_entry(old(self)@, plan::outside(message@))
            } else {
                plan::fail_contents(old(self)@, plan::outside(message@))
            },
    {
        if in_entry {
            self.fail_entry(outside(message))
        } else {
            self.fail_contents(outside(message))
        }
    }

    /// The path of the current file.
    pub fn path(&self) -> (r: &[u8])
        ensures
            r@ == self@.path,
    {
        self.path.as_slice()
    }

    /// Takes the warnings that came up since they were last taken.
    pub fn take_warnings(&mut self) -> (r: Vec<Warning<Vec<u8>, String>>)
        ensures
            warning_views(r@) == old(self)@.warnings,
            final(self)@ == (State { warnings: Seq::empty(), ..old(self)@ }),
            old(self).wf() ==> final(self).wf(),
    {
        let mut warnings: Vec<Warning<Vec<u8>, String>> = Vec::new();
        core::mem::swap(&mut warnings, &mut self.warnings);
        assert(self@.warnings =~= Seq::empty());
        warnings
    }
}

/// The devices that are entered are those that are given, and all if none are given; to give an empty
/// set is not to give none.
pub proof fn law_devices_are_those_given(devices: HashSet<u64>)
    ensures
        device_view(None::<HashSet<u64>>) is None,
        device_view(Some(devices)) == Some(devices@),
{
}

} // verus!
