//! What the archive of a directory tree holds, and that an archiver writes just that.
//!
//! The archiver is told of files one report at a time. Here a whole tree is given at once, in which
//! nothing changes and nothing fails, and the archive is described by what is in the tree.

use vstd::prelude::*;

use crate::error::ErrorView;
use crate::excludes::{byte_strings, exclude_entries, exclude_errors, excludes_cli, is_line_readable};
use crate::files::{has_distinct_names, is_sorted_list_of, joined, law_order_is_unique, lemma_order_exists, FileView};
use crate::flags::Flags;
use crate::fs_magic::virtual_magics;
use crate::hardlinks::LinkView;
use crate::metadata::{metadata_of, type_bits, FileFacts, MetadataResult, MetadataView};
use crate::mode::{FileStat, IFBLK, IFCHR, IFDIR, IFIFO, IFLNK, IFREG, IFSOCK};
use crate::patterns::{glob_error, glob_text, is_excluded, parsed_entry, EntryView, MatchType, PATH_NAME};
use crate::plan::{
    accepts, add_entry, begin_contents, cli_entry, cli_metadata, cli_name, encode, end_contents, initial, is_skipped_name,
    leave, lost_and_found, lemma_phase_is_past, next_entry, record, start_directory,
    step, step_directory, step_entry, step_list, step_names, step_source, ActionView, EncodeView,
    FrameView, State,
};
use crate::steps::{Action, CatalogOp, EncodeOp, Event, Phase, Warning};

verus! {

/// What is known of a file of a tree.
pub struct Info {
    /// What `stat(2)` reports.
    pub stat: FileStat,
    /// What its metadata is put together from.
    pub facts: FileFacts,
    /// The file system, for a directory.
    pub magic: i64,
    /// The features of the file system, for a directory.
    pub flags: Flags,
    /// The lines of the `.pxarexclude`, for a directory that has one.
    pub lines: Option<Vec<Vec<u8>>>,
    /// The names, for a directory.
    pub names: Seq<Vec<u8>>,
    /// The place that the file gets in the archive, for a regular file.
    pub place: u64,
}

/// A tree: what is known of the file at each path.
pub struct Tree {
    /// What is known of the file at a path.
    pub at: spec_fn(Seq<u8>) -> Info,
}

/// What an archiver has learnt on its way.
pub struct Learnt {
    /// The files with more than one name that are in the archive.
    pub hardlinks: Map<(u64, u64), LinkView>,
    /// What was passed over.
    pub warnings: Seq<Warning<Seq<u8>, Seq<char>>>,
}

/// What was announced, and written to the catalog and to the archive; and what was learnt.
pub struct Archived {
    /// The announcements and writes.
    pub log: Seq<ActionView>,
    /// What was learnt.
    pub learnt: Learnt,
}

/// The surroundings of a directory.
pub struct Surroundings {
    /// The patterns that count.
    pub patterns: Seq<EntryView>,
    /// The device.
    pub dev: u64,
    /// The file system.
    pub magic: i64,
    /// The features of the file system.
    pub fs_flags: Flags,
    /// The features that are asked for.
    pub feature_flags: Flags,
    /// Whether it is the source directory.
    pub is_root: bool,
    /// Whether there is a catalog.
    pub has_catalog: bool,
    /// The devices whose directories are entered; `None` for all.
    pub device_set: Option<Set<u64>>,
}

// ---------------------------------------------------------------------------------------------
// The archive of a tree
// ---------------------------------------------------------------------------------------------

/// The entries of a directory that go into the archive, among its first `n` names.
pub open spec fn listed_upto(tree: Tree, around: Surroundings, path: Seq<u8>, n: nat) -> Seq<FileView>
    decreases n,
{
    if n == 0 {
        if around.is_root && around.patterns.len() > 0 {
            seq![cli_entry()]
        } else {
            Seq::empty()
        }
    } else {
        let before = listed_upto(tree, around, path, (n - 1) as nat);
        let name = (tree.at)(path).names[n - 1]@;
        let full = joined(path, name);
        let stat = (tree.at)(full).stat;
        if is_skipped_name(name, around.is_root) || is_excluded(around.patterns, full, stat.st_mode) {
            before
        } else {
            before.push(FileView { name, path: full, stat })
        }
    }
}

/// The entries of a directory that go into the archive.
pub open spec fn listing(tree: Tree, around: Surroundings, path: Seq<u8>) -> Seq<FileView> {
    listed_upto(tree, around, path, (tree.at)(path).names.len())
}

/// An order by name.
pub open spec fn in_name_order(entries: Seq<FileView>) -> Seq<FileView> {
    choose|order: Seq<FileView>| is_sorted_list_of(order, entries)
}

/// The surroundings of the entries of a directory: its own patterns count, too.
pub open spec fn surroundings_inside(tree: Tree, around: Surroundings, path: Seq<u8>) -> Surroundings {
    match (tree.at)(path).lines {
        Some(lines) => Surroundings {
            patterns: around.patterns + exclude_entries(path, byte_strings(lines@)),
            ..around
        },
        None => around,
    }
}

/// What is learnt from the patterns of a directory.
pub open spec fn learnt_inside(tree: Tree, path: Seq<u8>, learnt: Learnt) -> Learnt {
    match (tree.at)(path).lines {
        Some(lines) => Learnt {
            warnings: learnt.warnings + exclude_errors(path, byte_strings(lines@)).map_values(
                |message: Seq<char>| Warning::<Seq<u8>, Seq<char>>::BadPattern(path, message),
            ),
            ..learnt
        },
        None => learnt,
    }
}

/// What is written for one thing: to the catalog, if there is one, and to the archive.
pub open spec fn writes(around: Surroundings, catalog: CatalogOp<Seq<u8>>, op: EncodeView) -> Seq<ActionView> {
    if around.has_catalog {
        seq![ActionView::Catalog(catalog), ActionView::Encode(op)]
    } else {
        seq![ActionView::Encode(op)]
    }
}

/// What is written for the file that records the exclude patterns.
pub open spec fn cli_writes(around: Surroundings) -> Seq<ActionView> {
    let content = excludes_cli(around.patterns);
    writes(
        around,
        CatalogOp::AddFile { name: cli_name(), size: content.len() as u64, mtime: 0 },
        EncodeOp::Content { name: cli_name(), metadata: cli_metadata(), content },
    )
}

/// The metadata of a file in these surroundings, or why it cannot be kept.
pub open spec fn metadata_in(around: Surroundings, stat: FileStat, info: Info) -> MetadataResult {
    metadata_of(stat, around.feature_flags.spec_and(around.fs_flags), around.magic, info.facts)
}

/// The metadata of a file in these surroundings.
pub open spec fn kept_metadata(around: Surroundings, stat: FileStat, info: Info) -> MetadataView {
    metadata_in(around, stat, info)->Ok_0
}

/// The surroundings inside a directory. On another device another file system counts.
pub open spec fn surroundings_below(around: Surroundings, entry: FileView, info: Info) -> Surroundings {
    if entry.stat.st_dev == around.dev {
        Surroundings { is_root: false, ..around }
    } else {
        Surroundings {
            dev: entry.stat.st_dev,
            magic: info.magic,
            fs_flags: info.flags,
            is_root: false,
            ..around
        }
    }
}

/// What is written for a regular file: its contents, or another name of a file that is in the
/// archive.
pub open spec fn file_writes(around: Surroundings, entry: FileView, info: Info, learnt: Learnt) -> Archived {
    let name = entry.name;
    let stat = entry.stat;
    let id = (stat.st_dev, stat.st_ino);
    if stat.st_nlink > 1 && learnt.hardlinks.contains_key(id) {
        let link = learnt.hardlinks[id];
        Archived {
            log: writes(
                around,
                CatalogOp::AddHardlink(name),
                EncodeOp::Hardlink { name, target: link.path, offset: link.offset },
            ),
            learnt,
        }
    } else {
        Archived {
            log: writes(
                around,
                CatalogOp::AddFile { name, size: stat.st_size as u64, mtime: stat.st_mtime as u64 },
                EncodeOp::File {
                    name,
                    metadata: kept_metadata(around, stat, info),
                    size: stat.st_size as u64,
                },
            ),
            learnt: if stat.st_nlink > 1 {
                Learnt {
                    hardlinks: learnt.hardlinks.insert(
                        id,
                        LinkView { path: entry.path, offset: info.place },
                    ),
                    ..learnt
                }
            } else {
                learnt
            },
        }
    }
}

/// Whether the contents of a directory go into the archive: those of a directory on another device
/// only if it is asked for, and those of a virtual file system never.
pub open spec fn is_entered(around: Surroundings, entry: FileView, info: Info) -> bool {
    entry.stat.st_dev == around.dev || (!virtual_magics().contains(info.magic) && match around.device_set {
        Some(set) => set.contains(entry.stat.st_dev),
        None => true,
    })
}

/// What is announced and written for an entry of a directory. `depth` bounds the directories below.
pub open spec fn archived_entry(
    tree: Tree,
    around: Surroundings,
    entry: FileView,
    learnt: Learnt,
    depth: nat,
) -> Archived
    decreases depth, 0nat, 0nat,
{
    let name = entry.name;
    let info = (tree.at)(entry.path);
    let metadata = kept_metadata(around, entry.stat, info);
    let file_type = type_bits(metadata.stat.mode);
    let announced = seq![ActionView::Callback(entry.path)];
    if around.is_root && name == cli_name() {
        Archived { log: cli_writes(around), learnt }
    } else if is_excluded(around.patterns, entry.path, entry.stat.st_mode) {
        Archived { log: announced, learnt }
    } else if file_type == IFREG {
        let file = file_writes(around, entry, info, learnt);
        Archived { log: announced + file.log, learnt: file.learnt }
    } else if file_type == IFDIR {
        let inside = surroundings_below(around, entry, info);
        let contents = if is_entered(around, entry, info) && depth > 0 {
            archived_contents(tree, inside, entry.path, learnt, (depth - 1) as nat)
        } else {
            Archived { log: Seq::empty(), learnt }
        };
        let end = if around.has_catalog {
            seq![ActionView::Encode(EncodeOp::Finish), ActionView::Catalog(CatalogOp::EndDirectory)]
        } else {
            seq![ActionView::Encode(EncodeOp::Finish)]
        };
        Archived {
            log: announced + writes(
                around,
                CatalogOp::StartDirectory(name),
                EncodeOp::Directory { name, metadata },
            ) + contents.log + end,
            learnt: contents.learnt,
        }
    } else if file_type == IFSOCK {
        Archived {
            log: announced + writes(
                around,
                CatalogOp::AddSocket(name),
                EncodeOp::Socket { name, metadata },
            ),
            learnt,
        }
    } else if file_type == IFIFO {
        Archived {
            log: announced + writes(around, CatalogOp::AddFifo(name), EncodeOp::Fifo { name, metadata }),
            learnt,
        }
    } else if file_type == IFLNK {
        Archived {
            log: announced + writes(
                around,
                CatalogOp::AddSymlink(name),
                EncodeOp::Symlink { name, metadata },
            ),
            learnt,
        }
    } else if file_type == IFBLK {
        Archived {
            log: announced + writes(
                around,
                CatalogOp::AddBlockDevice(name),
                EncodeOp::Device { name, metadata, rdev: entry.stat.st_rdev },
            ),
            learnt,
        }
    } else {
        Archived {
            log: announced + writes(
                around,
                CatalogOp::AddCharDevice(name),
                EncodeOp::Device { name, metadata, rdev: entry.stat.st_rdev },
            ),
            learnt,
        }
    }
}

/// What is announced and written for entries of a directory, one after the other.
pub open spec fn archived_entries(
    tree: Tree,
    around: Surroundings,
    entries: Seq<FileView>,
    learnt: Learnt,
    depth: nat,
) -> Archived
    decreases depth, 1nat, entries.len(),
{
    if entries.len() == 0 {
        Archived { log: Seq::empty(), learnt }
    } else {
        let first = archived_entry(tree, around, entries[0], learnt, depth);
        let rest = archived_entries(tree, around, entries.drop_first(), first.learnt, depth);
        Archived { log: first.log + rest.log, learnt: rest.learnt }
    }
}

/// What is announced and written for the contents of a directory: for its entries, in the order of
/// their names.
pub open spec fn archived_contents(
    tree: Tree,
    around: Surroundings,
    path: Seq<u8>,
    learnt: Learnt,
    depth: nat,
) -> Archived
    decreases depth, 2nat, 0nat,
{
    let inside = surroundings_inside(tree, around, path);
    archived_entries(
        tree,
        inside,
        in_name_order(listing(tree, inside, path)),
        learnt_inside(tree, path, learnt),
        depth,
    )
}

// ---------------------------------------------------------------------------------------------
// Trees without trouble
// ---------------------------------------------------------------------------------------------

/// The number of entries that are counted among the first `n` names of a directory.
pub open spec fn counted(tree: Tree, around: Surroundings, path: Seq<u8>, n: nat) -> int {
    listed_upto(tree, around, path, n).len() - listed_upto(tree, around, path, 0).len()
}

/// Whether a mode is that of a known file type.
pub open spec fn is_known_type(mode: u64) -> bool {
    let file_type = type_bits(mode);
    file_type == IFREG || file_type == IFDIR || file_type == IFSOCK || file_type == IFIFO || file_type
        == IFLNK || file_type == IFBLK || file_type == IFCHR
}

/// Whether an entry of a directory can be archived, with `counter` entries in the open directories
/// and no more than `depth` directories below it.
pub open spec fn is_archivable_entry(
    tree: Tree,
    around: Surroundings,
    entry: FileView,
    counter: int,
    limit: int,
    depth: nat,
) -> bool
    decreases depth, 0nat,
{
    let info = (tree.at)(entry.path);
    let mode = kept_metadata(around, entry.stat, info).stat.mode;
    ||| around.is_root && entry.name == cli_name()
    ||| {
        &&& metadata_in(around, entry.stat, info) is Ok
        &&& is_excluded(around.patterns, entry.path, entry.stat.st_mode) || {
            &&& is_known_type(mode)
            &&& type_bits(mode) == IFDIR && is_entered(around, entry, info) ==> depth > 0
                && is_archivable(
                tree,
                surroundings_below(around, entry, info),
                entry.path,
                counter,
                limit,
                (depth - 1) as nat,
            )
        }
    }
}

/// Whether the contents of a directory can be archived: its patterns can be read, its entries are
/// of known types and their metadata can be kept, the number of entries in the open directories stays within the limit, and there
/// are no more than `depth` directories below it.
pub open spec fn is_archivable(
    tree: Tree,
    around: Surroundings,
    path: Seq<u8>,
    counter: int,
    limit: int,
    depth: nat,
) -> bool
    decreases depth, 1nat,
{
    let inside = surroundings_inside(tree, around, path);
    let all = listing(tree, inside, path);
    let inner = counter + counted(tree, inside, path, (tree.at)(path).names.len());
    &&& match (tree.at)(path).lines {
        Some(lines) => forall|i: int| 0 <= i < lines@.len() ==> is_line_readable(path, #[trigger] lines@[i]@),
        None => true,
    }
    &&& inner <= limit
    &&& forall|i: int|
        0 <= i < all.len() ==> is_archivable_entry(tree, inside, #[trigger] all[i], inner, limit, depth)
}

// ---------------------------------------------------------------------------------------------
// An archiver at work on a tree
// ---------------------------------------------------------------------------------------------

/// An archiver at work, and what it has announced and written.
pub struct Work {
    /// Where the archiver is.
    pub state: State,
    /// The action that is to be performed.
    pub action: ActionView,
    /// The number of names of the current directory that were read.
    pub index: int,
    /// What was announced and written, with the action that is to be performed.
    pub log: Seq<ActionView>,
}

/// What is logged of an action: announcements and writes, and the end.
pub open spec fn logged(action: ActionView) -> Seq<ActionView> {
    match action {
        Action::Callback(_) | Action::Catalog(_) | Action::Encode(_) | Action::Finished(_) => seq![action],
        _ => Seq::empty(),
    }
}

/// What comes of the action of an archiver, on a tree.
pub open spec fn answer(tree: Tree, work: Work) -> Event {
    let s = work.state;
    let here = (tree.at)(s.path);
    match s.phase {
        Phase::SourceFs | Phase::DirFs { .. } => Event::Fs { magic: here.magic, flags: here.flags },
        Phase::SourceStat => Event::Stat(here.stat),
        Phase::SourceMetadata(_) => Event::Facts(here.facts),
        Phase::Excludes => match here.lines {
            Some(lines) => Event::Lines { lines, error: None },
            None => Event::Missing,
        },
        Phase::Names => if 0 <= work.index < here.names.len() {
            Event::Name { name: here.names[work.index], invalid: None }
        } else {
            Event::Missing
        },
        Phase::EntryStat { path, .. } => Event::Stat((tree.at)(path).stat),
        Phase::Metadata(entry) => Event::Facts((tree.at)(entry.path).facts),
        Phase::File { .. } => Event::Offset(here.place),
        _ => Event::Done,
    }
}

/// The work after one step.
pub open spec fn next_work(tree: Tree, work: Work) -> Work {
    let s = work.state;
    work_at(
        step(s, answer(tree, work), in_name_order(s.listed)),
        match s.phase {
            Phase::Excludes => 0,
            Phase::Names => work.index + 1,
            _ => work.index,
        },
        work.log,
    )
}

/// The work with a state and an action, after what was logged before.
pub open spec fn work_at(next: (State, ActionView), index: int, log: Seq<ActionView>) -> Work {
    Work { state: next.0, action: next.1, index, log: log + logged(next.1) }
}

/// Whether `n` steps lead from one work to another, each with a report that the archiver waits for.
pub open spec fn runs_to(tree: Tree, from: Work, n: nat, to: Work) -> bool
    decreases n,
{
    if n == 0 {
        from == to
    } else {
        accepts(from.state, answer(tree, from)) && runs_to(tree, next_work(tree, from), (n - 1) as nat, to)
    }
}

/// Whether some steps lead from one work to another.
#[verifier::opaque]
pub open spec fn leads_to(tree: Tree, from: Work, to: Work) -> bool {
    exists|n: nat| #[trigger] runs_to(tree, from, n, to)
}

proof fn lemma_runs_on(tree: Tree, a: Work, n: nat, b: Work, m: nat, c: Work)
    requires
        runs_to(tree, a, n, b),
        runs_to(tree, b, m, c),
    ensures
        runs_to(tree, a, n + m, c),
    decreases n,
{
    if n > 0 {
        lemma_runs_on(tree, next_work(tree, a), (n - 1) as nat, b, m, c);
    }
}

proof fn lemma_leads_on(tree: Tree, a: Work, b: Work, c: Work)
    requires
        leads_to(tree, a, b),
        leads_to(tree, b, c),
    ensures
        leads_to(tree, a, c),
{
    reveal(leads_to);
    let n = choose|n: nat| #[trigger] runs_to(tree, a, n, b);
    let m = choose|m: nat| #[trigger] runs_to(tree, b, m, c);
    lemma_runs_on(tree, a, n, b, m, c);
}

proof fn lemma_leads_to_next(tree: Tree, a: Work)
    requires
        accepts(a.state, answer(tree, a)),
    ensures
        leads_to(tree, a, next_work(tree, a)),
{
    reveal(leads_to);
    reveal_with_fuel(runs_to, 2);
    assert(runs_to(tree, a, 1, next_work(tree, a)));
}

proof fn lemma_leads_to_itself(tree: Tree, a: Work)
    ensures
        leads_to(tree, a, a),
{
    reveal(leads_to);
    assert(runs_to(tree, a, 0, a));
}

// ---------------------------------------------------------------------------------------------
// The list of a directory
// ---------------------------------------------------------------------------------------------

/// Whether an archiver is in these surroundings.
pub open spec fn is_in(around: Surroundings, s: State) -> bool {
    &&& s.patterns == around.patterns
    &&& s.current_st_dev == around.dev
    &&& s.fs_magic == around.magic
    &&& s.fs_feature_flags == around.fs_flags
    &&& s.feature_flags == around.feature_flags
    &&& s.is_root() == around.is_root
    &&& s.has_catalog == around.has_catalog
    &&& s.device_set == around.device_set
    &&& s.stack.len() >= 1
}

proof fn lemma_counted_grows(tree: Tree, around: Surroundings, path: Seq<u8>, n: nat, m: nat)
    requires
        n <= m,
    ensures
        0 <= counted(tree, around, path, n) <= counted(tree, around, path, m),
    decreases m,
{
    if n < m {
        lemma_counted_grows(tree, around, path, n, (m - 1) as nat);
    } else if n > 0 {
        lemma_counted_grows(tree, around, path, (n - 1) as nat, (m - 1) as nat);
    }
}

/// The work after the first `n` names of a directory were read, in which `start` entries were
/// counted before.
spec fn listed_work(tree: Tree, around: Surroundings, work: Work, n: nat, start: int) -> Work {
    let path = work.state.path;
    Work {
        state: State {
            listed: listed_upto(tree, around, path, n),
            entry_counter: (start + counted(tree, around, path, n)) as usize,
            ..work.state
        },
        index: n as int,
        ..work
    }
}

proof fn lemma_name_is_skipped(tree: Tree, work: Work)
    requires
        work.state.phase is Names,
        work.state.stack.len() >= 1,
        work.action is NextName,
        0 <= work.index < (tree.at)(work.state.path).names.len(),
        is_skipped_name((tree.at)(work.state.path).names[work.index]@, work.state.is_root()),
    ensures
        leads_to(tree, work, Work { index: work.index + 1, ..work }),
{
    reveal(step_names);
    let next = next_work(tree, work);
    assert(next.log =~= work.log);
    lemma_leads_to_next(tree, work);
}

proof fn lemma_name_is_examined(tree: Tree, work: Work)
    requires
        work.state.phase is Names,
        work.state.stack.len() >= 1,
        work.action is NextName,
        0 <= work.index < (tree.at)(work.state.path).names.len(),
        !is_skipped_name((tree.at)(work.state.path).names[work.index]@, work.state.is_root()),
    ensures
        ({
            let name = (tree.at)(work.state.path).names[work.index]@;
            let path = joined(work.state.path, name);
            leads_to(
                tree,
                work,
                Work {
                    state: work.state.waiting(Phase::EntryStat { name, path }),
                    action: ActionView::StatEntry { name, path },
                    index: work.index + 1,
                    ..work
                },
            )
        }),
{
    reveal(step_names);
    let next = next_work(tree, work);
    assert(next.log =~= work.log);
    lemma_leads_to_next(tree, work);
}

proof fn lemma_entry_is_listed(tree: Tree, work: Work, name: Seq<u8>, path: Seq<u8>)
    requires
        work.state.phase == (Phase::<
            Seq<u8>,
            FileView,
            MetadataView,
            ErrorView,
        >::EntryStat { name, path }),
        work.state.stack.len() >= 1,
    ensures
        ({
            let s = work.state;
            let stat = (tree.at)(path).stat;
            let named = Work { state: s.waiting(Phase::Names), action: ActionView::NextName, ..work };
            if is_excluded(s.patterns, path, stat.st_mode) {
                leads_to(tree, work, named)
            } else {
                s.entry_counter + 1 <= s.entry_limit ==> leads_to(
                    tree,
                    work,
                    Work {
                        state: State {
                            entry_counter: (s.entry_counter + 1) as usize,
                            listed: s.listed.push(FileView { name, path, stat }),
                            ..named.state
                        },
                        ..named
                    },
                )
            }
        }),
{
    reveal(step_list);
    let next = next_work(tree, work);
    assert(next.log =~= work.log || !(next.action is NextName));
    lemma_leads_to_next(tree, work);
}

proof fn lemma_list_name(tree: Tree, around: Surroundings, work: Work, n: nat, start: int)
    requires
        is_in(around, work.state),
        work.state.phase is Names,
        work.action is NextName,
        n < (tree.at)(work.state.path).names.len(),
        0 <= start,
        start + counted(tree, around, work.state.path, n + 1) <= work.state.entry_limit,
    ensures
        leads_to(
            tree,
            listed_work(tree, around, work, n, start),
            listed_work(tree, around, work, n + 1, start),
        ),
{
    let path = work.state.path;
    let name = (tree.at)(path).names[n as int]@;
    let full = joined(path, name);
    let stat = (tree.at)(full).stat;
    let from = listed_work(tree, around, work, n, start);
    let to = listed_work(tree, around, work, n + 1, start);
    lemma_counted_grows(tree, around, path, n, n + 1);
    lemma_counted_grows(tree, around, path, 0, n);
    if is_skipped_name(name, around.is_root) {
        lemma_name_is_skipped(tree, from);
        assert(to.state == from.state);
    } else {
        lemma_name_is_examined(tree, from);
        let examined = Work {
            state: from.state.waiting(Phase::EntryStat { name, path: full }),
            action: ActionView::StatEntry { name, path: full },
            index: n as int + 1,
            ..from
        };
        lemma_entry_is_listed(tree, examined, name, full);
        assert(leads_to(tree, examined, to));
        lemma_leads_on(tree, from, examined, to);
    }
}

proof fn lemma_listing(tree: Tree, around: Surroundings, work: Work, n: nat, start: int)
    requires
        is_in(around, work.state),
        work.state.phase is Names,
        work.action is NextName,
        n <= (tree.at)(work.state.path).names.len(),
        0 <= start,
        start + counted(tree, around, work.state.path, (tree.at)(work.state.path).names.len())
            <= work.state.entry_limit,
    ensures
        leads_to(
            tree,
            listed_work(tree, around, work, n, start),
            listed_work(tree, around, work, (tree.at)(work.state.path).names.len(), start),
        ),
    decreases (tree.at)(work.state.path).names.len() - n,
{
    let path = work.state.path;
    let all = (tree.at)(path).names.len();
    let from = listed_work(tree, around, work, n, start);
    if n == all {
        lemma_leads_to_itself(tree, from);
    } else {
        lemma_counted_grows(tree, around, path, n + 1, all);
        lemma_list_name(tree, around, work, n, start);
        lemma_listing(tree, around, work, n + 1, start);
        lemma_leads_on(
            tree,
            from,
            listed_work(tree, around, work, n + 1, start),
            listed_work(tree, around, work, all, start),
        );
    }
}

// ---------------------------------------------------------------------------------------------
// What is written
// ---------------------------------------------------------------------------------------------

/// The state after something was written, in which a file with more than one name is known.
spec fn written(tree: Tree, s: State, op: EncodeView, link: Option<(u64, u64)>) -> State {
    match (op, link) {
        (EncodeOp::File { .. }, Some(id)) => State {
            hardlinks: s.hardlinks.insert(
                id,
                LinkView { path: s.path, offset: (tree.at)(s.path).place },
            ),
            ..s
        },
        _ => s,
    }
}

proof fn lemma_encoded(
    tree: Tree,
    s: State,
    op: EncodeView,
    link: Option<(u64, u64)>,
    in_entry: bool,
    index: int,
    log: Seq<ActionView>,
)
    requires
        s.stack.len() >= 1,
    ensures
        leads_to(
            tree,
            work_at(encode(s, op, link, in_entry), index, log),
            work_at(next_entry(written(tree, s, op, link)), index, log.push(ActionView::Encode(op))),
        ),
{
    reveal(step_entry);
    let work = work_at(encode(s, op, link, in_entry), index, log);
    let after = written(tree, s, op, link);
    let next = next_work(tree, work);
    lemma_leads_to_next(tree, work);
    lemma_phase_is_past(after, work.state.phase);
    assert(next.state == next_entry(after).0);
    assert(next.action == next_entry(after).1);
    assert(next.log =~= log.push(ActionView::Encode(op)) + logged(next.action));
}

proof fn lemma_recorded(
    tree: Tree,
    around: Surroundings,
    s: State,
    catalog: CatalogOp<Seq<u8>>,
    op: EncodeView,
    link: Option<(u64, u64)>,
    in_entry: bool,
    index: int,
    log: Seq<ActionView>,
)
    requires
        s.stack.len() >= 1,
        s.has_catalog == around.has_catalog,
    ensures
        leads_to(
            tree,
            work_at(record(s, catalog, op, link, in_entry), index, log),
            work_at(
                next_entry(written(tree, s, op, link)),
                index,
                log + writes(around, catalog, op),
            ),
        ),
{
    let work = work_at(record(s, catalog, op, link, in_entry), index, log);
    if s.has_catalog {
        reveal(step_entry);
        let next = next_work(tree, work);
        let more = log.push(ActionView::Catalog(catalog));
        lemma_leads_to_next(tree, work);
        let encoding = work_at(encode(s, op, link, in_entry), index, more);
        assert(next.state == encoding.state);
        assert(next.log =~= encoding.log);
        lemma_encoded(tree, s, op, link, in_entry, index, more);
        assert(more.push(ActionView::Encode(op)) =~= log + writes(around, catalog, op));
        lemma_leads_on(
            tree,
            work,
            encoding,
            work_at(
                next_entry(written(tree, s, op, link)),
                index,
                more.push(ActionView::Encode(op)),
            ),
        );
    } else {
        lemma_encoded(tree, s, op, link, in_entry, index, log);
        assert(log.push(ActionView::Encode(op)) =~= log + writes(around, catalog, op));
    }
}

// ---------------------------------------------------------------------------------------------
// Entries
// ---------------------------------------------------------------------------------------------

/// The state with the first entry of the innermost directory taken.
spec fn without_first(s: State) -> State {
    let frame = s.stack.last();
    s.with_top(FrameView { queue: frame.queue.drop_first(), ..frame })
}

/// What an archiver has learnt.
pub open spec fn learnt_by(s: State) -> Learnt {
    Learnt { hardlinks: s.hardlinks, warnings: s.warnings }
}

/// The state in which more was learnt.
spec fn knowing(s: State, learnt: Learnt) -> State {
    State { hardlinks: learnt.hardlinks, warnings: learnt.warnings, ..s }
}

proof fn lemma_entry_is_announced(
    tree: Tree,
    around: Surroundings,
    s: State,
    index: int,
    log: Seq<ActionView>,
)
    requires
        is_in(around, s),
        s.stack.last().queue.len() > 0,
        !(s.is_root() && s.stack.last().queue[0].name == cli_name()),
        ({
            let entry = s.stack.last().queue[0];
            metadata_in(around, entry.stat, (tree.at)(entry.path)) is Ok
        }),
    ensures
        ({
            let entry = s.stack.last().queue[0];
            leads_to(
                tree,
                work_at(next_entry(s), index, log),
                work_at(
                    add_entry(
                        State { path: entry.path, ..without_first(s) },
                        entry,
                        kept_metadata(around, entry.stat, (tree.at)(entry.path)),
                    ),
                    index,
                    log.push(ActionView::Callback(entry.path)),
                ),
            )
        }),
{
    reveal(next_entry);
    reveal(step_entry);
    let entry = s.stack.last().queue[0];
    let rest = without_first(s);
    let more = log.push(ActionView::Callback(entry.path));
    let announced = work_at(next_entry(s), index, log);
    assert(announced.state == rest.waiting(Phase::Callback(entry)));
    assert(announced.log =~= more);
    let opened = next_work(tree, announced);
    lemma_leads_to_next(tree, announced);
    assert(opened.state == State { path: entry.path, ..rest }.waiting(Phase::Open(entry)));
    assert(opened.log =~= more);
    let read = next_work(tree, opened);
    lemma_leads_to_next(tree, opened);
    assert(read.state == State { path: entry.path, ..rest }.waiting(Phase::Metadata(entry)));
    assert(read.log =~= more);
    let last = next_work(tree, read);
    lemma_leads_to_next(tree, read);
    lemma_phase_is_past(State { path: entry.path, ..rest }, Phase::Metadata(entry));
    lemma_leads_on(tree, announced, opened, read);
    lemma_leads_on(tree, announced, read, last);
}

/// The state after an entry of the innermost directory was archived.
spec fn after_entry(s: State, around: Surroundings, learnt: Learnt) -> State {
    let entry = s.stack.last().queue[0];
    let rest = knowing(without_first(s), learnt);
    if around.is_root && entry.name == cli_name() {
        rest
    } else {
        State { path: entry.path, ..rest }
    }
}

proof fn lemma_file_is_archived(
    tree: Tree,
    around: Surroundings,
    s: State,
    entry: FileView,
    index: int,
    log: Seq<ActionView>,
    depth: nat,
)
    requires
        is_in(around, s),
        s.path == entry.path,
        !(around.is_root && entry.name == cli_name()),
        is_excluded(around.patterns, entry.path, entry.stat.st_mode) || (is_known_type(
            kept_metadata(around, entry.stat, (tree.at)(entry.path)).stat.mode,
        ) && type_bits(kept_metadata(around, entry.stat, (tree.at)(entry.path)).stat.mode) != IFDIR),
    ensures
        ({
            let archived = archived_entry(tree, around, entry, learnt_by(s), depth);
            leads_to(
                tree,
                work_at(
                    add_entry(s, entry, kept_metadata(around, entry.stat, (tree.at)(entry.path))),
                    index,
                    log.push(ActionView::Callback(entry.path)),
                ),
                work_at(next_entry(knowing(s, archived.learnt)), index, log + archived.log),
            )
        }),
{
    reveal(add_entry);
    let info = (tree.at)(entry.path);
    let metadata = kept_metadata(around, entry.stat, info);
    let name = entry.name;
    let stat = entry.stat;
    let file_type = type_bits(metadata.stat.mode);
    let more = log.push(ActionView::Callback(entry.path));
    let archived = archived_entry(tree, around, entry, learnt_by(s), depth);
    let from = work_at(add_entry(s, entry, metadata), index, more);
    if is_excluded(around.patterns, entry.path, stat.st_mode) {
        assert(more =~= log + archived.log);
        assert(knowing(s, archived.learnt) == s);
        lemma_leads_to_itself(tree, from);
    } else {
        let (catalog, op, link) = if file_type == IFREG {
            if stat.st_nlink > 1 && s.hardlinks.contains_key((stat.st_dev, stat.st_ino)) {
                let known = s.hardlinks[(stat.st_dev, stat.st_ino)];
                (
                    CatalogOp::AddHardlink(name),
                    EncodeView::Hardlink { name, target: known.path, offset: known.offset },
                    None,
                )
            } else {
                (
                    CatalogOp::AddFile { name, size: stat.st_size as u64, mtime: stat.st_mtime as u64 },
                    EncodeView::File { name, metadata, size: stat.st_size as u64 },
                    if stat.st_nlink > 1 {
                        Some((stat.st_dev, stat.st_ino))
                    } else {
                        None
                    },
                )
            }
        } else if file_type == IFSOCK {
            (CatalogOp::AddSocket(name), EncodeView::Socket { name, metadata }, None)
        } else if file_type == IFIFO {
            (CatalogOp::AddFifo(name), EncodeView::Fifo { name, metadata }, None)
        } else if file_type == IFLNK {
            (CatalogOp::AddSymlink(name), EncodeView::Symlink { name, metadata }, None)
        } else if file_type == IFBLK {
            (
                CatalogOp::AddBlockDevice(name),
                EncodeView::Device { name, metadata, rdev: stat.st_rdev },
                None,
            )
        } else {
            (
                CatalogOp::AddCharDevice(name),
                EncodeView::Device { name, metadata, rdev: stat.st_rdev },
                None,
            )
        };
        assert(add_entry(s, entry, metadata) == record(s, catalog, op, link, true));
        lemma_recorded(tree, around, s, catalog, op, link, true, index, more);
        assert(more + writes(around, catalog, op) =~= log + archived.log);
        assert(written(tree, s, op, link) == knowing(s, archived.learnt));
    }
}

proof fn lemma_cli_is_archived(
    tree: Tree,
    around: Surroundings,
    s: State,
    index: int,
    log: Seq<ActionView>,
    depth: nat,
)
    requires
        is_in(around, s),
        s.stack.last().queue.len() > 0,
        around.is_root,
        s.stack.last().queue[0].name == cli_name(),
    ensures
        ({
            let entry = s.stack.last().queue[0];
            let archived = archived_entry(tree, around, entry, learnt_by(s), depth);
            leads_to(
                tree,
                work_at(next_entry(s), index, log),
                work_at(next_entry(after_entry(s, around, archived.learnt)), index, log + archived.log),
            )
        }),
{
    reveal(next_entry);
    let rest = without_first(s);
    let content = excludes_cli(around.patterns);
    let catalog = CatalogOp::AddFile { name: cli_name(), size: content.len() as u64, mtime: 0 };
    let op = EncodeView::Content { name: cli_name(), metadata: cli_metadata(), content };
    assert(next_entry(s) == record(rest, catalog, op, None, false));
    lemma_recorded(tree, around, rest, catalog, op, None, false, index, log);
    assert(after_entry(s, around, learnt_by(s)) == rest);
}

// ---------------------------------------------------------------------------------------------
// Directories
// ---------------------------------------------------------------------------------------------

/// What is done next when the contents of the innermost directory, which were begun in `s`, are
/// archived.
spec fn contents_end(s: State, learnt: Learnt) -> (State, ActionView) {
    let frame = FrameView {
        saved_counter: s.entry_counter,
        saved_patterns: s.patterns.len(),
        saved_path: s.path,
        queue: Seq::empty(),
        ..s.stack.last()
    };
    let ended = knowing(s, learnt).with_top(frame);
    if s.is_root() {
        (ended.waiting(Phase::FinishArchive), ActionView::Encode(EncodeOp::Finish))
    } else {
        leave(ended, None)
    }
}

/// The end of a directory that was entered from `s`: after its contents are archived, or left out.
proof fn lemma_directory_ends(
    tree: Tree,
    around: Surroundings,
    s: State,
    inner: State,
    index: int,
    log: Seq<ActionView>,
)
    requires
        s.stack.len() >= 1,
        s.has_catalog == around.has_catalog,
        inner.stack.len() == s.stack.len() + 1,
        inner.stack.drop_last() == s.stack,
        inner.phase == (Phase::<Seq<u8>, FileView, MetadataView, ErrorView>::Finish(None)),
        inner == (State {
            stack: inner.stack,
            phase: inner.phase,
            hardlinks: inner.hardlinks,
            warnings: inner.warnings,
            ..s
        }),
    ensures
        leads_to(
            tree,
            work_at((inner, ActionView::Encode(EncodeOp::Finish)), index, log),
            work_at(
                next_entry(knowing(s, learnt_by(inner))),
                index,
                log + if around.has_catalog {
                    seq![
                        ActionView::Encode(EncodeOp::Finish),
                        ActionView::Catalog(CatalogOp::EndDirectory),
                    ]
                } else {
                    seq![ActionView::Encode(EncodeOp::Finish)]
                },
            ),
        ),
{
    reveal(step_directory);
    let finish = ActionView::Encode(EncodeOp::Finish);
    let end = ActionView::Catalog(CatalogOp::EndDirectory);
    let from = work_at((inner, finish), index, log);
    let first = next_work(tree, from);
    lemma_leads_to_next(tree, from);
    let done = knowing(s, learnt_by(inner));
    if s.has_catalog {
        assert(first.state == inner.waiting(Phase::EndDirectory(None)));
        assert(first.log =~= log + seq![finish, end]);
        let second = next_work(tree, first);
        lemma_leads_to_next(tree, first);
        lemma_phase_is_past(done, first.state.phase);
        assert(State { stack: first.state.stack.drop_last(), ..first.state } == done.waiting(
            first.state.phase,
        ));
        lemma_leads_on(tree, from, first, second);
    } else {
        lemma_phase_is_past(done, inner.phase);
        assert(State { stack: inner.stack.drop_last(), ..inner } == done.waiting(inner.phase));
        assert(first.log =~= (log + seq![finish]) + logged(first.action));
    }
}

/// The start of a directory: it is written, and what follows is the same as if it had been on the
/// device of the directory above, or its file system had been found.
proof fn lemma_directory_starts(
    tree: Tree,
    around: Surroundings,
    s: State,
    entry: FileView,
    index: int,
    log: Seq<ActionView>,
)
    requires
        is_in(around, s),
        s.path == entry.path,
        !is_excluded(around.patterns, entry.path, entry.stat.st_mode),
        type_bits(kept_metadata(around, entry.stat, (tree.at)(entry.path)).stat.mode) == IFDIR,
    ensures
        ({
            let metadata = kept_metadata(around, entry.stat, (tree.at)(entry.path));
            leads_to(
                tree,
                work_at(add_entry(s, entry, metadata), index, log),
                Work {
                    state: start_directory(s, entry.name, metadata, entry.stat.st_dev).0,
                    action: start_directory(s, entry.name, metadata, entry.stat.st_dev).1,
                    index,
                    log: log + writes(
                        around,
                        CatalogOp::StartDirectory(entry.name),
                        EncodeOp::Directory { name: entry.name, metadata },
                    ),
                },
            )
        }),
{
    reveal(add_entry);
    let name = entry.name;
    let metadata = kept_metadata(around, entry.stat, (tree.at)(entry.path));
    let st_dev = entry.stat.st_dev;
    let started = start_directory(s, name, metadata, st_dev);
    let from = work_at(add_entry(s, entry, metadata), index, log);
    let all = log + writes(
        around,
        CatalogOp::StartDirectory(name),
        EncodeOp::Directory { name, metadata },
    );
    if s.has_catalog {
        reveal(step_directory);
        let next = next_work(tree, from);
        lemma_leads_to_next(tree, from);
        assert(next.state == started.0);
        assert(next.log =~= all);
    } else {
        assert(from.log =~= all);
        lemma_leads_to_itself(tree, from);
    }
}

/// The step from a directory that was written to its contents, or to its end.
proof fn lemma_directory_goes_on(
    tree: Tree,
    around: Surroundings,
    s: State,
    entry: FileView,
    index: int,
    log: Seq<ActionView>,
) -> (entered: State)
    requires
        is_in(around, s),
        s.path == entry.path,
    ensures
        ({
            let info = (tree.at)(entry.path);
            let started = start_directory(s, entry.name, kept_metadata(around, entry.stat, info), entry.stat.st_dev);
            let from = Work { state: started.0, action: started.1, index, log };
            &&& entered.stack == started.0.stack
            &&& entered.current_st_dev == entry.stat.st_dev
            &&& entered.fs_magic == surroundings_below(around, entry, info).magic
            &&& entered.fs_feature_flags == surroundings_below(around, entry, info).fs_flags
            &&& entered == (State {
                stack: entered.stack,
                phase: entered.phase,
                fs_magic: entered.fs_magic,
                fs_feature_flags: entered.fs_feature_flags,
                current_st_dev: entered.current_st_dev,
                ..s
            })
            &&& leads_to(
                tree,
                from,
                work_at(
                    if is_entered(around, entry, info) {
                        begin_contents(entered)
                    } else {
                        leave(entered, None)
                    },
                    index,
                    log,
                ),
            )
        }),
{
    reveal(step_directory);
    let info = (tree.at)(entry.path);
    let st_dev = entry.stat.st_dev;
    let started = start_directory(s, entry.name, kept_metadata(around, entry.stat, info), st_dev);
    let from = Work { state: started.0, action: started.1, index, log };
    let first = next_work(tree, from);
    lemma_leads_to_next(tree, from);
    if s.current_st_dev == st_dev {
        started.0
    } else {
        assert(first.state == started.0.waiting(Phase::DirFs { st_dev }));
        assert(first.log =~= log);
        let entered = State {
            fs_magic: info.magic,
            fs_feature_flags: info.flags,
            current_st_dev: st_dev,
            ..first.state
        };
        let second = next_work(tree, first);
        lemma_leads_to_next(tree, first);
        lemma_leads_on(tree, from, first, second);
        entered
    }
}

proof fn lemma_directory_is_archived(
    tree: Tree,
    around: Surroundings,
    s: State,
    entry: FileView,
    index: int,
    log: Seq<ActionView>,
    depth: nat,
) -> (r: int)
    requires
        is_in(around, s),
        s.listed.len() == 0,
        s.path == entry.path,
        !(around.is_root && entry.name == cli_name()),
        !is_excluded(around.patterns, entry.path, entry.stat.st_mode),
        type_bits(kept_metadata(around, entry.stat, (tree.at)(entry.path)).stat.mode) == IFDIR,
        is_archivable_entry(
            tree,
            around,
            entry,
            s.entry_counter as int,
            s.entry_limit as int,
            depth,
        ),
    ensures
        ({
            let archived = archived_entry(tree, around, entry, learnt_by(s), depth);
            leads_to(
                tree,
                work_at(
                    add_entry(s, entry, kept_metadata(around, entry.stat, (tree.at)(entry.path))),
                    index,
                    log.push(ActionView::Callback(entry.path)),
                ),
                work_at(next_entry(knowing(s, archived.learnt)), r, log + archived.log),
            )
        }),
    decreases depth, 0nat, 0nat,
{
    let info = (tree.at)(entry.path);
    let metadata = kept_metadata(around, entry.stat, info);
    let name = entry.name;
    let st_dev = entry.stat.st_dev;
    let announced = log.push(ActionView::Callback(entry.path));
    let from = work_at(add_entry(s, entry, metadata), index, announced);
    let started = start_directory(s, name, metadata, st_dev);
    let start = writes(around, CatalogOp::StartDirectory(name), EncodeOp::Directory { name, metadata });
    let end = if around.has_catalog {
        seq![ActionView::Encode(EncodeOp::Finish), ActionView::Catalog(CatalogOp::EndDirectory)]
    } else {
        seq![ActionView::Encode(EncodeOp::Finish)]
    };
    let written_log = announced + start;
    let written = Work { state: started.0, action: started.1, index, log: written_log };
    let archived = archived_entry(tree, around, entry, learnt_by(s), depth);
    lemma_directory_starts(tree, around, s, entry, index, announced);
    let entered = lemma_directory_goes_on(tree, around, s, entry, index, written_log);
    assert(entered.stack.drop_last() =~= s.stack);
    if is_entered(around, entry, info) {
        let inside = surroundings_below(around, entry, info);
        let begun = work_at(begin_contents(entered), index, written_log);
        let contents = archived_contents(tree, inside, entry.path, learnt_by(s), (depth - 1) as nat);
        let r = lemma_contents_are_archived(tree, inside, entered, index, written_log, (depth - 1) as nat);
        let ended = contents_end(entered, contents.learnt);
        let all = written_log + contents.log;
        assert(ended.0.stack.drop_last() =~= s.stack);
        lemma_directory_ends(tree, around, s, ended.0, r, all);
        assert(all + end =~= log + archived.log);
        lemma_leads_on(tree, from, written, begun);
        lemma_leads_on(tree, from, begun, work_at(ended, r, all));
        lemma_leads_on(
            tree,
            from,
            work_at(ended, r, all),
            work_at(next_entry(knowing(s, archived.learnt)), r, log + archived.log),
        );
        r
    } else {
        let ended = leave(entered, None);
        lemma_directory_ends(tree, around, s, ended.0, index, written_log);
        assert(written_log + end =~= log + archived.log);
        lemma_leads_on(tree, from, written, work_at(ended, index, written_log));
        lemma_leads_on(
            tree,
            from,
            work_at(ended, index, written_log),
            work_at(next_entry(knowing(s, archived.learnt)), index, log + archived.log),
        );
        index
    }
}

proof fn lemma_entry_is_archived(
    tree: Tree,
    around: Surroundings,
    s: State,
    index: int,
    log: Seq<ActionView>,
    depth: nat,
) -> (r: int)
    requires
        is_in(around, s),
        s.listed.len() == 0,
        s.stack.last().queue.len() > 0,
        is_archivable_entry(
            tree,
            around,
            s.stack.last().queue[0],
            s.entry_counter as int,
            s.entry_limit as int,
            depth,
        ),
    ensures
        ({
            let entry = s.stack.last().queue[0];
            let archived = archived_entry(tree, around, entry, learnt_by(s), depth);
            leads_to(
                tree,
                work_at(next_entry(s), index, log),
                work_at(next_entry(after_entry(s, around, archived.learnt)), r, log + archived.log),
            )
        }),
    decreases depth, 0nat, 1nat,
{
    let entry = s.stack.last().queue[0];
    let metadata = kept_metadata(around, entry.stat, (tree.at)(entry.path));
    let archived = archived_entry(tree, around, entry, learnt_by(s), depth);
    if around.is_root && entry.name == cli_name() {
        lemma_cli_is_archived(tree, around, s, index, log, depth);
        index
    } else {
        let reached = State { path: entry.path, ..without_first(s) };
        lemma_entry_is_announced(tree, around, s, index, log);
        assert(is_in(around, reached));
        assert(learnt_by(reached) == learnt_by(s));
        assert(knowing(reached, archived.learnt) == after_entry(s, around, archived.learnt));
        let r = if !is_excluded(around.patterns, entry.path, entry.stat.st_mode) && type_bits(
            metadata.stat.mode,
        ) == IFDIR {
            lemma_directory_is_archived(tree, around, reached, entry, index, log, depth)
        } else {
            lemma_file_is_archived(tree, around, reached, entry, index, log, depth);
            index
        };
        lemma_leads_on(
            tree,
            work_at(next_entry(s), index, log),
            work_at(
                add_entry(reached, entry, metadata),
                index,
                log.push(ActionView::Callback(entry.path)),
            ),
            work_at(next_entry(after_entry(s, around, archived.learnt)), r, log + archived.log),
        );
        r
    }
}

/// What is left of the innermost directory after its first entry was archived.
proof fn lemma_after_entry(tree: Tree, around: Surroundings, s: State, learnt: Learnt, depth: nat)
    requires
        is_in(around, s),
        s.stack.last().queue.len() > 0,
        forall|i: int|
            0 <= i < s.stack.last().queue.len() ==> is_archivable_entry(
                tree,
                around,
                #[trigger] s.stack.last().queue[i],
                s.entry_counter as int,
                s.entry_limit as int,
                depth,
            ),
    ensures
        ({
            let frame = s.stack.last();
            let rest = after_entry(s, around, learnt);
            &&& is_in(around, rest)
            &&& rest.listed == s.listed
            &&& rest.entry_counter == s.entry_counter
            &&& rest.entry_limit == s.entry_limit
            &&& learnt_by(rest) == learnt
            &&& rest.stack.last() == (FrameView { queue: frame.queue.drop_first(), ..frame })
            &&& rest.stack.drop_last() == s.stack.drop_last()
            &&& forall|i: int|
                0 <= i < rest.stack.last().queue.len() ==> is_archivable_entry(
                    tree,
                    around,
                    #[trigger] rest.stack.last().queue[i],
                    rest.entry_counter as int,
                    rest.entry_limit as int,
                    depth,
                )
        }),
{
    let frame = s.stack.last();
    let rest = after_entry(s, around, learnt);
    assert(rest.stack.drop_last() =~= s.stack.drop_last());
    assert forall|i: int| 0 <= i < rest.stack.last().queue.len() implies is_archivable_entry(
        tree,
        around,
        #[trigger] rest.stack.last().queue[i],
        rest.entry_counter as int,
        rest.entry_limit as int,
        depth,
    ) by {
        assert(rest.stack.last().queue[i] == frame.queue[i + 1]);
    }
}

proof fn lemma_entries_are_archived(
    tree: Tree,
    around: Surroundings,
    s: State,
    index: int,
    log: Seq<ActionView>,
    depth: nat,
) -> (r: (State, int))
    requires
        is_in(around, s),
        s.listed.len() == 0,
        forall|i: int|
            0 <= i < s.stack.last().queue.len() ==> is_archivable_entry(
                tree,
                around,
                #[trigger] s.stack.last().queue[i],
                s.entry_counter as int,
                s.entry_limit as int,
                depth,
            ),
    ensures
        ({
            let frame = s.stack.last();
            let archived = archived_entries(tree, around, frame.queue, learnt_by(s), depth);
            &&& r.0 == (State {
                path: r.0.path,
                phase: r.0.phase,
                ..knowing(s, archived.learnt).with_top(FrameView { queue: Seq::empty(), ..frame })
            })
            &&& leads_to(
                tree,
                work_at(next_entry(s), index, log),
                work_at(end_contents(r.0), r.1, log + archived.log),
            )
        }),
    decreases depth, 1nat, s.stack.last().queue.len(),
{
    let frame = s.stack.last();
    let archived = archived_entries(tree, around, frame.queue, learnt_by(s), depth);
    if frame.queue.len() == 0 {
        reveal(next_entry);
        assert(frame.queue =~= Seq::empty());
        assert(s.stack =~= s.stack.drop_last().push(frame));
        assert(log + archived.log =~= log);
        lemma_leads_to_itself(tree, work_at(next_entry(s), index, log));
        (s, index)
    } else {
        let entry = frame.queue[0];
        let first = archived_entry(tree, around, entry, learnt_by(s), depth);
        let at = lemma_entry_is_archived(tree, around, s, index, log, depth);
        let rest = after_entry(s, around, first.learnt);
        lemma_after_entry(tree, around, s, first.learnt, depth);
        let r = lemma_entries_are_archived(tree, around, rest, at, log + first.log, depth);
        let others = archived_entries(tree, around, frame.queue.drop_first(), first.learnt, depth);
        assert((log + first.log) + others.log =~= log + archived.log);
        assert(knowing(rest, others.learnt).with_top(
            FrameView { queue: Seq::empty(), ..rest.stack.last() },
        ).waiting(r.0.phase) == (State {
            path: rest.path,
            ..knowing(s, others.learnt).with_top(FrameView { queue: Seq::empty(), ..frame })
        }).waiting(r.0.phase));
        lemma_leads_on(
            tree,
            work_at(next_entry(s), index, log),
            work_at(next_entry(rest), at, log + first.log),
            work_at(end_contents(r.0), r.1, log + archived.log),
        );
        r
    }
}

/// The patterns of a directory are read, and its names come next.
proof fn lemma_list_starts(tree: Tree, around: Surroundings, s: State, index: int, log: Seq<ActionView>) -> (r:
    Work)
    requires
        is_in(around, s),
        s.listed.len() == 0,
        match (tree.at)(s.path).lines {
            Some(lines) => forall|i: int|
                0 <= i < lines@.len() ==> is_line_readable(s.path, #[trigger] lines@[i]@),
            None => true,
        },
    ensures
        ({
            let inside = surroundings_inside(tree, around, s.path);
            &&& leads_to(tree, work_at(begin_contents(s), index, log), r)
            &&& is_in(inside, r.state)
            &&& r == listed_work(tree, inside, r, 0, s.entry_counter as int)
            &&& r.action is NextName
            &&& r.log == log
            &&& r.state == (State {
                phase: Phase::Names,
                patterns: inside.patterns,
                listed: r.state.listed,
                ..knowing(begin_contents(s).0, learnt_inside(tree, s.path, learnt_by(s)))
            })
        }),
{
    reveal(step_list);
    let from = work_at(begin_contents(s), index, log);
    let r = next_work(tree, from);
    lemma_leads_to_next(tree, from);
    assert(r.log =~= log);
    r
}

/// All names of a directory are read, and its entries come next, in the order of their names.
proof fn lemma_list_ends(tree: Tree, around: Surroundings, work: Work) -> (r: State)
    requires
        is_in(around, work.state),
        work.state.phase is Names,
        work.index == (tree.at)(work.state.path).names.len(),
    ensures
        ({
            let s = work.state;
            let frame = FrameView {
                saved_path: s.path,
                queue: in_name_order(s.listed),
                ..s.stack.last()
            };
            &&& r == State { path: Seq::empty(), listed: Seq::empty(), ..s }.with_top(frame)
            &&& is_in(around, r)
            &&& leads_to(tree, work, work_at(next_entry(r), work.index + 1, work.log))
        }),
{
    reveal(step_names);
    let s = work.state;
    let frame = FrameView { saved_path: s.path, queue: in_name_order(s.listed), ..s.stack.last() };
    lemma_leads_to_next(tree, work);
    State { path: Seq::empty(), listed: Seq::empty(), ..s }.with_top(frame)
}

/// There is an order by name.
pub proof fn lemma_order_holds(entries: Seq<FileView>)
    ensures
        is_sorted_list_of(in_name_order(entries), entries),
{
    let order = lemma_order_exists(entries);
    assert(is_sorted_list_of(order, entries));
}

/// A list in another order has the same entries.
proof fn lemma_order_has_the_entries(order: Seq<FileView>, entries: Seq<FileView>, i: int)
    requires
        order.to_multiset() == entries.to_multiset(),
        0 <= i < order.len(),
    ensures
        exists|k: int| 0 <= k < entries.len() && #[trigger] entries[k] == order[i],
{
    broadcast use vstd::seq_lib::group_to_multiset_ensures;

    assert(order.to_multiset().contains(order[i]));
    assert(entries.contains(order[i]));
}

proof fn lemma_contents_are_archived(
    tree: Tree,
    around: Surroundings,
    s: State,
    index: int,
    log: Seq<ActionView>,
    depth: nat,
) -> (r: int)
    requires
        is_in(around, s),
        s.listed.len() == 0,
        is_archivable(tree, around, s.path, s.entry_counter as int, s.entry_limit as int, depth),
    ensures
        ({
            let archived = archived_contents(tree, around, s.path, learnt_by(s), depth);
            leads_to(
                tree,
                work_at(begin_contents(s), index, log),
                work_at(contents_end(s, archived.learnt), r, log + archived.log),
            )
        }),
    decreases depth, 2nat, 0nat,
{
    let path = s.path;
    let inside = surroundings_inside(tree, around, path);
    let names = (tree.at)(path).names;
    let start = s.entry_counter as int;
    let from = work_at(begin_contents(s), index, log);
    assert(from.log =~= log);
    let opened = lemma_list_starts(tree, around, s, index, log);
    lemma_listing(tree, inside, opened, 0, start);
    let read = listed_work(tree, inside, opened, names.len(), start);
    lemma_counted_grows(tree, inside, path, 0, names.len());
    lemma_leads_on(tree, from, opened, read);
    let order = in_name_order(listing(tree, inside, path));
    let s3 = lemma_list_ends(tree, inside, read);
    lemma_order_holds(listing(tree, inside, path));
    assert forall|i: int| 0 <= i < s3.stack.last().queue.len() implies is_archivable_entry(
        tree,
        inside,
        #[trigger] s3.stack.last().queue[i],
        s3.entry_counter as int,
        s3.entry_limit as int,
        depth,
    ) by {
        lemma_order_has_the_entries(order, listing(tree, inside, path), i);
    }
    let first = work_at(next_entry(s3), names.len() as int + 1, log);
    let r = lemma_entries_are_archived(tree, inside, s3, names.len() as int + 1, log, depth);
    lemma_leads_on(tree, from, read, first);
    let archived = archived_contents(tree, around, path, learnt_by(s), depth);
    assert(learnt_by(s3) == learnt_inside(tree, path, learnt_by(s)));
    assert(end_contents(r.0) == contents_end(s, archived.learnt)) by {
        let t = r.0;
        assert(t.patterns.take(s.patterns.len() as int) =~= s.patterns);
        assert(t.stack =~= contents_end(s, archived.learnt).0.stack);
    }
    lemma_leads_on(tree, from, first, work_at(end_contents(r.0), r.1, log + archived.log));
    r.1
}

// ---------------------------------------------------------------------------------------------
// The whole archive
// ---------------------------------------------------------------------------------------------

/// The surroundings of the source directory: `lost+found` is left out where that is asked for, and
/// its own device is entered.
pub open spec fn source_surroundings(
    tree: Tree,
    patterns: Seq<EntryView>,
    feature_flags: Flags,
    device_set: Option<Set<u64>>,
    skip_lost_and_found: bool,
    has_catalog: bool,
) -> Surroundings {
    let source = (tree.at)(Seq::empty());
    let dev = source.stat.st_dev;
    Surroundings {
        patterns: if skip_lost_and_found {
            patterns.push(parsed_entry(lost_and_found(), PATH_NAME, MatchType::Exclude))
        } else {
            patterns
        },
        dev,
        magic: source.magic,
        fs_flags: source.flags,
        feature_flags,
        is_root: true,
        has_catalog,
        device_set: match device_set {
            Some(set) => Some(set.insert(dev)),
            None => None,
        },
    }
}

/// An archiver that has just been made.
pub open spec fn first_work(state: State) -> Work {
    Work { state, action: ActionView::DetectFs, index: 0, log: Seq::empty() }
}

/// What is announced and written for a whole tree.
pub open spec fn archived_tree(tree: Tree, around: Surroundings, depth: nat) -> Seq<ActionView> {
    let nothing = Learnt { hardlinks: Map::empty(), warnings: Seq::empty() };
    let source = (tree.at)(Seq::empty());
    let metadata = kept_metadata(around, source.stat, source);
    seq![ActionView::Encode(EncodeOp::NewArchive(metadata))] + archived_contents(
        tree,
        around,
        Seq::empty(),
        nothing,
        depth,
    ).log + seq![ActionView::Encode(EncodeOp::Finish), ActionView::Finished(Ok(()))]
}

proof fn lemma_source_is_started(tree: Tree, s: State, around: Surroundings)
    requires
        s.phase is SourceFs,
        s.stack.len() == 0,
        s.path == Seq::<u8>::empty(),
        !virtual_magics().contains((tree.at)(s.path).magic),
        metadata_in(around, (tree.at)(s.path).stat, (tree.at)(s.path)) is Ok,
        s.skip_lost_and_found ==> glob_error(glob_text(lost_and_found()), PATH_NAME) is None,
        around == source_surroundings(
            tree,
            s.patterns,
            s.feature_flags,
            s.device_set,
            s.skip_lost_and_found,
            s.has_catalog,
        ),
    ensures
        exists|t: State| {
            &&& is_in(around, t)
            &&& t.listed == s.listed
            &&& t.path == s.path
            &&& t.entry_counter == s.entry_counter
            &&& t.entry_limit == s.entry_limit
            &&& learnt_by(t) == learnt_by(s)
            &&& #[trigger] leads_to(
                tree,
                first_work(s),
                work_at(
                    begin_contents(t),
                    0,
                    seq![ActionView::Encode(EncodeOp::NewArchive(kept_metadata(around, (tree.at)(s.path).stat, (tree.at)(s.path))))],
                ),
            )
        },
{
    reveal(step_source);
    let here = (tree.at)(s.path);
    let stat = here.stat;
    let new = seq![ActionView::Encode(EncodeOp::NewArchive(kept_metadata(around, stat, here)))];
    let w0 = first_work(s);
    let w1 = next_work(tree, w0);
    lemma_leads_to_next(tree, w0);
    let s1 = State { fs_magic: here.magic, fs_feature_flags: here.flags, ..s };
    assert(w1.state == s1.waiting(Phase::SourceStat));
    assert(w1.log =~= Seq::empty());
    let w2 = next_work(tree, w1);
    lemma_leads_to_next(tree, w1);
    assert(w2.state == s1.waiting(Phase::SourceMetadata(stat)));
    assert(w2.log =~= Seq::empty());
    let w3 = next_work(tree, w2);
    lemma_leads_to_next(tree, w2);
    let s3 = State { device_set: around.device_set, ..s1 };
    assert(w3.state == s3.waiting(Phase::SourceEncoder(stat)));
    assert(w3.log =~= new);
    let w4 = next_work(tree, w3);
    lemma_leads_to_next(tree, w3);
    let frame = FrameView {
        outer_magic: s3.fs_magic,
        outer_flags: s3.fs_feature_flags,
        outer_dev: stat.st_dev,
        saved_counter: s3.entry_counter,
        saved_patterns: around.patterns.len(),
        saved_path: s3.path,
        queue: Seq::empty(),
    };
    let t = State {
        patterns: around.patterns,
        current_st_dev: stat.st_dev,
        stack: seq![frame],
        ..w3.state
    };
    assert(w4 == work_at(begin_contents(t), 0, new));
    lemma_leads_on(tree, w0, w1, w2);
    lemma_leads_on(tree, w0, w2, w3);
    lemma_leads_on(tree, w0, w3, w4);
}

/// A tree in which nothing changes and nothing fails is archived as it is: the source directory
/// first, then every entry that the patterns do not leave out, in the order of the names, each
/// directory with its contents, each file with more than one name once with its contents and then
/// as another name, and each with its own metadata; and the archive ends with success.
pub proof fn law_tree_is_archived(
    tree: Tree,
    patterns: Seq<EntryView>,
    feature_flags: Flags,
    device_set: Option<Set<u64>>,
    skip_lost_and_found: bool,
    entry_limit: usize,
    has_catalog: bool,
    depth: nat,
)
    requires
        !virtual_magics().contains((tree.at)(Seq::empty()).magic),
        metadata_in(
            source_surroundings(
                tree,
                patterns,
                feature_flags,
                device_set,
                skip_lost_and_found,
                has_catalog,
            ),
            (tree.at)(Seq::empty()).stat,
            (tree.at)(Seq::empty()),
        ) is Ok,
        is_archivable(
            tree,
            source_surroundings(
                tree,
                patterns,
                feature_flags,
                device_set,
                skip_lost_and_found,
                has_catalog,
            ),
            Seq::empty(),
            0,
            entry_limit as int,
            depth,
        ),
    ensures
        skip_lost_and_found && glob_error(glob_text(lost_and_found()), PATH_NAME) is Some || exists|
            end: Work,
        |
            {
                &&& #[trigger] leads_to(
                    tree,
                    first_work(
                        initial(
                            patterns,
                            feature_flags,
                            device_set,
                            skip_lost_and_found,
                            entry_limit,
                            has_catalog,
                        ),
                    ),
                    end,
                )
                &&& end.action == ActionView::Finished(Ok(()))
                &&& end.log == archived_tree(
                    tree,
                    source_surroundings(
                tree,
                patterns,
                feature_flags,
                device_set,
                skip_lost_and_found,
                has_catalog,
            ),
                    depth,
                )
            },
{
    let around = source_surroundings(
                tree,
                patterns,
                feature_flags,
                device_set,
                skip_lost_and_found,
                has_catalog,
            );
    let s = initial(patterns, feature_flags, device_set, skip_lost_and_found, entry_limit, has_catalog);
    if !(skip_lost_and_found && glob_error(glob_text(lost_and_found()), PATH_NAME) is Some) {
        lemma_source_is_started(tree, s, around);
        let new = seq![ActionView::Encode(EncodeOp::NewArchive(kept_metadata(around, (tree.at)(s.path).stat, (tree.at)(s.path))))];
        let t = choose|t: State| {
            &&& is_in(around, t)
            &&& t.listed == s.listed
            &&& t.path == s.path
            &&& t.entry_counter == s.entry_counter
            &&& t.entry_limit == s.entry_limit
            &&& learnt_by(t) == learnt_by(s)
            &&& #[trigger] leads_to(tree, first_work(s), work_at(begin_contents(t), 0, new))
        };
        let archived = archived_contents(tree, around, t.path, learnt_by(t), depth);
        let r = lemma_contents_are_archived(tree, around, t, 0, new, depth);
        let finishing = work_at(contents_end(t, archived.learnt), r, new + archived.log);
        lemma_leads_on(tree, first_work(s), work_at(begin_contents(t), 0, new), finishing);
        let end = next_work(tree, finishing);
        assert(finishing.state.phase is FinishArchive);
        lemma_leads_to_next(tree, finishing);
        assert(end.action == ActionView::Finished(Ok(()))) by {
            reveal(step_source);
        }
        assert(end.log =~= archived_tree(tree, around, depth));
        lemma_leads_on(tree, first_work(s), finishing, end);
    }
}

/// The order of the entries of a directory, in which no name occurs twice, is the one by name: there
/// is no other.
pub proof fn law_name_order_is_the_order(entries: Seq<FileView>, order: Seq<FileView>)
    requires
        is_sorted_list_of(order, entries),
        has_distinct_names(order),
    ensures
        order == in_name_order(entries),
{
    lemma_order_holds(entries);
    law_order_is_unique(order, in_name_order(entries));
}

} // verus!
