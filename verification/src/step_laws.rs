//! What an archiver promises of single steps: what it asks for, what it writes, what it passes over,
//! and which errors there are.

use vstd::prelude::*;

use crate::error::{ErrorView, FailureView};
use crate::excludes::{byte_strings, exclude_entries, exclude_errors, excludes_cli, is_line_readable};
use crate::files::{joined, FileView};
use crate::flags::Flags;
use crate::fs_magic::virtual_magics;
use crate::hardlinks::LinkView;
use crate::metadata::{law_basic_part_is_kept, metadata_of, FileFacts, MetadataResult, MetadataView};
use crate::metadata_laws::lemma_mode;
use crate::mode::FileStat;
use crate::patterns::{glob_error, is_excluded, EntryView, MatchType, PatternView};
use crate::plan::{
    accepts, add_entry, initial, is_well_formed, next_entry, step, step_directory, step_entry,
    step_list, step_names, step_source, ActionView, FrameView, State,
};
use crate::steps::{Action, CatalogOp, EncodeOp, Event, Phase, Warning};
use crate::tree_laws::{is_entry_name, law_four_names_are_passed_over, lemma_lost_and_found, lemma_names};

verus! {

/// Whether a file type is one of those that an archive can hold.
pub open spec fn is_archivable_type(mode: u32) -> bool {
    ||| mode & 0xf000 == 0x8000
    ||| mode & 0xf000 == 0x4000
    ||| mode & 0xf000 == 0xa000
    ||| mode & 0xf000 == 0xc000
    ||| mode & 0xf000 == 0x6000
    ||| mode & 0xf000 == 0x2000
    ||| mode & 0xf000 == 0x1000
}

/// Whether a step ends with an error: the archive is given up, or a directory is left on account of it.
pub open spec fn ends_with(r: (State, ActionView), error: ErrorView) -> bool {
    r.1 == ActionView::Finished(Err(error)) || (r.0.phase == Phase::<
        Seq<u8>,
        FileView,
        MetadataView,
        ErrorView,
    >::Finish(Some(error)) && r.1 == ActionView::Encode(EncodeOp::Finish))
}

/// Whether a step is a failure.
pub open spec fn is_failure(r: (State, ActionView)) -> bool {
    (r.1 matches Action::Finished(Err(_))) || (r.0.phase matches Phase::Finish(Some(_)))
}

/// The next entry is no failure.
proof fn lemma_next_is_fine(s: State)
    ensures
        !is_failure(next_entry(s)),
{
    reveal(next_entry);
}

/// An entry of a known type is no failure.
proof fn lemma_entry_is_fine(
    s: State,
    entry: FileView,
    flags: Flags,
    magic: i64,
    facts: FileFacts,
    metadata: MetadataView,
)
    requires
        metadata_of(entry.stat, flags, magic, facts) == MetadataResult::Ok(metadata),
        is_archivable_type(entry.stat.st_mode),
    ensures
        !is_failure(add_entry(s, entry, metadata)),
{
    reveal(add_entry);
    lemma_next_is_fine(s);
    law_basic_part_is_kept(entry.stat, flags, magic, facts);
    lemma_mode(entry.stat.st_mode);
}

/// An archiver that is told of no failure goes on. It gives up for these reasons only: the source lies
/// on a virtual file system, metadata cannot be kept, a file is of an unknown type, there are more
/// entries than allowed, or the pattern for `lost+found` is refused.
pub proof fn law_only_these_reasons_to_fail(s: State, e: Event, order: Seq<FileView>)
    requires
        is_well_formed(s),
        accepts(s, e),
        !(e is Failed),
        !(e matches Event::Name { invalid: Some(_), .. }),
        !(s.phase matches Phase::Finish(Some(_))),
        !(s.phase matches Phase::EndDirectory(Some(_))),
        is_failure(step(s, e, order)),
    ensures
        match (s.phase, e) {
            (Phase::SourceFs, Event::Fs { magic, .. }) => virtual_magics().contains(magic),
            (Phase::SourceMetadata(stat), Event::Facts(facts)) => metadata_of(
                stat,
                s.feature_flags.spec_and(s.fs_feature_flags),
                s.fs_magic,
                facts,
            ) is Err,
            (Phase::SourceEncoder(_), _) => s.skip_lost_and_found && glob_error(
                seq![0x6cu8, 0x6f, 0x73, 0x74, 0x2b, 0x66, 0x6f, 0x75, 0x6e, 0x64],
                2,
            ) is Some,
            (Phase::EntryStat { path, .. }, Event::Stat(stat)) => s.entry_counter >= s.entry_limit
                && !is_excluded(s.patterns, path, stat.st_mode),
            (Phase::Metadata(entry), Event::Facts(facts)) => metadata_of(
                entry.stat,
                s.feature_flags.spec_and(s.fs_feature_flags),
                s.fs_magic,
                facts,
            ) is Err || !is_archivable_type(entry.stat.st_mode),
            _ => false,
        },
{
    match s.phase {
        Phase::SourceFs
        | Phase::SourceStat
        | Phase::SourceMetadata(_)
        | Phase::SourceEncoder(_)
        | Phase::FinishArchive => {
            reveal(step_source);
            lemma_lost_and_found();
        },
        Phase::Excludes | Phase::EntryStat { .. } => {
            reveal(step_list);
        },
        Phase::Names => {
            reveal(step_names);
            let frame = FrameView { saved_path: s.path, queue: order, ..s.stack.last() };
            lemma_next_is_fine(State { path: Seq::empty(), listed: Seq::empty(), ..s }.with_top(frame));
        },
        Phase::Metadata(entry) => {
            reveal(step_entry);
            if let Event::Facts(facts) = e {
                let flags = s.feature_flags.spec_and(s.fs_feature_flags);
                if let Ok(metadata) = metadata_of(entry.stat, flags, s.fs_magic, facts) {
                    if is_archivable_type(entry.stat.st_mode) {
                        lemma_entry_is_fine(s, entry, flags, s.fs_magic, facts, metadata);
                    }
                }
            }
        },
        Phase::File { link } => {
            reveal(step_entry);
            lemma_next_is_fine(s);
            if let Event::Offset(offset) = e {
                if let Some(id) = link {
                    lemma_next_is_fine(
                        State {
                            hardlinks: s.hardlinks.insert(id, LinkView { path: s.path, offset }),
                            ..s
                        },
                    );
                }
            }
        },
        Phase::Callback(_) | Phase::Open(_) | Phase::Catalog { .. } | Phase::Encode { .. } => {
            reveal(step_entry);
            lemma_next_is_fine(s);
        },
        _ => {
            reveal(step_directory);
            lemma_next_is_fine(State { stack: s.stack.drop_last(), ..s });
        },
    }
}

/// What an archiver can be told at any time: that the last action failed, where it can fail, and else
/// what the action asks for. A file that is gone can be told of where one is looked for.
pub proof fn law_expected_reports(s: State, e: Event)
    ensures
        e is Failed ==> (accepts(s, e) <==> !(s.phase is SourceMetadata || s.phase is Metadata || s.phase is
            Finished)),
        e is Missing ==> (accepts(s, e) <==> s.phase is Excludes || s.phase is Names || s.phase is EntryStat
            || s.phase is Open),
        e is Facts ==> (accepts(s, e) <==> s.phase is SourceMetadata || s.phase is Metadata),
        e is Stat ==> (accepts(s, e) <==> s.phase is SourceStat || s.phase is EntryStat),
        e is Fs ==> (accepts(s, e) <==> s.phase is SourceFs || s.phase is DirFs),
        e is Name ==> (accepts(s, e) <==> s.phase is Names),
        e is Offset ==> (accepts(s, e) <==> s.phase is File),
        e is Done ==> (accepts(s, e) <==> {
            ||| s.phase is SourceEncoder || s.phase is Callback || s.phase is Open || s.phase is Catalog
            ||| s.phase is Encode || s.phase is DirCatalog || s.phase is DirEncode || s.phase is Finish
            ||| s.phase is EndDirectory || s.phase is FinishArchive
        }),
        e matches Event::Lines { lines, .. } ==> (accepts(s, e) <==> s.phase is Excludes && forall|i: int|
            0 <= i < lines@.len() ==> is_line_readable(s.path, #[trigger] lines@[i]@)),
{
}

// ---------------------------------------------------------------------------------------------
// The source directory
// ---------------------------------------------------------------------------------------------

/// A new archiver has the settings that are asked for, and has read nothing yet.
pub proof fn law_new_archiver(
    patterns: Seq<EntryView>,
    feature_flags: Flags,
    device_set: Option<Set<u64>>,
    skip_lost_and_found: bool,
    entry_limit: usize,
    has_catalog: bool,
)
    ensures
        ({
            let s = initial(
                patterns,
                feature_flags,
                device_set,
                skip_lost_and_found,
                entry_limit,
                has_catalog,
            );
            &&& s.patterns == patterns && s.feature_flags == feature_flags && s.device_set == device_set
            &&& s.skip_lost_and_found == skip_lost_and_found && s.entry_limit == entry_limit
            &&& s.has_catalog == has_catalog && s.phase is SourceFs
            &&& s.path.len() == 0 && s.entry_counter == 0 && s.listed.len() == 0 && s.stack.len() == 0
            &&& s.warnings.len() == 0
            &&& forall|id: (u64, u64)| !(#[trigger] s.hardlinks.contains_key(id))
        }),
{
}

/// The source directory is examined, unless it lies on a virtual file system; what is found out of its
/// file system is kept.
pub proof fn law_source_is_examined(s: State, magic: i64, flags: Flags, order: Seq<FileView>)
    requires
        s.phase is SourceFs,
    ensures
        ({
            let (t, a) = step(s, Event::Fs { magic, flags }, order);
            &&& virtual_magics().contains(magic) ==> a == ActionView::Finished(
                Err(ErrorView::Plain(FailureView::VirtualFileSystem)),
            )
            &&& !virtual_magics().contains(magic) ==> {
                &&& a == ActionView::StatSource && t.phase is SourceStat
                &&& t == (State { fs_magic: magic, fs_feature_flags: flags, phase: t.phase, ..s })
            }
        }),
{
    reveal(step_source);
}

/// The metadata of the source directory is read with the features that count and its file system, and
/// goes into the archive first. Its device is added to those that are entered.
pub proof fn law_source_comes_first(
    s: State,
    stat: FileStat,
    facts: FileFacts,
    metadata: MetadataView,
    order: Seq<FileView>,
)
    ensures
        s.phase is SourceStat ==> step(s, Event::Stat(stat), order).1 == (ActionView::ReadMetadata {
            stat,
            flags: s.feature_flags.spec_and(s.fs_feature_flags),
            fs_magic: s.fs_magic,
        }),
        (s.phase matches Phase::SourceMetadata(of) && of == stat) && metadata_of(
            stat,
            s.feature_flags.spec_and(s.fs_feature_flags),
            s.fs_magic,
            facts,
        ) == MetadataResult::Ok(metadata) ==> ({
            let (t, a) = step(s, Event::Facts(facts), order);
            &&& a == ActionView::Encode(EncodeOp::NewArchive(metadata))
            &&& t.device_set is None <==> s.device_set is None
            &&& s.device_set matches Some(set) ==> (t.device_set matches Some(all) && forall|dev: u64| #[trigger]
                all.contains(dev) <==> set.contains(dev) || dev == stat.st_dev)
            &&& t == (State { phase: t.phase, device_set: t.device_set, ..s })
        }),
{
    reveal(step_source);
}

/// Once the archive is begun, the patterns of the source directory are read. Where that is asked for, a
/// pattern that excludes `lost+found` of any type is added to the patterns.
pub proof fn law_source_is_begun(s: State, stat: FileStat, order: Seq<FileView>)
    requires
        s.phase matches Phase::SourceEncoder(of) && of == stat,
        s.stack.len() == 0,
        glob_error(seq![0x6cu8, 0x6f, 0x73, 0x74, 0x2b, 0x66, 0x6f, 0x75, 0x6e, 0x64], 2) is None,
    ensures
        ({
            let (t, a) = step(s, Event::Done, order);
            &&& a is ReadExcludes && t.phase is Excludes && t.stack.len() == 1
            &&& t.current_st_dev == stat.st_dev && t.path == s.path && t.entry_counter == s.entry_counter
            &&& !s.skip_lost_and_found ==> t.patterns == s.patterns
            &&& s.skip_lost_and_found ==> t.patterns == s.patterns.push(
                EntryView {
                    pattern: PatternView::Pattern {
                        text: seq![0x6cu8, 0x6f, 0x73, 0x74, 0x2b, 0x66, 0x6f, 0x75, 0x6e, 0x64],
                        flags: 2,
                    },
                    match_type: MatchType::Exclude,
                    flags: 0x7f00,
                },
            )
        }),
{
    reveal(step_source);
    lemma_lost_and_found();
}

/// The archive ends with success, once its end is written, and with the failure if it is not.
pub proof fn law_end_of_the_archive(s: State, message: String, order: Seq<FileView>)
    requires
        s.phase is FinishArchive,
    ensures
        step(s, Event::Done, order).1 == ActionView::Finished(Ok(())),
        step(s, Event::Failed(message), order).1 == ActionView::Finished(
            Err(ErrorView::Plain(FailureView::Outside(message@))),
        ),
{
    reveal(step_source);
}

/// What fails at the start is why there is no archive.
pub proof fn law_failed_start(s: State, message: String, order: Seq<FileView>)
    requires
        s.phase is SourceFs || s.phase is SourceStat || s.phase is SourceEncoder,
    ensures
        step(s, Event::Failed(message), order).1 == ActionView::Finished(
            Err(ErrorView::Plain(FailureView::Outside(message@))),
        ),
{
    reveal(step_source);
}

// ---------------------------------------------------------------------------------------------
// The list of a directory
// ---------------------------------------------------------------------------------------------

/// The patterns of a directory are added to those that count, and what is wrong with them is reported;
/// if they could not be read to the end, none of them counts. The list of the directory starts empty,
/// but for the file that records the patterns, in the source directory if there are any.
pub proof fn law_patterns_of_a_directory(
    s: State,
    lines: Vec<Vec<u8>>,
    error: Option<String>,
    order: Seq<FileView>,
)
    requires
        s.phase is Excludes,
    ensures
        ({
            let (t, a) = step(s, Event::Missing, order);
            &&& a is NextName && t.phase is Names && t.patterns == s.patterns && t.warnings == s.warnings
            &&& t.listed.len() == if s.stack.len() == 1 && s.patterns.len() > 0 {
                1int
            } else {
                0
            }
            &&& t.listed.len() == 1 ==> t.listed[0].name == seq![
                0x2eu8, 0x70, 0x78, 0x61, 0x72, 0x65, 0x78, 0x63, 0x6c, 0x75, 0x64, 0x65, 0x2d, 0x63, 0x6c, 0x69,
            ]
            &&& t == (State { phase: t.phase, listed: t.listed, ..s })
        }),
        ({
            let (t, a) = step(s, Event::Lines { lines, error }, order);
            let bad = exclude_errors(s.path, byte_strings(lines@));
            &&& a is NextName && t.phase is Names
            &&& error is None ==> t.patterns == s.patterns + exclude_entries(s.path, byte_strings(lines@))
            &&& error is Some ==> t.patterns == s.patterns
            &&& t.warnings.len() == s.warnings.len() + bad.len() + if error is Some {
                1int
            } else {
                0
            }
            &&& forall|i: int| 0 <= i < s.warnings.len() ==> #[trigger] t.warnings[i] == s.warnings[i]
            &&& forall|i: int|
                0 <= i < bad.len() ==> t.warnings[s.warnings.len() + i] == Warning::<
                    Seq<u8>,
                    Seq<char>,
                >::BadPattern(s.path, #[trigger] bad[i])
            &&& error matches Some(message) ==> t.warnings.last() == Warning::<
                Seq<u8>,
                Seq<char>,
            >::UnreadableExcludes(s.path, message@)
            &&& t.listed.len() == if s.stack.len() == 1 && t.patterns.len() > 0 {
                1int
            } else {
                0
            }
            &&& t == (State {
                phase: t.phase,
                listed: t.listed,
                patterns: t.patterns,
                warnings: t.warnings,
                ..s
            })
        }),
{
    reveal(step_list);
    lemma_names();
}

/// Every name but the four that are passed over is examined, under its path.
pub proof fn law_names_are_examined(s: State, name: Vec<u8>, message: String, order: Seq<FileView>)
    requires
        s.phase is Names,
    ensures
        is_entry_name(name@, s.stack.len() == 1) ==> ({
            let (t, a) = step(s, Event::Name { name, invalid: None }, order);
            &&& a == (ActionView::StatEntry { name: name@, path: joined(s.path, name@) })
            &&& t.phase == (Phase::<Seq<u8>, FileView, MetadataView, ErrorView>::EntryStat {
                name: name@,
                path: joined(s.path, name@),
            })
            &&& t == (State { phase: t.phase, ..s })
        }),
        is_entry_name(name@, s.stack.len() == 1) && s.stack.len() >= 1 ==> ends_with(
            step(s, Event::Name { name, invalid: Some(message) }, order),
            ErrorView::Plain(FailureView::Outside(message@)),
        ),
        !is_entry_name(name@, s.stack.len() == 1) ==> {
            &&& step(s, Event::Name { name, invalid: None }, order) == (s, ActionView::NextName)
            &&& step(s, Event::Name { name, invalid: Some(message) }, order) == (s, ActionView::NextName)
        },
{
    reveal(step_names);
    law_four_names_are_passed_over(name@, s.stack.len() == 1);
}

/// A file that was examined is listed, with its name, its path and what was found out of it, and is
/// counted, as long as there are fewer entries than allowed; one entry more is an error. A file that is
/// excluded, or that is gone, is passed over and not counted.
pub proof fn law_files_are_listed(
    s: State,
    name: Seq<u8>,
    path: Seq<u8>,
    stat: FileStat,
    message: String,
    order: Seq<FileView>,
)
    requires
        s.phase == (Phase::<Seq<u8>, FileView, MetadataView, ErrorView>::EntryStat { name, path }),
        s.stack.len() >= 1,
    ensures
        !is_excluded(s.patterns, path, stat.st_mode) && s.entry_counter < s.entry_limit ==> ({
            let (t, a) = step(s, Event::Stat(stat), order);
            &&& a is NextName && t.phase is Names
            &&& t.listed == s.listed.push(FileView { name, path, stat })
            &&& t.entry_counter == s.entry_counter + 1
            &&& t == (State { phase: t.phase, listed: t.listed, entry_counter: t.entry_counter, ..s })
        }),
        !is_excluded(s.patterns, path, stat.st_mode) && s.entry_counter >= s.entry_limit ==> ends_with(
            step(s, Event::Stat(stat), order),
            ErrorView::Plain(FailureView::EntryLimit(s.entry_limit)),
        ),
        is_excluded(s.patterns, path, stat.st_mode) ==> ({
            let (t, a) = step(s, Event::Stat(stat), order);
            a is NextName && t.phase is Names && t == (State { phase: t.phase, ..s })
        }),
        ({
            let (t, a) = step(s, Event::Missing, order);
            a is NextName && t.phase is Names && t == (State { phase: t.phase, ..s })
        }),
        ends_with(
            step(s, Event::Failed(message), order),
            ErrorView::Plain(FailureView::Stat(path, message@)),
        ),
{
    reveal(step_list);
}

/// A failure while a directory is read, or while a path is announced, is an error as it is.
pub proof fn law_failed_reading(s: State, message: String, order: Seq<FileView>)
    requires
        s.phase is Excludes || s.phase is Names || s.phase is Callback,
        s.stack.len() >= 1,
    ensures
        ends_with(
            step(s, Event::Failed(message), order),
            ErrorView::Plain(FailureView::Outside(message@)),
        ),
        s.stack.len() == 1 ==> step(s, Event::Failed(message), order).1 is Finished,
        s.stack.len() > 1 ==> step(s, Event::Failed(message), order).1 is Encode,
{
    reveal(step_list);
    reveal(step_names);
    reveal(step_entry);
}

// ---------------------------------------------------------------------------------------------
// The entries of a directory
// ---------------------------------------------------------------------------------------------

/// A file is opened by its name once its path was announced: regular files and directories with their
/// contents, any other file by its place only. It is its path that errors get from then on.
pub proof fn law_files_are_opened(s: State, entry: FileView, order: Seq<FileView>)
    requires
        s.phase == Phase::<Seq<u8>, FileView, MetadataView, ErrorView>::Callback(entry),
    ensures
        ({
            let (t, a) = step(s, Event::Done, order);
            &&& a == (ActionView::Open {
                name: entry.name,
                path_only: entry.stat.st_mode & 0xf000 != 0x8000 && entry.stat.st_mode & 0xf000 != 0x4000,
            })
            &&& t.phase == Phase::<Seq<u8>, FileView, MetadataView, ErrorView>::Open(entry)
            &&& t.path == entry.path
            &&& t == (State { phase: t.phase, path: t.path, ..s })
        }),
{
    reveal(step_entry);
}

/// The metadata of an open file is read with the features that count and the file system it is on. A
/// file that is gone, or that may not be opened, is passed over, as if it were done with.
pub proof fn law_metadata_is_read(s: State, entry: FileView, order: Seq<FileView>)
    requires
        s.phase == Phase::<Seq<u8>, FileView, MetadataView, ErrorView>::Open(entry),
    ensures
        ({
            let (t, a) = step(s, Event::Done, order);
            &&& a == (ActionView::ReadMetadata {
                stat: entry.stat,
                flags: s.feature_flags.spec_and(s.fs_feature_flags),
                fs_magic: s.fs_magic,
            })
            &&& t.phase == Phase::<Seq<u8>, FileView, MetadataView, ErrorView>::Metadata(entry)
            &&& t == (State { phase: t.phase, ..s })
        }),
        step(s, Event::Missing, order) == step(
            (State { phase: Phase::Encode { in_entry: true }, ..s }),
            Event::Done,
            order,
        ),
{
    reveal(step_entry);
    crate::plan::lemma_phase_is_past(s, Phase::Encode { in_entry: true });
}

/// A failure with an entry is an error at its path.
pub proof fn law_failed_entry_has_its_path(s: State, message: String, order: Seq<FileView>)
    requires
        s.stack.len() >= 1,
        match s.phase {
            Phase::Open(_) | Phase::File { .. } | Phase::DirCatalog { .. } => true,
            Phase::Catalog { in_entry, .. } | Phase::Encode { in_entry } => in_entry,
            _ => false,
        },
    ensures
        ends_with(
            step(s, Event::Failed(message), order),
            ErrorView::At(s.path, FailureView::Outside(message@)),
        ),
        s.stack.len() == 1 ==> step(s, Event::Failed(message), order).1 is Finished,
        s.stack.len() > 1 ==> step(s, Event::Failed(message), order).1 is Encode,
{
    reveal(step_entry);
    reveal(step_directory);
}

/// Metadata that cannot be kept, and a file type that is not known, are errors at the path of the file.
pub proof fn law_bad_entry_has_its_path(s: State, entry: FileView, facts: FileFacts, order: Seq<FileView>)
    requires
        s.stack.len() >= 1,
        s.phase == Phase::<Seq<u8>, FileView, MetadataView, ErrorView>::Metadata(entry),
    ensures
        metadata_of(
            entry.stat,
            s.feature_flags.spec_and(s.fs_feature_flags),
            s.fs_magic,
            facts,
        ) matches Err(error) ==> ends_with(
            step(s, Event::Facts(facts), order),
            ErrorView::At(s.path, FailureView::Outside(error.text())),
        ),
        metadata_of(
            entry.stat,
            s.feature_flags.spec_and(s.fs_feature_flags),
            s.fs_magic,
            facts,
        ) is Ok && !is_archivable_type(entry.stat.st_mode) && !is_excluded(
            s.patterns,
            s.path,
            entry.stat.st_mode,
        ) ==> ends_with(
            step(s, Event::Facts(facts), order),
            ErrorView::At(s.path, FailureView::UnknownFileType((entry.stat.st_mode & 0xf000) as u64)),
        ),
{
    reveal(step_entry);
    reveal(add_entry);
    law_basic_part_is_kept(
        entry.stat,
        s.feature_flags.spec_and(s.fs_feature_flags),
        s.fs_magic,
        facts,
    );
    lemma_mode(entry.stat.st_mode);
}

/// What goes into the archive for an entry with metadata, and into the catalog before it.
pub proof fn law_entries_are_written(
    s: State,
    entry: FileView,
    facts: FileFacts,
    metadata: MetadataView,
    order: Seq<FileView>,
)
    requires
        s.phase == Phase::<Seq<u8>, FileView, MetadataView, ErrorView>::Metadata(entry),
        metadata_of(entry.stat, s.feature_flags.spec_and(s.fs_feature_flags), s.fs_magic, facts)
            == MetadataResult::Ok(metadata),
        !is_excluded(s.patterns, s.path, entry.stat.st_mode),
        is_archivable_type(entry.stat.st_mode),
    ensures
        ({
            let name = entry.name;
            let stat = entry.stat;
            let file_type = stat.st_mode & 0xf000;
            let id = (stat.st_dev, stat.st_ino);
            let (t, a) = step(s, Event::Facts(facts), order);
            &&& s.has_catalog ==> a is Catalog
            &&& !s.has_catalog ==> a is Encode
            &&& file_type == 0x8000 && (stat.st_nlink <= 1 || !s.hardlinks.contains_key(id)) ==> {
                &&& !s.has_catalog ==> a == ActionView::Encode(
                    EncodeOp::File { name, metadata, size: stat.st_size as u64 },
                )
                &&& s.has_catalog ==> {
                    &&& a == ActionView::Catalog(
                        CatalogOp::AddFile { name, size: stat.st_size as u64, mtime: stat.st_mtime as u64 },
                    )
                    &&& t.phase matches Phase::Catalog { next, .. } && next == (EncodeOp::File {
                        name,
                        metadata,
                        size: stat.st_size as u64,
                    })
                }
                &&& t.phase matches Phase::File { link } ==> {
                    &&& stat.st_nlink > 1 ==> link == Some(id)
                    &&& stat.st_nlink <= 1 ==> link is None
                }
                &&& t.phase matches Phase::Catalog { link, in_entry, .. } ==> {
                    &&& in_entry
                    &&& stat.st_nlink > 1 ==> link == Some(id)
                    &&& stat.st_nlink <= 1 ==> link is None
                }
            }
            &&& file_type == 0x8000 && stat.st_nlink > 1 && s.hardlinks.contains_key(id) ==> {
                let op = EncodeOp::Hardlink {
                    name,
                    target: s.hardlinks[id].path,
                    offset: s.hardlinks[id].offset,
                };
                &&& !s.has_catalog ==> a == ActionView::Encode(op)
                &&& s.has_catalog ==> a == ActionView::Catalog(CatalogOp::AddHardlink(name)) && (
                t.phase matches Phase::Catalog { next, .. } && next == op)
            }
            &&& file_type == 0x4000 ==> {
                &&& !s.has_catalog ==> a == ActionView::Encode(EncodeOp::Directory { name, metadata })
                &&& s.has_catalog ==> a == ActionView::Catalog(CatalogOp::StartDirectory(name))
            }
            &&& file_type == 0xc000 ==> {
                let op = EncodeOp::Socket { name, metadata };
                &&& !s.has_catalog ==> a == ActionView::Encode(op)
                &&& s.has_catalog ==> a == ActionView::Catalog(CatalogOp::AddSocket(name)) && (
                t.phase matches Phase::Catalog { next, .. } && next == op)
            }
            &&& file_type == 0x1000 ==> {
                let op = EncodeOp::Fifo { name, metadata };
                &&& !s.has_catalog ==> a == ActionView::Encode(op)
                &&& s.has_catalog ==> a == ActionView::Catalog(CatalogOp::AddFifo(name)) && (
                t.phase matches Phase::Catalog { next, .. } && next == op)
            }
            &&& file_type == 0xa000 ==> {
                let op = EncodeOp::Symlink { name, metadata };
                &&& !s.has_catalog ==> a == ActionView::Encode(op)
                &&& s.has_catalog ==> a == ActionView::Catalog(CatalogOp::AddSymlink(name)) && (
                t.phase matches Phase::Catalog { next, .. } && next == op)
            }
            &&& file_type == 0x6000 || file_type == 0x2000 ==> {
                let op = EncodeOp::Device { name, metadata, rdev: stat.st_rdev };
                &&& !s.has_catalog ==> a == ActionView::Encode(op)
                &&& s.has_catalog && file_type == 0x6000 ==> a == ActionView::Catalog(
                    CatalogOp::AddBlockDevice(name),
                )
                &&& s.has_catalog && file_type == 0x2000 ==> a == ActionView::Catalog(
                    CatalogOp::AddCharDevice(name),
                )
                &&& s.has_catalog ==> (t.phase matches Phase::Catalog { next, .. } && next == op)
            }
            &&& t.patterns == s.patterns && t.hardlinks == s.hardlinks && t.warnings == s.warnings
            &&& t.path == s.path && t.entry_counter == s.entry_counter
        }),
{
    reveal(step_entry);
    reveal(add_entry);
    law_basic_part_is_kept(
        entry.stat,
        s.feature_flags.spec_and(s.fs_feature_flags),
        s.fs_magic,
        facts,
    );
    lemma_mode(entry.stat.st_mode);
}

/// What went into the catalog goes into the archive next. Once a file with more than one name is
/// written, its path and its place are remembered under its device and inode; what else is known stays.
pub proof fn law_files_are_remembered(s: State, offset: u64, order: Seq<FileView>)
    ensures
        s.phase matches Phase::Catalog { next, .. } ==> step(s, Event::Done, order).1 == ActionView::Encode(next),
        s.phase matches Phase::File { link } ==> ({
            let t = step(s, Event::Offset(offset), order).0;
            &&& link is None ==> t.hardlinks == s.hardlinks
            &&& link matches Some(id) ==> {
                &&& t.hardlinks.contains_key(id) && t.hardlinks[id].path == s.path && t.hardlinks[id].offset
                    == offset
                &&& forall|other: (u64, u64)|
                    other != id ==> (#[trigger] t.hardlinks.contains_key(other) <==> s.hardlinks.contains_key(
                        other,
                    )) && t.hardlinks[other] == s.hardlinks[other]
            }
        }),
{
    reveal(step_entry);
    reveal(next_entry);
}

/// Once all names are read, the entries are archived in the given order: the first one is announced, and
/// the others follow. The file that records the patterns is not announced, but written: with its
/// contents, and with the mode of a file that its owner may read and write.
pub proof fn law_entries_are_begun(s: State, order: Seq<FileView>)
    requires
        s.phase is Names,
        s.stack.len() >= 1,
        order.len() > 0,
    ensures
        ({
            let (t, a) = step(s, Event::Missing, order);
            let is_cli = s.stack.len() == 1 && order[0].name == seq![
                0x2eu8, 0x70, 0x78, 0x61, 0x72, 0x65, 0x78, 0x63, 0x6c, 0x75, 0x64, 0x65, 0x2d, 0x63, 0x6c, 0x69,
            ];
            &&& !is_cli ==> {
                &&& a == ActionView::Callback(order[0].path)
                &&& t.phase == Phase::<Seq<u8>, FileView, MetadataView, ErrorView>::Callback(order[0])
            }
            &&& is_cli && !s.has_catalog ==> {
                &&& a matches Action::Encode(EncodeOp::Content { name, metadata, content })
                &&& name == order[0].name && content == excludes_cli(s.patterns) && metadata.stat.mode == 0x8180
            }
            &&& is_cli && s.has_catalog ==> {
                &&& a == ActionView::Catalog(
                    CatalogOp::AddFile {
                        name: order[0].name,
                        size: excludes_cli(s.patterns).len() as u64,
                        mtime: 0,
                    },
                )
                &&& t.phase matches Phase::Catalog {
                    next: EncodeOp::Content { name, metadata, content },
                    link,
                    in_entry,
                }
                &&& name == order[0].name && content == excludes_cli(s.patterns) && metadata.stat.mode == 0x8180
                &&& link is None && !in_entry
            }
            &&& t.stack.len() == s.stack.len() && t.stack.last().queue == order.drop_first()
            &&& t.stack.last().saved_path == s.path
            &&& t.listed.len() == 0 && t.path.len() == 0
            &&& t.patterns == s.patterns && t.entry_counter == s.entry_counter && t.hardlinks == s.hardlinks
        }),
{
    reveal(step_names);
    reveal(next_entry);
    lemma_names();
}

/// Once an entry is done with, the next one of the list is announced. If there is none, the directory
/// ends: its path, the number of entries and the patterns from before count again, and so does the
/// file system of the directory above.
pub proof fn law_next_entry_is_announced(s: State, order: Seq<FileView>)
    requires
        s.phase is Encode,
        s.stack.len() >= 1,
    ensures
        ({
            let (t, a) = step(s, Event::Done, order);
            let frame = s.stack.last();
            let queue = frame.queue;
            &&& queue.len() > 0 && (s.stack.len() > 1 || queue[0].name != seq![
                0x2eu8, 0x70, 0x78, 0x61, 0x72, 0x65, 0x78, 0x63, 0x6c, 0x75, 0x64, 0x65, 0x2d, 0x63, 0x6c, 0x69,
            ]) ==> {
                &&& a == ActionView::Callback(queue[0].path)
                &&& t.phase == Phase::<Seq<u8>, FileView, MetadataView, ErrorView>::Callback(queue[0])
                &&& t.stack.len() == s.stack.len()
                &&& t.stack.last().queue == queue.drop_first()
                &&& t == (State { phase: t.phase, stack: t.stack, ..s })
            }
            &&& queue.len() == 0 ==> {
                &&& a == ActionView::Encode(EncodeOp::Finish)
                &&& t.path == frame.saved_path && t.entry_counter == frame.saved_counter
                &&& frame.saved_patterns <= s.patterns.len() ==> t.patterns == s.patterns.take(
                    frame.saved_patterns as int,
                )
                &&& s.stack.len() == 1 ==> t.phase is FinishArchive
                &&& s.stack.len() > 1 ==> {
                    &&& t.phase == Phase::<Seq<u8>, FileView, MetadataView, ErrorView>::Finish(None)
                    &&& t.fs_magic == frame.outer_magic && t.fs_feature_flags == frame.outer_flags
                    &&& t.current_st_dev == frame.outer_dev
                }
                &&& t.hardlinks == s.hardlinks && t.warnings == s.warnings
            }
        }),
{
    reveal(step_entry);
    reveal(next_entry);
    lemma_names();
}

// ---------------------------------------------------------------------------------------------
// Directories
// ---------------------------------------------------------------------------------------------

/// A directory goes into the archive after it went into the catalog, with its name and its metadata; it is
/// the innermost one then, and what counts outside of it is kept.
pub proof fn law_directories_are_written(
    s: State,
    name: Seq<u8>,
    metadata: MetadataView,
    dev: u64,
    order: Seq<FileView>,
)
    requires
        s.phase == (Phase::<Seq<u8>, FileView, MetadataView, ErrorView>::DirCatalog { name, metadata, st_dev: dev }),
    ensures
        ({
            let (t, a) = step(s, Event::Done, order);
            &&& a == ActionView::Encode(EncodeOp::Directory { name, metadata })
            &&& t.phase == (Phase::<Seq<u8>, FileView, MetadataView, ErrorView>::DirEncode { st_dev: dev })
            &&& t.stack.len() == s.stack.len() + 1 && t.stack.drop_last() =~= s.stack
            &&& t.stack.last().outer_magic == s.fs_magic && t.stack.last().outer_flags == s.fs_feature_flags
            &&& t.stack.last().outer_dev == s.current_st_dev
            &&& t.stack.last().saved_counter == s.entry_counter
            &&& t.stack.last().saved_patterns == s.patterns.len()
            &&& t == (State { phase: t.phase, stack: t.stack, ..s })
        }),
{
    reveal(step_directory);
}

/// The contents of a directory on the device of the directory above are archived next; on another
/// device its file system is found out first. There they are archived, in that file system, unless it
/// is a virtual one or the device is not among those that are asked for.
pub proof fn law_devices_are_entered(s: State, dev: u64, magic: i64, flags: Flags, order: Seq<FileView>)
    ensures
        (s.phase matches Phase::DirEncode { st_dev } && st_dev == dev) ==> ({
            let (t, a) = step(s, Event::Done, order);
            &&& s.current_st_dev == dev ==> a is ReadExcludes && t.phase is Excludes
            &&& s.current_st_dev != dev ==> a is DetectFs && t == (State { phase: t.phase, ..s })
        }),
        (s.phase matches Phase::DirFs { st_dev } && st_dev == dev) ==> ({
            let (t, a) = step(s, Event::Fs { magic, flags }, order);
            let skip = virtual_magics().contains(magic) || (s.device_set matches Some(set) && !set.contains(
                dev,
            ));
            &&& skip ==> {
                &&& a == ActionView::Encode(EncodeOp::Finish)
                &&& t.phase == Phase::<Seq<u8>, FileView, MetadataView, ErrorView>::Finish(None)
                &&& t.fs_magic == s.stack.last().outer_magic
                &&& t.fs_feature_flags == s.stack.last().outer_flags
                &&& t.current_st_dev == s.stack.last().outer_dev
            }
            &&& !skip ==> {
                &&& a is ReadExcludes && t.phase is Excludes
                &&& t.fs_magic == magic && t.fs_feature_flags == flags && t.current_st_dev == dev
            }
            &&& t.patterns == s.patterns && t.path == s.path && t.device_set == s.device_set
        }),
{
    reveal(step_directory);
}

/// The error that ended a directory is the error of the directory above, too: it keeps its path, or
/// gets that of the directory. An error in ending the directory takes its place.
pub proof fn law_error_is_handed_up(
    s: State,
    path: Seq<u8>,
    cause: FailureView,
    message: String,
    order: Seq<FileView>,
)
    requires
        s.stack.len() >= 2,
    ensures
        s.phase == Phase::<Seq<u8>, FileView, MetadataView, ErrorView>::EndDirectory(
            Some(ErrorView::At(path, cause)),
        ) || (s.phase == Phase::<Seq<u8>, FileView, MetadataView, ErrorView>::Finish(
            Some(ErrorView::At(path, cause)),
        ) && !s.has_catalog) ==> ends_with(step(s, Event::Done, order), ErrorView::At(path, cause)),
        s.phase == Phase::<Seq<u8>, FileView, MetadataView, ErrorView>::EndDirectory(
            Some(ErrorView::Plain(cause)),
        ) || (s.phase == Phase::<Seq<u8>, FileView, MetadataView, ErrorView>::Finish(
            Some(ErrorView::Plain(cause)),
        ) && !s.has_catalog) ==> ends_with(step(s, Event::Done, order), ErrorView::At(s.path, cause)),
        s.phase is EndDirectory || ((s.phase is Finish || s.phase is DirEncode || s.phase is DirFs)
            && !s.has_catalog) ==> ends_with(
            step(s, Event::Failed(message), order),
            ErrorView::At(s.path, FailureView::Outside(message@)),
        ),
        s.phase matches Phase::Finish(error) ==> (s.has_catalog ==> {
            &&& step(s, Event::Done, order).1 == ActionView::Catalog(CatalogOp::EndDirectory)
            &&& (step(s, Event::Done, order).0.phase matches Phase::EndDirectory(kept) && kept == error)
            &&& (step(s, Event::Failed(message), order).0.phase matches Phase::EndDirectory(kept) && kept == Some(
                ErrorView::Plain(FailureView::Outside(message@)),
            ))
        }),
{
    reveal(step_directory);
}

} // verus!
