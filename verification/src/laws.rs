//! What holds of every archive, whatever its caller reports.

use vstd::prelude::*;

use crate::bytes::bytes_le;
use crate::error::{ErrorView, FailureView};
use crate::files::{is_sorted_by_name, FileView};
use crate::flags::Flags;
use crate::fs_magic::virtual_magics;
use crate::hardlinks::LinkView;
use crate::metadata::{metadata_of, FileFacts, MetadataView};
use crate::mode::FileStat;
use crate::patterns::{is_excluded, EntryView};
use crate::plan::{
    accepts, add_entry, begin_contents, directory_done, end_directory, fail_contents, fail_entry, initial,
    is_order, is_well_formed, known_link, law_stays_well_formed, leave, list_entry, next_entry,
    outside, start_directory, step, step_directory, step_entry, step_list, step_names, step_source,
    ActionView, EncodeView, FrameView, State,
};
use crate::steps::{Action, EncodeOp, Event, Phase};

verus! {

// ---------------------------------------------------------------------------------------------
// Errors
// ---------------------------------------------------------------------------------------------

/// Whether no further entry will go into the archive.
pub open spec fn is_over(s: State) -> bool {
    match s.phase {
        Phase::Finish(error) => error is Some,
        Phase::EndDirectory(error) => error is Some,
        Phase::Finished => true,
        _ => false,
    }
}

/// Whether an action only closes what is open, or reports an error.
pub open spec fn is_closing(action: ActionView) -> bool {
    match action {
        Action::Encode(op) => op is Finish,
        Action::Catalog(op) => op is EndDirectory,
        Action::Finished(result) => result is Err,
        _ => false,
    }
}

/// After an error nothing more goes into the archive: the open directories are closed, and the
/// error is reported.
pub proof fn law_error_ends_the_archive(s: State, e: Event, order: Seq<FileView>)
    requires
        is_well_formed(s),
        is_over(s),
        accepts(s, e),
    ensures
        is_over(step(s, e, order).0),
        is_closing(step(s, e, order).1),
{
    reveal(step_directory);
}

// ---------------------------------------------------------------------------------------------
// The invariant
// ---------------------------------------------------------------------------------------------

/// Whether no entry of the current directory is kept in the list of those that were found.
pub open spec fn lists_nothing(s: State) -> bool {
    s.phase is Names || s.phase is EntryStat || s.listed.len() == 0
}

/// Whether the number of entries is within the limit, now and for all open directories.
pub open spec fn is_within_limit(s: State) -> bool {
    &&& s.entry_counter <= s.entry_limit
    &&& forall|i: int| 0 <= i < s.stack.len() ==> (#[trigger] s.stack[i]).saved_counter <= s.entry_limit
}

/// Whether a file that is about to be archived, and has more than one name, is not in the archive
/// yet; and another name of a file leads to one that is.
pub open spec fn links_are_known(s: State) -> bool {
    match s.phase {
        Phase::Catalog { next, link, .. } => {
            &&& link matches Some(id) ==> !s.hardlinks.contains_key(id)
            &&& next matches EncodeOp::Hardlink { target, offset, .. } ==> s.hardlinks.contains_value(
                LinkView { path: target, offset },
            )
        },
        Phase::File { link } => link matches Some(id) ==> !s.hardlinks.contains_key(id),
        _ => true,
    }
}

/// What holds of every state of an archiver.
pub open spec fn is_sound(s: State) -> bool {
    &&& is_well_formed(s)
    &&& is_within_limit(s)
    &&& links_are_known(s)
    &&& is_over(s) || lists_nothing(s)
}

/// The next entry of a directory leaves a sound state sound.
proof fn lemma_next_entry_is_sound(s: State)
    requires
        s.stack.len() >= 1,
        is_within_limit(s),
        s.listed.len() == 0,
    ensures
        is_sound(next_entry(s).0),
        next_entry(s).0.hardlinks == s.hardlinks,
        next_entry(s).0.device_set == s.device_set,
        !(next_entry(s).1 matches Action::Encode(op) && op is Hardlink),
{
    reveal(next_entry);
    assert(is_within_limit(next_entry(s).0)) by {
        let t = next_entry(s).0;
        assert forall|i: int| 0 <= i < t.stack.len() implies (#[trigger] t.stack[i]).saved_counter
            <= t.entry_limit by {
            assert(s.stack[i].saved_counter <= s.entry_limit);
        }
        assert(s.stack.last() == s.stack[s.stack.len() - 1]);
    }
}

/// An entry leaves a sound state sound.
proof fn lemma_add_entry_is_sound(s: State, entry: FileView, metadata: MetadataView)
    requires
        s.stack.len() >= 1,
        is_within_limit(s),
        s.listed.len() == 0,
    ensures
        is_sound(add_entry(s, entry, metadata).0),
        add_entry(s, entry, metadata).0.hardlinks == s.hardlinks,
        add_entry(s, entry, metadata).0.device_set == s.device_set,
        add_entry(s, entry, metadata).1 matches Action::Encode(op)
            ==> op matches EncodeOp::Hardlink { target, offset, .. }
            ==> s.hardlinks.contains_value(LinkView { path: target, offset }),
{
    reveal(add_entry);
    lemma_next_entry_is_sound(s);
    if let Some(link) = known_link(s, entry.stat) {
        assert(s.hardlinks.contains_value(link)) by {
            assert(s.hardlinks.dom().contains((entry.stat.st_dev, entry.stat.st_ino)));
        }
    }
    let t = add_entry(s, entry, metadata).0;
    assert(is_within_limit(t)) by {
        assert forall|i: int| 0 <= i < t.stack.len() implies (#[trigger] t.stack[i]).saved_counter
            <= t.entry_limit by {
            if i < s.stack.len() {
                assert(s.stack[i].saved_counter <= s.entry_limit);
            }
        }
    }
}

/// Giving up the contents of a directory leaves a sound state sound.
proof fn lemma_fail_is_sound(s: State, error: ErrorView)
    requires
        s.stack.len() >= 1,
        is_within_limit(s),
    ensures
        is_sound(fail_contents(s, error).0),
        is_over(fail_contents(s, error).0),
        is_closing(fail_contents(s, error).1),
        fail_contents(s, error).0.hardlinks == s.hardlinks,
        fail_contents(s, error).0.device_set == s.device_set,
        fail_contents(s, error).0.entry_limit == s.entry_limit,
{
}

/// The end of a directory leaves a sound state sound.
proof fn lemma_end_directory_is_sound(s: State, error: Option<ErrorView>)
    requires
        s.stack.len() >= 2,
        is_within_limit(s),
        error is Some || s.listed.len() == 0,
    ensures
        is_sound(end_directory(s, error).0),
        is_sound(directory_done(s, error).0),
        end_directory(s, error).0.hardlinks == s.hardlinks,
        directory_done(s, error).0.hardlinks == s.hardlinks,
        end_directory(s, error).0.device_set == s.device_set,
        directory_done(s, error).0.device_set == s.device_set,
        !(end_directory(s, error).1 matches Action::Encode(op) && op is Hardlink),
        !(directory_done(s, error).1 matches Action::Encode(op) && op is Hardlink),
{
    let outer = State { stack: s.stack.drop_last(), ..s };
    assert(is_within_limit(outer)) by {
        assert forall|i: int| 0 <= i < outer.stack.len() implies (#[trigger] outer.stack[i]).saved_counter
            <= s.entry_limit by {
            assert(s.stack[i].saved_counter <= s.entry_limit);
        }
    }
    match error {
        Some(error) => lemma_fail_is_sound(outer, error.wrapped(outer.path)),
        None => lemma_next_entry_is_sound(outer),
    }
}

/// The start of the contents of a directory leaves a sound state sound.
proof fn lemma_begin_contents_is_sound(s: State)
    requires
        s.stack.len() >= 1,
        is_within_limit(s),
        s.listed.len() == 0,
    ensures
        is_sound(begin_contents(s).0),
{
    let t = begin_contents(s).0;
    assert forall|i: int| 0 <= i < t.stack.len() implies (#[trigger] t.stack[i]).saved_counter
        <= t.entry_limit by {
        assert(s.stack[i].saved_counter <= s.entry_limit);
    }
}

/// What relates two states of an archiver, of which the second follows the first.
pub open spec fn is_sound_step(s: State, t: State, action: ActionView) -> bool {
    &&& is_sound(t)
    &&& s.hardlinks.submap_of(t.hardlinks)
    &&& action matches Action::Encode(op) ==> op matches EncodeOp::Hardlink { target, offset, .. }
        ==> s.hardlinks.contains_value(LinkView { path: target, offset })
}

proof fn lemma_source_is_sound(s: State, e: Event)
    requires
        is_sound(s),
        accepts(s, e),
        s.phase is SourceFs || s.phase is SourceStat || s.phase is SourceMetadata
            || s.phase is SourceEncoder || s.phase is FinishArchive,
    ensures
        is_sound_step(s, step_source(s, e).0, step_source(s, e).1),
{
    reveal(step_source);
}

proof fn lemma_list_is_sound(s: State, e: Event)
    requires
        is_sound(s),
        accepts(s, e),
        s.phase is Excludes || s.phase is EntryStat,
    ensures
        is_sound_step(s, step_list(s, e).0, step_list(s, e).1),
{
    reveal(step_list);
}

proof fn lemma_names_is_sound(s: State, e: Event, order: Seq<FileView>)
    requires
        is_sound(s),
        accepts(s, e),
        s.phase is Names,
    ensures
        is_sound_step(s, step_names(s, e, order).0, step_names(s, e, order).1),
{
    reveal(step_names);
    if e is Missing {
        let frame = FrameView { saved_path: s.path, queue: order, ..s.stack.last() };
        let t = State { path: Seq::empty(), listed: Seq::empty(), ..s }.with_top(frame);
        assert(is_within_limit(t)) by {
            assert forall|i: int| 0 <= i < t.stack.len() implies (#[trigger] t.stack[i]).saved_counter
                <= t.entry_limit by {
                assert(s.stack[i].saved_counter <= s.entry_limit);
            }
        }
        lemma_next_entry_is_sound(t);
    }
}

proof fn lemma_entry_is_sound(s: State, e: Event)
    requires
        is_sound(s),
        accepts(s, e),
        s.phase is Callback || s.phase is Open || s.phase is Metadata || s.phase is Catalog
            || s.phase is Encode || s.phase is File,
    ensures
        is_sound_step(s, step_entry(s, e).0, step_entry(s, e).1),
{
    reveal(step_entry);
    lemma_next_entry_is_sound(s);
    match (s.phase, e) {
        (Phase::Metadata(entry), Event::Facts(facts)) => {
            if let Ok(metadata) = metadata_of(entry.stat, s.flags(), s.fs_magic, facts) {
                lemma_add_entry_is_sound(s, entry, metadata);
            }
        },
        (Phase::File { link }, Event::Offset(offset)) => {
            if let Some(id) = link {
                let t = State {
                    hardlinks: s.hardlinks.insert(id, LinkView { path: s.path, offset }),
                    ..s
                };
                lemma_next_entry_is_sound(t);
            }
        },
        _ => {},
    }
}

proof fn lemma_directory_is_sound(s: State, e: Event)
    requires
        is_sound(s),
        accepts(s, e),
        s.phase is DirCatalog || s.phase is DirEncode || s.phase is DirFs || s.phase is Finish
            || s.phase is EndDirectory,
    ensures
        is_sound_step(s, step_directory(s, e).0, step_directory(s, e).1),
{
    reveal(step_directory);
    match (s.phase, e) {
        (Phase::DirCatalog { name, metadata, st_dev }, Event::Done) => {
            let t = start_directory(s, name, metadata, st_dev).0;
            assert forall|i: int| 0 <= i < t.stack.len() implies (#[trigger] t.stack[i]).saved_counter
                <= t.entry_limit by {
                if i < s.stack.len() {
                    assert(s.stack[i].saved_counter <= s.entry_limit);
                }
            }
        },
        (Phase::DirEncode { .. }, Event::Done) => lemma_begin_contents_is_sound(s),
        (Phase::DirFs { st_dev }, Event::Fs { magic, flags }) => {
            lemma_begin_contents_is_sound(
                State { fs_magic: magic, fs_feature_flags: flags, current_st_dev: st_dev, ..s },
            );
        },
        (Phase::Finish(error), Event::Done) => lemma_end_directory_is_sound(s, error),
        (Phase::EndDirectory(error), Event::Done) => lemma_end_directory_is_sound(s, error),
        (Phase::DirCatalog { .. }, _) => {},
        (_, Event::Failed(message)) => lemma_end_directory_is_sound(s, Some(outside(message@))),
        _ => {},
    }
}

/// A new archiver is sound, and every step leaves it sound: the open directories fit to what it
/// waits for, the number of entries is within the limit, and what is known of files with more
/// than one name is true.
///
/// What is once known of such a file stays, and another name in the archive leads to a file that
/// is in the archive, under the path and at the place where it was archived.
pub proof fn law_stays_sound(s: State, e: Event, order: Seq<FileView>)
    requires
        is_sound(s),
        accepts(s, e),
    ensures
        is_sound_step(s, step(s, e, order).0, step(s, e, order).1),
{
    match s.phase {
        Phase::SourceFs
        | Phase::SourceStat
        | Phase::SourceMetadata(_)
        | Phase::SourceEncoder(_)
        | Phase::FinishArchive => lemma_source_is_sound(s, e),
        Phase::Excludes | Phase::EntryStat { .. } => lemma_list_is_sound(s, e),
        Phase::Names => lemma_names_is_sound(s, e, order),
        Phase::Callback(_)
        | Phase::Open(_)
        | Phase::Metadata(_)
        | Phase::Catalog { .. }
        | Phase::Encode { .. }
        | Phase::File { .. } => lemma_entry_is_sound(s, e),
        Phase::DirCatalog { .. }
        | Phase::DirEncode { .. }
        | Phase::DirFs { .. }
        | Phase::Finish(_)
        | Phase::EndDirectory(_) => lemma_directory_is_sound(s, e),
        Phase::Finished => {},
    }
}

/// A new archiver is sound, and holds no entries.
pub proof fn law_starts_sound(
    patterns: Seq<EntryView>,
    feature_flags: Flags,
    device_set: Option<Set<u64>>,
    skip_lost_and_found: bool,
    entry_limit: usize,
    has_catalog: bool,
)
    ensures
        ({
            let s = initial(
                patterns,
                feature_flags,
                device_set,
                skip_lost_and_found,
                entry_limit,
                has_catalog,
            );
            is_sound(s) && comes_in_order(s) && is_counted(s) && starts_empty(s)
        }),
{
}

// ---------------------------------------------------------------------------------------------
// Directories
// ---------------------------------------------------------------------------------------------

/// Whether the settings of an archive are the same in both states.
pub open spec fn same_settings(a: State, b: State) -> bool {
    &&& a.feature_flags == b.feature_flags
    &&& a.has_catalog == b.has_catalog
    &&& a.skip_lost_and_found == b.skip_lost_and_found
    &&& a.entry_limit == b.entry_limit
    &&& a.device_set == b.device_set
}

/// Whether the frame of a directory that was entered from `base` holds what the archiver needs to
/// go on as if it had not been there, and the directories inside it do not touch that.
pub open spec fn is_kept_in(base: State, s: State) -> bool {
    let n = base.stack.len() as int;
    &&& n >= 1
    &&& s.stack.len() > n
    &&& same_settings(base, s)
    &&& base.listed.len() == 0
    &&& forall|i: int| 0 <= i < n ==> #[trigger] s.stack[i] == base.stack[i]
    &&& s.stack[n].outer_magic == base.fs_magic
    &&& s.stack[n].outer_flags == base.fs_feature_flags
    &&& s.stack[n].outer_dev == base.current_st_dev
    &&& s.stack[n].saved_counter == base.entry_counter
    &&& s.stack[n].saved_patterns == base.patterns.len()
    &&& s.stack[n].saved_path == base.path
    &&& base.patterns.is_prefix_of(s.patterns)
    &&& forall|i: int| n < i < s.stack.len() ==> (#[trigger] s.stack[i]).saved_patterns >= base.patterns.len()
}

/// Whether the archiver is where it was, but for what it waits for, for the open directories and
/// for what it has learnt.
pub open spec fn is_back_at(base: State, s: State) -> bool {
    &&& s.path == base.path
    &&& s.entry_counter == base.entry_counter
    &&& s.patterns == base.patterns
    &&& s.fs_magic == base.fs_magic
    &&& s.fs_feature_flags == base.fs_feature_flags
    &&& s.current_st_dev == base.current_st_dev
    &&& s.listed == base.listed
}

/// Whether the archiver is inside a directory that it entered from `base`, or in a directory below
/// that one, and no error came up.
pub open spec fn is_inside(base: State, s: State) -> bool {
    let is_innermost = s.stack.len() == base.stack.len() + 1;
    &&& is_kept_in(base, s)
    &&& is_well_formed(s)
    &&& !is_over(s)
    &&& lists_nothing(s)
    &&& is_innermost ==> match s.phase {
        Phase::DirEncode { .. } | Phase::DirFs { .. } | Phase::Finish(_) | Phase::EndDirectory(_) => {
            is_back_at(base, s)
        },
        Phase::Excludes => {
            s.path == base.path && s.entry_counter == base.entry_counter && s.patterns == base.patterns
        },
        Phase::Names | Phase::EntryStat { .. } => s.path == base.path,
        _ => true,
    }
}

/// The state in which the archiver goes on after a directory that it entered from `base`: it has
/// learnt of files with more than one name, and of things to report, and all else is as it was.
pub open spec fn resumed(base: State, s: State) -> State {
    State { hardlinks: s.hardlinks, warnings: s.warnings, ..base }
}

proof fn lemma_inside_next_entry(base: State, s: State)
    requires
        is_kept_in(base, s),
        s.listed.len() == 0,
    ensures
        is_inside(base, next_entry(s).0),
{
    reveal(next_entry);
    let n = base.stack.len() as int;
    let t = next_entry(s).0;
    assert(s.stack.last() == s.stack[s.stack.len() - 1]);
    assert(s.listed =~= base.listed);
    if s.stack.last().queue.len() == 0 {
        assert(t.stack == s.stack);
        assert(base.patterns.is_prefix_of(t.patterns));
        if s.stack.len() == n + 1 {
            assert(t.patterns =~= base.patterns);
        }
    }
}

/// Entering a directory keeps in its frame what is needed to leave it again.
pub proof fn law_directory_is_entered(base: State, e: Event, order: Seq<FileView>)
    requires
        is_well_formed(base),
        base.listed.len() == 0,
        accepts(base, e),
        step(base, e, order).1 matches Action::Encode(op) && op is Directory,
    ensures
        is_inside(base, step(base, e, order).0),
{
    reveal(step_directory);
    reveal(step_entry);
    reveal(step_list);
    reveal(step_names);
    reveal(step_source);
    reveal(next_entry);
    reveal(add_entry);
}

/// Where the archiver goes on after a directory that it entered from `base`, or gives up.
pub open spec fn stays_or_resumes(base: State, s: State, t: (State, ActionView)) -> bool {
    is_inside(base, t.0) || is_over(t.0) || t == next_entry(resumed(base, s))
}

proof fn lemma_inside_list(base: State, s: State, e: Event)
    requires
        is_inside(base, s),
        accepts(s, e),
        s.phase is Excludes || s.phase is EntryStat,
    ensures
        stays_or_resumes(base, s, step_list(s, e)),
{
    reveal(step_list);
    if let Event::Lines { .. } = e {
        let t = step_list(s, e).0;
        assert(t.stack == s.stack);
        assert(base.patterns.is_prefix_of(t.patterns));
    }
}

proof fn lemma_inside_names(base: State, s: State, e: Event, order: Seq<FileView>)
    requires
        is_inside(base, s),
        accepts(s, e),
        s.phase is Names,
    ensures
        stays_or_resumes(base, s, step_names(s, e, order)),
{
    reveal(step_names);
    if e is Missing {
        let frame = FrameView { saved_path: s.path, queue: order, ..s.stack.last() };
        let t = State { path: Seq::empty(), listed: Seq::empty(), ..s }.with_top(frame);
        assert(s.stack.last() == s.stack[s.stack.len() - 1]);
        lemma_inside_next_entry(base, t);
    }
}

proof fn lemma_inside_entry(base: State, s: State, e: Event)
    requires
        is_inside(base, s),
        accepts(s, e),
        s.phase is Callback || s.phase is Open || s.phase is Metadata || s.phase is Catalog
            || s.phase is Encode || s.phase is File,
    ensures
        stays_or_resumes(base, s, step_entry(s, e)),
{
    reveal(step_entry);
    lemma_inside_next_entry(base, s);
    match (s.phase, e) {
        (Phase::Metadata(entry), Event::Facts(_)) => {
            reveal(add_entry);
        },
        (Phase::File { link }, Event::Offset(offset)) => {
            if let Some(id) = link {
                let t = State {
                    hardlinks: s.hardlinks.insert(id, LinkView { path: s.path, offset }),
                    ..s
                };
                lemma_inside_next_entry(base, t);
            }
        },
        _ => {},
    }
}

proof fn lemma_inside_done(base: State, s: State)
    requires
        is_inside(base, s),
        s.phase is Finish || s.phase is EndDirectory,
    ensures
        stays_or_resumes(base, s, directory_done(s, None)),
{
    let outer = State { stack: s.stack.drop_last(), ..s };
    if s.stack.len() == base.stack.len() + 1 {
        assert(outer.stack =~= base.stack);
        assert(outer.waiting(base.phase) == resumed(base, s));
        crate::plan::lemma_phase_is_past(outer, base.phase);
    } else {
        lemma_inside_next_entry(base, outer);
    }
}

proof fn lemma_inside_directory(base: State, s: State, e: Event)
    requires
        is_inside(base, s),
        accepts(s, e),
        s.phase is DirCatalog || s.phase is DirEncode || s.phase is DirFs || s.phase is Finish
            || s.phase is EndDirectory,
    ensures
        stays_or_resumes(base, s, step_directory(s, e)),
{
    reveal(step_directory);
    assert(s.stack.last() == s.stack[s.stack.len() - 1]);
    match (s.phase, e) {
        (Phase::Finish(_), Event::Done) => lemma_inside_done(base, s),
        (Phase::EndDirectory(_), Event::Done) => lemma_inside_done(base, s),
        _ => {},
    }
}

/// Whatever is reported while a directory is archived: either the archiver stays inside the
/// directory, or an error ends the archive, or it goes on with the entry after the directory
/// exactly as if the directory had not been there, but for what it has learnt of files with more
/// than one name and of things to report. Path, number of entries, patterns, file system and
/// device are those from before.
pub proof fn law_directory_is_left_as_found(base: State, s: State, e: Event, order: Seq<FileView>)
    requires
        is_inside(base, s),
        accepts(s, e),
    ensures
        stays_or_resumes(base, s, step(s, e, order)),
{
    match s.phase {
        Phase::Excludes | Phase::EntryStat { .. } => lemma_inside_list(base, s, e),
        Phase::Names => lemma_inside_names(base, s, e, order),
        Phase::Callback(_)
        | Phase::Open(_)
        | Phase::Metadata(_)
        | Phase::Catalog { .. }
        | Phase::Encode { .. }
        | Phase::File { .. } => lemma_inside_entry(base, s, e),
        Phase::DirCatalog { .. }
        | Phase::DirEncode { .. }
        | Phase::DirFs { .. }
        | Phase::Finish(_)
        | Phase::EndDirectory(_) => lemma_inside_directory(base, s, e),
        _ => {},
    }
}

// ---------------------------------------------------------------------------------------------
// Whole runs
// ---------------------------------------------------------------------------------------------

/// The state after a number of steps: each with what is reported, and with the order of the
/// entries where a list ends.
pub open spec fn run(s: State, script: Seq<(Event, Seq<FileView>)>) -> State
    decreases script.len(),
{
    if script.len() == 0 {
        s
    } else {
        step(run(s, script.drop_last()), script.last().0, script.last().1).0
    }
}

/// Whether every report is one that the archiver waits for.
pub open spec fn is_run(s: State, script: Seq<(Event, Seq<FileView>)>) -> bool
    decreases script.len(),
{
    script.len() == 0 || {
        &&& is_run(s, script.drop_last())
        &&& accepts(run(s, script.drop_last()), script.last().0)
        &&& is_order(run(s, script.drop_last()), script.last().0, script.last().1)
    }
}

/// An archive is sound at every point of its making, never has more entries in its open
/// directories than allowed, and does not forget a file with more than one name.
pub proof fn law_run_is_sound(s: State, script: Seq<(Event, Seq<FileView>)>)
    requires
        is_sound(s),
        is_run(s, script),
    ensures
        is_sound(run(s, script)),
        s.hardlinks.submap_of(run(s, script).hardlinks),
    decreases script.len(),
{
    if script.len() > 0 {
        let before = run(s, script.drop_last());
        law_run_is_sound(s, script.drop_last());
        law_stays_sound(before, script.last().0, script.last().1);
        assert forall|id: (u64, u64)| s.hardlinks.dom().contains(id) implies {
            &&& #[trigger] run(s, script).hardlinks.dom().contains(id)
            &&& run(s, script).hardlinks[id] == s.hardlinks[id]
        } by {
            assert(before.hardlinks.dom().contains(id));
        }
    }
}

/// Whether the archiver has at least `n` open directories all the time.
pub open spec fn stays_at(s: State, script: Seq<(Event, Seq<FileView>)>, n: nat) -> bool
    decreases script.len(),
{
    run(s, script).stack.len() >= n && (script.len() > 0 ==> stays_at(s, script.drop_last(), n))
}

/// As long as a directory that was entered from `base` is open, the archiver is inside it, or an
/// error has ended the archive.
pub proof fn law_run_stays_inside(base: State, s: State, script: Seq<(Event, Seq<FileView>)>)
    requires
        is_inside(base, s),
        is_run(s, script),
        stays_at(s, script, base.stack.len() + 1),
    ensures
        is_inside(base, run(s, script)) || is_over(run(s, script)),
    decreases script.len(),
{
    if script.len() > 0 {
        law_run_stays_inside(base, s, script.drop_last());
        law_run_is_well_formed(s, script.drop_last());
        let before = run(s, script.drop_last());
        let (e, order) = script.last();
        if is_inside(base, before) {
            law_directory_is_left_as_found(base, before, e, order);
            lemma_next_entry_keeps_depth(resumed(base, before));
        } else {
            law_error_ends_the_archive(before, e, order);
        }
    }
}

/// The next entry leaves the number of open directories as it is.
proof fn lemma_next_entry_keeps_depth(s: State)
    requires
        s.stack.len() >= 1,
    ensures
        next_entry(s).0.stack.len() == s.stack.len(),
{
    reveal(next_entry);
}

/// At every point the open directories fit to what the archiver waits for.
pub proof fn law_run_is_well_formed(s: State, script: Seq<(Event, Seq<FileView>)>)
    requires
        is_well_formed(s),
        is_run(s, script),
    ensures
        is_well_formed(run(s, script)),
    decreases script.len(),
{
    if script.len() > 0 {
        law_run_is_well_formed(s, script.drop_last());
        law_stays_well_formed(run(s, script.drop_last()), script.last().0, script.last().1);
    }
}

// ---------------------------------------------------------------------------------------------
// Metadata
// ---------------------------------------------------------------------------------------------

/// The metadata that goes into the archive, or to the catalog first, with something.
pub open spec fn carried_metadata(op: EncodeView) -> Option<MetadataView> {
    match op {
        EncodeOp::NewArchive(metadata) => Some(metadata),
        EncodeOp::Content { metadata, .. } => Some(metadata),
        EncodeOp::File { metadata, .. } => Some(metadata),
        EncodeOp::Directory { metadata, .. } => Some(metadata),
        EncodeOp::Socket { metadata, .. } => Some(metadata),
        EncodeOp::Fifo { metadata, .. } => Some(metadata),
        EncodeOp::Symlink { metadata, .. } => Some(metadata),
        EncodeOp::Device { metadata, .. } => Some(metadata),
        EncodeOp::Hardlink { .. } | EncodeOp::Finish => None,
    }
}

/// Whether what the archiver writes next, or waits to write, carries the metadata `metadata`, if it
/// carries any.
pub open spec fn writes_with(next: (State, ActionView), metadata: MetadataView) -> bool {
    &&& next.1 matches Action::Encode(op) ==> (carried_metadata(op) is Some ==> carried_metadata(op)
        == Some(metadata))
    &&& next.0.phase matches Phase::Catalog { next: op, .. } ==> (carried_metadata(op) is Some
        ==> carried_metadata(op) == Some(metadata))
    &&& next.0.phase matches Phase::DirCatalog { metadata: m, .. } ==> m == metadata
}

/// An entry is archived with the metadata of its own facts, under the features and the file system
/// that count for it; and if they cannot be put together, the entry fails with the reason.
pub proof fn law_entry_has_its_metadata(s: State, entry: FileView, facts: FileFacts, order: Seq<FileView>)
    requires
        is_well_formed(s),
        s.phase == (Phase::<Seq<u8>, FileView, MetadataView, ErrorView>::Metadata(entry)),
        !is_excluded(s.patterns, s.path, entry.stat.st_mode),
    ensures
        match metadata_of(entry.stat, s.flags(), s.fs_magic, facts) {
            Ok(metadata) => writes_with(step(s, Event::Facts(facts), order), metadata),
            Err(error) => step(s, Event::Facts(facts), order) == fail_entry(
                s,
                ErrorView::Plain(FailureView::Outside(error.text())),
            ),
        },
{
    reveal(step_entry);
    reveal(add_entry);
}

// ---------------------------------------------------------------------------------------------
// What is left out
// ---------------------------------------------------------------------------------------------

/// A file that the patterns leave out does not get into the list of its directory, and does not
/// get into the archive even if it did get into the list.
pub proof fn law_excluded_is_left_out(
    s: State,
    name: Seq<u8>,
    path: Seq<u8>,
    stat: FileStat,
    entry: FileView,
    metadata: MetadataView,
)
    ensures
        is_excluded(s.patterns, path, stat.st_mode) ==> list_entry(s, name, path, stat) == (
            s.waiting(Phase::Names),
            ActionView::NextName,
        ),
        is_excluded(s.patterns, s.path, entry.stat.st_mode) ==> add_entry(s, entry, metadata)
            == next_entry(s),
{
    reveal(add_entry);
}

/// A virtual file system is not archived: as the source it is refused, and a directory on one gets
/// into the archive without its contents.
pub proof fn law_virtual_file_system_is_left_out(s: State, magic: i64, flags: Flags, order: Seq<FileView>)
    requires
        is_well_formed(s),
        virtual_magics().contains(magic),
    ensures
        s.phase is SourceFs ==> step(s, Event::Fs { magic, flags }, order).1 == ActionView::Finished(
            Err(ErrorView::Plain(FailureView::VirtualFileSystem)),
        ),
        s.phase is DirFs ==> {
            let t = step(s, Event::Fs { magic, flags }, order);
            t.0.phase == (Phase::<Seq<u8>, FileView, MetadataView, ErrorView>::Finish(None)) && t.1
                == ActionView::Encode(EncodeOp::Finish)
        },
{
    reveal(step_source);
    reveal(step_directory);
}

/// A directory on a device that is not asked for gets into the archive without its contents.
pub proof fn law_other_device_is_left_out(
    s: State,
    devices: Set<u64>,
    st_dev: u64,
    magic: i64,
    flags: Flags,
    order: Seq<FileView>,
)
    requires
        is_well_formed(s),
        s.phase == (Phase::<Seq<u8>, FileView, MetadataView, ErrorView>::DirFs { st_dev }),
        s.device_set == Some(devices),
        !devices.contains(st_dev),
    ensures
        step(s, Event::Fs { magic, flags }, order).0.phase == (Phase::<
            Seq<u8>,
            FileView,
            MetadataView,
            ErrorView,
        >::Finish(None)),
        step(s, Event::Fs { magic, flags }, order).1 == ActionView::Encode(EncodeOp::Finish),
{
    reveal(step_directory);
}

/// The settings of an archive stay as they are, but that the device of the source directory is
/// counted among the devices that are entered before anything is archived.
pub proof fn law_settings_stay(s: State, e: Event, order: Seq<FileView>)
    requires
        is_well_formed(s),
        accepts(s, e),
    ensures
        ({
            let t = step(s, e, order).0;
            &&& t.feature_flags == s.feature_flags
            &&& t.has_catalog == s.has_catalog
            &&& t.skip_lost_and_found == s.skip_lost_and_found
            &&& t.entry_limit == s.entry_limit
            &&& t.device_set == match (s.phase, e, s.device_set) {
                (Phase::SourceMetadata(stat), Event::Facts(facts), Some(set)) => if metadata_of(
                    stat,
                    s.flags(),
                    s.fs_magic,
                    facts,
                ) is Ok {
                    Some(set.insert(stat.st_dev))
                } else {
                    s.device_set
                },
                _ => s.device_set,
            }
        }),
{
    match s.phase {
        Phase::Names => {
            reveal(step_names);
            reveal(next_entry);
        },
        Phase::Excludes | Phase::EntryStat { .. } => {
            reveal(step_list);
        },
        Phase::Metadata(entry) => {
            reveal(step_entry);
            if let Event::Facts(facts) = e {
                if let Ok(metadata) = metadata_of(entry.stat, s.flags(), s.fs_magic, facts) {
                    assert(same_settings(s, add_entry(s, entry, metadata).0)) by {
                        reveal(add_entry);
                        reveal(next_entry);
                    }
                }
            }
        },
        Phase::Callback(_)
        | Phase::Open(_)
        | Phase::Catalog { .. }
        | Phase::Encode { .. }
        | Phase::File { .. } => {
            reveal(step_entry);
            reveal(next_entry);
        },
        Phase::DirCatalog { .. }
        | Phase::DirEncode { .. }
        | Phase::DirFs { .. }
        | Phase::Finish(_)
        | Phase::EndDirectory(_) => {
            reveal(step_directory);
            reveal(next_entry);
        },
        _ => {
            reveal(step_source);
        },
    }
}

// ---------------------------------------------------------------------------------------------
// The order of the entries
// ---------------------------------------------------------------------------------------------

/// Whether the entries of all open directories are to be archived in the order of their names.
pub open spec fn comes_in_order(s: State) -> bool {
    forall|i: int| 0 <= i < s.stack.len() ==> is_sorted_by_name((#[trigger] s.stack[i]).queue)
}

/// Whether the entry that is announced comes before all entries of its directory that are left.
pub open spec fn announces_first(s: State) -> bool {
    s.phase matches Phase::Callback(entry) ==> forall|i: int|
        0 <= i < s.stack.last().queue.len() ==> bytes_le(entry.name, (#[trigger] s.stack.last().queue[i]).name)
}

proof fn lemma_next_entry_in_order(s: State)
    requires
        s.stack.len() >= 1,
        comes_in_order(s),
    ensures
        comes_in_order(next_entry(s).0),
        announces_first(next_entry(s).0),
{
    reveal(next_entry);
    let t = next_entry(s).0;
    let last = s.stack.len() - 1;
    let queue = s.stack[last].queue;
    assert(is_sorted_by_name(queue));
    assert forall|i: int| 0 <= i < t.stack.len() implies is_sorted_by_name((#[trigger] t.stack[i]).queue) by {
        assert(is_sorted_by_name(s.stack[i].queue));
    }
}

proof fn lemma_add_entry_in_order(s: State, entry: FileView, metadata: MetadataView)
    requires
        s.stack.len() >= 1,
        comes_in_order(s),
    ensures
        comes_in_order(add_entry(s, entry, metadata).0),
        announces_first(add_entry(s, entry, metadata).0),
{
    reveal(add_entry);
    lemma_next_entry_in_order(s);
}

/// The entries of a directory are announced in the order of their names.
pub proof fn law_entries_come_in_order(s: State, e: Event, order: Seq<FileView>)
    requires
        is_well_formed(s),
        comes_in_order(s),
        accepts(s, e),
        is_order(s, e, order),
    ensures
        comes_in_order(step(s, e, order).0),
        announces_first(step(s, e, order).0),
{
    match s.phase {
        Phase::Names => {
            reveal(step_names);
            let frame = FrameView { saved_path: s.path, queue: order, ..s.stack.last() };
            if e is Missing {
                lemma_next_entry_in_order(
                    State { path: Seq::empty(), listed: Seq::empty(), ..s }.with_top(frame),
                );
            }
        },
        Phase::Excludes | Phase::EntryStat { .. } => {
            reveal(step_list);
        },
        Phase::Metadata(entry) => {
            reveal(step_entry);
            if let Event::Facts(facts) = e {
                if let Ok(metadata) = metadata_of(entry.stat, s.flags(), s.fs_magic, facts) {
                    lemma_add_entry_in_order(s, entry, metadata);
                }
            }
        },
        Phase::File { link } => {
            reveal(step_entry);
            if let Event::Offset(offset) = e {
                if let Some(id) = link {
                    lemma_next_entry_in_order(
                        State {
                            hardlinks: s.hardlinks.insert(id, LinkView { path: s.path, offset }),
                            ..s
                        },
                    );
                }
            }
            lemma_next_entry_in_order(s);
        },
        Phase::Callback(_) | Phase::Open(_) | Phase::Catalog { .. } | Phase::Encode { .. } => {
            reveal(step_entry);
            lemma_next_entry_in_order(s);
        },
        Phase::DirCatalog { .. }
        | Phase::DirEncode { .. }
        | Phase::DirFs { .. }
        | Phase::Finish(_)
        | Phase::EndDirectory(_) => {
            reveal(step_directory);
            assert(s.stack.last() == s.stack[s.stack.len() - 1]);
            if s.stack.len() >= 2 {
                lemma_next_entry_in_order(State { stack: s.stack.drop_last(), ..s });
            }
        },
        _ => {
            reveal(step_source);
        },
    }
}

// ---------------------------------------------------------------------------------------------
// The nesting of directories
// ---------------------------------------------------------------------------------------------

/// A directory is opened by writing it to the archive, and with a catalog only after it was
/// started there. It is closed again after the write failed, after its file system could not be
/// found, or after it was ended in the archive; and with a catalog only after it was ended there.
pub proof fn law_directories_nest(s: State, e: Event, order: Seq<FileView>)
    requires
        is_well_formed(s),
        accepts(s, e),
        s.stack.len() >= 1,
    ensures
        ({
            let (t, action) = step(s, e, order);
            &&& t.stack.len() == s.stack.len() + 1 <==> (action matches Action::Encode(op) && op is Directory)
            &&& t.stack.len() == s.stack.len() + 1 && s.has_catalog ==> s.phase is DirCatalog && e is Done
            &&& t.stack.len() == s.stack.len() - 1 ==> if s.has_catalog {
                s.phase is EndDirectory
            } else {
                s.phase is EndDirectory || s.phase is Finish || (e is Failed && (s.phase is DirEncode
                    || s.phase is DirFs))
            }
            &&& s.stack.len() - 1 <= t.stack.len() <= s.stack.len() + 1
            &&& forall|i: int|
                0 <= i < s.stack.len() - 1 && i < t.stack.len() - 1 ==> #[trigger] t.stack[i] == s.stack[i]
        }),
{
    match s.phase {
        Phase::Names => {
            reveal(step_names);
            reveal(next_entry);
        },
        Phase::Excludes | Phase::EntryStat { .. } => {
            reveal(step_list);
        },
        Phase::Metadata(entry) => {
            reveal(step_entry);
            reveal(add_entry);
            reveal(next_entry);
        },
        Phase::Callback(_)
        | Phase::Open(_)
        | Phase::Catalog { .. }
        | Phase::Encode { .. }
        | Phase::File { .. } => {
            reveal(step_entry);
            reveal(next_entry);
        },
        Phase::DirCatalog { .. }
        | Phase::DirEncode { .. }
        | Phase::DirFs { .. }
        | Phase::Finish(_)
        | Phase::EndDirectory(_) => {
            reveal(step_directory);
            reveal(next_entry);
        },
        _ => {
            reveal(step_source);
        },
    }
}

// ---------------------------------------------------------------------------------------------
// The entry limit
// ---------------------------------------------------------------------------------------------

/// The source directory may list one entry that is not counted: the file that records the exclude
/// patterns.
pub open spec fn uncounted(i: int) -> int {
    if i == 0 {
        1
    } else {
        0
    }
}

/// Whether each open directory holds no more entries than were counted for it.
pub open spec fn is_counted(s: State) -> bool {
    let last = s.stack.len() - 1;
    &&& forall|i: int|
        0 <= i < last ==> (#[trigger] s.stack[i]).queue.len() <= s.stack[i + 1].saved_counter
            - s.stack[i].saved_counter + uncounted(i)
    &&& last >= 0 ==> s.stack[last].queue.len() + s.listed.len() <= s.entry_counter
        - s.stack[last].saved_counter + uncounted(last)
    &&& last < 0 ==> s.listed.len() == 0
    &&& match s.phase {
        Phase::Finish(_) | Phase::EndDirectory(_) | Phase::DirEncode { .. } | Phase::DirFs { .. } => {
            last >= 0 ==> s.entry_counter == s.stack[last].saved_counter
        },
        Phase::Excludes => {
            last >= 0 ==> s.entry_counter == s.stack[last].saved_counter && s.stack[last].queue.len()
                == 0 && s.listed.len() == 0
        },
        Phase::Names | Phase::EntryStat { .. } => last >= 0 ==> s.stack[last].queue.len() == 0,
        _ => true,
    }
}

/// The number of entries in the first `n` open directories.
pub open spec fn held(stack: Seq<FrameView>, n: int) -> int
    decreases n,
{
    if n <= 0 {
        0
    } else {
        held(stack, n - 1) + stack[n - 1].queue.len()
    }
}

proof fn lemma_held(s: State, n: int)
    requires
        is_counted(s),
        0 < n < s.stack.len(),
    ensures
        held(s.stack, n) <= s.stack[n].saved_counter - s.stack[0].saved_counter + 1,
    decreases n,
{
    assert(s.stack[n - 1].queue.len() <= s.stack[n].saved_counter - s.stack[n - 1].saved_counter
        + uncounted(n - 1));
    if n > 1 {
        lemma_held(s, n - 1);
    } else {
        assert(held(s.stack, 0) == 0);
    }
}

/// An archiver never holds more entries than the limit allows, but for the one that is not counted.
pub proof fn law_limit_bounds_the_entries(s: State)
    requires
        is_counted(s),
        is_within_limit(s),
    ensures
        held(s.stack, s.stack.len() as int) + s.listed.len() <= s.entry_limit + 1,
{
    let last = s.stack.len() - 1;
    if last > 0 {
        lemma_held(s, last);
    } else if last == 0 {
        assert(held(s.stack, 0) == 0);
    }
}

proof fn lemma_next_entry_is_counted(s: State)
    requires
        s.stack.len() >= 1,
        is_counted(s.waiting(Phase::Finished)),
        s.listed.len() == 0,
    ensures
        is_counted(next_entry(s).0) || is_over(next_entry(s).0),
{
    reveal(next_entry);
    let t = next_entry(s).0;
    let last = s.stack.len() - 1;
    assert(s.stack.last() == s.stack[last]);
    assert forall|i: int| 0 <= i < last implies (#[trigger] t.stack[i]).queue.len() <= t.stack[i
        + 1].saved_counter - t.stack[i].saved_counter + uncounted(i) by {
        assert(s.stack[i].queue.len() <= s.stack[i + 1].saved_counter - s.stack[i].saved_counter
            + uncounted(i));
    }
}

proof fn lemma_push_is_counted(s: State, name: Seq<u8>, metadata: MetadataView, st_dev: u64)
    requires
        is_counted(s),
        s.listed.len() == 0,
    ensures
        is_counted(start_directory(s, name, metadata, st_dev).0),
{
    let t = start_directory(s, name, metadata, st_dev).0;
    let last = s.stack.len() - 1;
    assert forall|i: int| 0 <= i <= last implies (#[trigger] t.stack[i]).queue.len() <= t.stack[i
        + 1].saved_counter - t.stack[i].saved_counter + uncounted(i) by {
        if i < last {
            assert(s.stack[i].queue.len() <= s.stack[i + 1].saved_counter - s.stack[i].saved_counter
                + uncounted(i));
        }
    }
}

proof fn lemma_begin_is_counted(s: State)
    requires
        s.stack.len() >= 1,
        is_counted(s),
        s.listed.len() == 0,
        s.stack.last().queue.len() == 0,
        s.entry_counter == s.stack.last().saved_counter,
    ensures
        is_counted(begin_contents(s).0),
{
    let t = begin_contents(s).0;
    let last = s.stack.len() - 1;
    assert forall|i: int| 0 <= i < last implies (#[trigger] t.stack[i]).queue.len() <= t.stack[i
        + 1].saved_counter - t.stack[i].saved_counter + uncounted(i) by {
        assert(s.stack[i].queue.len() <= s.stack[i + 1].saved_counter - s.stack[i].saved_counter
            + uncounted(i));
    }
}

proof fn lemma_done_is_counted(s: State)
    requires
        s.stack.len() >= 2,
        is_counted(s),
        s.listed.len() == 0,
        s.entry_counter == s.stack.last().saved_counter,
    ensures
        is_counted(directory_done(s, None).0) || is_over(directory_done(s, None).0),
{
    let outer = State { stack: s.stack.drop_last(), ..s };
    let last = outer.stack.len() - 1;
    assert(s.stack[last].queue.len() <= s.stack[last + 1].saved_counter - s.stack[last].saved_counter
        + uncounted(last));
    assert forall|i: int| 0 <= i < last implies (#[trigger] outer.stack[i]).queue.len() <= outer.stack[i
        + 1].saved_counter - outer.stack[i].saved_counter + uncounted(i) by {
        assert(s.stack[i].queue.len() <= s.stack[i + 1].saved_counter - s.stack[i].saved_counter
            + uncounted(i));
    }
    lemma_next_entry_is_counted(outer);
}

/// Whether an archiver that waits for a directory to start has no entries of it.
pub open spec fn starts_empty(s: State) -> bool {
    s.phase is DirEncode || s.phase is DirFs ==> s.stack.last().queue.len() == 0
}

/// In every step each open directory goes on to hold no more entries than were counted for it,
/// unless an error has ended the archive.
pub proof fn law_stays_counted(s: State, e: Event, order: Seq<FileView>)
    requires
        is_sound(s),
        is_counted(s),
        starts_empty(s),
        !is_over(s),
        accepts(s, e),
        is_order(s, e, order),
    ensures
        ({
            let t = step(s, e, order).0;
            is_over(t) || is_counted(t) && starts_empty(t)
        }),
{
    let last = s.stack.len() - 1;
    match s.phase {
        Phase::Names => {
            reveal(step_names);
            if e is Missing {
                let frame = FrameView { saved_path: s.path, queue: order, ..s.stack.last() };
                let t = State { path: Seq::empty(), listed: Seq::empty(), ..s }.with_top(frame);
                vstd::seq_lib::to_multiset_len(order);
                vstd::seq_lib::to_multiset_len(s.listed);
                assert forall|i: int| 0 <= i < last implies (#[trigger] t.stack[i]).queue.len()
                    <= t.stack[i + 1].saved_counter - t.stack[i].saved_counter + uncounted(i) by {
                    assert(s.stack[i].queue.len() <= s.stack[i + 1].saved_counter
                        - s.stack[i].saved_counter + uncounted(i));
                }
                lemma_next_entry_is_counted(t);
                lemma_next_entry_waits(t);
            }
        },
        Phase::Excludes | Phase::EntryStat { .. } => {
            reveal(step_list);
        },
        Phase::Metadata(entry) => {
            reveal(step_entry);
            reveal(add_entry);
            lemma_next_entry_is_counted(s);
            lemma_next_entry_waits(s);
            if let Event::Facts(facts) = e {
                if let Ok(metadata) = metadata_of(entry.stat, s.flags(), s.fs_magic, facts) {
                    lemma_push_is_counted(s, entry.name, metadata, entry.stat.st_dev);
                }
            }
        },
        Phase::File { link } => {
            reveal(step_entry);
            if let Event::Offset(offset) = e {
                if let Some(id) = link {
                    let t = State {
                        hardlinks: s.hardlinks.insert(id, LinkView { path: s.path, offset }),
                        ..s
                    };
                    lemma_next_entry_is_counted(t);
                    lemma_next_entry_waits(t);
                }
            }
            lemma_next_entry_is_counted(s);
            lemma_next_entry_waits(s);
        },
        Phase::Callback(_) | Phase::Open(_) | Phase::Catalog { .. } | Phase::Encode { .. } => {
            reveal(step_entry);
            lemma_next_entry_is_counted(s);
            lemma_next_entry_waits(s);
        },
        Phase::DirCatalog { name, metadata, st_dev } => {
            reveal(step_directory);
            lemma_push_is_counted(s, name, metadata, st_dev);
        },
        Phase::DirEncode { .. } => {
            reveal(step_directory);
            lemma_begin_is_counted(s);
        },
        Phase::DirFs { st_dev } => {
            reveal(step_directory);
            if let Event::Fs { magic, flags } = e {
                lemma_begin_is_counted(
                    State { fs_magic: magic, fs_feature_flags: flags, current_st_dev: st_dev, ..s },
                );
            }
        },
        Phase::Finish(_) | Phase::EndDirectory(_) => {
            reveal(step_directory);
            lemma_done_is_counted(s);
            lemma_next_entry_waits(State { stack: s.stack.drop_last(), ..s });
        },
        _ => {
            reveal(step_source);
        },
    }
}

/// The next entry does not start a directory at once.
proof fn lemma_next_entry_waits(s: State)
    ensures
        starts_empty(next_entry(s).0),
{
    reveal(next_entry);
}

} // verus!
