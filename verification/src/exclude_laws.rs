//! What exclude patterns promise: which entries the lines of a `.pxarexclude` stand for, and which
//! files the entries of a pattern list leave out.

use vstd::prelude::*;
use vstd::string::*;

use crate::bytes::{is_space, is_stripped, lemma_stripped, stripped, SLASH};
use crate::excludes::{
    cli_line, exclude_entries, exclude_errors, excludes_cli, is_line_readable, line_entries, line_error,
};
use crate::patterns::{
    entry_matches, glob_error, glob_matches, glob_text, glob_unclosed, is_excluded, lemma_no_class,
    list_matches, named_class_len, parsed_entry, path_matches, pattern_matches, stands_at, starts_component,
    unclosed_class, unclosed_from, without_bang, without_slashes, EntryView, MatchType, PatternView,
};

verus! {

// ---------------------------------------------------------------------------------------------
// Lines
// ---------------------------------------------------------------------------------------------

/// Whether a byte string is all spaces, tabs, line feeds, form feeds and carriage returns.
pub open spec fn is_blank(s: Seq<u8>) -> bool {
    forall|k: int|
        0 <= k < s.len() ==> (#[trigger] s[k]) == 0x20 || s[k] == 0x09 || s[k] == 0x0a || s[k] == 0x0c || s[k]
            == 0x0d
}

/// Whether a byte string is all slashes.
pub open spec fn is_slashes(s: Seq<u8>) -> bool {
    forall|k: int| 0 <= k < s.len() ==> (#[trigger] s[k]) == 0x2f
}

/// Whether a byte string is not empty, and neither its first nor its last byte is white space.
pub open spec fn is_bare(s: Seq<u8>) -> bool {
    s.len() > 0 && !is_blank(seq![s[0]]) && !is_blank(seq![s[s.len() - 1]])
}

/// The white space around a line does not count.
pub proof fn law_line_is_stripped(before: Seq<u8>, text: Seq<u8>, after: Seq<u8>)
    requires
        is_blank(before),
        is_blank(after),
        text.len() == 0 || is_bare(text),
    ensures
        stripped(before + text + after) == text,
{
    let line = before + text + after;
    let from: int = before.len() as int;
    let to: int = from + text.len();
    assert forall|i: int| 0 <= i < from implies is_space(#[trigger] line[i]) by {
        assert(line[i] == before[i]);
    }
    assert forall|i: int| to <= i < line.len() implies is_space(#[trigger] line[i]) by {
        assert(line[i] == after[i - to]);
    }
    if text.len() > 0 {
        let first = text[0];
        let last = text[text.len() - 1];
        assert(line[from] == first);
        assert(line[to - 1] == last);
        if is_space(first) {
            assert(is_blank(seq![first]));
        }
        if is_space(last) {
            assert(is_blank(seq![last]));
        }
    }
    assert(is_stripped(line, from, to));
    lemma_stripped(line, from, to);
    assert(line.subrange(from, to) =~= text);
}

/// Slashes behind a text that does not end in one are all that is taken away.
proof fn lemma_slashes(core: Seq<u8>, slashes: Seq<u8>)
    requires
        core.len() > 0,
        core[core.len() - 1] != 0x2f,
        is_slashes(slashes),
    ensures
        without_slashes(core + slashes) == core,
    decreases slashes.len(),
{
    let s = core + slashes;
    if slashes.len() == 0 {
        assert(s =~= core);
    } else {
        assert(s.last() == slashes[slashes.len() - 1]);
        assert(s.drop_last() =~= core + slashes.drop_last());
        assert forall|k: int| 0 <= k < slashes.drop_last().len() implies (#[trigger] slashes.drop_last()[k])
            == 0x2f by {
            assert(slashes[k] == 0x2f);
        }
        lemma_slashes(core, slashes.drop_last());
    }
}

/// A pattern stands for itself, for files of any type; with slashes behind it, for directories only.
pub proof fn law_pattern_stands_for_itself(core: Seq<u8>, slashes: Seq<u8>, flags: u8, match_type: MatchType)
    requires
        core.len() > 0,
        core[0] != 0x21,
        core[core.len() - 1] != 0x2f,
        is_slashes(slashes),
    ensures
        glob_text(core + slashes) == core,
        parsed_entry(core + slashes, flags, match_type).pattern == (PatternView::Pattern { text: core, flags }),
        parsed_entry(core + slashes, flags, match_type).match_type == match_type,
        slashes.len() == 0 ==> parsed_entry(core + slashes, flags, match_type).flags == 0x7f00,
        slashes.len() > 0 ==> parsed_entry(core + slashes, flags, match_type).flags == 0x0100,
{
    let line = core + slashes;
    assert(line[0] == core[0]);
    lemma_slashes(core, slashes);
    if slashes.len() > 0 {
        assert(line.last() == slashes[slashes.len() - 1]);
    } else {
        assert(line.last() == core[core.len() - 1]);
    }
}

/// With a `!` before it, a pattern is the same pattern of the other type.
pub proof fn law_bang_inverts(core: Seq<u8>, slashes: Seq<u8>, flags: u8)
    requires
        core.len() > 0,
        core[core.len() - 1] != 0x2f,
        is_slashes(slashes),
    ensures
        glob_text(seq![0x21u8] + core + slashes) == core,
        parsed_entry(seq![0x21u8] + core + slashes, flags, MatchType::Exclude) == (EntryView {
            pattern: PatternView::Pattern { text: core, flags },
            match_type: MatchType::Include,
            flags: if slashes.len() == 0 {
                0x7f00
            } else {
                0x0100
            },
        }),
        parsed_entry(seq![0x21u8] + core + slashes, flags, MatchType::Include).match_type == MatchType::Exclude,
{
    let line = seq![0x21u8] + core + slashes;
    assert(line.skip(1) =~= core + slashes);
    lemma_slashes(core, slashes);
    let rest = core + slashes;
    if slashes.len() > 0 {
        assert(rest.last() == slashes[slashes.len() - 1]);
    } else {
        assert(rest.last() == core[core.len() - 1]);
    }
}

/// Nothing but slashes leaves nothing.
proof fn lemma_only_slashes(slashes: Seq<u8>)
    requires
        is_slashes(slashes),
    ensures
        without_slashes(slashes).len() == 0,
    decreases slashes.len(),
{
    if slashes.len() > 0 {
        assert(slashes[slashes.len() - 1] == 0x2f);
        assert forall|k: int| 0 <= k < slashes.drop_last().len() implies (#[trigger] slashes.drop_last()[k])
            == 0x2f by {
            assert(slashes[k] == 0x2f);
        }
        lemma_only_slashes(slashes.drop_last());
    }
}

/// A pattern of slashes, or of nothing, stands for one slash, for directories only; with a `!` before
/// it, for the same of the other type.
pub proof fn law_pattern_of_slashes(slashes: Seq<u8>, flags: u8, match_type: MatchType)
    requires
        is_slashes(slashes),
    ensures
        parsed_entry(slashes, flags, match_type) == (EntryView {
            pattern: PatternView::Pattern { text: seq![0x2fu8], flags },
            match_type,
            flags: 0x0100,
        }),
        parsed_entry(seq![0x21u8] + slashes, flags, match_type) == (EntryView {
            pattern: PatternView::Pattern { text: seq![0x2fu8], flags },
            match_type: if match_type is Exclude {
                MatchType::Include
            } else {
                MatchType::Exclude
            },
            flags: 0x0100,
        }),
{
    lemma_only_slashes(slashes);
    let line = seq![0x21u8] + slashes;
    assert(line.skip(1) =~= slashes);
    if slashes.len() > 0 {
        assert(slashes[0] == 0x2f);
        assert(slashes[slashes.len() - 1] == 0x2f);
    }
}

/// A line whose text starts with a slash is the pattern that this text is behind the path of the
/// directory, and excludes; one whose text starts with `!` and a slash is the pattern that the text
/// behind the `!` is there, and includes.
pub proof fn law_rooted_line_has_the_path_before_it(path: Seq<u8>, line: Seq<u8>)
    ensures
        stripped(line).len() > 0 && stripped(line)[0] == 0x2f ==> {
            &&& line_error(path, line) == glob_error(glob_text(path + stripped(line)), 2)
            &&& is_line_readable(path, line) <==> !glob_unclosed(glob_text(path + stripped(line)))
            &&& line_error(path, line) is None ==> line_entries(path, line) == seq![
                parsed_entry(path + stripped(line), 2, MatchType::Exclude),
            ]
            &&& line_error(path, line) is Some ==> line_entries(path, line).len() == 0
        },
        stripped(line).len() > 1 && stripped(line)[0] == 0x21 && stripped(line)[1] == 0x2f ==> {
            &&& line_error(path, line) == glob_error(glob_text(path + stripped(line).skip(1)), 2)
            &&& is_line_readable(path, line) <==> !glob_unclosed(glob_text(path + stripped(line).skip(1)))
            &&& line_error(path, line) is None ==> line_entries(path, line) == seq![
                parsed_entry(path + stripped(line).skip(1), 2, MatchType::Include),
            ]
            &&& line_error(path, line) is Some ==> line_entries(path, line).len() == 0
        },
{
}

/// A line whose text starts neither with a slash, nor with `!` and a slash, nor with `#` means the
/// same in every directory: the entry that the text itself stands for.
pub proof fn law_unrooted_line_ignores_the_path(path: Seq<u8>, other: Seq<u8>, line: Seq<u8>)
    requires
        stripped(line).len() > 0,
        stripped(line)[0] != 0x23,
        stripped(line)[0] != 0x2f,
        stripped(line)[0] != 0x21 || stripped(line).len() == 1 || stripped(line)[1] != 0x2f,
    ensures
        line_entries(path, line) == line_entries(other, line),
        line_error(path, line) == line_error(other, line),
        is_line_readable(path, line) == is_line_readable(other, line),
        line_error(path, line) == glob_error(glob_text(stripped(line)), 2),
        line_error(path, line) is None ==> line_entries(path, line) == seq![
            parsed_entry(stripped(line), 2, MatchType::Exclude),
        ],
        line_error(path, line) is Some ==> line_entries(path, line).len() == 0,
{
}

/// A line that starts neither with a slash nor with `#` nor with `!` is taken as it is written, in
/// every directory alike: it excludes, and the path of the directory is no part of it.
pub proof fn law_plain_line_is_taken_as_written(
    path: Seq<u8>,
    other: Seq<u8>,
    before: Seq<u8>,
    core: Seq<u8>,
    slashes: Seq<u8>,
    after: Seq<u8>,
)
    requires
        is_blank(before),
        is_blank(after),
        is_bare(core + slashes),
        core.len() > 0,
        core[0] != 0x23 && core[0] != 0x2f && core[0] != 0x21,
        core[core.len() - 1] != 0x2f,
        is_slashes(slashes),
    ensures
        line_entries(path, before + (core + slashes) + after) == line_entries(
            other,
            before + (core + slashes) + after,
        ),
        line_error(path, before + (core + slashes) + after) == glob_error(core, 2),
        glob_error(core, 2) is Some ==> line_entries(path, before + (core + slashes) + after).len() == 0,
        glob_error(core, 2) is None ==> line_entries(path, before + (core + slashes) + after) == seq![
            (EntryView {
                pattern: PatternView::Pattern { text: core, flags: 2 },
                match_type: MatchType::Exclude,
                flags: if slashes.len() == 0 {
                    0x7f00
                } else {
                    0x0100
                },
            }),
        ],
{
    law_line_is_stripped(before, core + slashes, after);
    law_pattern_stands_for_itself(core, slashes, 2, MatchType::Exclude);
    assert((core + slashes)[0] == core[0]);
}

/// A line that starts with `!` and no slash is the same in every directory, too: it keeps what a
/// line before it excludes.
pub proof fn law_inverted_line_is_taken_as_written(
    path: Seq<u8>,
    other: Seq<u8>,
    before: Seq<u8>,
    core: Seq<u8>,
    slashes: Seq<u8>,
    after: Seq<u8>,
)
    requires
        is_blank(before),
        is_blank(after),
        is_bare(seq![0x21u8] + core + slashes),
        core.len() > 0,
        core[0] != 0x2f,
        core[core.len() - 1] != 0x2f,
        is_slashes(slashes),
    ensures
        line_entries(path, before + (seq![0x21u8] + core + slashes) + after) == line_entries(
            other,
            before + (seq![0x21u8] + core + slashes) + after,
        ),
        line_error(path, before + (seq![0x21u8] + core + slashes) + after) == glob_error(core, 2),
        glob_error(core, 2) is None ==> line_entries(path, before + (seq![0x21u8] + core + slashes) + after)
            == seq![
            (EntryView {
                pattern: PatternView::Pattern { text: core, flags: 2 },
                match_type: MatchType::Include,
                flags: if slashes.len() == 0 {
                    0x7f00
                } else {
                    0x0100
                },
            }),
        ],
{
    let text = seq![0x21u8] + core + slashes;
    law_line_is_stripped(before, text, after);
    law_bang_inverts(core, slashes, 2);
    assert(text[0] == 0x21);
    assert(text[1] == core[0]);
}

/// A line that starts with a slash is meant from the directory on: it excludes what is at its place
/// below the path of the directory.
pub proof fn law_rooted_line_is_meant_from_the_directory(
    path: Seq<u8>,
    before: Seq<u8>,
    core: Seq<u8>,
    slashes: Seq<u8>,
    after: Seq<u8>,
)
    requires
        is_blank(before),
        is_blank(after),
        is_bare(core + slashes),
        core.len() > 0,
        core[0] == 0x2f,
        core[core.len() - 1] != 0x2f,
        is_slashes(slashes),
        path.len() > 0 ==> path[0] != 0x21,
    ensures
        line_error(path, before + (core + slashes) + after) == glob_error(path + core, 2),
        glob_error(path + core, 2) is Some ==> line_entries(path, before + (core + slashes) + after).len() == 0,
        glob_error(path + core, 2) is None ==> line_entries(path, before + (core + slashes) + after) == seq![
            (EntryView {
                pattern: PatternView::Pattern { text: path + core, flags: 2 },
                match_type: MatchType::Exclude,
                flags: if slashes.len() == 0 {
                    0x7f00
                } else {
                    0x0100
                },
            }),
        ],
{
    law_line_is_stripped(before, core + slashes, after);
    assert((core + slashes)[0] == core[0]);
    assert(path + (core + slashes) =~= (path + core) + slashes);
    assert((path + core)[0] != 0x21);
    assert((path + core)[(path + core).len() - 1] == core[core.len() - 1]);
    law_pattern_stands_for_itself(path + core, slashes, 2, MatchType::Exclude);
}

/// A line that starts with `!` and a slash keeps what is at its place below the path of the
/// directory.
pub proof fn law_inverted_rooted_line_is_meant_from_the_directory(
    path: Seq<u8>,
    before: Seq<u8>,
    core: Seq<u8>,
    slashes: Seq<u8>,
    after: Seq<u8>,
)
    requires
        is_blank(before),
        is_blank(after),
        is_bare(seq![0x21u8] + core + slashes),
        core.len() > 0,
        core[0] == 0x2f,
        core[core.len() - 1] != 0x2f,
        is_slashes(slashes),
        path.len() > 0 ==> path[0] != 0x21,
    ensures
        line_error(path, before + (seq![0x21u8] + core + slashes) + after) == glob_error(path + core, 2),
        glob_error(path + core, 2) is None ==> line_entries(
            path,
            before + (seq![0x21u8] + core + slashes) + after,
        ) == seq![
            (EntryView {
                pattern: PatternView::Pattern { text: path + core, flags: 2 },
                match_type: MatchType::Include,
                flags: if slashes.len() == 0 {
                    0x7f00
                } else {
                    0x0100
                },
            }),
        ],
{
    let text = seq![0x21u8] + core + slashes;
    law_line_is_stripped(before, text, after);
    assert(text[0] == 0x21);
    assert(text[1] == core[0]);
    assert(path + text.skip(1) =~= (path + core) + slashes);
    assert((path + core)[0] != 0x21);
    assert((path + core)[(path + core).len() - 1] == core[core.len() - 1]);
    law_pattern_stands_for_itself(path + core, slashes, 2, MatchType::Include);
}

/// Blank lines and comments add nothing, are never refused and can always be read.
pub proof fn law_comments_add_nothing(path: Seq<u8>, before: Seq<u8>, comment: Seq<u8>, after: Seq<u8>)
    requires
        is_blank(before),
        is_blank(after),
        comment.len() == 0 || (is_bare(comment) && comment[0] == 0x23),
    ensures
        line_entries(path, before + comment + after).len() == 0,
        line_error(path, before + comment + after) is None,
        is_line_readable(path, before + comment + after),
{
    law_line_is_stripped(before, comment, after);
}

/// Each line counts by itself, and the entries and messages of the lines come in their order.
pub proof fn law_lines_count_one_by_one(path: Seq<u8>, first: Seq<Seq<u8>>, line: Seq<u8>, rest: Seq<Seq<u8>>)
    ensures
        exclude_entries(path, first + seq![line] + rest) == exclude_entries(path, first) + line_entries(
            path,
            line,
        ) + exclude_entries(path, rest),
        exclude_errors(path, first + seq![line] + rest).len() == exclude_errors(path, first).len()
            + exclude_errors(path, rest).len() + if line_error(path, line) is Some {
            1int
        } else {
            0
        },
        line_error(path, line) matches Some(message) ==> exclude_errors(path, first + seq![line] + rest)[
            exclude_errors(path, first).len() as int
        ] == message,
    decreases rest.len(),
{
    let all = first + seq![line] + rest;
    if rest.len() == 0 {
        assert(all.drop_last() =~= first);
        assert(all.last() == line);
        assert(exclude_entries(path, all) =~= exclude_entries(path, first) + line_entries(path, line)
            + exclude_entries(path, rest));
    } else {
        assert(all.drop_last() =~= first + seq![line] + rest.drop_last());
        assert(all.last() == rest.last());
        law_lines_count_one_by_one(path, first, line, rest.drop_last());
        assert(exclude_entries(path, all) =~= exclude_entries(path, first) + line_entries(path, line)
            + exclude_entries(path, rest));
    }
}

/// A line that holds no `[` can be read in every directory whose path holds none.
pub proof fn law_lines_without_a_class_can_be_read(
    path: Seq<u8>,
    before: Seq<u8>,
    text: Seq<u8>,
    after: Seq<u8>,
)
    requires
        is_blank(before),
        is_blank(after),
        is_bare(text),
        !path.contains(0x5b),
        !text.contains(0x5b),
    ensures
        is_line_readable(path, before + text + after),
{
    law_line_is_stripped(before, text, after);
    assert forall|k: int| 0 <= k < path.len() implies path[k] != 0x5b by {
        assert(path.contains(path[k]));
    }
    assert forall|k: int| 0 <= k < text.len() implies text[k] != 0x5b by {
        assert(text.contains(text[k]));
    }
    lemma_glob_has_no_class(text);
    lemma_glob_has_no_class(path + text);
    lemma_glob_has_no_class(path + text.skip(1));
}

/// The glob of a line without `[` is closed.
proof fn lemma_glob_has_no_class(line: Seq<u8>)
    requires
        forall|k: int| 0 <= k < line.len() ==> line[k] != 0x5b,
    ensures
        !glob_unclosed(glob_text(line)),
{
    lemma_without_slashes(without_bang(line));
    lemma_no_class(glob_text(line), 0);
}

/// Bytes that mean nothing outside a character class do not matter.
proof fn lemma_outside_a_class(text: Seq<u8>, i: int, n: int)
    requires
        0 <= i <= n <= text.len(),
        forall|k: int| i <= k < n ==> text[k] != 0x5b && text[k] != 0x5c,
    ensures
        unclosed_from(text, i) == unclosed_from(text, n),
    decreases n - i,
{
    if i < n {
        lemma_outside_a_class(text, i + 1, n);
    }
}

/// Bytes that mean nothing inside a character class do not matter.
proof fn lemma_inside_a_class(text: Seq<u8>, i: int, n: int, prev: bool)
    requires
        0 <= i < n <= text.len(),
        forall|k: int| i <= k < n ==> text[k] != 0x5b && text[k] != 0x5c && text[k] != 0x5d && text[k] != 0x2d,
    ensures
        unclosed_class(text, i, prev) == unclosed_class(text, n, true),
    decreases n - i,
{
    if i + 1 < n {
        lemma_inside_a_class(text, i + 1, n, true);
    }
}

/// A glob whose last character class has no `]` is not closed; with the `]` it is, whatever
/// follows without a further class.
pub proof fn law_class_is_closed_by_its_bracket(before: Seq<u8>, members: Seq<u8>, after: Seq<u8>)
    requires
        forall|k: int|
            0 <= k < before.len() ==> (#[trigger] before[k]) != 0 && before[k] != 0x5b && before[k] != 0x5c,
        members.len() > 0,
        members[0] != 0x5e,
        forall|k: int|
            0 <= k < members.len() ==> (#[trigger] members[k]) != 0 && members[k] != 0x5b && members[k] != 0x5c
                && members[k] != 0x5d && members[k] != 0x2d,
        forall|k: int|
            0 <= k < after.len() ==> (#[trigger] after[k]) != 0 && after[k] != 0x5b && after[k] != 0x5c,
    ensures
        glob_unclosed(before + seq![0x5bu8] + members),
        !glob_unclosed(before + seq![0x5bu8] + members + seq![0x5du8] + after),
{
    let open = before + seq![0x5bu8] + members;
    let closed = before + seq![0x5bu8] + members + seq![0x5du8] + after;
    let at: int = before.len() as int;
    let end: int = at + 1 + members.len();
    assert(forall|k: int| 0 <= k < at ==> open[k] == before[k] && closed[k] == before[k]);
    assert(forall|k: int| at < k < end ==> open[k] == members[k - at - 1] && closed[k] == members[k - at - 1]);
    assert(forall|k: int| end < k < closed.len() ==> closed[k] == after[k - end - 1]);
    assert(open[at] == 0x5b && closed[at] == 0x5b && closed[end] == 0x5d);
    assert(!open.contains(0)) by {
        if open.contains(0) {
            let k = choose|k: int| 0 <= k < open.len() && open[k] == 0;
            assert(k < at || k == at || k > at);
        }
    }
    lemma_outside_a_class(open, 0, at);
    lemma_inside_a_class(open, at + 1, end, false);
    lemma_outside_a_class(closed, 0, at);
    lemma_inside_a_class(closed, at + 1, end, false);
    lemma_outside_a_class(closed, end + 1, closed.len() as int);
}

/// A backslash takes away the meaning of the bracket behind it, outside of a character class and inside
/// of one.
pub proof fn law_escaped_bracket_is_no_bracket(before: Seq<u8>, members: Seq<u8>, after: Seq<u8>)
    requires
        forall|k: int|
            0 <= k < before.len() ==> (#[trigger] before[k]) != 0 && before[k] != 0x5b && before[k] != 0x5c,
        members.len() > 0,
        members[0] != 0x5e,
        forall|k: int|
            0 <= k < members.len() ==> (#[trigger] members[k]) != 0 && members[k] != 0x5b && members[k] != 0x5c
                && members[k] != 0x5d && members[k] != 0x2d,
        forall|k: int|
            0 <= k < after.len() ==> (#[trigger] after[k]) != 0 && after[k] != 0x5b && after[k] != 0x5c
                && after[k] != 0x5d && after[k] != 0x2d,
    ensures
        !glob_unclosed(before + seq![0x5cu8, 0x5b] + after),
        glob_unclosed(before + seq![0x5bu8] + members + seq![0x5cu8, 0x5d] + after),
{
    let open = before + seq![0x5bu8] + members + seq![0x5cu8, 0x5d] + after;
    let plain = before + seq![0x5cu8, 0x5b] + after;
    let at: int = before.len() as int;
    let end: int = at + 1 + members.len();
    assert(forall|k: int| 0 <= k < at ==> open[k] == before[k] && plain[k] == before[k]);
    assert(forall|k: int| at < k < end ==> open[k] == members[k - at - 1]);
    assert(forall|k: int| end + 2 <= k < open.len() ==> open[k] == after[k - end - 2]);
    assert(forall|k: int| at + 2 <= k < plain.len() ==> plain[k] == after[k - at - 2]);
    assert(open[at] == 0x5b && open[end] == 0x5c && open[end + 1] == 0x5d);
    assert(plain[at] == 0x5c && plain[at + 1] == 0x5b);
    assert(!open.contains(0)) by {
        if open.contains(0) {
            let k = choose|k: int| 0 <= k < open.len() && open[k] == 0;
            assert(k < at || k == at || at < k < end || k == end || k == end + 1 || k > end + 1);
        }
    }
    lemma_outside_a_class(plain, 0, at);
    lemma_outside_a_class(plain, at + 2, plain.len() as int);
    lemma_outside_a_class(open, 0, at);
    lemma_inside_a_class(open, at + 1, end, false);
    if after.len() > 0 {
        lemma_inside_a_class(open, end + 2, open.len() as int, true);
    }
    assert(unclosed_class(open, open.len() as int, true));
    assert(unclosed_class(open, end + 2, true));
    assert(unclosed_class(open, end, true));
    assert(unclosed_from(open, at));
}

/// Whether a byte string is the rest of a named class, behind its `[`.
pub open spec fn is_class_name(name: Seq<u8>) -> bool {
        ||| name == ":alnum:]".spec_bytes()
        ||| name == ":alpha:]".spec_bytes()
        ||| name == ":blank:]".spec_bytes()
        ||| name == ":cntrl:]".spec_bytes()
        ||| name == ":digit:]".spec_bytes()
        ||| name == ":graph:]".spec_bytes()
        ||| name == ":lower:]".spec_bytes()
        ||| name == ":print:]".spec_bytes()
        ||| name == ":punct:]".spec_bytes()
        ||| name == ":space:]".spec_bytes()
        ||| name == ":upper:]".spec_bytes()
        ||| name == ":xdigit:]".spec_bytes()
}

/// The names of the classes hold no zero and start with a colon; that of the hexadecimal digits is the
/// only longer one.
proof fn lemma_class_names(name: Seq<u8>)
    requires
        is_class_name(name),
    ensures
        !name.contains(0),
        name[0] == 0x3a,
        name.len() == if name[1] == 0x78 {
            9int
        } else {
            8
        },
{
    broadcast use is_ascii_spec_bytes;

    reveal_strlit(":alnum:]");
    assert(":alnum:]".is_ascii());
    assert(":alnum:]".spec_bytes() =~= seq![0x3au8, 0x61, 0x6c, 0x6e, 0x75, 0x6d, 0x3a, 0x5d]);
    reveal_strlit(":alpha:]");
    assert(":alpha:]".is_ascii());
    assert(":alpha:]".spec_bytes() =~= seq![0x3au8, 0x61, 0x6c, 0x70, 0x68, 0x61, 0x3a, 0x5d]);
    reveal_strlit(":blank:]");
    assert(":blank:]".is_ascii());
    assert(":blank:]".spec_bytes() =~= seq![0x3au8, 0x62, 0x6c, 0x61, 0x6e, 0x6b, 0x3a, 0x5d]);
    reveal_strlit(":cntrl:]");
    assert(":cntrl:]".is_ascii());
    assert(":cntrl:]".spec_bytes() =~= seq![0x3au8, 0x63, 0x6e, 0x74, 0x72, 0x6c, 0x3a, 0x5d]);
    reveal_strlit(":digit:]");
    assert(":digit:]".is_ascii());
    assert(":digit:]".spec_bytes() =~= seq![0x3au8, 0x64, 0x69, 0x67, 0x69, 0x74, 0x3a, 0x5d]);
    reveal_strlit(":graph:]");
    assert(":graph:]".is_ascii());
    assert(":graph:]".spec_bytes() =~= seq![0x3au8, 0x67, 0x72, 0x61, 0x70, 0x68, 0x3a, 0x5d]);
    reveal_strlit(":lower:]");
    assert(":lower:]".is_ascii());
    assert(":lower:]".spec_bytes() =~= seq![0x3au8, 0x6c, 0x6f, 0x77, 0x65, 0x72, 0x3a, 0x5d]);
    reveal_strlit(":print:]");
    assert(":print:]".is_ascii());
    assert(":print:]".spec_bytes() =~= seq![0x3au8, 0x70, 0x72, 0x69, 0x6e, 0x74, 0x3a, 0x5d]);
    reveal_strlit(":punct:]");
    assert(":punct:]".is_ascii());
    assert(":punct:]".spec_bytes() =~= seq![0x3au8, 0x70, 0x75, 0x6e, 0x63, 0x74, 0x3a, 0x5d]);
    reveal_strlit(":space:]");
    assert(":space:]".is_ascii());
    assert(":space:]".spec_bytes() =~= seq![0x3au8, 0x73, 0x70, 0x61, 0x63, 0x65, 0x3a, 0x5d]);
    reveal_strlit(":upper:]");
    assert(":upper:]".is_ascii());
    assert(":upper:]".spec_bytes() =~= seq![0x3au8, 0x75, 0x70, 0x70, 0x65, 0x72, 0x3a, 0x5d]);
    reveal_strlit(":xdigit:]");
    assert(":xdigit:]".is_ascii());
    assert(":xdigit:]".spec_bytes() =~= seq![0x3au8, 0x78, 0x64, 0x69, 0x67, 0x69, 0x74, 0x3a, 0x5d]);
}

/// A named class stands for its members inside of a character class, and does not close it: the `]`
/// behind it does.
pub proof fn law_named_class_does_not_close(name: Seq<u8>)
    requires
        is_class_name(name),
    ensures
        glob_unclosed(seq![0x5bu8, 0x5b] + name),
        !glob_unclosed(seq![0x5bu8, 0x5b] + name + seq![0x5du8]),
{
    lemma_class_names(name);
    let open = seq![0x5bu8, 0x5b] + name;
    let closed = seq![0x5bu8, 0x5b] + name + seq![0x5du8];
    let end: int = 2 + name.len() as int;
    assert(!open.contains(0)) by {
        if open.contains(0) {
            let k = choose|k: int| 0 <= k < open.len() && open[k] == 0;
            assert(k >= 2 && name[k - 2] == 0);
            assert(name.contains(0));
        }
    }
    assert(open.subrange(2, end) =~= name);
    assert(closed.subrange(2, end) =~= name);
    lemma_named_class_len(open, name);
    lemma_named_class_len(closed, name);
    assert(closed[end] == 0x5d);
    assert(unclosed_class(open, end, false));
    assert(unclosed_class(open, 1, false));
    assert(!unclosed_from(closed, end + 1));
    assert(!unclosed_class(closed, end, false));
    assert(!unclosed_class(closed, 1, false));
}

/// The length of a named class is that of its name.
proof fn lemma_named_class_len(text: Seq<u8>, name: Seq<u8>)
    requires
        is_class_name(name),
        text.len() >= 2 + name.len(),
        text.subrange(2, 2 + name.len() as int) == name,
    ensures
        named_class_len(text, 2) == name.len(),
{
    lemma_class_names(name);
    assert(stands_at(text, 2, name));
    assert forall|other: Seq<u8>| is_class_name(other) && #[trigger] stands_at(text, 2, other) implies other.len()
        == name.len() by {
        lemma_class_names(other);
        assert(other[1] == text[3]) by {
            assert(text.subrange(2, 2 + other.len() as int)[1] == text[3]);
        }
        assert(name[1] == text[3]) by {
            assert(text.subrange(2, 2 + name.len() as int)[1] == text[3]);
        }
    }
    assert(is_class_name(":alnum:]".spec_bytes()));
    assert(is_class_name(":alpha:]".spec_bytes()));
    assert(is_class_name(":blank:]".spec_bytes()));
    assert(is_class_name(":cntrl:]".spec_bytes()));
    assert(is_class_name(":digit:]".spec_bytes()));
    assert(is_class_name(":graph:]".spec_bytes()));
    assert(is_class_name(":lower:]".spec_bytes()));
    assert(is_class_name(":print:]".spec_bytes()));
    assert(is_class_name(":punct:]".spec_bytes()));
    assert(is_class_name(":space:]".spec_bytes()));
    assert(is_class_name(":upper:]".spec_bytes()));
    assert(is_class_name(":xdigit:]".spec_bytes()));
}

/// A range, and the negation of a class, do not close it either.
pub proof fn law_ranges_do_not_close(from: u8, to: u8)
    requires
        from != 0 && from != 0x5b && from != 0x5c && from != 0x5d && from != 0x5e && from != 0x2d,
        to != 0 && to != 0x5c,
    ensures
        glob_unclosed(seq![0x5bu8, from, 0x2d, to]),
        !glob_unclosed(seq![0x5bu8, from, 0x2d, to, 0x5d]),
        glob_unclosed(seq![0x5bu8, 0x5e, from]),
        !glob_unclosed(seq![0x5bu8, 0x5e, from, 0x5d]),
{
    reveal_with_fuel(unclosed_class, 5);
    reveal_with_fuel(unclosed_from, 5);
    let range = seq![0x5bu8, from, 0x2d, to];
    let closed = seq![0x5bu8, from, 0x2d, to, 0x5d];
    assert(unclosed_class(range, 2, true));
    assert(unclosed_class(range, 1, false));
    assert(!unclosed_class(closed, 4, false));
    assert(!unclosed_class(closed, 2, true));
    assert(!unclosed_class(closed, 1, false));
}

/// What is left without the slashes is the first part.
proof fn lemma_without_slashes(s: Seq<u8>)
    ensures
        without_slashes(s).len() <= s.len(),
        without_slashes(s) == s.take(without_slashes(s).len() as int),
    decreases s.len(),
{
    if s.len() > 0 && s.last() == SLASH {
        lemma_without_slashes(s.drop_last());
        let n: int = without_slashes(s.drop_last()).len() as int;
        assert(s.drop_last().take(n) =~= s.take(n));
    } else {
        assert(s.take(s.len() as int) =~= s);
    }
}

// ---------------------------------------------------------------------------------------------
// Matching
// ---------------------------------------------------------------------------------------------

/// The last entry that matches a file decides on it; a file that no entry matches is kept.
pub proof fn law_last_match_decides(entries: Seq<EntryView>, path: Seq<u8>, mode: u32, i: int)
    requires
        -1 <= i < entries.len(),
        i >= 0 ==> entry_matches(entries[i], path, mode),
        forall|k: int| i < k < entries.len() ==> !entry_matches(#[trigger] entries[k], path, mode),
    ensures
        i >= 0 ==> list_matches(entries, path, mode) == Some(entries[i].match_type),
        i >= 0 ==> (is_excluded(entries, path, mode) <==> entries[i].match_type is Exclude),
        i < 0 ==> list_matches(entries, path, mode) is None && !is_excluded(entries, path, mode),
    decreases entries.len(),
{
    if entries.len() > 0 && i < entries.len() - 1 {
        let before = entries.drop_last();
        assert(!entry_matches(entries[entries.len() - 1], path, mode));
        assert forall|k: int| i < k < before.len() implies !entry_matches(#[trigger] before[k], path, mode) by {
            assert(!entry_matches(entries[k], path, mode));
        }
        law_last_match_decides(before, path, mode, i);
    }
}

/// An entry without restrictions is for files of every type, and an entry for one type of file for that
/// type only.
pub proof fn law_types_of_an_entry(entry: EntryView, path: Seq<u8>, mode: u32)
    ensures
        entry.flags == 0x7f00 ==> (entry_matches(entry, path, mode) <==> path_matches(entry, path)),
        entry.flags == 0x0100 ==> (entry_matches(entry, path, mode) <==> mode & 0xf000 == 0x4000
            && path_matches(entry, path)),
        entry.flags == 0x0200 ==> (entry_matches(entry, path, mode) <==> mode & 0xf000 == 0x8000
            && path_matches(entry, path)),
        entry.flags == 0x0400 ==> (entry_matches(entry, path, mode) <==> mode & 0xf000 == 0xa000
            && path_matches(entry, path)),
        entry.flags == 0x0800 ==> (entry_matches(entry, path, mode) <==> mode & 0xf000 == 0xc000
            && path_matches(entry, path)),
        entry.flags == 0x1000 ==> (entry_matches(entry, path, mode) <==> mode & 0xf000 == 0x1000
            && path_matches(entry, path)),
        entry.flags == 0x2000 ==> (entry_matches(entry, path, mode) <==> mode & 0xf000 == 0x2000
            && path_matches(entry, path)),
        entry.flags == 0x4000 ==> (entry_matches(entry, path, mode) <==> mode & 0xf000 == 0x6000
            && path_matches(entry, path)),
{
    let f = entry.flags;
    assert(f & 0 == 0) by (bit_vector);
    assert(f == 0x7f00 ==> f & 0x7f00 == 0x7f00) by (bit_vector);
    assert(f == 0x0100 || f == 0x0200 || f == 0x0400 || f == 0x0800 || f == 0x1000 || f == 0x2000 || f == 0x4000
        ==> f & 0x7f00 == f) by (bit_vector);
    assert(f == 0x0100 || f == 0x0200 || f == 0x0400 || f == 0x0800 || f == 0x1000 || f == 0x2000 || f == 0x4000
        ==> (f & 0x0100 != 0 <==> f == 0x0100) && (f & 0x0200 != 0 <==> f == 0x0200) && (f & 0x0400 != 0 <==> f
        == 0x0400) && (f & 0x0800 != 0 <==> f == 0x0800) && (f & 0x1000 != 0 <==> f == 0x1000) && (f & 0x2000
        != 0 <==> f == 0x2000) && (f & 0x4000 != 0 <==> f == 0x4000)) by (bit_vector);
}

/// An anchored entry matches whole paths only.
pub proof fn law_anchored_entry_matches_whole_paths(entry: EntryView, path: Seq<u8>)
    requires
        entry.flags == 0x7f01 || entry.flags == 0x0101,
    ensures
        entry.pattern matches PatternView::Literal(literal) ==> (path_matches(entry, path) <==> path == literal),
        entry.pattern matches PatternView::Pattern { text, flags } ==> (path_matches(entry, path)
            <==> glob_matches(text, flags, path)),
{
    assert(0x7f01u16 & 0x0001 != 0 && 0x0101u16 & 0x0001 != 0) by (bit_vector);
}

/// An entry that is not anchored matches a path at every depth: what it matches in the source
/// directory it matches below any other directory, too.
pub proof fn law_patterns_match_at_every_depth(entry: EntryView, dir: Seq<u8>, path: Seq<u8>)
    requires
        entry.flags == 0x7f00 || entry.flags == 0x0100,
        path_matches(entry, path),
    ensures
        path_matches(entry, dir + seq![0x2fu8] + path),
{
    assert(0x7f00u16 & 0x0001 == 0 && 0x0100u16 & 0x0001 == 0) by (bit_vector);
    let i = choose|i: int| #[trigger]
        starts_component(path, i) && pattern_matches(entry.pattern, path.skip(i));
    let full = dir + seq![0x2fu8] + path;
    let at: int = dir.len() + 1 + i;
    assert(full.skip(at) =~= path.skip(i));
    assert(full[at - 1] == if i == 0 {
        0x2f
    } else {
        path[i - 1]
    });
    assert(starts_component(full, at));
}

/// A pattern matches the path that it is the text of, where it is a literal, and what its glob
/// matches, where it is a glob; and nothing that is not the end of a path from a component on.
pub proof fn law_patterns_match_whole_components(entry: EntryView, path: Seq<u8>)
    requires
        entry.flags == 0x7f00 || entry.flags == 0x0100,
        path.len() > 0,
    ensures
        entry.pattern matches PatternView::Literal(literal) ==> {
            &&& path == literal ==> path_matches(entry, path)
            &&& path_matches(entry, path) ==> path == literal || literal.len() == 0 || exists|dir: Seq<u8>|
                path == #[trigger] (dir + seq![0x2fu8]) + literal
        },
        entry.pattern matches PatternView::Pattern { text, flags } ==> {
            &&& glob_matches(text, flags, path) ==> path_matches(entry, path)
            &&& path_matches(entry, path) ==> exists|i: int|
                0 <= i <= path.len() && (i == 0 || path[i - 1] == 0x2f) && glob_matches(
                    text,
                    flags,
                    #[trigger] path.skip(i),
                )
        },
{
    assert(0x7f00u16 & 0x0001 == 0 && 0x0100u16 & 0x0001 == 0) by (bit_vector);
    assert(path.skip(0) =~= path);
    assert(starts_component(path, 0));
    if path_matches(entry, path) {
        let i = choose|i: int| #[trigger]
            starts_component(path, i) && pattern_matches(entry.pattern, path.skip(i));
        if i > 0 {
            let dir = path.take(i - 1);
            assert(path =~= (dir + seq![0x2fu8]) + path.skip(i));
        }
    }
}

/// A line of a `.pxarexclude` without a slash at its start excludes what its pattern matches, in its
/// directory and at every depth below it, whatever was said before; with a slash at its end, it
/// excludes the directories among it.
pub proof fn law_plain_line_excludes_at_every_depth(
    patterns: Seq<EntryView>,
    path: Seq<u8>,
    line: Seq<u8>,
    core: Seq<u8>,
    slashes: Seq<u8>,
    dir: Seq<u8>,
    name: Seq<u8>,
    mode: u32,
)
    requires
        line == core + slashes,
        is_bare(line),
        core.len() > 0,
        core[0] != 0x23 && core[0] != 0x2f && core[0] != 0x21,
        core[core.len() - 1] != 0x2f,
        is_slashes(slashes),
        glob_error(core, 2) is None,
        name.len() > 0,
        glob_matches(core, 2, name),
        slashes.len() == 0 || mode & 0xf000 == 0x4000,
    ensures
        is_excluded(patterns + exclude_entries(path, seq![line]), name, mode),
        is_excluded(patterns + exclude_entries(path, seq![line]), dir + seq![0x2fu8] + name, mode),
{
    let none: Seq<u8> = Seq::empty();
    assert(none + (core + slashes) + none =~= line);
    law_plain_line_is_taken_as_written(path, dir, none, core, slashes, none);
    let entry = line_entries(path, line)[0];
    let list = patterns + exclude_entries(path, seq![line]);
    reveal_with_fuel(exclude_entries, 2);
    assert(seq![line].drop_last() =~= Seq::<Seq<u8>>::empty());
    assert(exclude_entries(path, seq![line]) =~= seq![entry]);
    assert(list =~= patterns.push(entry));
    law_patterns_match_whole_components(entry, name);
    law_patterns_match_at_every_depth(entry, dir, name);
    law_types_of_an_entry(entry, name, mode);
    law_types_of_an_entry(entry, dir + seq![0x2fu8] + name, mode);
    law_last_match_decides(list, name, mode, list.len() - 1);
    law_last_match_decides(list, dir + seq![0x2fu8] + name, mode, list.len() - 1);
}

// ---------------------------------------------------------------------------------------------
// The list that is recorded
// ---------------------------------------------------------------------------------------------

/// The list that is recorded has one line for each entry, in order, each ended by a line feed: the
/// text of the entry, with `!` before it if it includes, and a slash behind it if it is for
/// directories only and does not end in one.
pub proof fn law_recorded_list_has_the_entries(first: Seq<EntryView>, entry: EntryView, text: Seq<u8>)
    requires
        match entry.pattern {
            PatternView::Pattern { text: glob, .. } => glob == text,
            PatternView::Literal(literal) => literal == text,
        },
    ensures
        excludes_cli(Seq::<EntryView>::empty()).len() == 0,
        excludes_cli(first.push(entry)) == excludes_cli(first) + cli_line(entry) + seq![0x0au8],
        ({
            let ends_in_slash = text.len() > 0 && text[text.len() - 1] == 0x2f;
            let gets_slash = entry.flags == 0x0100 && !ends_in_slash;
            &&& entry.match_type is Exclude && !gets_slash ==> cli_line(entry) == text
            &&& entry.match_type is Exclude && gets_slash ==> cli_line(entry) == text + seq![0x2fu8]
            &&& entry.match_type is Include && !gets_slash ==> cli_line(entry) == seq![0x21u8] + text
            &&& entry.match_type is Include && gets_slash ==> cli_line(entry) == seq![0x21u8] + text + seq![
                0x2fu8,
            ]
        }),
{
    assert(first.push(entry).drop_last() =~= first);
    assert(excludes_cli(first.push(entry)) =~= excludes_cli(first) + cli_line(entry) + seq![0x0au8]);
}

} // verus!
