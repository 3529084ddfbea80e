//! The files that hold exclude patterns: `.pxarexclude`, which is read from every directory, and
//! `.pxarexclude-cli`, which records in the archive what was excluded on the command line.

use vstd::prelude::*;

use crate::bytes::{append_bytes, bytes_copy, strip_ascii_whitespace, stripped, BANG, HASH, NEWLINE, SLASH};
use crate::patterns::{
    glob_error, glob_text, glob_unclosed, is_for_directories, is_glob_unclosed, parsed_entry,
    without_bang, without_slashes, EntryView, MatchEntry, MatchType, PatternList, PatternView,
    ANY_FILE_TYPE, MATCH_DIRECTORIES, PATH_NAME,
};

verus! {

/// The contents of a list of byte strings.
pub open spec fn byte_strings(list: Seq<Vec<u8>>) -> Seq<Seq<u8>> {
    list.map_values(|s: Vec<u8>| s@)
}

/// The contents of a list of strings.
pub open spec fn texts(list: Seq<String>) -> Seq<Seq<char>> {
    list.map_values(|s: String| s@)
}

// ---------------------------------------------------------------------------------------------
// .pxarexclude
// ---------------------------------------------------------------------------------------------

/// The pattern that a line of the `.pxarexclude` of the directory at `path` holds, and the type
/// it is read with; `None` for blank lines and comments.
///
/// White space around the line does not count. A pattern that starts with a slash is meant from
/// the directory on, so the path of the directory goes before it. A pattern that starts with `!`
/// and a slash is the inverse of such a pattern.
pub open spec fn exclude_rule(path: Seq<u8>, line: Seq<u8>) -> Option<(Seq<u8>, MatchType)> {
    let text = stripped(line);
    if text.len() == 0 || text[0] == HASH {
        None
    } else if text[0] == SLASH {
        Some((path + text, MatchType::Exclude))
    } else if text.len() >= 2 && text[0] == BANG && text[1] == SLASH {
        Some((path + text.skip(1), MatchType::Include))
    } else {
        Some((text, MatchType::Exclude))
    }
}

/// Whether a line can be read: its glob, if it holds one, does not end inside a character class.
pub open spec fn is_line_readable(path: Seq<u8>, line: Seq<u8>) -> bool {
    match exclude_rule(path, line) {
        Some((text, _)) => !glob_unclosed(glob_text(text)),
        None => true,
    }
}

/// The message with which the pattern of a line is refused, if there is a pattern and it is.
pub open spec fn line_error(path: Seq<u8>, line: Seq<u8>) -> Option<Seq<char>> {
    match exclude_rule(path, line) {
        Some((text, _)) => glob_error(glob_text(text), PATH_NAME),
        None => None,
    }
}

/// The entries that a line adds to the pattern list: one for an accepted pattern, else none.
pub open spec fn line_entries(path: Seq<u8>, line: Seq<u8>) -> Seq<EntryView> {
    match exclude_rule(path, line) {
        Some((text, match_type)) => if line_error(path, line) is None {
            seq![parsed_entry(text, PATH_NAME, match_type)]
        } else {
            Seq::empty()
        },
        None => Seq::empty(),
    }
}

/// The entries that the lines of a `.pxarexclude` add, in order.
pub open spec fn exclude_entries(path: Seq<u8>, lines: Seq<Seq<u8>>) -> Seq<EntryView>
    decreases lines.len(),
{
    if lines.len() == 0 {
        Seq::empty()
    } else {
        exclude_entries(path, lines.drop_last()) + line_entries(path, lines.last())
    }
}

/// The messages of the refused patterns among the lines of a `.pxarexclude`, in order.
pub open spec fn exclude_errors(path: Seq<u8>, lines: Seq<Seq<u8>>) -> Seq<Seq<char>>
    decreases lines.len(),
{
    if lines.len() == 0 {
        Seq::empty()
    } else {
        match line_error(path, lines.last()) {
            Some(message) => exclude_errors(path, lines.drop_last()).push(message),
            None => exclude_errors(path, lines.drop_last()),
        }
    }
}

/// Finds the pattern of a line.
pub fn find_exclude_rule(path: &[u8], line: &[u8]) -> (r: Option<(Vec<u8>, MatchType)>)
    ensures
        match r {
            Some((text, match_type)) => exclude_rule(path@, line@) == Some((text@, match_type)),
            None => exclude_rule(path@, line@) is None,
        },
{
    let text = strip_ascii_whitespace(line);
    if text.len() == 0 || text[0] == HASH {
        return None;
    }
    if text[0] == SLASH {
        let mut full = bytes_copy(path);
        append_bytes(&mut full, text);
        Some((full, MatchType::Exclude))
    } else if text.len() >= 2 && text[0] == BANG && text[1] == SLASH {
        let mut full = bytes_copy(path);
        let rest = vstd::slice::slice_subrange(text, 1, text.len());
        assert(rest@ =~= text@.skip(1));
        append_bytes(&mut full, rest);
        Some((full, MatchType::Include))
    } else {
        Some((bytes_copy(text), MatchType::Exclude))
    }
}

/// Decides whether a line can be read.
pub fn can_read_line(path: &[u8], line: &[u8]) -> (r: bool)
    ensures
        r == is_line_readable(path@, line@),
{
    match find_exclude_rule(path, line) {
        Some((text, _)) => !is_glob_unclosed(find_glob_text(text.as_slice()).as_slice()),
        None => true,
    }
}

/// Finds the glob of a pattern line.
fn find_glob_text(line: &[u8]) -> (r: Vec<u8>)
    ensures
        r@ == glob_text(line@),
{
    let from: usize = if line.len() > 0 && line[0] == BANG {
        1
    } else {
        0
    };
    let mut to: usize = line.len();
    assert(line@.subrange(from as int, to as int) =~= without_bang(line@));
    while to > from && line[to - 1] == SLASH
        invariant
            from <= to <= line@.len(),
            without_slashes(line@.subrange(from as int, to as int)) == without_slashes(
                without_bang(line@),
            ),
        decreases to,
    {
        let ghost longer = line@.subrange(from as int, to as int);
        to -= 1;
        assert(longer.drop_last() =~= line@.subrange(from as int, to as int));
        assert(longer.last() == SLASH);
    }
    let ghost rest = line@.subrange(from as int, to as int);
    assert(from < to ==> rest.last() == line@[to - 1]);
    if from == to {
        vec![SLASH]
    } else {
        bytes_copy(vstd::slice::slice_subrange(line, from, to))
    }
}

/// Reads one line of a `.pxarexclude` into the pattern list. Returns the message of the pattern
/// if it is refused.
pub fn read_exclude_line(path: &[u8], line: &[u8], patterns: &mut PatternList) -> (r: Option<String>)
    requires
        is_line_readable(path@, line@),
    ensures
        final(patterns)@ == old(patterns)@ + line_entries(path@, line@),
        match r {
            Some(message) => line_error(path@, line@) == Some(message@),
            None => line_error(path@, line@) is None,
        },
{
    match find_exclude_rule(path, line) {
        Some((text, match_type)) => match MatchEntry::parse_pattern(text.as_slice(), PATH_NAME, match_type) {
            Ok(entry) => {
                patterns.push(entry);
                assert(patterns@ =~= old(patterns)@ + line_entries(path@, line@));
                None
            },
            Err(message) => {
                assert(patterns@ =~= old(patterns)@ + line_entries(path@, line@));
                Some(message)
            },
        },
        None => {
            assert(patterns@ =~= old(patterns)@ + line_entries(path@, line@));
            None
        },
    }
}

/// Reads the `.pxarexclude` of the directory at `path` into the pattern list. If the file could
/// not be read to its end, none of its patterns stay. Returns the messages of the refused
/// patterns.
pub fn read_pxar_excludes(
    path: &[u8],
    lines: &Vec<Vec<u8>>,
    complete: bool,
    patterns: &mut PatternList,
) -> (r: Vec<String>)
    requires
        forall|i: int| 0 <= i < lines@.len() ==> is_line_readable(path@, #[trigger] lines@[i]@),
    ensures
        final(patterns)@ == if complete {
            old(patterns)@ + exclude_entries(path@, byte_strings(lines@))
        } else {
            old(patterns)@
        },
        texts(r@) == exclude_errors(path@, byte_strings(lines@)),
{
    let count: usize = patterns.len();
    let ghost all = byte_strings(lines@);
    let mut messages: Vec<String> = Vec::new();
    let mut i: usize = 0;
    proof {
        assert(patterns@ =~= old(patterns)@ + exclude_entries(path@, all.take(0)));
        assert(texts(messages@) =~= exclude_errors(path@, all.take(0)));
    }
    while i < lines.len()
        invariant
            i <= lines@.len(),
            all == byte_strings(lines@),
            forall|k: int| 0 <= k < lines@.len() ==> is_line_readable(path@, #[trigger] lines@[k]@),
            patterns@ == old(patterns)@ + exclude_entries(path@, all.take(i as int)),
            texts(messages@) == exclude_errors(path@, all.take(i as int)),
        decreases lines@.len() - i,
    {
        let ghost seen = messages@;
        let message = read_exclude_line(path, lines[i].as_slice(), patterns);
        proof {
            assert(all.take(i + 1).drop_last() =~= all.take(i as int));
            assert(all.take(i + 1).last() == lines@[i as int]@);
            assert(patterns@ =~= old(patterns)@ + exclude_entries(path@, all.take(i + 1)));
        }
        if let Some(message) = message {
            messages.push(message);
            assert(texts(messages@) =~= texts(seen).push(message@));
        }
        i += 1;
    }
    assert(all.take(i as int) =~= all);
    if !complete {
        patterns.truncate(count);
        assert(patterns@ =~= old(patterns)@);
    }
    messages
}

// ---------------------------------------------------------------------------------------------
// .pxarexclude-cli
// ---------------------------------------------------------------------------------------------

/// The line that stands for an entry in an exclude list. Since the list excludes, an entry that
/// includes gets a `!`. An entry for directories only ends in a slash.
pub open spec fn cli_line(entry: EntryView) -> Seq<u8> {
    let text = entry.pattern.text();
    let marked = if entry.match_type == MatchType::Include {
        seq![BANG] + text
    } else {
        text
    };
    if entry.flags == MATCH_DIRECTORIES && !(text.len() > 0 && text.last() == SLASH) {
        marked.push(SLASH)
    } else {
        marked
    }
}

/// The exclude list that stands for the entries: a line for each, in order.
pub open spec fn excludes_cli(entries: Seq<EntryView>) -> Seq<u8>
    decreases entries.len(),
{
    if entries.len() == 0 {
        Seq::empty()
    } else {
        excludes_cli(entries.drop_last()) + cli_line(entries.last()).push(NEWLINE)
    }
}

/// Writes a pattern list as an exclude list.
pub fn generate_pxar_excludes_cli(patterns: &PatternList) -> (r: Vec<u8>)
    ensures
        r@ == excludes_cli(patterns@),
{
    let mut content: Vec<u8> = Vec::new();
    let mut i: usize = 0;
    assert(content@ =~= excludes_cli(patterns@.take(0)));
    while i < patterns.len()
        invariant
            i <= patterns@.len(),
            content@ == excludes_cli(patterns@.take(i as int)),
        decreases patterns@.len() - i,
    {
        let entry = patterns.get(i);
        let ghost before = content@;
        match entry.match_type() {
            MatchType::Include => content.push(BANG),
            MatchType::Exclude => (),
        }
        let text = entry.text();
        append_bytes(&mut content, text);
        if entry.match_flags() == MATCH_DIRECTORIES && !(text.len() > 0 && text[text.len() - 1] == SLASH) {
            content.push(SLASH);
        }
        content.push(NEWLINE);
        proof {
            assert(patterns@.take(i + 1).drop_last() =~= patterns@.take(i as int));
            assert(patterns@.take(i + 1).last() == entry@);
            assert(content@ =~= before + cli_line(entry@).push(NEWLINE));
        }
        i += 1;
    }
    assert(patterns@.take(i as int) =~= patterns@);
    content
}

/// The lines of a text of which every line is ended by a newline.
pub open spec fn split_lines(content: Seq<u8>) -> Seq<Seq<u8>>
    decreases content.len(),
{
    if content.len() == 0 {
        Seq::empty()
    } else {
        let end = line_start(content.drop_last());
        proof {
            lemma_line_start(content.drop_last());
        }
        split_lines(content.take(end)).push(content.subrange(end, content.len() - 1))
    }
}

/// Where the last line of a text starts.
pub open spec fn line_start(content: Seq<u8>) -> int
    decreases content.len(),
{
    if content.len() == 0 || content.last() == NEWLINE {
        content.len() as int
    } else {
        line_start(content.drop_last())
    }
}

/// The last line of a text starts within it.
pub proof fn lemma_line_start(content: Seq<u8>)
    ensures
        0 <= line_start(content) <= content.len(),
    decreases content.len(),
{
    if content.len() > 0 && content.last() != NEWLINE {
        lemma_line_start(content.drop_last());
    }
}

/// A line without a newline starts where the text before it ends.
proof fn lemma_last_line(before: Seq<u8>, line: Seq<u8>)
    requires
        before.len() == 0 || before.last() == NEWLINE,
        !line.contains(NEWLINE),
    ensures
        line_start(before + line) == before.len(),
    decreases line.len(),
{
    if line.len() == 0 {
        assert(before + line =~= before);
    } else {
        assert(line.contains(line.last()));
        assert((before + line).drop_last() =~= before + line.drop_last());
        assert(!line.drop_last().contains(NEWLINE)) by {
            if line.drop_last().contains(NEWLINE) {
                let k = choose|k: int| 0 <= k < line.drop_last().len() && line.drop_last()[k] == NEWLINE;
                assert(line[k] == NEWLINE);
            }
        }
        lemma_last_line(before, line.drop_last());
    }
}

/// Whether an entry is a glob on paths that an exclude list can express: one that was read from a
/// pattern line, that does not run over a line end, and that does not start with a `!` of its own
/// where it excludes.
pub open spec fn is_listable(entry: EntryView) -> bool {
    match entry.pattern {
        PatternView::Pattern { text, flags } => {
            &&& flags == PATH_NAME
            &&& entry.pattern.is_kept_form()
            &&& !text.contains(NEWLINE)
            &&& entry.match_type == MatchType::Exclude ==> text[0] != BANG
            &&& entry.flags == MATCH_DIRECTORIES || (entry.flags == ANY_FILE_TYPE && text.last()
                != SLASH)
        },
        PatternView::Literal(_) => false,
    }
}

/// The line of an entry, read as an exclude pattern, is the entry again.
pub proof fn law_cli_line_reads_back(entry: EntryView)
    requires
        is_listable(entry),
    ensures
        parsed_entry(cli_line(entry), PATH_NAME, MatchType::Exclude) == entry,
{
    let text = entry.pattern.text();
    let line = cli_line(entry);
    let body = without_bang(line);
    let slashed = entry.flags == MATCH_DIRECTORIES && text.last() != SLASH;
    if entry.match_type == MatchType::Include {
        assert(line.skip(1) =~= if slashed {
            text.push(SLASH)
        } else {
            text
        });
    } else {
        assert(line[0] == text[0]);
    }
    if slashed {
        assert(body.drop_last() =~= text);
        assert(without_slashes(text) == text);
        assert(without_slashes(body) == without_slashes(body.drop_last()));
    } else if text.last() == SLASH {
        assert(text == seq![SLASH]);
        assert(without_slashes(body) == without_slashes(body.drop_last()));
        assert(body.drop_last().len() == 0);
        assert(without_slashes(body.drop_last()) == body.drop_last());
    } else {
        assert(without_slashes(body) == text);
    }
    assert(glob_text(line) =~= text);
    assert(is_for_directories(line) == (entry.flags == MATCH_DIRECTORIES));
}

/// The lines of an exclude list, read as exclude patterns, are the entries it was written for.
pub proof fn law_excludes_cli_reads_back(entries: Seq<EntryView>)
    requires
        forall|i: int| 0 <= i < entries.len() ==> is_listable(#[trigger] entries[i]),
    ensures
        split_lines(excludes_cli(entries)).map_values(
            |line: Seq<u8>| parsed_entry(line, PATH_NAME, MatchType::Exclude),
        ) == entries,
    decreases entries.len(),
{
    let read = |line: Seq<u8>| parsed_entry(line, PATH_NAME, MatchType::Exclude);
    let content = excludes_cli(entries);
    if entries.len() == 0 {
        assert(split_lines(content).map_values(read) =~= entries);
    } else {
        let before = excludes_cli(entries.drop_last());
        let line = cli_line(entries.last());
        assert forall|i: int| 0 <= i < entries.drop_last().len() implies is_listable(
            #[trigger] entries.drop_last()[i],
        ) by {
            assert(is_listable(entries[i]));
        }
        law_excludes_cli_reads_back(entries.drop_last());
        law_cli_line_reads_back(entries.last());
        assert(before.len() == 0 || before.last() == NEWLINE) by {
            if entries.drop_last().len() > 0 {
                assert(before.last() == NEWLINE);
            }
        }
        assert(!line.contains(NEWLINE)) by {
            let text = entries.last().pattern.text();
            if line.contains(NEWLINE) {
                let k = choose|k: int| 0 <= k < line.len() && line[k] == NEWLINE;
                if entries.last().match_type == MatchType::Include {
                    assert(0 < k <= text.len() && text[k - 1] == NEWLINE);
                } else {
                    assert(k < text.len() && text[k] == NEWLINE);
                }
            }
        }
        lemma_last_line(before, line);
        assert(content.drop_last() =~= before + line);
        assert(content.take(before.len() as int) =~= before);
        assert(content.subrange(before.len() as int, content.len() - 1) =~= line);
        assert(split_lines(content) =~= split_lines(before).push(line));
        assert(split_lines(content).map_values(read) =~= split_lines(before).map_values(read).push(
            entries.last(),
        ));
        assert(split_lines(content).map_values(read) =~= entries);
    }
}

} // verus!
