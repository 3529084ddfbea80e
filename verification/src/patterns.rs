//! Include and exclude patterns.
//!
//! A pattern list is read from its end: the last entry that matches a path decides. The glob
//! language itself, its syntax and what a glob matches, is that of the `pathpatterns` crate.

use vstd::prelude::*;
use vstd::string::*;

use crate::bytes::{BANG, SLASH};
use crate::mode::{IFBLK, IFCHR, IFDIR, IFIFO, IFLNK, IFMT, IFREG, IFSOCK};

verus! {

/// The glob is used for paths: `*` and `?` do not match slashes.
pub const PATH_NAME: u8 = 0x02;

/// Match only complete paths, not their suffixes.
pub const ANCHORED: u16 = 0x0001;

/// Match directories.
pub const MATCH_DIRECTORIES: u16 = 0x0100;

/// Match regular files.
pub const MATCH_REGULAR_FILES: u16 = 0x0200;

/// Match symbolic links.
pub const MATCH_SYMLINKS: u16 = 0x0400;

/// Match sockets.
pub const MATCH_SOCKETS: u16 = 0x0800;

/// Match named pipes.
pub const MATCH_FIFOS: u16 = 0x1000;

/// Match character devices.
pub const MATCH_CHARDEVS: u16 = 0x2000;

/// Match block devices.
pub const MATCH_BLOCKDEVS: u16 = 0x4000;

/// Match whatever the file type is: the default.
pub const ANY_FILE_TYPE: u16 = 0x7f00;

/// Whether a pattern includes or excludes what it matches.
#[derive(Clone, Copy, Debug, PartialEq, Eq, Structural)]
pub enum MatchType {
    /// Keep the file.
    Include,
    /// Leave the file out.
    Exclude,
}

impl MatchType {
    /// The other type.
    pub open spec fn inverted(self) -> MatchType {
        match self {
            MatchType::Include => MatchType::Exclude,
            MatchType::Exclude => MatchType::Include,
        }
    }
}

/// What a pattern compares a path with.
#[derive(Debug, PartialEq, Eq)]
pub enum MatchPattern {
    /// A glob: its text, and the flags it is read with.
    Pattern {
        /// The text of the glob.
        text: Vec<u8>,
        /// `PATH_NAME`, for a glob on paths.
        flags: u8,
    },
    /// The exact path.
    Literal(Vec<u8>),
}

/// One entry of a pattern list.
#[derive(Debug, PartialEq, Eq)]
pub struct MatchEntry {
    pattern: MatchPattern,
    match_type: MatchType,
    flags: u16,
}

/// The mathematical value of a [`MatchPattern`].
pub enum PatternView {
    /// A glob.
    Pattern { text: Seq<u8>, flags: u8 },
    /// The exact path.
    Literal(Seq<u8>),
}

/// The mathematical value of a [`MatchEntry`].
pub struct EntryView {
    /// What the path is compared with.
    pub pattern: PatternView,
    /// What a match means.
    pub match_type: MatchType,
    /// Which paths and file types the entry is for.
    pub flags: u16,
}

impl View for MatchPattern {
    type V = PatternView;

    open spec fn view(&self) -> PatternView {
        match *self {
            MatchPattern::Pattern { text, flags } => PatternView::Pattern { text: text@, flags },
            MatchPattern::Literal(literal) => PatternView::Literal(literal@),
        }
    }
}

impl View for MatchEntry {
    type V = EntryView;

    closed spec fn view(&self) -> EntryView {
        EntryView { pattern: self.pattern@, match_type: self.match_type, flags: self.flags }
    }
}

impl PatternView {
    /// The bytes the pattern was written with.
    pub open spec fn text(self) -> Seq<u8> {
        match self {
            PatternView::Pattern { text, .. } => text,
            PatternView::Literal(literal) => literal,
        }
    }

    /// Whether the pattern is a literal, or a glob in the form in which globs are kept.
    pub open spec fn is_kept_form(self) -> bool {
        match self {
            PatternView::Pattern { text, .. } => {
                &&& (text.len() > 0 && text.last() != SLASH) || text == seq![SLASH]
                &&& !glob_unclosed(text)
            },
            PatternView::Literal(_) => true,
        }
    }
}

// ---------------------------------------------------------------------------------------------
// Character classes that never close
// ---------------------------------------------------------------------------------------------

/// `\`, which takes away the meaning of the next byte of a glob.
pub const BACKSLASH: u8 = 0x5c;

/// `[`, the start of a character class.
pub const CLASS_OPEN: u8 = 0x5b;

/// `]`, the end of a character class.
pub const CLASS_CLOSE: u8 = 0x5d;

/// `^`, which negates a character class.
pub const CARET: u8 = 0x5e;

/// `-`, a range of a character class.
pub const DASH: u8 = 0x2d;

/// `:`, which encloses the name of a named character class.
pub const COLON: u8 = 0x3a;

/// Whether `part` stands in `text` at `at`.
pub open spec fn stands_at(text: Seq<u8>, at: int, part: Seq<u8>) -> bool {
    0 <= at && at + part.len() <= text.len() && text.subrange(at, at + part.len()) == part
}

/// The length of a class name that stands in `text` at `at`, 0 if it does not stand there.
pub open spec fn name_len(text: Seq<u8>, at: int, name: Seq<u8>) -> int {
    if stands_at(text, at, name) {
        name.len() as int
    } else {
        0
    }
}

/// The first length that is not 0.
pub open spec fn first_len(a: int, b: int) -> int {
    if a > 0 {
        a
    } else {
        b
    }
}

/// The length of the rest of a named class, behind its `[`, that stands in `text` at `at`; 0 if
/// none does.
pub open spec fn named_class_len(text: Seq<u8>, at: int) -> int {
    first_len(
        name_len(text, at, ":alnum:]".spec_bytes()),
        first_len(
            name_len(text, at, ":alpha:]".spec_bytes()),
            first_len(
                name_len(text, at, ":blank:]".spec_bytes()),
                first_len(
                    name_len(text, at, ":cntrl:]".spec_bytes()),
                    first_len(
                        name_len(text, at, ":digit:]".spec_bytes()),
                        first_len(
                            name_len(text, at, ":graph:]".spec_bytes()),
                            first_len(
                                name_len(text, at, ":lower:]".spec_bytes()),
                                first_len(
                                    name_len(text, at, ":print:]".spec_bytes()),
                                    first_len(
                                        name_len(text, at, ":punct:]".spec_bytes()),
                                        first_len(
                                            name_len(text, at, ":space:]".spec_bytes()),
                                            first_len(
                                                name_len(text, at, ":upper:]".spec_bytes()),
                                                name_len(text, at, ":xdigit:]".spec_bytes()),
                                            ),
                                        ),
                                    ),
                                ),
                            ),
                        ),
                    ),
                ),
            ),
        ),
    )
}

/// Whether a glob, read from `i` outside of any character class, runs into its end inside one.
pub open spec fn unclosed_from(text: Seq<u8>, i: int) -> bool
    decreases text.len() - i,
{
    if i < 0 || i >= text.len() {
        false
    } else if text[i] == BACKSLASH {
        i + 1 < text.len() && unclosed_from(text, i + 2)
    } else if text[i] == CLASS_OPEN {
        if i + 1 < text.len() && text[i + 1] == CARET {
            i + 2 < text.len() && unclosed_class(text, i + 2, false)
        } else {
            i + 1 < text.len() && unclosed_class(text, i + 1, false)
        }
    } else {
        unclosed_from(text, i + 1)
    }
}

/// Whether a glob, read from `i` inside a character class, runs into its end inside one; `prev`
/// tells whether the byte before may start a range.
pub open spec fn unclosed_class(text: Seq<u8>, i: int, prev: bool) -> bool
    decreases text.len() - i,
{
    if i < 0 || i >= text.len() {
        true
    } else if text[i] == CLASS_OPEN && named_class_len(text, i + 1) > 0 {
        unclosed_class(text, i + 1 + named_class_len(text, i + 1), false)
    } else if text[i] == CLASS_OPEN && i + 1 < text.len() && text[i + 1] == COLON {
        false
    } else if text[i] == CLASS_CLOSE {
        unclosed_from(text, i + 1)
    } else if text[i] == BACKSLASH {
        i + 1 < text.len() && unclosed_class(text, i + 2, true)
    } else if text[i] == DASH && prev {
        if i + 1 < text.len() && text[i + 1] == BACKSLASH {
            i + 2 < text.len() && unclosed_class(text, i + 3, false)
        } else {
            i + 1 < text.len() && unclosed_class(text, i + 2, false)
        }
    } else {
        unclosed_class(text, i + 1, true)
    }
}

/// Whether a glob ends inside a character class that was begun and never closed. Such globs
/// cannot be read. A NUL byte is found before anything else.
pub open spec fn glob_unclosed(text: Seq<u8>) -> bool {
    !text.contains(0) && unclosed_from(text, 0)
}

/// A glob without a character class is closed.
pub proof fn lemma_no_class(text: Seq<u8>, i: int)
    requires
        forall|k: int| 0 <= k < text.len() ==> text[k] != CLASS_OPEN,
    ensures
        !unclosed_from(text, i),
    decreases text.len() - i,
{
    if 0 <= i < text.len() {
        if text[i] == BACKSLASH {
            if i + 1 < text.len() {
                lemma_no_class(text, i + 2);
            }
        } else {
            lemma_no_class(text, i + 1);
        }
    }
}

/// Finds a class name in a glob.
fn name_at(text: &[u8], at: usize, name: &str) -> (r: usize)
    requires
        at <= text@.len(),
    ensures
        r == name_len(text@, at as int, name.spec_bytes()),
        at + r <= text@.len(),
{
    let name = name.as_bytes();
    if name.len() > text.len() - at {
        return 0;
    }
    let part = vstd::slice::slice_subrange(text, at, at + name.len());
    if crate::bytes::bytes_eq(part, name) {
        name.len()
    } else {
        0
    }
}

/// Finds the rest of a named class in a glob.
fn named_class_at(text: &[u8], at: usize) -> (r: usize)
    requires
        at <= text@.len(),
    ensures
        r == named_class_len(text@, at as int),
        at + r <= text@.len(),
{
    let r: usize = name_at(text, at, ":alnum:]");
    if r > 0 {
        return r;
    }
    let r: usize = name_at(text, at, ":alpha:]");
    if r > 0 {
        return r;
    }
    let r: usize = name_at(text, at, ":blank:]");
    if r > 0 {
        return r;
    }
    let r: usize = name_at(text, at, ":cntrl:]");
    if r > 0 {
        return r;
    }
    let r: usize = name_at(text, at, ":digit:]");
    if r > 0 {
        return r;
    }
    let r: usize = name_at(text, at, ":graph:]");
    if r > 0 {
        return r;
    }
    let r: usize = name_at(text, at, ":lower:]");
    if r > 0 {
        return r;
    }
    let r: usize = name_at(text, at, ":print:]");
    if r > 0 {
        return r;
    }
    let r: usize = name_at(text, at, ":punct:]");
    if r > 0 {
        return r;
    }
    let r: usize = name_at(text, at, ":space:]");
    if r > 0 {
        return r;
    }
    let r: usize = name_at(text, at, ":upper:]");
    if r > 0 {
        return r;
    }
    name_at(text, at, ":xdigit:]")
}

/// Whether a byte string holds a NUL byte.
fn has_nul(text: &[u8]) -> (r: bool)
    ensures
        r == text@.contains(0),
{
    let mut i: usize = 0;
    while i < text.len()
        invariant
            i <= text@.len(),
            forall|k: int| 0 <= k < i ==> text@[k] != 0,
        decreases text@.len() - i,
    {
        if text[i] == 0 {
            assert(text@.contains(text@[i as int]));
            return true;
        }
        i += 1;
    }
    false
}

/// Decides whether a glob ends inside a character class.
pub fn is_glob_unclosed(text: &[u8]) -> (r: bool)
    ensures
        r == glob_unclosed(text@),
{
    if has_nul(text) {
        return false;
    }
    let mut i: usize = 0;
    let mut in_class = false;
    let mut prev = false;
    while i < text.len()
        invariant
            i <= text@.len(),
            unclosed_from(text@, 0) == if in_class {
                unclosed_class(text@, i as int, prev)
            } else {
                unclosed_from(text@, i as int)
            },
            !text@.contains(0),
        decreases text@.len() - i,
    {
        let b: u8 = text[i];
        let more = i + 1 < text.len();
        if !in_class {
            if b == BACKSLASH {
                if !more {
                    return false;
                }
                i += 2;
            } else if b == CLASS_OPEN {
                let start: usize = if more && text[i + 1] == CARET {
                    i + 2
                } else {
                    i + 1
                };
                if start == text.len() {
                    return false;
                }
                i = start;
                in_class = true;
                prev = false;
            } else {
                i += 1;
            }
        } else {
            let named: usize = if b == CLASS_OPEN {
                named_class_at(text, i + 1)
            } else {
                0
            };
            if named > 0 {
                i = i + 1 + named;
                prev = false;
            } else if b == CLASS_OPEN && more && text[i + 1] == COLON {
                return false;
            } else if b == CLASS_CLOSE {
                i += 1;
                in_class = false;
            } else if b == BACKSLASH {
                if !more {
                    return false;
                }
                i += 2;
                prev = true;
            } else if b == DASH && prev {
                if !more {
                    return false;
                }
                if text[i + 1] == BACKSLASH {
                    if i + 2 == text.len() {
                        return false;
                    }
                    i += 3;
                } else {
                    i += 2;
                }
                prev = false;
            } else {
                i += 1;
                prev = true;
            }
        }
    }
    in_class
}

// ---------------------------------------------------------------------------------------------
// Reading a pattern
// ---------------------------------------------------------------------------------------------

/// A pattern line without the `!` that may stand before it.
pub open spec fn without_bang(line: Seq<u8>) -> Seq<u8> {
    if line.len() > 0 && line[0] == BANG {
        line.skip(1)
    } else {
        line
    }
}

/// A byte string without the slashes at its end.
pub open spec fn without_slashes(s: Seq<u8>) -> Seq<u8>
    decreases s.len(),
{
    if s.len() > 0 && s.last() == SLASH {
        without_slashes(s.drop_last())
    } else {
        s
    }
}

/// The glob of a pattern line: the `!` before it and the slashes behind it are not part of it. Of
/// a line that holds nothing else, one slash is left.
pub open spec fn glob_text(line: Seq<u8>) -> Seq<u8> {
    let text = without_slashes(without_bang(line));
    if text.len() == 0 {
        seq![SLASH]
    } else {
        text
    }
}

/// Whether a pattern line is for directories only: it ends in a slash, or holds nothing.
pub open spec fn is_for_directories(line: Seq<u8>) -> bool {
    without_bang(line).len() == 0 || without_bang(line).last() == SLASH
}

/// The entry that a pattern line stands for. A `!` before the line inverts the match type.
pub open spec fn parsed_entry(line: Seq<u8>, pattern_flags: u8, match_type: MatchType) -> EntryView {
    EntryView {
        pattern: PatternView::Pattern { text: glob_text(line), flags: pattern_flags },
        match_type: if line.len() > 0 && line[0] == BANG {
            match_type.inverted()
        } else {
            match_type
        },
        flags: if is_for_directories(line) {
            MATCH_DIRECTORIES
        } else {
            ANY_FILE_TYPE
        },
    }
}

/// The message with which `pathpatterns::Pattern::new` refuses a glob read with the given flags;
/// `None` if it accepts the glob.
pub uninterp spec fn glob_error(text: Seq<u8>, flags: u8) -> Option<Seq<char>>;

/// Calls `pathpatterns::MatchEntry::parse_pattern`.
///
/// It takes one `!` off the start of the line, and inverts the match type for it; it takes all
/// slashes off the end, and restricts the entry to directories for them. What is left (one slash,
/// if nothing is) goes to `pathpatterns::Pattern::new`, whose error is the only one. That function
/// panics on a glob that ends inside a character class.
#[verifier::external_body]
fn parse_line(line: &[u8], pattern_flags: u8, match_type: MatchType) -> (r: Result<MatchEntry, String>)
    requires
        !glob_unclosed(glob_text(line@)),
    ensures
        match r {
            Ok(entry) => {
                &&& glob_error(glob_text(line@), pattern_flags) is None
                &&& entry@ == parsed_entry(line@, pattern_flags, match_type)
            },
            Err(message) => glob_error(glob_text(line@), pattern_flags) == Some(message@),
        },
{
    let flags = pathpatterns::PatternFlag::from_bits_truncate(pattern_flags);
    let ty = match match_type {
        MatchType::Include => pathpatterns::MatchType::Include,
        MatchType::Exclude => pathpatterns::MatchType::Exclude,
    };
    let entry = pathpatterns::MatchEntry::parse_pattern(line, flags, ty).map_err(|err| err.to_string())?;
    let pattern = match entry.pattern() {
        pathpatterns::MatchPattern::Pattern(p) => {
            MatchPattern::Pattern { text: p.pattern().to_bytes().to_vec(), flags: pattern_flags }
        }
        pathpatterns::MatchPattern::Literal(literal) => MatchPattern::Literal(literal.clone()),
    };
    let match_type = if entry.match_type().is_include() { MatchType::Include } else { MatchType::Exclude };
    Ok(MatchEntry { pattern, match_type, flags: entry.match_flags().bits() })
}

// ---------------------------------------------------------------------------------------------
// Matching
// ---------------------------------------------------------------------------------------------

/// The flag that stands for the file type of a mode; 0 for an unknown type.
pub open spec fn type_flag(mode: u32) -> u16 {
    if mode & IFMT == IFDIR {
        MATCH_DIRECTORIES
    } else if mode & IFMT == IFREG {
        MATCH_REGULAR_FILES
    } else if mode & IFMT == IFLNK {
        MATCH_SYMLINKS
    } else if mode & IFMT == IFSOCK {
        MATCH_SOCKETS
    } else if mode & IFMT == IFIFO {
        MATCH_FIFOS
    } else if mode & IFMT == IFCHR {
        MATCH_CHARDEVS
    } else if mode & IFMT == IFBLK {
        MATCH_BLOCKDEVS
    } else {
        0
    }
}

/// Whether an entry with these flags is for files of this mode.
pub open spec fn mode_matches(flags: u16, mode: u32) -> bool {
    flags & ANY_FILE_TYPE == ANY_FILE_TYPE || flags & type_flag(mode) != 0
}

/// Whether a glob that `pathpatterns::Pattern::new` accepts with the given flags matches a text, as
/// `pathpatterns::Pattern::matches` says. A glob that is refused matches nothing.
pub uninterp spec fn glob_matches(text: Seq<u8>, flags: u8, subject: Seq<u8>) -> bool;

/// Whether a pattern matches a whole text.
pub open spec fn pattern_matches(pattern: PatternView, subject: Seq<u8>) -> bool {
    match pattern {
        PatternView::Pattern { text, flags } => glob_matches(text, flags, subject),
        PatternView::Literal(literal) => subject == literal,
    }
}

/// Whether the part of a path that starts at `i` is the whole path, or starts a component of it.
pub open spec fn starts_component(path: Seq<u8>, i: int) -> bool {
    0 <= i <= path.len() && (i == 0 || path[i - 1] == SLASH)
}

/// Whether an entry matches a path: an anchored one the whole path, any other one the whole path
/// or what follows one of its slashes.
pub open spec fn path_matches(entry: EntryView, path: Seq<u8>) -> bool {
    if entry.flags & ANCHORED != 0 {
        pattern_matches(entry.pattern, path)
    } else {
        path.len() > 0 && exists|i: int|
            #[trigger] starts_component(path, i) && pattern_matches(entry.pattern, path.skip(i))
    }
}

/// Whether an entry matches a file with this path and this mode.
pub open spec fn entry_matches(entry: EntryView, path: Seq<u8>, mode: u32) -> bool {
    mode_matches(entry.flags, mode) && path_matches(entry, path)
}

/// Calls `pathpatterns::MatchEntry::matches` for an entry with the given pattern and flags.
///
/// The entry matches if the file type of the mode is one that its flags name, and its pattern
/// matches the path or, unless it is anchored, what follows one of the slashes of the path. An
/// entry whose glob `pathpatterns::Pattern::new` refuses matches nothing. That function panics on
/// a glob that ends inside a character class; the slashes at the end of a glob it takes away.
#[verifier::external_body]
fn matches_path(pattern: &MatchPattern, flags: u16, path: &[u8], mode: u32) -> (r: bool)
    requires
        pattern@.is_kept_form(),
    ensures
        r == (mode_matches(flags, mode) && match pattern@ {
            PatternView::Pattern { text, flags: how } => if flags & ANCHORED != 0 {
                glob_matches(text, how, path@)
            } else {
                path@.len() > 0 && exists|i: int|
                    #[trigger] starts_component(path@, i) && glob_matches(text, how, path@.skip(i))
            },
            PatternView::Literal(literal) => if flags & ANCHORED != 0 {
                path@ == literal
            } else {
                path@.len() > 0 && exists|i: int|
                    #[trigger] starts_component(path@, i) && path@.skip(i) == literal
            },
        }),
{
    let pattern = match pattern {
        MatchPattern::Pattern { text, flags } => {
            match pathpatterns::Pattern::new(text, pathpatterns::PatternFlag::from_bits_truncate(*flags)) {
                Ok(glob) => pathpatterns::MatchPattern::Pattern(glob),
                Err(_) => return false,
            }
        }
        MatchPattern::Literal(literal) => pathpatterns::MatchPattern::Literal(literal.clone()),
    };
    let flags = pathpatterns::MatchFlag::from_bits_truncate(flags);
    pathpatterns::MatchEntry::new(pattern, pathpatterns::MatchType::Exclude).flags(flags).matches(path, Some(mode))
}

impl MatchEntry {
    /// The invariant: a glob is kept without slashes at its end, and is closed.
    #[verifier::type_invariant]
    pub closed spec fn wf(self) -> bool {
        self.pattern@.is_kept_form()
    }

    /// An entry that matches exactly one text, whatever the file type is.
    pub fn literal(literal: Vec<u8>, match_type: MatchType) -> (r: MatchEntry)
        ensures
            r@ == (EntryView { pattern: PatternView::Literal(literal@), match_type, flags: ANY_FILE_TYPE }),
    {
        MatchEntry { pattern: MatchPattern::Literal(literal), match_type, flags: ANY_FILE_TYPE }
    }

    /// Reads a pattern: a `!` before it inverts the match type, slashes behind it restrict it to
    /// directories.
    pub fn parse_pattern(line: &[u8], pattern_flags: u8, match_type: MatchType) -> (r: Result<
        MatchEntry,
        String,
    >)
        requires
            !glob_unclosed(glob_text(line@)),
        ensures
            match r {
                Ok(entry) => {
                    &&& glob_error(glob_text(line@), pattern_flags) is None
                    &&& entry@ == parsed_entry(line@, pattern_flags, match_type)
                },
                Err(message) => glob_error(glob_text(line@), pattern_flags) == Some(message@),
            },
    {
        parse_line(line, pattern_flags, match_type)
    }

    /// The same entry with other flags.
    pub fn flags(self, flags: u16) -> (r: MatchEntry)
        ensures
            r@ == (EntryView { flags, ..self@ }),
    {
        proof {
            use_type_invariant(&self);
        }
        MatchEntry { pattern: self.pattern, match_type: self.match_type, flags }
    }

    /// Whether the entry includes or excludes what it matches.
    pub fn match_type(&self) -> (r: MatchType)
        ensures
            r == self@.match_type,
    {
        self.match_type
    }

    /// Which paths and file types the entry is for.
    pub fn match_flags(&self) -> (r: u16)
        ensures
            r == self@.flags,
    {
        self.flags
    }

    /// The bytes the pattern was written with.
    pub fn text(&self) -> (r: &[u8])
        ensures
            r@ == self@.pattern.text(),
    {
        match &self.pattern {
            MatchPattern::Pattern { text, .. } => text.as_slice(),
            MatchPattern::Literal(literal) => literal.as_slice(),
        }
    }

    /// Decides whether the entry matches a file.
    pub fn matches(&self, path: &[u8], mode: u32) -> (r: bool)
        ensures
            r == entry_matches(self@, path@, mode),
    {
        proof {
            use_type_invariant(self);
        }
        matches_path(&self.pattern, self.flags, path, mode)
    }
}

/// The type of the last entry that matches a file; `None` if no entry does.
pub open spec fn list_matches(entries: Seq<EntryView>, path: Seq<u8>, mode: u32) -> Option<MatchType>
    decreases entries.len(),
{
    if entries.len() == 0 {
        None
    } else if entry_matches(entries.last(), path, mode) {
        Some(entries.last().match_type)
    } else {
        list_matches(entries.drop_last(), path, mode)
    }
}

/// Whether a pattern list leaves a file out.
pub open spec fn is_excluded(entries: Seq<EntryView>, path: Seq<u8>, mode: u32) -> bool {
    list_matches(entries, path, mode) == Some(MatchType::Exclude)
}

/// A list of patterns.
#[derive(Debug)]
pub struct PatternList {
    entries: Vec<MatchEntry>,
}

impl View for PatternList {
    type V = Seq<EntryView>;

    closed spec fn view(&self) -> Seq<EntryView> {
        self.entries@.map_values(|e: MatchEntry| e@)
    }
}

impl PatternList {
    /// The list of the given entries.
    pub fn new(entries: Vec<MatchEntry>) -> (r: PatternList)
        ensures
            r@ == entries@.map_values(|e: MatchEntry| e@),
    {
        PatternList { entries }
    }

    /// The number of entries.
    pub fn len(&self) -> (r: usize)
        ensures
            r == self@.len(),
    {
        self.entries.len()
    }

    /// An entry.
    pub fn get(&self, i: usize) -> (r: &MatchEntry)
        requires
            i < self@.len(),
        ensures
            r@ == self@[i as int],
    {
        &self.entries[i]
    }

    /// Adds an entry, which takes precedence over those before it.
    pub fn push(&mut self, entry: MatchEntry)
        ensures
            final(self)@ == old(self)@.push(entry@),
    {
        self.entries.push(entry);
        assert(self@ =~= old(self)@.push(entry@));
    }

    /// Drops the entries that were added after the first `len`.
    pub fn truncate(&mut self, len: usize)
        ensures
            final(self)@ == if len <= old(self)@.len() {
                old(self)@.take(len as int)
            } else {
                old(self)@
            },
    {
        self.entries.truncate(len);
        proof {
            if len <= old(self)@.len() {
                assert(self@ =~= old(self)@.take(len as int));
            } else {
                assert(self@ =~= old(self)@);
            }
        }
    }

    /// Finds the last entry that matches a file.
    pub fn matches(&self, path: &[u8], mode: u32) -> (r: Option<MatchType>)
        ensures
            r == list_matches(self@, path@, mode),
    {
        let mut i: usize = self.entries.len();
        assert(self@.take(i as int) =~= self@);
        while i > 0
            invariant
                i <= self@.len(),
                self@.len() == self.entries@.len(),
                list_matches(self@, path@, mode) == list_matches(self@.take(i as int), path@, mode),
            decreases i,
        {
            i -= 1;
            let entry = &self.entries[i];
            let ghost upto = self@.take(i + 1);
            assert(upto.drop_last() =~= self@.take(i as int));
            assert(upto.last() == entry@);
            if entry.matches(path, mode) {
                return Some(entry.match_type());
            }
        }
        None
    }
}

} // verus!
