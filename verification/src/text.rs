//! Text: comparing, searching and putting together.

use vstd::prelude::*;
use vstd::string::*;
use vstd::utf8::*;

verus! {

/// The characters of a text.
pub fn chars_of(text: &str) -> (r: Vec<char>)
    ensures
        r@ == text@,
{
    let mut r: Vec<char> = Vec::new();
    for c in it: text.chars()
        invariant
            it.seq() == text@,
            r@ == text@.take(it.index()),
    {
        r.push(c);
        assert(r@ =~= text@.take(it.index() + 1));
    }
    assert(text@.take(r@.len() as int) =~= text@);
    r
}

/// Compares two texts.
pub fn same_text(a: &str, b: &str) -> (r: bool)
    ensures
        r == (a@ == b@),
{
    a.to_owned() == b.to_owned()
}

/// The place of the first such character of a text; the length of the text if there is none.
pub open spec fn first_place(text: Seq<char>, c: char) -> int
    decreases text.len(),
{
    if text.len() == 0 || text[0] == c {
        0
    } else {
        1 + first_place(text.skip(1), c)
    }
}

/// No such character comes before the first one.
pub proof fn lemma_first_place(text: Seq<char>, c: char, at: int)
    requires
        0 <= at <= text.len(),
        forall|i: int| 0 <= i < at ==> text[i] != c,
        at == text.len() || text[at] == c,
    ensures
        first_place(text, c) == at,
    decreases text.len(),
{
    if at > 0 {
        let rest = text.skip(1);
        assert(forall|i: int| 0 <= i < at - 1 ==> rest[i] == text[i + 1]);
        lemma_first_place(rest, c, at - 1);
    }
}

/// Finds the first such character of a text.
pub fn find_char(text: &Vec<char>, c: char) -> (r: usize)
    ensures
        r == first_place(text@, c),
        r <= text@.len(),
        r < text@.len() ==> text@[r as int] == c,
        forall|i: int| 0 <= i < r ==> text@[i] != c,
{
    let mut i: usize = 0;
    while i < text.len() && text[i] != c
        invariant
            i <= text@.len(),
            forall|k: int| 0 <= k < i ==> text@[k] != c,
        decreases text@.len() - i,
    {
        i += 1;
    }
    proof {
        lemma_first_place(text@, c, i as int);
    }
    i
}

/// Puts two texts together.
pub fn joined_text(a: &str, b: &str) -> (r: String)
    ensures
        r@ == a@ + b@,
{
    let mut r = a.to_owned();
    r.append(b);
    r
}

// ---------------------------------------------------------------------------------------------
// Numbers
// ---------------------------------------------------------------------------------------------

/// The digit for a number below 16.
pub open spec fn digit(n: int) -> char {
    "0123456789abcdef"@[n]
}

/// A number, written to the given base without leading zeros.
pub open spec fn digits(n: nat, base: nat) -> Seq<char>
    decreases n,
{
    if base < 2 || n < base {
        seq![digit(n as int)]
    } else {
        proof {
            assert(n / base < n) by (nonlinear_arith)
                requires
                    n >= base,
                    base >= 2,
            ;
        }
        digits(n / base, base).push(digit((n % base) as int))
    }
}

/// Writes a number to the given base.
pub fn digits_of(n: u64, base: u64) -> (r: String)
    requires
        2 <= base <= 16,
    ensures
        r@ == digits(n as nat, base as nat),
    decreases n,
{
    proof {
        reveal_strlit("0123456789abcdef");
    }
    if n < base {
        let r = "0123456789abcdef".substring_char(n as usize, n as usize + 1).to_owned();
        assert(r@ =~= seq![digit(n as int)]);
        r
    } else {
        assert(n / base < n) by (nonlinear_arith)
            requires
                n >= base,
                base >= 2,
        ;
        let mut r = digits_of(n / base, base);
        let ghost before = r@;
        let d: usize = (n % base) as usize;
        r.append("0123456789abcdef".substring_char(d, d + 1));
        assert(r@ =~= before.push(digit(d as int)));
        r
    }
}

// ---------------------------------------------------------------------------------------------
// Quotes
// ---------------------------------------------------------------------------------------------

/// What `char::escape_debug` makes of a character.
pub uninterp spec fn escaped_char(c: char) -> Seq<char>;

/// Calls `char::escape_debug`, which gives the escape of a character, or the character itself if it
/// needs none. It depends on the character alone.
#[verifier::external_body]
fn escape_char(c: char) -> (r: String)
    ensures
        r@ == escaped_char(c),
{
    c.escape_debug().to_string()
}

/// The valid parts of a byte string, each with the bytes behind it that are not UTF-8, as
/// `<[u8]>::utf8_chunks` gives them.
pub uninterp spec fn utf8_parts(bytes: Seq<u8>) -> Seq<(Seq<char>, Seq<u8>)>;

/// The values of a list of parts.
pub open spec fn part_views(parts: Seq<(String, Vec<u8>)>) -> Seq<(Seq<char>, Seq<u8>)> {
    parts.map_values(|part: (String, Vec<u8>)| (part.0@, part.1@))
}

/// Calls `<[u8]>::utf8_chunks`, which gives the ranges of a byte string that are UTF-8 and the bytes
/// between them that are not. A byte string that is UTF-8 as a whole is one such range.
#[verifier::external_body]
fn split_utf8(bytes: &[u8]) -> (r: Vec<(String, Vec<u8>)>)
    requires
        bytes@.len() > 0,
    ensures
        part_views(r@) == if valid_utf8(bytes@) {
            seq![(decode_utf8(bytes@), Seq::<u8>::empty())]
        } else {
            utf8_parts(bytes@)
        },
{
    bytes.utf8_chunks().map(|chunk| (chunk.valid().to_owned(), chunk.invalid().to_vec())).collect()
}

/// Whether a character is shown as it is: printable ASCII, but for the quote
/// and the backslash.
pub open spec fn is_plain(c: char) -> bool {
    ' ' <= c <= '~' && c != '"' && c != '\\'
}

/// A character as it is shown in quotes.
pub open spec fn shown_char(c: char) -> Seq<char> {
    if is_plain(c) {
        seq![c]
    } else {
        escaped_char(c)
    }
}

/// A text as it is shown in quotes.
pub open spec fn shown_text(text: Seq<char>) -> Seq<char>
    decreases text.len(),
{
    if text.len() == 0 {
        Seq::empty()
    } else {
        shown_text(text.drop_last()) + shown_char(text.last())
    }
}

/// Bytes that are not UTF-8, as they are shown in quotes.
pub open spec fn shown_bytes(bytes: Seq<u8>) -> Seq<char>
    decreases bytes.len(),
{
    if bytes.len() == 0 {
        Seq::empty()
    } else {
        let b = bytes.last();
        let upper = "0123456789ABCDEF"@;
        shown_bytes(bytes.drop_last()) + "\\x"@ + seq![upper[b as int / 16], upper[b as int % 16]]
    }
}

/// The parts of a byte string, as they are shown in quotes.
pub open spec fn shown_parts(parts: Seq<(Seq<char>, Seq<u8>)>) -> Seq<char>
    decreases parts.len(),
{
    if parts.len() == 0 {
        Seq::empty()
    } else {
        shown_parts(parts.drop_last()) + shown_text(parts.last().0) + shown_bytes(parts.last().1)
    }
}

/// A path in quotes.
pub open spec fn quoted_path(path: Seq<u8>) -> Seq<char> {
    let inner = if path.len() == 0 {
        Seq::empty()
    } else if valid_utf8(path) {
        shown_text(decode_utf8(path))
    } else {
        shown_parts(utf8_parts(path))
    };
    "\""@ + inner + "\""@
}

/// Appends a text as it is shown in quotes.
fn append_text(to: &mut String, text: &str)
    ensures
        final(to)@ == old(to)@ + shown_text(text@),
{
    let chars = chars_of(text);
    let mut i: usize = 0;
    assert(to@ =~= old(to)@ + shown_text(text@.take(0)));
    while i < chars.len()
        invariant
            i <= chars@.len(),
            chars@ == text@,
            to@ == old(to)@ + shown_text(text@.take(i as int)),
        decreases chars@.len() - i,
    {
        let c = chars[i];
        assert(text@.take(i + 1).drop_last() =~= text@.take(i as int));
        assert(text@.take(i + 1).last() == c);
        if ' ' <= c && c <= '~' && c != '"' && c != '\\' {
            let one = text.substring_char(i, i + 1);
            assert(one@ =~= seq![c]);
            to.append(one);
        } else {
            to.append(escape_char(c).as_str());
        }
        assert(to@ =~= old(to)@ + shown_text(text@.take(i + 1)));
        i += 1;
    }
    assert(text@.take(i as int) =~= text@);
}

/// Appends bytes that are not UTF-8, as they are shown in quotes.
fn append_bytes_shown(to: &mut String, bytes: &[u8])
    ensures
        final(to)@ == old(to)@ + shown_bytes(bytes@),
{
    proof {
        reveal_strlit("0123456789ABCDEF");
    }
    let mut i: usize = 0;
    assert(to@ =~= old(to)@ + shown_bytes(bytes@.take(0)));
    while i < bytes.len()
        invariant
            i <= bytes@.len(),
            "0123456789ABCDEF"@.len() == 16,
            to@ == old(to)@ + shown_bytes(bytes@.take(i as int)),
        decreases bytes@.len() - i,
    {
        let b: u8 = bytes[i];
        assert(bytes@.take(i + 1).drop_last() =~= bytes@.take(i as int));
        assert(bytes@.take(i + 1).last() == b);
        let high: usize = (b / 16) as usize;
        let low: usize = (b % 16) as usize;
        let ghost upper = "0123456789ABCDEF"@;
        to.append("\\x");
        to.append("0123456789ABCDEF".substring_char(high, high + 1));
        to.append("0123456789ABCDEF".substring_char(low, low + 1));
        assert(upper.subrange(high as int, high + 1) + upper.subrange(low as int, low + 1)
            =~= seq![upper[b as int / 16], upper[b as int % 16]]);
        assert(to@ =~= old(to)@ + shown_bytes(bytes@.take(i + 1)));
        i += 1;
    }
    assert(bytes@.take(i as int) =~= bytes@);
}

/// Puts a path into quotes.
pub fn quote_path(path: &[u8]) -> (r: String)
    ensures
        r@ == quoted_path(path@),
{
    let mut r = "\"".to_owned();
    if path.len() > 0 {
        let parts = split_utf8(path);
        let ghost views = part_views(parts@);
        let ghost start = r@;
        let mut i: usize = 0;
        assert(r@ =~= start + shown_parts(views.take(0)));
        while i < parts.len()
            invariant
                i <= parts@.len(),
                views == part_views(parts@),
                r@ == start + shown_parts(views.take(i as int)),
            decreases parts@.len() - i,
        {
            assert(views.take(i + 1).drop_last() =~= views.take(i as int));
            assert(views.take(i + 1).last() == views[i as int]);
            append_text(&mut r, parts[i].0.as_str());
            append_bytes_shown(&mut r, parts[i].1.as_slice());
            assert(r@ =~= start + shown_parts(views.take(i + 1)));
            i += 1;
        }
        assert(views.take(i as int) =~= views);
        proof {
            if valid_utf8(path@) {
                let text = decode_utf8(path@);
                let one = seq![(text, Seq::<u8>::empty())];
                assert(one.drop_last() =~= Seq::empty());
                assert(shown_parts(one.drop_last()) =~= Seq::empty());
                assert(shown_bytes(Seq::<u8>::empty()) =~= Seq::empty());
                assert(shown_parts(one) =~= shown_text(text));
            }
        }
    }
    r.append("\"");
    assert(r@ =~= quoted_path(path@));
    r
}

/// A byte with its escape: printable ASCII is shown as it is; quotes, the backslash, tabs, line feeds
/// and carriage returns have a backslash, and all other bytes two hexadecimal digits.
pub open spec fn escaped_byte(b: u8) -> Seq<char> {
    let lower = "0123456789abcdef"@;
    if b == 0x09 {
        "\\t"@
    } else if b == 0x0a {
        "\\n"@
    } else if b == 0x0d {
        "\\r"@
    } else if b == 0x22 || b == 0x27 || b == 0x5c {
        "\\"@.push(b as char)
    } else if 0x20 <= b <= 0x7e {
        seq![b as char]
    } else {
        "\\x"@ + seq![lower[b as int / 16], lower[b as int % 16]]
    }
}

/// Bytes with their escapes.
pub open spec fn escaped_bytes(bytes: Seq<u8>) -> Seq<char>
    decreases bytes.len(),
{
    if bytes.len() == 0 {
        Seq::empty()
    } else {
        escaped_bytes(bytes.drop_last()) + escaped_byte(bytes.last())
    }
}

/// The printable ASCII characters stand in this text in the order of their codes.
proof fn lemma_printable(b: u8)
    requires
        0x20 <= b <= 0x7e,
    ensures
        " !\"#$%&'()*+,-./0123456789:;<=>?@ABCDEFGHIJKLMNOPQRSTUVWXYZ[\\]^_`abcdefghijklmnopqrstuvwxyz{|}~"@.len() == 95,
        " !\"#$%&'()*+,-./0123456789:;<=>?@ABCDEFGHIJKLMNOPQRSTUVWXYZ[\\]^_`abcdefghijklmnopqrstuvwxyz{|}~"@[b - 0x20] == b as char,
{
    reveal_strlit(" !\"#$%&'()*+,-./0123456789:;<=>?@ABCDEFGHIJKLMNOPQRSTUVWXYZ[\\]^_`abcdefghijklmnopqrstuvwxyz{|}~");
}

/// Appends a printable ASCII character.
fn append_printable(to: &mut String, b: u8)
    requires
        0x20 <= b <= 0x7e,
    ensures
        final(to)@ == old(to)@.push(b as char),
{
    proof {
        lemma_printable(b);
    }
    let at: usize = (b - 0x20) as usize;
    to.append(" !\"#$%&'()*+,-./0123456789:;<=>?@ABCDEFGHIJKLMNOPQRSTUVWXYZ[\\]^_`abcdefghijklmnopqrstuvwxyz{|}~".substring_char(at, at + 1));
    assert(to@ =~= old(to)@.push(b as char));
}

/// Appends a byte with its escape.
fn append_escaped_byte(to: &mut String, b: u8)
    ensures
        final(to)@ == old(to)@ + escaped_byte(b),
{
    if b == 0x09 {
        to.append("\\t");
    } else if b == 0x0a {
        to.append("\\n");
    } else if b == 0x0d {
        to.append("\\r");
    } else if b == 0x22 || b == 0x27 || b == 0x5c {
        to.append("\\");
        append_printable(to, b);
        assert(to@ =~= old(to)@ + escaped_byte(b));
    } else if 0x20 <= b && b <= 0x7e {
        append_printable(to, b);
        assert(to@ =~= old(to)@ + escaped_byte(b));
    } else {
        proof {
            reveal_strlit("0123456789abcdef");
        }
        let high: usize = (b / 16) as usize;
        let low: usize = (b % 16) as usize;
        to.append("\\x");
        to.append("0123456789abcdef".substring_char(high, high + 1));
        to.append("0123456789abcdef".substring_char(low, low + 1));
        assert(to@ =~= old(to)@ + escaped_byte(b));
    }
}

/// Escapes bytes.
fn escape_bytes(bytes: &[u8]) -> (r: String)
    ensures
        r@ == escaped_bytes(bytes@),
{
    let mut r = String::new();
    let mut i: usize = 0;
    assert(r@ =~= escaped_bytes(bytes@.take(0)));
    while i < bytes.len()
        invariant
            i <= bytes@.len(),
            r@ == escaped_bytes(bytes@.take(i as int)),
        decreases bytes@.len() - i,
    {
        assert(bytes@.take(i + 1).drop_last() =~= bytes@.take(i as int));
        assert(bytes@.take(i + 1).last() == bytes@[i as int]);
        append_escaped_byte(&mut r, bytes[i]);
        i += 1;
    }
    assert(bytes@.take(i as int) =~= bytes@);
    r
}

/// The name of an extended attribute in quotes.
pub open spec fn quoted_name(name: Seq<u8>) -> Seq<char> {
    "\""@ + escaped_bytes(name) + "\""@
}

/// Puts the name of an extended attribute into quotes.
pub fn quote_name(name: &[u8]) -> (r: String)
    ensures
        r@ == quoted_name(name@),
{
    let mut r = joined_text("\"", escape_bytes(name).as_str());
    r.append("\"");
    r
}

} // verus!
