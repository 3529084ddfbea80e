//! What the messages of the library promise: numbers can be read back, what needs no escape is shown as
//! it is, and each message holds its cause.

use vstd::prelude::*;
use vstd::string::*;
use vstd::utf8::*;

use crate::acl::AclErrorView;
use crate::error::{ErrorView, FailureView};
use crate::metadata::MetadataErrorView;
use crate::services::ServiceError;
use crate::steps::{warning_text, Warning};
use crate::text::{
    digit, digits, escaped_byte, escaped_bytes, escaped_char, quoted_name, quoted_path, shown_bytes, shown_parts,
    shown_text, utf8_parts,
};

verus! {

// ---------------------------------------------------------------------------------------------
// Numbers
// ---------------------------------------------------------------------------------------------

/// The number that a digit stands for.
pub open spec fn digit_value(c: char) -> int {
    if '0' <= c <= '9' {
        c as int - '0' as int
    } else {
        c as int - 'a' as int + 10
    }
}

/// The number that a text stands for, to the given base.
pub open spec fn number(text: Seq<char>, base: nat) -> int
    decreases text.len(),
{
    if text.len() == 0 {
        0
    } else {
        number(text.drop_last(), base) * base + digit_value(text.last())
    }
}

/// The sixteen digits stand for the numbers up to 15.
proof fn lemma_digit(n: int)
    requires
        0 <= n < 16,
    ensures
        digit_value(digit(n)) == n,
        '0' <= digit(n) <= '9' || 'a' <= digit(n) <= 'f',
        n > 0 ==> digit(n) != '0',
{
    reveal_strlit("0123456789abcdef");
    let d = "0123456789abcdef"@;
    assert(d.len() == 16);
    assert(d[0] == '0' && d[1] == '1' && d[2] == '2' && d[3] == '3' && d[4] == '4' && d[5] == '5');
    assert(d[6] == '6' && d[7] == '7' && d[8] == '8' && d[9] == '9' && d[10] == 'a' && d[11] == 'b');
    assert(d[12] == 'c' && d[13] == 'd' && d[14] == 'e' && d[15] == 'f');
}

/// A number is written so that it can be read back: with the digits `0` to `9` and `a` to `f`, and
/// without zeros before it.
pub proof fn law_numbers_read_back(n: nat, base: nat)
    requires
        2 <= base <= 16,
    ensures
        number(digits(n, base), base) == n,
        digits(n, base).len() > 0,
        n > 0 ==> digits(n, base)[0] != '0',
        n == 0 ==> digits(n, base) == seq!['0'],
        forall|i: int|
            0 <= i < digits(n, base).len() ==> {
                ||| '0' <= (#[trigger] digits(n, base)[i]) <= '9'
                ||| 'a' <= digits(n, base)[i] <= 'f'
            },
    decreases n,
{
    let text = digits(n, base);
    if n < base {
        lemma_digit(n as int);
        reveal_strlit("0123456789abcdef");
        reveal_with_fuel(number, 2);
        assert(text.drop_last() =~= Seq::<char>::empty());
    } else {
        assert(n / base < n && n / base > 0 && 0 <= n % base < base && (n / base) * base + n % base == n)
            by (nonlinear_arith)
            requires
                n >= base,
                base >= 2,
        ;
        law_numbers_read_back(n / base, base);
        lemma_digit((n % base) as int);
        assert(text.drop_last() =~= digits(n / base, base));
        assert forall|i: int| 0 <= i < text.len() implies {
            ||| '0' <= (#[trigger] text[i]) <= '9'
            ||| 'a' <= text[i] <= 'f'
        } by {
            if i < text.len() - 1 {
                assert(text[i] == digits(n / base, base)[i]);
            }
        }
        assert(text[0] == digits(n / base, base)[0]);
    }
}

// ---------------------------------------------------------------------------------------------
// Quotes
// ---------------------------------------------------------------------------------------------

/// A text of printable ASCII characters other than the quote and the backslash is shown as it is.
proof fn lemma_plain_text(text: Seq<char>)
    requires
        forall|i: int|
            0 <= i < text.len() ==> ' ' <= (#[trigger] text[i]) <= '~' && text[i] != '"' && text[i] != '\\',
    ensures
        shown_text(text) == text,
    decreases text.len(),
{
    if text.len() > 0 {
        let before = text.drop_last();
        assert forall|i: int| 0 <= i < before.len() implies ' ' <= (#[trigger] before[i]) <= '~' && before[i]
            != '"' && before[i] != '\\' by {
            assert(before[i] == text[i]);
        }
        lemma_plain_text(before);
        assert(text[text.len() - 1] == text.last());
        assert(shown_text(text) =~= text);
    } else {
        assert(shown_text(text) =~= text);
    }
}

/// A path of printable ASCII characters other than the quote and the backslash is shown as it is,
/// between quotes.
pub proof fn law_plain_path_is_shown_as_it_is(text: Seq<char>)
    requires
        forall|i: int|
            0 <= i < text.len() ==> ' ' <= (#[trigger] text[i]) <= '~' && text[i] != '"' && text[i] != '\\',
    ensures
        quoted_path(encode_utf8(text)) == seq!['"'] + text + seq!['"'],
{
    broadcast use {encode_utf8_valid_utf8, encode_utf8_decode_utf8};

    reveal_strlit("\"");
    lemma_plain_text(text);
    if text.len() == 0 {
        assert(encode_utf8(text) =~= Seq::empty());
    } else if encode_utf8(text).len() == 0 {
        assert(decode_utf8(encode_utf8(text)) == text);
        assert(decode_utf8(Seq::<u8>::empty()) =~= Seq::<char>::empty());
        assert(encode_utf8(text) =~= Seq::<u8>::empty());
    }
    assert(quoted_path(encode_utf8(text)) =~= seq!['"'] + text + seq!['"']);
}

/// Every path is shown between quotes.
pub proof fn law_path_is_between_quotes(path: Seq<u8>)
    ensures
        quoted_path(path).len() >= 2,
        quoted_path(path)[0] == '"',
        quoted_path(path)[quoted_path(path).len() - 1] == '"',
{
    reveal_strlit("\"");
}

/// Each part of a text is shown by itself.
pub proof fn law_text_is_shown_part_by_part(a: Seq<char>, b: Seq<char>)
    ensures
        shown_text(a + b) == shown_text(a) + shown_text(b),
    decreases b.len(),
{
    if b.len() == 0 {
        assert(a + b =~= a);
        assert(shown_text(a + b) =~= shown_text(a) + shown_text(b));
    } else {
        assert((a + b).drop_last() =~= a + b.drop_last());
        law_text_is_shown_part_by_part(a, b.drop_last());
        assert(shown_text(a + b) =~= shown_text(a) + shown_text(b));
    }
}

/// Any other character is shown by its escape; and a path that is not UTF-8 as a whole by its parts, one
/// after the other, each as a text and then the bytes behind it.
pub proof fn law_other_paths_are_shown_by_their_parts(
    c: char,
    path: Seq<u8>,
    parts: Seq<(Seq<char>, Seq<u8>)>,
    part: (Seq<char>, Seq<u8>),
)
    ensures
        c < ' ' || c > '~' || c == '"' || c == '\\' ==> shown_text(seq![c]) == escaped_char(c),
        path.len() > 0 && !valid_utf8(path) ==> quoted_path(path) == seq!['"'] + shown_parts(utf8_parts(path))
            + seq!['"'],
        shown_parts(parts.push(part)) == shown_parts(parts) + shown_text(part.0) + shown_bytes(part.1),
        shown_parts(Seq::<(Seq<char>, Seq<u8>)>::empty()).len() == 0,
{
    reveal_strlit("\"");
    reveal_with_fuel(shown_text, 2);
    assert(seq![c].drop_last() =~= Seq::<char>::empty());
    assert(c < ' ' || c > '~' || c == '"' || c == '\\' ==> shown_text(seq![c]) =~= escaped_char(c));
    assert(parts.push(part).drop_last() =~= parts);
    if path.len() > 0 && !valid_utf8(path) {
        assert(quoted_path(path) =~= seq!['"'] + shown_parts(utf8_parts(path)) + seq!['"']);
    }
}

/// The number that two hexadecimal digits stand for, where the digits above 9 start with `a`, or with
/// `A`.
pub open spec fn hex_value(high: char, low: char, ten: char) -> int {
    let value = |c: char| if '0' <= c <= '9' {
        c as int - '0' as int
    } else {
        c as int - ten as int + 10
    };
    value(high) * 16 + value(low)
}

/// A byte that is not UTF-8 is shown by its number, in two hexadecimal digits; one after the other.
pub proof fn law_other_bytes_are_shown_by_their_number(bytes: Seq<u8>, b: u8)
    ensures
        ({
            let shown = shown_bytes(bytes.push(b));
            let n: int = shown_bytes(bytes).len() as int;
            &&& shown.len() == n + 4
            &&& shown.take(n) == shown_bytes(bytes)
            &&& shown[n] == '\\' && shown[n + 1] == 'x'
            &&& hex_value(shown[n + 2], shown[n + 3], 'A') == b
        }),
        shown_bytes(Seq::<u8>::empty()).len() == 0,
{
    reveal_strlit("0123456789ABCDEF");
    reveal_strlit("\\x");
    let d = "0123456789ABCDEF"@;
    assert(d.len() == 16);
    assert(d[0] == '0' && d[1] == '1' && d[2] == '2' && d[3] == '3' && d[4] == '4' && d[5] == '5');
    assert(d[6] == '6' && d[7] == '7' && d[8] == '8' && d[9] == '9' && d[10] == 'A' && d[11] == 'B');
    assert(d[12] == 'C' && d[13] == 'D' && d[14] == 'E' && d[15] == 'F');
    assert(bytes.push(b).drop_last() =~= bytes);
    let shown = shown_bytes(bytes.push(b));
    let n: int = shown_bytes(bytes).len() as int;
    let high = b as int / 16;
    let low = b as int % 16;
    assert(0 <= high < 16 && 0 <= low < 16 && high * 16 + low == b);
    assert(shown.take(n) =~= shown_bytes(bytes));
    assert(shown[n + 2] == d[high] && shown[n + 3] == d[low]);
    lemma_hex(d[high], d[low], 'A', high, low);
}

/// Two digits stand for the number that they stand for one by one.
proof fn lemma_hex(a: char, b: char, ten: char, high: int, low: int)
    requires
        0 <= high < 16,
        0 <= low < 16,
        ten == 'A' || ten == 'a',
        high < 10 ==> a as int == '0' as int + high,
        high >= 10 ==> a as int == ten as int + high - 10,
        low < 10 ==> b as int == '0' as int + low,
        low >= 10 ==> b as int == ten as int + low - 10,
    ensures
        hex_value(a, b, ten) == high * 16 + low,
{
}

/// The bytes of a name are escaped one after the other: printable ASCII is shown as it is, quotes and
/// the backslash behind a backslash, a tab, a line feed and a carriage return by a letter behind one,
/// and any other byte by its number in two hexadecimal digits.
pub proof fn law_names_are_escaped_byte_by_byte(bytes: Seq<u8>, b: u8)
    ensures
        escaped_bytes(Seq::<u8>::empty()).len() == 0,
        escaped_bytes(bytes.push(b)) == escaped_bytes(bytes) + escaped_byte(b),
        0x20 <= b <= 0x7e && b != 0x22 && b != 0x27 && b != 0x5c ==> escaped_byte(b) == seq![b as char],
        b == 0x22 || b == 0x27 || b == 0x5c ==> escaped_byte(b) == seq!['\\', b as char],
        b == 0x09 ==> escaped_byte(b) == seq!['\\', 't'],
        b == 0x0a ==> escaped_byte(b) == seq!['\\', 'n'],
        b == 0x0d ==> escaped_byte(b) == seq!['\\', 'r'],
        (b < 0x20 || b > 0x7e) && b != 0x09 && b != 0x0a && b != 0x0d ==> {
            &&& escaped_byte(b).len() == 4
            &&& escaped_byte(b)[0] == '\\' && escaped_byte(b)[1] == 'x'
            &&& hex_value(escaped_byte(b)[2], escaped_byte(b)[3], 'a') == b
        },
        quoted_name(bytes) == seq!['"'] + escaped_bytes(bytes) + seq!['"'],
{
    reveal_strlit("0123456789abcdef");
    reveal_strlit("\\x");
    reveal_strlit("\\");
    reveal_strlit("\\t");
    reveal_strlit("\\n");
    reveal_strlit("\\r");
    reveal_strlit("\"");
    let d = "0123456789abcdef"@;
    assert(d.len() == 16);
    assert(d[0] == '0' && d[1] == '1' && d[2] == '2' && d[3] == '3' && d[4] == '4' && d[5] == '5');
    assert(d[6] == '6' && d[7] == '7' && d[8] == '8' && d[9] == '9' && d[10] == 'a' && d[11] == 'b');
    assert(d[12] == 'c' && d[13] == 'd' && d[14] == 'e' && d[15] == 'f');
    assert(bytes.push(b).drop_last() =~= bytes);
    assert(b == 0x09 ==> escaped_byte(b) =~= seq!['\\', 't']);
    assert(b == 0x0a ==> escaped_byte(b) =~= seq!['\\', 'n']);
    assert(b == 0x0d ==> escaped_byte(b) =~= seq!['\\', 'r']);
    assert(b == 0x22 || b == 0x27 || b == 0x5c ==> escaped_byte(b) =~= seq!['\\', b as char]);
    let high = b as int / 16;
    let low = b as int % 16;
    assert(0 <= high < 16 && 0 <= low < 16 && high * 16 + low == b);
    lemma_hex(d[high], d[low], 'a', high, low);
    assert(quoted_name(bytes) =~= seq!['"'] + escaped_bytes(bytes) + seq!['"']);
}

// ---------------------------------------------------------------------------------------------
// Messages
// ---------------------------------------------------------------------------------------------

/// The message of an error is its cause, after its path where it has one.
pub proof fn law_error_messages(
    path: Seq<u8>,
    cause: FailureView,
    message: Seq<char>,
    limit: usize,
    file_type: u64,
)
    ensures
        ErrorView::Plain(cause).text() == cause.text(),
        ErrorView::At(path, cause).text() == "error at "@ + quoted_path(path) + ": "@ + cause.text(),
        ErrorView::Plain(cause).wrapped(path) == ErrorView::At(path, cause),
        FailureView::Outside(message).text() == message,
        FailureView::Pattern(message).text() == message,
        FailureView::VirtualFileSystem.text() == "refusing to backup a virtual file system"@,
        FailureView::SourceMetadata(message).text() == "failed to get metadata for source directory: "@ + message,
        FailureView::EntryLimit(limit).text() == "exceeded allowed number of file entries (> "@ + digits(
            limit as nat,
            10,
        ) + ")"@,
        FailureView::Stat(path, message).text() == "stat failed on "@ + quoted_path(path) + ": "@ + message,
        FailureView::UnknownFileType(file_type).text() == "encountered unknown file type: 0x"@ + digits(
            file_type as nat,
            16,
        ) + " (0o"@ + digits(file_type as nat, 8) + ")"@,
{
}

/// The message of an error in reading metadata names what could not be read, and ends with the cause.
pub proof fn law_metadata_messages(name: Seq<u8>, message: Seq<char>, list: AclErrorView)
    ensures
        MetadataErrorView::Fcaps(message).text() == "failed to read file capabilities: "@ + message,
        MetadataErrorView::Xattrs(message).text() == "failed to read xattrs: "@ + message,
        MetadataErrorView::Xattr(name, message).text() == "error reading extended attribute "@ + quoted_name(name)
            + ": "@ + message,
        MetadataErrorView::Acl(message).text() == "error while reading ACL - "@ + message,
        MetadataErrorView::BadAcl(list).text() == list.text(),
        MetadataErrorView::Chattr(message).text() == "failed to read file attributes: "@ + message,
        MetadataErrorView::FatAttr(message).text() == "failed to read fat attributes: "@ + message,
        MetadataErrorView::Quota(Some(message)).text() == "error while reading quota project id ("@ + message
            + ")"@,
        MetadataErrorView::Quota(None).text() == "error while reading quota project id"@,
        AclErrorView::Item(message).text() == message,
        AclErrorView::UnexpectedTag.text() == "Unexpected ACL tag encountered!"@,
        AclErrorView::UnexpectedType.text() == "Unexpected ACL type encountered"@,
{
}

/// The message of a warning names the directory, and ends with the cause.
pub proof fn law_warning_messages(path: Seq<u8>, message: Seq<char>)
    ensures
        warning_text(Warning::BadPattern(path, message)) == "bad pattern in "@ + quoted_path(path) + ": "@ + message,
        warning_text(Warning::UnreadableExcludes(path, message))
            == "ignoring .pxarexclude after read error in "@ + quoted_path(path) + ": "@ + message,
{
}

/// The message of an error with a service names the service, the command or the status.
pub proof fn law_service_messages(service: String, cmd: String, status: String)
    ensures
        ServiceError::UnknownService(service)@ == "unknown service name '"@ + service@ + "'"@,
        ServiceError::UnknownCommand(cmd)@ == "unknown service command '"@ + cmd@ + "'"@,
        ServiceError::Essential(service, cmd)@ == "invalid service cmd '"@ + service@ + " "@ + cmd@
            + "' cannot stop essential service!"@,
        ServiceError::ShowFailed(status)@ == "systemctl show failed with "@ + status@,
        ServiceError::CommandFailed(cmd, status)@ == "systemctl "@ + cmd@ + " failed with "@ + status@,
        ServiceError::Outside(status)@ == status@,
{
}

} // verus!
