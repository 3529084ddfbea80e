//! Byte strings: file names, paths and lines are sequences of bytes, not text.

use vstd::prelude::*;

verus! {

/// `/`, the separator of path components.
pub const SLASH: u8 = 0x2f;

/// `!`, the mark that inverts a pattern.
pub const BANG: u8 = 0x21;

/// `#`, the start of a comment line.
pub const HASH: u8 = 0x23;

/// The end of a line.
pub const NEWLINE: u8 = 0x0a;

/// Whether the byte is ASCII white space: a space, a tab, a line feed, a form feed or a carriage
/// return.
pub open spec fn is_space(b: u8) -> bool {
    b == 0x20 || b == 0x09 || b == 0x0a || b == 0x0c || b == 0x0d
}

/// The lexicographic order of byte strings: a proper prefix comes before the longer string.
pub open spec fn bytes_le(a: Seq<u8>, b: Seq<u8>) -> bool
    decreases a.len(),
{
    if a.len() == 0 {
        true
    } else if b.len() == 0 {
        false
    } else if a[0] == b[0] {
        bytes_le(a.skip(1), b.skip(1))
    } else {
        a[0] < b[0]
    }
}

/// The lexicographic order is total.
pub proof fn lemma_bytes_le_total(a: Seq<u8>, b: Seq<u8>)
    ensures
        bytes_le(a, b) || bytes_le(b, a),
    decreases a.len(),
{
    if a.len() > 0 && b.len() > 0 && a[0] == b[0] {
        lemma_bytes_le_total(a.skip(1), b.skip(1));
    }
}

/// The lexicographic order is transitive.
pub proof fn lemma_bytes_le_transitive(a: Seq<u8>, b: Seq<u8>, c: Seq<u8>)
    requires
        bytes_le(a, b),
        bytes_le(b, c),
    ensures
        bytes_le(a, c),
    decreases a.len(),
{
    if a.len() > 0 && a[0] == b[0] && b[0] == c[0] {
        lemma_bytes_le_transitive(a.skip(1), b.skip(1), c.skip(1));
    }
}

/// Strings that are ordered both ways are equal.
pub proof fn lemma_bytes_le_antisymmetric(a: Seq<u8>, b: Seq<u8>)
    requires
        bytes_le(a, b),
        bytes_le(b, a),
    ensures
        a == b,
    decreases a.len(),
{
    if a.len() > 0 && b.len() > 0 {
        lemma_bytes_le_antisymmetric(a.skip(1), b.skip(1));
        assert(a =~= seq![a[0]] + a.skip(1));
        assert(b =~= seq![b[0]] + b.skip(1));
    } else {
        assert(a =~= b);
    }
}

/// Of two strings that are equal up to some place, the one with the smaller byte there comes first,
/// and one that ends there comes before a longer one; never the other way round.
pub proof fn law_byte_order(same: Seq<u8>, x: u8, y: u8, rest: Seq<u8>, other: Seq<u8>)
    requires
        x < y,
    ensures
        bytes_le(same + seq![x] + rest, same + seq![y] + other),
        !bytes_le(same + seq![y] + other, same + seq![x] + rest),
        bytes_le(same, same + seq![y] + other),
        !bytes_le(same + seq![y] + other, same),
        same + seq![x] + rest != same + seq![y] + other,
        same != same + seq![y] + other,
    decreases same.len(),
{
    let a = same + seq![x] + rest;
    let b = same + seq![y] + other;
    assert(a[same.len() as int] == x && b[same.len() as int] == y);
    if same.len() > 0 {
        let tail = same.skip(1);
        law_byte_order(tail, x, y, rest, other);
        assert(a.skip(1) =~= tail + seq![x] + rest);
        assert(b.skip(1) =~= tail + seq![y] + other);
        assert(a[0] == same[0] && b[0] == same[0]);
    }
}

/// Compares two byte strings lexicographically.
pub fn is_bytes_le(a: &[u8], b: &[u8]) -> (r: bool)
    ensures
        r == bytes_le(a@, b@),
{
    let mut i: usize = 0;
    proof {
        assert(a@.skip(0) =~= a@);
        assert(b@.skip(0) =~= b@);
    }
    while i < a.len() && i < b.len() && a[i] == b[i]
        invariant
            i <= a@.len(),
            i <= b@.len(),
            bytes_le(a@, b@) == bytes_le(a@.skip(i as int), b@.skip(i as int)),
        decreases a@.len() - i,
    {
        proof {
            assert(a@.skip(i as int).skip(1) =~= a@.skip(i + 1));
            assert(b@.skip(i as int).skip(1) =~= b@.skip(i + 1));
        }
        i += 1;
    }
    if i == a.len() {
        true
    } else if i == b.len() {
        false
    } else {
        a[i] < b[i]
    }
}

/// Compares two byte strings for equality.
pub fn bytes_eq(a: &[u8], b: &[u8]) -> (r: bool)
    ensures
        r == (a@ == b@),
{
    if a.len() != b.len() {
        return false;
    }
    let mut i: usize = 0;
    while i < a.len()
        invariant
            i <= a@.len(),
            a@.len() == b@.len(),
            forall|j: int| 0 <= j < i ==> a@[j] == b@[j],
        decreases a@.len() - i,
    {
        if a[i] != b[i] {
            return false;
        }
        i += 1;
    }
    assert(a@ =~= b@);
    true
}

/// A copy of a byte string.
pub fn bytes_copy(a: &[u8]) -> (r: Vec<u8>)
    ensures
        r@ == a@,
{
    let mut r: Vec<u8> = Vec::new();
    append_bytes(&mut r, a);
    assert(r@ =~= a@);
    r
}

/// Appends a byte string.
pub fn append_bytes(to: &mut Vec<u8>, a: &[u8])
    ensures
        final(to)@ == old(to)@ + a@,
{
    let mut i: usize = 0;
    while i < a.len()
        invariant
            i <= a@.len(),
            to@ == old(to)@ + a@.take(i as int),
        decreases a@.len() - i,
    {
        to.push(a[i]);
        i += 1;
    }
    assert(a@.take(i as int) =~= a@);
}

/// The part of a string between its leading and its trailing white space: the first and the last
/// byte that remain are not white space, and everything outside them is.
pub open spec fn is_stripped(line: Seq<u8>, from: int, to: int) -> bool {
    &&& 0 <= from <= to <= line.len()
    &&& forall|i: int| 0 <= i < from ==> is_space(#[trigger] line[i])
    &&& forall|i: int| to <= i < line.len() ==> is_space(#[trigger] line[i])
    &&& from < to ==> !is_space(line[from]) && !is_space(line[to - 1])
}

/// What is left of a line without the white space around it.
pub open spec fn stripped(line: Seq<u8>) -> Seq<u8>
    decreases line.len(),
{
    if line.len() == 0 {
        line
    } else if is_space(line[0]) {
        stripped(line.skip(1))
    } else if is_space(line.last()) {
        stripped(line.drop_last())
    } else {
        line
    }
}

/// Stripping keeps exactly the part between the outermost bytes that are not white space.
pub proof fn lemma_stripped(line: Seq<u8>, from: int, to: int)
    requires
        is_stripped(line, from, to),
    ensures
        stripped(line) == line.subrange(from, to),
    decreases line.len(),
{
    if line.len() == 0 {
        assert(line =~= line.subrange(from, to));
    } else if from > 0 {
        assert(is_space(line[0]));
        let rest = line.skip(1);
        assert forall|i: int| 0 <= i < from - 1 implies is_space(#[trigger] rest[i]) by {
            assert(rest[i] == line[i + 1]);
        }
        assert forall|i: int| to - 1 <= i < rest.len() implies is_space(#[trigger] rest[i]) by {
            assert(rest[i] == line[i + 1]);
        }
        lemma_stripped(rest, from - 1, to - 1);
        assert(rest.subrange(from - 1, to - 1) =~= line.subrange(from, to));
    } else if to == 0 {
        assert(is_space(line[0]));
        let rest = line.skip(1);
        assert forall|i: int| 0 <= i < rest.len() implies is_space(#[trigger] rest[i]) by {
            assert(rest[i] == line[i + 1]);
        }
        lemma_stripped(rest, 0, 0);
        assert(rest.subrange(0, 0) =~= line.subrange(0, 0));
    } else {
        assert(!is_space(line[0]));
        if to < line.len() {
            assert(is_space(line.last()));
            let rest = line.drop_last();
            assert forall|i: int| to <= i < rest.len() implies is_space(#[trigger] rest[i]) by {
                assert(rest[i] == line[i]);
            }
            lemma_stripped(rest, 0, to);
            assert(rest.subrange(0, to) =~= line.subrange(0, to));
        } else {
            assert(line.last() == line[to - 1]);
            assert(line =~= line.subrange(0, to));
        }
    }
}

/// Removes the white space around a line.
pub fn strip_ascii_whitespace(line: &[u8]) -> (r: &[u8])
    ensures
        r@ == stripped(line@),
{
    let mut from: usize = 0;
    while from < line.len() && space(line[from])
        invariant
            from <= line@.len(),
            forall|i: int| 0 <= i < from ==> is_space(#[trigger] line@[i]),
        decreases line@.len() - from,
    {
        from += 1;
    }
    let mut to: usize = line.len();
    while to > from && space(line[to - 1])
        invariant
            from <= to <= line@.len(),
            forall|i: int| to <= i < line@.len() ==> is_space(#[trigger] line@[i]),
        decreases to,
    {
        to -= 1;
    }
    proof {
        lemma_stripped(line@, from as int, to as int);
    }
    vstd::slice::slice_subrange(line, from, to)
}

/// Whether a byte is white space.
fn space(b: u8) -> (r: bool)
    ensures
        r == is_space(b),
{
    b == 0x20 || b == 0x09 || b == 0x0a || b == 0x0c || b == 0x0d
}

} // verus!
