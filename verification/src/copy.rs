//! How the contents of a file are copied into an archive.
//!
//! The size of a file is written before its contents, so exactly that many bytes have to follow:
//! of a file that has grown since, the rest is left out, and a file that has shrunk is filled up with
//! zeros.

use vstd::prelude::*;
use vstd::string::*;

use crate::text::{joined_text, quote_path, quoted_path};

verus! {

/// A piece of a file that was read.
#[derive(Clone, Copy, Debug, PartialEq, Eq, Structural)]
pub struct Piece {
    /// The number of its bytes that go into the archive.
    pub len: usize,
    /// Whether the file has grown: there are more bytes than there were at first.
    pub grew: bool,
}

/// What to do after a piece of a file was read.
#[derive(Clone, Copy, Debug, PartialEq, Eq, Structural)]
pub enum CopyNext {
    /// Write the first bytes of the piece.
    Write {
        /// The number of bytes.
        len: usize,
        /// Whether the file has grown.
        grew: bool,
    },
    /// The file has ended before its time: report it, and write so many zeros.
    Pad(u64),
}

/// The copy of a file.
#[derive(Debug)]
pub struct FileCopy {
    remaining: u64,
}

impl View for FileCopy {
    type V = u64;

    /// The number of bytes that are still to be written.
    closed spec fn view(&self) -> u64 {
        self.remaining
    }
}

/// The number of bytes of a piece that go into the archive, if so many are still to be written.
pub open spec fn taken(remaining: int, got: int) -> int {
    if got > remaining {
        remaining
    } else {
        got
    }
}

/// What to do after a piece of `got` bytes was read, and how many bytes are still to be written then.
pub open spec fn next_copy(remaining: u64, got: usize) -> (CopyNext, u64) {
    if remaining > 0 && got == 0 {
        (CopyNext::Pad(remaining), 0)
    } else {
        let len = taken(remaining as int, got as int);
        (CopyNext::Write { len: len as usize, grew: got > remaining }, (remaining - len) as u64)
    }
}

impl FileCopy {
    /// Starts the copy of a file of this size.
    pub fn new(file_size: u64) -> (r: FileCopy)
        ensures
            r@ == file_size,
    {
        FileCopy { remaining: file_size }
    }

    /// The number of bytes that are still to be written.
    pub fn remaining(&self) -> (r: u64)
        ensures
            r == self@,
    {
        self.remaining
    }

    /// Takes a piece of `got` bytes.
    pub fn take(&mut self, got: usize) -> (r: Piece)
        ensures
            r.len == taken(old(self)@ as int, got as int),
            r.grew == (got > old(self)@),
            final(self)@ == old(self)@ - r.len,
    {
        let mut len: usize = got;
        let mut grew = false;
        if got as u64 > self.remaining {
            grew = true;
            len = self.remaining as usize;
        }
        self.remaining -= len as u64;
        Piece { len, grew }
    }

    /// Decides what to do after a piece of `got` bytes was read; 0 stands for the end of the file.
    pub fn after_read(&mut self, got: usize) -> (r: CopyNext)
        ensures
            (r, final(self)@) == next_copy(old(self)@, got),
    {
        if self.remaining > 0 && got == 0 {
            let missing: u64 = self.remaining;
            self.remaining = 0;
            return CopyNext::Pad(missing);
        }
        let piece = self.take(got);
        CopyNext::Write { len: piece.len, grew: piece.grew }
    }

    /// Takes a piece of zeros, out of a buffer of this size.
    pub fn fill(&mut self, buffer_len: usize) -> (r: usize)
        ensures
            r == taken(old(self)@ as int, buffer_len as int),
            final(self)@ == old(self)@ - r,
    {
        let len: usize = if (buffer_len as u64) < self.remaining {
            buffer_len
        } else {
            self.remaining as usize
        };
        self.remaining -= len as u64;
        len
    }
}

/// The report on a file that has grown.
pub fn report_file_grew_while_reading(path: &[u8]) -> (r: String)
    ensures
        r@ == "warning: file size increased while reading: "@ + quoted_path(path@) + ", file will be truncated!"@,
{
    let mut r = joined_text("warning: file size increased while reading: ", quote_path(path).as_str());
    r.append(", file will be truncated!");
    r
}

/// The report on a file that has shrunk.
pub fn report_file_shrunk_while_reading(path: &[u8]) -> (r: String)
    ensures
        r@ == "warning: file size shrunk while reading: "@ + quoted_path(path@) + ", file will be padded with zeros!"@,
{
    let mut r = joined_text("warning: file size shrunk while reading: ", quote_path(path).as_str());
    r.append(", file will be padded with zeros!");
    r
}

/// The sum of a number of sizes.
pub open spec fn total(sizes: Seq<usize>) -> int
    decreases sizes.len(),
{
    if sizes.len() == 0 {
        0
    } else {
        total(sizes.drop_last()) + sizes.last()
    }
}

/// The number of bytes that are still to be written after pieces of these sizes.
pub open spec fn remaining_after(file_size: u64, sizes: Seq<usize>) -> int
    decreases sizes.len(),
{
    if sizes.len() == 0 {
        file_size as int
    } else {
        let remaining = remaining_after(file_size, sizes.drop_last());
        remaining - taken(remaining, sizes.last() as int)
    }
}

/// Exactly as many bytes are written as the file had at first, if the pieces hold so many: a file
/// that has grown is cut off. Of a file that has shrunk all bytes are written, and the rest remains.
pub proof fn law_copy_has_the_first_size(file_size: u64, sizes: Seq<usize>)
    ensures
        remaining_after(file_size, sizes) == if total(sizes) <= file_size {
            file_size - total(sizes)
        } else {
            0
        },
        total(sizes) >= 0,
    decreases sizes.len(),
{
    if sizes.len() > 0 {
        law_copy_has_the_first_size(file_size, sizes.drop_last());
    }
}

/// Zeros fill what remains of a file up: every piece out of a buffer that is not empty brings the
/// copy nearer to its end, and no piece exceeds it.
pub proof fn law_filling_ends(remaining: u64, buffer_len: usize)
    requires
        remaining > 0,
        buffer_len > 0,
    ensures
        0 < taken(remaining as int, buffer_len as int) <= remaining,
{
}

/// So many zeros.
pub open spec fn zeros(n: nat) -> Seq<u8> {
    Seq::new(n, |i: int| 0u8)
}

/// What is written for a file of which these pieces are read, one after the other, while bytes are
/// still to be written. An empty piece stands for the end of the file.
pub open spec fn copied(remaining: u64, pieces: Seq<Seq<u8>>) -> Seq<u8>
    decreases pieces.len(),
{
    if remaining == 0 || pieces.len() == 0 {
        Seq::empty()
    } else {
        match next_copy(remaining, pieces[0].len() as usize) {
            (CopyNext::Pad(n), _) => zeros(n as nat),
            (CopyNext::Write { len, .. }, rest) => pieces[0].take(len as int) + copied(
                rest,
                pieces.drop_first(),
            ),
        }
    }
}

/// The bytes of a file: those of the pieces up to its end.
pub open spec fn file_bytes(pieces: Seq<Seq<u8>>) -> Seq<u8>
    decreases pieces.len(),
{
    if pieces.len() == 0 || pieces[0].len() == 0 {
        Seq::empty()
    } else {
        pieces[0] + file_bytes(pieces.drop_first())
    }
}

/// Whether the end of a file is among its pieces.
pub open spec fn reaches_end(pieces: Seq<Seq<u8>>) -> bool {
    exists|i: int| 0 <= i < pieces.len() && (#[trigger] pieces[i]).len() == 0
}

/// Exactly as many bytes are written as the file had at first, whether it has grown or shrunk since:
/// its bytes, cut off or filled up with zeros.
pub proof fn law_written_and_padded_is_the_first_size(file_size: u64, pieces: Seq<Seq<u8>>)
    requires
        forall|i: int| 0 <= i < pieces.len() ==> (#[trigger] pieces[i]).len() <= usize::MAX,
        reaches_end(pieces) || file_bytes(pieces).len() >= file_size,
    ensures
        copied(file_size, pieces).len() == file_size,
        copied(file_size, pieces) == if file_bytes(pieces).len() >= file_size {
            file_bytes(pieces).take(file_size as int)
        } else {
            file_bytes(pieces) + zeros((file_size - file_bytes(pieces).len()) as nat)
        },
    decreases pieces.len(),
{
    let bytes = file_bytes(pieces);
    if file_size == 0 {
        assert(bytes.take(0) =~= Seq::empty());
    } else if pieces[0].len() == 0 {
        assert(zeros(file_size as nat) =~= bytes + zeros(file_size as nat));
    } else {
        let first = pieces[0];
        let rest = pieces.drop_first();
        let len = taken(file_size as int, first.len() as int);
        let left = (file_size - len) as u64;
        assert forall|i: int| 0 <= i < rest.len() implies (#[trigger] rest[i]).len() <= usize::MAX by {
            assert(rest[i] == pieces[i + 1]);
        }
        if left == 0 {
            assert(copied(left, rest) =~= Seq::empty());
            assert(first.take(len) =~= bytes.take(file_size as int));
            assert(copied(file_size, pieces) =~= first.take(len));
        } else {
            if reaches_end(pieces) {
                let i = choose|i: int| 0 <= i < pieces.len() && (#[trigger] pieces[i]).len() == 0;
                assert(rest[i - 1] == pieces[i]);
            }
            law_written_and_padded_is_the_first_size(left, rest);
            assert(first.take(len) =~= first);
            if bytes.len() >= file_size {
                assert(first + file_bytes(rest).take(left as int) =~= bytes.take(file_size as int));
            } else {
                let missing = (file_size - bytes.len()) as nat;
                assert(first + (file_bytes(rest) + zeros(missing)) =~= bytes + zeros(missing));
            }
        }
    }
}

/// The number of times that a file is reported to have shrunk while these pieces are read.
pub open spec fn shrunk_reports(remaining: u64, pieces: Seq<Seq<u8>>) -> int
    decreases pieces.len(),
{
    if remaining == 0 || pieces.len() == 0 {
        0
    } else {
        let (next, rest) = next_copy(remaining, pieces[0].len() as usize);
        (if next is Pad {
            1int
        } else {
            0
        }) + shrunk_reports(rest, pieces.drop_first())
    }
}

/// A file that ends before its first size is reported once, and any other file never.
pub proof fn law_shrunk_file_is_reported_once(file_size: u64, pieces: Seq<Seq<u8>>)
    requires
        forall|i: int| 0 <= i < pieces.len() ==> (#[trigger] pieces[i]).len() <= usize::MAX,
        reaches_end(pieces) || file_bytes(pieces).len() >= file_size,
    ensures
        shrunk_reports(file_size, pieces) == if file_bytes(pieces).len() >= file_size {
            0int
        } else {
            1
        },
    decreases pieces.len(),
{
    if file_size > 0 {
        let first = pieces[0];
        let rest = pieces.drop_first();
        let left = next_copy(file_size, first.len() as usize).1;
        assert forall|i: int| 0 <= i < rest.len() implies (#[trigger] rest[i]).len() <= usize::MAX by {
            assert(rest[i] == pieces[i + 1]);
        }
        if left > 0 {
            if reaches_end(pieces) {
                let i = choose|i: int| 0 <= i < pieces.len() && (#[trigger] pieces[i]).len() == 0;
                assert(rest[i - 1] == pieces[i]);
            }
            law_shrunk_file_is_reported_once(left, rest);
        } else {
            assert(shrunk_reports(left, rest) == 0);
        }
    }
}

/// A piece is written as far as bytes are missing, and no further; it is a sign that the file has grown
/// if and only if it holds more. Only an empty piece, while bytes are missing, is the early end of the
/// file: all missing bytes are filled up then.
pub proof fn law_piece_is_cut_off(remaining: u64, got: usize)
    ensures
        next_copy(remaining, got).0 matches CopyNext::Write { len, grew } ==> {
            &&& len <= got && len <= remaining && (len == got || len == remaining)
            &&& grew <==> got > remaining
            &&& next_copy(remaining, got).1 == remaining - len
        },
        next_copy(remaining, got).0 matches CopyNext::Pad(n) ==> n == remaining && next_copy(remaining, got).1 == 0,
        next_copy(remaining, got).0 is Pad <==> got == 0 && remaining > 0,
{
}

/// The number of times that a file is reported to have grown while these pieces are read.
pub open spec fn grown_reports(remaining: u64, pieces: Seq<Seq<u8>>) -> int
    decreases pieces.len(),
{
    if remaining == 0 || pieces.len() == 0 {
        0
    } else {
        let (next, rest) = next_copy(remaining, pieces[0].len() as usize);
        (if next matches CopyNext::Write { grew: true, .. } {
            1int
        } else {
            0
        }) + grown_reports(rest, pieces.drop_first())
    }
}

/// A file is reported to have grown once at most, and only if it holds more bytes than it had at first;
/// if it is read in one piece, it is reported then.
pub proof fn law_grown_file_is_reported_once(file_size: u64, pieces: Seq<Seq<u8>>)
    requires
        forall|i: int| 0 <= i < pieces.len() ==> (#[trigger] pieces[i]).len() <= usize::MAX,
    ensures
        0 <= grown_reports(file_size, pieces) <= 1,
        grown_reports(file_size, pieces) == 1 ==> file_bytes(pieces).len() > file_size,
        file_size > 0 && pieces.len() > 0 && pieces[0].len() > file_size ==> grown_reports(file_size, pieces) == 1,
    decreases pieces.len(),
{
    if file_size > 0 && pieces.len() > 0 {
        let rest = pieces.drop_first();
        let left = next_copy(file_size, pieces[0].len() as usize).1;
        assert forall|i: int| 0 <= i < rest.len() implies (#[trigger] rest[i]).len() <= usize::MAX by {
            assert(rest[i] == pieces[i + 1]);
        }
        law_grown_file_is_reported_once(left, rest);
        if left == 0 {
            assert(grown_reports(left, rest) == 0);
        }
    }
}

} // verus!
