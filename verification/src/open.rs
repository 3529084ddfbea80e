//! How files are opened: a file that vanished or may not be read is passed over, and a file whose
//! access time may not be left alone is opened nevertheless.

use vstd::prelude::*;
use vstd::string::*;

use crate::text::{joined_text, quote_name, quote_path, quoted_name, quoted_path};

verus! {

/// How a file is opened, for reading.
#[derive(Clone, Copy, Debug, PartialEq, Eq, Structural)]
pub struct OpenFlags {
    /// Only the place in the file system is opened, not the contents.
    pub path_only: bool,
    /// A symbolic link is not followed.
    pub no_follow: bool,
    /// The file is closed when another program is started.
    pub close_on_exec: bool,
    /// A terminal does not become the one of the process.
    pub no_ctty: bool,
    /// The access time is left alone.
    pub no_atime: bool,
}

impl OpenFlags {
    /// How a file is opened at first.
    pub open spec fn spec_first(path_only: bool, no_follow: bool) -> OpenFlags {
        OpenFlags { path_only, no_follow, close_on_exec: true, no_ctty: true, no_atime: true }
    }

    /// How a file is opened at first.
    pub fn first(path_only: bool, no_follow: bool) -> (r: OpenFlags)
        ensures
            r == OpenFlags::spec_first(path_only, no_follow),
    {
        OpenFlags { path_only, no_follow, close_on_exec: true, no_ctty: true, no_atime: true }
    }
}

/// What came of opening a file.
#[derive(Debug, PartialEq, Eq)]
pub enum Opened {
    /// It is open.
    File,
    /// There is no such file.
    NotFound,
    /// The file may not be read.
    AccessDenied,
    /// The file may not be opened in this way.
    NotPermitted(String),
    /// Anything else.
    Failed(String),
}

/// What to do after a file was opened, or was not.
#[derive(Debug, PartialEq, Eq)]
pub enum OpenNext {
    /// Go on with the open file.
    Use,
    /// Open it again in this way.
    Retry(OpenFlags),
    /// Pass the file over.
    Skip,
    /// Report that the file has vanished, and pass it over.
    ReportVanished,
    /// Report that the file may not be read, and pass it over.
    ReportDenied,
    /// Give up.
    Fail(String),
}

/// What to do after a file was opened with these flags, or was not. `existed` says whether the
/// file is known to have been there.
pub open spec fn after_open(flags: OpenFlags, existed: bool, opened: Opened) -> OpenNext {
    match opened {
        Opened::File => OpenNext::Use,
        Opened::NotFound => if existed {
            OpenNext::ReportVanished
        } else {
            OpenNext::Skip
        },
        Opened::AccessDenied => OpenNext::ReportDenied,
        Opened::NotPermitted(message) => if flags.no_atime {
            OpenNext::Retry(OpenFlags { no_atime: false, ..flags })
        } else {
            OpenNext::Fail(message)
        },
        Opened::Failed(message) => OpenNext::Fail(message),
    }
}

/// Decides what to do after a file was opened, or was not.
pub fn open_file(flags: OpenFlags, existed: bool, opened: Opened) -> (r: OpenNext)
    ensures
        r == after_open(flags, existed, opened),
{
    match opened {
        Opened::File => OpenNext::Use,
        Opened::NotFound => if existed {
            OpenNext::ReportVanished
        } else {
            OpenNext::Skip
        },
        Opened::AccessDenied => OpenNext::ReportDenied,
        Opened::NotPermitted(message) => if flags.no_atime {
            OpenNext::Retry(OpenFlags { no_atime: false, ..flags })
        } else {
            OpenNext::Fail(message)
        },
        Opened::Failed(message) => OpenNext::Fail(message),
    }
}

/// The report on a file that has vanished.
pub fn report_vanished_file(path: &[u8]) -> (r: String)
    ensures
        r@ == "warning: file vanished while reading: "@ + quoted_path(path@),
{
    joined_text("warning: file vanished while reading: ", quote_path(path).as_str())
}

/// The report on a file that may not be read.
pub fn report_denied_file(name: &[u8]) -> (r: String)
    ensures
        r@ == "failed to open file: "@ + quoted_name(name@) + ": access denied"@,
{
    let mut r = joined_text("failed to open file: ", quote_name(name).as_str());
    r.append(": access denied");
    r
}

/// A file is opened twice at most, and the second time in the same way but for its access time.
pub proof fn law_opened_twice_at_most(flags: OpenFlags, existed: bool, first: Opened, second: Opened)
    ensures
        after_open(flags, existed, first) matches OpenNext::Retry(again) ==> {
            &&& again == (OpenFlags { no_atime: false, ..flags })
            &&& !(after_open(again, existed, second) is Retry)
        },
{
}

/// A file is opened at first without following a terminal or another program, and without a trace in
/// its access time; whether its contents are opened, and whether links are followed, is as asked.
pub proof fn law_first_attempt(path_only: bool, no_follow: bool)
    ensures
        OpenFlags::spec_first(path_only, no_follow).path_only == path_only,
        OpenFlags::spec_first(path_only, no_follow).no_follow == no_follow,
        OpenFlags::spec_first(path_only, no_follow).close_on_exec,
        OpenFlags::spec_first(path_only, no_follow).no_ctty,
        OpenFlags::spec_first(path_only, no_follow).no_atime,
{
}

/// A file that is open is used, and no other is. One that is missing is passed over, with a report if
/// and only if it was there before; one that may not be read is passed over with a report. To give up
/// keeps the message, and comes of no other cause; only a file that may not be opened in this way is
/// opened again.
pub proof fn law_what_comes_of_opening(flags: OpenFlags, existed: bool, opened: Opened)
    ensures
        after_open(flags, existed, opened) is Use <==> opened is File,
        after_open(flags, existed, opened) is ReportVanished <==> opened is NotFound && existed,
        after_open(flags, existed, opened) is Skip <==> opened is NotFound && !existed,
        after_open(flags, existed, opened) is ReportDenied <==> opened is AccessDenied,
        after_open(flags, existed, opened) is Retry <==> opened is NotPermitted && flags.no_atime,
        opened matches Opened::Failed(message) ==> after_open(flags, existed, opened) == OpenNext::Fail(message),
        opened matches Opened::NotPermitted(message) ==> (!flags.no_atime ==> after_open(flags, existed, opened)
            == OpenNext::Fail(message)),
{
}

} // verus!
