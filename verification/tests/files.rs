use std::path::Path;

use pxar_backup::copy::{
    report_file_grew_while_reading, report_file_shrunk_while_reading, CopyNext, FileCopy, Piece,
};
use pxar_backup::error::{wrap_err, ArchiveError, Error, Failure};
use pxar_backup::files::{join, FileList, FileListEntry};
use pxar_backup::fs_magic::is_virtual_file_system;
use pxar_backup::hardlinks::HardLinks;
use pxar_backup::mode::FileStat;
use pxar_backup::open::{
    open_file, report_denied_file, report_vanished_file, OpenFlags, OpenNext, Opened,
};
use pxar_backup::steps::Warning;
use pxar_backup::text::{digits_of, quote_name, quote_path};

#[test]
fn a_file_is_opened_without_touching_its_access_time() {
    let flags = OpenFlags::first(true, false);
    assert!(flags.path_only && !flags.no_follow && flags.close_on_exec && flags.no_ctty && flags.no_atime);
    assert_eq!(open_file(flags, true, Opened::File), OpenNext::Use);
}

#[test]
fn missing_files_are_passed_over() {
    let flags = OpenFlags::first(false, true);
    assert_eq!(open_file(flags, true, Opened::NotFound), OpenNext::ReportVanished);
    assert_eq!(open_file(flags, false, Opened::NotFound), OpenNext::Skip);
    assert_eq!(open_file(flags, false, Opened::AccessDenied), OpenNext::ReportDenied);
}

#[test]
fn a_file_is_opened_twice_at_most() {
    let flags = OpenFlags::first(false, true);
    let again = OpenFlags { no_atime: false, ..flags };
    assert_eq!(open_file(flags, true, Opened::NotPermitted("no".to_owned())), OpenNext::Retry(again));
    assert_eq!(
        open_file(again, true, Opened::NotPermitted("no".to_owned())),
        OpenNext::Fail("no".to_owned())
    );
    assert_eq!(open_file(flags, true, Opened::Failed("io".to_owned())), OpenNext::Fail("io".to_owned()));
}

#[test]
fn a_copy_has_the_first_size() {
    let mut copy = FileCopy::new(10);
    assert_eq!(copy.take(4), Piece { len: 4, grew: false });
    assert_eq!(copy.take(0), Piece { len: 0, grew: false });
    assert_eq!(copy.remaining(), 6);
    assert_eq!(copy.take(9), Piece { len: 6, grew: true });
    assert_eq!(copy.remaining(), 0);
}

#[test]
fn an_exact_piece_is_no_growth() {
    let mut copy = FileCopy::new(4);
    assert_eq!(copy.take(4), Piece { len: 4, grew: false });
    assert_eq!(copy.remaining(), 0);
}

#[test]
fn zeros_fill_up_what_remains() {
    let mut copy = FileCopy::new(10);
    assert_eq!(copy.fill(4), 4);
    assert_eq!(copy.fill(4), 4);
    assert_eq!(copy.fill(4), 2);
    assert_eq!(copy.remaining(), 0);
}

#[test]
fn an_error_keeps_its_first_path() {
    let plain = Error::Plain(Failure::VirtualFileSystem);
    let wrapped = wrap_err(plain, "a/b".as_bytes());
    let expected = ArchiveError::new("a/b".as_bytes().to_vec(), Failure::VirtualFileSystem);
    assert_eq!(wrapped, Error::At(ArchiveError { path: expected.path.clone(), error: Failure::VirtualFileSystem }));
    assert_eq!(wrap_err(wrapped, "a".as_bytes()), Error::At(expected));
}

fn entry(name: &str) -> FileListEntry {
    FileListEntry { name: name.as_bytes().to_vec(), path: name.as_bytes().to_vec(), stat: FileStat::zeroed() }
}

#[test]
fn files_are_taken_in_the_order_of_their_names() {
    let mut list = FileList::sorted(vec![entry("b"), entry("a.b"), entry("B"), entry("a"), entry("b")]);
    let mut names: Vec<Vec<u8>> = Vec::new();
    while let Some(entry) = list.pop_first() {
        names.push(entry.name);
    }
    let expected: Vec<Vec<u8>> = ["B", "a", "a.b", "b", "b"].iter().map(|n| n.as_bytes().to_vec()).collect();
    assert_eq!(names, expected);
}

#[test]
fn paths_are_joined_with_one_slash() {
    assert_eq!(join(b"", b"a"), b"a".to_vec());
    assert_eq!(join(b"a", b"b"), b"a/b".to_vec());
    assert_eq!(join(b"a/", b"b"), b"a/b".to_vec());
}

#[test]
fn hard_links_are_told_apart_by_device_and_inode() {
    let mut links = HardLinks::new();
    links.insert(1, 2, b"x".to_vec(), 77);
    assert_eq!(links.get(1, 2), Some((b"x".to_vec(), 77)));
    assert_eq!(links.get(2, 1), None);
    assert_eq!(links.get(0, 2), None);
}

#[test]
fn virtual_file_systems_are_known() {
    assert!(is_virtual_file_system(0x9fa0));
    assert!(is_virtual_file_system(0x62656572));
    assert!(is_virtual_file_system(0xf97cff8c));
    assert!(!is_virtual_file_system(0xef53));
    assert!(!is_virtual_file_system(0));
}

#[test]
fn a_file_that_has_shrunk_is_filled_up() {
    let mut copy = FileCopy::new(10);
    assert_eq!(copy.after_read(4), CopyNext::Write { len: 4, grew: false });
    assert_eq!(copy.after_read(0), CopyNext::Pad(6));
    assert_eq!(copy.remaining(), 0);
    assert_eq!(copy.after_read(0), CopyNext::Write { len: 0, grew: false });
}

#[test]
fn a_file_that_has_grown_is_cut_off() {
    let mut copy = FileCopy::new(10);
    assert_eq!(copy.after_read(7), CopyNext::Write { len: 7, grew: false });
    assert_eq!(copy.after_read(7), CopyNext::Write { len: 3, grew: true });
    assert_eq!(copy.remaining(), 0);
}

#[test]
fn an_error_shows_path_and_cause() {
    let error = ArchiveError::new(b"a/b".to_vec(), Failure::Outside("boom".to_owned()));
    assert_eq!(error.to_string(), "error at \"a/b\": boom");
    assert_eq!(Error::At(error).to_string(), "error at \"a/b\": boom");
    let error = ArchiveError::new(vec![], Failure::Outside("boom".to_owned()));
    assert_eq!(error.to_string(), "error at \"\": boom");
}

#[test]
fn causes_have_messages() {
    let no = || "no".to_owned();
    let texts = [
        (Failure::VirtualFileSystem, "refusing to backup a virtual file system"),
        (Failure::SourceMetadata(no()), "failed to get metadata for source directory: no"),
        (Failure::Pattern(no()), "no"),
        (Failure::EntryLimit(1048576), "exceeded allowed number of file entries (> 1048576)"),
        (Failure::EntryLimit(0), "exceeded allowed number of file entries (> 0)"),
        (Failure::Stat(b"d/x".to_vec(), no()), "stat failed on \"d/x\": no"),
        (Failure::UnknownFileType(0x3000), "encountered unknown file type: 0x3000 (0o30000)"),
        (Failure::Outside(no()), "no"),
    ];
    for (failure, text) in texts {
        assert_eq!(failure.to_string(), text);
        assert_eq!(Error::Plain(failure).to_string(), text);
    }
}

#[test]
fn numbers_are_written_to_a_base() {
    for n in [0, 7, 8, 10, 15, 16, 255, 4096, u64::MAX] {
        assert_eq!(digits_of(n, 10), format!("{}", n));
        assert_eq!(digits_of(n, 16), format!("{:x}", n));
        assert_eq!(digits_of(n, 8), format!("{:o}", n));
    }
}

#[test]
fn paths_are_quoted() {
    for path in ["", "a/b", "größe/→", "tab\there", "line\nfeed", "say \"hi\"", "back\\slash", "it's", "\u{7f}\u{200b}", "e\u{301}x"] {
        assert_eq!(quote_path(path.as_bytes()), format!("{:?}", Path::new(path)));
    }
    assert_eq!(quote_path(b"a\xff\xfeb\xc3\xa9"), "\"a\\xFF\\xFEb\u{e9}\"");
}

#[test]
fn attribute_names_are_quoted() {
    assert_eq!(quote_name(b"user.mime_type"), format!("{:?}", c"user.mime_type"));
    assert_eq!(quote_name(b"a\n'\x01\x80"), "\"a\\n\\'\\x01\\x80\"");
}

#[test]
fn reports_name_the_file() {
    assert_eq!(
        report_file_grew_while_reading(b"a/b"),
        "warning: file size increased while reading: \"a/b\", file will be truncated!"
    );
    assert_eq!(
        report_file_shrunk_while_reading(b"a/b"),
        "warning: file size shrunk while reading: \"a/b\", file will be padded with zeros!"
    );
    assert_eq!(report_vanished_file(b"a/b"), "warning: file vanished while reading: \"a/b\"");
    assert_eq!(report_denied_file(b"b"), "failed to open file: \"b\": access denied");
    assert_eq!(Warning::BadPattern(b"d".to_vec(), "no".to_owned()).to_string(), "bad pattern in \"d\": no");
    assert_eq!(
        Warning::UnreadableExcludes(b"d".to_vec(), "io".to_owned()).to_string(),
        "ignoring .pxarexclude after read error in \"d\": io"
    );
}
