use std::collections::HashSet;

use pxar_backup::archiver::{create_archive, ArchiveAction, Archiver};
use pxar_backup::error::{ArchiveError, Error, Failure};
use pxar_backup::flags::Flags;
use pxar_backup::metadata::{
    AclData, AttrBits, AttrData, FileFacts, Metadata, QuotaData, XattrList,
};
use pxar_backup::mode::{FileStat, IFBLK, IFCHR, IFDIR, IFIFO, IFLNK, IFREG, IFSOCK};
use pxar_backup::patterns::{MatchEntry, MatchType, PATH_NAME};
use pxar_backup::steps::{Action, CatalogOp, EncodeOp, Event, Warning};

const EXT4: i64 = 0xef53;
const PROC: i64 = 0x9fa0;

const FLAGS: Flags =
    Flags { with_xattrs: true, with_acl: true, with_fcaps: false, with_quota_projid: false };

/// A file of a made-up file system.
struct Node {
    name: &'static str,
    stat: FileStat,
    magic: i64,
    excludes: Option<&'static str>,
    attributes: Result<u64, &'static str>,
    children: Vec<Node>,
}

fn node(name: &'static str, mode: u32) -> Node {
    let mut stat = FileStat::zeroed();
    stat.st_mode = mode;
    stat.st_dev = 1;
    stat.st_nlink = 1;
    Node { name, stat, magic: EXT4, excludes: None, attributes: Ok(0), children: vec![] }
}

fn file(name: &'static str, size: i64) -> Node {
    let mut node = node(name, IFREG | 0o644);
    node.stat.st_size = size;
    node.stat.st_mtime = 99;
    node
}

fn linked(name: &'static str, inode: u64) -> Node {
    let mut node = file(name, 1);
    node.stat.st_ino = inode;
    node.stat.st_nlink = 2;
    node
}

fn dir(name: &'static str, children: Vec<Node>) -> Node {
    let mut node = node(name, IFDIR | 0o755);
    node.children = children;
    node
}

/// What to fail at.
struct Trouble {
    at: &'static str,
    open: &'static str,
}

const NO_TROUBLE: Trouble = Trouble { at: "", open: "" };

fn text(bytes: &[u8]) -> String {
    String::from_utf8(bytes.to_vec()).unwrap()
}

fn facts(node: &Node) -> FileFacts {
    FileFacts {
        xattrs: XattrList::NotRead,
        fcaps: AttrData::NotRead,
        acl_access: AclData::NotRead,
        acl_default: AclData::NotRead,
        chattr: match node.attributes {
            Ok(bits) => AttrBits::Bits(bits),
            Err(message) => AttrBits::Failed(message.to_owned()),
        },
        fat_attr: AttrBits::Unsupported,
        quota: QuotaData::Unsupported,
    }
}

fn catalog_line(op: &CatalogOp<Vec<u8>>) -> String {
    match op {
        CatalogOp::StartDirectory(name) => format!("cat start {}", text(name)),
        CatalogOp::EndDirectory => "cat end".to_owned(),
        CatalogOp::AddFile { name, size, mtime } => format!("cat file {} {} {}", text(name), size, mtime),
        CatalogOp::AddHardlink(name) => format!("cat link {}", text(name)),
        CatalogOp::AddSocket(name) => format!("cat socket {}", text(name)),
        CatalogOp::AddFifo(name) => format!("cat fifo {}", text(name)),
        CatalogOp::AddSymlink(name) => format!("cat symlink {}", text(name)),
        CatalogOp::AddBlockDevice(name) => format!("cat block {}", text(name)),
        CatalogOp::AddCharDevice(name) => format!("cat char {}", text(name)),
    }
}

fn encode_line(op: &EncodeOp<Vec<u8>, Metadata>) -> String {
    match op {
        EncodeOp::NewArchive(metadata) => format!("new {:o}", metadata.stat.mode),
        EncodeOp::Content { name, metadata, content } => {
            format!("content {} {:o} {:?}", text(name), metadata.stat.mode, text(content))
        }
        EncodeOp::Hardlink { name, target, offset } => format!("link {} {} {}", text(name), text(target), offset),
        EncodeOp::File { name, metadata, size } if metadata.stat.flags != 0 => {
            format!("file {} {} {:x}", text(name), size, metadata.stat.flags)
        }
        EncodeOp::File { name, size, .. } => format!("file {} {}", text(name), size),
        EncodeOp::Directory { name, .. } => format!("dir {}", text(name)),
        EncodeOp::Socket { name, .. } => format!("socket {}", text(name)),
        EncodeOp::Fifo { name, .. } => format!("fifo {}", text(name)),
        EncodeOp::Symlink { name, .. } => format!("symlink {}", text(name)),
        EncodeOp::Device { name, rdev, .. } => format!("device {} {}", text(name), rdev),
        EncodeOp::Finish => "finish".to_owned(),
    }
}

fn done(log: &mut Vec<String>, line: String, trouble: &Trouble) -> Event {
    let failed = line == trouble.at;
    log.push(line);
    if failed {
        Event::Failed("trouble".to_owned())
    } else {
        Event::Done
    }
}

/// Runs an archiver on a made-up file system, and logs what it does.
fn drive(
    mut archiver: Archiver,
    mut action: ArchiveAction,
    root: &Node,
    trouble: Trouble,
) -> (Vec<String>, Result<(), Error>, Archiver) {
    let mut log: Vec<String> = Vec::new();
    let mut stack: Vec<(&Node, usize)> = Vec::new();
    let mut opened: &Node = root;
    let mut offset: u64 = 100;
    loop {
        let event = match &action {
            Action::DetectFs => Event::Fs { magic: opened.magic, flags: FLAGS },
            Action::StatSource => Event::Stat(root.stat),
            Action::ReadMetadata { stat, .. } => {
                assert_eq!(*stat, opened.stat);
                Event::Facts(facts(opened))
            }
            Action::ReadExcludes => match stack.last().unwrap().0.excludes {
                Some(content) => Event::Lines {
                    lines: content.lines().map(|line| line.as_bytes().to_vec()).collect(),
                    error: if content.ends_with("unreadable") { Some("io".to_owned()) } else { None },
                },
                None => Event::Missing,
            },
            Action::NextName => {
                let top = stack.last_mut().unwrap();
                top.1 += 1;
                match top.0.children.get(top.1 - 1) {
                    Some(child) if child.name.contains('/') => {
                        Event::Name { name: child.name.as_bytes().to_vec(), invalid: Some("slash".to_owned()) }
                    }
                    Some(child) => Event::Name { name: child.name.as_bytes().to_vec(), invalid: None },
                    None => Event::Missing,
                }
            }
            Action::StatEntry { name, .. } => {
                let name = text(name);
                if name == "vanished" {
                    Event::Missing
                } else if name == "unstatable" {
                    Event::Failed("stat".to_owned())
                } else {
                    Event::Stat(stack.last().unwrap().0.children.iter().find(|c| c.name == name).unwrap().stat)
                }
            }
            Action::Callback(path) => done(&mut log, format!("at {}", text(path)), &trouble),
            Action::Open { name, path_only } => {
                let name = text(name);
                opened = stack.last().unwrap().0.children.iter().find(|c| c.name == name).unwrap();
                let regular = opened.stat.st_mode & 0xf000 == IFREG || opened.stat.st_mode & 0xf000 == IFDIR;
                assert_eq!(*path_only, !regular);
                if name == trouble.open {
                    Event::Missing
                } else {
                    Event::Done
                }
            }
            Action::Catalog(op) => done(&mut log, catalog_line(op), &trouble),
            Action::Encode(op) => {
                let event = done(&mut log, encode_line(op), &trouble);
                match (op, event) {
                    (EncodeOp::NewArchive(_), Event::Done) => {
                        stack.push((root, 0));
                        Event::Done
                    }
                    (EncodeOp::Directory { .. }, Event::Done) => {
                        stack.push((opened, 0));
                        Event::Done
                    }
                    (EncodeOp::Finish, event) => {
                        stack.pop();
                        event
                    }
                    (EncodeOp::File { .. }, Event::Done) => {
                        offset += 1;
                        Event::Offset(offset)
                    }
                    (_, event) => event,
                }
            }
            Action::Finished(_) => break,
        };
        assert!(archiver.expects(&event));
        action = archiver.step(event);
    }
    match action {
        Action::Finished(result) => (log, result, archiver),
        _ => unreachable!(),
    }
}

fn run(root: &Node, patterns: Vec<MatchEntry>, limit: usize, catalog: bool) -> (Vec<String>, Result<(), Error>) {
    let (archiver, action) = create_archive(patterns, FLAGS, None, false, limit, catalog);
    let (log, result, _) = drive(archiver, action, root, NO_TROUBLE);
    (log, result)
}

fn run_with_trouble(root: &Node, trouble: Trouble) -> (Vec<String>, Result<(), Error>) {
    let (archiver, action) = create_archive(vec![], FLAGS, None, false, 100, true);
    let (log, result, _) = drive(archiver, action, root, trouble);
    (log, result)
}

fn exclude(line: &str) -> MatchEntry {
    MatchEntry::parse_pattern(line.as_bytes(), PATH_NAME, MatchType::Exclude).unwrap()
}

fn at(path: &str, error: Failure) -> Result<(), Error> {
    Err(Error::At(ArchiveError::new(path.as_bytes().to_vec(), error)))
}

#[test]
fn entries_come_in_the_order_of_their_names() {
    let root = dir("", vec![file("c", 3), dir("b", vec![file("y", 2), file("x", 1)]), file("a", 0)]);
    let (log, result) = run(&root, vec![], 100, true);
    assert_eq!(result, Ok(()));
    let expected = [
        "new 40755",
        "at a",
        "cat file a 0 99",
        "file a 0",
        "at b",
        "cat start b",
        "dir b",
        "at b/x",
        "cat file x 1 99",
        "file x 1",
        "at b/y",
        "cat file y 2 99",
        "file y 2",
        "finish",
        "cat end",
        "at c",
        "cat file c 3 99",
        "file c 3",
        "finish",
    ];
    assert_eq!(log, expected);
}

#[test]
fn without_a_catalog_only_the_archive_is_written() {
    let root = dir("", vec![dir("b", vec![file("x", 1)])]);
    let (log, result) = run(&root, vec![], 100, false);
    assert_eq!(result, Ok(()));
    assert_eq!(log, ["new 40755", "at b", "dir b", "at b/x", "file x 1", "finish", "finish"]);
}

#[test]
fn every_file_type_is_archived() {
    let mut block = node("block", IFBLK);
    block.stat.st_rdev = 0x801;
    let mut char_device = node("char", IFCHR);
    char_device.stat.st_rdev = 0x501;
    let root = dir(
        "",
        vec![node("sock", IFSOCK), node("fifo", IFIFO), node("link", IFLNK), block, char_device],
    );
    let (log, result) = run(&root, vec![], 100, true);
    assert_eq!(result, Ok(()));
    let expected = [
        "new 40755",
        "at block",
        "cat block block",
        "device block 2049",
        "at char",
        "cat char char",
        "device char 1281",
        "at fifo",
        "cat fifo fifo",
        "fifo fifo",
        "at link",
        "cat symlink link",
        "symlink link",
        "at sock",
        "cat socket sock",
        "socket sock",
        "finish",
    ];
    assert_eq!(log, expected);
}

#[test]
fn an_unknown_file_type_is_an_error() {
    let root = dir("", vec![dir("d", vec![node("odd", 0x3000)])]);
    let (log, result) = run(&root, vec![], 100, true);
    assert_eq!(result, at("d/odd", Failure::UnknownFileType(0x3000)));
    assert_eq!(log, ["new 40755", "at d", "cat start d", "dir d", "at d/odd", "finish", "cat end"]);
}

#[test]
fn a_second_name_leads_to_the_first() {
    let root = dir("", vec![dir("a", vec![linked("one", 5)]), linked("other", 6), linked("two", 5)]);
    let (log, result) = run(&root, vec![], 100, true);
    assert_eq!(result, Ok(()));
    let expected = [
        "new 40755",
        "at a",
        "cat start a",
        "dir a",
        "at a/one",
        "cat file one 1 99",
        "file one 1",
        "finish",
        "cat end",
        "at other",
        "cat file other 1 99",
        "file other 1",
        "at two",
        "cat link two",
        "link two a/one 101",
        "finish",
    ];
    assert_eq!(log, expected);
}

#[test]
fn patterns_leave_files_out_and_are_recorded() {
    let root = dir("", vec![file("a.o", 1), file("a.c", 1), file(".pxarexclude-cli", 1), dir("tmp", vec![])]);
    let (log, result) = run(&root, vec![exclude("*.o"), exclude("tmp/")], 100, true);
    assert_eq!(result, Ok(()));
    let expected = [
        "new 40755",
        "cat file .pxarexclude-cli 9 0",
        "content .pxarexclude-cli 100600 \"*.o\\ntmp/\\n\"",
        "at a.c",
        "cat file a.c 1 99",
        "file a.c 1",
        "finish",
    ];
    assert_eq!(log, expected);
}

#[test]
fn exclude_files_count_in_their_directory_only() {
    let mut inner = dir("d", vec![file("x", 1), file("y", 1), file(".pxarexclude", 1)]);
    inner.excludes = Some("/x\n");
    let root = dir("", vec![inner, file("x", 1)]);
    let (log, result) = run(&root, vec![], 100, false);
    assert_eq!(result, Ok(()));
    assert_eq!(log, ["new 40755", "at d", "dir d", "at d/y", "file y 1", "finish", "at x", "file x 1", "finish"]);
}

#[test]
fn warnings_are_kept_until_they_are_taken() {
    let mut bad = dir("bad", vec![]);
    bad.excludes = Some("a\0b\n");
    let mut unreadable = dir("unreadable", vec![file("x", 1)]);
    unreadable.excludes = Some("x\nunreadable");
    let root = dir("", vec![bad, unreadable]);
    let (archiver, action) = create_archive(vec![], FLAGS, None, false, 100, false);
    let (log, result, mut archiver) = drive(archiver, action, &root, NO_TROUBLE);
    assert_eq!(result, Ok(()));
    assert!(log.contains(&"file x 1".to_owned()));
    let warnings = archiver.take_warnings();
    assert_eq!(warnings.len(), 2);
    assert!(matches!(&warnings[0], Warning::BadPattern(path, _) if path == b"bad"));
    assert_eq!(warnings[1], Warning::UnreadableExcludes(b"unreadable".to_vec(), "io".to_owned()));
    assert!(archiver.take_warnings().is_empty());
}

#[test]
fn lost_and_found_is_left_out_where_asked_for() {
    let root = dir("", vec![dir("lost+found", vec![]), file("x", 1)]);
    let (archiver, action) = create_archive(vec![], FLAGS, None, true, 100, false);
    let (log, result, _) = drive(archiver, action, &root, NO_TROUBLE);
    assert_eq!(result, Ok(()));
    let expected = [
        "new 40755",
        "content .pxarexclude-cli 100600 \"lost+found\\n\"",
        "at x",
        "file x 1",
        "finish",
    ];
    assert_eq!(log, expected);
}

#[test]
fn dots_and_vanished_files_are_passed_over() {
    let root = dir("", vec![dir(".", vec![]), dir("..", vec![]), file("vanished", 1), file("x", 1)]);
    let (log, result) = run(&root, vec![], 100, false);
    assert_eq!(result, Ok(()));
    assert_eq!(log, ["new 40755", "at x", "file x 1", "finish"]);
}

#[test]
fn a_file_that_cannot_be_opened_is_passed_over() {
    let root = dir("", vec![file("a", 1), file("b", 1)]);
    let (log, result) = run_with_trouble(&root, Trouble { at: "", open: "a" });
    assert_eq!(result, Ok(()));
    assert_eq!(log, ["new 40755", "at a", "at b", "cat file b 1 99", "file b 1", "finish"]);
}

#[test]
fn a_virtual_source_is_refused() {
    let mut root = dir("", vec![]);
    root.magic = PROC;
    let (log, result) = run(&root, vec![], 100, false);
    assert_eq!(result, Err(Error::Plain(Failure::VirtualFileSystem)));
    assert!(log.is_empty());
}

#[test]
fn a_virtual_directory_is_archived_without_its_contents() {
    let mut proc_dir = dir("proc", vec![file("cpuinfo", 0)]);
    proc_dir.stat.st_dev = 9;
    proc_dir.magic = PROC;
    let root = dir("", vec![proc_dir, file("x", 1)]);
    let (log, result) = run(&root, vec![], 100, false);
    assert_eq!(result, Ok(()));
    assert_eq!(log, ["new 40755", "at proc", "dir proc", "finish", "at x", "file x 1", "finish"]);
}

#[test]
fn only_devices_that_are_asked_for_are_entered() {
    let mut second = file("s", 1);
    second.stat.st_dev = 2;
    let mut mount = dir("two", vec![second]);
    mount.stat.st_dev = 2;
    let mut other = dir("three", vec![file("t", 1)]);
    other.stat.st_dev = 3;
    let root = dir("", vec![mount, other, dir("same", vec![file("u", 1)])]);
    let mut devices: HashSet<u64> = HashSet::new();
    devices.insert(2);
    let (archiver, action) = create_archive(vec![], FLAGS, Some(devices), false, 100, false);
    let (log, result, _) = drive(archiver, action, &root, NO_TROUBLE);
    assert_eq!(result, Ok(()));
    let expected = [
        "new 40755", "at same", "dir same", "at same/u", "file u 1", "finish", "at three", "dir three", "finish",
        "at two", "dir two", "at two/s", "file s 1", "finish", "finish",
    ];
    assert_eq!(log, expected);
}

#[test]
fn the_limit_counts_the_entries_of_open_directories() {
    let root = dir("", vec![dir("a", vec![file("x", 1)]), dir("b", vec![file("y", 1)])]);
    assert_eq!(run(&root, vec![], 3, false).1, Ok(()));
    let (log, result) = run(&root, vec![], 2, false);
    assert_eq!(result, at("a", Failure::EntryLimit(2)));
    assert_eq!(log, ["new 40755", "at a", "dir a", "finish"]);
    assert_eq!(run(&root, vec![], 1, false).1, Err(Error::Plain(Failure::EntryLimit(1))));
}

#[test]
fn errors_carry_the_path_of_the_entry() {
    let root = dir("", vec![dir("d", vec![file("x", 1), file("y", 1)])]);
    let (log, result) = run_with_trouble(&root, Trouble { at: "file x 1", open: "" });
    assert_eq!(result, at("d/x", Failure::Outside("trouble".to_owned())));
    let expected = [
        "new 40755", "at d", "cat start d", "dir d", "at d/x", "cat file x 1 99", "file x 1", "finish", "cat end",
    ];
    assert_eq!(log, expected);
}

#[test]
fn a_directory_that_cannot_be_written_is_ended_in_the_catalog() {
    let root = dir("", vec![dir("d", vec![file("x", 1)])]);
    let (log, result) = run_with_trouble(&root, Trouble { at: "dir d", open: "" });
    assert_eq!(result, at("d", Failure::Outside("trouble".to_owned())));
    assert_eq!(log, ["new 40755", "at d", "cat start d", "dir d", "cat end"]);
}

#[test]
fn a_directory_that_cannot_be_started_is_not_written() {
    let root = dir("", vec![dir("d", vec![file("x", 1)])]);
    let (log, result) = run_with_trouble(&root, Trouble { at: "cat start d", open: "" });
    assert_eq!(result, at("d", Failure::Outside("trouble".to_owned())));
    assert_eq!(log, ["new 40755", "at d", "cat start d"]);
}

#[test]
fn a_failed_announcement_has_no_path_of_its_own() {
    let root = dir("", vec![file("x", 1)]);
    let (log, result) = run_with_trouble(&root, Trouble { at: "at x", open: "" });
    assert_eq!(result, Err(Error::Plain(Failure::Outside("trouble".to_owned()))));
    assert_eq!(log, ["new 40755", "at x"]);
}

#[test]
fn names_and_stats_may_fail() {
    let root = dir("", vec![file("a/b", 1)]);
    assert_eq!(run(&root, vec![], 9, false).1, Err(Error::Plain(Failure::Outside("slash".to_owned()))));
    let root = dir("", vec![dir("d", vec![file("unstatable", 1)])]);
    assert_eq!(
        run(&root, vec![], 9, false).1,
        at("d", Failure::Stat(b"d/unstatable".to_vec(), "stat".to_owned()))
    );
}

#[test]
fn the_source_may_fail() {
    let (mut archiver, action) = create_archive(vec![], FLAGS, None, false, 9, false);
    assert_eq!(action, Action::DetectFs);
    assert_eq!(archiver.step(Event::Fs { magic: EXT4, flags: FLAGS }), Action::StatSource);
    assert_eq!(archiver.flags(), FLAGS);
    let stat = dir("", vec![]).stat;
    assert!(matches!(archiver.step(Event::Stat(stat)), Action::ReadMetadata { fs_magic: EXT4, .. }));
    assert!(!archiver.expects(&Event::Done));
    assert!(!archiver.expects(&Event::Failed("no".to_owned())));
    let mut source = dir("", vec![]);
    source.attributes = Err("no");
    let action = archiver.step(Event::Facts(facts(&source)));
    let message = "failed to read file attributes: no".to_owned();
    assert_eq!(action, Action::Finished(Err(Error::Plain(Failure::SourceMetadata(message)))));
    assert!(!archiver.expects(&Event::Done));
    assert_eq!(archiver.path(), b"");
}

#[test]
fn each_entry_has_its_own_metadata() {
    let mut first = file("a", 1);
    first.attributes = Ok(0x20);
    let mut second = file("b", 1);
    second.attributes = Ok(0x4);
    let root = dir("", vec![second, first]);
    let (log, result) = run(&root, vec![], 100, true);
    assert_eq!(result, Ok(()));
    let expected = [
        "new 40755",
        "at a",
        "cat file a 1 99",
        "file a 1 20",
        "at b",
        "cat file b 1 99",
        "file b 1 4",
        "finish",
    ];
    assert_eq!(log, expected);
}

#[test]
fn metadata_that_cannot_be_kept_is_an_error() {
    let mut bad = file("x", 1);
    bad.attributes = Err("io");
    let root = dir("", vec![dir("d", vec![bad])]);
    let (_, result) = run(&root, vec![], 100, false);
    let message = "failed to read file attributes: io".to_owned();
    assert_eq!(result, at("d/x", Failure::Outside(message)));
    assert_eq!(
        result.unwrap_err().to_string(),
        "error at \"d/x\": failed to read file attributes: io"
    );
}
