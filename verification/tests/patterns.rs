use pxar_backup::bytes::strip_ascii_whitespace;
use pxar_backup::excludes::{can_read_line, generate_pxar_excludes_cli, read_pxar_excludes};
use pxar_backup::mode::{IFDIR, IFREG};
use pxar_backup::patterns::{
    is_glob_unclosed, MatchEntry, MatchType, PatternList, ANCHORED, ANY_FILE_TYPE, MATCH_DIRECTORIES, PATH_NAME,
};

fn parse(line: &str) -> MatchEntry {
    assert!(can_read_line(b"", line.as_bytes()));
    MatchEntry::parse_pattern(line.as_bytes(), PATH_NAME, MatchType::Exclude).unwrap()
}

fn lines(content: &str) -> Vec<Vec<u8>> {
    content.lines().map(|line| line.as_bytes().to_vec()).collect()
}

#[test]
fn a_pattern_matches_behind_slashes() {
    let entry = parse("*.log");
    assert!(entry.matches(b"a.log", IFREG));
    assert!(entry.matches(b"dir/a.log", IFREG));
    assert!(!entry.matches(b"dir/a.txt", IFREG));
    let entry = entry.flags(ANY_FILE_TYPE | ANCHORED);
    assert!(entry.matches(b"a.log", IFREG));
    assert!(!entry.matches(b"dir/a.log", IFREG));
}

#[test]
fn a_slash_at_the_end_means_directories() {
    let entry = parse("cache/");
    assert_eq!(entry.match_flags(), MATCH_DIRECTORIES);
    assert_eq!(entry.text(), b"cache");
    assert!(entry.matches(b"a/cache", IFDIR));
    assert!(!entry.matches(b"a/cache", IFREG));
}

#[test]
fn a_bang_inverts() {
    assert_eq!(parse("!keep").match_type(), MatchType::Include);
    assert_eq!(parse("drop").match_type(), MatchType::Exclude);
}

#[test]
fn a_literal_matches_itself_only() {
    let entry = MatchEntry::literal(b"a*".to_vec(), MatchType::Exclude);
    assert!(entry.matches(b"a*", IFREG));
    assert!(entry.matches(b"x/a*", IFREG));
    assert!(!entry.matches(b"ab", IFREG));
}

#[test]
fn the_last_match_counts() {
    let list = PatternList::new(vec![parse("*.txt"), parse("!keep.txt"), parse("tmp")]);
    assert_eq!(list.matches(b"a.txt", IFREG), Some(MatchType::Exclude));
    assert_eq!(list.matches(b"keep.txt", IFREG), Some(MatchType::Include));
    assert_eq!(list.matches(b"other", IFREG), None);
}

#[test]
fn an_open_class_is_recognised() {
    assert!(is_glob_unclosed(b"[abc"));
    assert!(is_glob_unclosed(b"x[^a-"[..4].as_ref()));
    assert!(!is_glob_unclosed(b"x["));
    assert!(MatchEntry::parse_pattern(b"x[", PATH_NAME, MatchType::Exclude).is_err());
    assert!(!is_glob_unclosed(b"[abc]"));
    assert!(!is_glob_unclosed(b"a\\[b"));
    assert!(!can_read_line(b"", b"[abc"));
    assert!(can_read_line(b"", b"# [abc"));
}

#[test]
fn refused_patterns_have_a_message() {
    let line = b"a\0b";
    assert!(can_read_line(b"", line));
    assert!(MatchEntry::parse_pattern(line, PATH_NAME, MatchType::Exclude).is_err());
    let mut list = PatternList::new(vec![]);
    let messages = read_pxar_excludes(b"", &vec![b"ok".to_vec(), line.to_vec()], true, &mut list);
    assert_eq!(messages.len(), 1);
    assert_eq!(list.len(), 1);
    assert_eq!(list.get(0).text(), b"ok");
}

#[test]
fn exclude_lines_are_read_from_their_directory_on() {
    let mut list = PatternList::new(vec![]);
    let content = lines("# comment\n\n  *.o \t\n/build\n!/build/keep\n!plain\n");
    assert_eq!(read_pxar_excludes(b"src", &content, true, &mut list).len(), 0);
    let texts: Vec<Vec<u8>> = (0..list.len()).map(|i| list.get(i).text().to_vec()).collect();
    let expected: Vec<Vec<u8>> =
        ["*.o", "src/build", "src/build/keep", "plain"].iter().map(|t| t.as_bytes().to_vec()).collect();
    assert_eq!(texts, expected);
    assert_eq!(list.get(1).match_type(), MatchType::Exclude);
    assert_eq!(list.get(2).match_type(), MatchType::Include);
    assert_eq!(list.get(3).match_type(), MatchType::Include);
    assert_eq!(list.matches(b"src/build", IFDIR), Some(MatchType::Exclude));
    assert_eq!(list.matches(b"build", IFDIR), None);
}

#[test]
fn an_unreadable_file_leaves_no_patterns() {
    let mut list = PatternList::new(vec![parse("old")]);
    let messages = read_pxar_excludes(b"", &lines("new\n"), false, &mut list);
    assert!(messages.is_empty());
    assert_eq!(list.len(), 1);
    assert_eq!(list.get(0).text(), b"old");
}

#[test]
fn the_recorded_patterns_read_back() {
    let list = PatternList::new(vec![
        parse("*.o"),
        parse("!keep"),
        parse("cache/"),
        MatchEntry::literal(b"lit".to_vec(), MatchType::Include),
    ]);
    let content = generate_pxar_excludes_cli(&list);
    assert_eq!(content, b"*.o\n!keep\ncache/\n!lit\n".to_vec());
    let mut again = PatternList::new(vec![]);
    let text = String::from_utf8(content.clone()).unwrap();
    assert!(read_pxar_excludes(b"", &lines(&text), true, &mut again).is_empty());
    assert_eq!(generate_pxar_excludes_cli(&again), content);
    assert_eq!(again.get(2).match_flags(), MATCH_DIRECTORIES);
}

#[test]
fn white_space_around_a_line_does_not_count() {
    assert_eq!(strip_ascii_whitespace(b" \t a b \r\n"), b"a b");
    assert_eq!(strip_ascii_whitespace(b" \x0c "), b"");
    assert_eq!(strip_ascii_whitespace(b""), b"");
}
