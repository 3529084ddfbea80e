use pxar_backup::backup_repo::BackupRepository;
use regex::Regex;

/// The grammar of references as a regular expression.
const URL: &str = r"^(?:(?:([\w@]+)@)?([\w\-_.]+):)?(\w+)$";

fn owned(text: &str) -> Option<String> {
    Some(text.to_owned())
}

#[test]
fn a_full_reference_is_read() {
    let repo = BackupRepository::from_str("alice@pbs@backup-1.example.com:store1").unwrap();
    assert_eq!(repo.user(), "alice@pbs");
    assert_eq!(repo.host(), "backup-1.example.com");
    assert_eq!(repo.store(), "store1");
    assert_eq!(repo.to_string(), "alice@pbs@backup-1.example.com:store1");
}

#[test]
fn user_and_host_have_defaults() {
    let repo = BackupRepository::from_str("store1").unwrap();
    assert_eq!(repo.user(), "root@pam");
    assert_eq!(repo.host(), "localhost");
    assert_eq!(repo.store(), "store1");
    assert_eq!(repo.to_string(), "store1");

    let repo = BackupRepository::from_str("host:store1").unwrap();
    assert_eq!(repo.user(), "root@pam");
    assert_eq!(repo.host(), "host");
    assert_eq!(repo.to_string(), "host:store1");
}

#[test]
fn a_user_brings_the_host_into_the_text() {
    let repo = BackupRepository::new(owned("bob@pam"), None, "s".to_owned());
    assert_eq!(repo.to_string(), "bob@pam@localhost:s");
    let again = BackupRepository::from_str(&repo.to_string()).unwrap();
    assert_eq!(again.user(), "bob@pam");
    assert_eq!(again.host(), "localhost");
    assert_eq!(again.store(), "s");
}

#[test]
fn what_is_no_reference_is_refused() {
    for url in ["", ":", "a:", ":a", "@h:s", "u@:s", "a:b:c", "a b", "h:s-t", "u@h", "u/v@h:s", "s\n"] {
        let error = BackupRepository::from_str(url).unwrap_err();
        assert_eq!(error, format!("unable to parse repository url '{}'", url));
    }
}

#[test]
fn word_characters_are_those_of_unicode() {
    let repo = BackupRepository::from_str("jürgen@hôte:größe_7").unwrap();
    assert_eq!(repo.user(), "jürgen");
    assert_eq!(repo.host(), "hôte");
    assert_eq!(repo.store(), "größe_7");
    assert!(BackupRepository::from_str("größe→").is_err());
}

#[test]
fn reading_agrees_with_the_regular_expression() {
    let regex = Regex::new(URL).unwrap();
    let alphabet = ['a', 'ß', '_', '9', '@', ':', '-', '.', ' '];
    let mut urls: Vec<String> = vec![String::new()];
    let mut from = 0;
    for _ in 0..5 {
        let to = urls.len();
        for i in from..to {
            for c in alphabet {
                let mut url = urls[i].clone();
                url.push(c);
                urls.push(url);
            }
        }
        from = to;
    }
    for url in urls {
        match (regex.captures(&url), BackupRepository::from_str(&url)) {
            (Some(cap), Ok(repo)) => {
                assert_eq!(repo.user(), cap.get(1).map_or("root@pam", |m| m.as_str()));
                assert_eq!(repo.host(), cap.get(2).map_or("localhost", |m| m.as_str()));
                assert_eq!(repo.store(), &cap[3]);
                assert_eq!(repo.to_string(), url);
            }
            (None, Err(_)) => {}
            _ => panic!("differs on {:?}", url),
        }
    }
}
