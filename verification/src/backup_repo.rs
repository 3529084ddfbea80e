//! References to remote backup locations: `user@host:datastore`.

use vstd::prelude::*;
use vstd::string::*;

use crate::text::{chars_of, find_char, joined_text};

verus! {

/// Whether `regex_syntax::is_word_character` says of a character that it is part of a word.
pub uninterp spec fn word_character(c: char) -> bool;

/// Whether a character is part of a word: a letter, a digit or an underscore, and outside of ASCII
/// what Unicode says.
pub open spec fn is_word(c: char) -> bool {
    if c as int <= 0x7f {
        '0' <= c <= '9' || 'A' <= c <= 'Z' || 'a' <= c <= 'z' || c == '_'
    } else {
        word_character(c)
    }
}

/// The function of `regex_syntax` that decides whether a character is part of a word, which is
/// what `\w` stands for in a regular expression.
///
/// It is true of the ASCII letters and digits and of the underscore, and of no other ASCII
/// character. It depends on the character alone.
pub assume_specification[ regex_syntax::is_word_character ](c: char) -> (r: bool)
    ensures
        r == if c as int <= 0x7f {
            '0' <= c <= '9' || 'A' <= c <= 'Z' || 'a' <= c <= 'z' || c == '_'
        } else {
            word_character(c)
        },
;

/// Whether a character may stand in a user name.
pub open spec fn is_user_char(c: char) -> bool {
    is_word(c) || c == '@'
}

/// Whether a character may stand in a host name.
pub open spec fn is_host_char(c: char) -> bool {
    is_word(c) || c == '-' || c == '.'
}

/// Whether a text is a user name.
pub open spec fn is_user(text: Seq<char>) -> bool {
    text.len() > 0 && forall|i: int| 0 <= i < text.len() ==> is_user_char(#[trigger] text[i])
}

/// Whether a text is a host name.
pub open spec fn is_host(text: Seq<char>) -> bool {
    text.len() > 0 && forall|i: int| 0 <= i < text.len() ==> is_host_char(#[trigger] text[i])
}

/// Whether a text is the name of a datastore.
pub open spec fn is_store(text: Seq<char>) -> bool {
    text.len() > 0 && forall|i: int| 0 <= i < text.len() ==> is_word(#[trigger] text[i])
}

/// The mathematical value of a [`BackupRepository`].
pub struct RepositoryView {
    /// The user name.
    pub user: Option<Seq<char>>,
    /// The host name or address.
    pub host: Option<Seq<char>>,
    /// The name of the datastore.
    pub store: Seq<char>,
}

impl RepositoryView {
    /// The user name; by default the one of the local administrator.
    pub open spec fn user_or_default(self) -> Seq<char> {
        match self.user {
            Some(user) => user,
            None => "root@pam"@,
        }
    }

    /// The host name; by default the local host.
    pub open spec fn host_or_default(self) -> Seq<char> {
        match self.host {
            Some(host) => host,
            None => "localhost"@,
        }
    }

    /// The text of the reference.
    pub open spec fn shown(self) -> Seq<char> {
        match (self.user, self.host) {
            (Some(user), _) => user + "@"@ + self.host_or_default() + ":"@ + self.store,
            (None, Some(host)) => host + ":"@ + self.store,
            (None, None) => self.store,
        }
    }

    /// Whether each part is a name of its kind.
    pub open spec fn is_valid(self) -> bool {
        &&& self.user matches Some(user) ==> is_user(user)
        &&& self.host matches Some(host) ==> is_host(host)
        &&& is_store(self.store)
    }

    /// Whether a text is a reference with these parts: `user@host:store`, `host:store` or `store`.
    pub open spec fn is_read_from(self, url: Seq<char>) -> bool {
        &&& self.is_valid()
        &&& self.user is Some ==> self.host is Some
        &&& url == self.shown()
    }
}

/// A reference to a remote backup location.
#[derive(Debug)]
pub struct BackupRepository {
    /// The user name used for authentication.
    user: Option<String>,
    /// The host name or address.
    host: Option<String>,
    /// The name of the datastore.
    store: String,
}

impl View for BackupRepository {
    type V = RepositoryView;

    closed spec fn view(&self) -> RepositoryView {
        RepositoryView {
            user: match self.user {
                Some(user) => Some(user@),
                None => None,
            },
            host: match self.host {
                Some(host) => Some(host@),
                None => None,
            },
            store: self.store@,
        }
    }
}

/// The place of the last `@` before `end`; `end` if there is none.
fn find_last_at(text: &Vec<char>, end: usize) -> (r: usize)
    requires
        end <= text@.len(),
    ensures
        r <= end,
        r < end ==> text@[r as int] == '@',
        forall|i: int| r < i < end ==> text@[i] != '@',
        r == end ==> forall|i: int| 0 <= i < end ==> text@[i] != '@',
{
    let mut i: usize = end;
    while i > 0
        invariant
            i <= end <= text@.len(),
            forall|k: int| i <= k < end ==> text@[k] != '@',
        decreases i,
    {
        i -= 1;
        if text[i] == '@' {
            return i;
        }
    }
    end
}

/// Decides whether a part of a text is a user name.
fn check_user(text: &Vec<char>, from: usize, to: usize) -> (r: bool)
    requires
        from <= to <= text@.len(),
    ensures
        r == is_user(text@.subrange(from as int, to as int)),
{
    let ghost part = text@.subrange(from as int, to as int);
    let mut i: usize = from;
    while i < to
        invariant
            from <= i <= to <= text@.len(),
            part == text@.subrange(from as int, to as int),
            forall|k: int| 0 <= k < i - from ==> is_user_char(#[trigger] part[k]),
        decreases to - i,
    {
        let c = text[i];
        assert(part[i - from] == c);
        if !(regex_syntax::is_word_character(c) || c == '@') {
            return false;
        }
        i += 1;
    }
    from < to
}

/// Decides whether a part of a text is a host name.
fn check_host(text: &Vec<char>, from: usize, to: usize) -> (r: bool)
    requires
        from <= to <= text@.len(),
    ensures
        r == is_host(text@.subrange(from as int, to as int)),
{
    let ghost part = text@.subrange(from as int, to as int);
    let mut i: usize = from;
    while i < to
        invariant
            from <= i <= to <= text@.len(),
            part == text@.subrange(from as int, to as int),
            forall|k: int| 0 <= k < i - from ==> is_host_char(#[trigger] part[k]),
        decreases to - i,
    {
        let c = text[i];
        assert(part[i - from] == c);
        if !(regex_syntax::is_word_character(c) || c == '-' || c == '.') {
            return false;
        }
        i += 1;
    }
    from < to
}

/// Decides whether a part of a text is the name of a datastore.
fn check_store(text: &Vec<char>, from: usize, to: usize) -> (r: bool)
    requires
        from <= to <= text@.len(),
    ensures
        r == is_store(text@.subrange(from as int, to as int)),
{
    let ghost part = text@.subrange(from as int, to as int);
    let mut i: usize = from;
    while i < to
        invariant
            from <= i <= to <= text@.len(),
            part == text@.subrange(from as int, to as int),
            forall|k: int| 0 <= k < i - from ==> is_word(#[trigger] part[k]),
        decreases to - i,
    {
        let c = text[i];
        assert(part[i - from] == c);
        if !regex_syntax::is_word_character(c) {
            return false;
        }
        i += 1;
    }
    from < to
}

/// The place of the colon and of the `@` in a reference.
proof fn lemma_places(repo: RepositoryView, url: Seq<char>)
    requires
        repo.is_read_from(url),
    ensures
        ({
            let colon = url.len() - repo.store.len() - 1;
            &&& repo.host is None ==> repo.store == url && forall|i: int| 0 <= i < url.len() ==> url[i] != ':'
            &&& repo.host matches Some(host) ==> {
                &&& 0 <= colon < url.len()
                &&& url[colon] == ':'
                &&& forall|i: int| 0 <= i < colon ==> url[i] != ':'
                &&& repo.store == url.subrange(colon + 1, url.len() as int)
                &&& repo.user is None ==> host == url.subrange(0, colon) && forall|i: int|
                    0 <= i < colon ==> url[i] != '@'
                &&& repo.user matches Some(user) ==> {
                    let at = user.len() as int;
                    &&& 0 <= at < colon
                    &&& url[at] == '@'
                    &&& forall|i: int| at < i < colon ==> url[i] != '@'
                    &&& user == url.subrange(0, at)
                    &&& host == url.subrange(at + 1, colon)
                }
            }
        }),
{
    reveal_strlit("@");
    reveal_strlit(":");
    let colon = url.len() - repo.store.len() - 1;
    match (repo.user, repo.host) {
        (Some(user), Some(host)) => {
            let at = user.len() as int;
            assert(url =~= user + "@"@ + host + ":"@ + repo.store);
            assert(user =~= url.subrange(0, at));
            assert(host =~= url.subrange(at + 1, colon));
            assert(repo.store =~= url.subrange(colon + 1, url.len() as int));
            assert forall|i: int| 0 <= i < colon implies url[i] != ':' by {
                if i < at {
                    assert(is_user_char(user[i]));
                } else if i > at {
                    assert(is_host_char(host[i - at - 1]));
                }
            }
            assert forall|i: int| at < i < colon implies url[i] != '@' by {
                assert(is_host_char(host[i - at - 1]));
            }
        },
        (None, Some(host)) => {
            assert(url =~= host + ":"@ + repo.store);
            assert(host =~= url.subrange(0, colon));
            assert(repo.store =~= url.subrange(colon + 1, url.len() as int));
            assert forall|i: int| 0 <= i < colon implies url[i] != ':' && url[i] != '@' by {
                assert(is_host_char(host[i]));
            }
        },
        _ => {
            assert forall|i: int| 0 <= i < url.len() implies url[i] != ':' by {
                assert(is_word(repo.store[i]));
            }
        },
    }
}

impl BackupRepository {
    /// A reference with these parts.
    pub fn new(user: Option<String>, host: Option<String>, store: String) -> (r: BackupRepository)
        ensures
            r@ == (RepositoryView {
                user: match user {
                    Some(user) => Some(user@),
                    None => None,
                },
                host: match host {
                    Some(host) => Some(host@),
                    None => None,
                },
                store: store@,
            }),
    {
        BackupRepository { user, host, store }
    }

    /// The user name; by default `root@pam`.
    pub fn user(&self) -> (r: &str)
        ensures
            r@ == self@.user_or_default(),
    {
        match &self.user {
            Some(user) => user.as_str(),
            None => "root@pam",
        }
    }

    /// The host name; by default `localhost`.
    pub fn host(&self) -> (r: &str)
        ensures
            r@ == self@.host_or_default(),
    {
        match &self.host {
            Some(host) => host.as_str(),
            None => "localhost",
        }
    }

    /// The name of the datastore.
    pub fn store(&self) -> (r: &str)
        ensures
            r@ == self@.store,
    {
        self.store.as_str()
    }

    /// The text of the reference: `user@host:store`, `host:store` or `store`. A reference with a
    /// user name has a host name in its text, too.
    pub fn to_string(&self) -> (r: String)
        ensures
            r@ == self@.shown(),
    {
        match (&self.user, &self.host) {
            (Some(user), _) => {
                let mut r = joined_text(user.as_str(), "@");
                r.append(self.host());
                r.append(":");
                r.append(self.store.as_str());
                r
            },
            (None, Some(host)) => {
                let mut r = joined_text(host.as_str(), ":");
                r.append(self.store.as_str());
                r
            },
            (None, None) => self.store.clone(),
        }
    }

    /// Reads a reference.
    ///
    /// This reads texts like `user@host:datastore`. The user and the host part may be left out; the
    /// user defaults to `root@pam`, the host to `localhost`. Returns the message of the error if the
    /// text is no reference.
    pub fn from_str(url: &str) -> (r: Result<BackupRepository, String>)
        ensures
            match r {
                Ok(repo) => repo@.is_read_from(url@),
                Err(message) => {
                    &&& forall|repo: RepositoryView| !#[trigger] repo.is_read_from(url@)
                    &&& message@ == "unable to parse repository url '"@ + url@ + "'"@
                },
            },
    {
        proof {
            reveal_strlit("@");
            reveal_strlit(":");
        }
        let text = chars_of(url);
        let n: usize = text.len();
        let colon = find_char(&text, ':');
        if colon == n {
            if check_store(&text, 0, n) {
                let repo = BackupRepository { user: None, host: None, store: url.to_owned() };
                assert(text@.subrange(0, n as int) =~= url@);
                assert(repo@.is_read_from(url@));
                return Ok(repo);
            }
            assert(text@.subrange(0, n as int) =~= url@);
        } else if check_store(&text, colon + 1, n) {
            let store = url.substring_char(colon + 1, n).to_owned();
            let at = find_last_at(&text, colon);
            if at == colon {
                if check_host(&text, 0, colon) {
                    let host = url.substring_char(0, colon).to_owned();
                    let repo = BackupRepository { user: None, host: Some(host), store };
                    assert(host@ + ":"@ + store@ =~= url@);
                    assert(repo@.is_read_from(url@));
                    return Ok(repo);
                }
            } else if check_user(&text, 0, at) && check_host(&text, at + 1, colon) {
                let user = url.substring_char(0, at).to_owned();
                let host = url.substring_char(at + 1, colon).to_owned();
                let repo = BackupRepository { user: Some(user), host: Some(host), store };
                assert(user@ + "@"@ + host@ + ":"@ + store@ =~= url@);
                assert(repo@.is_read_from(url@));
                return Ok(repo);
            }
        }
        assert forall|repo: RepositoryView| !#[trigger] repo.is_read_from(url@) by {
            if repo.is_read_from(url@) {
                lemma_places(repo, url@);
                let place = url@.len() - repo.store.len() - 1;
                if repo.host is Some {
                    assert(place == colon);
                    if let Some(user) = repo.user {
                        let at = user.len() as int;
                        assert(url@[at] == '@');
                    }
                }
            }
        }
        let mut message = joined_text("unable to parse repository url '", url);
        message.append("'");
        Err(message)
    }
}

/// A text is a reference in one way only.
pub proof fn law_reading_is_unique(a: RepositoryView, b: RepositoryView, url: Seq<char>)
    requires
        a.is_read_from(url),
        b.is_read_from(url),
    ensures
        a == b,
{
    lemma_places(a, url);
    lemma_places(b, url);
    if a.host is Some && b.host is Some {
        let place_a = url.len() - a.store.len() - 1;
        let place_b = url.len() - b.store.len() - 1;
        assert(place_a == place_b);
        if let Some(user_a) = a.user {
            assert(url[user_a.len() as int] == '@');
            if let Some(user_b) = b.user {
                assert(url[user_b.len() as int] == '@');
                assert(user_a.len() == user_b.len());
            }
        }
        if let Some(user_b) = b.user {
            assert(url[user_b.len() as int] == '@');
        }
    }
}

/// The text of a reference that was read is the text it was read from.
pub proof fn law_reference_shows_what_was_read(repo: RepositoryView, url: Seq<char>)
    requires
        repo.is_read_from(url),
    ensures
        repo.shown() == url,
{
}

/// The text of a reference whose parts are names of their kinds can be read, and leads to the same
/// user, the same host and the same datastore.
pub proof fn law_text_reads_back(repo: RepositoryView)
    requires
        repo.is_valid(),
    ensures
        exists|read: RepositoryView| {
            &&& #[trigger] read.is_read_from(repo.shown())
            &&& read.user_or_default() == repo.user_or_default()
            &&& read.host_or_default() == repo.host_or_default()
            &&& read.store == repo.store
        },
{
    reveal_strlit("localhost");
    let read = match repo.user {
        Some(user) => RepositoryView {
            user: Some(user),
            host: Some(repo.host_or_default()),
            store: repo.store,
        },
        None => repo,
    };
    assert(is_host("localhost"@));
    assert(read.is_read_from(repo.shown()));
}

/// A datastore, with a host before it and a user before that, is a reference with these parts, if the
/// names are made of letters, digits and underscores, that of the host also of `-` and `.`, and that of
/// the user also of `@`.
pub proof fn law_references_are_read(user: Seq<char>, host: Seq<char>, store: Seq<char>)
    requires
        user.len() > 0,
        host.len() > 0,
        store.len() > 0,
        forall|i: int|
            0 <= i < user.len() ==> {
                ||| '0' <= (#[trigger] user[i]) <= '9' || 'A' <= user[i] <= 'Z' || 'a' <= user[i] <= 'z'
                ||| user[i] == '_' || user[i] == '@'
                ||| user[i] as int > 0x7f && word_character(user[i])
            },
        forall|i: int|
            0 <= i < host.len() ==> {
                ||| '0' <= (#[trigger] host[i]) <= '9' || 'A' <= host[i] <= 'Z' || 'a' <= host[i] <= 'z'
                ||| host[i] == '_' || host[i] == '-' || host[i] == '.'
                ||| host[i] as int > 0x7f && word_character(host[i])
            },
        forall|i: int|
            0 <= i < store.len() ==> {
                ||| '0' <= (#[trigger] store[i]) <= '9' || 'A' <= store[i] <= 'Z' || 'a' <= store[i] <= 'z'
                ||| store[i] == '_'
                ||| store[i] as int > 0x7f && word_character(store[i])
            },
    ensures
        (RepositoryView { user: None, host: None, store }).is_read_from(store),
        (RepositoryView { user: None, host: Some(host), store }).is_read_from(host + seq![':'] + store),
        (RepositoryView { user: Some(user), host: Some(host), store }).is_read_from(
            user + seq!['@'] + host + seq![':'] + store,
        ),
{
    reveal_strlit("@");
    reveal_strlit(":");
    assert("@"@ =~= seq!['@']);
    assert(":"@ =~= seq![':']);
}

/// The parts of a reference hold no other ASCII characters, and none of them is empty.
pub proof fn law_parts_of_a_reference(repo: RepositoryView, url: Seq<char>)
    requires
        repo.is_read_from(url),
    ensures
        repo.user is Some ==> repo.host is Some,
        repo.store.len() > 0,
        forall|i: int|
            0 <= i < repo.store.len() && (#[trigger] repo.store[i]) as int <= 0x7f ==> {
                ||| '0' <= repo.store[i] <= '9' || 'A' <= repo.store[i] <= 'Z' || 'a' <= repo.store[i] <= 'z'
                ||| repo.store[i] == '_'
            },
        repo.host matches Some(host) ==> host.len() > 0 && forall|i: int|
            0 <= i < host.len() && (#[trigger] host[i]) as int <= 0x7f ==> {
                ||| '0' <= host[i] <= '9' || 'A' <= host[i] <= 'Z' || 'a' <= host[i] <= 'z'
                ||| host[i] == '_' || host[i] == '-' || host[i] == '.'
            },
        repo.user matches Some(user) ==> user.len() > 0 && forall|i: int|
            0 <= i < user.len() && (#[trigger] user[i]) as int <= 0x7f ==> {
                ||| '0' <= user[i] <= '9' || 'A' <= user[i] <= 'Z' || 'a' <= user[i] <= 'z'
                ||| user[i] == '_' || user[i] == '@'
            },
{
}

/// What is left out of a reference is the local administrator and the local host; what is there
/// counts. The text of a reference has the parts that it was made with.
pub proof fn law_defaults_of_a_reference(user: Seq<char>, host: Seq<char>, store: Seq<char>, repo: RepositoryView)
    ensures
        repo.user is None ==> repo.user_or_default() == seq!['r', 'o', 'o', 't', '@', 'p', 'a', 'm'],
        repo.host is None ==> repo.host_or_default() == seq!['l', 'o', 'c', 'a', 'l', 'h', 'o', 's', 't'],
        repo.user matches Some(name) ==> repo.user_or_default() == name,
        repo.host matches Some(name) ==> repo.host_or_default() == name,
        (RepositoryView { user: None, host: None, store }).shown() == store,
        (RepositoryView { user: None, host: Some(host), store }).shown() == host + seq![':'] + store,
        (RepositoryView { user: Some(user), host: Some(host), store }).shown() == user + seq!['@'] + host + seq![
            ':',
        ] + store,
        (RepositoryView { user: Some(user), host: None, store }).shown() == user + seq!['@'] + seq![
            'l', 'o', 'c', 'a', 'l', 'h', 'o', 's', 't',
        ] + seq![':'] + store,
{
    reveal_strlit("@");
    reveal_strlit(":");
    reveal_strlit("root@pam");
    reveal_strlit("localhost");
    assert("@"@ =~= seq!['@']);
    assert(":"@ =~= seq![':']);
    assert("root@pam"@ =~= seq!['r', 'o', 'o', 't', '@', 'p', 'a', 'm']);
    assert("localhost"@ =~= seq!['l', 'o', 'c', 'a', 'l', 'h', 'o', 's', 't']);
}

} // verus!
