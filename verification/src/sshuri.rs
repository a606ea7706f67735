//! The destination type `SSHUri`, its parser and its `join`.

use vstd::prelude::*;
use vstd::string::StringExecFns;
use vstd::string::StrSliceExecFns;
use crate::laws::lemma_join_valid;
use crate::path::{append_segment, join_path, lemma_trim_trailing, trim_trailing, trimmed_len};
use crate::text::{chars_of, find_from, first_index};

verus! {

/// The character that ends the user name.
pub const USER_MARK: char = '@';

/// The character that ends the host name.
pub const HOST_MARK: char = ':';

/// What an `SSHUri` holds, as character sequences.
pub ghost struct UriModel {
    /// The text that was parsed, as it was given.
    pub original: Seq<char>,
    /// The account name, where the text names one.
    pub user: Option<Seq<char>>,
    /// The remote host.
    pub host: Seq<char>,
    /// The path on the remote host.
    pub path: Seq<char>,
}

/// Why a text is no destination.
#[derive(Debug, Clone, Copy, PartialEq, Eq, Structural)]
pub enum UriError {
    /// No `:` follows the optional `user@` prefix.
    InvalidUri,
}

/// The account name in `src`: what stands before its first `@`.
pub open spec fn user_part(src: Seq<char>) -> Option<Seq<char>> {
    match first_index(src, USER_MARK) {
        Some(n) => Some(src.take(n)),
        None => None,
    }
}

/// What follows the first `@` of `src`, or all of `src` if it has none.
pub open spec fn host_and_path(src: Seq<char>) -> Seq<char> {
    match first_index(src, USER_MARK) {
        Some(n) => src.skip(n + 1),
        None => src,
    }
}

/// The text `[user@]host:path`.
pub open spec fn compose(user: Option<Seq<char>>, host: Seq<char>, path: Seq<char>) -> Seq<char> {
    let tail = host.push(HOST_MARK) + path;
    match user {
        Some(u) => u.push(USER_MARK) + tail,
        None => tail,
    }
}

/// The destination that `src` denotes, if it denotes one: the host ends at
/// the first `:` after the user name, and the path is what follows it,
/// without trailing separators.
pub open spec fn parse(src: Seq<char>) -> Option<UriModel> {
    let rest = host_and_path(src);
    match first_index(rest, HOST_MARK) {
        Some(n) => Some(
            UriModel {
                original: src,
                user: user_part(src),
                host: rest.take(n),
                path: trim_trailing(rest.skip(n + 1)),
            },
        ),
        None => None,
    }
}

impl UriModel {
    /// The destination below this one that `segments` lead to.
    pub open spec fn join(self, segments: Seq<Seq<char>>) -> UriModel {
        UriModel { path: join_path(self.path, segments), ..self }
    }

    /// User and host are those that the original text names, and the path
    /// lies below the one that it names.
    pub open spec fn valid(self) -> bool {
        match parse(self.original) {
            Some(p) => {
                &&& self.user == p.user
                &&& self.host == p.host
                &&& exists|segments: Seq<Seq<char>>| self.path == join_path(p.path, segments)
            },
            None => false,
        }
    }
}

/// The characters of an optional string.
pub open spec fn text_of(s: Option<String>) -> Option<Seq<char>> {
    match s {
        Some(t) => Some(t@),
        None => None,
    }
}

/// The characters of each of `parts`.
pub open spec fn texts(parts: Seq<&str>) -> Seq<Seq<char>> {
    Seq::new(parts.len(), |i: int| parts[i]@)
}

/// A remote location that SSH-based tools can reach: `[user@]host:path`.
#[derive(Debug)]
pub struct SSHUri {
    original: String,
    user: Option<String>,
    host: String,
    path: String,
}

impl View for SSHUri {
    type V = UriModel;

    closed spec fn view(&self) -> UriModel {
        UriModel {
            original: self.original@,
            user: text_of(self.user),
            host: self.host@,
            path: self.path@,
        }
    }
}

impl SSHUri {
    #[verifier::type_invariant]
    closed spec fn inv(&self) -> bool {
        self@.valid()
    }

    /// Parses `src` as `[user@]host:path`. The user name ends at the first
    /// `@`, the host at the first `:` after it; a text without that `:` is
    /// refused. Neither an empty user name nor an empty host is refused.
    pub fn from(src: &str) -> (parsed: Result<SSHUri, UriError>)
        ensures
            match parsed {
                Ok(uri) => parse(src@) == Some(uri@) && uri@.original == src@ && uri@.valid(),
                Err(e) => parse(src@) is None && e == UriError::InvalidUri,
            },
    {
        let chars = chars_of(src);
        proof {
            assert(chars@.skip(0) == src@);
        }
        let user: Option<String>;
        let start: usize;
        match find_from(&chars, 0, USER_MARK) {
            Some(n) => {
                user = Some(String::from_str(src.substring_char(0, n)));
                start = n + 1;
            },
            None => {
                user = None;
                start = 0;
            },
        }
        let ghost rest = host_and_path(src@);
        assert(chars@.skip(start as int) == rest);
        match find_from(&chars, start, HOST_MARK) {
            Some(n) => {
                let host = String::from_str(src.substring_char(start, start + n));
                let from: usize = start + n + 1;
                let len: usize = trimmed_len(&chars, from);
                let path = String::from_str(src.substring_char(from, from + len));
                let original = String::from_str(src);
                proof {
                    let tail = rest.skip(n + 1);
                    assert(host@ == rest.take(n as int));
                    assert(chars@.skip(from as int) == tail);
                    lemma_trim_trailing(tail);
                    assert(path@ == tail.take(len as int));
                    assert(path@ == trim_trailing(tail));
                    let model = UriModel {
                        original: original@,
                        user: text_of(user),
                        host: host@,
                        path: path@,
                    };
                    assert(model.user == user_part(src@));
                    assert(parse(src@) == Some(model));
                    assert(model.path == join_path(model.path, Seq::<Seq<char>>::empty()));
                    assert(model.valid());
                }
                let uri = SSHUri { original, user, host, path };
                Ok(uri)
            },
            None => Err(UriError::InvalidUri),
        }
    }

    /// The destination below this one that `parts` lead to: each of them
    /// becomes a further component of the path, in their order. Original
    /// text, user and host stay as they are.
    pub fn join(&self, parts: &[&str]) -> (joined: SSHUri)
        ensures
            joined@ == self@.join(texts(parts@)),
            joined@.valid(),
    {
        let mut path = self.path.clone();
        let mut i: usize = 0;
        while i < parts.len()
            invariant
                i <= parts.len(),
                path@ == join_path(self.path@, texts(parts@).take(i as int)),
            decreases parts.len() - i,
        {
            proof {
                let done = texts(parts@).take(i + 1);
                assert(done.drop_last() == texts(parts@).take(i as int));
                assert(done.last() == parts@[i as int]@);
            }
            append_segment(&mut path, parts[i]);
            i = i + 1;
        }
        let original = self.original.clone();
        let user = match &self.user {
            Some(u) => Some(u.clone()),
            None => None,
        };
        let host = self.host.clone();
        proof {
            use_type_invariant(self);
            assert(texts(parts@).take(i as int) == texts(parts@));
            lemma_join_valid(self@, texts(parts@));
        }
        SSHUri { original, user, host, path }
    }

    /// The text that was parsed, as it was given.
    pub fn original(&self) -> (text: &str)
        ensures
            text@ == self@.original,
    {
        self.original.as_str()
    }

    /// The account name, where the original text names one.
    pub fn user(&self) -> (text: Option<&str>)
        ensures
            match text {
                Some(u) => self@.user == Some(u@),
                None => self@.user is None,
            },
    {
        match &self.user {
            Some(u) => Some(u.as_str()),
            None => None,
        }
    }

    /// The original text without its `user@` prefix: host and path as they
    /// were given. It is read off the original text, so `join` leaves it as
    /// it is.
    pub fn uri(&self) -> (text: String)
        ensures
            text@ == host_and_path(self@.original),
    {
        let chars = chars_of(self.original.as_str());
        proof {
            assert(chars@.skip(0) == chars@);
        }
        let start: usize = match find_from(&chars, 0, USER_MARK) {
            Some(n) => n + 1,
            None => 0,
        };
        let text = String::from_str(self.original.as_str().substring_char(start, chars.len()));
        proof {
            assert(text@ == self@.original.skip(start as int));
            assert(self@.original.skip(0) == self@.original);
        }
        text
    }

    /// The remote host.
    pub fn host(&self) -> (text: &str)
        ensures
            text@ == self@.host,
    {
        self.host.as_str()
    }

    /// The path on the remote host.
    pub fn path(&self) -> (text: &str)
        ensures
            text@ == self@.path,
    {
        self.path.as_str()
    }
}

impl Clone for SSHUri {
    fn clone(&self) -> (copy: SSHUri)
        ensures
            copy@ == self@,
            copy@.valid(),
    {
        proof {
            use_type_invariant(self);
        }
        SSHUri {
            original: self.original.clone(),
            user: match &self.user {
                Some(u) => Some(u.clone()),
                None => None,
            },
            host: self.host.clone(),
            path: self.path.clone(),
        }
    }
}

impl PartialEq for SSHUri {
    fn eq(&self, other: &SSHUri) -> (same: bool) {
        let users = match (&self.user, &other.user) {
            (Some(a), Some(b)) => *a == *b,
            (None, None) => true,
            _ => false,
        };
        let originals = self.original == other.original;
        let hosts = self.host == other.host;
        let paths = self.path == other.path;
        users && originals && hosts && paths
    }
}

impl Eq for SSHUri {

}

impl vstd::std_specs::cmp::PartialEqSpecImpl for SSHUri {
    open spec fn obeys_eq_spec() -> bool {
        true
    }

    open spec fn eq_spec(&self, other: &SSHUri) -> bool {
        self@ == other@
    }
}

} // verus!
