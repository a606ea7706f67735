//! What holds of parsing and joining, for every destination.

use vstd::prelude::*;
use vstd::std_specs::cmp::PartialEqSpec;
use crate::path::{join_path, lemma_join_path_concat, push_segment, trim_trailing, SEPARATOR};
use crate::sshuri::{compose, host_and_path, parse, SSHUri, UriModel, HOST_MARK, USER_MARK};
use crate::text::{
    first_index, is_first_at, lemma_first_index_exists, lemma_first_index_none,
    lemma_first_index_some,
};

verus! {

/// Joining one list of segments and then another gives the destination that
/// joining the two lists, put end to end, gives.
pub proof fn lemma_join_join(uri: UriModel, first: Seq<Seq<char>>, second: Seq<Seq<char>>)
    ensures
        uri.join(first).join(second) == uri.join(first + second),
{
    lemma_join_path_concat(uri.path, first, second);
}

/// Joining no segment gives the destination itself.
pub proof fn lemma_join_nothing(uri: UriModel)
    ensures
        uri.join(Seq::empty()) == uri,
{
}

/// Joining changes the path alone.
pub proof fn lemma_join_keeps_rest(uri: UriModel, segments: Seq<Seq<char>>)
    ensures
        uri.join(segments).original == uri.original,
        uri.join(segments).user == uri.user,
        uri.join(segments).host == uri.host,
{
}

/// A valid destination stays valid under `join`.
pub proof fn lemma_join_valid(uri: UriModel, segments: Seq<Seq<char>>)
    requires
        uri.valid(),
    ensures
        uri.join(segments).valid(),
{
    let p = parse(uri.original)->0;
    let below = choose|below: Seq<Seq<char>>| uri.path == join_path(p.path, below);
    lemma_join_path_concat(p.path, below, segments);
}

/// A text that parses gives a valid destination that keeps the text as it
/// was given.
pub proof fn lemma_parse_valid(src: Seq<char>)
    requires
        parse(src) is Some,
    ensures
        parse(src)->0.valid(),
        parse(src)->0.original == src,
{
    let p = parse(src)->0;
    assert(p.path == join_path(p.path, Seq::empty()));
}

/// A text parses exactly if a `:` follows its first `@`, or stands anywhere
/// in it where it has no `@`.
pub proof fn lemma_parse_some_iff(src: Seq<char>)
    ensures
        parse(src) is Some <==> host_and_path(src).contains(HOST_MARK),
{
    let rest = host_and_path(src);
    if rest.contains(HOST_MARK) {
        if first_index(rest, HOST_MARK) is None {
            let i = choose|i: int| 0 <= i < rest.len() && rest[i] == HOST_MARK;
            lemma_first_index_exists(rest, HOST_MARK, i);
        }
    } else {
        if first_index(rest, HOST_MARK) is Some {
            let i = first_index(rest, HOST_MARK)->0;
            assert(is_first_at(rest, HOST_MARK, i));
            assert(rest[i] == HOST_MARK);
        }
    }
}

/// The text `[user@]host:path` parses to that user, that host and that path
/// without its trailing separators, provided that the parts can be told
/// apart: no `@` in the user name, no `:` in the host, and no `@` at all
/// where there is no user name.
pub proof fn lemma_parse_composed(user: Option<Seq<char>>, host: Seq<char>, path: Seq<char>)
    requires
        user is Some ==> !user->0.contains(USER_MARK),
        user is None ==> !host.contains(USER_MARK) && !path.contains(USER_MARK),
        !host.contains(HOST_MARK),
    ensures
        parse(compose(user, host, path)) == Some(
            UriModel {
                original: compose(user, host, path),
                user,
                host,
                path: trim_trailing(path),
            },
        ),
{
    let src = compose(user, host, path);
    let tail = host.push(HOST_MARK) + path;
    match user {
        Some(u) => {
            assert forall|j: int| 0 <= j < u.len() implies src[j] != USER_MARK by {
                assert(src[j] == u[j]);
                assert(u.contains(u[j]));
            }
            lemma_first_index_some(src, USER_MARK, u.len() as int);
            assert(src.take(u.len() as int) == u);
            assert(src.skip(u.len() as int + 1) == tail);
        },
        None => {
            assert forall|j: int| 0 <= j < src.len() implies src[j] != USER_MARK by {
                if j < host.len() {
                    assert(host.contains(host[j]));
                } else if j > host.len() {
                    assert(src[j] == path[j - host.len() - 1]);
                    assert(path.contains(path[j - host.len() - 1]));
                }
            }
            lemma_first_index_none(src, USER_MARK);
        },
    }
    assert(host_and_path(src) == tail);
    assert forall|j: int| 0 <= j < host.len() implies tail[j] != HOST_MARK by {
        assert(tail[j] == host[j]);
        assert(host.contains(host[j]));
    }
    lemma_first_index_some(tail, HOST_MARK, host.len() as int);
    assert(tail.take(host.len() as int) == host);
    assert(tail.skip(host.len() as int + 1) == path);
}

/// A text that parses is `[user@]host:path` for the user and the host that
/// parsing gives, and the path that it gives is that `path` without its
/// trailing separators. The user name holds no `@`, the host no `:`, and
/// without a user name the text holds no `@`.
pub proof fn lemma_parse_decomposes(src: Seq<char>)
    requires
        parse(src) is Some,
    ensures
        ({
            let p = parse(src)->0;
            let given = host_and_path(src).skip(p.host.len() as int + 1);
            &&& src == compose(p.user, p.host, given)
            &&& p.path == trim_trailing(given)
            &&& !p.host.contains(HOST_MARK)
            &&& p.user is Some ==> !p.user->0.contains(USER_MARK)
            &&& p.user is None ==> !src.contains(USER_MARK)
        }),
{
    let p = parse(src)->0;
    let rest = host_and_path(src);
    let n = first_index(rest, HOST_MARK)->0;
    assert(is_first_at(rest, HOST_MARK, n));
    let given = rest.skip(n + 1);
    assert(rest == p.host.push(HOST_MARK) + given);
    if p.host.contains(HOST_MARK) {
        let j = choose|j: int| 0 <= j < p.host.len() && p.host[j] == HOST_MARK;
        assert(rest[j] == HOST_MARK);
    }
    match first_index(src, USER_MARK) {
        Some(m) => {
            assert(is_first_at(src, USER_MARK, m));
            let u = src.take(m);
            assert(src == u.push(USER_MARK) + rest);
            if u.contains(USER_MARK) {
                let j = choose|j: int| 0 <= j < u.len() && u[j] == USER_MARK;
                assert(src[j] == USER_MARK);
            }
        },
        None => {
            if src.contains(USER_MARK) {
                let j = choose|j: int| 0 <= j < src.len() && src[j] == USER_MARK;
                lemma_first_index_exists(src, USER_MARK, j);
            }
        },
    }
}

/// A valid destination without a user name has no `@` in its original
/// text, and one with a user name has one.
pub proof fn lemma_user_iff_mark(uri: UriModel)
    requires
        uri.valid(),
    ensures
        uri.user is Some <==> uri.original.contains(USER_MARK),
{
    lemma_parse_decomposes(uri.original);
    if uri.user is Some {
        let m = first_index(uri.original, USER_MARK)->0;
        assert(is_first_at(uri.original, USER_MARK, m));
    }
}

/// One more separator at the end of a text whose path is not empty changes
/// nothing of what it parses to but the original text.
pub proof fn lemma_parse_trailing_separator(src: Seq<char>)
    requires
        parse(src) is Some,
        parse(src)->0.path.len() > 0,
    ensures
        parse(src.push(SEPARATOR)) == Some(
            UriModel { original: src.push(SEPARATOR), ..parse(src)->0 },
        ),
{
    lemma_parse_decomposes(src);
    let p = parse(src)->0;
    let given = host_and_path(src).skip(p.host.len() as int + 1);
    assert(given.len() > 0);
    assert(src.push(SEPARATOR) == compose(p.user, p.host, given.push(SEPARATOR)));
    if p.user is None {
        assert forall|j: int| 0 <= j < given.len() + 1 implies given.push(SEPARATOR)[j]
            != USER_MARK by {
            if j < given.len() {
                assert(src[p.host.len() + 1 + j] == given[j]);
                assert(src.contains(given[j]));
            }
        }
        assert forall|j: int| 0 <= j < p.host.len() implies p.host[j] != USER_MARK by {
            assert(src[j] == p.host[j]);
            assert(src.contains(p.host[j]));
        }
    }
    lemma_parse_composed(p.user, p.host, given.push(SEPARATOR));
    assert(given.push(SEPARATOR).drop_last() == given);
}

/// The path of a destination is the beginning of the path of every
/// destination joined below it.
pub proof fn lemma_join_extends(uri: UriModel, segments: Seq<Seq<char>>)
    ensures
        uri.path.is_prefix_of(uri.join(segments).path),
    decreases segments.len(),
{
    if segments.len() > 0 {
        lemma_join_extends(uri, segments.drop_last());
        let before = join_path(uri.path, segments.drop_last());
        let after = push_segment(before, segments.last());
        assert(before.is_prefix_of(after));
    }
}

/// Two destinations are equal exactly if they agree in original text, user,
/// host and path.
pub proof fn lemma_equal_iff_parts(a: SSHUri, b: SSHUri)
    ensures
        a.eq_spec(&b) <==> {
            &&& a@.original == b@.original
            &&& a@.user == b@.user
            &&& a@.host == b@.host
            &&& a@.path == b@.path
        },
{
}

} // verus!
