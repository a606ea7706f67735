//! Paths as text: trailing separators, and components added at the end.

use vstd::prelude::*;
use vstd::string::StrSliceExecFns;
use vstd::string::StringExecFns;

verus! {

/// The character that separates the components of a path.
pub const SEPARATOR: char = '/';

/// `s` without its trailing separators; a path made of separators alone
/// keeps its first one, which names the root.
pub open spec fn trim_trailing(s: Seq<char>) -> Seq<char>
    decreases s.len(),
{
    if s.len() > 1 && s.last() == SEPARATOR {
        trim_trailing(s.drop_last())
    } else {
        s
    }
}

/// What `trim_trailing` keeps is a prefix of `s`, and what it drops are
/// separators; what it keeps ends in a separator only if it is the root.
pub proof fn lemma_trim_trailing(s: Seq<char>)
    ensures
        trim_trailing(s).len() <= s.len(),
        trim_trailing(s) == s.take(trim_trailing(s).len() as int),
        forall|j: int| trim_trailing(s).len() <= j < s.len() ==> s[j] == SEPARATOR,
        s.len() > 0 ==> trim_trailing(s).len() > 0,
        trim_trailing(s).len() > 1 ==> trim_trailing(s).last() != SEPARATOR,
        trim_trailing(trim_trailing(s)) == trim_trailing(s),
    decreases s.len(),
{
    if s.len() > 1 && s.last() == SEPARATOR {
        let t = s.drop_last();
        lemma_trim_trailing(t);
        let n = trim_trailing(t).len() as int;
        assert(t.take(n) == s.take(n));
        assert forall|j: int| n <= j < s.len() implies s[j] == SEPARATOR by {
            if j < t.len() {
                assert(t[j] == s[j]);
            }
        }
    } else {
        assert(s.take(s.len() as int) == s);
    }
}

/// The length of `s[start..]` without its trailing separators.
pub fn trimmed_len(s: &Vec<char>, start: usize) -> (n: usize)
    requires
        start <= s.len(),
    ensures
        n == trim_trailing(s@.skip(start as int)).len(),
        start + n <= s.len(),
{
    let ghost rest = s@.skip(start as int);
    let mut end: usize = s.len();
    proof {
        assert(rest.take(end - start) == rest);
    }
    while end - start > 1 && s[end - 1] == SEPARATOR
        invariant
            start <= end <= s.len(),
            rest == s@.skip(start as int),
            trim_trailing(rest) == trim_trailing(rest.take(end - start)),
        decreases end,
    {
        proof {
            let cur = rest.take(end - start);
            assert(cur.last() == s@[end - 1]);
            assert(cur.drop_last() == rest.take(end - 1 - start));
        }
        end = end - 1;
    }
    proof {
        let cur = rest.take(end - start);
        if end - start > 1 {
            assert(cur.last() == s@[end - 1]);
        }
        assert(rest.take(rest.len() as int) == rest);
    }
    end - start
}

/// `path` with `segment` as a further component: a separator goes between
/// the two unless `path` is empty or already ends in one.
pub open spec fn push_segment(path: Seq<char>, segment: Seq<char>) -> Seq<char> {
    if path.len() == 0 || path.last() == SEPARATOR {
        path + segment
    } else {
        path.push(SEPARATOR) + segment
    }
}

/// `path` with each of `segments` as a further component, in their order.
pub open spec fn join_path(path: Seq<char>, segments: Seq<Seq<char>>) -> Seq<char>
    decreases segments.len(),
{
    if segments.len() == 0 {
        path
    } else {
        push_segment(join_path(path, segments.drop_last()), segments.last())
    }
}

/// Adds `segment` to `path` as a further component.
pub fn append_segment(path: &mut String, segment: &str)
    ensures
        final(path)@ == push_segment(old(path)@, segment@),
{
    let len: usize = path.as_str().unicode_len();
    if len > 0 && path.as_str().get_char(len - 1) != SEPARATOR {
        proof {
            reveal_strlit("/");
            assert("/"@ == seq![SEPARATOR]);
        }
        path.append("/");
        assert(path@ == old(path)@.push(SEPARATOR));
    }
    path.append(segment);
}

/// Joining one list of segments and then another is joining the two lists
/// put end to end.
pub proof fn lemma_join_path_concat(path: Seq<char>, first: Seq<Seq<char>>, second: Seq<Seq<char>>)
    ensures
        join_path(join_path(path, first), second) == join_path(path, first + second),
    decreases second.len(),
{
    if second.len() == 0 {
        assert(first + second == first);
    } else {
        lemma_join_path_concat(path, first, second.drop_last());
        assert((first + second).drop_last() == first + second.drop_last());
        assert((first + second).last() == second.last());
    }
}

} // verus!
