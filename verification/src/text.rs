//! Character sequences, and where a character first occurs in one.

use vstd::prelude::*;

verus! {

/// `i` is the position of the first `c` in `s`.
pub open spec fn is_first_at(s: Seq<char>, c: char, i: int) -> bool {
    &&& 0 <= i < s.len()
    &&& s[i] == c
    &&& forall|j: int| 0 <= j < i ==> s[j] != c
}

/// The position of the first `c` in `s`, if `c` occurs in it.
pub open spec fn first_index(s: Seq<char>, c: char) -> Option<int> {
    if exists|i: int| is_first_at(s, c, i) {
        Some(choose|i: int| is_first_at(s, c, i))
    } else {
        None
    }
}

/// A first occurrence is the only one: `first_index` names it.
pub proof fn lemma_first_index_some(s: Seq<char>, c: char, i: int)
    requires
        is_first_at(s, c, i),
    ensures
        first_index(s, c) == Some(i),
{
    let k = choose|k: int| is_first_at(s, c, k);
    if k < i {
        assert(s[k] != c);
    } else if i < k {
        assert(s[i] != c);
    }
}

/// Where `c` does not occur, `first_index` finds nothing.
pub proof fn lemma_first_index_none(s: Seq<char>, c: char)
    requires
        forall|j: int| 0 <= j < s.len() ==> s[j] != c,
    ensures
        first_index(s, c) is None,
{
}

/// Where `c` stands at `i`, it has a first occurrence at or before `i`.
pub proof fn lemma_first_index_exists(s: Seq<char>, c: char, i: int)
    requires
        0 <= i < s.len(),
        s[i] == c,
    ensures
        first_index(s, c) is Some,
        first_index(s, c)->0 <= i,
        is_first_at(s, c, first_index(s, c)->0),
    decreases i,
{
    if forall|j: int| 0 <= j < i ==> s[j] != c {
        lemma_first_index_some(s, c, i);
    } else {
        let j = choose|j: int| 0 <= j < i && s[j] == c;
        lemma_first_index_exists(s, c, j);
    }
}

/// The characters of `s`, one item each.
pub fn chars_of(s: &str) -> (out: Vec<char>)
    ensures
        out@ == s@,
{
    let mut out: Vec<char> = Vec::new();
    for c in it: s.chars()
        invariant
            out@ == it.seq().take(it.index() as int),
            it.seq() == s@,
    {
        out.push(c);
    }
    out
}

/// The position of the first `c` in `s` at or after `start`, counted from
/// `start`.
pub fn find_from(s: &Vec<char>, start: usize, c: char) -> (found: Option<usize>)
    requires
        start <= s.len(),
    ensures
        match found {
            Some(n) => first_index(s@.skip(start as int), c) == Some(n as int),
            None => first_index(s@.skip(start as int), c) is None,
        },
{
    let ghost rest = s@.skip(start as int);
    let mut i: usize = start;
    while i < s.len()
        invariant
            start <= i <= s.len(),
            rest == s@.skip(start as int),
            forall|j: int| 0 <= j < i - start ==> rest[j] != c,
        decreases s.len() - i,
    {
        if s[i] == c {
            proof {
                assert(rest[i - start] == s@[i as int]);
                lemma_first_index_some(rest, c, i - start);
            }
            return Some(i - start);
        }
        proof {
            assert(rest[i - start] == s@[i as int]);
        }
        i = i + 1;
    }
    proof {
        lemma_first_index_none(rest, c);
    }
    None
}

} // verus!
