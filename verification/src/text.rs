//! Character-sequence utilities shared by the matcher and the template
//! filler: substring occurrence, leftmost search, and conversions between
//! `&str` and `Vec<char>`.

use vstd::prelude::*;

verus! {

/// The needle occurs in the haystack starting exactly at position `i`.
pub open spec fn occurs_at(hay: Seq<char>, needle: Seq<char>, i: int) -> bool {
    &&& 0 <= i
    &&& i + needle.len() <= hay.len()
    &&& hay.subrange(i, i + needle.len()) == needle
}

/// Position of the leftmost occurrence of `needle` in `hay` at or after
/// `from`, or `None` when there is no such occurrence.
pub open spec fn find_from(hay: Seq<char>, needle: Seq<char>, from: int) -> Option<int>
    decreases hay.len() - from,
{
    if from < 0 || from + needle.len() > hay.len() {
        None
    } else if needle.len() == 0 || occurs_at(hay, needle, from) {
        Some(from)
    } else {
        find_from(hay, needle, from + 1)
    }
}

/// Leftmost-search law: `find_from` returns the smallest position at or
/// after `from` where the needle occurs, and `None` exactly when the
/// needle occurs nowhere at or after `from`.
pub proof fn lemma_find_from_leftmost(hay: Seq<char>, needle: Seq<char>, from: int)
    requires
        0 <= from,
    ensures
        match find_from(hay, needle, from) {
            Some(j) => {
                &&& from <= j
                &&& occurs_at(hay, needle, j)
                &&& forall|k: int| from <= k < j ==> !occurs_at(hay, needle, k)
            },
            None => forall|k: int| from <= k ==> !occurs_at(hay, needle, k),
        },
    decreases hay.len() - from,
{
    if from + needle.len() > hay.len() {
    } else if needle.len() == 0 {
        assert(hay.subrange(from, from) =~= needle);
    } else if occurs_at(hay, needle, from) {
    } else {
        lemma_find_from_leftmost(hay, needle, from + 1);
    }
}

/// The characters of a string, in order, as a vector.
pub(crate) fn str_to_chars(s: &str) -> (v: Vec<char>)
    ensures
        v@ == s@,
{
    let n = s.unicode_len();
    let mut v: Vec<char> = Vec::new();
    let mut i: usize = 0;
    while i < n
        invariant
            i <= n,
            n == s@.len(),
            v@ == s@.subrange(0, i as int),
        decreases n - i,
    {
        let c = s.get_char(i);
        v.push(c);
        i = i + 1;
        proof {
            assert(v@ =~= s@.subrange(0, i as int));
        }
    }
    proof {
        assert(v@ =~= s@);
    }
    v
}

/// Whether the needle occurs at exactly position `at` of the haystack.
pub(crate) fn occurs_here(hay: &Vec<char>, needle: &Vec<char>, at: usize) -> (r: bool)
    requires
        at + needle@.len() <= hay@.len(),
    ensures
        r == occurs_at(hay@, needle@, at as int),
{
    let hl = hay.len();
    let nl = needle.len();
    let mut t: usize = 0;
    while t < nl
        invariant
            t <= nl,
            nl == needle@.len(),
            hl == hay@.len(),
            at + nl <= hl,
            forall|u: int| 0 <= u < t ==> hay@[at + u] == needle@[u],
        decreases nl - t,
    {
        if hay[at + t] != needle[t] {
            proof {
                assert(hay@.subrange(at as int, at + needle@.len())[t as int] == hay@[at + t]);
            }
            return false;
        }
        t = t + 1;
    }
    proof {
        assert(hay@.subrange(at as int, at + needle@.len()) =~= needle@);
    }
    true
}

/// Leftmost occurrence of `needle` in `hay` at or after `from`, as
/// executable search; agrees exactly with the `find_from` specification.
pub(crate) fn find_leftmost(hay: &Vec<char>, needle: &Vec<char>, from: usize) -> (r: Option<usize>)
    ensures
        match r {
            Some(j) => {
                &&& find_from(hay@, needle@, from as int) == Some(j as int)
                &&& from <= j
                &&& j + needle@.len() <= hay@.len()
            },
            None => find_from(hay@, needle@, from as int) is None,
        },
{
    if needle.len() > hay.len() {
        return None;
    }
    if needle.len() == 0 {
        if from <= hay.len() {
            proof {
                assert(hay@.subrange(from as int, from as int) =~= needle@);
            }
            return Some(from);
        } else {
            return None;
        }
    }
    let bound = hay.len() - needle.len();
    let mut j: usize = from;
    while j <= bound
        invariant
            from <= j,
            1 <= needle@.len() <= hay@.len(),
            hay@.len() <= usize::MAX,
            bound == hay@.len() - needle@.len(),
            forall|k: int| from <= k < j ==> !occurs_at(hay@, needle@, k),
        decreases bound + 1 - j,
    {
        if occurs_here(hay, needle, j) {
            proof {
                lemma_find_from_leftmost(hay@, needle@, from as int);
            }
            return Some(j);
        }
        j = j + 1;
    }
    proof {
        lemma_find_from_leftmost(hay@, needle@, from as int);
    }
    None
}

/// Whether two character vectors hold the same characters.
pub(crate) fn chars_eq(a: &Vec<char>, b: &Vec<char>) -> (r: bool)
    ensures
        r == (a@ == b@),
{
    if a.len() != b.len() {
        return false;
    }
    let mut i: usize = 0;
    while i < a.len()
        invariant
            i <= a@.len(),
            a@.len() == b@.len(),
            forall|u: int| 0 <= u < i ==> a@[u] == b@[u],
        decreases a@.len() - i,
    {
        if a[i] != b[i] {
            return false;
        }
        i = i + 1;
    }
    proof {
        assert(a@ =~= b@);
    }
    true
}

} // verus!
