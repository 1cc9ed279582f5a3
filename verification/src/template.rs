//! Filling a rename template: every placeholder `#N` is replaced by the
//! `N`-th capture, processing indices in descending numeric order so that
//! `#1` is never taken for the head of `#10`.

use vstd::prelude::*;

use crate::text::{find_from, find_leftmost, lemma_find_from_leftmost, str_to_chars};

verus! {

/// The character for one decimal digit.
pub open spec fn digit_char(d: int) -> char {
    if d == 0 {
        '0'
    } else if d == 1 {
        '1'
    } else if d == 2 {
        '2'
    } else if d == 3 {
        '3'
    } else if d == 4 {
        '4'
    } else if d == 5 {
        '5'
    } else if d == 6 {
        '6'
    } else if d == 7 {
        '7'
    } else if d == 8 {
        '8'
    } else {
        '9'
    }
}

/// The decimal digits of `n`, most significant first, without leading
/// zeros (the number zero is the single digit `0`).
pub open spec fn decimal_rep(n: nat) -> Seq<char>
    decreases n,
{
    if n < 10 {
        seq![digit_char(n as int)]
    } else {
        decimal_rep(n / 10).push(digit_char((n % 10) as int))
    }
}

/// The placeholder token for capture `n`: a `#` followed by the decimal
/// digits of `n`.
pub open spec fn placeholder(n: nat) -> Seq<char> {
    seq!['#'] + decimal_rep(n)
}

/// `s` with every occurrence of `from` replaced by `to`, scanning left to
/// right over non-overlapping occurrences; text inserted by a replacement
/// is not rescanned within the same pass.
pub open spec fn replace_all(s: Seq<char>, from: Seq<char>, to: Seq<char>) -> Seq<char>
    decreases s.len(),
    via replace_all_decreases
{
    if from.len() == 0 {
        s
    } else {
        match find_from(s, from, 0) {
            None => s,
            Some(j) => s.subrange(0, j) + to + replace_all(
                s.subrange(j + from.len(), s.len() as int),
                from,
                to,
            ),
        }
    }
}

#[via_fn]
proof fn replace_all_decreases(s: Seq<char>, from: Seq<char>, to: Seq<char>) {
    if from.len() > 0 {
        lemma_find_from_leftmost(s, from, 0);
    }
}

/// One pass per capture index, from `n` down to `1`: pass `n` replaces the
/// placeholder `#n` by capture `n` in the text the higher passes left.
pub open spec fn fill_passes(caps: Seq<Seq<char>>, t: Seq<char>, n: nat) -> Seq<char>
    decreases n,
{
    if n == 0 {
        t
    } else {
        fill_passes(caps, replace_all(t, placeholder(n), caps[n - 1]), (n - 1) as nat)
    }
}

/// The filled template: placeholders `#1` through `#len(caps)` replaced by
/// their captures, highest index first; placeholders beyond the capture
/// list are left as literal text.
pub open spec fn fill_chars(caps: Seq<Seq<char>>, t: Seq<char>) -> Seq<char> {
    fill_passes(caps, t, caps.len())
}

/// A template in which no in-range placeholder occurs is filled to itself.
pub proof fn lemma_fill_untouched(caps: Seq<Seq<char>>, t: Seq<char>)
    requires
        forall|n: nat| 1 <= n <= caps.len() ==> find_from(t, #[trigger] placeholder(n), 0) is None,
    ensures
        fill_chars(caps, t) == t,
{
    lemma_fill_passes_untouched(caps, t, caps.len());
}

proof fn lemma_fill_passes_untouched(caps: Seq<Seq<char>>, t: Seq<char>, n: nat)
    requires
        n <= caps.len(),
        forall|m: nat| 1 <= m <= caps.len() ==> find_from(t, #[trigger] placeholder(m), 0) is None,
    ensures
        fill_passes(caps, t, n) == t,
    decreases n,
{
    if n > 0 {
        assert(placeholder(n).len() > 0);
        assert(replace_all(t, placeholder(n), caps[n - 1]) == t);
        lemma_fill_passes_untouched(caps, t, (n - 1) as nat);
    }
}

/// The character for digit `d`.
fn digit_of(d: usize) -> (c: char)
    requires
        d < 10,
    ensures
        c == digit_char(d as int),
{
    if d == 0 {
        '0'
    } else if d == 1 {
        '1'
    } else if d == 2 {
        '2'
    } else if d == 3 {
        '3'
    } else if d == 4 {
        '4'
    } else if d == 5 {
        '5'
    } else if d == 6 {
        '6'
    } else if d == 7 {
        '7'
    } else if d == 8 {
        '8'
    } else {
        '9'
    }
}

/// Appends the decimal digits of `n` to `out`.
fn push_decimal(out: &mut Vec<char>, n: usize)
    ensures
        final(out)@ == old(out)@ + decimal_rep(n as nat),
    decreases n,
{
    if n < 10 {
        out.push(digit_of(n));
        proof {
            assert(final(out)@ =~= old(out)@ + decimal_rep(n as nat));
        }
    } else {
        push_decimal(out, n / 10);
        out.push(digit_of(n % 10));
        proof {
            assert(old(out)@ + decimal_rep((n / 10) as nat).push(digit_char((n % 10) as int))
                =~= (old(out)@ + decimal_rep((n / 10) as nat)).push(digit_char((n % 10) as int)));
        }
    }
}

/// The placeholder token for capture `n`, as characters.
fn placeholder_chars(n: usize) -> (v: Vec<char>)
    ensures
        v@ == placeholder(n as nat),
{
    let mut v: Vec<char> = Vec::new();
    v.push('#');
    push_decimal(&mut v, n);
    proof {
        assert(seq!['#'] =~= Seq::<char>::empty().push('#'));
        assert(v@ =~= placeholder(n as nat));
    }
    v
}

/// `s` with every occurrence of `from` replaced by `to`, as `replace_all`
/// defines it.
fn replace_all_str(s: &str, from: &Vec<char>, to: &str) -> (r: String)
    requires
        from@.len() >= 1,
    ensures
        r@ == replace_all(s@, from@, to@),
    decreases s@.len(),
{
    let chars = str_to_chars(s);
    match find_leftmost(&chars, from, 0) {
        None => s.to_owned(),
        Some(j) => {
            let cl = chars.len();
            let rest = s.substring_char(j + from.len(), cl);
            let tail = replace_all_str(rest, from, to);
            let mut out: String = s.substring_char(0, j).to_owned();
            out.append(to);
            out.append(tail.as_str());
            proof {
                assert(out@ =~= s@.subrange(0, j as int) + to@ + replace_all(
                    s@.subrange(j + from@.len(), s@.len() as int),
                    from@,
                    to@,
                ));
            }
            out
        },
    }
}

/// The filled template, built by one replacement pass per capture index,
/// highest index first.
pub(crate) fn fill(captures: Vec<&str>, template: &str) -> (r: String)
    ensures
        r@ == fill_chars(captures.deep_view(), template@),
{
    let ghost caps = captures.deep_view();
    let mut cur: String = template.to_owned();
    let mut n: usize = captures.len();
    proof {
        assert(caps.len() == captures@.len());
    }
    while n > 0
        invariant
            n <= captures@.len(),
            caps == captures.deep_view(),
            caps.len() == captures@.len(),
            fill_passes(caps, cur@, n as nat) == fill_chars(caps, template@),
        decreases n,
    {
        let cap: &str = captures[n - 1];
        let ph = placeholder_chars(n);
        proof {
            assert(ph@.len() >= 1);
            assert(caps[n - 1] == cap@);
        }
        cur = replace_all_str(cur.as_str(), &ph, cap);
        n = n - 1;
    }
    cur
}

} // verus!
