//! Wildcard pattern matching and template filling.
//!
//! A pattern is an arbitrary string in which each `*` marks a
//! variable-length gap. Matching a candidate name either fails or yields
//! the ordered list of substrings the gaps stood for; a rename template
//! with `#1`, `#2`, ... placeholders is then filled from that list.

use vstd::prelude::*;

use crate::text::{
    chars_eq, find_from, find_leftmost, lemma_find_from_leftmost, occurs_at, occurs_here,
    str_to_chars,
};
use crate::template;

verus! {

/// Number of wildcard markers in a pattern.
pub open spec fn star_count(p: Seq<char>) -> nat
    decreases p.len(),
{
    if p.len() == 0 {
        0
    } else if p.last() == '*' {
        star_count(p.drop_last()) + 1
    } else {
        star_count(p.drop_last())
    }
}

/// The literal segments of a pattern: the fixed text before the first
/// wildcard, between consecutive wildcards, and after the last one.
/// A pattern with `k` wildcards has exactly `k + 1` segments, some of
/// which may be empty.
pub open spec fn segments_of(p: Seq<char>) -> Seq<Seq<char>>
    decreases p.len(),
{
    if p.len() == 0 {
        seq![Seq::<char>::empty()]
    } else if p.last() == '*' {
        segments_of(p.drop_last()).push(Seq::<char>::empty())
    } else {
        let init = segments_of(p.drop_last());
        init.update(init.len() - 1, init.last().push(p.last()))
    }
}

/// Each pattern has one more literal segment than it has wildcards.
pub proof fn lemma_segments_count(p: Seq<char>)
    ensures
        segments_of(p).len() == star_count(p) + 1,
    decreases p.len(),
{
    if p.len() > 0 {
        lemma_segments_count(p.drop_last());
    }
}

/// All segments from position `i` onward are empty, i.e. the rest of the
/// pattern from the wildcard before segment `i` consists of wildcards only.
pub open spec fn tail_all_empty(segs: Seq<Seq<char>>, i: int) -> bool {
    forall|j: int| i <= j < segs.len() ==> segs[j].len() == 0
}

/// Matching of the wildcard slots and their trailing literal segments
/// `segs[i..]` against `name`, with the cursor standing at `cursor`.
///
/// When everything left of the pattern is wildcards, the current slot
/// captures the whole remaining suffix and matching ends (trailing-run
/// collapse); otherwise the next literal segment is sought leftmost at or
/// after the cursor, the text skipped over becomes the capture, and the
/// cursor advances past that occurrence.
pub open spec fn match_slots(segs: Seq<Seq<char>>, name: Seq<char>, i: int, cursor: int) -> Option<
    Seq<Seq<char>>,
>
    decreases segs.len() - i,
{
    if i >= segs.len() {
        Some(Seq::<Seq<char>>::empty())
    } else if tail_all_empty(segs, i) {
        Some(seq![name.subrange(cursor, name.len() as int)])
    } else {
        match find_from(name, segs[i], cursor) {
            Some(j) => match match_slots(segs, name, i + 1, j + segs[i].len()) {
                Some(rest) => Some(seq![name.subrange(cursor, j)] + rest),
                None => None,
            },
            None => None,
        }
    }
}

/// The match result for a whole pattern: `None` when the name does not fit
/// the pattern, otherwise the ordered capture list.
///
/// A pattern without wildcards matches exactly itself, with an empty
/// capture list. Otherwise the first literal segment must be a prefix of
/// the name, and the wildcard slots are processed in order from there.
pub open spec fn pattern_match(p: Seq<char>, name: Seq<char>) -> Option<Seq<Seq<char>>> {
    let segs = segments_of(p);
    if segs.len() == 1 {
        if name == segs[0] {
            Some(Seq::<Seq<char>>::empty())
        } else {
            None
        }
    } else if !(segs[0].len() <= name.len() && occurs_at(name, segs[0], 0)) {
        None
    } else {
        match_slots(segs, name, 1, segs[0].len() as int)
    }
}

/// A pattern without wildcards has itself as its only segment.
pub proof fn lemma_segments_no_star(p: Seq<char>)
    requires
        star_count(p) == 0,
    ensures
        segments_of(p) == seq![p],
    decreases p.len(),
{
    if p.len() == 0 {
        assert(p =~= Seq::<char>::empty());
        assert(segments_of(p) =~= seq![p]);
    } else {
        lemma_segments_no_star(p.drop_last());
        assert(p.drop_last().push(p.last()) =~= p);
        assert(segments_of(p) =~= seq![p]);
    }
}

/// A pattern with no wildcard matches a name exactly when the name equals
/// the pattern, and then captures nothing.
pub proof fn lemma_no_wildcard(p: Seq<char>, name: Seq<char>)
    requires
        star_count(p) == 0,
    ensures
        pattern_match(p, name) == if name == p {
            Some(Seq::<Seq<char>>::empty())
        } else {
            None::<Seq<Seq<char>>>
        },
{
    lemma_segments_no_star(p);
}

/// A name that equals a wildcard-free pattern round-trips unchanged: the
/// match succeeds with no captures, and filling any template with an empty
/// capture list returns the template as it is; in particular the pattern
/// itself fills to itself.
pub proof fn lemma_no_wildcard_round_trip(p: Seq<char>)
    requires
        star_count(p) == 0,
    ensures
        pattern_match(p, p) == Some(Seq::<Seq<char>>::empty()),
        template::fill_chars(Seq::<Seq<char>>::empty(), p) == p,
{
    lemma_no_wildcard(p, p);
}

proof fn lemma_match_slots_count(segs: Seq<Seq<char>>, name: Seq<char>, i: int, cursor: int)
    requires
        1 <= i <= segs.len(),
        match_slots(segs, name, i, cursor) is Some,
    ensures
        match_slots(segs, name, i, cursor)->0.len() <= segs.len() - i,
    decreases segs.len() - i,
{
    if i < segs.len() && !tail_all_empty(segs, i) {
        if let Some(j) = find_from(name, segs[i], cursor) {
            if match_slots(segs, name, i + 1, j + segs[i].len()) is Some {
                lemma_match_slots_count(segs, name, i + 1, j + segs[i].len());
            }
        }
    }
}

/// A match never yields more captures than the pattern has wildcards; the
/// list comes out shorter when a trailing wildcard run collapses.
pub proof fn lemma_capture_count(p: Seq<char>, name: Seq<char>)
    ensures
        pattern_match(p, name) matches Some(caps) ==> caps.len() <= star_count(p),
{
    lemma_segments_count(p);
    let segs = segments_of(p);
    if segs.len() > 1 && pattern_match(p, name) is Some {
        lemma_match_slots_count(segs, name, 1, segs[0].len() as int);
    }
}

/// The captures of the remaining slots, interleaved with the literal
/// segments that follow them: capture `0` of the list, then segment `i`,
/// then capture `1`, then segment `i + 1`, and so on.
pub open spec fn splice_from(segs: Seq<Seq<char>>, caps: Seq<Seq<char>>, i: int) -> Seq<char>
    decreases caps.len(),
{
    if caps.len() == 0 {
        Seq::<char>::empty()
    } else {
        caps[0] + (if i < segs.len() {
            segs[i]
        } else {
            Seq::<char>::empty()
        }) + splice_from(segs, caps.drop_first(), i + 1)
    }
}

proof fn lemma_match_slots_explains(segs: Seq<Seq<char>>, name: Seq<char>, i: int, cursor: int)
    requires
        1 <= i,
        0 <= cursor <= name.len(),
        match_slots(segs, name, i, cursor) is Some,
    ensures
        ({
            let spliced = splice_from(segs, match_slots(segs, name, i, cursor)->0, i);
            &&& cursor + spliced.len() <= name.len()
            &&& name.subrange(cursor, cursor + spliced.len()) == spliced
        }),
    decreases segs.len() - i,
{
    let rest = match_slots(segs, name, i, cursor)->0;
    if i >= segs.len() {
        assert(name.subrange(cursor, cursor) =~= splice_from(segs, rest, i));
    } else if tail_all_empty(segs, i) {
        let suffix = name.subrange(cursor, name.len() as int);
        assert(rest =~= seq![suffix]);
        assert(rest.drop_first() =~= Seq::<Seq<char>>::empty());
        assert(segs[i] =~= Seq::<char>::empty());
        let tail = splice_from(segs, rest.drop_first(), i + 1);
        assert(tail =~= Seq::<char>::empty());
        assert(splice_from(segs, rest, i) == rest[0] + segs[i] + tail);
        assert(splice_from(segs, rest, i) =~= suffix);
    } else {
        let j = find_from(name, segs[i], cursor)->0;
        lemma_find_from_leftmost(name, segs[i], cursor);
        let next = j + segs[i].len();
        lemma_match_slots_explains(segs, name, i + 1, next);
        let rest2 = match_slots(segs, name, i + 1, next)->0;
        let spliced2 = splice_from(segs, rest2, i + 1);
        assert(rest =~= seq![name.subrange(cursor, j)] + rest2);
        assert(rest[0] == name.subrange(cursor, j));
        assert(rest.drop_first() =~= rest2);
        assert(name.subrange(cursor, next + spliced2.len()) =~= name.subrange(cursor, j)
            + segs[i as int] + spliced2);
    }
}

/// Match soundness: a successful match explains the name. The first
/// literal segment, followed by the captures interleaved with the
/// remaining literal segments, is a prefix of the name; matching invents
/// no text and misplaces none.
pub proof fn lemma_match_reconstructs_name(p: Seq<char>, name: Seq<char>)
    requires
        pattern_match(p, name) is Some,
    ensures
        ({
            let segs = segments_of(p);
            let caps = pattern_match(p, name)->0;
            (segs[0] + splice_from(segs, caps, 1)).is_prefix_of(name)
        }),
{
    let segs = segments_of(p);
    let caps = pattern_match(p, name)->0;
    if segs.len() == 1 {
        assert(segs[0] + splice_from(segs, caps, 1) =~= name);
    } else {
        lemma_match_slots_explains(segs, name, 1, segs[0].len() as int);
        let spliced = splice_from(segs, caps, 1);
        assert(segs[0] + spliced =~= name.subrange(0, segs[0].len() as int + spliced.len()));
        assert((segs[0] + spliced).is_prefix_of(name));
    }
}

/// Prepending already-collected captures to the outcome of the remaining
/// slots.
spec fn with_prefix(pre: Seq<Seq<char>>, rest: Option<Seq<Seq<char>>>) -> Option<
    Seq<Seq<char>>,
> {
    match rest {
        Some(r) => Some(pre + r),
        None => None,
    }
}

/// A pattern compiled to its literal segments, as character vectors.
fn split_pattern(p: &str) -> (segs: Vec<Vec<char>>)
    ensures
        segs.deep_view() == segments_of(p@),
        segs.len() >= 1,
{
    let chars = str_to_chars(p);
    let mut done: Vec<Vec<char>> = Vec::new();
    let mut cur: Vec<char> = Vec::new();
    let mut i: usize = 0;
    while i < chars.len()
        invariant
            i <= chars@.len(),
            chars@ == p@,
            done.deep_view().push(cur@) == segments_of(p@.subrange(0, i as int)),
        decreases chars@.len() - i,
    {
        let ghost prev = p@.subrange(0, i as int);
        let c = chars[i];
        if c == '*' {
            done.push(cur);
            cur = Vec::new();
        } else {
            cur.push(c);
        }
        i = i + 1;
        proof {
            let cut = p@.subrange(0, i as int);
            assert(cut.drop_last() =~= prev);
            assert(cut.last() == c);
            if c == '*' {
                assert(done.deep_view().push(cur@) =~~= segments_of(prev).push(
                    Seq::<char>::empty(),
                ));
            } else {
                let s = segments_of(prev);
                assert(done.deep_view().push(cur@) =~~= s.update(s.len() - 1, s.last().push(c)));
            }
        }
    }
    proof {
        assert(p@.subrange(0, p@.len() as int) =~= p@);
    }
    done.push(cur);
    proof {
        assert(done.deep_view() =~~= segments_of(p@));
    }
    done
}

/// Matches file names against one wildcard pattern and builds the renamed
/// names a matching file should move to.
pub struct Matcher {
    pub pattern: String,
}

impl Matcher {
    /// A matcher for the given pattern. Any string is a valid pattern;
    /// each `*` in it is a wildcard, all other characters are literal.
    pub fn new(pattern: String) -> (r: Self)
        ensures
            r.pattern == pattern,
    {
        Matcher { pattern }
    }

    /// Whether `filename` fits the pattern, and with which captures: the
    /// result is exactly `pattern_match` of the pattern and the name.
    pub fn pattern_matcher(&self, filename: &str) -> (r: Option<Vec<String>>)
        ensures
            r.deep_view() == pattern_match(self.pattern@, filename@),
    {
        let segs = split_pattern(self.pattern.as_str());
        let name = str_to_chars(filename);
        let ghost gsegs = segments_of(self.pattern@);
        if segs.len() == 1 {
            proof {
                assert(gsegs[0] =~= segs@[0]@);
            }
            if chars_eq(&name, &segs[0]) {
                let r: Option<Vec<String>> = Some(Vec::new());
                proof {
                    assert(r.deep_view() =~~= pattern_match(self.pattern@, filename@));
                }
                r
            } else {
                None
            }
        } else {
            proof {
                assert(gsegs[0] =~= segs@[0]@);
            }
            if segs[0].len() > name.len() {
                return None;
            }
            if !occurs_here(&name, &segs[0], 0) {
                return None;
            }
            let mut caps: Vec<String> = Vec::new();
            let mut i: usize = 1;
            let mut cursor: usize = segs[0].len();
            proof {
                assert(Seq::<Seq<char>>::empty() + match_slots(gsegs, name@, 1, cursor as int)->0
                    =~= match_slots(gsegs, name@, 1, cursor as int)->0);
            }
            while i < segs.len()
                invariant
                    1 <= i <= segs@.len(),
                    cursor <= name@.len(),
                    name@.len() <= usize::MAX,
                    segs.deep_view() == gsegs,
                    gsegs == segments_of(self.pattern@),
                    gsegs.len() >= 2,
                    name@ == filename@,
                    with_prefix(
                        caps.deep_view(),
                        match_slots(gsegs, name@, i as int, cursor as int),
                    ) == pattern_match(self.pattern@, filename@),
                decreases segs@.len() - i,
            {
                proof {
                    assert(gsegs[i as int] =~= segs@[i as int]@);
                }
                let mut all_empty = true;
                let mut j: usize = i;
                while j < segs.len()
                    invariant
                        i <= j <= segs@.len(),
                        segs.deep_view() == gsegs,
                        all_empty == forall|u: int| i <= u < j ==> gsegs[u].len() == 0,
                    decreases segs@.len() - j,
                {
                    proof {
                        assert(gsegs[j as int] =~= segs@[j as int]@);
                    }
                    if segs[j].len() != 0 {
                        all_empty = false;
                    }
                    j = j + 1;
                }
                if all_empty {
                    let capstr = filename.substring_char(cursor, name.len());
                    let cap: String = capstr.to_owned();
                    proof {
                        assert(tail_all_empty(gsegs, i as int));
                        assert(match_slots(gsegs, name@, i as int, cursor as int) == Some(
                            seq![name@.subrange(cursor as int, name@.len() as int)],
                        ));
                        assert(caps.deep_view().push(cap@) =~= caps.deep_view() + seq![
                            name@.subrange(cursor as int, name@.len() as int),
                        ]);
                    }
                    let mut out = caps;
                    out.push(cap);
                    proof {
                        assert(out.deep_view() =~= caps.deep_view().push(cap@));
                    }
                    return Some(out);
                }
                proof {
                    assert(!tail_all_empty(gsegs, i as int));
                }
                let lit = &segs[i];
                match find_leftmost(&name, lit, cursor) {
                    None => {
                        return None;
                    },
                    Some(jj) => {
                        let capstr = filename.substring_char(cursor, jj);
                        let cap: String = capstr.to_owned();
                        let ghost old_caps = caps.deep_view();
                        caps.push(cap);
                        proof {
                            assert(caps.deep_view() =~= old_caps.push(
                                name@.subrange(cursor as int, jj as int),
                            ));
                            let after = match_slots(
                                gsegs,
                                name@,
                                i + 1,
                                jj + gsegs[i as int].len(),
                            );
                            match after {
                                Some(rest) => {
                                    assert(old_caps + (seq![
                                        name@.subrange(cursor as int, jj as int),
                                    ] + rest) =~= caps.deep_view() + rest);
                                },
                                None => {},
                            }
                        }
                        cursor = jj + lit.len();
                        i = i + 1;
                    },
                }
            }
            proof {
                assert(match_slots(gsegs, name@, i as int, cursor as int) == Some(
                    Seq::<Seq<char>>::empty(),
                ));
                assert(caps.deep_view() + Seq::<Seq<char>>::empty() =~= caps.deep_view());
            }
            Some(caps)
        }
    }

    /// The template with every in-range placeholder `#N` replaced by the
    /// `N`-th capture, highest `N` first: the result is exactly
    /// `fill_chars` of the capture list and the template.
    pub fn fill_in_template(&self, substituted_parts: Vec<&str>, template: &str) -> (r: String)
        ensures
            r@ == template::fill_chars(substituted_parts.deep_view(), template@),
    {
        template::fill(substituted_parts, template)
    }
}

} // verus!
