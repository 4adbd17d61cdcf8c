//! Where a text occurs in another.

use crate::text::strings::chars_of;
use vstd::prelude::*;

verus! {

/// `pat` stands in `s` at index `i`.
pub open spec fn occurs_at(s: Seq<char>, pat: Seq<char>, i: int) -> bool {
    &&& 0 <= i
    &&& i + pat.len() <= s.len()
    &&& s.subrange(i, i + pat.len()) == pat
}

/// The least index at or after `start` at which `pat` stands in `s`.
pub open spec fn first_occurrence_from(s: Seq<char>, pat: Seq<char>, start: int) -> Option<int>
    decreases s.len() - start + 1,
{
    if start < 0 || start + pat.len() > s.len() {
        None
    } else if occurs_at(s, pat, start) {
        Some(start)
    } else {
        first_occurrence_from(s, pat, start + 1)
    }
}

/// The least index at which `pat` stands in `s`.
pub open spec fn first_occurrence(s: Seq<char>, pat: Seq<char>) -> Option<int> {
    first_occurrence_from(s, pat, 0)
}

/// `pat` stands somewhere in `s`.
pub open spec fn includes(s: Seq<char>, pat: Seq<char>) -> bool {
    first_occurrence(s, pat) is Some
}

/// What `first_occurrence_from` returns is the least occurrence from `start`
/// on, and it returns none only where there is no occurrence.
pub proof fn lemma_first_occurrence_from(s: Seq<char>, pat: Seq<char>, start: int)
    requires
        0 <= start,
    ensures
        match first_occurrence_from(s, pat, start) {
            Some(i) => {
                &&& start <= i
                &&& occurs_at(s, pat, i)
                &&& forall|j: int| start <= j < i ==> !occurs_at(s, pat, j)
            },
            None => forall|j: int| start <= j ==> !occurs_at(s, pat, j),
        },
    decreases s.len() - start + 1,
{
    if start + pat.len() > s.len() {
    } else if occurs_at(s, pat, start) {
    } else {
        lemma_first_occurrence_from(s, pat, start + 1);
    }
}

/// An occurrence with none before it is the first one.
pub proof fn lemma_first_occurrence_is(s: Seq<char>, pat: Seq<char>, i: int)
    requires
        occurs_at(s, pat, i),
        forall|j: int| 0 <= j < i ==> !occurs_at(s, pat, j),
    ensures
        first_occurrence(s, pat) == Some(i),
{
    lemma_first_occurrence_from(s, pat, 0);
}

/// Without any occurrence there is no first one.
pub proof fn lemma_first_occurrence_none(s: Seq<char>, pat: Seq<char>)
    requires
        forall|j: int| 0 <= j ==> !occurs_at(s, pat, j),
    ensures
        first_occurrence(s, pat) is None,
{
    lemma_first_occurrence_from(s, pat, 0);
}

/// Searching the rest of `s` from `start` on is searching `s` from there.
pub proof fn lemma_first_occurrence_shift(s: Seq<char>, pat: Seq<char>, start: int)
    requires
        0 <= start <= s.len(),
    ensures
        first_occurrence(s.skip(start), pat) == match first_occurrence_from(s, pat, start) {
            Some(i) => Some(i - start),
            None => None,
        },
{
    let rest = s.skip(start);
    lemma_first_occurrence_from(s, pat, start);
    assert forall|j: int| 0 <= j implies occurs_at(rest, pat, j) == occurs_at(
        s,
        pat,
        j + start,
    ) by {
        if j + pat.len() <= rest.len() {
            assert(rest.subrange(j, j + pat.len()) =~= s.subrange(
                j + start,
                j + start + pat.len(),
            ));
        }
    }
    match first_occurrence_from(s, pat, start) {
        Some(i) => {
            assert forall|j: int| 0 <= j < i - start implies !occurs_at(rest, pat, j) by {
                assert(!occurs_at(s, pat, j + start));
            }
            lemma_first_occurrence_is(rest, pat, i - start);
        },
        None => {
            assert forall|j: int| 0 <= j implies !occurs_at(rest, pat, j) by {
                assert(!occurs_at(s, pat, j + start));
            }
            lemma_first_occurrence_none(rest, pat);
        },
    }
}

/// Whether `pat` stands in `s` at index `i`.
pub fn matches_at(s: &Vec<char>, pat: &Vec<char>, i: usize) -> (r: bool)
    ensures
        r == occurs_at(s@, pat@, i as int),
{
    if pat.len() > s.len() || i > s.len() - pat.len() {
        return false;
    }
    let mut k: usize = 0;
    while k < pat.len()
        invariant
            k <= pat.len(),
            i + pat.len() <= s.len(),
            forall|j: int| 0 <= j < k ==> s@[i + j] == pat@[j],
        decreases pat.len() - k,
    {
        if s[i + k] != pat[k] {
            assert(s@.subrange(i as int, i + pat.len())[k as int] != pat@[k as int]);
            return false;
        }
        k += 1;
    }
    assert(s@.subrange(i as int, i + pat.len()) =~= pat@);
    true
}

/// The least index from `start` on at which `pat` stands in `s`.
pub fn find_in(s: &Vec<char>, pat: &Vec<char>, start: usize) -> (r: Option<usize>)
    ensures
        match r {
            Some(i) => first_occurrence_from(s@, pat@, start as int) == Some(i as int),
            None => first_occurrence_from(s@, pat@, start as int) is None,
        },
{
    if pat.len() > s.len() || start > s.len() - pat.len() {
        return None;
    }
    let last: usize = s.len() - pat.len();
    let mut i: usize = start;
    loop
        invariant
            start <= i <= last,
            last == s.len() - pat.len(),
            first_occurrence_from(s@, pat@, start as int) == first_occurrence_from(
                s@,
                pat@,
                i as int,
            ),
        decreases last - i,
    {
        if matches_at(s, pat, i) {
            return Some(i);
        }
        if i == last {
            assert(first_occurrence_from(s@, pat@, i + 1) is None);
            return None;
        }
        i += 1;
    }
}

/// The index, counted in characters, of the first occurrence of `pat` in `s`.
pub fn find(s: &str, pat: &str) -> (r: Option<usize>)
    ensures
        match r {
            Some(i) => first_occurrence(s@, pat@) == Some(i as int),
            None => first_occurrence(s@, pat@) is None,
        },
{
    let sv = chars_of(s);
    let pv = chars_of(pat);
    find_in(&sv, &pv, 0)
}

/// Whether `pat` occurs in `s`.
pub fn contains(s: &str, pat: &str) -> (r: bool)
    ensures
        r == includes(s@, pat@),
{
    find(s, pat).is_some()
}

/// Whether `s` begins with `pat`.
pub fn starts_with(s: &str, pat: &str) -> (r: bool)
    ensures
        r == occurs_at(s@, pat@, 0),
{
    let sv = chars_of(s);
    let pv = chars_of(pat);
    matches_at(&sv, &pv, 0)
}

/// Whether the two strings hold the same characters.
pub fn same(a: &str, b: &str) -> (r: bool)
    ensures
        r == (a@ == b@),
{
    let av = chars_of(a);
    let bv = chars_of(b);
    if av.len() != bv.len() {
        return false;
    }
    let r = matches_at(&av, &bv, 0);
    assert(av@.subrange(0, av@.len() as int) =~= av@);
    r
}

} // verus!
