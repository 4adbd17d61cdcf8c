//! A text cut at a separator, and texts joined by one.

use crate::text::search::{
    find_in, first_occurrence, includes, lemma_first_occurrence_from, lemma_first_occurrence_none,
    lemma_first_occurrence_shift, occurs_at,
};
use crate::text::strings::{chars_of, string_of, views};
use vstd::prelude::*;

verus! {

/// The pieces of `s` between the occurrences of `sep`, found from the left
/// and not overlapping. An empty `sep` separates nothing.
pub open spec fn pieces(s: Seq<char>, sep: Seq<char>) -> Seq<Seq<char>>
    decreases s.len(),
{
    match first_occurrence(s, sep) {
        Some(i) => {
            if sep.len() == 0 {
                seq![s]
            } else {
                proof {
                    lemma_first_occurrence_from(s, sep, 0);
                }
                seq![s.take(i)] + pieces(s.skip(i + sep.len()), sep)
            }
        },
        None => seq![s],
    }
}

/// The texts of `parts` with `sep` between each two neighbours.
pub open spec fn joined(parts: Seq<Seq<char>>, sep: Seq<char>) -> Seq<char>
    decreases parts.len(),
{
    if parts.len() == 0 {
        Seq::empty()
    } else if parts.len() == 1 {
        parts[0]
    } else {
        joined(parts.drop_last(), sep) + sep + parts.last()
    }
}

/// No piece holds the separator.
pub proof fn lemma_pieces_hold_no_separator(s: Seq<char>, sep: Seq<char>, k: int)
    requires
        sep.len() > 0,
        0 <= k < pieces(s, sep).len(),
    ensures
        !includes(pieces(s, sep)[k], sep),
    decreases s.len(),
{
    lemma_first_occurrence_from(s, sep, 0);
    match first_occurrence(s, sep) {
        Some(i) => {
            let head = s.take(i);
            let rest = s.skip(i + sep.len());
            if k == 0 {
                assert(pieces(s, sep)[0] == head);
                assert forall|j: int| 0 <= j implies !occurs_at(head, sep, j) by {
                    if j + sep.len() <= head.len() {
                        assert(head.subrange(j, j + sep.len()) =~= s.subrange(j, j + sep.len()));
                        assert(!occurs_at(s, sep, j));
                    }
                }
                lemma_first_occurrence_none(head, sep);
            } else {
                assert(pieces(s, sep)[k] == pieces(rest, sep)[k - 1]);
                lemma_pieces_hold_no_separator(rest, sep, k - 1);
            }
        },
        None => {},
    }
}

/// One more text at the beginning of a list puts it, and the separator if
/// anything follows, at the beginning of the joined text.
pub proof fn lemma_joined_first(first: Seq<char>, rest: Seq<Seq<char>>, sep: Seq<char>)
    ensures
        joined(seq![first] + rest, sep) == if rest.len() == 0 {
            first
        } else {
            first + sep + joined(rest, sep)
        },
    decreases rest.len(),
{
    let all = seq![first] + rest;
    if rest.len() == 0 {
        assert(all[0] == first);
    } else {
        assert(all.drop_last() =~= seq![first] + rest.drop_last());
        assert(all.last() == rest.last());
        lemma_joined_first(first, rest.drop_last(), sep);
        if rest.len() == 1 {
            assert(joined(rest, sep) == rest[0]);
        } else {
            assert(first + sep + (joined(rest.drop_last(), sep) + sep + rest.last()) =~= (first
                + sep + joined(rest.drop_last(), sep)) + sep + rest.last());
        }
    }
}

/// The pieces of a text, joined by the separator, are the text.
pub proof fn lemma_pieces_join(s: Seq<char>, sep: Seq<char>)
    ensures
        joined(pieces(s, sep), sep) == s,
    decreases s.len(),
{
    lemma_first_occurrence_from(s, sep, 0);
    match first_occurrence(s, sep) {
        Some(i) => {
            if sep.len() > 0 {
                let head = s.take(i);
                let rest = s.skip(i + sep.len());
                lemma_pieces_join(rest, sep);
                lemma_joined_first(head, pieces(rest, sep), sep);
                assert(head + sep + rest =~= s) by {
                    assert(s.subrange(i, i + sep.len()) == sep);
                    assert forall|j: int| 0 <= j < s.len() implies (head + sep + rest)[j]
                        == s[j] by {
                        if i <= j < i + sep.len() {
                            assert(s.subrange(i, i + sep.len())[j - i] == s[j]);
                        }
                    }
                }
            }
        },
        None => {},
    }
}

/// Splits `s` at the occurrences of `sep`.
pub fn split(s: &str, sep: &str) -> (parts: Vec<String>)
    ensures
        views(parts@) == pieces(s@, sep@),
{
    let sv = chars_of(s);
    let pv = chars_of(sep);
    let mut parts: Vec<String> = Vec::new();
    if pv.len() == 0 {
        parts.push(string_of(&sv, 0, sv.len()));
        assert(sv@.subrange(0, sv@.len() as int) =~= sv@);
        assert(views(parts@) =~= seq![s@]);
        return parts;
    }
    let mut start: usize = 0;
    proof {
        assert(sv@.skip(0) =~= sv@);
        assert(views(parts@) + pieces(sv@, sep@) =~= pieces(sv@, sep@));
    }
    loop
        invariant
            start <= sv.len(),
            pv.len() > 0,
            sv@ == s@,
            pv@ == sep@,
            pieces(s@, sep@) == views(parts@) + pieces(sv@.skip(start as int), sep@),
        decreases sv.len() - start,
    {
        let ghost rest = sv@.skip(start as int);
        proof {
            lemma_first_occurrence_shift(sv@, pv@, start as int);
            lemma_first_occurrence_from(rest, pv@, 0);
        }
        match find_in(&sv, &pv, start) {
            Some(i) => {
                let piece = string_of(&sv, start, i);
                proof {
                    assert(first_occurrence(rest, pv@) == Some(i - start));
                    assert(piece@ =~= rest.take(i - start));
                    assert(rest.skip(i - start + pv@.len()) =~= sv@.skip(i + pv@.len()));
                    assert(views(parts@.push(piece)) =~= views(parts@) + seq![piece@]);
                }
                parts.push(piece);
                start = i + pv.len();
            },
            None => {
                let piece = string_of(&sv, start, sv.len());
                proof {
                    assert(first_occurrence(rest, pv@) is None);
                    assert(piece@ =~= rest);
                    assert(views(parts@.push(piece)) =~= views(parts@) + seq![piece@]);
                }
                parts.push(piece);
                return parts;
            },
        }
    }
}

/// Joins `parts`, with `sep` between each two neighbours.
pub fn join(parts: &Vec<String>, sep: &str) -> (r: String)
    ensures
        r@ == joined(views(parts@), sep@),
{
    let mut r = String::new();
    let ghost all = views(parts@);
    let mut i: usize = 0;
    while i < parts.len()
        invariant
            i <= parts.len(),
            all == views(parts@),
            r@ == joined(all.take(i as int), sep@),
        decreases parts.len() - i,
    {
        proof {
            let longer = all.take(i + 1);
            assert(longer.drop_last() =~= all.take(i as int));
            assert(longer.last() == parts@[i as int]@);
            if i == 0 {
                assert(Seq::<char>::empty() + parts@[i as int]@ =~= parts@[i as int]@);
            }
        }
        if i > 0 {
            r.append(sep);
        }
        r.append(parts[i].as_str());
        i += 1;
    }
    assert(all.take(i as int) =~= all);
    r
}

} // verus!
