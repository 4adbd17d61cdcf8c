//! Characters taken off the ends of a text.

use crate::text::strings::{chars_of, string_of};
use vstd::prelude::*;

verus! {

/// A set of characters that can be stripped from the ends of a text.
#[derive(Clone, Copy, Debug)]
pub enum CharClass {
    /// The characters with Unicode's property `White_Space`.
    Whitespace,
    /// The asterisk and the full stop.
    WildcardOrDot,
}

impl CharClass {
    /// `c` belongs to the class.
    pub open spec fn covers(self, c: char) -> bool {
        match self {
            CharClass::Whitespace => {
                let n = c as u32;
                ||| 0x09 <= n <= 0x0d
                ||| n == 0x20
                ||| n == 0x85
                ||| n == 0xa0
                ||| n == 0x1680
                ||| 0x2000 <= n <= 0x200a
                ||| n == 0x2028
                ||| n == 0x2029
                ||| n == 0x202f
                ||| n == 0x205f
                ||| n == 0x3000
            },
            CharClass::WildcardOrDot => c == '*' || c == '.',
        }
    }

    /// Whether `c` belongs to the class.
    pub fn holds(self, c: char) -> (r: bool)
        ensures
            r == self.covers(c),
    {
        match self {
            CharClass::Whitespace => {
                let n: u32 = c as u32;
                (0x09 <= n && n <= 0x0d) || n == 0x20 || n == 0x85 || n == 0xa0 || n == 0x1680 || (
                0x2000 <= n && n <= 0x200a) || n == 0x2028 || n == 0x2029 || n == 0x202f || n
                    == 0x205f || n == 0x3000
            },
            CharClass::WildcardOrDot => c == '*' || c == '.',
        }
    }
}

/// How many characters at the beginning of `s` belong to `class`.
pub open spec fn leading_run(s: Seq<char>, class: CharClass) -> nat
    decreases s.len(),
{
    if s.len() > 0 && class.covers(s[0]) {
        1 + leading_run(s.drop_first(), class)
    } else {
        0
    }
}

/// How many characters at the end of `s` belong to `class`.
pub open spec fn trailing_run(s: Seq<char>, class: CharClass) -> nat
    decreases s.len(),
{
    if s.len() > 0 && class.covers(s.last()) {
        1 + trailing_run(s.drop_last(), class)
    } else {
        0
    }
}

/// `s` without the characters of `class` at its beginning.
pub open spec fn without_leading(s: Seq<char>, class: CharClass) -> Seq<char> {
    s.skip(leading_run(s, class) as int)
}

/// `s` without the characters of `class` at its end.
pub open spec fn without_trailing(s: Seq<char>, class: CharClass) -> Seq<char> {
    s.take(s.len() - trailing_run(s, class))
}

/// `s` without white space at either end.
pub open spec fn trimmed(s: Seq<char>) -> Seq<char> {
    without_trailing(without_leading(s, CharClass::Whitespace), CharClass::Whitespace)
}

/// A run is never longer than the text.
pub proof fn lemma_run_bounds(s: Seq<char>, class: CharClass)
    ensures
        leading_run(s, class) <= s.len(),
        trailing_run(s, class) <= s.len(),
    decreases s.len(),
{
    if s.len() > 0 {
        lemma_run_bounds(s.drop_first(), class);
        lemma_run_bounds(s.drop_last(), class);
    }
}

/// The characters that a run counts belong to the class, and the character
/// next to the run does not.
pub proof fn lemma_runs(s: Seq<char>, class: CharClass)
    ensures
        forall|i: int| 0 <= i < leading_run(s, class) ==> class.covers(#[trigger] s[i]),
        leading_run(s, class) < s.len() ==> !class.covers(s[leading_run(s, class) as int]),
        forall|i: int|
            s.len() - trailing_run(s, class) <= i < s.len() ==> class.covers(#[trigger] s[i]),
        trailing_run(s, class) < s.len() ==> !class.covers(
            s[s.len() - trailing_run(s, class) - 1],
        ),
    decreases s.len(),
{
    lemma_run_bounds(s, class);
    if s.len() > 0 {
        let tail = s.drop_first();
        let front = s.drop_last();
        lemma_runs(tail, class);
        lemma_runs(front, class);
        lemma_run_bounds(tail, class);
        lemma_run_bounds(front, class);
        if class.covers(s[0]) {
            assert forall|i: int| 0 <= i < leading_run(s, class) implies class.covers(
                #[trigger] s[i],
            ) by {
                if i > 0 {
                    assert(tail[i - 1] == s[i]);
                }
            }
            if leading_run(s, class) < s.len() {
                assert(tail[leading_run(tail, class) as int] == s[leading_run(s, class) as int]);
            }
        }
        if class.covers(s.last()) {
            assert forall|i: int|
                s.len() - trailing_run(s, class) <= i < s.len() implies class.covers(
                #[trigger] s[i],
            ) by {
                if i < s.len() - 1 {
                    assert(front[i] == s[i]);
                }
            }
            if trailing_run(s, class) < s.len() {
                assert(front[front.len() - trailing_run(front, class) - 1] == s[s.len()
                    - trailing_run(s, class) - 1]);
            }
        }
    }
}

/// The index in `v[from..to]` of the first character outside `class`.
fn skip_leading(v: &Vec<char>, from: usize, to: usize, class: CharClass) -> (k: usize)
    requires
        from <= to <= v.len(),
    ensures
        from <= k <= to,
        k - from == leading_run(v@.subrange(from as int, to as int), class),
{
    let ghost s = v@.subrange(from as int, to as int);
    let mut k: usize = from;
    assert(s.skip(0) =~= s);
    while k < to && class.holds(v[k])
        invariant
            from <= k <= to <= v.len(),
            s == v@.subrange(from as int, to as int),
            leading_run(s, class) == (k - from) + leading_run(s.skip(k - from), class),
        decreases to - k,
    {
        proof {
            let rest = s.skip(k - from);
            assert(rest[0] == v@[k as int]);
            assert(rest.drop_first() =~= s.skip(k - from + 1));
        }
        k += 1;
    }
    proof {
        let rest = s.skip(k - from);
        if k < to {
            assert(rest[0] == v@[k as int]);
        }
    }
    k
}

/// The index in `v[from..to]` after the last character outside `class`.
fn skip_trailing(v: &Vec<char>, from: usize, to: usize, class: CharClass) -> (k: usize)
    requires
        from <= to <= v.len(),
    ensures
        from <= k <= to,
        to - k == trailing_run(v@.subrange(from as int, to as int), class),
{
    let ghost s = v@.subrange(from as int, to as int);
    let mut k: usize = to;
    assert(s.take(to - from) =~= s);
    while k > from && class.holds(v[k - 1])
        invariant
            from <= k <= to <= v.len(),
            s == v@.subrange(from as int, to as int),
            trailing_run(s, class) == (to - k) + trailing_run(s.take(k - from), class),
        decreases k - from,
    {
        proof {
            let rest = s.take(k - from);
            assert(rest.last() == v@[k - 1]);
            assert(rest.drop_last() =~= s.take(k - from - 1));
        }
        k -= 1;
    }
    proof {
        let rest = s.take(k - from);
        if k > from {
            assert(rest.last() == v@[k - 1]);
        }
    }
    k
}

/// Strips the characters of `class` from the beginning of `s`.
pub fn strip_leading(s: &str, class: CharClass) -> (r: String)
    ensures
        r@ == without_leading(s@, class),
{
    let v = chars_of(s);
    assert(v@.subrange(0, v@.len() as int) =~= v@);
    let k = skip_leading(&v, 0, v.len(), class);
    let r = string_of(&v, k, v.len());
    assert(v@.subrange(k as int, v@.len() as int) =~= v@.skip(k as int));
    r
}

/// Strips the characters of `class` from the end of `s`.
pub fn strip_trailing(s: &str, class: CharClass) -> (r: String)
    ensures
        r@ == without_trailing(s@, class),
{
    let v = chars_of(s);
    assert(v@.subrange(0, v@.len() as int) =~= v@);
    let k = skip_trailing(&v, 0, v.len(), class);
    let r = string_of(&v, 0, k);
    assert(v@.subrange(0, k as int) =~= v@.take(k as int));
    r
}

/// Strips white space from both ends of `s`.
pub fn trim(s: &str) -> (r: String)
    ensures
        r@ == trimmed(s@),
{
    let v = chars_of(s);
    assert(v@.subrange(0, v@.len() as int) =~= v@);
    let from = skip_leading(&v, 0, v.len(), CharClass::Whitespace);
    let to = skip_trailing(&v, from, v.len(), CharClass::Whitespace);
    let r = string_of(&v, from, to);
    proof {
        let inner = v@.skip(from as int);
        assert(v@.subrange(from as int, v@.len() as int) =~= inner);
        assert(v@.subrange(from as int, to as int) =~= inner.take(to - from));
    }
    r
}

} // verus!
