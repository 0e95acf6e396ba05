//! Character-level scanning: first occurrence of a marker string within a
//! line, and whitespace trimming, with specifications over `Seq<char>`.

use vstd::prelude::*;
use vstd::string::StrSliceExecFns;

verus! {

/// `pat` occurs in `s` starting exactly at index `i`.
pub open spec fn is_match_at(s: Seq<char>, pat: Seq<char>, i: int) -> bool {
    0 <= i && i + pat.len() <= s.len() && s.subrange(i, i + pat.len()) == pat
}

/// The least index at or after `from` where `pat` occurs in `s`, if any.
pub open spec fn first_match_from(s: Seq<char>, pat: Seq<char>, from: int) -> Option<int>
    decreases s.len() + 1 - from,
{
    if from < 0 || from + pat.len() > s.len() {
        None
    } else if s.subrange(from, from + pat.len()) == pat {
        Some(from)
    } else {
        first_match_from(s, pat, from + 1)
    }
}

/// The least index where `pat` occurs in `s`, if any.
pub open spec fn first_match(s: Seq<char>, pat: Seq<char>) -> Option<int> {
    first_match_from(s, pat, 0)
}

/// `pat` occurs somewhere in `s`.
pub open spec fn occurs(s: Seq<char>, pat: Seq<char>) -> bool {
    first_match(s, pat) is Some
}

/// A found index is a match, lies at or after `from`, and nothing earlier
/// (at or after `from`) matches.
pub proof fn lemma_first_match_from_sound(s: Seq<char>, pat: Seq<char>, from: int, i: int)
    requires
        first_match_from(s, pat, from) == Some(i),
    ensures
        from <= i,
        is_match_at(s, pat, i),
        forall|k: int| from <= k < i ==> !is_match_at(s, pat, k),
    decreases s.len() + 1 - from,
{
    if from < 0 || from + pat.len() > s.len() {
        assert(false);
    } else if s.subrange(from, from + pat.len()) == pat {
    } else {
        lemma_first_match_from_sound(s, pat, from + 1, i);
        assert(!is_match_at(s, pat, from));
    }
}

/// A match at `i` with none earlier (at or after `from`) is what the search
/// finds.
pub proof fn lemma_first_match_from_complete(s: Seq<char>, pat: Seq<char>, from: int, i: int)
    requires
        0 <= from <= i,
        is_match_at(s, pat, i),
        forall|k: int| from <= k < i ==> !is_match_at(s, pat, k),
    ensures
        first_match_from(s, pat, from) == Some(i),
    decreases i - from,
{
    if from == i {
        assert(s.subrange(from, from + pat.len()) == pat);
    } else {
        assert(!is_match_at(s, pat, from));
        assert(from + pat.len() <= s.len());
        lemma_first_match_from_complete(s, pat, from + 1, i);
    }
}

/// Starting the search later, but not past the found index, finds the same
/// occurrence.
pub proof fn lemma_first_match_from_advance(s: Seq<char>, pat: Seq<char>, a: int, b: int, i: int)
    requires
        0 <= a <= b <= i,
        first_match_from(s, pat, a) == Some(i),
    ensures
        first_match_from(s, pat, b) == Some(i),
{
    lemma_first_match_from_sound(s, pat, a, i);
    lemma_first_match_from_complete(s, pat, b, i);
}

/// Whether `symbol` occurs in `input` starting exactly at character index
/// `at`.
fn match_at(input: &str, symbol: &str, at: usize, m: usize) -> (b: bool)
    requires
        m == symbol@.len(),
        at + m <= input@.len(),
        input@.len() <= usize::MAX,
    ensures
        b == is_match_at(input@, symbol@, at as int),
{
    let mut k: usize = 0;
    while k < m
        invariant
            m == symbol@.len(),
            at + m <= input@.len(),
            input@.len() <= usize::MAX,
            k <= m,
            forall|t: int| 0 <= t < k ==> input@[at + t] == symbol@[t],
        decreases m - k,
    {
        if input.get_char(at + k) != symbol.get_char(k) {
            proof {
                assert(input@.subrange(at as int, at + m) != symbol@) by {
                    assert(input@.subrange(at as int, at + m)[k as int] == input@[at + k]);
                }
            }
            return false;
        }
        k = k + 1;
    }
    proof {
        assert(input@.subrange(at as int, at + m) =~= symbol@);
    }
    true
}

/// The first occurrence of `symbol` in `input` at or after character index
/// `from`, if any.
pub(crate) fn find_from(input: &str, symbol: &str, from: usize) -> (r: Option<usize>)
    requires
        from <= input@.len(),
    ensures
        match r {
            Some(i) => from <= i && first_match_from(input@, symbol@, from as int) == Some(
                i as int,
            ),
            None => first_match_from(input@, symbol@, from as int) is None,
        },
{
    let n = input.unicode_len();
    let m = symbol.unicode_len();
    if m == 0 {
        proof {
            assert(input@.subrange(from as int, from as int) =~= symbol@);
            assert(first_match_from(input@, symbol@, from as int) == Some(from as int));
        }
        return Some(from);
    }
    if m > n || from > n - m {
        proof {
            assert(from + m > n);
            assert(first_match_from(input@, symbol@, from as int) is None);
        }
        return None;
    }
    let mut i: usize = from;
    while i <= n - m
        invariant
            n == input@.len(),
            m == symbol@.len(),
            1 <= m <= n,
            from <= i <= n - m + 1,
            first_match_from(input@, symbol@, from as int) == first_match_from(
                input@,
                symbol@,
                i as int,
            ),
        decreases n - i,
    {
        if match_at(input, symbol, i, m) {
            proof {
                assert(first_match_from(input@, symbol@, i as int) == Some(i as int));
            }
            return Some(i);
        }
        proof {
            assert(first_match_from(input@, symbol@, i as int) == first_match_from(
                input@,
                symbol@,
                i as int + 1,
            ));
        }
        i = i + 1;
    }
    proof {
        assert(i + m > n);
        assert(first_match_from(input@, symbol@, i as int) is None);
    }
    None
}

/// `c` is a whitespace character (the closed list that `char::is_whitespace`
/// recognizes).
pub open spec fn is_space(c: char) -> bool {
    c == ' ' || c == '\t' || c == '\n' || c == '\u{0B}' || c == '\u{0C}' || c == '\r' || c
        == '\u{85}' || c == '\u{A0}' || c == '\u{1680}' || c == '\u{2000}' || c == '\u{2001}' || c
        == '\u{2002}' || c == '\u{2003}' || c == '\u{2004}' || c == '\u{2005}' || c == '\u{2006}'
        || c == '\u{2007}' || c == '\u{2008}' || c == '\u{2009}' || c == '\u{200A}' || c
        == '\u{2028}' || c == '\u{2029}' || c == '\u{202F}' || c == '\u{205F}' || c == '\u{3000}'
}

/// Whether `c` is a whitespace character.
fn is_space_char(c: char) -> (b: bool)
    ensures
        b == is_space(c),
{
    c == ' ' || c == '\t' || c == '\n' || c == '\u{0B}' || c == '\u{0C}' || c == '\r' || c
        == '\u{85}' || c == '\u{A0}' || c == '\u{1680}' || c == '\u{2000}' || c == '\u{2001}' || c
        == '\u{2002}' || c == '\u{2003}' || c == '\u{2004}' || c == '\u{2005}' || c == '\u{2006}'
        || c == '\u{2007}' || c == '\u{2008}' || c == '\u{2009}' || c == '\u{200A}' || c
        == '\u{2028}' || c == '\u{2029}' || c == '\u{202F}' || c == '\u{205F}' || c == '\u{3000}'
}

/// `s` with its leading whitespace removed.
pub open spec fn spec_trim_start(s: Seq<char>) -> Seq<char>
    decreases s.len(),
{
    if s.len() > 0 && is_space(s[0]) {
        spec_trim_start(s.drop_first())
    } else {
        s
    }
}

/// `s` with its trailing whitespace removed.
pub open spec fn spec_trim_end(s: Seq<char>) -> Seq<char>
    decreases s.len(),
{
    if s.len() > 0 && is_space(s.last()) {
        spec_trim_end(s.drop_last())
    } else {
        s
    }
}

/// `s` with both leading and trailing whitespace removed.
pub open spec fn spec_trim(s: Seq<char>) -> Seq<char> {
    spec_trim_end(spec_trim_start(s))
}

/// Narrows the character range `lo..hi` of `input` to the subrange that
/// remains after trimming whitespace from both ends.
pub(crate) fn trim_range(input: &str, lo: usize, hi: usize) -> (r: (usize, usize))
    requires
        lo <= hi,
        hi <= input@.len(),
        input@.len() <= usize::MAX,
    ensures
        lo <= r.0 <= r.1 <= hi,
        input@.subrange(r.0 as int, r.1 as int) == spec_trim(
            input@.subrange(lo as int, hi as int),
        ),
{
    let mut a: usize = lo;
    while a < hi && is_space_char(input.get_char(a))
        invariant
            lo <= a <= hi,
            hi <= input@.len(),
            input@.len() <= usize::MAX,
            spec_trim_start(input@.subrange(lo as int, hi as int)) == spec_trim_start(
                input@.subrange(a as int, hi as int),
            ),
        decreases hi - a,
    {
        proof {
            let s = input@.subrange(a as int, hi as int);
            assert(s[0] == input@[a as int]);
            assert(s.drop_first() =~= input@.subrange(a as int + 1, hi as int));
        }
        a = a + 1;
    }
    proof {
        let s = input@.subrange(a as int, hi as int);
        if a < hi {
            assert(s[0] == input@[a as int]);
        }
        assert(spec_trim_start(s) == s);
    }
    let mut b: usize = hi;
    while b > a && is_space_char(input.get_char(b - 1))
        invariant
            a <= b <= hi,
            hi <= input@.len(),
            input@.len() <= usize::MAX,
            spec_trim_end(input@.subrange(a as int, hi as int)) == spec_trim_end(
                input@.subrange(a as int, b as int),
            ),
        decreases b,
    {
        proof {
            let s = input@.subrange(a as int, b as int);
            assert(s.last() == input@[b - 1]);
            assert(s.drop_last() =~= input@.subrange(a as int, b as int - 1));
        }
        b = b - 1;
    }
    proof {
        let s = input@.subrange(a as int, b as int);
        if b > a {
            assert(s.last() == input@[b - 1]);
        }
        assert(spec_trim_end(s) == s);
    }
    (a, b)
}

/// The character index of the first occurrence of `symbol` in `input`, if
/// any; `None` exactly when `symbol` does not occur.
pub fn get_index_for_symbol(input: &str, symbol: &str) -> (r: Option<usize>)
    ensures
        match r {
            Some(i) => first_match(input@, symbol@) == Some(i as int),
            None => first_match(input@, symbol@) is None,
        },
{
    find_from(input, symbol, 0)
}

} // verus!
