//! Character-level text primitives: whitespace classification, trimming and
//! delimiter splitting, together with the specification functions the rest of
//! the crate states its contracts with.

use vstd::prelude::*;
use vstd::string::*;

verus! {

/// The views of a sequence of strings, one character sequence per string.
pub open spec fn views(v: Seq<String>) -> Seq<Seq<char>> {
    Seq::new(v.len(), |i: int| v[i]@)
}

/// The characters with the Unicode `White_Space` property, the set that
/// `str::trim` removes from both ends of a string.
pub open spec fn is_space_char(c: char) -> bool {
    ||| c == ' '
    ||| c == '\t'
    ||| c == '\n'
    ||| c == '\u{0b}'
    ||| c == '\u{0c}'
    ||| c == '\r'
    ||| c == '\u{85}'
    ||| c == '\u{a0}'
    ||| c == '\u{1680}'
    ||| c == '\u{2000}'
    ||| c == '\u{2001}'
    ||| c == '\u{2002}'
    ||| c == '\u{2003}'
    ||| c == '\u{2004}'
    ||| c == '\u{2005}'
    ||| c == '\u{2006}'
    ||| c == '\u{2007}'
    ||| c == '\u{2008}'
    ||| c == '\u{2009}'
    ||| c == '\u{200a}'
    ||| c == '\u{2028}'
    ||| c == '\u{2029}'
    ||| c == '\u{202f}'
    ||| c == '\u{205f}'
    ||| c == '\u{3000}'
}

/// Whether `c` counts as whitespace for trimming.
pub fn is_space(c: char) -> (r: bool)
    ensures
        r == is_space_char(c),
{
    c == ' ' || c == '\t' || c == '\n' || c == '\u{0b}' || c == '\u{0c}' || c == '\r'
        || c == '\u{85}' || c == '\u{a0}' || c == '\u{1680}' || c == '\u{2000}'
        || c == '\u{2001}' || c == '\u{2002}' || c == '\u{2003}' || c == '\u{2004}'
        || c == '\u{2005}' || c == '\u{2006}' || c == '\u{2007}' || c == '\u{2008}'
        || c == '\u{2009}' || c == '\u{200a}' || c == '\u{2028}' || c == '\u{2029}'
        || c == '\u{202f}' || c == '\u{205f}' || c == '\u{3000}'
}

/// The index of the first occurrence of `d` in `s`, or `s.len()` if `d` does
/// not occur.
pub open spec fn find_char(s: Seq<char>, d: char) -> int
    decreases s.len(),
{
    if s.len() == 0 {
        0
    } else if s[0] == d {
        0
    } else {
        1 + find_char(s.subrange(1, s.len() as int), d)
    }
}

pub proof fn lemma_find_char_bounds(s: Seq<char>, d: char)
    ensures
        0 <= find_char(s, d) <= s.len(),
        forall|j: int| 0 <= j < find_char(s, d) ==> s[j] != d,
        find_char(s, d) < s.len() ==> s[find_char(s, d)] == d,
    decreases s.len(),
{
    if s.len() == 0 {
    } else if s[0] == d {
    } else {
        let t = s.subrange(1, s.len() as int);
        lemma_find_char_bounds(t, d);
        assert forall|j: int| 0 <= j < find_char(s, d) implies s[j] != d by {
            if j > 0 {
                assert(t[j - 1] != d);
            }
        }
    }
}

/// `find_char` returns `k` exactly when `d` does not occur before `k` and
/// `k` is either an occurrence of `d` or the end of the sequence.
pub proof fn lemma_find_char_is_first(s: Seq<char>, d: char, k: int)
    requires
        0 <= k <= s.len(),
        forall|j: int| 0 <= j < k ==> s[j] != d,
        k == s.len() || s[k] == d,
    ensures
        find_char(s, d) == k,
    decreases s.len(),
{
    if s.len() == 0 {
    } else if s[0] == d {
        assert(k == 0);
    } else {
        assert(k >= 1);
        let t = s.subrange(1, s.len() as int);
        assert(forall|j: int| 0 <= j < k - 1 ==> t[j] != d);
        lemma_find_char_is_first(t, d, k - 1);
    }
}

/// The fields of `s` split on the delimiter `d`.  An empty sequence has one
/// empty field; a delimiter at either end produces an empty field there.
pub open spec fn spec_split(s: Seq<char>, d: char) -> Seq<Seq<char>>
    decreases s.len(),
    via spec_split_decreases
{
    let i = find_char(s, d);
    if i == s.len() {
        seq![s]
    } else {
        seq![s.subrange(0, i)] + spec_split(s.subrange(i + 1, s.len() as int), d)
    }
}

#[via_fn]
proof fn spec_split_decreases(s: Seq<char>, d: char) {
    lemma_find_char_bounds(s, d);
}

/// Splitting a sequence without the delimiter yields that sequence as its one
/// field.
pub proof fn lemma_split_no_delim(s: Seq<char>, d: char)
    requires
        forall|j: int| 0 <= j < s.len() ==> s[j] != d,
    ensures
        spec_split(s, d) == seq![s],
{
    lemma_find_char_is_first(s, d, s.len() as int);
}

/// Splitting at the first delimiter: the part before it is the first field
/// and the rest is split on its own.
pub proof fn lemma_split_step(s: Seq<char>, d: char, i: int)
    requires
        0 <= i < s.len(),
        forall|j: int| 0 <= j < i ==> s[j] != d,
        s[i] == d,
    ensures
        spec_split(s, d) == seq![s.subrange(0, i)] + spec_split(
            s.subrange(i + 1, s.len() as int),
            d,
        ),
{
    lemma_find_char_is_first(s, d, i);
}

/// Splits `s` on the delimiter `d`, as `str::split` does: every string has at
/// least one field, and a delimiter at either end produces an empty field.
pub fn split_str(s: &str, d: char) -> (r: Vec<String>)
    ensures
        views(r@) == spec_split(s@, d),
        r@.len() >= 1,
{
    let n = s.unicode_len();
    let mut r: Vec<String> = Vec::new();
    let mut start: usize = 0;
    let mut i: usize = 0;
    proof {
        assert(s@.subrange(0, n as int) =~= s@);
    }
    while i < n
        invariant
            n == s@.len(),
            0 <= start <= i <= n,
            forall|j: int| start <= j < i ==> s@[j] != d,
            spec_split(s@, d) == views(r@) + spec_split(s@.subrange(start as int, n as int), d),
        decreases n - i,
    {
        if s.get_char(i) == d {
            let field = String::from_str(s.substring_char(start, i));
            proof {
                let t = s@.subrange(start as int, n as int);
                assert(forall|j: int| 0 <= j < i - start ==> t[j] != d);
                lemma_split_step(t, d, i - start);
                assert(t.subrange(0, i - start) =~= s@.subrange(start as int, i as int));
                assert(t.subrange(i - start + 1, t.len() as int) =~= s@.subrange(
                    i as int + 1,
                    n as int,
                ));
                assert(views(r@.push(field)) =~= views(r@).push(field@));
                assert(views(r@.push(field)) + spec_split(
                    s@.subrange(i as int + 1, n as int),
                    d,
                ) =~= views(r@) + spec_split(s@.subrange(start as int, n as int), d));
            }
            r.push(field);
            start = i + 1;
        }
        i = i + 1;
    }
    let field = String::from_str(s.substring_char(start, n));
    proof {
        let t = s@.subrange(start as int, n as int);
        assert(forall|j: int| 0 <= j < t.len() ==> t[j] != d);
        lemma_split_no_delim(t, d);
        assert(views(r@.push(field)) =~= views(r@).push(field@));
        assert(views(r@).push(t) =~= views(r@) + seq![t]);
    }
    r.push(field);
    r
}

/// `s` with its leading whitespace removed.
pub open spec fn spec_trim_front(s: Seq<char>) -> Seq<char>
    decreases s.len(),
{
    if s.len() > 0 && is_space_char(s[0]) {
        spec_trim_front(s.subrange(1, s.len() as int))
    } else {
        s
    }
}

/// `s` with its trailing whitespace removed.
pub open spec fn spec_trim_back(s: Seq<char>) -> Seq<char>
    decreases s.len(),
{
    if s.len() > 0 && is_space_char(s[s.len() - 1]) {
        spec_trim_back(s.subrange(0, s.len() - 1))
    } else {
        s
    }
}

/// `s` with whitespace removed from both ends, as `str::trim` leaves it.
pub open spec fn spec_trim(s: Seq<char>) -> Seq<char> {
    spec_trim_back(spec_trim_front(s))
}

/// Leading whitespace ends exactly at the first non-whitespace character.
pub proof fn lemma_trim_front_at(s: Seq<char>, k: int)
    requires
        0 <= k <= s.len(),
        forall|j: int| 0 <= j < k ==> is_space_char(s[j]),
        k == s.len() || !is_space_char(s[k]),
    ensures
        spec_trim_front(s) == s.subrange(k, s.len() as int),
    decreases s.len(),
{
    if s.len() > 0 && is_space_char(s[0]) {
        assert(k >= 1);
        let t = s.subrange(1, s.len() as int);
        assert(forall|j: int| 0 <= j < k - 1 ==> is_space_char(t[j]));
        lemma_trim_front_at(t, k - 1);
        assert(t.subrange(k - 1, t.len() as int) =~= s.subrange(k, s.len() as int));
    } else {
        assert(k == 0);
        assert(s.subrange(0, s.len() as int) =~= s);
    }
}

/// Trailing whitespace starts exactly after the last non-whitespace character.
pub proof fn lemma_trim_back_at(s: Seq<char>, k: int)
    requires
        0 <= k <= s.len(),
        forall|j: int| k <= j < s.len() ==> is_space_char(s[j]),
        k == 0 || !is_space_char(s[k - 1]),
    ensures
        spec_trim_back(s) == s.subrange(0, k),
    decreases s.len(),
{
    if s.len() > 0 && is_space_char(s[s.len() - 1]) {
        assert(k < s.len());
        let t = s.subrange(0, s.len() - 1);
        lemma_trim_back_at(t, k);
        assert(t.subrange(0, k) =~= s.subrange(0, k));
    } else {
        assert(k == s.len());
        assert(s.subrange(0, s.len() as int) =~= s);
    }
}

/// Removes whitespace from both ends of `s`, as `str::trim` does.
pub fn trim_str(s: &str) -> (r: String)
    ensures
        r@ == spec_trim(s@),
{
    let n = s.unicode_len();
    let mut lo: usize = 0;
    while lo < n && is_space(s.get_char(lo))
        invariant
            n == s@.len(),
            0 <= lo <= n,
            forall|j: int| 0 <= j < lo ==> is_space_char(s@[j]),
        decreases n - lo,
    {
        lo = lo + 1;
    }
    proof {
        lemma_trim_front_at(s@, lo as int);
    }
    let mut hi: usize = n;
    while hi > lo && is_space(s.get_char(hi - 1))
        invariant
            n == s@.len(),
            lo <= hi <= n,
            forall|j: int| hi <= j < n ==> is_space_char(s@[j]),
        decreases hi,
    {
        hi = hi - 1;
    }
    proof {
        let t = s@.subrange(lo as int, n as int);
        assert(forall|j: int| hi - lo <= j < t.len() ==> is_space_char(t[j]));
        lemma_trim_back_at(t, hi - lo);
        assert(t.subrange(0, hi - lo) =~= s@.subrange(lo as int, hi as int));
    }
    String::from_str(s.substring_char(lo, hi))
}

/// Character-for-character equality of two string slices.
pub fn str_eq(a: &str, b: &str) -> (r: bool)
    ensures
        r == (a@ == b@),
{
    let na = a.unicode_len();
    let nb = b.unicode_len();
    if na != nb {
        return false;
    }
    let mut i: usize = 0;
    while i < na
        invariant
            na == a@.len(),
            na == b@.len(),
            0 <= i <= na,
            forall|j: int| 0 <= j < i ==> a@[j] == b@[j],
        decreases na - i,
    {
        if a.get_char(i) != b.get_char(i) {
            return false;
        }
        i = i + 1;
    }
    proof {
        assert(a@ =~= b@);
    }
    true
}

} // verus!
