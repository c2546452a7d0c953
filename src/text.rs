//! Character-level helpers: whitespace trimming, ASCII case folding and comparison.
use vstd::prelude::*;

verus! {

/// Unicode `White_Space`, the characters that `str::trim` removes.
pub open spec fn is_ws(c: char) -> bool {
    ('\u{9}' <= c && c <= '\u{d}') || c == ' ' || c == '\u{85}' || c == '\u{a0}' || c
        == '\u{1680}' || ('\u{2000}' <= c && c <= '\u{200a}') || c == '\u{2028}' || c
        == '\u{2029}' || c == '\u{202f}' || c == '\u{205f}' || c == '\u{3000}'
}

/// Whether `c` is Unicode whitespace (see `is_ws`).
pub fn is_whitespace(c: char) -> (r: bool)
    ensures
        r == is_ws(c),
{
    ('\u{9}' <= c && c <= '\u{d}') || c == ' ' || c == '\u{85}' || c == '\u{a0}' || c
        == '\u{1680}' || ('\u{2000}' <= c && c <= '\u{200a}') || c == '\u{2028}' || c
        == '\u{2029}' || c == '\u{202f}' || c == '\u{205f}' || c == '\u{3000}'
}

/// `x` without its leading whitespace.
pub open spec fn trim_start(x: Seq<char>) -> Seq<char>
    decreases x.len(),
{
    if x.len() > 0 && is_ws(x[0]) {
        trim_start(x.drop_first())
    } else {
        x
    }
}

/// `x` without its trailing whitespace.
pub open spec fn trim_end(x: Seq<char>) -> Seq<char>
    decreases x.len(),
{
    if x.len() > 0 && is_ws(x.last()) {
        trim_end(x.drop_last())
    } else {
        x
    }
}

/// `x` without leading or trailing whitespace.
pub open spec fn trim(x: Seq<char>) -> Seq<char> {
    trim_end(trim_start(x))
}

/// Finds the bounds of the trimmed part of `s[i..j]`.
pub fn trim_bounds(s: &Vec<char>, i: usize, j: usize) -> (r: (usize, usize))
    requires
        i <= j <= s.len(),
    ensures
        i <= r.0 <= r.1 <= j,
        s@.subrange(r.0 as int, r.1 as int) == trim(s@.subrange(i as int, j as int)),
{
    let mut a = i;
    while a < j && is_whitespace(s[a])
        invariant
            i <= a <= j <= s.len(),
            trim_start(s@.subrange(i as int, j as int)) == trim_start(
                s@.subrange(a as int, j as int),
            ),
        decreases j - a,
    {
        assert(s@.subrange(a as int, j as int).drop_first() =~= s@.subrange(
            a as int + 1,
            j as int,
        ));
        a += 1;
    }
    assert(trim_start(s@.subrange(a as int, j as int)) == s@.subrange(a as int, j as int));
    let mut b = j;
    while b > a && is_whitespace(s[b - 1])
        invariant
            i <= a <= b <= j <= s.len(),
            trim_end(s@.subrange(a as int, j as int)) == trim_end(
                s@.subrange(a as int, b as int),
            ),
        decreases b - a,
    {
        assert(s@.subrange(a as int, b as int).drop_last() =~= s@.subrange(
            a as int,
            b as int - 1,
        ));
        b -= 1;
    }
    (a, b)
}

/// `c` in lower case when it is an ASCII capital letter.
pub open spec fn lower_char(c: char) -> char {
    if 'A' <= c && c <= 'Z' {
        ((c as u32) + 32) as char
    } else {
        c
    }
}

/// ASCII letters mapped to lower case, every other character unchanged.
pub open spec fn ascii_lower(x: Seq<char>) -> Seq<char> {
    x.map_values(|c: char| lower_char(c))
}

/// Relies on `str::to_ascii_lowercase`: ASCII letters `A` to `Z` become `a` to `z`,
/// every other character is kept.
#[verifier::external_body]
pub(crate) fn to_ascii_lowercase(s: &str) -> (r: String)
    ensures
        r@ == ascii_lower(s@),
{
    s.to_ascii_lowercase()
}

/// Whether two character sequences are equal.
pub fn chars_equal(a: &Vec<char>, b: &Vec<char>) -> (r: bool)
    ensures
        r == (a@ == b@),
{
    if a.len() != b.len() {
        return false;
    }
    let mut i: usize = 0;
    while i < a.len()
        invariant
            a.len() == b.len(),
            i <= a.len(),
            forall|k: int| 0 <= k < i ==> a@[k] == b@[k],
        decreases a.len() - i,
    {
        if a[i] != b[i] {
            return false;
        }
        i += 1;
    }
    assert(a@ =~= b@);
    true
}

/// Whether `lit` occurs in `s` at position `p`.
pub fn has_at(s: &Vec<char>, p: usize, lit: &Vec<char>) -> (r: bool)
    requires
        p <= s.len(),
    ensures
        r == (p + lit.len() <= s.len() && s@.subrange(p as int, p + lit.len()) == lit@),
{
    if lit.len() > s.len() - p {
        return false;
    }
    let mut i: usize = 0;
    while i < lit.len()
        invariant
            p + lit.len() <= s.len(),
            i <= lit.len(),
            forall|k: int| 0 <= k < i ==> s@[p + k] == lit@[k],
        decreases lit.len() - i,
    {
        if s[p + i] != lit[i] {
            assert(s@.subrange(p as int, p + lit.len())[i as int] != lit@[i as int]);
            return false;
        }
        i += 1;
    }
    assert(s@.subrange(p as int, p + lit.len()) =~= lit@);
    true
}

} // verus!
