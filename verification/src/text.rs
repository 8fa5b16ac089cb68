//! Character-level text utilities shared by the parsing and rewriting steps:
//! substring search, prefix tests, and string equality, each specified over
//! the `Seq<char>` view of `&str`.

use vstd::prelude::*;

verus! {

/// The pattern `pat` occurs in `s` at position `i`.
pub open spec fn match_at(s: Seq<char>, pat: Seq<char>, i: int) -> bool {
    0 <= i && i + pat.len() <= s.len() && s.subrange(i, i + pat.len() as int) == pat
}

/// The pattern `pat` occurs somewhere in `s`.
pub open spec fn has_substr(s: Seq<char>, pat: Seq<char>) -> bool {
    exists|i: int| match_at(s, pat, i)
}

/// Index of the leftmost occurrence of `pat` in `s` at or after `from`,
/// or -1 when there is none.
pub open spec fn find_from(s: Seq<char>, pat: Seq<char>, from: int) -> int
    decreases s.len() - from,
{
    if from < 0 || from + pat.len() > s.len() {
        -1
    } else if pat.len() == 0 || match_at(s, pat, from) {
        from
    } else {
        find_from(s, pat, from + 1)
    }
}

/// What `find_from` returns is a leftmost match: a match at the returned
/// index, with none between `from` and it; and -1 means no match at or
/// after `from`.
pub proof fn lemma_find_from_properties(s: Seq<char>, pat: Seq<char>, from: int)
    requires
        0 <= from,
        pat.len() > 0,
    ensures
        find_from(s, pat, from) >= 0 ==> {
            &&& from <= find_from(s, pat, from)
            &&& match_at(s, pat, find_from(s, pat, from))
            &&& forall|j: int| from <= j < find_from(s, pat, from) ==> !match_at(s, pat, j)
        },
        find_from(s, pat, from) == -1 ==> forall|j: int| j >= from ==> !match_at(s, pat, j),
    decreases s.len() - from,
{
    if from + pat.len() > s.len() {
        assert forall|j: int| j >= from implies !match_at(s, pat, j) by {}
    } else if match_at(s, pat, from) {
    } else {
        lemma_find_from_properties(s, pat, from + 1);
    }
}

/// Compares the characters of `s` starting at `i` with all of `pat`.
pub fn is_match_at(s: &str, pat: &str, i: usize) -> (r: bool)
    requires
        i + pat@.len() <= s@.len(),
        s@.len() <= usize::MAX,
    ensures
        r == match_at(s@, pat@, i as int),
{
    let n: usize = pat.unicode_len();
    let mut j: usize = 0;
    while j < n
        invariant
            n == pat@.len(),
            i + n <= s@.len(),
            s@.len() <= usize::MAX,
            0 <= j <= n,
            forall|k: int| 0 <= k < j ==> s@[i + k] == pat@[k],
        decreases n - j,
    {
        if s.get_char(i + j) != pat.get_char(j) {
            assert(s@.subrange(i as int, i + n as int)[j as int] != pat@[j as int]);
            return false;
        }
        j += 1;
    }
    assert(s@.subrange(i as int, i + n as int) =~= pat@);
    true
}

/// Leftmost occurrence of `pat` in `s` at or after `from`, as `find_from`.
pub fn find_sub(s: &str, pat: &str, from: usize) -> (r: Option<usize>)
    ensures
        match r {
            Some(i) => find_from(s@, pat@, from as int) == i as int,
            None => find_from(s@, pat@, from as int) == -1,
        },
{
    let n: usize = s.unicode_len();
    let m: usize = pat.unicode_len();
    if from > n || m > n - from {
        proof {
            lemma_find_from_absent(s@, pat@, from as int);
        }
        return None;
    }
    if m == 0 {
        return Some(from);
    }
    let mut i: usize = from;
    while i <= n - m
        invariant
            n == s@.len(),
            m == pat@.len(),
            0 < m <= n,
            from <= i,
            i <= n - m + 1,
            find_from(s@, pat@, from as int) == find_from(s@, pat@, i as int),
        decreases n - i,
    {
        if is_match_at(s, pat, i) {
            return Some(i);
        }
        i += 1;
    }
    None
}

/// A window that cannot fit the pattern holds no match.
proof fn lemma_find_from_absent(s: Seq<char>, pat: Seq<char>, from: int)
    requires
        from + pat.len() > s.len() || from < 0,
    ensures
        find_from(s, pat, from) == -1,
{
}

/// Whether `pat` occurs anywhere in `s`.
pub fn contains_sub(s: &str, pat: &str) -> (r: bool)
    ensures
        r == has_substr(s@, pat@),
{
    if pat.unicode_len() == 0 {
        proof {
            assert(s@.subrange(0, 0) =~= pat@);
            assert(match_at(s@, pat@, 0));
        }
        return true;
    }
    let found = find_sub(s, pat, 0);
    proof {
        lemma_find_from_properties(s@, pat@, 0);
        if find_from(s@, pat@, 0) >= 0 {
            assert(match_at(s@, pat@, find_from(s@, pat@, 0)));
        } else {
            assert forall|i: int| !match_at(s@, pat@, i) by {
                if i >= 0 {
                    assert(!match_at(s@, pat@, i));
                }
            }
        }
    }
    found.is_some()
}

/// Whether `s` begins with `pat`.
pub fn starts_with_str(s: &str, pat: &str) -> (r: bool)
    ensures
        r == match_at(s@, pat@, 0),
{
    let n: usize = s.unicode_len();
    let m: usize = pat.unicode_len();
    if m > n {
        return false;
    }
    is_match_at(s, pat, 0)
}

/// Character-for-character string equality, in terms of the views.
pub fn str_eq(a: &str, b: &str) -> (r: bool)
    ensures
        r == (a@ == b@),
{
    let n: usize = a.unicode_len();
    if n != b.unicode_len() {
        return false;
    }
    let mut i: usize = 0;
    while i < n
        invariant
            n == a@.len(),
            n == b@.len(),
            0 <= i <= n,
            forall|k: int| 0 <= k < i ==> a@[k] == b@[k],
        decreases n - i,
    {
        if a.get_char(i) != b.get_char(i) {
            return false;
        }
        i += 1;
    }
    proof {
        assert(a@ =~= b@);
    }
    true
}

/// ASCII whitespace, as the tool-output parsing understands it.
pub open spec fn is_ws(c: char) -> bool {
    c == ' ' || c == '\t' || c == '\r' || c == '\n'
}

/// `s` without leading ASCII whitespace.
pub open spec fn trim_start(s: Seq<char>) -> Seq<char>
    decreases s.len(),
{
    if s.len() > 0 && is_ws(s[0]) {
        trim_start(s.drop_first())
    } else {
        s
    }
}

/// `s` without trailing ASCII whitespace.
pub open spec fn trim_end(s: Seq<char>) -> Seq<char>
    decreases s.len(),
{
    if s.len() > 0 && is_ws(s.last()) {
        trim_end(s.drop_last())
    } else {
        s
    }
}

/// `s` without leading or trailing ASCII whitespace.
pub open spec fn trim_ws(s: Seq<char>) -> Seq<char> {
    trim_end(trim_start(s))
}

/// Tests one character for ASCII whitespace.
pub fn is_ws_exec(c: char) -> (r: bool)
    ensures
        r == is_ws(c),
{
    c == ' ' || c == '\t' || c == '\r' || c == '\n'
}

/// Removes leading and trailing ASCII whitespace, as `trim_ws` describes.
pub fn trim_ws_exec(s: &str) -> (r: &str)
    ensures
        r@ == trim_ws(s@),
{
    let n: usize = s.unicode_len();
    proof {
        assert(s@.subrange(0, n as int) =~= s@);
    }
    let mut a: usize = 0;
    while a < n && is_ws_exec(s.get_char(a))
        invariant
            n == s@.len(),
            0 <= a <= n,
            trim_start(s@) == trim_start(s@.subrange(a as int, n as int)),
        decreases n - a,
    {
        proof {
            assert(s@.subrange(a as int, n as int).drop_first() =~= s@.subrange(
                a + 1,
                n as int,
            ));
        }
        a += 1;
    }
    proof {
        assert(trim_start(s@) == s@.subrange(a as int, n as int));
    }
    let mut b: usize = n;
    while b > a && is_ws_exec(s.get_char(b - 1))
        invariant
            n == s@.len(),
            0 <= a <= b <= n,
            trim_start(s@) == s@.subrange(a as int, n as int),
            trim_end(trim_start(s@)) == trim_end(s@.subrange(a as int, b as int)),
        decreases b,
    {
        proof {
            assert(s@.subrange(a as int, b as int).drop_last() =~= s@.subrange(
                a as int,
                b - 1,
            ));
        }
        b -= 1;
    }
    proof {
        let t = s@.subrange(a as int, b as int);
        if t.len() > 0 {
            assert(!is_ws(t.last()));
        }
        assert(trim_end(t) == t);
    }
    s.substring_char(a, b)
}

/// A decimal digit.
pub open spec fn is_digit(c: char) -> bool {
    '0' <= c && c <= '9'
}

/// All characters of `s` are decimal digits.
pub open spec fn all_digits(s: Seq<char>) -> bool {
    forall|i: int| 0 <= i < s.len() ==> is_digit(#[trigger] s[i])
}

/// The numeric value of a digit string.
pub open spec fn dec_value(s: Seq<char>) -> nat
    decreases s.len(),
{
    if s.len() == 0 {
        0
    } else {
        (dec_value(s.drop_last()) * 10 + (s.last() as int - '0' as int)) as nat
    }
}

/// Digit strings stay digit strings under subrange.
pub proof fn lemma_all_digits_subrange(s: Seq<char>, a: int, b: int)
    requires
        all_digits(s),
        0 <= a <= b <= s.len(),
    ensures
        all_digits(s.subrange(a, b)),
{
    assert forall|i: int| 0 <= i < b - a implies is_digit(#[trigger] s.subrange(a, b)[i]) by {
        assert(s.subrange(a, b)[i] == s[a + i]);
    }
}

/// A line with any trailing carriage return removed.
pub open spec fn strip_cr(l: Seq<char>) -> Seq<char> {
    if l.len() > 0 && l.last() == '\r' {
        l.drop_last()
    } else {
        l
    }
}

/// Removes a trailing carriage return, as `strip_cr` describes.
pub fn strip_cr_exec(l: &str) -> (r: &str)
    ensures
        r@ == strip_cr(l@),
{
    let n: usize = l.unicode_len();
    if n > 0 && l.get_char(n - 1) == '\r' {
        let r = l.substring_char(0, n - 1);
        proof {
            assert(r@ =~= l@.drop_last());
        }
        r
    } else {
        l
    }
}

/// Equality of two optional strings, in terms of the views.
pub fn opt_str_eq(a: &Option<String>, b: &str) -> (r: bool)
    ensures
        r == match a {
            Some(s) => s@ == b@,
            None => false,
        },
{
    match a {
        Some(s) => str_eq(s.as_str(), b),
        None => false,
    }
}

} // verus!
