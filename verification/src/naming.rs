//! Segment file naming and reassembly ordering: zero-padded decimal names
//! whose lexical order coincides with discovery order, and the
//! concatenation list built from a directory listing — filtered, sorted
//! lexically, decrypted names preferred — which is invariant under the
//! order in which segment downloads completed.

use vstd::prelude::*;
use vstd::relations::{total_ordering, sorted_by};
use vstd::seq_lib::lemma_multiset_commutative;
use vstd::seq_lib::lemma_sorted_unique;
use vstd::multiset::Multiset;
use crate::text::{match_at, is_digit, all_digits, dec_value};

verus! {

/// Lexicographic order on character sequences: the empty sequence first,
/// then by first difference.
pub open spec fn lex_le(a: Seq<char>, b: Seq<char>) -> bool
    decreases a.len(),
{
    if a.len() == 0 {
        true
    } else if b.len() == 0 {
        false
    } else if a[0] != b[0] {
        a[0] < b[0]
    } else {
        lex_le(a.drop_first(), b.drop_first())
    }
}

/// The order as a predicate value shared by specs and proofs.
pub open spec fn lex_le_pred() -> spec_fn(Seq<char>, Seq<char>) -> bool {
    |a: Seq<char>, b: Seq<char>| lex_le(a, b)
}

/// Lexicographic order is reflexive.
pub proof fn lemma_lex_refl(a: Seq<char>)
    ensures
        lex_le(a, a),
    decreases a.len(),
{
    if a.len() > 0 {
        lemma_lex_refl(a.drop_first());
    }
}

/// Lexicographic order is antisymmetric.
pub proof fn lemma_lex_antisym(a: Seq<char>, b: Seq<char>)
    requires
        lex_le(a, b),
        lex_le(b, a),
    ensures
        a == b,
    decreases a.len(),
{
    if a.len() == 0 {
        assert(b.len() == 0);
        assert(a =~= b);
    } else {
        lemma_lex_antisym(a.drop_first(), b.drop_first());
        assert(a =~= seq![a[0]] + a.drop_first());
        assert(b =~= seq![b[0]] + b.drop_first());
    }
}

/// Lexicographic order is transitive.
pub proof fn lemma_lex_trans(a: Seq<char>, b: Seq<char>, c: Seq<char>)
    requires
        lex_le(a, b),
        lex_le(b, c),
    ensures
        lex_le(a, c),
    decreases a.len(),
{
    if a.len() == 0 || b.len() == 0 || c.len() == 0 {
    } else {
        if a[0] == b[0] && b[0] == c[0] {
            lemma_lex_trans(a.drop_first(), b.drop_first(), c.drop_first());
        }
    }
}

/// Any two sequences are comparable.
pub proof fn lemma_lex_connected(a: Seq<char>, b: Seq<char>)
    ensures
        lex_le(a, b) || lex_le(b, a),
    decreases a.len(),
{
    if a.len() > 0 && b.len() > 0 && a[0] == b[0] {
        lemma_lex_connected(a.drop_first(), b.drop_first());
    }
}

/// Lexicographic order is a total ordering in the library's sense.
pub proof fn lemma_lex_total_ordering()
    ensures
        total_ordering(lex_le_pred()),
{
    assert forall|a: Seq<char>| #[trigger] lex_le_pred()(a, a) by {
        lemma_lex_refl(a);
    }
    assert forall|a: Seq<char>, b: Seq<char>|
        #[trigger] lex_le_pred()(a, b) && #[trigger] lex_le_pred()(b, a) implies a == b by {
        lemma_lex_antisym(a, b);
    }
    assert forall|a: Seq<char>, b: Seq<char>, c: Seq<char>|
        #[trigger] lex_le_pred()(a, b) && #[trigger] lex_le_pred()(b, c) implies lex_le_pred()(
        a,
        c,
    ) by {
        lemma_lex_trans(a, b, c);
    }
    assert forall|a: Seq<char>, b: Seq<char>| #[trigger] lex_le_pred()(a, b) || #[trigger]
    lex_le_pred()(b, a) by {
        lemma_lex_connected(a, b);
    }
}

/// Sequences that agree on a prefix compare as their remainders do.
pub proof fn lemma_lex_skip(a: Seq<char>, b: Seq<char>, i: int)
    requires
        0 <= i <= a.len(),
        i <= b.len(),
        forall|k: int| 0 <= k < i ==> a[k] == b[k],
    ensures
        lex_le(a, b) == lex_le(a.skip(i), b.skip(i)),
    decreases i,
{
    if i > 0 {
        assert(a.len() > 0 && b.len() > 0 && a[0] == b[0]);
        assert(forall|k: int| 0 <= k < i - 1 ==> a.drop_first()[k] == b.drop_first()[k]);
        lemma_lex_skip(a.drop_first(), b.drop_first(), i - 1);
        assert(a.drop_first().skip(i - 1) =~= a.skip(i));
        assert(b.drop_first().skip(i - 1) =~= b.skip(i));
    } else {
        assert(a.skip(0) =~= a);
        assert(b.skip(0) =~= b);
    }
}

/// Compares two strings in lexicographic character order.
#[verifier::loop_isolation(false)]
pub fn str_lex_le(a: &str, b: &str) -> (r: bool)
    ensures
        r == lex_le(a@, b@),
{
    let an: usize = a.unicode_len();
    let bn: usize = b.unicode_len();
    let mut i: usize = 0;
    while i < an && i < bn
        invariant
            0 <= i <= an,
            i <= bn,
            forall|k: int| 0 <= k < i ==> a@[k] == b@[k],
        decreases an - i,
    {
        let ca = a.get_char(i);
        let cb = b.get_char(i);
        if ca != cb {
            proof {
                lemma_lex_skip(a@, b@, i as int);
                assert(a@.skip(i as int)[0] == a@[i as int]);
                assert(b@.skip(i as int)[0] == b@[i as int]);
            }
            return ca < cb;
        }
        i += 1;
    }
    proof {
        lemma_lex_skip(a@, b@, i as int);
        if i == an {
            assert(a@.skip(i as int).len() == 0);
        } else {
            assert(b@.skip(i as int).len() == 0);
            assert(a@.skip(i as int).len() > 0);
        }
    }
    an <= bn
}

/// The character of one decimal digit.
pub open spec fn digit_char(d: int) -> char {
    if d == 0 {
        '0'
    } else if d == 1 {
        '1'
    } else if d == 2 {
        '2'
    } else if d == 3 {
        '3'
    } else if d == 4 {
        '4'
    } else if d == 5 {
        '5'
    } else if d == 6 {
        '6'
    } else if d == 7 {
        '7'
    } else if d == 8 {
        '8'
    } else {
        '9'
    }
}

/// The decimal digits of `n`, most significant first.
pub open spec fn dec_chars(n: nat) -> Seq<char>
    decreases n,
{
    if n < 10 {
        seq![digit_char(n as int)]
    } else {
        dec_chars(n / 10).push(digit_char((n % 10) as int))
    }
}

/// `k` zero characters.
pub open spec fn zeros(k: nat) -> Seq<char> {
    Seq::new(k, |i: int| '0')
}

/// The decimal digits of `n`, left-padded with zeros to six places.
pub open spec fn padded6(n: nat) -> Seq<char> {
    if dec_chars(n).len() >= 6 {
        dec_chars(n)
    } else {
        zeros((6 - dec_chars(n).len()) as nat) + dec_chars(n)
    }
}

/// The working-directory file name of segment `i`.
pub open spec fn segment_name_spec(i: nat) -> Seq<char> {
    "seg_"@ + padded6(i) + ".ts"@
}

/// The decimal digits of `n` are digits and name `n`.
pub proof fn lemma_dec_chars_value(n: nat)
    ensures
        all_digits(dec_chars(n)),
        dec_value(dec_chars(n)) == n,
        dec_chars(n).len() >= 1,
    decreases n,
{
    if n < 10 {
        reveal_with_fuel(dec_value, 3);
        assert(dec_chars(n) =~= seq![digit_char(n as int)]);
        assert(dec_chars(n).drop_last() =~= Seq::<char>::empty());
        assert(is_digit(digit_char(n as int)));
        assert(digit_char(n as int) as int - '0' as int == n);
    } else {
        lemma_dec_chars_value(n / 10);
        let s = dec_chars(n);
        let front = dec_chars(n / 10);
        let d = (n % 10) as int;
        assert(s == front.push(digit_char(d)));
        assert(s.drop_last() =~= front);
        assert(s.last() == digit_char(d));
        assert(is_digit(digit_char(d)));
        assert(digit_char(d) as int - '0' as int == d);
        assert forall|i: int| 0 <= i < s.len() implies is_digit(#[trigger] s[i]) by {
            if i < front.len() {
                assert(s[i] == front[i]);
            }
        }
        assert(dec_value(s) == dec_value(front) * 10 + d);
        assert(n / 10 * 10 + n % 10 == n);
    }
}

/// A number below the `k`-th power of ten has at most `k` digits.
pub proof fn lemma_dec_chars_len(n: nat, k: nat)
    requires
        n < crate::progress::pow10(k),
        k >= 1,
    ensures
        dec_chars(n).len() <= k,
    decreases n,
{
    if n < 10 {
    } else {
        assert(crate::progress::pow10(k) == 10 * crate::progress::pow10((k - 1) as nat));
        assert(k >= 2) by {
            if k == 1 {
                assert(crate::progress::pow10(1) == 10) by {
                    reveal_with_fuel(crate::progress::pow10, 2);
                }
            }
        }
        assert(n / 10 < crate::progress::pow10((k - 1) as nat)) by (nonlinear_arith)
            requires
                n < 10 * crate::progress::pow10((k - 1) as nat),
                n >= 10,
        {
        }
        lemma_dec_chars_len(n / 10, (k - 1) as nat);
    }
}

/// Leading zeros do not change a digit string's value.
pub proof fn lemma_dec_value_leading_zeros(z: nat, s: Seq<char>)
    ensures
        dec_value(zeros(z) + s) == dec_value(s),
    decreases s.len(),
{
    if s.len() == 0 {
        assert(zeros(z) + s =~= zeros(z));
        lemma_dec_value_zeros(z);
    } else {
        assert((zeros(z) + s).drop_last() =~= zeros(z) + s.drop_last());
        assert((zeros(z) + s).last() == s.last());
        lemma_dec_value_leading_zeros(z, s.drop_last());
    }
}

/// A string of zeros names zero.
pub proof fn lemma_dec_value_zeros(z: nat)
    ensures
        dec_value(zeros(z)) == 0,
        all_digits(zeros(z)),
    decreases z,
{
    if z > 0 {
        assert(zeros(z).drop_last() =~= zeros((z - 1) as nat));
        lemma_dec_value_zeros((z - 1) as nat);
        assert(zeros(z).last() == '0');
    }
}

/// The padded name of a segment index is six digits naming that index.
pub proof fn lemma_padded6_value(n: nat)
    requires
        n < 1000000,
    ensures
        padded6(n).len() == 6,
        all_digits(padded6(n)),
        dec_value(padded6(n)) == n,
{
    lemma_dec_chars_value(n);
    assert(crate::progress::pow10(6) == 1000000) by {
        reveal_with_fuel(crate::progress::pow10, 7);
    }
    lemma_dec_chars_len(n, 6);
    let s = dec_chars(n);
    let z = (6 - s.len()) as nat;
    lemma_dec_value_zeros(z);
    lemma_dec_value_leading_zeros(z, s);
    if s.len() < 6 {
        assert(padded6(n) == zeros(z) + s);
        assert forall|i: int| 0 <= i < padded6(n).len() implies is_digit(
            #[trigger] padded6(n)[i],
        ) by {
            if i < z {
                assert(padded6(n)[i] == '0');
            } else {
                assert(padded6(n)[i] == s[i - z]);
            }
        }
    }
}

/// Decimal digits of one's place-count order as their values do: a smaller
/// value gives a lexically smaller string of the same length.
pub proof fn lemma_dec_lt_lex(a: Seq<char>, b: Seq<char>)
    requires
        all_digits(a),
        all_digits(b),
        a.len() == b.len(),
        dec_value(a) < dec_value(b),
    ensures
        lex_le(a, b),
        a != b,
    decreases a.len(),
{
    lemma_dec_value_front(a);
    lemma_dec_value_front(b);
    if a.len() == 0 {
        assert(false);
    } else {
        let p = crate::progress::pow10((a.len() - 1) as nat);
        let a0 = a[0] as int - '0' as int;
        let b0 = b[0] as int - '0' as int;
        assert(a.drop_first() =~= a.subrange(1, a.len() as int));
        assert(b.drop_first() =~= b.subrange(1, b.len() as int));
        crate::text::lemma_all_digits_subrange(a, 1, a.len() as int);
        crate::text::lemma_all_digits_subrange(b, 1, b.len() as int);
        crate::progress::lemma_dec_value_bound(a.drop_first());
        crate::progress::lemma_dec_value_bound(b.drop_first());
        if a[0] == b[0] {
            assert(dec_value(a.drop_first()) < dec_value(b.drop_first())) by (nonlinear_arith)
                requires
                    dec_value(a) == a0 * p + dec_value(a.drop_first()),
                    dec_value(b) == b0 * p + dec_value(b.drop_first()),
                    a0 == b0,
                    dec_value(a) < dec_value(b),
            {
            }
            lemma_dec_lt_lex(a.drop_first(), b.drop_first());
            assert(a != b) by {
                if a == b {
                    assert(a.drop_first() == b.drop_first());
                }
            }
        } else if a[0] < b[0] {
            assert(lex_le(a, b));
        } else {
            assert(a0 > b0);
            assert(dec_value(b) < dec_value(a)) by (nonlinear_arith)
                requires
                    dec_value(a) == a0 * p + dec_value(a.drop_first()),
                    dec_value(b) == b0 * p + dec_value(b.drop_first()),
                    a0 > b0,
                    dec_value(b.drop_first()) < p,
                    dec_value(a.drop_first()) >= 0,
                    p >= 1,
            {
            }
            assert(false);
        }
    }
}

/// A digit string's value, decomposed at the front.
pub proof fn lemma_dec_value_front(s: Seq<char>)
    requires
        all_digits(s),
    ensures
        s.len() > 0 ==> dec_value(s) == (s[0] as int - '0' as int) * crate::progress::pow10(
            (s.len() - 1) as nat,
        ) + dec_value(s.drop_first()),
    decreases s.len(),
{
    if s.len() == 1 {
        reveal_with_fuel(dec_value, 3);
        assert(s.drop_first() =~= Seq::<char>::empty());
        assert(s.drop_last() =~= Seq::<char>::empty());
        assert(crate::progress::pow10(0) == 1);
        assert(dec_value(s) == dec_value(s.drop_last()) * 10 + (s.last() as int - '0' as int));
        assert(dec_value(s.drop_last()) == 0);
        assert(dec_value(s.drop_first()) == 0);
        assert(s.last() == s[0]);
    } else if s.len() > 1 {
        let dl = s.drop_last();
        assert(dl =~= s.subrange(0, s.len() - 1));
        crate::text::lemma_all_digits_subrange(s, 0, s.len() - 1);
        lemma_dec_value_front(dl);
        let p = crate::progress::pow10((s.len() - 2) as nat);
        let s0 = s[0] as int - '0' as int;
        assert(dl[0] == s[0]);
        assert(dec_value(dl) == s0 * p + dec_value(dl.drop_first()));
        assert(s.drop_first().drop_last() =~= dl.drop_first());
        assert(s.drop_first().last() == s.last());
        assert(dec_value(s.drop_first()) == dec_value(dl.drop_first()) * 10 + (s.last() as int
            - '0' as int));
        assert(dec_value(s) == dec_value(dl) * 10 + (s.last() as int - '0' as int));
        assert(crate::progress::pow10((s.len() - 1) as nat) == 10 * p);
        assert(dec_value(s) == s0 * (10 * p) + dec_value(s.drop_first())) by (nonlinear_arith)
            requires
                dec_value(s) == dec_value(dl) * 10 + (s.last() as int - '0' as int),
                dec_value(dl) == s0 * p + dec_value(dl.drop_first()),
                dec_value(s.drop_first()) == dec_value(dl.drop_first()) * 10 + (s.last() as int
                    - '0' as int),
        {
        }
    }
}

/// Strictly ordered equal-length strings stay strictly ordered under a
/// shared context: any prefix, and any suffixes.
pub proof fn lemma_lex_append_strict(a: Seq<char>, b: Seq<char>, s1: Seq<char>, s2: Seq<char>)
    requires
        a.len() == b.len(),
        lex_le(a, b),
        a != b,
    ensures
        lex_le(a + s1, b + s2),
        a + s1 != b + s2,
    decreases a.len(),
{
    if a.len() == 0 {
        assert(a =~= b);
        assert(false);
    } else {
        assert((a + s1).len() > 0 && (b + s2).len() > 0);
        assert((a + s1)[0] == a[0] && (b + s2)[0] == b[0]);
        if a[0] == b[0] {
            assert(a.drop_first() != b.drop_first()) by {
                if a.drop_first() == b.drop_first() {
                    assert(a =~= seq![a[0]] + a.drop_first());
                    assert(b =~= seq![b[0]] + b.drop_first());
                    assert(a == b);
                }
            }
            lemma_lex_append_strict(a.drop_first(), b.drop_first(), s1, s2);
            assert((a + s1).drop_first() =~= a.drop_first() + s1);
            assert((b + s2).drop_first() =~= b.drop_first() + s2);
            assert((a + s1) != (b + s2)) by {
                if (a + s1) == (b + s2) {
                    assert((a + s1).drop_first() == (b + s2).drop_first());
                }
            }
        } else {
            assert(a[0] < b[0]);
            assert(lex_le(a + s1, b + s2));
            assert((a + s1)[0] != (b + s2)[0]);
        }
    }
}

/// Law: segment file names preserve discovery order under lexical sort —
/// the name of an earlier segment sorts strictly before the name of a
/// later one, for every pair of indices the padded form covers.
pub proof fn lemma_segment_name_order(i: nat, j: nat)
    requires
        i < j < 1000000,
    ensures
        lex_le(segment_name_spec(i), segment_name_spec(j)),
        segment_name_spec(i) != segment_name_spec(j),
{
    lemma_padded6_value(i);
    lemma_padded6_value(j);
    lemma_dec_lt_lex(padded6(i), padded6(j));
    lemma_lex_append_strict(padded6(i), padded6(j), ".ts"@, ".ts"@);
    let ta = padded6(i) + ".ts"@;
    let tb = padded6(j) + ".ts"@;
    let fa = segment_name_spec(i);
    let fb = segment_name_spec(j);
    let pl = "seg_"@.len() as int;
    assert(fa =~= "seg_"@ + ta);
    assert(fb =~= "seg_"@ + tb);
    assert(forall|k: int| 0 <= k < pl ==> fa[k] == fb[k]);
    lemma_lex_skip(fa, fb, pl);
    assert(fa.skip(pl) =~= ta);
    assert(fb.skip(pl) =~= tb);
    assert(fa != fb) by {
        if fa == fb {
            assert(fa.skip(pl) == fb.skip(pl));
        }
    }
}

/// One digit as a string slice.
fn digit_str(d: u64) -> (r: &'static str)
    requires
        d < 10,
    ensures
        r@ == seq![digit_char(d as int)],
{
    if d == 0 {
        proof {
            reveal_strlit("0");
            assert("0"@ =~= seq![digit_char(0)]);
        }
        "0"
    } else if d == 1 {
        proof {
            reveal_strlit("1");
            assert("1"@ =~= seq![digit_char(1)]);
        }
        "1"
    } else if d == 2 {
        proof {
            reveal_strlit("2");
            assert("2"@ =~= seq![digit_char(2)]);
        }
        "2"
    } else if d == 3 {
        proof {
            reveal_strlit("3");
            assert("3"@ =~= seq![digit_char(3)]);
        }
        "3"
    } else if d == 4 {
        proof {
            reveal_strlit("4");
            assert("4"@ =~= seq![digit_char(4)]);
        }
        "4"
    } else if d == 5 {
        proof {
            reveal_strlit("5");
            assert("5"@ =~= seq![digit_char(5)]);
        }
        "5"
    } else if d == 6 {
        proof {
            reveal_strlit("6");
            assert("6"@ =~= seq![digit_char(6)]);
        }
        "6"
    } else if d == 7 {
        proof {
            reveal_strlit("7");
            assert("7"@ =~= seq![digit_char(7)]);
        }
        "7"
    } else if d == 8 {
        proof {
            reveal_strlit("8");
            assert("8"@ =~= seq![digit_char(8)]);
        }
        "8"
    } else {
        proof {
            reveal_strlit("9");
            assert("9"@ =~= seq![digit_char(9)]);
        }
        "9"
    }
}

/// The decimal digits of `n` as an owned string.
pub fn dec_string(n: u64) -> (r: String)
    ensures
        r@ == dec_chars(n as nat),
    decreases n,
{
    if n < 10 {
        digit_str(n).to_owned()
    } else {
        let mut s = dec_string(n / 10);
        let ghost front = s@;
        s.append(digit_str(n % 10));
        proof {
            assert(front + seq![digit_char((n % 10) as int)] =~= front.push(
                digit_char((n % 10) as int),
            ));
        }
        s
    }
}

/// The working-directory file name of segment `i`, as `segment_name_spec`.
#[verifier::loop_isolation(false)]
pub fn segment_file_name(i: usize) -> (r: String)
    ensures
        r@ == segment_name_spec(i as nat),
{
    let digits = dec_string(i as u64);
    let dlen: usize = digits.as_str().unicode_len();
    let mut name = String::from_str("seg_");
    let mut pad: usize = 0;
    proof {
        assert(zeros(0) =~= Seq::<char>::empty());
        assert(name@ =~= "seg_"@ + zeros(0));
        lemma_dec_chars_value(i as nat);
    }
    while pad + dlen < 6
        invariant
            name@ == "seg_"@ + zeros(pad as nat),
            pad + dlen <= 6 || pad == 0,
        decreases 6 - pad,
    {
        proof {
            reveal_strlit("0");
            assert("0"@ =~= seq!['0']);
            assert(zeros((pad + 1) as nat) =~= zeros(pad as nat) + seq!['0']);
        }
        name.append("0");
        pad += 1;
        proof {
            assert(name@ =~= "seg_"@ + zeros(pad as nat));
        }
    }
    name.append(digits.as_str());
    name.append(".ts");
    proof {
        if dlen < 6 {
            assert(padded6(i as nat) == zeros((6 - dlen) as nat) + dec_chars(i as nat));
            assert(name@ =~= "seg_"@ + padded6(i as nat) + ".ts"@);
        } else {
            assert(pad == 0);
            assert(zeros(0) =~= Seq::<char>::empty());
            assert(padded6(i as nat) == dec_chars(i as nat));
            assert(name@ =~= "seg_"@ + padded6(i as nat) + ".ts"@);
        }
    }
    name
}

/// `s` ends with `p`.
pub open spec fn ends_with(s: Seq<char>, p: Seq<char>) -> bool {
    p.len() <= s.len() && match_at(s, p, s.len() - p.len())
}

/// A directory entry that carries segment payload: a raw or a renamed
/// (still-encrypted) segment file.
pub open spec fn is_payload_name(l: Seq<char>) -> bool {
    ends_with(l, ".ts"@) || ends_with(l, ".encrypted"@)
}

/// The payload-name predicate as a shared value.
pub open spec fn payload_pred() -> spec_fn(Seq<char>) -> bool {
    |l: Seq<char>| is_payload_name(l)
}

/// The name written into the concatenation list: a renamed encrypted file
/// points at its decrypted twin, which carries the same name without the
/// marker extension.
pub open spec fn listed_name(l: Seq<char>) -> Seq<char> {
    if ends_with(l, ".encrypted"@) {
        l.subrange(0, l.len() - ".encrypted"@.len())
    } else {
        l
    }
}

/// The listed-name map as a shared value.
pub open spec fn listed_name_map() -> spec_fn(Seq<char>) -> Seq<char> {
    |l: Seq<char>| listed_name(l)
}

/// The concatenation list built from a working-directory listing: payload
/// names only, sorted lexically, each mapped to the file assembly must read.
pub open spec fn concat_list_spec(names: Seq<Seq<char>>) -> Seq<Seq<char>> {
    names.filter(payload_pred()).sort_by(lex_le_pred()).map_values(listed_name_map())
}

/// Tests whether `s` ends with `p`.
fn ends_with_exec(s: &str, p: &str) -> (r: bool)
    ensures
        r == ends_with(s@, p@),
{
    let n: usize = s.unicode_len();
    let m: usize = p.unicode_len();
    if m > n {
        return false;
    }
    crate::text::is_match_at(s, p, n - m)
}

/// Inserting keeps a sequence's multiset, plus the new element.
proof fn lemma_insert_multiset<A>(s: Seq<A>, pos: int, x: A)
    requires
        0 <= pos <= s.len(),
    ensures
        s.insert(pos, x).to_multiset() == s.to_multiset().insert(x),
{
    broadcast use vstd::seq_lib::group_to_multiset_ensures;

    let left = s.subrange(0, pos);
    let right = s.subrange(pos, s.len() as int);
    assert(s.insert(pos, x) =~= left + seq![x] + right);
    assert(s =~= left + right);
    lemma_multiset_commutative(left + seq![x], right);
    lemma_multiset_commutative(left, seq![x]);
    lemma_multiset_commutative(left, right);
    assert(seq![x].to_multiset() =~= Multiset::<A>::empty().insert(x)) by {
        assert(seq![x].drop_first() =~= Seq::<A>::empty());
    }
    assert(s.insert(pos, x).to_multiset() =~= s.to_multiset().insert(x));
}

/// Sorts names lexically by their character sequences.
#[verifier::loop_isolation(false)]
pub fn sort_names(v: Vec<String>) -> (r: Vec<String>)
    ensures
        sorted_by(r.deep_view(), lex_le_pred()),
        r.deep_view().to_multiset() == v.deep_view().to_multiset(),
{
    broadcast use vstd::seq_lib::group_to_multiset_ensures;

    let ghost src_dv = v.deep_view();
    let mut out: Vec<String> = Vec::new();
    let mut i: usize = 0;
    proof {
        assert(out.deep_view() =~= Seq::<Seq<char>>::empty());
        assert(src_dv.subrange(0, 0) =~= Seq::<Seq<char>>::empty());
        assert(out.deep_view().to_multiset() =~= src_dv.subrange(0, 0).to_multiset());
    }
    while i < v.len()
        invariant
            src_dv == v.deep_view(),
            src_dv.len() == v.len(),
            0 <= i <= v.len(),
            sorted_by(out.deep_view(), lex_le_pred()),
            out.deep_view().to_multiset() == src_dv.subrange(0, i as int).to_multiset(),
        decreases v.len() - i,
    {
        let x = v[i].clone();
        let ghost xv = x@;
        proof {
            assert(src_dv[i as int] == xv);
        }
        let mut pos: usize = 0;
        while pos < out.len() && str_lex_le(out[pos].as_str(), x.as_str())
            invariant
                0 <= pos <= out.len(),
                out.deep_view().len() == out.len(),
                forall|k: int| 0 <= k < pos ==> lex_le(#[trigger] out.deep_view()[k], xv),
            decreases out.len() - pos,
        {
            pos += 1;
        }
        let ghost before = out.deep_view();
        out.insert(pos, x);
        proof {
            let after = out.deep_view();
            assert(after =~= before.insert(pos as int, xv)) by {
                before.insert_ensures(pos as int, xv);
                assert(forall|k: int|
                    0 <= k < after.len() ==> after[k] == #[trigger] out@[k].deep_view());
            }
            before.insert_ensures(pos as int, xv);
            if pos < before.len() {
                lemma_lex_connected(before[pos as int], xv);
                assert(lex_le(xv, before[pos as int]));
            }
            assert(sorted_by(after, lex_le_pred())) by {
                assert forall|a: int, b: int| 0 <= a < b < after.len() implies lex_le_pred()(
                    after[a],
                    after[b],
                ) by {
                    if a < pos && b < pos {
                    } else if a < pos && b == pos {
                        assert(after[a] == before[a] && after[b] == xv);
                    } else if a < pos && b > pos {
                        assert(after[a] == before[a] && after[b] == before[b - 1]);
                    } else if a == pos && b > pos {
                        assert(after[a] == xv && after[b] == before[b - 1]);
                        if b - 1 > pos {
                            assert(lex_le_pred()(before[pos as int], before[b - 1]));
                            lemma_lex_trans(xv, before[pos as int], before[b - 1]);
                        }
                    } else {
                        assert(after[a] == before[a - 1] && after[b] == before[b - 1]);
                    }
                }
            }
            lemma_insert_multiset(before, pos as int, xv);
            assert(src_dv.subrange(0, i + 1).drop_last() =~= src_dv.subrange(0, i as int));
            assert(src_dv.subrange(0, i + 1) =~= src_dv.subrange(0, i as int).push(xv));
            assert(after.to_multiset() =~= src_dv.subrange(0, i + 1).to_multiset());
        }
        i += 1;
    }
    proof {
        assert(src_dv.subrange(0, src_dv.len() as int) =~= src_dv);
    }
    out
}

/// Builds the concatenation list from a working-directory listing, as
/// `concat_list_spec` describes: payload files only, in lexical order,
/// decrypted names preferred over their encrypted twins.
#[verifier::loop_isolation(false)]
pub fn build_concat_list(names: &Vec<String>) -> (r: Vec<String>)
    ensures
        r.deep_view() == concat_list_spec(names.deep_view()),
{
    broadcast use {vstd::seq_lib::group_filter_ensures, Seq::lemma_filter_push};

    let ghost all = names.deep_view();
    let mut kept: Vec<String> = Vec::new();
    let mut i: usize = 0;
    proof {
        assert(kept.deep_view() =~= Seq::<Seq<char>>::empty());
        assert(all.subrange(0, 0) =~= Seq::<Seq<char>>::empty());
        assert(kept.deep_view() =~= all.subrange(0, 0).filter(payload_pred()));
    }
    while i < names.len()
        invariant
            all == names.deep_view(),
            all.len() == names.len(),
            0 <= i <= names.len(),
            kept.deep_view() == all.subrange(0, i as int).filter(payload_pred()),
        decreases names.len() - i,
    {
        let name = &names[i];
        let hit = ends_with_exec(name.as_str(), ".ts") || ends_with_exec(
            name.as_str(),
            ".encrypted",
        );
        let ghost kept_prev = kept.deep_view();
        proof {
            assert(all.subrange(0, i + 1) =~= all.subrange(0, i as int).push(all[i as int]));
            assert(all[i as int] == name@);
        }
        if hit {
            kept.push(name.clone());
            proof {
                assert(kept.deep_view() =~= kept_prev.push(name@));
            }
        }
        i += 1;
    }
    proof {
        assert(all.subrange(0, all.len() as int) =~= all);
    }
    let ghost kept_dv = kept.deep_view();
    let sorted = sort_names(kept);
    proof {
        lemma_lex_total_ordering();
        kept_dv.lemma_sort_by_ensures(lex_le_pred());
        lemma_sorted_unique(
            sorted.deep_view(),
            kept_dv.sort_by(lex_le_pred()),
            lex_le_pred(),
        );
    }
    let ghost sorted_dv = sorted.deep_view();
    let mut out: Vec<String> = Vec::new();
    let mut k: usize = 0;
    proof {
        assert(out.deep_view() =~= Seq::<Seq<char>>::empty());
        assert(sorted_dv.subrange(0, 0) =~= Seq::<Seq<char>>::empty());
        assert(out.deep_view() =~= sorted_dv.subrange(0, 0).map_values(listed_name_map()));
    }
    while k < sorted.len()
        invariant
            sorted_dv == sorted.deep_view(),
            sorted_dv.len() == sorted.len(),
            0 <= k <= sorted.len(),
            out.deep_view() == sorted_dv.subrange(0, k as int).map_values(listed_name_map()),
        decreases sorted.len() - k,
    {
        let name = &sorted[k];
        let ghost out_prev = out.deep_view();
        let listed = if ends_with_exec(name.as_str(), ".encrypted") {
            proof {
                reveal_strlit(".encrypted");
            }
            let n: usize = name.as_str().unicode_len();
            name.as_str().substring_char(0, n - 10).to_owned()
        } else {
            name.clone()
        };
        proof {
            assert(listed@ == listed_name(name@));
        }
        out.push(listed);
        proof {
            assert(sorted_dv.subrange(0, k + 1) =~= sorted_dv.subrange(0, k as int).push(
                sorted_dv[k as int],
            ));
            assert(sorted_dv[k as int] == name@);
            assert(out.deep_view() =~= out_prev.push(listed_name(name@)));
            assert(sorted_dv.subrange(0, k + 1).map_values(listed_name_map()) =~= sorted_dv
                .subrange(0, k as int).map_values(listed_name_map()).push(
                listed_name(name@),
            ));
        }
        k += 1;
    }
    proof {
        assert(sorted_dv.subrange(0, sorted_dv.len() as int) =~= sorted_dv);
    }
    out
}

/// Removing one element removes its contribution to the filtered multiset.
proof fn lemma_filter_remove<A>(s: Seq<A>, i: int, p: spec_fn(A) -> bool)
    requires
        0 <= i < s.len(),
    ensures
        s.filter(p).to_multiset() == if p(s[i]) {
            s.remove(i).filter(p).to_multiset().insert(s[i])
        } else {
            s.remove(i).filter(p).to_multiset()
        },
    decreases s.len(),
{
    broadcast use {
        vstd::seq_lib::group_to_multiset_ensures,
        vstd::seq_lib::group_filter_ensures,
        Seq::lemma_filter_push,
    };

    if i == s.len() - 1 {
        assert(s =~= s.remove(i).push(s[i]));
        if p(s[i]) {
            assert(s.filter(p) == s.remove(i).filter(p).push(s[i]));
            assert(s.filter(p).to_multiset() =~= s.remove(i).filter(p).to_multiset().insert(
                s[i],
            ));
        }
    } else {
        let last = s.last();
        let front = s.drop_last();
        assert(s =~= front.push(last));
        lemma_filter_remove(front, i, p);
        assert(s.remove(i) =~= front.remove(i).push(last));
        assert(s.filter(p) == if p(last) {
            front.filter(p).push(last)
        } else {
            front.filter(p)
        });
        assert(s.remove(i).filter(p) == if p(last) {
            front.remove(i).filter(p).push(last)
        } else {
            front.remove(i).filter(p)
        });
        if p(last) {
            assert(s.filter(p).to_multiset() =~= front.filter(p).to_multiset().insert(last));
            assert(s.remove(i).filter(p).to_multiset() =~= front.remove(i).filter(
                p,
            ).to_multiset().insert(last));
        }
        if p(s[i]) {
            assert(s.filter(p).to_multiset() =~= s.remove(i).filter(p).to_multiset().insert(
                s[i],
            ));
        } else {
            assert(s.filter(p).to_multiset() =~= s.remove(i).filter(p).to_multiset());
        }
    }
}

/// Sequences with the same elements have the same elements after filtering.
proof fn lemma_filter_multiset<A>(xs: Seq<A>, ys: Seq<A>, p: spec_fn(A) -> bool)
    requires
        xs.to_multiset() == ys.to_multiset(),
    ensures
        xs.filter(p).to_multiset() == ys.filter(p).to_multiset(),
    decreases xs.len(),
{
    broadcast use {
        vstd::seq_lib::group_to_multiset_ensures,
        vstd::seq_lib::group_filter_ensures,
        Seq::lemma_filter_push,
    };

    if xs.len() == 0 {
        assert(ys.to_multiset().len() == 0);
        assert(ys.len() == 0);
        assert(xs =~= ys);
    } else {
        let x = xs.last();
        let front = xs.drop_last();
        assert(xs =~= front.push(x));
        assert(xs.to_multiset().count(x) > 0);
        assert(ys.to_multiset().count(x) > 0);
        assert(ys.contains(x));
        let i = choose|i: int| 0 <= i < ys.len() && ys[i] == x;
        let ys2 = ys.remove(i);
        assert(front.to_multiset() =~= ys2.to_multiset()) by {
            assert(xs.to_multiset() =~= front.to_multiset().insert(x));
            assert(ys2.to_multiset() =~= ys.to_multiset().remove(x));
            assert(front.to_multiset() =~= xs.to_multiset().remove(x));
        }
        lemma_filter_multiset(front, ys2, p);
        lemma_filter_remove(ys, i, p);
        if p(x) {
            assert(xs.filter(p) == front.filter(p).push(x));
            assert(xs.filter(p).to_multiset() =~= front.filter(p).to_multiset().insert(x));
        }
    }
}

/// Law: the concatenation list is invariant under segment completion order.
/// Two working-directory listings that hold the same file names — however
/// the finished segments happened to land — yield the same concatenation
/// list, byte for byte.
pub proof fn lemma_concat_list_completion_order(xs: Seq<Seq<char>>, ys: Seq<Seq<char>>)
    requires
        xs.to_multiset() == ys.to_multiset(),
    ensures
        concat_list_spec(xs) == concat_list_spec(ys),
{
    lemma_filter_multiset(xs, ys, payload_pred());
    lemma_lex_total_ordering();
    xs.filter(payload_pred()).lemma_sort_by_ensures(lex_le_pred());
    ys.filter(payload_pred()).lemma_sort_by_ensures(lex_le_pred());
    lemma_sorted_unique(
        xs.filter(payload_pred()).sort_by(lex_le_pred()),
        ys.filter(payload_pred()).sort_by(lex_le_pred()),
        lex_le_pred(),
    );
}

/// What filename sanitizing returns for a display name: a function of the
/// name alone, with the platform-unsafe characters removed or replaced.
pub uninterp spec fn sanitized_of(name: Seq<char>) -> Seq<char>;

/// Relies on sanitize_filename::sanitize_with_options, with the options
/// fixed (the strict cross-platform rules, truncation on, dropped
/// characters unreplaced) so that the result depends on the input name
/// alone on every machine.
#[verifier::external_body]
fn sanitize_name(name: &str) -> (r: String)
    ensures
        r@ == sanitized_of(name@),
{
    sanitize_filename::sanitize_with_options(
        name,
        sanitize_filename::Options { windows: true, truncate: true, replacement: "" },
    )
}

/// The deterministic output location of one finished episode: the sanitized
/// display name as the directory, and the episode number with the container
/// extension as the file name.
pub fn output_paths(anime_name: &str, episode: u32) -> (r: (String, String))
    ensures
        r.0@ == sanitized_of(anime_name@),
        r.1@ == dec_chars(episode as nat) + ".mp4"@,
{
    let dir = sanitize_name(anime_name);
    let mut file = dec_string(episode as u64);
    proof {
        reveal_strlit(".mp4");
    }
    file.append(".mp4");
    (dir, file)
}

/// The working-directory name of one episode's in-flight job.
pub fn work_dir_name(episode: u32) -> (r: String)
    ensures
        r@ == dec_chars(episode as nat) + "_work"@,
{
    let mut out = dec_string(episode as u64);
    proof {
        reveal_strlit("_work");
    }
    out.append("_work");
    out
}

/// One line of the concatenation list handed to the external tool.
pub open spec fn list_line(dir_prefix: Seq<char>, name: Seq<char>) -> Seq<char> {
    "file '"@ + dir_prefix + name + "'\n"@
}

/// The full text of the concatenation list: one line per listed name, each
/// naming the file under the working directory prefix.
pub open spec fn list_text(dir_prefix: Seq<char>, names: Seq<Seq<char>>) -> Seq<char>
    decreases names.len(),
{
    if names.len() == 0 {
        Seq::empty()
    } else {
        list_text(dir_prefix, names.drop_last()) + list_line(dir_prefix, names.last())
    }
}

/// Renders the concatenation list, as `list_text` describes.
#[verifier::loop_isolation(false)]
pub fn concat_list_file_text(dir_prefix: &str, names: &Vec<String>) -> (r: String)
    ensures
        r@ == list_text(dir_prefix@, names.deep_view()),
{
    let ghost all = names.deep_view();
    let mut out = String::new();
    let mut k: usize = 0;
    proof {
        assert(all.len() == names@.len());
        assert(all.subrange(0, 0) =~= Seq::<Seq<char>>::empty());
        assert(out@ =~= list_text(dir_prefix@, all.subrange(0, 0)));
    }
    while k < names.len()
        invariant
            0 <= k <= names.len(),
            out@ == list_text(dir_prefix@, all.subrange(0, k as int)),
        decreases names.len() - k,
    {
        proof {
            reveal_strlit("file '");
            reveal_strlit("'\n");
        }
        out.append("file '");
        out.append(dir_prefix);
        out.append(names[k].as_str());
        out.append("'\n");
        proof {
            assert(all[k as int] == names@[k as int].deep_view());
            assert(all.subrange(0, k + 1).drop_last() =~= all.subrange(0, k as int));
            assert(all.subrange(0, k + 1).last() == all[k as int]);
            assert(out@ =~= list_text(dir_prefix@, all.subrange(0, k + 1)));
        }
        k += 1;
    }
    proof {
        assert(all.subrange(0, all.len() as int) =~= all);
    }
    out
}

} // verus!
