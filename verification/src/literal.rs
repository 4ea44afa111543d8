//! Recognition of numeric literals.
//!
//! Every numeric value in the language is written as a double-precision
//! literal, and the lexer must decide whether a multi-character token is
//! one.  The grammar recognized here is the one the standard library
//! documents for reading an `f64` out of a string:
//!
//! ```text
//! Float  ::= Sign? ( 'inf' | 'infinity' | 'nan' | Number )
//! Number ::= ( Digit+ | Digit+ '.' Digit* | Digit* '.' Digit+ ) Exp?
//! Exp    ::= ('e' | 'E') Sign? Digit+
//! Sign   ::= '+' | '-'
//! Digit  ::= '0' ..= '9'
//! ```
//!
//! with `inf`, `infinity` and `nan` matched regardless of case.  The
//! library never computes the numeric value of a literal; it only vouches
//! that the text is well formed, so that whoever renders the result can
//! read the value back without failing.

use vstd::prelude::*;

verus! {

/// A decimal digit.
pub open spec fn is_digit(c: char) -> bool {
    '0' <= c && c <= '9'
}

/// A sign character.
pub open spec fn is_sign(c: char) -> bool {
    c == '+' || c == '-'
}

/// The text with a single leading sign, if any, removed.
pub open spec fn strip_sign(s: Seq<char>) -> Seq<char> {
    if s.len() > 0 && is_sign(s[0]) {
        s.subrange(1, s.len() as int)
    } else {
        s
    }
}

/// Character `c` is the letter `lo`, in either case (`up` is its upper-case
/// form).
pub open spec fn letter_ci(c: char, lo: char, up: char) -> bool {
    c == lo || c == up
}

/// The text spells `inf`, regardless of case.
pub open spec fn is_inf(s: Seq<char>) -> bool {
    s.len() == 3 && letter_ci(s[0], 'i', 'I') && letter_ci(s[1], 'n', 'N') && letter_ci(
        s[2],
        'f',
        'F',
    )
}

/// The text spells `infinity`, regardless of case.
pub open spec fn is_infinity(s: Seq<char>) -> bool {
    s.len() == 8 && letter_ci(s[0], 'i', 'I') && letter_ci(s[1], 'n', 'N') && letter_ci(
        s[2],
        'f',
        'F',
    ) && letter_ci(s[3], 'i', 'I') && letter_ci(s[4], 'n', 'N') && letter_ci(s[5], 'i', 'I')
        && letter_ci(s[6], 't', 'T') && letter_ci(s[7], 'y', 'Y')
}

/// The text spells `nan`, regardless of case.
pub open spec fn is_nan(s: Seq<char>) -> bool {
    s.len() == 3 && letter_ci(s[0], 'n', 'N') && letter_ci(s[1], 'a', 'A') && letter_ci(
        s[2],
        'n',
        'N',
    )
}

/// Every character of the text is a decimal digit.
pub open spec fn all_digits(s: Seq<char>) -> bool {
    forall|i: int| 0 <= i < s.len() ==> is_digit(#[trigger] s[i])
}

/// The first position at or after `i` holding `a` or `b`, or the length of
/// the text when neither occurs.
pub open spec fn first_index(s: Seq<char>, i: int, a: char, b: char) -> int
    decreases s.len() - i
        when 0 <= i <= s.len()
{
    if i >= s.len() {
        s.len() as int
    } else if s[i] == a || s[i] == b {
        i
    } else {
        first_index(s, i + 1, a, b)
    }
}

/// The mantissa of a number: digits, with at most one decimal point and at
/// least one digit somewhere.
pub open spec fn is_mantissa(s: Seq<char>) -> bool {
    let d = first_index(s, 0, '.', '.');
    if d == s.len() {
        s.len() > 0 && all_digits(s)
    } else {
        s.len() > 1 && all_digits(s.subrange(0, d)) && all_digits(
            s.subrange(d + 1, s.len() as int),
        )
    }
}

/// An exponent part, leading `e` or `E` included: an optionally signed,
/// non-empty run of digits.
pub open spec fn is_exponent(s: Seq<char>) -> bool {
    s.len() >= 2 && (s[0] == 'e' || s[0] == 'E') && {
        let t = strip_sign(s.subrange(1, s.len() as int));
        t.len() > 0 && all_digits(t)
    }
}

/// A decimal number: a mantissa, optionally followed by an exponent part.
pub open spec fn is_number(s: Seq<char>) -> bool {
    let e = first_index(s, 0, 'e', 'E');
    is_mantissa(s.subrange(0, e)) && (e == s.len() || is_exponent(s.subrange(e, s.len() as int)))
}

/// The whole literal grammar: an optional sign, then one of the named
/// non-finite forms or a decimal number.
pub open spec fn is_float_literal(s: Seq<char>) -> bool {
    let t = strip_sign(s);
    is_inf(t) || is_infinity(t) || is_nan(t) || is_number(t)
}

/// Decides whether `c` is a decimal digit.
pub fn digit(c: char) -> (r: bool)
    ensures
        r == is_digit(c),
{
    '0' <= c && c <= '9'
}

/// Copies the text of a literal.
pub(crate) fn copy_chars(w: &Vec<char>) -> (r: Vec<char>)
    ensures
        r@ == w@,
{
    let mut r: Vec<char> = Vec::new();
    let mut j: usize = 0;
    proof {
        assert(r@ =~= w@.subrange(0, 0));
    }
    while j < w.len()
        invariant
            j <= w@.len(),
            r@ == w@.subrange(0, j as int),
        decreases w@.len() - j,
    {
        r.push(w[j]);
        proof {
            assert(r@ =~= w@.subrange(0, j + 1));
        }
        j = j + 1;
    }
    proof {
        assert(r@ =~= w@);
    }
    r
}

/// Finds, within `w[lo..hi]`, the first occurrence of `a` or `b`, as an
/// absolute position; `hi` when neither occurs.
fn find_char(w: &Vec<char>, lo: usize, hi: usize, a: char, b: char) -> (r: usize)
    requires
        lo <= hi <= w@.len(),
    ensures
        lo <= r <= hi,
        r - lo == first_index(w@.subrange(lo as int, hi as int), 0, a, b),
{
    let ghost sub = w@.subrange(lo as int, hi as int);
    let mut j = lo;
    while j < hi
        invariant
            lo <= j <= hi <= w@.len(),
            sub == w@.subrange(lo as int, hi as int),
            first_index(sub, 0, a, b) == first_index(sub, j - lo, a, b),
        decreases hi - j,
    {
        if w[j] == a || w[j] == b {
            assert(sub[j - lo] == w@[j as int]);
            assert(first_index(sub, j - lo, a, b) == j - lo);
            return j;
        }
        assert(sub[j - lo] == w@[j as int]);
        assert(first_index(sub, j - lo, a, b) == first_index(sub, j + 1 - lo, a, b));
        j = j + 1;
    }
    assert(first_index(sub, j - lo, a, b) == sub.len());
    hi
}

/// Decides whether every character of `w[lo..hi]` is a decimal digit.
fn digits_only(w: &Vec<char>, lo: usize, hi: usize) -> (r: bool)
    requires
        lo <= hi <= w@.len(),
    ensures
        r == all_digits(w@.subrange(lo as int, hi as int)),
{
    let ghost sub = w@.subrange(lo as int, hi as int);
    let mut j = lo;
    while j < hi
        invariant
            lo <= j <= hi <= w@.len(),
            sub == w@.subrange(lo as int, hi as int),
            forall|k: int| 0 <= k < j - lo ==> is_digit(#[trigger] sub[k]),
        decreases hi - j,
    {
        if !digit(w[j]) {
            assert(sub[j - lo] == w@[j as int]);
            return false;
        }
        assert(sub[j - lo] == w@[j as int]);
        j = j + 1;
    }
    true
}

/// Decides whether `w[lo..hi]` is a mantissa.
fn check_mantissa(w: &Vec<char>, lo: usize, hi: usize) -> (r: bool)
    requires
        lo <= hi <= w@.len(),
    ensures
        r == is_mantissa(w@.subrange(lo as int, hi as int)),
{
    let ghost sub = w@.subrange(lo as int, hi as int);
    let d = find_char(w, lo, hi, '.', '.');
    if d == hi {
        assert(first_index(sub, 0, '.', '.') == sub.len());
        hi > lo && digits_only(w, lo, hi)
    } else {
        assert(w@.subrange(lo as int, d as int) =~= sub.subrange(0, d - lo));
        assert(w@.subrange(d + 1 as int, hi as int) =~= sub.subrange(d + 1 - lo, sub.len() as int));
        hi - lo > 1 && digits_only(w, lo, d) && digits_only(w, d + 1, hi)
    }
}

/// Decides whether `w[lo..hi]` is an exponent part, leading `e` or `E`
/// included.
fn check_exponent(w: &Vec<char>, lo: usize, hi: usize) -> (r: bool)
    requires
        lo <= hi <= w@.len(),
    ensures
        r == is_exponent(w@.subrange(lo as int, hi as int)),
{
    let ghost sub = w@.subrange(lo as int, hi as int);
    if hi - lo < 2 {
        return false;
    }
    assert(sub[0] == w@[lo as int]);
    if !(w[lo] == 'e' || w[lo] == 'E') {
        return false;
    }
    let start = if w[lo + 1] == '+' || w[lo + 1] == '-' {
        lo + 2
    } else {
        lo + 1
    };
    proof {
        let body = sub.subrange(1, sub.len() as int);
        assert(body[0] == w@[lo + 1]);
        assert(strip_sign(body) =~= w@.subrange(start as int, hi as int));
    }
    start < hi && digits_only(w, start, hi)
}

/// Decides whether `w[lo..hi]` is a decimal number (mantissa and optional
/// exponent).
fn check_number(w: &Vec<char>, lo: usize, hi: usize) -> (r: bool)
    requires
        lo <= hi <= w@.len(),
    ensures
        r == is_number(w@.subrange(lo as int, hi as int)),
{
    let ghost sub = w@.subrange(lo as int, hi as int);
    let e = find_char(w, lo, hi, 'e', 'E');
    assert(w@.subrange(lo as int, e as int) =~= sub.subrange(0, e - lo));
    if !check_mantissa(w, lo, e) {
        return false;
    }
    if e == hi {
        return true;
    }
    assert(w@.subrange(e as int, hi as int) =~= sub.subrange(e - lo, sub.len() as int));
    check_exponent(w, e, hi)
}

/// Decides whether the whole of `w` is a well-formed double-precision
/// literal.
pub fn check_float_literal(w: &Vec<char>) -> (r: bool)
    ensures
        r == is_float_literal(w@),
{
    let n = w.len();
    let start = if n > 0 && (w[0] == '+' || w[0] == '-') {
        1
    } else {
        0
    };
    let ghost t = strip_sign(w@);
    proof {
        assert(t =~= w@.subrange(start as int, n as int));
    }
    let m = n - start;
    if m == 3 {
        let c0 = w[start];
        let c1 = w[start + 1];
        let c2 = w[start + 2];
        proof {
            assert(t[0] == w@[start as int]);
            assert(t[1] == w@[start + 1]);
            assert(t[2] == w@[start + 2]);
        }
        if (c0 == 'i' || c0 == 'I') && (c1 == 'n' || c1 == 'N') && (c2 == 'f' || c2 == 'F') {
            return true;
        }
        if (c0 == 'n' || c0 == 'N') && (c1 == 'a' || c1 == 'A') && (c2 == 'n' || c2 == 'N') {
            return true;
        }
    }
    if m == 8 {
        let c0 = w[start];
        let c1 = w[start + 1];
        let c2 = w[start + 2];
        let c3 = w[start + 3];
        let c4 = w[start + 4];
        let c5 = w[start + 5];
        let c6 = w[start + 6];
        let c7 = w[start + 7];
        proof {
            assert(t[0] == w@[start as int]);
            assert(t[1] == w@[start + 1]);
            assert(t[2] == w@[start + 2]);
            assert(t[3] == w@[start + 3]);
            assert(t[4] == w@[start + 4]);
            assert(t[5] == w@[start + 5]);
            assert(t[6] == w@[start + 6]);
            assert(t[7] == w@[start + 7]);
        }
        if (c0 == 'i' || c0 == 'I') && (c1 == 'n' || c1 == 'N') && (c2 == 'f' || c2 == 'F') && (c3
            == 'i' || c3 == 'I') && (c4 == 'n' || c4 == 'N') && (c5 == 'i' || c5 == 'I') && (c6
            == 't' || c6 == 'T') && (c7 == 'y' || c7 == 'Y') {
            return true;
        }
    }
    check_number(w, start, n)
}

} // verus!
