//! The grammar of a decimal floating-point literal, as `f64::from_str`
//! accepts it:
//!
//! ```text
//! Float  ::= Sign? ( 'inf' | 'infinity' | 'nan' | Number )
//! Number ::= ( Digit+ | Digit+ '.' Digit* | Digit* '.' Digit+ ) Exp?
//! Exp    ::= 'e' Sign? Digit+
//! Sign   ::= [+-]
//! Digit  ::= [0-9]
//! ```
//!
//! Letters match in either case. Nothing else, surrounding white space
//! included, is a number.
use vstd::prelude::*;
use crate::text::{chars_of, is_white_space};

verus! {

pub open spec fn is_digit(c: char) -> bool {
    '0' <= c && c <= '9'
}

pub open spec fn is_sign(c: char) -> bool {
    c == '+' || c == '-'
}

pub open spec fn is_exp_mark(c: char) -> bool {
    c == 'e' || c == 'E'
}

/// One or more digits.
pub open spec fn is_digits(s: Seq<char>) -> bool {
    s.len() > 0 && forall|i: int| 0 <= i < s.len() ==> is_digit(#[trigger] s[i])
}

/// Digits with at most one point among them, and at least one digit.
pub open spec fn is_mantissa(s: Seq<char>) -> bool {
    &&& forall|i: int| 0 <= i < s.len() ==> is_digit(#[trigger] s[i]) || s[i] == '.'
    &&& forall|i: int, j: int|
        0 <= i < j < s.len() && #[trigger] s[i] == '.' ==> #[trigger] s[j] != '.'
    &&& exists|i: int| 0 <= i < s.len() && is_digit(#[trigger] s[i])
}

/// What follows the exponent mark: an optional sign, then digits.
pub open spec fn is_exponent(s: Seq<char>) -> bool {
    if s.len() > 0 && is_sign(s[0]) {
        is_digits(s.drop_first())
    } else {
        is_digits(s)
    }
}

/// A mantissa, optionally followed by an exponent mark and an exponent.
pub open spec fn is_number(s: Seq<char>) -> bool {
    ||| (forall|i: int| 0 <= i < s.len() ==> !is_exp_mark(#[trigger] s[i])) && is_mantissa(s)
    ||| exists|k: int|
        0 <= k < s.len() && is_exp_mark(#[trigger] s[k]) && is_mantissa(s.take(k))
            && is_exponent(s.skip(k + 1))
}

pub open spec fn either_case(c: char, lower: char, upper: char) -> bool {
    c == lower || c == upper
}

pub open spec fn is_inf_word(s: Seq<char>) -> bool {
    s.len() == 3 && either_case(s[0], 'i', 'I') && either_case(s[1], 'n', 'N') && either_case(
        s[2],
        'f',
        'F',
    )
}

pub open spec fn is_infinity_word(s: Seq<char>) -> bool {
    &&& s.len() == 8
    &&& either_case(s[0], 'i', 'I') && either_case(s[1], 'n', 'N') && either_case(s[2], 'f', 'F')
    &&& either_case(s[3], 'i', 'I') && either_case(s[4], 'n', 'N') && either_case(s[5], 'i', 'I')
    &&& either_case(s[6], 't', 'T') && either_case(s[7], 'y', 'Y')
}

pub open spec fn is_nan_word(s: Seq<char>) -> bool {
    s.len() == 3 && either_case(s[0], 'n', 'N') && either_case(s[1], 'a', 'A') && either_case(
        s[2],
        'n',
        'N',
    )
}

/// `s` without its leading sign, if it has one.
pub open spec fn unsigned_part(s: Seq<char>) -> Seq<char> {
    if s.len() > 0 && is_sign(s[0]) {
        s.drop_first()
    } else {
        s
    }
}

/// Whether `s` is a floating-point literal.
pub open spec fn is_float_literal(s: Seq<char>) -> bool {
    let u = unsigned_part(s);
    is_inf_word(u) || is_infinity_word(u) || is_nan_word(u) || is_number(u)
}

fn digit(c: char) -> (r: bool)
    ensures
        r == is_digit(c),
{
    '0' <= c && c <= '9'
}

fn sign(c: char) -> (r: bool)
    ensures
        r == is_sign(c),
{
    c == '+' || c == '-'
}

fn exp_mark(c: char) -> (r: bool)
    ensures
        r == is_exp_mark(c),
{
    c == 'e' || c == 'E'
}

fn digits_in(v: &Vec<char>, lo: usize, hi: usize) -> (r: bool)
    requires
        lo <= hi <= v@.len(),
    ensures
        r == is_digits(v@.subrange(lo as int, hi as int)),
{
    if lo == hi {
        return false;
    }
    let mut i = lo;
    while i < hi
        invariant
            lo <= i <= hi <= v@.len(),
            forall|k: int| lo <= k < i ==> is_digit(v@[k]),
        decreases hi - i,
    {
        if !digit(v[i]) {
            assert(!is_digit(v@.subrange(lo as int, hi as int)[i - lo]));
            return false;
        }
        i = i + 1;
    }
    proof {
        let s = v@.subrange(lo as int, hi as int);
        assert forall|k: int| 0 <= k < s.len() implies is_digit(#[trigger] s[k]) by {
            assert(s[k] == v@[lo + k]);
        }
    }
    true
}

fn mantissa_in(v: &Vec<char>, lo: usize, hi: usize) -> (r: bool)
    requires
        lo <= hi <= v@.len(),
    ensures
        r == is_mantissa(v@.subrange(lo as int, hi as int)),
{
    let ghost s = v@.subrange(lo as int, hi as int);
    let mut seen_point = false;
    let mut seen_digit = false;
    let mut i = lo;
    while i < hi
        invariant
            lo <= i <= hi <= v@.len(),
            s == v@.subrange(lo as int, hi as int),
            forall|k: int| lo <= k < i ==> is_digit(v@[k]) || v@[k] == '.',
            forall|a: int, b: int| lo <= a < b < i && v@[a] == '.' ==> v@[b] != '.',
            seen_point == exists|k: int| lo <= k < i && v@[k] == '.',
            seen_digit == exists|k: int| lo <= k < i && is_digit(v@[k]),
        decreases hi - i,
    {
        let c = v[i];
        if digit(c) {
            seen_digit = true;
        } else if c == '.' {
            if seen_point {
                proof {
                    let a = choose|k: int| lo <= k < i && v@[k] == '.';
                    assert(s[a - lo] == '.' && s[i - lo] == '.');
                }
                return false;
            }
            seen_point = true;
        } else {
            assert(!(is_digit(s[i - lo]) || s[i - lo] == '.'));
            return false;
        }
        i = i + 1;
    }
    proof {
        assert forall|k: int| 0 <= k < s.len() implies is_digit(#[trigger] s[k]) || s[k] == '.' by {
            assert(s[k] == v@[lo + k]);
        }
        assert forall|a: int, b: int|
            0 <= a < b < s.len() && #[trigger] s[a] == '.' implies #[trigger] s[b] != '.' by {
            assert(s[a] == v@[lo + a] && s[b] == v@[lo + b]);
        }
        if seen_digit {
            let k = choose|k: int| lo <= k < i && is_digit(v@[k]);
            assert(is_digit(s[k - lo]));
        } else {
            assert forall|k: int| 0 <= k < s.len() implies !is_digit(#[trigger] s[k]) by {
                assert(s[k] == v@[lo + k]);
            }
        }
    }
    seen_digit
}

fn exponent_in(v: &Vec<char>, lo: usize, hi: usize) -> (r: bool)
    requires
        lo <= hi <= v@.len(),
    ensures
        r == is_exponent(v@.subrange(lo as int, hi as int)),
{
    let ghost s = v@.subrange(lo as int, hi as int);
    if lo < hi && sign(v[lo]) {
        assert(s.drop_first() =~= v@.subrange(lo + 1, hi as int));
        digits_in(v, lo + 1, hi)
    } else {
        digits_in(v, lo, hi)
    }
}

fn number_in(v: &Vec<char>, lo: usize, hi: usize) -> (r: bool)
    requires
        lo <= hi <= v@.len(),
    ensures
        r == is_number(v@.subrange(lo as int, hi as int)),
{
    let ghost s = v@.subrange(lo as int, hi as int);
    let mut k = lo;
    while k < hi && !exp_mark(v[k])
        invariant
            lo <= k <= hi <= v@.len(),
            forall|j: int| lo <= j < k ==> !is_exp_mark(v@[j]),
        decreases hi - k,
    {
        k = k + 1;
    }
    if k == hi {
        assert forall|i: int| 0 <= i < s.len() implies !is_exp_mark(#[trigger] s[i]) by {
            assert(s[i] == v@[lo + i]);
        }
        mantissa_in(v, lo, hi)
    } else {
        let ghost m = k - lo;
        assert(is_exp_mark(s[m]));
        assert(s.take(m) =~= v@.subrange(lo as int, k as int));
        assert(s.skip(m + 1) =~= v@.subrange(k + 1, hi as int));
        let r = mantissa_in(v, lo, k) && exponent_in(v, k + 1, hi);
        proof {
            if !r {
                assert forall|j: int|
                    0 <= j < s.len() && is_exp_mark(#[trigger] s[j]) implies !(is_mantissa(
                    s.take(j))) || !is_exponent(s.skip(j + 1)) by {
                    assert(s[j] == v@[lo + j]);
                    if j > m {
                        assert(s.take(j)[m] == s[m]);
                    } else {
                        assert(j == m);
                    }
                }
            }
        }
        r
    }
}

fn word_in(v: &Vec<char>, lo: usize, hi: usize) -> (r: bool)
    requires
        lo <= hi <= v@.len(),
    ensures
        r == (is_inf_word(v@.subrange(lo as int, hi as int)) || is_infinity_word(
            v@.subrange(lo as int, hi as int),
        ) || is_nan_word(v@.subrange(lo as int, hi as int))),
{
    let n = hi - lo;
    if n == 3 {
        let (a, b, c) = (v[lo], v[lo + 1], v[lo + 2]);
        ((a == 'i' || a == 'I') && (b == 'n' || b == 'N') && (c == 'f' || c == 'F')) || ((a == 'n'
            || a == 'N') && (b == 'a' || b == 'A') && (c == 'n' || c == 'N'))
    } else if n == 8 {
        let (a, b, c, d) = (v[lo], v[lo + 1], v[lo + 2], v[lo + 3]);
        let (e, f, g, h) = (v[lo + 4], v[lo + 5], v[lo + 6], v[lo + 7]);
        (a == 'i' || a == 'I') && (b == 'n' || b == 'N') && (c == 'f' || c == 'F') && (d == 'i'
            || d == 'I') && (e == 'n' || e == 'N') && (f == 'i' || f == 'I') && (g == 't' || g
            == 'T') && (h == 'y' || h == 'Y')
    } else {
        false
    }
}

/// Whether `s` is a floating-point literal: exactly the strings that
/// `f64::from_str` parses.
pub fn is_float_text(s: &str) -> (r: bool)
    ensures
        r == is_float_literal(s@),
{
    let v = chars_of(s);
    let n = v.len();
    let lo: usize = if n > 0 && sign(v[0]) {
        1
    } else {
        0
    };
    assert(unsigned_part(s@) =~= v@.subrange(lo as int, n as int));
    word_in(&v, lo, n) || number_in(&v, lo, n)
}

/// A floating-point literal is not empty and holds no white space.
pub proof fn lemma_float_literal_is_token(s: Seq<char>)
    requires
        is_float_literal(s),
    ensures
        s.len() > 0,
        forall|i: int| 0 <= i < s.len() ==> !is_white_space(#[trigger] s[i]),
{
    let u = unsigned_part(s);
    let d: int = if s.len() > 0 && is_sign(s[0]) {
        1
    } else {
        0
    };
    assert(u =~= s.skip(d));
    if is_number(u) && !is_inf_word(u) && !is_infinity_word(u) && !is_nan_word(u) {
        if forall|i: int| 0 <= i < u.len() ==> !is_exp_mark(#[trigger] u[i]) {
            if is_mantissa(u) {
                let j = choose|j: int| 0 <= j < u.len() && is_digit(#[trigger] u[j]);
                assert(u.len() > 0);
            }
        }
        if exists|k: int|
            0 <= k < u.len() && is_exp_mark(#[trigger] u[k]) && is_mantissa(u.take(k))
                && is_exponent(u.skip(k + 1)) {
            let k = choose|k: int|
                0 <= k < u.len() && is_exp_mark(#[trigger] u[k]) && is_mantissa(u.take(k))
                    && is_exponent(u.skip(k + 1));
            assert forall|i: int| 0 <= i < u.len() implies !is_white_space(#[trigger] u[i]) by {
                if i < k {
                    assert(u.take(k)[i] == u[i]);
                } else if i > k {
                    let e = u.skip(k + 1);
                    assert(e[i - k - 1] == u[i]);
                    if e.len() > 0 && is_sign(e[0]) {
                        if i > k + 1 {
                            assert(e.drop_first()[i - k - 2] == u[i]);
                        }
                    }
                }
            }
        }
    }
    assert forall|i: int| 0 <= i < s.len() implies !is_white_space(#[trigger] s[i]) by {
        if i >= d {
            assert(u[i - d] == s[i]);
        }
    }
}

} // verus!
