//! Exact fixed-point numerics: metric values in thousandths of a unit.
//!
//! Telemetry sources report real-valued metrics; the library carries them as
//! integers in thousandths (milli-units), which keeps comparison, averaging
//! and packet encoding exact.  This module holds the rounding helpers the
//! encoder needs and the decimal-string parser the HTTP-variant source needs.

use vstd::prelude::*;
use vstd::string::StrSliceExecFns;

verus! {

/// `a / b` rounded to the nearest integer, halves away from zero.
/// Meaningful for `b > 0`.
pub open spec fn rounded_div(a: int, b: int) -> int {
    if a >= 0 {
        (a + b / 2) / b
    } else {
        -(((-a) + b / 2) / b)
    }
}

/// A milli-unit value rounded to whole units, halves away from zero.
pub open spec fn milli_round(m: int) -> int {
    rounded_div(m, 1000)
}

/// `v` clamped into `[lo, hi]`.
pub open spec fn clamp_to(v: int, lo: int, hi: int) -> int {
    if v < lo {
        lo
    } else if v > hi {
        hi
    } else {
        v
    }
}

/// A milli-unit metric rounded to whole units and saturated into a `u16`
/// protocol field.
pub fn milli_to_u16(m: i64) -> (r: u16)
    ensures
        r == clamp_to(milli_round(m as int), 0, 0xffff),
{
    if m <= 0 {
        proof {
            assert(((-(m as int)) + 500) / 1000 >= 0) by (nonlinear_arith)
                requires
                    m <= 0,
            ;
        }
        0
    } else if m >= 65_535_500 {
        proof {
            assert((m as int + 500) / 1000 > 0xffff) by (nonlinear_arith)
                requires
                    m >= 65_535_500,
            ;
        }
        0xffff
    } else {
        let v: i64 = (m + 500) / 1000;
        proof {
            assert(0 <= (m as int + 500) / 1000 <= 0xffff) by (nonlinear_arith)
                requires
                    0 < m < 65_535_500,
            ;
        }
        v as u16
    }
}

/// A milli-unit metric rounded to whole units and saturated into a `u8`
/// protocol field.
pub fn milli_to_u8(m: i64) -> (r: u8)
    ensures
        r == clamp_to(milli_round(m as int), 0, 0xff),
{
    if m <= 0 {
        proof {
            assert(((-(m as int)) + 500) / 1000 >= 0) by (nonlinear_arith)
                requires
                    m <= 0,
            ;
        }
        0
    } else if m >= 255_500 {
        proof {
            assert((m as int + 500) / 1000 > 0xff) by (nonlinear_arith)
                requires
                    m >= 255_500,
            ;
        }
        0xff
    } else {
        let v: i64 = (m + 500) / 1000;
        proof {
            assert(0 <= (m as int + 500) / 1000 <= 0xff) by (nonlinear_arith)
                requires
                    0 < m < 255_500,
            ;
        }
        v as u8
    }
}

/// Ten to the `n`th.
pub open spec fn pow10(n: nat) -> int
    decreases n,
{
    if n == 0 {
        1
    } else {
        10 * pow10((n - 1) as nat)
    }
}

/// A decimal digit.
pub open spec fn is_digit(c: char) -> bool {
    '0' <= c && c <= '9'
}

/// The value of a decimal digit.
pub open spec fn digit_val(c: char) -> int {
    c as int - '0' as int
}

/// Every character of `s` is a decimal digit.
pub open spec fn all_digits(s: Seq<char>) -> bool {
    forall|i: int| 0 <= i < s.len() ==> is_digit(#[trigger] s[i])
}

/// The value of a digit string read in base ten.
pub open spec fn digits_val(s: Seq<char>) -> int
    decreases s.len(),
{
    if s.len() == 0 {
        0
    } else {
        digits_val(s.drop_last()) * 10 + digit_val(s.last())
    }
}

/// The index of the first `'.'` in `s`, or `s.len()` when there is none.
pub open spec fn dot_index(s: Seq<char>) -> int
    decreases s.len(),
{
    if s.len() == 0 {
        0
    } else if s[0] == '.' {
        0
    } else {
        1 + dot_index(s.skip(1))
    }
}

/// The value of a fraction-digit string in thousandths: digits beyond the
/// third carry no weight (the fixed-point representation truncates there,
/// toward zero).
pub open spec fn frac_milli(s: Seq<char>) -> int {
    if s.len() == 0 {
        0
    } else if s.len() == 1 {
        digit_val(s[0]) * 100
    } else if s.len() == 2 {
        digit_val(s[0]) * 100 + digit_val(s[1]) * 10
    } else {
        digit_val(s[0]) * 100 + digit_val(s[1]) * 10 + digit_val(s[2])
    }
}

/// True when `s` opens with an explicit sign.
pub open spec fn has_sign(s: Seq<char>) -> bool {
    s.len() > 0 && (s[0] == '-' || s[0] == '+')
}

/// `s` without its sign, if any.
pub open spec fn decimal_body(s: Seq<char>) -> Seq<char> {
    if has_sign(s) {
        s.skip(1)
    } else {
        s
    }
}

/// The digits before the decimal point.
pub open spec fn int_digits(s: Seq<char>) -> Seq<char> {
    let b = decimal_body(s);
    b.take(dot_index(b))
}

/// The digits after the decimal point, empty when there is no point.
pub open spec fn frac_digits(s: Seq<char>) -> Seq<char> {
    let b = decimal_body(s);
    if dot_index(b) < b.len() {
        b.skip(dot_index(b) + 1)
    } else {
        Seq::empty()
    }
}

/// The most integer digits a value can have and still fit the fixed-point
/// range.
pub const MAX_INT_DIGITS: usize = 15;

/// The grammar `parse_milli` accepts: an optional sign, then plain decimal
/// notation — digits, optionally split once by a point — with at least one
/// digit and at most `MAX_INT_DIGITS` integer digits.  No exponent and no
/// special forms: a telemetry value outside this shape yields no update.
pub open spec fn valid_decimal(s: Seq<char>) -> bool {
    &&& decimal_body(s).len() > 0
    &&& all_digits(int_digits(s))
    &&& all_digits(frac_digits(s))
    &&& int_digits(s).len() + frac_digits(s).len() > 0
    &&& int_digits(s).len() <= MAX_INT_DIGITS
}

/// The sign of the written value.
pub open spec fn decimal_sign(s: Seq<char>) -> int {
    if s.len() > 0 && s[0] == '-' {
        -1
    } else {
        1
    }
}

/// The written value in thousandths, fraction digits beyond the third
/// truncated toward zero.
pub open spec fn decimal_milli(s: Seq<char>) -> int {
    decimal_sign(s) * (digits_val(int_digits(s)) * 1000 + frac_milli(frac_digits(s)))
}

/// The first point cannot come before `k` when the first `k` characters are
/// no points; when character `k` is a point, it is the first.
pub proof fn lemma_dot_index_from_prefix(b: Seq<char>, k: int)
    requires
        0 <= k <= b.len(),
        forall|j: int| 0 <= j < k ==> #[trigger] b[j] != '.',
    ensures
        k <= dot_index(b) <= b.len(),
        k < b.len() && b[k] == '.' ==> dot_index(b) == k,
    decreases k,
{
    lemma_dot_index_le_len(b);
    if k > 0 {
        assert(b[0] != '.');
        assert forall|j: int| 0 <= j < k - 1 implies #[trigger] b.skip(1)[j] != '.' by {
            assert(b.skip(1)[j] == b[j + 1]);
        }
        lemma_dot_index_from_prefix(b.skip(1), k - 1);
        if k < b.len() && b[k] == '.' {
            assert(b.skip(1)[k - 1] == b[k]);
        }
    }
}

/// The first point lies within the string, or just past it.
pub proof fn lemma_dot_index_le_len(b: Seq<char>)
    ensures
        0 <= dot_index(b) <= b.len(),
    decreases b.len(),
{
    if b.len() > 0 && b[0] != '.' {
        lemma_dot_index_le_len(b.skip(1));
    }
}

/// Whether `c` is a decimal digit.
pub fn digit_of(c: char) -> (r: Option<u8>)
    ensures
        r matches Some(d) ==> is_digit(c) && d == digit_val(c) && d <= 9,
        r is None ==> !is_digit(c),
{
    if '0' <= c && c <= '9' {
        Some((c as u8) - 48)
    } else {
        None
    }
}

/// Parses plain decimal notation into an exact milli-unit value.
///
/// Accepts an optional sign and digits split by at most one point, with at
/// least one digit; fraction digits beyond the third are truncated toward
/// zero.  Anything else — and a value with more than `MAX_INT_DIGITS`
/// integer digits, which would leave the fixed-point range — parses to
/// `None`.
#[verifier::rlimit(50)]
pub fn parse_milli(s: &str) -> (r: Option<i64>)
    ensures
        valid_decimal(s@) ==> r == Some(decimal_milli(s@) as i64),
        !valid_decimal(s@) ==> r is None,
        r matches Some(v) ==> v == decimal_milli(s@),
{
    let n = s.unicode_len();
    let mut i: usize = 0;
    let mut neg = false;
    if n > 0 {
        let c0 = s.get_char(0);
        if c0 == '-' {
            neg = true;
            i = 1;
        } else if c0 == '+' {
            i = 1;
        }
    }
    let off = i;
    let ghost b = decimal_body(s@);
    proof {
        assert(b.len() == n - off);
        assert(forall|j: int| 0 <= j < b.len() ==> b[j] == s@[j + off]);
    }
    if i >= n {
        // no digits at all
        return None;
    }
    // integer digits
    let mut ip: i64 = 0;
    let mut ip_len: usize = 0;
    loop
        invariant
            n == s@.len(),
            off <= 1,
            i == off + ip_len,
            i <= n,
            off == if has_sign(s@) { 1int } else { 0int },
            neg == (s@.len() > 0 && s@[0] == '-'),
            b == decimal_body(s@),
            b.len() == n - off,
            b.len() > 0,
            forall|j: int| 0 <= j < b.len() ==> b[j] == s@[j + off],
            forall|j: int| 0 <= j < ip_len ==> is_digit(#[trigger] b[j]),
            ip == digits_val(b.take(ip_len as int)),
            0 <= ip < pow10(ip_len as nat),
            ip_len <= MAX_INT_DIGITS,
        ensures
            i >= n || !is_digit(b[ip_len as int]),
        decreases n - i,
    {
        if i >= n {
            break;
        }
        let c = s.get_char(i);
        assert(c == b[ip_len as int]);
        match digit_of(c) {
            Some(d) => {
                if ip_len == MAX_INT_DIGITS {
                    // a sixteenth integer digit: out of fixed-point range
                    proof {
                        assert forall|j: int| 0 <= j < ip_len + 1 implies #[trigger] b[j]
                            != '.' by {
                            assert(is_digit(b[j]));
                        }
                        lemma_dot_index_from_prefix(b, ip_len + 1);
                        assert(int_digits(s@).len() > MAX_INT_DIGITS);
                    }
                    return None;
                }
                proof {
                    lemma_pow10_le(ip_len as nat, 15nat);
                    lemma_pow10_15();
                    assert(ip * 10 + d < 10 * pow10(ip_len as nat)) by (nonlinear_arith)
                        requires
                            0 <= ip < pow10(ip_len as nat),
                            0 <= d <= 9,
                    ;
                    assert(pow10((ip_len + 1) as nat) == 10 * pow10(ip_len as nat));
                }
                ip = ip * 10 + (d as i64);
                proof {
                    let l = ip_len as int;
                    assert(b.take(l + 1).drop_last() =~= b.take(l));
                    assert(b.take(l + 1).last() == b[l]);
                    assert(digits_val(b.take(l + 1)) == digits_val(b.take(l)) * 10 + digit_val(
                        b[l],
                    ));
                }
                ip_len = ip_len + 1;
                i = i + 1;
            },
            None => {
                break;
            },
        }
    }
    if i >= n {
        // plain integer: the whole body must have been digits
        proof {
            assert forall|j: int| 0 <= j < ip_len implies #[trigger] b[j] != '.' by {
                assert(is_digit(b[j]));
            }
            lemma_dot_index_from_prefix(b, ip_len as int);
            lemma_dot_index_le_len(b);
            assert(ip_len == b.len());
            assert(dot_index(b) == b.len());
            assert(int_digits(s@) =~= b);
            assert(frac_digits(s@) =~= Seq::<char>::empty());
        }
        if ip_len == 0 {
            return None;
        }
        proof {
            lemma_pow10_le(ip_len as nat, 15nat);
            lemma_pow10_15();
            assert(ip * 1000 <= (pow10(15nat) - 1) * 1000) by (nonlinear_arith)
                requires
                    0 <= ip < pow10(15nat),
            ;
        }
        let v: i64 = ip * 1000;
        return Some(if neg { -v } else { v });
    }
    let c = s.get_char(i);
    assert(c == b[ip_len as int]);
    proof {
        assert forall|j: int| 0 <= j < ip_len implies #[trigger] b[j] != '.' by {
            assert(is_digit(b[j]));
        }
    }
    if c != '.' {
        // a stray character before any point: the integer part is malformed
        proof {
            lemma_dot_index_from_prefix(b, ip_len + 1);
            lemma_dot_index_le_len(b);
            assert(int_digits(s@)[ip_len as int] == b[ip_len as int]);
            assert(!is_digit(b[ip_len as int]));
        }
        return None;
    }
    proof {
        lemma_dot_index_from_prefix(b, ip_len as int);
        assert(dot_index(b) == ip_len as int);
        assert(int_digits(s@) =~= b.take(ip_len as int));
    }
    i = i + 1;
    let ghost fd = frac_digits(s@);
    proof {
        assert(fd =~= b.skip(ip_len + 1));
    }
    // fraction digits
    let mut fr: i64 = 0;
    let mut f_len: usize = 0;
    loop
        invariant
            n == s@.len(),
            off <= 1,
            i == off + ip_len + 1 + f_len,
            i <= n,
            off == if has_sign(s@) { 1int } else { 0int },
            neg == (s@.len() > 0 && s@[0] == '-'),
            b == decimal_body(s@),
            b.len() == n - off,
            forall|j: int| 0 <= j < b.len() ==> b[j] == s@[j + off],
            dot_index(b) == ip_len as int,
            int_digits(s@) == b.take(ip_len as int),
            forall|j: int| 0 <= j < ip_len ==> is_digit(#[trigger] b[j]),
            ip == digits_val(b.take(ip_len as int)),
            0 <= ip < pow10(ip_len as nat),
            ip_len <= MAX_INT_DIGITS,
            fd == frac_digits(s@),
            fd.len() == n - off - ip_len - 1,
            forall|j: int| 0 <= j < fd.len() ==> fd[j] == b[j + ip_len + 1],
            forall|j: int| 0 <= j < f_len ==> is_digit(#[trigger] fd[j]),
            f_len <= fd.len(),
            fr == frac_milli(fd.take(f_len as int)),
            0 <= fr <= 999,
        ensures
            i >= n,
        decreases n - i,
    {
        if i >= n {
            break;
        }
        let c = s.get_char(i);
        assert(c == fd[f_len as int]);
        match digit_of(c) {
            Some(d) => {
                proof {
                    let l = f_len as int;
                    assert(fd.take(l + 1)[0] == fd[0]);
                    if l >= 1 {
                        assert(fd.take(l + 1)[1] == fd[1]);
                        assert(fd.take(l)[0] == fd[0]);
                    }
                    if l >= 2 {
                        assert(fd.take(l + 1)[2] == fd[2]);
                        assert(fd.take(l)[1] == fd[1]);
                    }
                }
                if f_len == 0 {
                    fr = (d as i64) * 100;
                } else if f_len == 1 {
                    fr = fr + (d as i64) * 10;
                } else if f_len == 2 {
                    fr = fr + (d as i64);
                }
                proof {
                    let l = f_len as int;
                    if l >= 3 {
                        assert(fd.take(l + 1)[0] == fd.take(l)[0]);
                        assert(fd.take(l + 1)[1] == fd.take(l)[1]);
                        assert(fd.take(l + 1)[2] == fd.take(l)[2]);
                        assert(frac_milli(fd.take(l + 1)) == frac_milli(fd.take(l)));
                    }
                }
                f_len = f_len + 1;
                i = i + 1;
            },
            None => {
                // a stray character among the fraction digits
                assert(!is_digit(fd[f_len as int]));
                return None;
            },
        }
    }
    assert(f_len == fd.len());
    assert(fd.take(fd.len() as int) =~= fd);
    if ip_len == 0 && f_len == 0 {
        // a lone point carries no digits
        return None;
    }
    proof {
        lemma_pow10_le(ip_len as nat, 15nat);
        lemma_pow10_15();
        assert(ip * 1000 + fr <= (pow10(15nat) - 1) * 1000 + 999) by (nonlinear_arith)
            requires
                0 <= ip < pow10(15nat),
                0 <= fr <= 999,
        ;
    }
    let v: i64 = ip * 1000 + fr;
    Some(if neg { -v } else { v })
}

/// `pow10` is at least one.
pub proof fn lemma_pow10_pos(n: nat)
    ensures
        pow10(n) >= 1,
    decreases n,
{
    if n > 0 {
        lemma_pow10_pos((n - 1) as nat);
    }
}

/// `pow10` grows with its exponent.
pub proof fn lemma_pow10_le(a: nat, c: nat)
    requires
        a <= c,
    ensures
        pow10(a) <= pow10(c),
        pow10(a) >= 1,
    decreases c,
{
    lemma_pow10_pos(a);
    if a < c {
        lemma_pow10_le(a, (c - 1) as nat);
        assert(pow10(c) == 10 * pow10((c - 1) as nat));
    }
}

/// The fixed-point range bound written out.
pub proof fn lemma_pow10_15()
    ensures
        pow10(15nat) == 1_000_000_000_000_000,
{
    reveal_with_fuel(pow10, 17);
}

} // verus!
