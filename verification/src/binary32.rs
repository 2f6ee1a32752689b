//! Integer construction of the device's binary32 temperature fields.
//!
//! The display packet carries temperatures as IEEE-754 single-precision
//! values in big-endian byte order.  The library stores temperatures as
//! exact milli-unit integers, so the bit pattern is computed here by integer
//! normalisation and round-to-nearest-even, with a contract that pins the
//! encoded value to the nearest representable approximation of `m / 1000`.

use vstd::arithmetic::div_mod::{
    lemma_div_denominator, lemma_fundamental_div_mod, lemma_fundamental_div_mod_converse,
};
use vstd::arithmetic::power2::{
    lemma2_to64, lemma2_to64_rest, lemma_pow2_adds, lemma_pow2_pos, lemma_pow2_strictly_increases,
    pow2,
};
use vstd::prelude::*;

verus! {

/// The magnitude of `a`.
pub open spec fn abs_int(a: int) -> int {
    if a >= 0 {
        a
    } else {
        -a
    }
}

/// The numerator of `a / 1000` scaled by `2^(-e)`, kept integral.
pub open spec fn round_num(a: int, e: int) -> int {
    if e >= 0 {
        a
    } else {
        a * (pow2((-e) as nat) as int)
    }
}

/// The denominator of `a / 1000` scaled by `2^(-e)`, kept integral.
pub open spec fn round_den(e: int) -> int {
    if e >= 0 {
        1000 * (pow2(e as nat) as int)
    } else {
        1000
    }
}

/// `q * 2^e`, with `2^23 <= q < 2^24`, is the nearest value of that
/// significand width to `a / 1000`; a tie goes to the even significand.
///
/// Written over the integral pair `num / den == (a / 1000) * 2^(-e)`:
/// `q` is within half a unit of `num / den`, and at the bottom of a binade,
/// where the values one step below are twice as dense, within a quarter unit
/// from below.  Together with the significand range this pins `(q, e)` — and
/// so the bit pattern — uniquely (`lemma_rounds_milli_unique`).
pub open spec fn rounds_milli(a: int, q: int, e: int) -> bool {
    let num = round_num(a, e);
    let den = round_den(e);
    &&& pow2(23) <= q < pow2(24)
    &&& 2 * abs_int(num - q * den) <= den
    &&& (2 * abs_int(num - q * den) == den ==> q % 2 == 0)
    &&& (q == pow2(23) ==> 4 * (q * den - num) <= den)
}

/// `bits`, read as IEEE-754 binary32 sign, exponent and fraction fields,
/// encode the round-to-nearest-even approximation of `m / 1000`.
/// Meaningful for `m != 0`; no value in the milli range comes near the
/// subnormal or infinite ends of the format.
pub open spec fn f32_bits_represent_milli(bits: u32, m: int) -> bool {
    let sign = bits as int / 0x8000_0000;
    let e_field = (bits as int / 0x80_0000) % 0x100;
    let frac = bits as int % 0x80_0000;
    &&& sign == if m < 0 {
        1int
    } else {
        0int
    }
    &&& 1 <= e_field <= 254
    &&& rounds_milli(abs_int(m), frac + 0x80_0000, e_field - 150)
}

/// The scaled denominator is positive.
proof fn lemma_round_den_pos(e: int)
    ensures
        round_den(e) > 0,
{
    if e >= 0 {
        lemma_pow2_pos(e as nat);
        assert(1000 * (pow2(e as nat) as int) > 0) by (nonlinear_arith)
            requires
                pow2(e as nat) >= 1,
        ;
    }
}

/// The rounding conditions transfer between any two integral pairs naming
/// the same rational value.
proof fn lemma_round_transfer(q: int, n1: int, d1: int, n2: int, d2: int)
    requires
        d1 > 0,
        d2 > 0,
        n1 * d2 == n2 * d1,
        2 * abs_int(n1 - q * d1) <= d1,
        2 * abs_int(n1 - q * d1) == d1 ==> q % 2 == 0,
        q == pow2(23) ==> 4 * (q * d1 - n1) <= d1,
    ensures
        2 * abs_int(n2 - q * d2) <= d2,
        2 * abs_int(n2 - q * d2) == d2 ==> q % 2 == 0,
        q == pow2(23) ==> 4 * (q * d2 - n2) <= d2,
{
    let s = n1 - q * d1;
    let t = n2 - q * d2;
    assert(t * d1 == s * d2) by (nonlinear_arith)
        requires
            n1 * d2 == n2 * d1,
            t == n2 - q * d2,
            s == n1 - q * d1,
    ;
    let at = abs_int(t);
    let as_res = abs_int(s);
    assert(at * d1 == as_res * d2) by (nonlinear_arith)
        requires
            t * d1 == s * d2,
            d1 > 0,
            d2 > 0,
            at == if t >= 0 { t } else { -t },
            as_res == if s >= 0 { s } else { -s },
    ;
    assert(2 * at <= d2) by (nonlinear_arith)
        requires
            at * d1 == as_res * d2,
            2 * as_res <= d1,
            d1 > 0,
            d2 > 0,
            at >= 0,
            as_res >= 0,
    ;
    if 2 * at == d2 {
        assert(2 * as_res == d1) by (nonlinear_arith)
            requires
                at * d1 == as_res * d2,
                2 * at == d2,
                d1 > 0,
                d2 > 0,
        ;
    }
    if q == pow2(23) {
        assert(4 * (q * d2 - n2) <= d2) by (nonlinear_arith)
            requires
                t * d1 == s * d2,
                t == n2 - q * d2,
                s == n1 - q * d1,
                4 * (q * d1 - n1) <= d1,
                d1 > 0,
                d2 > 0,
        ;
    }
}

/// Two significand-and-exponent pairs that both round `a / 1000` are the
/// same pair: the encoding a contract speaks of through `rounds_milli` is
/// unique.
pub proof fn lemma_rounds_milli_unique(a: int, q1: int, e1: int, q2: int, e2: int)
    requires
        a >= 1,
        rounds_milli(a, q1, e1),
        rounds_milli(a, q2, e2),
    ensures
        q1 == q2,
        e1 == e2,
    decreases (if e1 > e2 { 1int } else { 0int }),
{
    if e1 > e2 {
        lemma_rounds_milli_unique(a, q2, e2, q1, e1);
        return ;
    }
    lemma2_to64();
    let kk: nat = if e1 >= 0 { 0nat } else { (-e1) as nat };
    let nn = a * pow2(kk);
    let dd1 = 1000 * (pow2((kk + e1) as nat) as int);
    let dd2 = 1000 * (pow2((kk + e2) as nat) as int);
    lemma_pow2_pos(kk);
    lemma_pow2_pos((kk + e1) as nat);
    lemma_pow2_pos((kk + e2) as nat);
    assert(nn >= 1 && dd1 > 0 && dd2 > 0) by (nonlinear_arith)
        requires
            a >= 1,
            pow2(kk) >= 1,
            pow2((kk + e1) as nat) >= 1,
            pow2((kk + e2) as nat) >= 1,
            nn == a * pow2(kk),
            dd1 == 1000 * (pow2((kk + e1) as nat) as int),
            dd2 == 1000 * (pow2((kk + e2) as nat) as int),
    ;
    lemma_round_den_pos(e1);
    lemma_round_den_pos(e2);
    // move both conditions onto the common pair (nn, dd_i)
    lemma_cross_identity(a, kk, (kk + e1) as nat);
    assert(round_num(a, e1) * dd1 == nn * round_den(e1));
    lemma_round_transfer(q1, round_num(a, e1), round_den(e1), nn, dd1);
    lemma_cross_identity(a, kk, (kk + e2) as nat);
    assert(round_num(a, e2) * dd2 == nn * round_den(e2));
    lemma_round_transfer(q2, round_num(a, e2), round_den(e2), nn, dd2);
    let h = pow2(23) as int;
    assert(pow2(24) == 2 * h);
    assert(q1 < 2 * h && q2 < 2 * h && q1 >= h && q2 >= h);
    if e1 == e2 {
        assert(dd1 == dd2);
        let s1 = nn - q1 * dd1;
        let s2 = nn - q2 * dd1;
        assert(q1 == q2) by (nonlinear_arith)
            requires
                s1 == nn - q1 * dd1,
                s2 == nn - q2 * dd1,
                2 * abs_int(s1) <= dd1,
                2 * abs_int(s2) <= dd1,
                2 * abs_int(s1) == dd1 ==> q1 % 2 == 0,
                2 * abs_int(s2) == dd1 ==> q2 % 2 == 0,
                abs_int(s1) == if s1 >= 0 { s1 } else { -s1 },
                abs_int(s2) == if s2 >= 0 { s2 } else { -s2 },
                dd1 > 0,
        ;
    } else {
        // e1 < e2: the two approximations sit in different binades, which
        // only a forbidden odd tie could reconcile
        let k = (e2 - e1) as nat;
        lemma_pow2_adds((kk + e1) as nat, k);
        assert(dd2 == dd1 * pow2(k)) by (nonlinear_arith)
            requires
                pow2((kk + e2) as nat) == pow2((kk + e1) as nat) * pow2(k),
                dd1 == 1000 * (pow2((kk + e1) as nat) as int),
                dd2 == 1000 * (pow2((kk + e2) as nat) as int),
        ;
        lemma_pow2_strictly_increases(0, k);
        let p = pow2(k) as int;
        assert(p >= 2);
        // upper bound on nn from the first pair
        assert(2 * nn <= 2 * q1 * dd1 + dd1 && 2 * nn <= (4 * h - 1) * dd1) by (nonlinear_arith)
            requires
                2 * abs_int(nn - q1 * dd1) <= dd1,
                abs_int(nn - q1 * dd1) == if nn - q1 * dd1 >= 0 { nn - q1 * dd1 } else { -(nn - q1 * dd1) },
                q1 <= 2 * h - 1,
                dd1 > 0,
                h >= 1,
        ;
        if q2 == h {
            // lower quarter-bound from the second pair
            assert(4 * nn >= (4 * h - 1) * (p * dd1)) by (nonlinear_arith)
                requires
                    4 * (q2 * dd2 - nn) <= dd2,
                    q2 == h,
                    dd2 == dd1 * p,
                    dd1 > 0,
                    p >= 2,
            ;
            assert(4 * nn == (8 * h - 2) * dd1 && q1 == 2 * h - 1) by (nonlinear_arith)
                requires
                    4 * nn >= (4 * h - 1) * (p * dd1),
                    2 * nn <= 2 * q1 * dd1 + dd1,
                    q1 <= 2 * h - 1,
                    dd1 > 0,
                    p >= 2,
                    h >= 2,
            ;
            // that forces an exact tie on an odd significand
            assert(2 * (nn - q1 * dd1) == dd1) by (nonlinear_arith)
                requires
                    4 * nn == (8 * h - 2) * dd1,
                    q1 == 2 * h - 1,
            ;
            assert(2 * abs_int(nn - q1 * dd1) == dd1);
            assert(q1 % 2 == 0);
            assert((2 * h - 1) % 2 == 1) by (nonlinear_arith)
                requires
                    h == 0x800000,
            ;
            assert(false);
        } else {
            assert(2 * nn >= (2 * h + 1) * (p * dd1)) by (nonlinear_arith)
                requires
                    2 * abs_int(nn - q2 * dd2) <= dd2,
                    abs_int(nn - q2 * dd2) == if nn - q2 * dd2 >= 0 { nn - q2 * dd2 } else { -(nn - q2 * dd2) },
                    q2 >= h + 1,
                    dd2 == dd1 * p,
                    dd1 > 0,
                    p >= 2,
            ;
            assert(false) by (nonlinear_arith)
                requires
                    2 * nn >= (2 * h + 1) * (p * dd1),
                    2 * nn <= (4 * h - 1) * dd1,
                    dd1 > 0,
                    p >= 2,
                    h >= 1,
            ;
        }
    }
}

/// The working pair `(a * 2^i, 1000 * 2^j)` names the same rational as the
/// reduced pair for exponent `j - i`.
proof fn lemma_cross_identity(a: int, i: nat, j: nat)
    ensures
        round_num(a, j - i) * (1000 * pow2(j)) == (a * pow2(i)) * round_den(j - i),
{
    let e = j - i;
    if e >= 0 {
        lemma_pow2_adds(i, (j - i) as nat);
        assert(a * (1000 * pow2(j)) == (a * pow2(i)) * (1000 * pow2((j - i) as nat)))
            by (nonlinear_arith)
            requires
                pow2(i) * pow2((j - i) as nat) == pow2(j),
        ;
    } else {
        lemma_pow2_adds(j, (i - j) as nat);
        assert((a * pow2((i - j) as nat)) * (1000 * pow2(j)) == (a * pow2(i)) * 1000)
            by (nonlinear_arith)
            requires
                pow2(j) * pow2((i - j) as nat) == pow2(i),
        ;
    }
}

/// The binary32 bit pattern nearest to `m / 1000`, ties to even; zero maps
/// to positive zero.
#[verifier::rlimit(80)]
pub fn milli_to_f32_bits(m: i64) -> (bits: u32)
    ensures
        m == 0 ==> bits == 0,
        m != 0 ==> f32_bits_represent_milli(bits, m as int),
{
    proof {
        lemma2_to64();
        lemma2_to64_rest();
    }
    if m == 0 {
        return 0u32;
    }
    let a: u64 = if m < 0 {
        if m == i64::MIN {
            0x8000_0000_0000_0000u64
        } else {
            (-m) as u64
        }
    } else {
        m as u64
    };
    assert(a == abs_int(m as int));
    let mut nn: u128 = a as u128;
    let mut dd: u128 = 1000;
    let mut i: u32 = 0;
    let mut j: u32 = 0;
    assert(nn == a * pow2(0));
    // scale the numerator up until the quotient reaches the significand range
    while nn < 0x800000u128 * 1000
        invariant
            dd == 1000,
            1 <= a <= 0x8000_0000_0000_0000,
            nn == a * pow2(i as nat),
            i <= 33,
            nn == a || nn < 0x1000000 * 1000,
        decreases 0x1000000 * 1000 - nn,
    {
        proof {
            lemma2_to64();
            lemma2_to64_rest();
            lemma_pow2_pos(i as nat);
            assert(pow2(i as nat) <= nn) by (nonlinear_arith)
                requires
                    a >= 1,
                    nn == a * pow2(i as nat),
                    pow2(i as nat) >= 1,
            ;
            if i >= 33 {
                lemma_pow2_strictly_increases(32, i as nat);
                assert(false);
            }
            lemma_pow2_adds(i as nat, 1);
            assert(a * pow2((i + 1) as nat) == (a * pow2(i as nat)) * 2) by (nonlinear_arith)
                requires
                    pow2((i + 1) as nat) == pow2(i as nat) * pow2(1),
                    pow2(1) == 2,
            ;
        }
        nn = nn * 2;
        i = i + 1;
    }
    // scale the denominator up until the quotient falls back into range
    while nn >= 0x1000000u128 * dd
        invariant
            1 <= a <= 0x8000_0000_0000_0000,
            nn == a * pow2(i as nat),
            dd == 1000 * pow2(j as nat),
            i <= 33,
            j <= 31,
            nn >= 0x800000 * dd,
            nn <= 0x8000_0000_0000_0000,
        decreases nn - dd,
    {
        proof {
            lemma2_to64();
            lemma2_to64_rest();
            lemma_pow2_pos(j as nat);
            if j >= 30 {
                lemma_pow2_strictly_increases(29, j as nat);
                assert(1000 * pow2(j as nat) >= 1000 * 0x20000000) by (nonlinear_arith)
                    requires
                        pow2(j as nat) >= 0x20000000,
                ;
                assert(false);
            }
            lemma_pow2_adds(j as nat, 1);
            assert(1000 * pow2((j + 1) as nat) == (1000 * pow2(j as nat)) * 2) by (nonlinear_arith)
                requires
                    pow2((j + 1) as nat) == pow2(j as nat) * pow2(1),
                    pow2(1) == 2,
            ;
        }
        dd = dd * 2;
        j = j + 1;
    }
    let q0: u128 = nn / dd;
    let r: u128 = nn % dd;
    proof {
        lemma2_to64();
        lemma_fundamental_div_mod(nn as int, dd as int);
        assert(q0 >= 0x800000 && q0 < 0x1000000) by (nonlinear_arith)
            requires
                nn == dd * q0 + r,
                0 <= r < dd,
                nn >= 0x800000 * dd,
                nn < 0x1000000 * dd,
                dd > 0,
        ;
    }
    let round_up: bool = 2 * r > dd || (2 * r == dd && q0 % 2 == 1);
    let q: u128 = if round_up {
        q0 + 1
    } else {
        q0
    };
    let adjust: bool = q == 0x1000000;
    let qn: u128 = if adjust {
        0x800000
    } else {
        q
    };
    let e_shift: i64 = 150 + (j as i64) - (i as i64) + (if adjust {
        1i64
    } else {
        0i64
    });
    assert(117 <= e_shift <= 182);
    let e_field: u32 = e_shift as u32;
    let frac: u32 = (qn - 0x800000) as u32;
    let sign_bit: u32 = if m < 0 {
        0x8000_0000
    } else {
        0
    };
    let bits: u32 = sign_bit + e_field * 0x800000 + frac;
    proof {
        lemma2_to64();
        let s: int = if m < 0 {
            1int
        } else {
            0int
        };
        // field decoding: the three summands occupy disjoint ranges
        assert(bits == s * 0x8000_0000 + e_field * 0x80_0000 + frac);
        assert(frac < 0x80_0000);
        lemma_fundamental_div_mod_converse(
            bits as int,
            0x8000_0000,
            s,
            e_field * 0x80_0000 + frac,
        );
        lemma_fundamental_div_mod_converse(
            bits as int,
            0x80_0000,
            s * 0x100 + e_field,
            frac as int,
        );
        lemma_fundamental_div_mod_converse(s * 0x100 + e_field, 0x100, s, e_field as int);
        assert(bits as int / 0x8000_0000 == s);
        assert((bits as int / 0x80_0000) % 0x100 == e_field);
        assert(bits as int % 0x80_0000 == frac);
        // the rounded quotient is within half a unit of nn / dd
        let qi = qn as int;
        let ei = e_field - 150;
        let ddx: int = if adjust {
            2 * dd
        } else {
            dd as int
        };
        assert(2 * abs_int(nn - qi * ddx) <= ddx && (2 * abs_int(nn - qi * ddx) == ddx
            ==> qi % 2 == 0) && (qi == 0x800000 ==> 4 * (qi * ddx - nn) <= ddx))
            by (nonlinear_arith)
            requires
                nn == dd * q0 + r,
                0 <= r < dd,
                0x800000 <= q0 < 0x1000000,
                round_up == (2 * r > dd || (2 * r == dd && q0 % 2 == 1)),
                q == if round_up { q0 + 1 } else { q0 as int },
                adjust == (q == 0x1000000),
                qn == if adjust { 0x800000 } else { q as int },
                qi == qn,
                ddx == if adjust { 2 * dd } else { dd as int },
                dd > 0,
        ;
        // the working pair reduces to the canonical pair for this exponent
        if adjust {
            lemma_pow2_adds(j as nat, 1);
            lemma_cross_identity(a as int, i as nat, (j + 1) as nat);
            assert(ddx == 1000 * pow2((j + 1) as nat));
            assert(ei == (j + 1) - i);
        } else {
            lemma_cross_identity(a as int, i as nat, j as nat);
            assert(ei == j - i);
        }
        lemma_round_den_pos(ei);
        lemma_round_transfer(qi, nn as int, ddx, round_num(a as int, ei), round_den(ei));
        assert(pow2(23) <= qi < pow2(24));
    }
    bits
}

/// A nonzero milli value has exactly one binary32 bit pattern satisfying
/// `f32_bits_represent_milli`: encoding is deterministic.
pub proof fn lemma_f32_bits_unique(b1: u32, b2: u32, m: int)
    requires
        m != 0,
        f32_bits_represent_milli(b1, m),
        f32_bits_represent_milli(b2, m),
    ensures
        b1 == b2,
{
    lemma2_to64();
    let a = abs_int(m);
    lemma_bits_recompose(b1);
    lemma_bits_recompose(b2);
    lemma_rounds_milli_unique(
        a,
        b1 as int % 0x80_0000 + 0x80_0000,
        (b1 as int / 0x80_0000) % 0x100 - 150,
        b2 as int % 0x80_0000 + 0x80_0000,
        (b2 as int / 0x80_0000) % 0x100 - 150,
    );
}

/// A `u32` equals its binary32 fields reassembled.
proof fn lemma_bits_recompose(b: u32)
    ensures
        b == (b as int / 0x8000_0000) * 0x8000_0000 + ((b as int / 0x80_0000) % 0x100) * 0x80_0000
            + b as int % 0x80_0000,
{
    lemma_fundamental_div_mod(b as int, 0x80_0000);
    lemma_fundamental_div_mod(b as int / 0x80_0000, 0x100);
    lemma_div_denominator(b as int, 0x80_0000, 0x100);
    assert(b as int / 0x80_0000 / 0x100 == b as int / 0x8000_0000);
    assert(b as int == 0x80_0000 * (0x100 * (b as int / 0x8000_0000) + (b as int / 0x80_0000)
        % 0x100) + b as int % 0x80_0000);
}

} // verus!
