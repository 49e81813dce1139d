//! Rounding to IEEE 754 double precision, over exact rationals.
//!
//! Percentages are defined by double-precision arithmetic; this module says
//! what that arithmetic yields in terms of integers.

use vstd::arithmetic::div_mod::{lemma_fundamental_div_mod, lemma_fundamental_div_mod_converse};
use vstd::arithmetic::power2::{
    lemma2_to64, lemma2_to64_rest, lemma_pow2_adds, lemma_pow2_pos, lemma_pow2_strictly_increases,
    lemma_pow2_unfold, pow2,
};
use vstd::prelude::*;

verus! {

/// A nonnegative rational number.
pub ghost struct Ratio {
    pub num: nat,
    pub den: nat,
}

/// The integer nearest to `num / den`; of two that are equally near, the even
/// one.
pub open spec fn round_half_even(num: nat, den: nat) -> nat {
    let below = num / den;
    let rest = num % den;
    if 2 * rest < den || (2 * rest == den && below % 2 == 0) {
        below
    } else {
        below + 1
    }
}

/// The number of fractional bits, at least `s`, that a double as large as
/// `num / den` holds. There are never more than 1074.
pub open spec fn fraction_bits(num: nat, den: nat, s: nat) -> nat
    decreases 1074 - s,
{
    if s >= 1074 || num * pow2(s) >= pow2(52) * den {
        s
    } else {
        fraction_bits(num, den, s + 1)
    }
}

/// The number of low integer bits, at least `e`, that a double as large as
/// `num / den` cannot hold.
pub open spec fn dropped_bits(num: nat, den: nat, e: nat) -> nat
    decreases num - e,
{
    if den == 0 || e >= num || num < pow2(53) * den * pow2(e) {
        e
    } else {
        dropped_bits(num, den, e + 1)
    }
}

/// The double nearest to `r`, ties to even. Where `r` exceeds the finite
/// doubles, the result continues their spacing.
pub open spec fn to_double(r: Ratio) -> Ratio {
    if r.num < pow2(53) * r.den {
        let s = fraction_bits(r.num, r.den, 0);
        Ratio { num: round_half_even(r.num * pow2(s), r.den), den: pow2(s) }
    } else {
        let e = dropped_bits(r.num, r.den, 0);
        Ratio { num: round_half_even(r.num, r.den * pow2(e)) * pow2(e), den: 1 }
    }
}

/// `r` rounded to an integer, halves upwards.
pub open spec fn round_half_up(r: Ratio) -> nat {
    (2 * r.num + r.den) / (2 * r.den)
}

/// `r` without its fraction.
pub open spec fn truncate(r: Ratio) -> nat {
    r.num / r.den
}

/// An even integer is reached by rounding exactly from half below it on.
proof fn lemma_round_reaches_even(num: nat, den: nat, m: int)
    requires
        den > 0,
        m % 2 == 0,
    ensures
        round_half_even(num, den) >= m <==> 2 * num >= (2 * m - 1) * den,
{
    let below = num / den;
    let rest = num % den;
    lemma_fundamental_div_mod(num as int, den as int);
    assert(num == den * below + rest);
    assert(0 <= rest < den);
    let up = round_half_even(num, den);
    if up >= m {
        if below >= m {
            assert(2 * (den * below + rest) >= (2 * m - 1) * den) by (nonlinear_arith)
                requires
                    below >= m,
                    rest >= 0,
                    den > 0,
            ;
        } else {
            assert(below + 1 == m);
            assert(2 * rest >= den);
            assert(2 * (den * below + rest) >= (2 * m - 1) * den) by (nonlinear_arith)
                requires
                    below + 1 == m,
                    2 * rest >= den,
                    den > 0,
            ;
        }
    } else {
        if below + 1 == m {
            assert(below % 2 == 1);
            assert(2 * rest < den);
            assert(2 * (den * below + rest) < (2 * m - 1) * den) by (nonlinear_arith)
                requires
                    below + 1 == m,
                    2 * rest < den,
                    den > 0,
            ;
        } else {
            assert(below + 1 < m);
            assert(2 * (den * below + rest) < (2 * m - 1) * den) by (nonlinear_arith)
                requires
                    below + 2 <= m,
                    rest < den,
                    den > 0,
            ;
        }
    }
}

/// Rounding never falls below the integer part.
pub proof fn lemma_round_at_least(num: nat, den: nat, m: nat)
    requires
        den > 0,
        num >= m * den,
    ensures
        round_half_even(num, den) >= m,
{
    lemma_fundamental_div_mod(num as int, den as int);
    let below = num / den;
    assert(below >= m) by (nonlinear_arith)
        requires
            num == den * below + num % den,
            num % den < den,
            num >= m * den,
            den > 0,
    ;
}

/// Rounding never rises above an integer that is not below the number.
pub proof fn lemma_round_at_most(num: nat, den: nat, m: nat)
    requires
        den > 0,
        num <= m * den,
    ensures
        round_half_even(num, den) <= m,
{
    lemma_fundamental_div_mod(num as int, den as int);
    let below = num / den;
    let rest = num % den;
    assert(below <= m) by (nonlinear_arith)
        requires
            num == den * below + rest,
            rest >= 0,
            num <= m * den,
            den > 0,
    ;
    if below == m {
        assert(rest == 0) by (nonlinear_arith)
            requires
                num == den * below + rest,
                rest >= 0,
                num <= m * den,
                below == m,
        ;
    }
}

/// Rounding keeps the order of numbers.
pub proof fn lemma_round_monotonic(low: nat, high: nat, den: nat)
    requires
        den > 0,
        low <= high,
    ensures
        round_half_even(low, den) <= round_half_even(high, den),
{
    lemma_fundamental_div_mod(low as int, den as int);
    lemma_fundamental_div_mod(high as int, den as int);
    let a = low / den;
    let b = high / den;
    let r = low % den;
    let s = high % den;
    assert(a <= b) by (nonlinear_arith)
        requires
            low == den * a + r,
            high == den * b + s,
            r >= 0,
            s < den,
            low <= high,
            den > 0,
    ;
    if a == b {
        assert(r <= s);
    }
}

/// `t` is the number of fractional bits where `t` bits reach the leading
/// position and one bit fewer does not.
pub proof fn lemma_fraction_bits(num: nat, den: nat, s: nat, t: nat)
    requires
        s <= t <= 1074,
        num * pow2(t) >= pow2(52) * den || t == 1074,
        t > s ==> num * pow2((t - 1) as nat) < pow2(52) * den,
    ensures
        fraction_bits(num, den, s) == t,
    decreases t - s,
{
    if s < t {
        assert(num * pow2(s) < pow2(52) * den) by {
            if s < t - 1 {
                lemma_pow2_strictly_increases(s, (t - 1) as nat);
                assert(num * pow2(s) <= num * pow2((t - 1) as nat)) by (nonlinear_arith)
                    requires
                        pow2(s) <= pow2((t - 1) as nat),
                ;
            }
        }
        lemma_fraction_bits(num, den, s + 1, t);
    }
}

/// What `fraction_bits` returns.
proof fn lemma_fraction_bits_found(num: nat, den: nat, s: nat)
    requires
        s <= 1074,
    ensures
        ({
            let t = fraction_bits(num, den, s);
            &&& s <= t <= 1074
            &&& t > s ==> num * pow2((t - 1) as nat) < pow2(52) * den
            &&& t < 1074 ==> num * pow2(t) >= pow2(52) * den
        }),
    decreases 1074 - s,
{
    if s < 1074 && num * pow2(s) < pow2(52) * den {
        lemma_fraction_bits_found(num, den, s + 1);
    }
}

/// A number of at least 128 stays at least 128.
pub proof fn lemma_round_large(r: Ratio)
    requires
        r.den > 0,
        r.num >= 128 * r.den,
    ensures
        round_half_up(to_double(r)) >= 128,
{
    let num = r.num;
    let den = r.den;
    let d = to_double(r);
    if num < pow2(53) * den {
        let s = fraction_bits(num, den, 0);
        let unit = pow2(s);
        lemma_pow2_pos(s);
        assert(num * unit >= (128 * unit) * den) by (nonlinear_arith)
            requires
                num >= 128 * den,
                unit > 0,
        ;
        lemma_round_at_least(num * unit, den, 128 * unit);
    } else {
        let e = dropped_bits(num, den, 0);
        lemma_dropped_bits_found(num, den, 0);
        let unit = pow2(e);
        lemma_pow2_pos(e);
        lemma2_to64();
        lemma2_to64_rest();
        assert(pow2(53) * den * pow2(0) == pow2(53) * den) by (nonlinear_arith)
            requires
                pow2(0) == 1,
        ;
        assert(e >= 1);
        lemma_pow2_unfold(e);
        let half = pow2((e - 1) as nat);
        assert(num >= 128 * (den * unit)) by (nonlinear_arith)
            requires
                num >= pow2(53) * den * half,
                unit == 2 * half,
                pow2(53) >= 256,
                den > 0,
        ;
        assert(den * unit > 0) by (nonlinear_arith)
            requires
                den > 0,
                unit > 0,
        ;
        lemma_round_at_least(num, den * unit, 128);
        let up = round_half_even(num, den * unit);
        assert(up * unit >= 128) by (nonlinear_arith)
            requires
                up >= 128,
                unit >= 1,
        ;
    }
    assert(d.num >= 128 * d.den);
    assert(d.den > 0);
    assert(2 * d.num + d.den >= 128 * (2 * d.den));
    lemma_quotient_at_least(2 * d.num + d.den, 2 * d.den, 128);
}

/// What `dropped_bits` returns.
pub proof fn lemma_dropped_bits_found(num: nat, den: nat, e: nat)
    requires
        den > 0,
    ensures
        ({
            let t = dropped_bits(num, den, e);
            &&& e <= t
            &&& num < pow2(53) * den * pow2(t)
            &&& t > e ==> num >= pow2(53) * den * pow2((t - 1) as nat)
        }),
    decreases num - e,
{
    if e >= num {
        lemma_pow2_exceeds(e);
        lemma2_to64_rest();
        assert(num < pow2(53) * den * pow2(e)) by (nonlinear_arith)
            requires
                num < pow2(e),
                pow2(53) >= 1,
                den >= 1,
        ;
    } else if num >= pow2(53) * den * pow2(e) {
        lemma_dropped_bits_found(num, den, e + 1);
    }
}

proof fn lemma_pow2_exceeds(e: nat)
    ensures
        pow2(e) > e,
    decreases e,
{
    if e == 0 {
        lemma2_to64();
    } else {
        lemma_pow2_exceeds((e - 1) as nat);
        lemma_pow2_unfold(e);
    }
}

proof fn lemma_quotient_at_least(num: nat, den: nat, m: nat)
    requires
        den > 0,
        num >= m * den,
    ensures
        num / den >= m,
{
    lemma_fundamental_div_mod(num as int, den as int);
    assert(num / den >= m) by (nonlinear_arith)
        requires
            num == den * (num / den) + num % den,
            num % den < den,
            num >= m * den,
            den > 0,
    ;
}

/// Doubles below one quarter round to zero.
pub proof fn lemma_round_tiny(r: Ratio, y: nat)
    requires
        r.den > 0,
        y == r.num * pow2(55) / r.den,
        y < pow2(53),
    ensures
        round_half_up(to_double(r)) == 0,
{
    let num = r.num;
    let den = r.den;
    lemma2_to64();
    lemma2_to64_rest();
    lemma_fundamental_div_mod((num * pow2(55)) as int, den as int);
    assert(num * pow2(55) < pow2(53) * den) by (nonlinear_arith)
        requires
            num * pow2(55) == den * y + (num * pow2(55)) % den,
            (num * pow2(55)) % den < den,
            y + 1 <= pow2(53),
            den > 0,
    ;
    assert(num < pow2(53) * den);
    let s = fraction_bits(num, den, 0);
    lemma_fraction_bits_found(num, den, 0);
    assert(s >= 55) by {
        if s < 55 {
            let k = (54 - s) as nat;
            lemma_pow2_adds(s, k);
            lemma_pow2_pos(k);
            assert(num * pow2(54) >= pow2(52) * den) by (nonlinear_arith)
                requires
                    num * pow2(s) >= pow2(52) * den,
                    pow2(54) == pow2(s) * pow2(k),
                    pow2(k) >= 1,
            ;
            assert(num * pow2(55) == 2 * (num * pow2(54))) by (nonlinear_arith)
                requires
                    pow2(55) == 2 * pow2(54),
            ;
        }
    }
    let unit = pow2(s);
    lemma_pow2_unfold(s);
    let half = pow2((s - 1) as nat);
    assert(2 * (num * unit) < (2 * pow2(54) - 1) * den) by (nonlinear_arith)
        requires
            unit == 2 * half,
            num * half < pow2(52) * den,
            pow2(54) == 4 * pow2(52),
            pow2(52) >= 1,
            den > 0,
    ;
    lemma_round_reaches_even(num * unit, den, pow2(54) as int);
    let up = round_half_even(num * unit, den);
    assert(half >= pow2(54)) by {
        if s > 55 {
            lemma_pow2_strictly_increases(54, (s - 1) as nat);
        }
    }
    assert(2 * up + unit < 2 * unit);
    lemma_fundamental_div_mod_converse(
        (2 * up + unit) as int,
        (2 * unit) as int,
        0,
        (2 * up + unit) as int,
    );
}

/// Between one quarter and 128, rounding to a double and then to an integer is
/// one rounding of `y`, the number in units of `2^-55`, with a little added:
/// half the spacing of the doubles of that size.
pub proof fn lemma_round_small(r: Ratio, y: nat, t: nat)
    requires
        r.den > 0,
        y == r.num * pow2(55) / r.den,
        46 <= t <= 54,
        pow2((107 - t) as nat) <= y < pow2((108 - t) as nat),
    ensures
        round_half_up(to_double(r)) == (y + pow2((54 - t) as nat) + pow2(54)) / pow2(55),
{
    let num = r.num;
    let den = r.den;
    lemma2_to64();
    lemma2_to64_rest();
    let all = num * pow2(55);
    lemma_fundamental_div_mod(all as int, den as int);
    let rest = all % den;
    assert(all == den * y + rest);
    // The number of fractional bits is `t`.
    let c = pow2((54 - t) as nat);
    lemma_pow2_pos((54 - t) as nat);
    lemma_pow2_adds(t, (54 - t) as nat);
    lemma_pow2_adds(53, (54 - t) as nat);
    lemma_pow2_adds(54, (54 - t) as nat);
    lemma_pow2_unfold(t);
    let unit = pow2(t);
    let half = pow2((t - 1) as nat);
    assert(unit * c == pow2(54));
    assert(all == 2 * (num * unit) * c) by (nonlinear_arith)
        requires
            all == num * pow2(55),
            pow2(55) == 2 * (unit * c),
    ;
    assert(num * unit >= pow2(52) * den) by (nonlinear_arith)
        requires
            2 * (num * unit) * c == den * y + rest,
            y >= 2 * pow2(52) * c,
            rest >= 0,
            c > 0,
            den > 0,
    ;
    assert(num * half < pow2(52) * den) by (nonlinear_arith)
        requires
            2 * (num * unit) * c == den * y + rest,
            rest < den,
            y + 1 <= 4 * pow2(52) * c,
            unit == 2 * half,
            c > 0,
            den > 0,
    ;
    lemma_fraction_bits(num, den, 0, t);
    assert(num < pow2(53) * den) by (nonlinear_arith)
        requires
            num * half < pow2(52) * den,
            half >= 1,
            pow2(53) >= pow2(52),
            den > 0,
    ;
    // Both sides are the same quotient.
    let up = round_half_even(num * unit, den);
    let p = (y + c + pow2(54)) / pow2(55);
    lemma_fundamental_div_mod((y + c + pow2(54)) as int, pow2(55) as int);
    let low = (2 * p - 1) * half;
    let high = (2 * p + 1) * half;
    assert(half % 2 == 0) by {
        lemma_pow2_unfold((t - 1) as nat);
    }
    assert(low % 2 == 0 && high % 2 == 0) by {
        let h = half / 2;
        assert(half == 2 * h);
        assert(low == 2 * ((2 * p - 1) * h)) by (nonlinear_arith)
            requires
                low == (2 * p - 1) * half,
                half == 2 * h,
        ;
        assert(high == 2 * ((2 * p + 1) * h)) by (nonlinear_arith)
            requires
                high == (2 * p + 1) * half,
                half == 2 * h,
        ;
    }
    assert(half * c == pow2(53)) by (nonlinear_arith)
        requires
            unit * c == pow2(54),
            unit == 2 * half,
            pow2(54) == 2 * pow2(53),
    ;
    assert(2 * (num * unit) >= (2 * low - 1) * den) by {
        assert(y >= (2 * low - 1) * c) by (nonlinear_arith)
            requires
                y + c + pow2(54) >= pow2(55) * p,
                low == (2 * p - 1) * half,
                half * c == pow2(53),
                pow2(55) == 4 * pow2(53),
                pow2(54) == 2 * pow2(53),
        ;
        assert(2 * (num * unit) >= (2 * low - 1) * den) by (nonlinear_arith)
            requires
                2 * (num * unit) * c == den * y + rest,
                y >= (2 * low - 1) * c,
                rest >= 0,
                c > 0,
                den > 0,
        ;
    }
    assert(2 * (num * unit) < (2 * high - 1) * den) by {
        assert(y + 1 <= (2 * high - 1) * c) by (nonlinear_arith)
            requires
                y + c + pow2(54) + 1 <= pow2(55) * p + pow2(55),
                high == (2 * p + 1) * half,
                half * c == pow2(53),
                pow2(55) == 4 * pow2(53),
                pow2(54) == 2 * pow2(53),
        ;
        assert(2 * (num * unit) < (2 * high - 1) * den) by (nonlinear_arith)
            requires
                2 * (num * unit) * c == den * y + rest,
                y + 1 <= (2 * high - 1) * c,
                rest < den,
                c > 0,
                den > 0,
        ;
    }
    lemma_round_reaches_even(num * unit, den, low);
    lemma_round_reaches_even(num * unit, den, high as int);
    assert(low <= up < high);
    let over = 2 * up + unit - 2 * unit * p;
    assert(0 <= over < 2 * unit) by (nonlinear_arith)
        requires
            over == 2 * up + unit - 2 * unit * p,
            (2 * p - 1) * half <= up < (2 * p + 1) * half,
            unit == 2 * half,
    ;
    assert(2 * up + unit == p * (2 * unit) + over) by (nonlinear_arith)
        requires
            over == 2 * up + unit - 2 * unit * p,
    ;
    lemma_fundamental_div_mod_converse(
        (2 * up + unit) as int,
        (2 * unit) as int,
        p as int,
        over,
    );
}

/// Whether two ratios are the same number.
pub open spec fn same_value(a: Ratio, b: Ratio) -> bool {
    a.num * b.den == b.num * a.den
}

/// Rounding depends on the number alone.
pub proof fn lemma_round_same_value(num1: nat, den1: nat, num2: nat, den2: nat)
    requires
        den1 > 0,
        den2 > 0,
        num1 * den2 == num2 * den1,
    ensures
        round_half_even(num1, den1) == round_half_even(num2, den2),
{
    let q = num1 / den1;
    let r1 = num1 % den1;
    lemma_fundamental_div_mod(num1 as int, den1 as int);
    let r2 = num2 - q * den2;
    assert(r2 * den1 == r1 * den2) by (nonlinear_arith)
        requires
            num1 == den1 * q + r1,
            num1 * den2 == num2 * den1,
            r2 == num2 - q * den2,
    ;
    assert(r2 >= 0) by (nonlinear_arith)
        requires
            r2 * den1 == r1 * den2,
            r1 >= 0,
            den1 > 0,
            den2 > 0,
    ;
    assert(r2 < den2) by (nonlinear_arith)
        requires
            r2 * den1 == r1 * den2,
            r1 < den1,
            den1 > 0,
            den2 > 0,
    ;
    lemma_fundamental_div_mod_converse(num2 as int, den2 as int, q as int, r2);
    assert((2 * r1 < den1) == (2 * r2 < den2)) by (nonlinear_arith)
        requires
            r2 * den1 == r1 * den2,
            den1 > 0,
            den2 > 0,
    ;
    assert((2 * r1 == den1) == (2 * r2 == den2)) by (nonlinear_arith)
        requires
            r2 * den1 == r1 * den2,
            den1 > 0,
            den2 > 0,
    ;
}

/// Comparing with a multiple of the denominator depends on the number alone.
proof fn lemma_compare_same_value(
    num1: nat,
    den1: nat,
    num2: nat,
    den2: nat,
    left: nat,
    right: nat,
)
    requires
        den1 > 0,
        den2 > 0,
        num1 * den2 == num2 * den1,
    ensures
        num1 * left >= right * den1 <==> num2 * left >= right * den2,
{
    assert((num1 * left) * den2 == (num2 * left) * den1) by (nonlinear_arith)
        requires
            num1 * den2 == num2 * den1,
    ;
    assert((right * den1) * den2 == (right * den2) * den1) by (nonlinear_arith);
    let a = num1 * left;
    let b = right * den1;
    let c = num2 * left;
    let d = right * den2;
    assert(a >= b <==> c >= d) by (nonlinear_arith)
        requires
            a * den2 == c * den1,
            b * den2 == d * den1,
            den1 > 0,
            den2 > 0,
    ;
}

proof fn lemma_fraction_bits_same_value(num1: nat, den1: nat, num2: nat, den2: nat, s: nat)
    requires
        den1 > 0,
        den2 > 0,
        num1 * den2 == num2 * den1,
    ensures
        fraction_bits(num1, den1, s) == fraction_bits(num2, den2, s),
    decreases 1074 - s,
{
    lemma_compare_same_value(num1, den1, num2, den2, pow2(s), pow2(52));
    if s < 1074 && num1 * pow2(s) < pow2(52) * den1 {
        lemma_fraction_bits_same_value(num1, den1, num2, den2, s + 1);
    }
}

/// `t` is the number of dropped bits where the number fits above `t` bits and
/// does not fit above one bit fewer.
pub proof fn lemma_dropped_bits(num: nat, den: nat, t: nat)
    requires
        den > 0,
        num < pow2(53) * den * pow2(t),
        t > 0 ==> num >= pow2(53) * den * pow2((t - 1) as nat),
    ensures
        dropped_bits(num, den, 0) == t,
{
    lemma_dropped_bits_found(num, den, 0);
    let u = dropped_bits(num, den, 0);
    let c = pow2(53) * den;
    if u < t {
        if u < t - 1 {
            lemma_pow2_strictly_increases(u, (t - 1) as nat);
        }
        assert(c * pow2(u) <= c * pow2((t - 1) as nat)) by (nonlinear_arith)
            requires
                pow2(u) <= pow2((t - 1) as nat),
        ;
    } else if t < u {
        if t < u - 1 {
            lemma_pow2_strictly_increases(t, (u - 1) as nat);
        }
        assert(c * pow2(t) <= c * pow2((u - 1) as nat)) by (nonlinear_arith)
            requires
                pow2(t) <= pow2((u - 1) as nat),
        ;
    }
}

/// The nearest double depends on the number alone.
pub proof fn lemma_to_double_same_value(a: Ratio, b: Ratio)
    requires
        a.den > 0,
        b.den > 0,
        same_value(a, b),
    ensures
        to_double(a) == to_double(b),
{
    lemma_compare_same_value(a.num, a.den, b.num, b.den, 1, pow2(53));
    if a.num < pow2(53) * a.den {
        lemma_fraction_bits_same_value(a.num, a.den, b.num, b.den, 0);
        let unit = pow2(fraction_bits(a.num, a.den, 0));
        assert((a.num * unit) * b.den == (b.num * unit) * a.den) by (nonlinear_arith)
            requires
                a.num * b.den == b.num * a.den,
        ;
        lemma_round_same_value(a.num * unit, a.den, b.num * unit, b.den);
    } else {
        let t = dropped_bits(a.num, a.den, 0);
        lemma_dropped_bits_found(a.num, a.den, 0);
        let unit = pow2(t);
        lemma_pow2_pos(t);
        lemma_compare_same_value(a.num, a.den, b.num, b.den, 1, pow2(53) * unit);
        assert(pow2(53) * a.den * unit == (pow2(53) * unit) * a.den) by (nonlinear_arith);
        assert(pow2(53) * b.den * unit == (pow2(53) * unit) * b.den) by (nonlinear_arith);
        if t > 0 {
            let half = pow2((t - 1) as nat);
            lemma_compare_same_value(a.num, a.den, b.num, b.den, 1, pow2(53) * half);
            assert(pow2(53) * a.den * half == (pow2(53) * half) * a.den) by (nonlinear_arith);
            assert(pow2(53) * b.den * half == (pow2(53) * half) * b.den) by (nonlinear_arith);
        }
        lemma_dropped_bits(b.num, b.den, t);
        assert(a.den * unit > 0 && b.den * unit > 0) by (nonlinear_arith)
            requires
                a.den > 0,
                b.den > 0,
                unit > 0,
        ;
        assert(a.num * (b.den * unit) == b.num * (a.den * unit)) by (nonlinear_arith)
            requires
                a.num * b.den == b.num * a.den,
        ;
        lemma_round_same_value(a.num, a.den * unit, b.num, b.den * unit);
    }
}

/// A ratio that is an integer is rounded as the integer is.
pub proof fn lemma_to_double_integer(r: Ratio, n: nat)
    requires
        r.den > 0,
        r.num == n * r.den,
    ensures
        to_double(r) == to_double(Ratio { num: n, den: 1 }),
{
    let whole = Ratio { num: n, den: 1 };
    assert(r.num * whole.den == whole.num * r.den) by (nonlinear_arith)
        requires
            r.num == n * r.den,
            whole.num == n,
            whole.den == 1,
    ;
    lemma_to_double_same_value(r, whole);
}

/// Whether one ratio is at most another.
pub open spec fn at_most(a: Ratio, b: Ratio) -> bool {
    a.num * b.den <= b.num * a.den
}

/// Rounding keeps the order of numbers, whatever their denominators.
proof fn lemma_round_at_most_ratio(num1: nat, den1: nat, num2: nat, den2: nat)
    requires
        den1 > 0,
        den2 > 0,
        num1 * den2 <= num2 * den1,
    ensures
        round_half_even(num1, den1) <= round_half_even(num2, den2),
{
    let den = den1 * den2;
    assert(den > 0) by (nonlinear_arith)
        requires
            den == den1 * den2,
            den1 > 0,
            den2 > 0,
    ;
    assert(num1 * den == (num1 * den2) * den1 && num2 * den == (num2 * den1) * den2)
        by (nonlinear_arith)
        requires
            den == den1 * den2,
    ;
    lemma_round_same_value(num1, den1, num1 * den2, den);
    lemma_round_same_value(num2, den2, num2 * den1, den);
    lemma_round_monotonic(num1 * den2, num2 * den1, den);
}

/// The double nearest to a number below `2^53`, in units of its spacing, is
/// between `2^52` and `2^53`, unless no finer spacing exists.
proof fn lemma_fine_double(r: Ratio)
    requires
        r.den > 0,
        r.num < pow2(53) * r.den,
    ensures
        ({
            let s = fraction_bits(r.num, r.den, 0);
            let d = to_double(r);
            &&& s <= 1074
            &&& d.den == pow2(s)
            &&& d.den > 0
            &&& d.num <= pow2(53)
            &&& s < 1074 ==> d.num >= pow2(52)
            &&& s < 1074 ==> r.num * pow2(s) >= pow2(52) * r.den
            &&& s > 0 ==> r.num * pow2((s - 1) as nat) < pow2(52) * r.den
        }),
{
    let s = fraction_bits(r.num, r.den, 0);
    lemma_fraction_bits_found(r.num, r.den, 0);
    lemma_pow2_pos(s);
    lemma2_to64();
    lemma2_to64_rest();
    let unit = pow2(s);
    if s > 0 {
        lemma_pow2_unfold(s);
        assert(r.num * unit <= pow2(53) * r.den) by (nonlinear_arith)
            requires
                r.num * pow2((s - 1) as nat) < pow2(52) * r.den,
                unit == 2 * pow2((s - 1) as nat),
                pow2(53) == 2 * pow2(52),
        ;
    } else {
        assert(r.num * unit <= pow2(53) * r.den) by (nonlinear_arith)
            requires
                r.num < pow2(53) * r.den,
                unit == 1,
        ;
    }
    lemma_round_at_most(r.num * unit, r.den, pow2(53));
    if s < 1074 {
        lemma_round_at_least(r.num * unit, r.den, pow2(52));
    }
}

/// The double nearest to a number of at least `2^53` is an integer, between
/// `2^52` and `2^53` times its unit.
proof fn lemma_coarse_double(r: Ratio)
    requires
        r.den > 0,
        r.num >= pow2(53) * r.den,
    ensures
        ({
            let e = dropped_bits(r.num, r.den, 0);
            let d = to_double(r);
            &&& e > 0
            &&& d.den == 1
            &&& d.num == round_half_even(r.num, r.den * pow2(e)) * pow2(e)
            &&& pow2(52) * pow2(e) <= d.num <= pow2(53) * pow2(e)
            &&& r.num < pow2(53) * r.den * pow2(e)
            &&& r.num >= pow2(53) * r.den * pow2((e - 1) as nat)
        }),
{
    let e = dropped_bits(r.num, r.den, 0);
    lemma_dropped_bits_found(r.num, r.den, 0);
    lemma2_to64();
    lemma2_to64_rest();
    assert(pow2(53) * r.den * pow2(0) == pow2(53) * r.den) by (nonlinear_arith)
        requires
            pow2(0) == 1,
    ;
    lemma_pow2_pos(e);
    lemma_pow2_unfold(e);
    let unit = pow2(e);
    let half = pow2((e - 1) as nat);
    let den = r.den * unit;
    assert(den > 0) by (nonlinear_arith)
        requires
            den == r.den * unit,
            r.den > 0,
            unit > 0,
    ;
    assert(r.num >= pow2(52) * den) by (nonlinear_arith)
        requires
            r.num >= pow2(53) * r.den * half,
            pow2(53) == 2 * pow2(52),
            unit == 2 * half,
            den == r.den * unit,
    ;
    assert(r.num <= pow2(53) * den) by (nonlinear_arith)
        requires
            r.num < pow2(53) * r.den * unit,
            den == r.den * unit,
    ;
    lemma_round_at_least(r.num, den, pow2(52));
    lemma_round_at_most(r.num, den, pow2(53));
    let m = round_half_even(r.num, den);
    assert(pow2(52) * unit <= m * unit <= pow2(53) * unit) by (nonlinear_arith)
        requires
            pow2(52) <= m <= pow2(53),
    ;
}

/// Rounding to doubles keeps the order of numbers.
pub proof fn lemma_to_double_monotonic(a: Ratio, b: Ratio)
    requires
        a.den > 0,
        b.den > 0,
        at_most(a, b),
    ensures
        to_double(a).den > 0,
        to_double(b).den > 0,
        at_most(to_double(a), to_double(b)),
{
    lemma2_to64();
    lemma2_to64_rest();
    let da = to_double(a);
    let db = to_double(b);
    if b.num < pow2(53) * b.den {
        assert(a.num < pow2(53) * a.den) by (nonlinear_arith)
            requires
                b.num < pow2(53) * b.den,
                a.num * b.den <= b.num * a.den,
                a.den > 0,
                b.den > 0,
        ;
        lemma_fine_monotonic(a, b);
    } else if a.num < pow2(53) * a.den {
        lemma_fine_double(a);
        lemma_coarse_double(b);
        let e = dropped_bits(b.num, b.den, 0);
        lemma_pow2_unfold(e);
        lemma_pow2_pos((e - 1) as nat);
        assert(db.num >= pow2(53)) by (nonlinear_arith)
            requires
                db.num >= pow2(52) * pow2(e),
                pow2(53) == 2 * pow2(52),
                pow2(e) >= 2,
        ;
        assert(da.num * 1 <= db.num * da.den) by (nonlinear_arith)
            requires
                da.num <= pow2(53),
                db.num >= pow2(53),
                da.den >= 1,
        ;
    } else {
        lemma_coarse_monotonic(a, b);
    }
}

proof fn lemma_fine_monotonic(a: Ratio, b: Ratio)
    requires
        a.den > 0,
        b.den > 0,
        at_most(a, b),
        a.num < pow2(53) * a.den,
        b.num < pow2(53) * b.den,
    ensures
        to_double(a).den > 0,
        to_double(b).den > 0,
        at_most(to_double(a), to_double(b)),
{
    lemma2_to64_rest();
    let da = to_double(a);
    let db = to_double(b);
    lemma_fine_double(a);
    lemma_fine_double(b);
    let s = fraction_bits(a.num, a.den, 0);
    let t = fraction_bits(b.num, b.den, 0);
    if s == t {
        let unit = pow2(s);
        assert((a.num * unit) * b.den <= (b.num * unit) * a.den) by (nonlinear_arith)
            requires
                a.num * b.den <= b.num * a.den,
        ;
        lemma_round_at_most_ratio(a.num * unit, a.den, b.num * unit, b.den);
        assert(da.num * unit <= db.num * unit) by (nonlinear_arith)
            requires
                da.num <= db.num,
        ;
    } else if t < s {
        // The spacing at `b` is at least twice the spacing at `a`.
        lemma_pow2_unfold(s);
        if t < s - 1 {
            lemma_pow2_strictly_increases(t, (s - 1) as nat);
        }
        assert(da.num * db.den <= db.num * da.den) by (nonlinear_arith)
            requires
                da.num <= pow2(53),
                db.num >= pow2(52),
                pow2(53) == 2 * pow2(52),
                da.den == 2 * pow2((s - 1) as nat),
                db.den <= pow2((s - 1) as nat),
        ;
    } else {
        // A smaller number never has fewer fractional bits.
        let half = pow2((t - 1) as nat);
        if s < t - 1 {
            lemma_pow2_strictly_increases(s, (t - 1) as nat);
        }
        assert(a.num * half >= pow2(52) * a.den) by (nonlinear_arith)
            requires
                a.num * pow2(s) >= pow2(52) * a.den,
                pow2(s) <= half,
        ;
        lemma_scaled_order(a, b, half, pow2(52));
    }
}

/// A number that reaches a bound after scaling is reached by a larger one.
proof fn lemma_scaled_order(a: Ratio, b: Ratio, scale: nat, bound: nat)
    requires
        a.den > 0,
        b.den > 0,
        at_most(a, b),
        a.num * scale >= bound * a.den,
    ensures
        b.num * scale >= bound * b.den,
{
    assert((b.num * a.den) * scale >= (a.num * b.den) * scale) by (nonlinear_arith)
        requires
            b.num * a.den >= a.num * b.den,
    ;
    assert((a.num * b.den) * scale == (a.num * scale) * b.den) by (nonlinear_arith);
    assert((b.num * a.den) * scale == (b.num * scale) * a.den) by (nonlinear_arith);
    assert((a.num * scale) * b.den >= (bound * a.den) * b.den) by (nonlinear_arith)
        requires
            a.num * scale >= bound * a.den,
    ;
    let x = b.num * scale;
    let y = bound * b.den;
    assert((bound * a.den) * b.den == y * a.den) by (nonlinear_arith)
        requires
            y == bound * b.den,
    ;
    assert(x >= y) by (nonlinear_arith)
        requires
            x * a.den >= y * a.den,
            a.den > 0,
    ;
}

proof fn lemma_coarse_monotonic(a: Ratio, b: Ratio)
    requires
        a.den > 0,
        b.den > 0,
        at_most(a, b),
        a.num >= pow2(53) * a.den,
        b.num >= pow2(53) * b.den,
    ensures
        to_double(a).den > 0,
        to_double(b).den > 0,
        at_most(to_double(a), to_double(b)),
{
    lemma2_to64_rest();
    let da = to_double(a);
    let db = to_double(b);
    lemma_coarse_double(a);
    lemma_coarse_double(b);
    let e = dropped_bits(a.num, a.den, 0);
    let f = dropped_bits(b.num, b.den, 0);
    lemma_pow2_pos(e);
    lemma_pow2_pos(f);
    if e == f {
        let unit = pow2(e);
        assert(a.den * unit > 0 && b.den * unit > 0) by (nonlinear_arith)
            requires
                a.den > 0,
                b.den > 0,
                unit > 0,
        ;
        assert(a.num * (b.den * unit) <= b.num * (a.den * unit)) by (nonlinear_arith)
            requires
                a.num * b.den <= b.num * a.den,
        ;
        lemma_round_at_most_ratio(a.num, a.den * unit, b.num, b.den * unit);
        let m = round_half_even(a.num, a.den * unit);
        let n = round_half_even(b.num, b.den * unit);
        assert(m * unit <= n * unit) by (nonlinear_arith)
            requires
                m <= n,
        ;
    } else if e < f {
        // The spacing at `b` is at least twice the spacing at `a`.
        lemma_pow2_unfold(f);
        if e < f - 1 {
            lemma_pow2_strictly_increases(e, (f - 1) as nat);
        }
        assert(pow2(53) * pow2(e) <= pow2(52) * pow2(f)) by (nonlinear_arith)
            requires
                pow2(53) == 2 * pow2(52),
                pow2(e) <= pow2((f - 1) as nat),
                pow2(f) == 2 * pow2((f - 1) as nat),
        ;
    } else {
        // A larger number never has fewer dropped bits.
        let half = pow2((e - 1) as nat);
        if f < e - 1 {
            lemma_pow2_strictly_increases(f, (e - 1) as nat);
        }
        assert(a.num * 1 >= (pow2(53) * pow2(f)) * a.den) by (nonlinear_arith)
            requires
                a.num >= pow2(53) * a.den * half,
                pow2(f) <= half,
        ;
        lemma_scaled_order(a, b, 1, pow2(53) * pow2(f));
        assert(pow2(53) * b.den * pow2(f) == (pow2(53) * pow2(f)) * b.den) by (nonlinear_arith);
    }
}

/// The quotients of ordered ratios, rounded down, are in order.
pub proof fn lemma_truncate_monotonic(a: Ratio, b: Ratio)
    requires
        a.den > 0,
        b.den > 0,
        at_most(a, b),
    ensures
        truncate(a) <= truncate(b),
{
    let q = a.num / a.den;
    lemma_fundamental_div_mod(a.num as int, a.den as int);
    assert(a.num * 1 >= q * a.den) by (nonlinear_arith)
        requires
            a.num == a.den * q + a.num % a.den,
            a.num % a.den >= 0,
    ;
    lemma_scaled_order(a, b, 1, q);
    lemma_quotient_at_least(b.num, b.den, q);
}

/// Rounding to the nearest integer keeps the order of numbers.
pub proof fn lemma_round_half_up_monotonic(a: Ratio, b: Ratio)
    requires
        a.den > 0,
        b.den > 0,
        at_most(a, b),
    ensures
        round_half_up(a) <= round_half_up(b),
{
    let x = Ratio { num: 2 * a.num + a.den, den: 2 * a.den };
    let y = Ratio { num: 2 * b.num + b.den, den: 2 * b.den };
    assert(x.num * y.den <= y.num * x.den) by (nonlinear_arith)
        requires
            x.num == 2 * a.num + a.den,
            x.den == 2 * a.den,
            y.num == 2 * b.num + b.den,
            y.den == 2 * b.den,
            a.num * b.den <= b.num * a.den,
    ;
    lemma_truncate_monotonic(x, y);
}

/// An integer below `2^53` is a double.
pub proof fn lemma_small_integer(n: nat)
    requires
        n < pow2(53),
    ensures
        ({
            let d = to_double(Ratio { num: n, den: 1 });
            &&& d.den > 0
            &&& d.num == n * d.den
            &&& round_half_up(d) == n
        }),
{
    let s = fraction_bits(n, 1, 0);
    lemma_pow2_pos(s);
    let unit = pow2(s);
    let whole = n * unit;
    assert(whole / 1 == whole && whole % 1 == 0);
    assert(2 * whole + unit == n * (2 * unit) + unit) by (nonlinear_arith)
        requires
            whole == n * unit,
    ;
    lemma_fundamental_div_mod_converse(
        (2 * whole + unit) as int,
        (2 * unit) as int,
        n as int,
        unit as int,
    );
}

/// Multiples of `1/1024` that are not too large are doubles.
pub proof fn lemma_dyadic(num: nat)
    requires
        num < 0x1_0000_0000,
    ensures
        round_half_up(to_double(Ratio { num, den: 1024 })) == round_half_up(
            Ratio { num, den: 1024 },
        ),
{
    let r = Ratio { num, den: 1024 };
    lemma2_to64();
    lemma2_to64_rest();
    let s = fraction_bits(num, 1024, 0);
    lemma_fraction_bits_found(num, 1024, 0);
    assert(s >= 10) by {
        if s < 10 {
            lemma_pow2_strictly_increases(s, 10);
            assert(num * pow2(s) < pow2(52) * 1024) by (nonlinear_arith)
                requires
                    num < 0x1_0000_0000,
                    pow2(s) <= 1024,
                    pow2(52) == 0x10_0000_0000_0000,
            ;
        }
    }
    let k = (s - 10) as nat;
    lemma_pow2_adds(k, 10);
    lemma_pow2_pos(k);
    let unit = pow2(s);
    let part = pow2(k);
    let up = num * part;
    assert(num * unit == up * 1024) by (nonlinear_arith)
        requires
            unit == part * 1024,
            up == num * part,
    ;
    lemma_round_at_least(num * unit, 1024, up);
    lemma_round_at_most(num * unit, 1024, up);
    let d = to_double(r);
    assert(d == (Ratio { num: up, den: unit }));
    assert(d.num * r.den == r.num * d.den) by (nonlinear_arith)
        requires
            d.num == up,
            d.den == unit,
            r.num == num,
            r.den == 1024,
            num * unit == up * 1024,
    ;
    lemma_pow2_pos(s);
    lemma_round_half_up_monotonic(d, r);
    lemma_round_half_up_monotonic(r, d);
}

/// `a` exceeds `b` by at most `m` parts in `2^53`.
pub open spec fn little_above(a: Ratio, b: Ratio, m: nat) -> bool {
    a.num * b.den * pow2(53) <= b.num * a.den * (pow2(53) + m)
}

/// `a` falls short of `b` by at most `m` parts in `2^53`.
pub open spec fn little_below(a: Ratio, b: Ratio, m: nat) -> bool {
    a.num * b.den * pow2(53) >= b.num * a.den * (pow2(53) - m)
}

/// Rounding moves a number by a half at most.
proof fn lemma_round_distance(num: nat, den: nat)
    requires
        den > 0,
    ensures
        2 * (round_half_even(num, den) * den) <= 2 * num + den,
        2 * (round_half_even(num, den) * den) + den >= 2 * num,
{
    lemma_fundamental_div_mod(num as int, den as int);
    let below = num / den;
    let rest = num % den;
    let up = round_half_even(num, den);
    if up == below {
        assert(up * den == den * below) by (nonlinear_arith)
            requires
                up == below,
        ;
    } else {
        assert(up * den == den * below + den) by (nonlinear_arith)
            requires
                up == below + 1,
        ;
    }
}

/// Rounding to a double moves a number by one part in `2^53` at most, unless it is
/// very small.
pub proof fn lemma_double_near(r: Ratio)
    requires
        r.den > 0,
        r.den <= r.num * pow2(200),
    ensures
        to_double(r).den > 0,
        little_above(to_double(r), r, 1),
        little_below(to_double(r), r, 1),
{
    lemma2_to64();
    lemma2_to64_rest();
    let d = to_double(r);
    let big = pow2(53);
    if r.num < big * r.den {
        lemma_fine_double(r);
        let s = fraction_bits(r.num, r.den, 0);
        assert(s < 1074) by {
            if s >= 1074 {
                lemma_pow2_adds(52, 200);
                lemma_pow2_strictly_increases(252, 1073);
                assert(r.num * pow2(1073) >= pow2(52) * r.den) by (nonlinear_arith)
                    requires
                        r.den <= r.num * pow2(200),
                        pow2(252) == pow2(52) * pow2(200),
                        pow2(1073) >= pow2(252),
                ;
            }
        }
        let unit = pow2(s);
        let x = r.num * unit;
        lemma_round_distance(x, r.den);
        lemma_near(d.num * r.den, x, r.den);
        assert(d.num * r.den * big <= r.num * d.den * (big + 1));
        assert(d.num * r.den * big >= r.num * d.den * (big - 1));
    } else {
        lemma_coarse_double(r);
        let e = dropped_bits(r.num, r.den, 0);
        let unit = pow2(e);
        lemma_pow2_unfold(e);
        lemma_pow2_pos(e);
        let half = pow2((e - 1) as nat);
        let den = r.den * unit;
        assert(den > 0) by (nonlinear_arith)
            requires
                den == r.den * unit,
                r.den > 0,
                unit > 0,
        ;
        assert(r.num >= pow2(52) * den) by (nonlinear_arith)
            requires
                r.num >= pow2(53) * r.den * half,
                pow2(53) == 2 * pow2(52),
                unit == 2 * half,
                den == r.den * unit,
        ;
        let m = round_half_even(r.num, den);
        lemma_round_distance(r.num, den);
        lemma_near(m * den, r.num, den);
        assert(d.num * r.den == m * den) by (nonlinear_arith)
            requires
                d.num == m * unit,
                den == r.den * unit,
        ;
        assert(r.num * d.den == r.num) by (nonlinear_arith)
            requires
                d.den == 1,
        ;
    }
}

/// A distance of a half is one part in `2^53` of a number of at least `2^52`.
proof fn lemma_near(rounded: nat, exact: nat, den: nat)
    requires
        2 * rounded <= 2 * exact + den,
        2 * rounded + den >= 2 * exact,
        exact >= pow2(52) * den,
    ensures
        rounded * pow2(53) <= exact * (pow2(53) + 1),
        rounded * pow2(53) >= exact * (pow2(53) - 1),
{
    lemma2_to64_rest();
    let half = pow2(52);
    let big = pow2(53);
    assert(rounded * big <= exact * (big + 1)) by (nonlinear_arith)
        requires
            2 * rounded <= 2 * exact + den,
            exact >= half * den,
            big == 2 * half,
    ;
    assert(rounded * big >= exact * (big - 1)) by (nonlinear_arith)
        requires
            2 * rounded + den >= 2 * exact,
            exact >= half * den,
            big == 2 * half,
    ;
}

/// Small excesses add up.
pub proof fn lemma_above_adds(a: Ratio, b: Ratio, c: Ratio, m: nat, n: nat)
    requires
        b.den > 0,
        little_above(a, b, m),
        little_above(b, c, n),
        m <= 100,
        n <= 100,
    ensures
        little_above(a, c, m + n + 1),
{
    lemma2_to64_rest();
    let t = pow2(53);
    let x = a.num * b.den;
    let y = b.num * a.den;
    let u = b.num * c.den;
    let v = c.num * b.den;
    assert(x * t <= y * (t + m));
    assert(u * t <= v * (t + n));
    // Both sides times `c.den * t`, over `b.num`, and back.
    assert((x * t) * (c.den * t) <= (y * (t + m)) * (c.den * t)) by (nonlinear_arith)
        requires
            x * t <= y * (t + m),
    ;
    assert((y * (t + m)) * (c.den * t) == (u * t) * (a.den * (t + m))) by (nonlinear_arith)
        requires
            y == b.num * a.den,
            u == b.num * c.den,
    ;
    assert((u * t) * (a.den * (t + m)) <= (v * (t + n)) * (a.den * (t + m))) by (nonlinear_arith)
        requires
            u * t <= v * (t + n),
    ;
    let p = a.num * c.den;
    let q = c.num * a.den;
    let w = b.den;
    assert((x * t) * (c.den * t) == w * (p * (t * t))) by (nonlinear_arith)
        requires
            x == a.num * w,
            p == a.num * c.den,
    ;
    assert((v * (t + n)) * (a.den * (t + m)) == w * (q * ((t + n) * (t + m)))) by (nonlinear_arith)
        requires
            v == c.num * w,
            q == c.num * a.den,
    ;
    assert(p * (t * t) <= q * ((t + n) * (t + m))) by (nonlinear_arith)
        requires
            w * (p * (t * t)) <= w * (q * ((t + n) * (t + m))),
            w > 0,
    ;
    let k = t + m + n + 1;
    assert((t + n) * (t + m) <= t * k) by (nonlinear_arith)
        requires
            k == t + m + n + 1,
            m <= 100,
            n <= 100,
            t >= 10_000,
    ;
    assert(q * ((t + n) * (t + m)) <= q * (t * k)) by (nonlinear_arith)
        requires
            (t + n) * (t + m) <= t * k,
    ;
    assert(p * t <= q * k) by (nonlinear_arith)
        requires
            p * (t * t) <= q * (t * k),
            t > 0,
    ;
}

/// Small shortfalls add up.
pub proof fn lemma_below_adds(a: Ratio, b: Ratio, c: Ratio, m: nat, n: nat)
    requires
        b.den > 0,
        little_below(a, b, m),
        little_below(b, c, n),
        m <= 100,
        n <= 100,
    ensures
        little_below(a, c, m + n),
{
    lemma2_to64_rest();
    let t = pow2(53) as int;
    let tm = t - m;
    let tn = t - n;
    let x = a.num * b.den;
    let y = b.num * a.den;
    let u = b.num * c.den;
    let v = c.num * b.den;
    assert(x * t >= y * tm);
    assert(u * t >= v * tn);
    assert((x * t) * (c.den * t) >= (y * tm) * (c.den * t)) by (nonlinear_arith)
        requires
            x * t >= y * tm,
            t > 0,
    ;
    assert((y * tm) * (c.den * t) == (u * t) * (a.den * tm)) by (nonlinear_arith)
        requires
            y == b.num * a.den,
            u == b.num * c.den,
    ;
    assert((u * t) * (a.den * tm) >= (v * tn) * (a.den * tm)) by (nonlinear_arith)
        requires
            u * t >= v * tn,
            tm >= 0,
    ;
    let p = a.num * c.den;
    let q = c.num * a.den;
    let w = b.den;
    assert((x * t) * (c.den * t) == w * (p * (t * t))) by (nonlinear_arith)
        requires
            x == a.num * w,
            p == a.num * c.den,
    ;
    assert((v * tn) * (a.den * tm) == w * (q * (tn * tm))) by (nonlinear_arith)
        requires
            v == c.num * w,
            q == c.num * a.den,
    ;
    assert(p * (t * t) >= q * (tn * tm)) by (nonlinear_arith)
        requires
            w * (p * (t * t)) >= w * (q * (tn * tm)),
            w > 0,
    ;
    let k = t - (m + n);
    assert(tn * tm >= t * k) by (nonlinear_arith)
        requires
            k == t - (m + n),
            tm == t - m,
            tn == t - n,
    ;
    assert(q * (tn * tm) >= q * (t * k)) by (nonlinear_arith)
        requires
            tn * tm >= t * k,
    ;
    assert(p * t >= q * k) by (nonlinear_arith)
        requires
            p * (t * t) >= q * (t * k),
            t > 0,
    ;
}

} // verus!
