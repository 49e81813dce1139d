//! The percentage that a part is of a whole, as double-precision arithmetic
//! computes it.

use vstd::arithmetic::div_mod::{lemma_div_denominator, lemma_fundamental_div_mod};
use vstd::arithmetic::power2::{
    lemma2_to64, lemma2_to64_rest, lemma_pow2_adds, lemma_pow2_pos, lemma_pow2_strictly_increases,
    lemma_pow2_unfold, pow2,
};
use vstd::prelude::*;

use crate::double::{
    dropped_bits, fraction_bits, lemma_above_adds, lemma_below_adds, lemma_double_near,
    lemma_dropped_bits, lemma_dropped_bits_found, lemma_fraction_bits, lemma_round_at_least,
    lemma_round_at_most, lemma_round_same_value, lemma_small_integer, lemma_to_double_integer,
    lemma_to_double_monotonic, lemma_to_double_same_value, lemma_truncate_monotonic, little_above,
    little_below, round_half_even, to_double, truncate, Ratio,
};

verus! {

/// `n` as a double.
pub open spec fn integer_double(n: nat) -> Ratio {
    to_double(Ratio { num: n, den: 1 })
}

/// The quotient of two doubles, as a double.
pub open spec fn double_quotient(a: Ratio, b: Ratio) -> Ratio {
    to_double(Ratio { num: a.num * b.den, den: a.den * b.num })
}

/// A hundred times a double, as a double.
pub open spec fn hundredfold(a: Ratio) -> Ratio {
    to_double(Ratio { num: a.num * 100, den: a.den })
}

/// `part / whole * 100` in doubles, without the fraction, and limited to the
/// range of the result. A part of nothing is infinite; nothing of nothing is
/// not a number, which counts as zero.
pub open spec fn done_percent_of(part: nat, whole: nat) -> nat {
    if whole == 0 {
        if part == 0 {
            0
        } else {
            usize::MAX as nat
        }
    } else {
        let p = truncate(
            hundredfold(double_quotient(integer_double(part), integer_double(whole))),
        );
        if p > usize::MAX {
            usize::MAX as nat
        } else {
            p
        }
    }
}

/// `num / den`, rounded to the nearest integer, ties to even.
fn round_quotient(num: u128, den: u128) -> (r: u128)
    requires
        0 < den <= 0x1000_0000_0000_0000_0000_0000_0000_0000,
        num / den < u128::MAX,
    ensures
        r == round_half_even(num as nat, den as nat),
{
    let below: u128 = num / den;
    let rest: u128 = num % den;
    if 2 * rest < den || (2 * rest == den && below % 2 == 0) {
        below
    } else {
        below + 1
    }
}

/// `2^52` and `2^53`, between which the significant bits of a double lie.
const LOW: u128 = 0x10_0000_0000_0000;

const HIGH: u128 = 0x20_0000_0000_0000;

/// An integer as a double, which is an integer again.
fn as_double(n: u64) -> (v: u128)
    ensures
        integer_double(n as nat).num == v * integer_double(n as nat).den,
        integer_double(n as nat).den > 0,
        v <= 0x1_0000_0000_0000_0000,
        n > 0 ==> v > 0,
        n == 0 ==> v == 0,
{
    proof {
        lemma2_to64();
        lemma2_to64_rest();
    }
    if (n as u128) < HIGH {
        proof {
            lemma_small_integer(n as nat);
        }
        return n as u128;
    }
    let mut unit: u128 = 1;
    let ghost mut e: nat = 0;
    while n as u128 >= HIGH * unit
        invariant
            n >= HIGH,
            unit == pow2(e),
            1 <= unit <= 0x1_0000,
            e > 0 ==> n >= HIGH * pow2((e - 1) as nat),
        decreases n - unit,
    {
        assert(unit < 0x1_0000);
        proof {
            lemma_pow2_unfold(e + 1);
            e = e + 1;
        }
        unit = unit * 2;
    }
    let m = round_quotient(n as u128, unit);
    proof {
        assert(pow2(53) * 1 * pow2(e) == HIGH * unit);
        assert(e > 0 ==> pow2(53) * 1 * pow2((e - 1) as nat) == HIGH * pow2((e - 1) as nat));
        lemma_dropped_bits(n as nat, 1, e);
        assert(1 * pow2(e) == pow2(e));
        lemma_round_at_most(n as nat, unit as nat, HIGH as nat);
        assert(e > 0) by {
            if e == 0 {
                assert(unit == 1);
            }
        }
        lemma_pow2_unfold(e);
        assert(n >= LOW * unit) by (nonlinear_arith)
            requires
                n >= HIGH * pow2((e - 1) as nat),
                unit == 2 * pow2((e - 1) as nat),
                HIGH == 2 * LOW,
        ;
        lemma_round_at_least(n as nat, unit as nat, LOW as nat);
        assert(unit <= 2048) by {
            if e > 12 {
                lemma_pow2_strictly_increases(11, (e - 1) as nat);
            }
        }
        assert(m * unit <= 0x1_0000_0000_0000_0000) by (nonlinear_arith)
            requires
                m <= HIGH,
                HIGH == 0x20_0000_0000_0000,
                unit <= 2048,
        ;
        assert(m * unit > 0) by (nonlinear_arith)
            requires
                m >= 1,
                unit >= 1,
        ;
    }
    m * unit
}

/// The significant bits of a double and its number of fractional bits, which
/// is negative where low integer bits are dropped.
struct Bits {
    mantissa: u128,
    fraction: i32,
}

impl Bits {
    spec fn ratio(self) -> Ratio {
        if self.fraction >= 0 {
            Ratio { num: self.mantissa as nat, den: pow2(self.fraction as nat) }
        } else {
            Ratio { num: self.mantissa as nat * pow2((-self.fraction) as nat), den: 1 }
        }
    }
}

/// The double nearest to `a / b`.
fn divide(a: u128, b: u128) -> (q: Bits)
    requires
        0 < a <= 0x1_0000_0000_0000_0000,
        0 < b <= 0x1_0000_0000_0000_0000,
    ensures
        q.ratio() == to_double(Ratio { num: a as nat, den: b as nat }),
        LOW <= q.mantissa <= HIGH,
        -16 <= q.fraction <= 128,
{
    proof {
        lemma2_to64();
        lemma2_to64_rest();
    }
    if a < HIGH * b {
        let floor: u128 = LOW * b;
        let mut x: u128 = a;
        let mut s: i32 = 0;
        assert(a * pow2(0) == a) by (nonlinear_arith)
            requires
                pow2(0) == 1,
        ;
        while x < floor
            invariant
                0 < b <= 0x1_0000_0000_0000_0000,
                0 < a,
                LOW == pow2(52),
                floor == LOW * b,
                floor <= 0x10_0000_0000_0000_0000_0000_0000_0000,
                s >= 0,
                x == a * pow2(s as nat),
                x >= pow2(s as nat),
                0 < x < 2 * floor,
                s <= 116,
                s > 0 ==> a * pow2((s - 1) as nat) < pow2(52) * b,
            decreases 116 - s,
        {
            proof {
                assert(s < 116) by {
                    if s >= 116 {
                        lemma2_to64_rest();
                        lemma_pow2_adds(52, 64);
                        assert(LOW * b <= pow2(52) * pow2(64)) by (nonlinear_arith)
                            requires
                                LOW == pow2(52),
                                b <= pow2(64),
                        ;
                    }
                }
                lemma_pow2_unfold((s + 1) as nat);
                assert(a * pow2((s + 1) as nat) == 2 * (a * pow2(s as nat))) by (nonlinear_arith)
                    requires
                        pow2((s + 1) as nat) == 2 * pow2(s as nat),
                ;
            }
            x = x * 2;
            s = s + 1;
        }
        proof {
            lemma_fraction_bits(a as nat, b as nat, 0, s as nat);
            lemma_fundamental_div_mod(x as int, b as int);
            assert(x / b <= x) by (nonlinear_arith)
                requires
                    b > 0,
                    x == b * (x / b) + x % b,
                    x % b >= 0,
                    x / b >= 0,
            ;
        }
        let m = round_quotient(x, b);
        proof {
            lemma_round_at_least(x as nat, b as nat, LOW as nat);
            lemma_round_at_most(x as nat, b as nat, HIGH as nat);
        }
        Bits { mantissa: m, fraction: s }
    } else {
        let mut y: u128 = b;
        let mut e: i32 = 0;
        assert(b * pow2(0) == b) by (nonlinear_arith)
            requires
                pow2(0) == 1,
        ;
        while a >= HIGH * y
            invariant
                0 < a <= 0x1_0000_0000_0000_0000,
                0 < b,
                pow2(53) == HIGH,
                pow2(64) == 0x1_0000_0000_0000_0000,
                pow2(11) == 2048,
                0 <= e <= 12,
                y == b * pow2(e as nat),
                0 < y <= 0x1_0000_0000_0000_0000,
                y >= pow2(e as nat),
                a >= HIGH * b,
                e > 0 ==> a >= pow2(53) * b * pow2((e - 1) as nat),
            decreases 12 - e,
        {
            proof {
                assert(e < 12) by {
                    if e >= 12 {
                        lemma_pow2_unfold(12);
                        assert(y >= 4096);
                    }
                }
                lemma_pow2_unfold((e + 1) as nat);
                assert(b * pow2((e + 1) as nat) == 2 * (b * pow2(e as nat))) by (nonlinear_arith)
                    requires
                        pow2((e + 1) as nat) == 2 * pow2(e as nat),
                ;
                assert(pow2(53) * b * pow2(e as nat) == HIGH * y) by (nonlinear_arith)
                    requires
                        pow2(53) == HIGH,
                        y == b * pow2(e as nat),
                ;
            }
            y = y * 2;
            e = e + 1;
        }
        let m = round_quotient(a, y);
        proof {
            assert(pow2(53) * b * pow2(e as nat) == HIGH * y) by (nonlinear_arith)
                requires
                    pow2(53) == HIGH,
                    y == b * pow2(e as nat),
            ;
            lemma_dropped_bits(a as nat, b as nat, e as nat);
            assert(e > 0);
            lemma_pow2_unfold(e as nat);
            assert(a >= LOW * y) by (nonlinear_arith)
                requires
                    a >= pow2(53) * b * pow2((e - 1) as nat),
                    pow2(53) == 2 * LOW,
                    pow2(e as nat) == 2 * pow2((e - 1) as nat),
                    y == b * pow2(e as nat),
            ;
            lemma_round_at_least(a as nat, y as nat, LOW as nat);
            lemma_round_at_most(a as nat, y as nat, HIGH as nat);
        }
        Bits { mantissa: m, fraction: -e }
    }
}

/// A hundred times a double, rounded to a double: the significant bits are
/// rounded at bit `d`, the scale stays.
proof fn lemma_hundredfold(q: Bits, d: nat)
    requires
        LOW <= q.mantissa <= HIGH,
        -16 <= q.fraction <= 128,
        d == 6 || d == 7,
        pow2((52 + d) as nat) <= q.mantissa * 100 < pow2((53 + d) as nat),
    ensures
        ({
            let u = round_half_even((q.mantissa * 100) as nat, pow2(d));
            let p = hundredfold(q.ratio());
            if q.fraction >= d {
                p == (Ratio { num: u, den: pow2((q.fraction - d) as nat) })
            } else {
                p == (Ratio { num: u * pow2((d - q.fraction) as nat), den: 1 })
            }
        }),
{
    let n = (q.mantissa * 100) as nat;
    let u = round_half_even(n, pow2(d));
    lemma2_to64();
    lemma2_to64_rest();
    lemma_pow2_adds(52, d);
    lemma_pow2_adds(53, d);
    lemma_pow2_pos(d);
    if q.fraction >= d {
        let s = q.fraction as nat;
        let t = (q.fraction - d) as nat;
        lemma_pow2_adds(t, d);
        lemma_pow2_pos(t);
        lemma_pow2_pos(s);
        let unit = pow2(t);
        assert(pow2(s) == unit * pow2(d));
        assert(n * unit >= pow2(52) * pow2(s)) by (nonlinear_arith)
            requires
                n >= pow2(52) * pow2(d),
                pow2(s) == unit * pow2(d),
        ;
        if t > 0 {
            lemma_pow2_unfold(t);
            let half = pow2((t - 1) as nat);
            assert(n * half < pow2(52) * pow2(s)) by (nonlinear_arith)
                requires
                    n < pow2(53) * pow2(d),
                    pow2(53) == 2 * pow2(52),
                    unit == 2 * half,
                    unit > 0,
                    pow2(s) == unit * pow2(d),
            ;
        }
        lemma_fraction_bits(n, pow2(s), 0, t);
        assert(n < pow2(53) * pow2(s)) by (nonlinear_arith)
            requires
                n < pow2(53) * pow2(d),
                pow2(s) == unit * pow2(d),
                unit >= 1,
        ;
        assert((n * unit) * pow2(d) == n * pow2(s)) by (nonlinear_arith)
            requires
                pow2(s) == unit * pow2(d),
        ;
        lemma_round_same_value(n * unit, pow2(s), n, pow2(d));
    } else {
        // The number is `n * up / down`, and `e` integer bits are dropped.
        let e = (d - q.fraction) as nat;
        let up = if q.fraction >= 0 {
            1
        } else {
            pow2((-q.fraction) as nat)
        };
        let down = if q.fraction >= 0 {
            pow2(q.fraction as nat)
        } else {
            1
        };
        let num = hundred(q).num;
        let den = hundred(q).den;
        assert(down * pow2(e) == pow2(d) * up && up > 0 && down > 0) by {
            if q.fraction >= 0 {
                lemma_pow2_adds(q.fraction as nat, e);
                lemma_pow2_pos(q.fraction as nat);
            } else {
                lemma_pow2_adds(d, (-q.fraction) as nat);
                lemma_pow2_pos((-q.fraction) as nat);
            }
        }
        assert(den == down);
        assert(num == n * up) by (nonlinear_arith)
            requires
                num == (q.mantissa * up) * 100,
                n == q.mantissa * 100,
        ;
        lemma_pow2_pos(e);
        lemma_pow2_unfold(e);
        let unit = pow2(e);
        let half = pow2((e - 1) as nat);
        assert(pow2(53) * den * unit == pow2(53) * pow2(d) * up) by (nonlinear_arith)
            requires
                den * unit == pow2(d) * up,
        ;
        assert(num < pow2(53) * den * unit) by (nonlinear_arith)
            requires
                pow2(53) * den * unit == pow2(53) * pow2(d) * up,
                num == n * up,
                n < pow2(53) * pow2(d),
                up > 0,
        ;
        assert(num >= pow2(53) * den * half) by (nonlinear_arith)
            requires
                den * unit == pow2(d) * up,
                unit == 2 * half,
                pow2(53) == 2 * pow2(52),
                num == n * up,
                n >= pow2(52) * pow2(d),
        ;
        lemma_dropped_bits(num, den, e);
        assert(num >= pow2(53) * den) by (nonlinear_arith)
            requires
                num >= pow2(53) * den * half,
                half >= 1,
        ;
        assert(den * unit > 0) by (nonlinear_arith)
            requires
                den > 0,
                unit > 0,
        ;
        assert(num * pow2(d) == n * (den * unit)) by (nonlinear_arith)
            requires
                num == n * up,
                den * unit == pow2(d) * up,
        ;
        lemma_round_same_value(num, den * unit, n, pow2(d));
    }
}

/// A hundred times a double, exactly.
spec fn hundred(q: Bits) -> Ratio {
    Ratio { num: q.ratio().num * 100, den: q.ratio().den }
}

/// `part / whole * 100` in double precision, without the fraction.
pub fn done_percent(part: usize, whole: usize) -> (p: usize)
    ensures
        p == done_percent_of(part as nat, whole as nat),
{
    if whole == 0 {
        return if part == 0 {
            0
        } else {
            usize::MAX
        };
    }
    let a = as_double(part as u64);
    let b = as_double(whole as u64);
    let ghost da = integer_double(part as nat);
    let ghost db = integer_double(whole as nat);
    let ghost exact = Ratio { num: da.num * db.den, den: da.den * db.num };
    proof {
        assert(db.num > 0) by (nonlinear_arith)
            requires
                db.num == b * db.den,
                b > 0,
                db.den > 0,
        ;
        assert(exact.den > 0) by (nonlinear_arith)
            requires
                exact.den == da.den * db.num,
                da.den > 0,
                db.num > 0,
        ;
        assert(exact.num * b == a * exact.den) by (nonlinear_arith)
            requires
                exact.num == da.num * db.den,
                exact.den == da.den * db.num,
                da.num == a * da.den,
                db.num == b * db.den,
        ;
        lemma_to_double_same_value(exact, Ratio { num: a as nat, den: b as nat });
    }
    if part == 0 {
        proof {
            lemma_zero(Ratio { num: 0, den: b as nat });
            let q = to_double(exact);
            lemma_zero(Ratio { num: 0, den: q.den });
        }
        return 0;
    }
    let q = divide(a, b);
    let n: u128 = q.mantissa * 100;
    proof {
        lemma2_to64();
        lemma2_to64_rest();
    }
    let (d, unit): (i32, u128) = if n < 0x0800_0000_0000_0000 {
        (6, 64)
    } else {
        (7, 128)
    };
    let u = round_quotient(n, unit);
    proof {
        lemma_hundredfold(q, d as nat);
        lemma_round_at_most(n as nat, unit as nat, n as nat);
    }
    if q.fraction >= d {
        let p = halved(u, (q.fraction - d) as u32);
        if p > usize::MAX as u128 {
            usize::MAX
        } else {
            p as usize
        }
    } else {
        let p = doubled(u, (d - q.fraction) as u32);
        assert(p as nat / 1 == p);
        if p > usize::MAX as u128 {
            usize::MAX
        } else {
            p as usize
        }
    }
}

/// The double nearest to zero is zero.
proof fn lemma_zero(r: Ratio)
    requires
        r.num == 0,
        r.den > 0,
    ensures
        to_double(r).num == 0,
        to_double(r).den > 0,
        truncate(to_double(r)) == 0,
{
    lemma2_to64_rest();
    assert(r.num < pow2(53) * r.den) by (nonlinear_arith)
        requires
            r.num == 0,
            pow2(53) > 0,
            r.den > 0,
    ;
    let s = fraction_bits(r.num, r.den, 0);
    lemma_pow2_pos(s);
    assert(0nat * pow2(s) == 0) by (nonlinear_arith);
    lemma_round_at_most(0, r.den, 0);
    assert(0nat / pow2(s) == 0) by (nonlinear_arith)
        requires
            pow2(s) > 0,
    ;
}

/// `x / 2^k`, rounded down.
fn halved(x: u128, k: u32) -> (r: u128)
    ensures
        r == x as nat / pow2(k as nat),
{
    let mut r: u128 = x;
    let mut i: u32 = 0;
    proof {
        lemma2_to64();
    }
    while i < k
        invariant
            i <= k,
            r == x as nat / pow2(i as nat),
        decreases k - i,
    {
        proof {
            lemma_pow2_unfold((i + 1) as nat);
            lemma_pow2_pos(i as nat);
            lemma_div_denominator(x as int, pow2(i as nat) as int, 2);
        }
        r = r / 2;
        i += 1;
    }
    r
}

/// `x * 2^k`.
fn doubled(x: u128, k: u32) -> (r: u128)
    requires
        x < 0x1000_0000_0000_0000,
        k <= 32,
    ensures
        r == x * pow2(k as nat),
{
    let mut r: u128 = x;
    let mut i: u32 = 0;
    proof {
        lemma2_to64();
    }
    while i < k
        invariant
            i <= k <= 32,
            x < 0x1000_0000_0000_0000,
            r == x * pow2(i as nat),
        decreases k - i,
    {
        proof {
            lemma2_to64();
            lemma_pow2_unfold((i + 1) as nat);
            if i < 32 {
                lemma_pow2_strictly_increases(i as nat, 32);
            }
            assert(x * pow2(i as nat) <= 0x1000_0000_0000_0000 * 0x1_0000_0000)
                by (nonlinear_arith)
                requires
                    x < 0x1000_0000_0000_0000,
                    pow2(i as nat) <= 0x1_0000_0000,
            ;
            assert(x * pow2((i + 1) as nat) == 2 * (x * pow2(i as nat))) by (nonlinear_arith)
                requires
                    pow2((i + 1) as nat) == 2 * pow2(i as nat),
            ;
        }
        r = r * 2;
        i += 1;
    }
    r
}

/// The double nearest to a positive integer is positive.
proof fn lemma_positive(n: nat)
    requires
        n > 0,
    ensures
        integer_double(n).num > 0,
        integer_double(n).den > 0,
{
    lemma2_to64();
    lemma2_to64_rest();
    if n < pow2(53) {
        lemma_small_integer(n);
        let d = integer_double(n).den;
        assert(n * d > 0) by (nonlinear_arith)
            requires
                n > 0,
                d > 0,
        ;
    } else {
        let e = dropped_bits(n, 1, 0);
        lemma_dropped_bits_found(n, 1, 0);
        lemma_pow2_pos(e);
        let unit = pow2(e);
        assert(1 * unit == unit);
        assert(n >= 1 * unit) by {
            if e > 0 {
                lemma_pow2_unfold(e);
                let half = pow2((e - 1) as nat);
                assert(n >= unit) by (nonlinear_arith)
                    requires
                        n >= pow2(53) * 1 * half,
                        pow2(53) >= 2,
                        unit == 2 * half,
                ;
            }
        }
        lemma_round_at_least(n, unit, 1);
        let m = round_half_even(n, unit);
        assert(m * unit > 0) by (nonlinear_arith)
            requires
                m >= 1,
                unit >= 1,
        ;
    }
}

/// All of anything is 100 %.
pub proof fn lemma_all_done(n: nat)
    requires
        n > 0,
    ensures
        done_percent_of(n, n) == 100,
{
    lemma2_to64();
    lemma2_to64_rest();
    lemma_positive(n);
    let a = integer_double(n);
    let exact = Ratio { num: a.num * a.den, den: a.den * a.num };
    assert(exact.den > 0 && exact.num == exact.den) by (nonlinear_arith)
        requires
            exact.num == a.num * a.den,
            exact.den == a.den * a.num,
            a.num > 0,
            a.den > 0,
    ;
    lemma_to_double_integer(exact, 1);
    lemma_small_integer(1);
    let q = to_double(exact);
    assert(q.num == q.den && q.den > 0);
    let scaled = Ratio { num: q.num * 100, den: q.den };
    lemma_to_double_integer(scaled, 100);
    lemma_small_integer(100);
    let p = hundredfold(q);
    assert(p.num == 100 * p.den && p.den > 0);
    assert(p.num / p.den == 100) by (nonlinear_arith)
        requires
            p.num == 100 * p.den,
            p.den > 0,
    ;
}

/// Of a whole, a larger part is no smaller a percentage.
pub proof fn lemma_part_monotonic(small: nat, large: nat, whole: nat)
    requires
        small <= large,
    ensures
        done_percent_of(small, whole) <= done_percent_of(large, whole),
{
    if whole > 0 {
        lemma_positive(whole);
        let a = integer_double(small);
        let b = integer_double(large);
        let w = integer_double(whole);
        let low = Ratio { num: small, den: 1 };
        let high = Ratio { num: large, den: 1 };
        assert(low.num * high.den <= high.num * low.den) by (nonlinear_arith)
            requires
                low.num <= high.num,
                low.den == 1,
                high.den == 1,
        ;
        lemma_to_double_monotonic(low, high);
        let x = Ratio { num: a.num * w.den, den: a.den * w.num };
        let y = Ratio { num: b.num * w.den, den: b.den * w.num };
        assert(x.den > 0 && y.den > 0) by (nonlinear_arith)
            requires
                x.den == a.den * w.num,
                y.den == b.den * w.num,
                a.den > 0,
                b.den > 0,
                w.num > 0,
        ;
        assert(x.num * y.den <= y.num * x.den) by {
            let k = w.den * w.num;
            assert(x.num * y.den == (a.num * b.den) * k) by (nonlinear_arith)
                requires
                    x.num == a.num * w.den,
                    y.den == b.den * w.num,
                    k == w.den * w.num,
            ;
            assert(y.num * x.den == (b.num * a.den) * k) by (nonlinear_arith)
                requires
                    y.num == b.num * w.den,
                    x.den == a.den * w.num,
                    k == w.den * w.num,
            ;
            assert((a.num * b.den) * k <= (b.num * a.den) * k) by (nonlinear_arith)
                requires
                    a.num * b.den <= b.num * a.den,
            ;
        }
        lemma_to_double_monotonic(x, y);
        let p = to_double(x);
        let q = to_double(y);
        let u = Ratio { num: p.num * 100, den: p.den };
        let v = Ratio { num: q.num * 100, den: q.den };
        assert(u.num * v.den <= v.num * u.den) by (nonlinear_arith)
            requires
                u.num == p.num * 100,
                v.num == q.num * 100,
                u.den == p.den,
                v.den == q.den,
                p.num * q.den <= q.num * p.den,
        ;
        lemma_to_double_monotonic(u, v);
        lemma_truncate_monotonic(hundredfold(p), hundredfold(q));
    }
}

/// A part is at most 100 %.
pub proof fn lemma_part_at_most_full(part: nat, whole: nat)
    requires
        part <= whole,
        whole > 0,
    ensures
        done_percent_of(part, whole) <= 100,
{
    lemma_part_monotonic(part, whole, whole);
    lemma_all_done(whole);
}

/// An integer as a double is at least a half of itself and at most its double.
proof fn lemma_integer_near(n: nat)
    requires
        n > 0,
    ensures
        ({
            let d = integer_double(n);
            &&& d.den > 0
            &&& d.num > 0
            &&& d.num * pow2(53) <= n * d.den * (pow2(53) + 1)
            &&& d.num * pow2(53) >= n * d.den * (pow2(53) - 1)
            &&& d.den <= 2 * d.num
            &&& d.num <= 2 * (n * d.den)
        }),
{
    lemma2_to64_rest();
    lemma_pow2_pos(200);
    let r = Ratio { num: n, den: 1 };
    let d = integer_double(n);
    let t = pow2(53);
    assert(r.den <= r.num * pow2(200)) by (nonlinear_arith)
        requires
            r.den == 1,
            r.num >= 1,
            pow2(200) >= 1,
    ;
    lemma_double_near(r);
    lemma_positive(n);
    assert(d.num * r.den == d.num) by (nonlinear_arith)
        requires
            r.den == 1,
    ;
    let m = n * d.den;
    assert(d.den <= m) by (nonlinear_arith)
        requires
            m == n * d.den,
            n >= 1,
    ;
    assert(m <= 2 * d.num) by (nonlinear_arith)
        requires
            d.num * t >= m * (t - 1),
            t >= 2,
    ;
    assert(d.num <= 2 * m) by (nonlinear_arith)
        requires
            d.num * t <= m * (t + 1),
            t >= 1,
    ;
}

/// A hundred times the quotient of two doubles, against the exact quotient.
proof fn lemma_percentage_near(part: nat, whole: nat)
    requires
        0 < part,
        0 < whole <= u64::MAX,
    ensures
        ({
            let p = hundredfold(double_quotient(integer_double(part), integer_double(whole)));
            let exact = Ratio { num: 100 * part, den: whole };
            &&& p.den > 0
            &&& little_above(p, exact, 8)
            &&& little_below(p, exact, 4)
        }),
{
    lemma2_to64();
    lemma2_to64_rest();
    lemma_integer_near(part);
    lemma_integer_near(whole);
    let t = pow2(53);
    let a = integer_double(part);
    let w = integer_double(whole);
    let x = Ratio { num: a.num * w.den, den: a.den * w.num };
    let q = to_double(x);
    let y = Ratio { num: q.num * 100, den: q.den };
    let p = to_double(y);
    let b = Ratio { num: x.num * 100, den: x.den };
    let c = Ratio { num: 100 * part * w.den, den: w.num };
    let exact = Ratio { num: 100 * part, den: whole };
    // None of the numbers is very small.
    let k = pow2(200);
    assert(k >= 0x1_0000_0000_0000_0000_0000) by {
        lemma_pow2_strictly_increases(80, 200);
        lemma_pow2_adds(64, 16);
    }
    assert(x.den > 0 && x.num > 0) by (nonlinear_arith)
        requires
            x.den == a.den * w.num,
            x.num == a.num * w.den,
            a.den > 0,
            a.num > 0,
            w.num > 0,
            w.den > 0,
    ;
    assert(w.num <= 0x2_0000_0000_0000_0000 * w.den) by (nonlinear_arith)
        requires
            w.num <= 2 * (whole * w.den),
            whole <= 0xffff_ffff_ffff_ffff,
    ;
    assert(x.den <= x.num * 0x4_0000_0000_0000_0000) by (nonlinear_arith)
        requires
            x.den == a.den * w.num,
            x.num == a.num * w.den,
            a.den <= 2 * a.num,
            w.num <= 0x2_0000_0000_0000_0000 * w.den,
    ;
    assert(x.den <= x.num * k) by (nonlinear_arith)
        requires
            x.den <= x.num * 0x4_0000_0000_0000_0000,
            k >= 0x4_0000_0000_0000_0000,
    ;
    lemma_double_near(x);
    assert(x.num * q.den <= 2 * (q.num * x.den)) by (nonlinear_arith)
        requires
            q.num * x.den * t >= x.num * q.den * (t - 1),
            t >= 2,
    ;
    assert(q.den <= q.num * 0x8_0000_0000_0000_0000) by {
        let u = q.num * 0x8_0000_0000_0000_0000;
        assert(2 * (q.num * x.den) <= x.num * u) by (nonlinear_arith)
            requires
                x.den <= x.num * 0x4_0000_0000_0000_0000,
                u == q.num * 0x8_0000_0000_0000_0000,
        ;
        assert(q.den <= u) by (nonlinear_arith)
            requires
                x.num * q.den <= x.num * u,
                x.num > 0,
        ;
    }
    assert(y.den <= y.num * k) by (nonlinear_arith)
        requires
            y.den == q.den,
            y.num == q.num * 100,
            q.den <= q.num * 0x8_0000_0000_0000_0000,
            k >= 0x8_0000_0000_0000_0000,
    ;
    lemma_double_near(y);
    // Each rounding adds a little.
    assert(little_above(y, b, 1) && little_below(y, b, 1)) by {
        let l = q.num * x.den;
        let r = x.num * q.den;
        assert(y.num * b.den == 100 * l) by (nonlinear_arith)
            requires
                y.num == q.num * 100,
                b.den == x.den,
                l == q.num * x.den,
        ;
        assert(b.num * y.den == 100 * r) by (nonlinear_arith)
            requires
                b.num == x.num * 100,
                y.den == q.den,
                r == x.num * q.den,
        ;
        assert((100 * l) * t <= (100 * r) * (t + 1)) by (nonlinear_arith)
            requires
                l * t <= r * (t + 1),
        ;
        assert((100 * l) * t >= (100 * r) * (t - 1)) by (nonlinear_arith)
            requires
                l * t >= r * (t - 1),
        ;
    }
    assert(little_above(b, c, 1) && little_below(b, c, 1)) by {
        let g = 100 * w.den * w.num;
        let m = part * a.den;
        assert(b.num * c.den == a.num * g) by (nonlinear_arith)
            requires
                b.num == (a.num * w.den) * 100,
                c.den == w.num,
                g == 100 * w.den * w.num,
        ;
        assert(c.num * b.den == m * g) by (nonlinear_arith)
            requires
                c.num == 100 * part * w.den,
                b.den == a.den * w.num,
                g == 100 * w.den * w.num,
                m == part * a.den,
        ;
        assert((a.num * g) * t <= (m * g) * (t + 1)) by (nonlinear_arith)
            requires
                a.num * t <= m * (t + 1),
        ;
        assert((a.num * g) * t >= (m * g) * (t - 1)) by (nonlinear_arith)
            requires
                a.num * t >= m * (t - 1),
        ;
    }
    assert(little_above(c, exact, 2) && little_below(c, exact, 1)) by {
        let g = 100 * part;
        let m = whole * w.den;
        assert(c.num * exact.den == g * m) by (nonlinear_arith)
            requires
                c.num == g * w.den,
                exact.den == whole,
                m == whole * w.den,
        ;
        assert(exact.num * c.den == g * w.num) by (nonlinear_arith)
            requires
                exact.num == g,
                c.den == w.num,
        ;
        assert(m * t <= w.num * (t + 2)) by (nonlinear_arith)
            requires
                w.num * t >= m * (t - 1),
                t >= 4,
        ;
        assert(m * t >= w.num * (t - 1)) by (nonlinear_arith)
            requires
                w.num * t <= m * (t + 1),
                t >= 4,
        ;
        assert((g * m) * t <= (g * w.num) * (t + 2)) by (nonlinear_arith)
            requires
                m * t <= w.num * (t + 2),
        ;
        assert((g * m) * t >= (g * w.num) * (t - 1)) by (nonlinear_arith)
            requires
                m * t >= w.num * (t - 1),
        ;
    }
    lemma_above_adds(p, y, b, 1, 1);
    lemma_above_adds(p, b, c, 3, 1);
    lemma_above_adds(p, c, exact, 5, 2);
    lemma_below_adds(p, y, b, 1, 1);
    lemma_below_adds(p, b, c, 2, 1);
    lemma_below_adds(p, c, exact, 3, 1);
}

/// The percentage is what its name says: the exact percentage without its fraction,
/// but for an error of one part in `2^50` of it.
pub proof fn law_percentage_of_the_whole(part: nat, whole: nat)
    requires
        part <= u64::MAX,
        0 < whole <= u64::MAX,
    ensures
        ({
            let p = done_percent_of(part, whole);
            let fine: nat = 0x4_0000_0000_0000;
            &&& p * whole * fine <= 100 * part * (fine + 1)
            &&& p < usize::MAX ==> (p + 1) * whole * fine > 100 * part * (fine - 1)
        }),
{
    lemma2_to64();
    lemma2_to64_rest();
    let p = done_percent_of(part, whole);
    let fine: nat = 0x4_0000_0000_0000;
    if part == 0 {
        lemma_positive(whole);
        let w = integer_double(whole);
        lemma_zero(Ratio { num: 0, den: 1 });
        let a = integer_double(0);
        let x = Ratio { num: a.num * w.den, den: a.den * w.num };
        assert(x.num == 0 && x.den > 0) by (nonlinear_arith)
            requires
                x.num == a.num * w.den,
                x.den == a.den * w.num,
                a.num == 0,
                a.den > 0,
                w.num > 0,
        ;
        lemma_zero(x);
        let q = to_double(x);
        lemma_zero(Ratio { num: q.num * 100, den: q.den });
        assert(p == 0);
        assert(0 * whole * fine <= 0 && (0 + 1) * whole * fine > 0) by (nonlinear_arith)
            requires
                whole > 0,
                fine > 0,
        ;
    } else {
        lemma_percentage_near(part, whole);
        let d = hundredfold(double_quotient(integer_double(part), integer_double(whole)));
        let n = 100 * part;
        let t = pow2(53);
        let f = truncate(d);
        lemma_fundamental_div_mod(d.num as int, d.den as int);
        assert(f * d.den <= d.num < (f + 1) * d.den) by (nonlinear_arith)
            requires
                d.num == d.den * f + d.num % d.den,
                0 <= d.num % d.den < d.den,
        ;
        assert(d.num * whole * t <= n * d.den * (t + 8));
        assert(d.num * whole * t >= n * d.den * (t - 4));
        assert(f * whole * t <= n * (t + 8)) by {
            let e = d.den;
            let l = f * whole * t;
            let r = n * (t + 8);
            assert(l * e <= d.num * whole * t) by (nonlinear_arith)
                requires
                    f * e <= d.num,
                    l == f * whole * t,
            ;
            assert(n * e * (t + 8) == r * e) by (nonlinear_arith)
                requires
                    r == n * (t + 8),
            ;
            assert(l <= r) by (nonlinear_arith)
                requires
                    l * e <= r * e,
                    e > 0,
            ;
        }
        assert((f + 1) * whole * t > n * (t - 4)) by {
            let e = d.den;
            let l = (f + 1) * whole * t;
            let r = n * (t - 4);
            assert(l * e > d.num * whole * t) by (nonlinear_arith)
                requires
                    d.num < (f + 1) * e,
                    l == (f + 1) * whole * t,
                    whole > 0,
                    t > 0,
            ;
            assert(n * e * (t - 4) == r * e) by (nonlinear_arith)
                requires
                    r == n * (t - 4),
            ;
            assert(l > r) by (nonlinear_arith)
                requires
                    l * e > r * e,
                    e > 0,
            ;
        }
        assert(t == 8 * fine);
        assert(f * whole * fine <= n * (fine + 1)) by (nonlinear_arith)
            requires
                f * whole * t <= n * (t + 8),
                t == 8 * fine,
        ;
        assert((f + 1) * whole * fine > n * (fine - 1)) by (nonlinear_arith)
            requires
                (f + 1) * whole * t > n * (t - 4),
                t == 8 * fine,
                n >= 0,
        ;
        assert(p <= f);
        assert(p * whole * fine <= f * whole * fine) by (nonlinear_arith)
            requires
                p <= f,
        ;
    }
}

/// A part of nothing is out of range, and nothing of nothing counts as zero.
pub proof fn law_percentage_of_nothing(part: nat)
    ensures
        done_percent_of(part, 0) == if part == 0 {
            0
        } else {
            usize::MAX as nat
        },
{
}

} // verus!
