//! Download progress lines, such as ` 12.3%`.

use vstd::arithmetic::div_mod::{
    lemma_basic_div, lemma_div_denominator, lemma_hoist_over_denominator,
};
use vstd::arithmetic::power::{lemma_pow0, lemma_pow1, lemma_pow_adds, lemma_pow_positive, pow};
use vstd::arithmetic::power2::{lemma2_to64, lemma2_to64_rest, pow2};
use vstd::prelude::*;
use vstd::string::StrSliceExecFns;

use crate::double::{
    at_most, lemma_dyadic, lemma_round_half_up_monotonic, lemma_round_large, lemma_round_small,
    lemma_round_tiny, lemma_small_integer, lemma_to_double_monotonic, round_half_up, to_double,
    Ratio,
};
use crate::text::{
    characters, decimal, digit_char, lemma_trim_nothing, lemma_trimmed_ends, trim, trimmed,
};

verus! {

/// A number as a progress line writes it. `Finite` stands for
/// `digits * 10^exponent`, negated where `negative`.
pub ghost enum Number {
    NaN,
    Infinite { negative: bool },
    Finite { negative: bool, digits: nat, exponent: int },
}

pub open spec fn is_digit(c: char) -> bool {
    '0' <= c <= '9'
}

pub open spec fn all_digits(s: Seq<char>) -> bool {
    forall|i: int| 0 <= i < s.len() ==> is_digit(#[trigger] s[i])
}

pub open spec fn digit_value(c: char) -> nat {
    (c as nat - '0' as nat) as nat
}

/// How many characters at the start of `s` are digits.
pub open spec fn digit_run(s: Seq<char>) -> nat
    decreases s.len(),
{
    if s.len() > 0 && is_digit(s[0]) {
        1 + digit_run(s.drop_first())
    } else {
        0
    }
}

/// The number that decimal digits denote.
pub open spec fn digits_value(s: Seq<char>) -> nat
    decreases s.len(),
{
    if s.len() == 0 {
        0
    } else {
        digits_value(s.drop_last()) * 10 + digit_value(s.last())
    }
}

/// `c`, in lower case where it is an ASCII letter.
pub open spec fn lower(c: char) -> char {
    if 'A' <= c <= 'Z' {
        (c as nat + 32) as char
    } else {
        c
    }
}

/// Whether `s` spells `word`, a word in lower case, in any case.
pub open spec fn spells(s: Seq<char>, word: Seq<char>) -> bool {
    s.len() == word.len() && forall|i: int| 0 <= i < s.len() ==> lower(#[trigger] s[i]) == word[i]
}

/// Whether `s` starts with a minus sign.
pub open spec fn has_minus(s: Seq<char>) -> bool {
    s.len() > 0 && s[0] == '-'
}

/// `s` without one leading sign.
pub open spec fn unsigned(s: Seq<char>) -> Seq<char> {
    if s.len() > 0 && (s[0] == '-' || s[0] == '+') {
        s.skip(1)
    } else {
        s
    }
}

/// The exponent that `s`, the part behind the digits, denotes: none is zero,
/// otherwise `e`, an optional sign and digits.
pub open spec fn parse_exponent(s: Seq<char>) -> Option<int> {
    if s.len() == 0 {
        Some(0)
    } else if lower(s[0]) == 'e' {
        let digits = unsigned(s.skip(1));
        if digits.len() == 0 || !all_digits(digits) {
            None
        } else if has_minus(s.skip(1)) {
            Some(-(digits_value(digits) as int))
        } else {
            Some(digits_value(digits) as int)
        }
    } else {
        None
    }
}

/// What follows the leading digits of `s`.
pub open spec fn after_whole(s: Seq<char>) -> Seq<char> {
    s.skip(digit_run(s) as int)
}

/// Whether a point follows the leading digits of `s`.
pub open spec fn has_point(s: Seq<char>) -> bool {
    after_whole(s).len() > 0 && after_whole(s)[0] == '.'
}

/// What follows the leading digits of `s` and the point, if there is one.
pub open spec fn after_point(s: Seq<char>) -> Seq<char> {
    if has_point(s) {
        after_whole(s).skip(1)
    } else {
        after_whole(s)
    }
}

/// How many digits follow the point.
pub open spec fn fraction_run(s: Seq<char>) -> nat {
    if has_point(s) {
        digit_run(after_point(s))
    } else {
        0
    }
}

/// The digits at the start of `s`, before and behind the point.
pub open spec fn significand(s: Seq<char>) -> Seq<char> {
    s.take(digit_run(s) as int) + after_point(s).take(fraction_run(s) as int)
}

/// An unsigned number: digits with an optional point among or around them, at
/// least one digit, and an optional exponent.
pub open spec fn parse_unsigned(s: Seq<char>, negative: bool) -> Option<Number> {
    if significand(s).len() == 0 {
        None
    } else {
        match parse_exponent(after_point(s).skip(fraction_run(s) as int)) {
            Some(exponent) => Some(
                Number::Finite {
                    negative,
                    digits: digits_value(significand(s)),
                    exponent: exponent - fraction_run(s),
                },
            ),
            None => None,
        }
    }
}

/// The number that `s` spells as a decimal floating-point number.
pub open spec fn parse_number(s: Seq<char>) -> Option<Number> {
    let negative = has_minus(s);
    let body = unsigned(s);
    if spells(body, seq!['n', 'a', 'n']) {
        Some(Number::NaN)
    } else if spells(body, seq!['i', 'n', 'f']) || spells(
        body,
        seq!['i', 'n', 'f', 'i', 'n', 'i', 't', 'y'],
    ) {
        Some(Number::Infinite { negative })
    } else {
        parse_unsigned(body, negative)
    }
}

pub open spec fn pow10(e: nat) -> nat {
    pow(10, e) as nat
}

/// `digits * 10^exponent`.
pub open spec fn decimal_ratio(digits: nat, exponent: int) -> Ratio {
    if exponent >= 0 {
        Ratio { num: digits * pow10(exponent as nat), den: 1 }
    } else {
        Ratio { num: digits, den: pow10((-exponent) as nat) }
    }
}

/// The percentage nearest to the double nearest to `r`, at most 100.
pub open spec fn nearest_percent(r: Ratio) -> nat {
    let p = round_half_up(to_double(r));
    if p > 100 {
        100
    } else {
        p
    }
}

/// The percentage that a number stands for: rounded to the nearest integer,
/// halves upwards, and limited to the range from 0 to 100. A number that is
/// not a number counts as zero.
pub open spec fn percent_of(n: Number) -> nat {
    match n {
        Number::NaN => 0,
        Number::Infinite { negative } => if negative {
            0
        } else {
            100
        },
        Number::Finite { negative, digits, exponent } => if negative {
            0
        } else {
            nearest_percent(decimal_ratio(digits, exponent))
        },
    }
}

/// The percentage that a progress line reports: white space, a number, a
/// percent sign.
pub open spec fn progress_percent(line: Seq<char>) -> Option<nat> {
    let t = trimmed(line);
    if t.len() > 0 && t.last() == '%' {
        match parse_number(trimmed(t.drop_last())) {
            Some(n) => Some(percent_of(n)),
            None => None,
        }
    } else {
        None
    }
}

/// A percentage is at most 100.
pub proof fn lemma_percent_limit(line: Seq<char>)
    ensures
        progress_percent(line) matches Some(p) ==> p <= 100,
{
}

proof fn lemma_pow10(a: nat, b: nat)
    ensures
        pow10(0) == 1,
        pow10(1) == 10,
        pow10(a) > 0,
        pow10(a + b) == pow10(a) * pow10(b),
{
    lemma_pow0(10);
    lemma_pow1(10);
    lemma_pow_positive(10, a);
    lemma_pow_positive(10, b);
    lemma_pow_adds(10, a, b);
    assert(pow(10, a + b) == pow(10, a) * pow(10, b));
    assert(pow(10, a) * pow(10, b) == pow10(a) * pow10(b));
}

proof fn lemma_digit_run(s: Seq<char>, k: int)
    requires
        0 <= k <= s.len(),
        forall|i: int| 0 <= i < k ==> is_digit(#[trigger] s[i]),
        k < s.len() ==> !is_digit(s[k]),
    ensures
        digit_run(s) == k,
    decreases k,
{
    if k > 0 {
        let t = s.drop_first();
        assert forall|i: int| 0 <= i < k - 1 implies is_digit(#[trigger] t[i]) by {
            assert(t[i] == s[i + 1]);
        }
        assert(is_digit(s[0]));
        lemma_digit_run(t, k - 1);
    }
}

proof fn lemma_digits_concat(a: Seq<char>, b: Seq<char>)
    ensures
        digits_value(a + b) == digits_value(a) * pow10(b.len()) + digits_value(b),
    decreases b.len(),
{
    lemma_pow10(0, 0);
    if b.len() == 0 {
        assert(a + b =~= a);
    } else {
        lemma_digits_concat(a, b.drop_last());
        assert((a + b).drop_last() =~= a + b.drop_last());
        let n = (b.len() - 1) as nat;
        lemma_pow10(n, 1);
        let x = digits_value(a);
        let y = digits_value(b.drop_last());
        assert((x * pow10(n) + y) * 10 == x * (pow10(n) * 10) + y * 10) by (nonlinear_arith);
    }
}

proof fn lemma_digits_bound(s: Seq<char>)
    requires
        all_digits(s),
    ensures
        digits_value(s) < pow10(s.len()),
    decreases s.len(),
{
    lemma_pow10(0, 0);
    if s.len() > 0 {
        assert forall|i: int| 0 <= i < s.len() - 1 implies is_digit(
            #[trigger] s.drop_last()[i],
        ) by {
            assert(s.drop_last()[i] == s[i]);
        }
        lemma_digits_bound(s.drop_last());
        lemma_pow10((s.len() - 1) as nat, 1);
        assert(is_digit(s[s.len() - 1]));
    }
}

/// The percentage nearest to a number below 128 that is given in units of
/// `2^-55`, rounded down.
fn percent_of_scaled(y: u64, Ghost(r): Ghost<Ratio>) -> (p: usize)
    requires
        r.den > 0,
        y == r.num * pow2(55) / r.den,
        y < 0x4000_0000_0000_0000,
    ensures
        p == nearest_percent(r),
{
    proof {
        lemma2_to64();
        lemma2_to64_rest();
    }
    let ghost mut t: nat = 54;
    let slack: u64 = if y >= 0x2000_0000_0000_0000 {
        proof {
            t = 46;
        }
        256
    } else if y >= 0x1000_0000_0000_0000 {
        proof {
            t = 47;
        }
        128
    } else if y >= 0x0800_0000_0000_0000 {
        proof {
            t = 48;
        }
        64
    } else if y >= 0x0400_0000_0000_0000 {
        proof {
            t = 49;
        }
        32
    } else if y >= 0x0200_0000_0000_0000 {
        proof {
            t = 50;
        }
        16
    } else if y >= 0x0100_0000_0000_0000 {
        proof {
            t = 51;
        }
        8
    } else if y >= 0x0080_0000_0000_0000 {
        proof {
            t = 52;
        }
        4
    } else if y >= 0x0040_0000_0000_0000 {
        proof {
            t = 53;
        }
        2
    } else if y >= 0x0020_0000_0000_0000 {
        1
    } else {
        proof {
            lemma_round_tiny(r, y as nat);
        }
        return 0;
    };
    proof {
        lemma_round_small(r, y as nat, t);
    }
    let p: u64 = (y + slack + 0x0040_0000_0000_0000) / 0x0080_0000_0000_0000;
    if p > 100 {
        100
    } else {
        p as usize
    }
}

/// The digits of `digits[from..]` as a fraction, in units of `2^-55`, rounded
/// down.
fn scaled_fraction(digits: &Vec<char>, from: usize) -> (y: u64)
    requires
        all_digits(digits@),
        from <= digits.len(),
    ensures
        y == digits_value(digits@.skip(from as int)) * pow2(55) / pow10(
            (digits.len() - from) as nat,
        ),
        y < 0x80_0000_0000_0000,
{
    let n: usize = digits.len();
    let mut i: usize = n;
    let mut y: u64 = 0;
    proof {
        lemma2_to64_rest();
        lemma_pow10(0, 0);
        assert(digits@.skip(n as int) =~= Seq::<char>::empty());
        assert(0nat * pow2(55) / pow10(0) == 0);
    }
    while i > from
        invariant
            from <= i <= n,
            n == digits.len(),
            all_digits(digits@),
            pow2(55) == 0x80_0000_0000_0000,
            y == digits_value(digits@.skip(i as int)) * pow2(55) / pow10((n - i) as nat),
            y < 0x80_0000_0000_0000,
        decreases i,
    {
        i -= 1;
        let c = digits[i];
        assert(is_digit(digits@[i as int]));
        let d: u64 = (c as u32 - 48) as u64;
        proof {
            let k = (n - i - 1) as nat;
            let tail = digits@.skip(i + 1);
            let head = seq![c];
            assert(digits@.skip(i as int) =~= head + tail);
            lemma_digits_concat(head, tail);
            assert(digits_value(head) == d) by {
                assert(head.drop_last() =~= Seq::<char>::empty());
                assert(digits_value(head.drop_last()) == 0);
            }
            lemma_pow10(k, 1);
            lemma_shift_fraction(d as nat, digits_value(tail), k);
        }
        y = (d * 0x80_0000_0000_0000 + y) / 10;
    }
    y
}

/// Prepending a digit to a fraction.
proof fn lemma_shift_fraction(d: nat, tail: nat, k: nat)
    ensures
        (d * pow2(55) + tail * pow2(55) / pow10(k)) / 10 == (d * pow10(k) + tail) * pow2(55)
            / pow10(k + 1),
{
    lemma_pow10(k, 1);
    let b = pow10(k);
    let u = pow2(55);
    lemma_hoist_over_denominator((tail * u) as int, (d * u) as int, b);
    assert(tail * u + (d * u) * b == (d * b + tail) * u) by (nonlinear_arith);
    let all = (d * b + tail) * u;
    assert(d * u + tail * u / b == all / b);
    lemma_div_denominator(all as int, b as int, 10);
}

/// `y / 10^k`, rounded down.
fn shift_down(y: u64, k: u128) -> (r: u64)
    ensures
        r == y as nat / pow10(k as nat),
{
    let mut r: u64 = y;
    let mut i: u128 = 0;
    proof {
        lemma_pow10(0, 0);
    }
    while i < k && r > 0
        invariant
            i <= k,
            r == y as nat / pow10(i as nat),
        decreases k - i,
    {
        proof {
            lemma_pow10(i as nat, 1);
            lemma_div_denominator(y as int, pow10(i as nat) as int, 10);
        }
        r = r / 10;
        i += 1;
    }
    proof {
        if i < k {
            lemma_pow10(i as nat, (k - i) as nat);
            lemma_pow10((k - i) as nat, 0);
            lemma_div_denominator(y as int, pow10(i as nat) as int, pow10((k - i) as nat) as int);
            assert(0nat / pow10((k - i) as nat) == 0);
        }
    }
    r
}

/// The number that `digits[..to]` denotes, or 128 where it is larger.
fn limited_value(digits: &Vec<char>, to: usize) -> (v: u64)
    requires
        all_digits(digits@),
        to <= digits.len(),
    ensures
        v <= 128,
        v < 128 ==> v == digits_value(digits@.take(to as int)),
        v == 128 ==> digits_value(digits@.take(to as int)) >= 128,
{
    let mut v: u64 = 0;
    let mut i: usize = 0;
    assert(digits@.take(0) =~= Seq::<char>::empty());
    while i < to
        invariant
            i <= to <= digits.len(),
            all_digits(digits@),
            v <= 128,
            v < 128 ==> v == digits_value(digits@.take(i as int)),
            v == 128 ==> digits_value(digits@.take(i as int)) >= 128,
        decreases to - i,
    {
        let c = digits[i];
        assert(is_digit(digits@[i as int]));
        assert(digits@.take(i + 1).drop_last() =~= digits@.take(i as int));
        let next: u64 = v * 10 + (c as u32 - 48) as u64;
        v = if next < 128 {
            next
        } else {
            128
        };
        i += 1;
    }
    v
}

/// Exponents beyond this size leave no doubt about the percentage.
const EXPONENT_LIMIT: u128 = 1_000_000_000_000_000_000_000_000_000_000;

/// `size` is `exact`, or both exceed the limit on exponents.
spec fn limited(size: u128, exact: nat) -> bool {
    if size <= EXPONENT_LIMIT {
        size == exact
    } else {
        exact > EXPONENT_LIMIT
    }
}

/// A number with a high exponent is large.
proof fn lemma_huge(m: nat, x: int)
    requires
        m > 0,
        x >= 3,
    ensures
        decimal_ratio(m, x).num >= 128 * decimal_ratio(m, x).den,
{
    lemma_pow10(1, 1);
    lemma_pow10(2, 1);
    lemma_pow10(3, (x - 3) as nat);
    lemma_pow10((x - 3) as nat, 0);
    assert(m * pow10(x as nat) >= 128) by (nonlinear_arith)
        requires
            m >= 1,
            pow10(x as nat) == 1000 * pow10((x - 3) as nat),
            pow10((x - 3) as nat) >= 1,
    ;
}

/// A number with a low exponent vanishes.
proof fn lemma_minute(digits: Seq<char>, x: int)
    requires
        all_digits(digits),
        x <= -(digits.len() + 17),
    ensures
        decimal_ratio(digits_value(digits), x).den > 0,
        digits_value(digits) * pow2(55) / decimal_ratio(digits_value(digits), x).den == 0,
{
    let m = digits_value(digits);
    let n = digits.len();
    lemma_digits_bound(digits);
    lemma2_to64_rest();
    lemma_pow10(n, 17);
    lemma_pow10(17, 0);
    let rest = (-x - n - 17) as nat;
    lemma_pow10(n + 17, rest);
    lemma_pow10(rest, 0);
    lemma_pow10((-x) as nat, 0);
    assert(pow10(17) > pow2(55)) by {
        lemma_pow10(1, 1);
        lemma_pow10(2, 2);
        lemma_pow10(4, 4);
        lemma_pow10(8, 8);
        lemma_pow10(16, 1);
        let a = pow10(2);
        let b = pow10(4);
        let c = pow10(8);
        assert(a == 100);
        assert(b == 10_000) by (nonlinear_arith)
            requires
                b == a * a,
                a == 100,
        ;
        assert(c == 100_000_000) by (nonlinear_arith)
            requires
                c == b * b,
                b == 10_000,
        ;
        assert(pow10(16) == 10_000_000_000_000_000) by (nonlinear_arith)
            requires
                pow10(16) == c * c,
                c == 100_000_000,
        ;
    }
    let d = pow10((-x) as nat);
    assert(m * pow2(55) < d) by (nonlinear_arith)
        requires
            m < pow10(n),
            pow2(55) < pow10(17),
            d == (pow10(n) * pow10(17)) * pow10(rest),
            pow10(rest) >= 1,
    ;
    lemma_basic_div((m * pow2(55)) as int, d as int);
}

/// The percentage nearest to the number with the given digits, of which the
/// first `whole` stand before the point, times ten to the given exponent.
fn percent_of_decimal(
    digits: &Vec<char>,
    whole: usize,
    minus: bool,
    size: u128,
    Ghost(exact): Ghost<nat>,
) -> (p: usize)
    requires
        all_digits(digits@),
        whole <= digits.len(),
        limited(size, exact),
    ensures
        p == nearest_percent(
            decimal_ratio(
                digits_value(digits@),
                (if minus {
                    -(exact as int)
                } else {
                    exact as int
                }) - (digits.len() - whole),
            ),
        ),
{
    let n: usize = digits.len();
    let ghost m = digits_value(digits@);
    let ghost x: int = (if minus {
        -(exact as int)
    } else {
        exact as int
    }) - (n - whole);
    let ghost r = decimal_ratio(m, x);
    proof {
        lemma2_to64();
        lemma2_to64_rest();
        assert(digits@.take(n as int) =~= digits@);
        assert(digits@.skip(0) =~= digits@);
        if x < 0 {
            lemma_pow10((-x) as nat, 0);
        }
    }
    let value = limited_value(digits, n);
    if value == 0 {
        proof {
            assert(0nat * pow2(55) / r.den == 0) by (nonlinear_arith)
                requires
                    r.den > 0,
            ;
            assert(r.num == 0) by (nonlinear_arith)
                requires
                    m == 0,
                    r == decimal_ratio(m, x),
            ;
        }
        return percent_of_scaled(0, Ghost(r));
    }
    if size > EXPONENT_LIMIT {
        if minus {
            proof {
                lemma_minute(digits@, x);
            }
            return percent_of_scaled(0, Ghost(r));
        } else {
            proof {
                lemma_huge(m, x);
                lemma_round_large(r);
            }
            return 100;
        }
    }
    if !minus && size >= (n - whole) as u128 {
        // The point stands at or behind the last digit.
        let zeros: u128 = size - (n - whole) as u128;
        let mut v: u64 = value;
        let mut i: u128 = 0;
        proof {
            lemma_pow10(0, 0);
            assert(m * pow10(0) == m) by (nonlinear_arith)
                requires
                    pow10(0) == 1,
            ;
        }
        while i < zeros && v < 128
            invariant
                i <= zeros,
                v >= 1,
                v < 128 ==> v == m * pow10(i as nat),
                v >= 128 ==> m * pow10(i as nat) >= 128,
            decreases zeros - i,
        {
            proof {
                lemma_pow10(i as nat, 1);
                assert(m * pow10(i as nat) * 10 == m * (pow10(i as nat) * 10))
                    by (nonlinear_arith);
            }
            v = v * 10;
            i += 1;
        }
        if v >= 128 {
            proof {
                lemma_pow10(i as nat, (zeros - i) as nat);
                lemma_pow10((zeros - i) as nat, 0);
                assert(m * pow10(zeros as nat) >= 128) by (nonlinear_arith)
                    requires
                        m * pow10(i as nat) >= 128,
                        pow10(zeros as nat) == pow10(i as nat) * pow10((zeros - i) as nat),
                        pow10((zeros - i) as nat) >= 1,
                ;
                lemma_round_large(r);
            }
            return 100;
        }
        percent_of_scaled(v * 0x80_0000_0000_0000, Ghost(r))
    } else if minus && size >= whole as u128 {
        // The point stands at or before the first digit.
        let zeros: u128 = size - whole as u128;
        let fraction = scaled_fraction(digits, 0);
        let y = shift_down(fraction, zeros);
        proof {
            lemma_pow10(n as nat, zeros as nat);
            lemma_pow10(zeros as nat, 0);
            lemma_pow10((n + zeros) as nat, 0);
            lemma_div_denominator(
                (m * pow2(55)) as int,
                pow10(n as nat) as int,
                pow10(zeros as nat) as int,
            );
            lemma_pow10(0, 0);
            assert(m * pow2(55) / 1 == m * pow2(55));
        }
        percent_of_scaled(y, Ghost(r))
    } else {
        // The point stands among the digits.
        let point: usize = if minus {
            whole - size as usize
        } else {
            whole + size as usize
        };
        let v = limited_value(digits, point);
        let ghost k = (n - point) as nat;
        let ghost b = pow10(k);
        let ghost tail = digits_value(digits@.skip(point as int));
        let ghost head = digits_value(digits@.take(point as int));
        proof {
            lemma_pow10(k, 0);
            assert(digits@.take(point as int) + digits@.skip(point as int) =~= digits@);
            lemma_digits_concat(digits@.take(point as int), digits@.skip(point as int));
            assert(m == head * b + tail);
        }
        if v >= 128 {
            proof {
                assert(m >= 128 * b) by (nonlinear_arith)
                    requires
                        m == head * b + tail,
                        head >= 128,
                ;
                lemma_round_large(r);
            }
            return 100;
        }
        let fraction = scaled_fraction(digits, point);
        proof {
            lemma_hoist_over_denominator((tail * pow2(55)) as int, (head * pow2(55)) as int, b);
            assert(tail * pow2(55) + (head * pow2(55)) * b == m * pow2(55)) by (nonlinear_arith)
                requires
                    m == head * b + tail,
            ;
        }
        percent_of_scaled(v * 0x80_0000_0000_0000 + fraction, Ghost(r))
    }
}

/// `c`, in lower case where it is an ASCII letter.
fn to_lower(c: char) -> (r: char)
    ensures
        r == lower(c),
{
    if 'A' <= c && c <= 'Z' {
        (c as u8 + 32) as char
    } else {
        c
    }
}

fn is_decimal_digit(c: char) -> (r: bool)
    ensures
        r == is_digit(c),
{
    '0' <= c && c <= '9'
}

/// Whether `chars[from..]` spells `word`, in any case.
fn spells_word(chars: &Vec<char>, from: usize, word: &Vec<char>) -> (r: bool)
    requires
        from <= chars.len(),
    ensures
        r == spells(chars@.skip(from as int), word@),
{
    let ghost s = chars@.skip(from as int);
    if chars.len() - from != word.len() {
        return false;
    }
    let mut i: usize = 0;
    while i < word.len()
        invariant
            i <= word.len(),
            from + word.len() == chars.len(),
            s == chars@.skip(from as int),
            forall|k: int| 0 <= k < i ==> lower(#[trigger] s[k]) == word@[k],
        decreases word.len() - i,
    {
        assert(s[i as int] == chars@[from + i]);
        if to_lower(chars[from + i]) != word[i] {
            return false;
        }
        i += 1;
    }
    true
}

/// Moves the digits of `chars[from..]` behind `digits`, and returns where they
/// end.
fn take_digits(chars: &Vec<char>, from: usize, digits: &mut Vec<char>) -> (end: usize)
    requires
        from <= chars.len(),
    ensures
        from <= end <= chars.len(),
        end - from == digit_run(chars@.skip(from as int)),
        all_digits(chars@.subrange(from as int, end as int)),
        final(digits)@ == old(digits)@ + chars@.subrange(from as int, end as int),
{
    let mut i: usize = from;
    let ghost s = chars@.skip(from as int);
    assert(digits@ =~= old(digits)@ + chars@.subrange(from as int, from as int));
    while i < chars.len() && is_decimal_digit(chars[i])
        invariant
            from <= i <= chars.len(),
            s == chars@.skip(from as int),
            forall|k: int| 0 <= k < i - from ==> is_digit(#[trigger] s[k]),
            digits@ == old(digits)@ + chars@.subrange(from as int, i as int),
        decreases chars.len() - i,
    {
        digits.push(chars[i]);
        assert(s[i - from] == chars@[i as int]);
        i += 1;
        assert(digits@ =~= old(digits)@ + chars@.subrange(from as int, i as int));
    }
    proof {
        assert(i < chars.len() ==> s[i - from] == chars@[i as int]);
        lemma_digit_run(s, i - from);
        assert forall|k: int| 0 <= k < i - from implies is_digit(
            #[trigger] chars@.subrange(from as int, i as int)[k],
        ) by {
            assert(s[k] == chars@[from + k]);
        }
    }
    i
}

/// Takes the digits at the start of `chars[from..]`, before and behind the
/// point. Returns them, how many stand before the point, and where they end.
fn take_significand(chars: &Vec<char>, from: usize) -> (r: (Vec<char>, usize, usize))
    requires
        from <= chars.len(),
    ensures
        ({
            let s = chars@.skip(from as int);
            let (digits, whole, end) = r;
            &&& digits@ == significand(s)
            &&& all_digits(digits@)
            &&& whole <= digits.len()
            &&& digits.len() - whole == fraction_run(s)
            &&& from <= end <= chars.len()
            &&& chars@.skip(end as int) == after_point(s).skip(fraction_run(s) as int)
        }),
{
    let ghost s = chars@.skip(from as int);
    let mut digits: Vec<char> = Vec::new();
    let end = take_digits(chars, from, &mut digits);
    let whole: usize = digits.len();
    proof {
        assert(after_whole(s) =~= chars@.skip(end as int));
        assert(digits@ =~= chars@.subrange(from as int, end as int));
        assert(digits@ =~= s.take(whole as int));
        assert(end < chars.len() ==> after_whole(s)[0] == chars@[end as int]);
    }
    if end < chars.len() && chars[end] == '.' {
        let start: usize = end + 1;
        let ghost before = digits@;
        let end = take_digits(chars, start, &mut digits);
        proof {
            assert(after_point(s) =~= chars@.skip(start as int));
            let behind = chars@.subrange(start as int, end as int);
            assert(behind =~= after_point(s).take(fraction_run(s) as int));
            assert forall|k: int| 0 <= k < digits@.len() implies is_digit(
                #[trigger] digits@[k],
            ) by {
                if k < whole {
                    assert(digits@[k] == before[k]);
                } else {
                    assert(digits@[k] == behind[k - whole]);
                }
            }
            assert(chars@.skip(end as int) =~= after_point(s).skip(fraction_run(s) as int));
        }
        (digits, whole, end)
    } else {
        proof {
            assert(digits@ =~= significand(s));
            assert(after_point(s).skip(0) =~= after_point(s));
        }
        (digits, whole, end)
    }
}

spec fn magnitude(x: int) -> nat {
    if x < 0 {
        (-x) as nat
    } else {
        x as nat
    }
}

/// The number that `chars[from..]` denotes, where all of it is digits.
fn limited_digits(chars: &Vec<char>, from: usize) -> (size: Option<u128>)
    requires
        from <= chars.len(),
    ensures
        size is Some <==> all_digits(chars@.skip(from as int)),
        size matches Some(n) ==> limited(n, digits_value(chars@.skip(from as int))),
{
    let ghost s = chars@.skip(from as int);
    let mut size: u128 = 0;
    let mut i: usize = from;
    assert(s.take(0) =~= Seq::<char>::empty());
    while i < chars.len()
        invariant
            from <= i <= chars.len(),
            s == chars@.skip(from as int),
            forall|k: int| 0 <= k < i - from ==> is_digit(#[trigger] s[k]),
            size <= EXPONENT_LIMIT + 1,
            limited(size, digits_value(s.take(i - from))),
        decreases chars.len() - i,
    {
        let c = chars[i];
        assert(s[i - from] == c);
        if !is_decimal_digit(c) {
            return None;
        }
        assert(s.take(i - from + 1).drop_last() =~= s.take(i - from));
        let next: u128 = size * 10 + (c as u32 - 48) as u128;
        size = if next <= EXPONENT_LIMIT {
            next
        } else {
            EXPONENT_LIMIT + 1
        };
        i += 1;
    }
    assert(s.take(chars.len() - from) =~= s);
    Some(size)
}

/// The exponent that `chars[from..]` denotes: whether it is negative, and its
/// size.
fn take_exponent(chars: &Vec<char>, from: usize) -> (r: Option<(bool, u128)>)
    requires
        from <= chars.len(),
    ensures
        match parse_exponent(chars@.skip(from as int)) {
            Some(x) => r matches Some((minus, size)) && limited(size, magnitude(x)) && x == if minus {
                -(magnitude(x) as int)
            } else {
                magnitude(x) as int
            },
            None => r is None,
        },
{
    let ghost s = chars@.skip(from as int);
    if from == chars.len() {
        return Some((false, 0));
    }
    assert(s[0] == chars@[from as int]);
    if to_lower(chars[from]) != 'e' {
        return None;
    }
    let mut j: usize = from + 1;
    let mut minus: bool = false;
    let ghost signed = s.skip(1);
    assert(signed =~= chars@.skip(j as int));
    assert(j < chars.len() ==> signed[0] == chars@[j as int]);
    if j < chars.len() && (chars[j] == '-' || chars[j] == '+') {
        minus = chars[j] == '-';
        j += 1;
        assert(signed.skip(1) =~= chars@.skip(j as int));
    }
    assert(unsigned(signed) == chars@.skip(j as int));
    if j == chars.len() {
        return None;
    }
    match limited_digits(chars, j) {
        Some(size) => Some((minus, size)),
        None => None,
    }
}

/// The percentage that the unsigned number `chars[from..]` stands for.
fn unsigned_percent(chars: &Vec<char>, from: usize, negative: bool) -> (r: Option<usize>)
    requires
        from <= chars.len(),
    ensures
        match parse_unsigned(chars@.skip(from as int), negative) {
            Some(n) => r == Some(percent_of(n) as usize) && percent_of(n) <= 100,
            None => r is None,
        },
{
    let (digits, whole, end) = take_significand(chars, from);
    if digits.len() == 0 {
        return None;
    }
    match take_exponent(chars, end) {
        Some((minus, size)) => {
            let ghost x = parse_exponent(chars@.skip(end as int))->0;
            let p = percent_of_decimal(&digits, whole, minus, size, Ghost(magnitude(x)));
            if negative {
                Some(0)
            } else {
                Some(p)
            }
        },
        None => None,
    }
}

/// The percentage that the number `chars` stands for.
fn number_percent(chars: &Vec<char>) -> (r: Option<usize>)
    ensures
        match parse_number(chars@) {
            Some(n) => r == Some(percent_of(n) as usize) && percent_of(n) <= 100,
            None => r is None,
        },
{
    let mut from: usize = 0;
    let mut negative: bool = false;
    if chars.len() > 0 && (chars[0] == '-' || chars[0] == '+') {
        negative = chars[0] == '-';
        from = 1;
    }
    assert(chars@.skip(0) =~= chars@);
    assert(chars@.skip(from as int) == unsigned(chars@));
    let nan: Vec<char> = vec!['n', 'a', 'n'];
    let inf: Vec<char> = vec!['i', 'n', 'f'];
    let infinity: Vec<char> = vec!['i', 'n', 'f', 'i', 'n', 'i', 't', 'y'];
    assert(nan@ =~= seq!['n', 'a', 'n']);
    assert(inf@ =~= seq!['i', 'n', 'f']);
    assert(infinity@ =~= seq!['i', 'n', 'f', 'i', 'n', 'i', 't', 'y']);
    if spells_word(chars, from, &nan) {
        Some(0)
    } else if spells_word(chars, from, &inf) || spells_word(chars, from, &infinity) {
        if negative {
            Some(0)
        } else {
            Some(100)
        }
    } else {
        unsigned_percent(chars, from, negative)
    }
}

/// Parses a progress line (` 12.3%`, `100.0%`) into an integer percentage.
/// Returns `None` for lines that are not percentages.
pub fn parse_progress_percent(line: &str) -> (r: Option<usize>)
    ensures
        match progress_percent(line@) {
            Some(p) => r == Some(p as usize) && p <= 100,
            None => r is None,
        },
{
    let t = trim(line);
    let n = t.unicode_len();
    if n == 0 || t.get_char(n - 1) != '%' {
        return None;
    }
    let value = t.substring_char(0, n - 1);
    assert(value@ =~= trimmed(line@).drop_last());
    number_percent(&characters(trim(value)))
}

/// White space around a progress line does not matter.
pub proof fn law_space_around_is_ignored(line: Seq<char>)
    ensures
        progress_percent(trimmed(line)) == progress_percent(line),
{
    lemma_trimmed_ends(line);
    lemma_trim_nothing(trimmed(line));
}

/// A larger number is never a smaller percentage.
pub proof fn law_larger_number_no_smaller_percent(
    digits1: nat,
    exponent1: int,
    digits2: nat,
    exponent2: int,
    negative1: bool,
)
    requires
        at_most(decimal_ratio(digits1, exponent1), decimal_ratio(digits2, exponent2)),
    ensures
        percent_of(
            Number::Finite { negative: negative1, digits: digits1, exponent: exponent1 },
        ) <= percent_of(Number::Finite { negative: false, digits: digits2, exponent: exponent2 }),
{
    let a = decimal_ratio(digits1, exponent1);
    let b = decimal_ratio(digits2, exponent2);
    if exponent1 < 0 {
        lemma_pow10((-exponent1) as nat, 0);
    }
    if exponent2 < 0 {
        lemma_pow10((-exponent2) as nat, 0);
    }
    lemma_to_double_monotonic(a, b);
    lemma_round_half_up_monotonic(to_double(a), to_double(b));
}

/// A whole number of percent is read as it is written, up to 100.
pub proof fn law_whole_percentages(n: nat)
    ensures
        progress_percent(decimal(n).push('%')) == Some(
            if n <= 100 {
                n
            } else {
                100
            },
        ),
{
    let s = decimal(n);
    let line = s.push('%');
    lemma_decimal(n);
    assert(is_digit(s[0]) && is_digit(s[s.len() - 1]));
    lemma_trim_nothing(line);
    assert(line.drop_last() =~= s);
    lemma_trim_nothing(s);
    lemma_digit_run(s, s.len() as int);
    assert(after_whole(s) =~= Seq::<char>::empty());
    assert(significand(s) =~= s);
    assert(after_point(s).skip(0) =~= Seq::<char>::empty());
    assert(lower(s[0]) != 'n' && lower(s[0]) != 'i');
    lemma_pow10(0, 0);
    let r = Ratio { num: n, den: 1 };
    assert(n * pow10(0) == n) by (nonlinear_arith)
        requires
            pow10(0) == 1,
    ;
    if n >= 128 {
        lemma_round_large(r);
    } else {
        lemma2_to64_rest();
        lemma_small_integer(n);
    }
}

/// The decimal digits of a number denote it.
proof fn lemma_decimal(n: nat)
    ensures
        decimal(n).len() > 0,
        all_digits(decimal(n)),
        digits_value(decimal(n)) == n,
    decreases n,
{
    let s = decimal(n);
    let d = digit_char(n % 10);
    assert(is_digit(d) && digit_value(d) == n % 10);
    if n < 10 {
        assert(s.drop_last() =~= Seq::<char>::empty());
        assert(digits_value(s.drop_last()) == 0);
    } else {
        lemma_decimal(n / 10);
        assert(s.drop_last() =~= decimal(n / 10));
    }
}

/// A number is rounded to the nearest percentage: from a half on upwards, and below
/// a half, by as little as a 1024th, downwards.
pub proof fn law_nearest_percentage(r: Ratio, k: nat)
    requires
        r.den > 0,
        k < 100,
    ensures
        2 * r.num >= (2 * k + 1) * r.den ==> nearest_percent(r) >= k + 1,
        1024 * r.num <= (1024 * k + 511) * r.den ==> nearest_percent(r) <= k,
        nearest_percent(r) <= 100,
{
    let high = Ratio { num: 1024 * k + 512, den: 1024 };
    let low = Ratio { num: 1024 * k + 511, den: 1024 };
    lemma_dyadic(high.num);
    lemma_dyadic(low.num);
    assert((2 * high.num + high.den) / (2 * high.den) == k + 1) by (nonlinear_arith)
        requires
            high.num == 1024 * k + 512,
            high.den == 1024,
    ;
    assert((2 * low.num + low.den) / (2 * low.den) == k) by (nonlinear_arith)
        requires
            low.num == 1024 * k + 511,
            low.den == 1024,
    ;
    if 2 * r.num >= (2 * k + 1) * r.den {
        assert(high.num * r.den <= r.num * high.den) by (nonlinear_arith)
            requires
                2 * r.num >= (2 * k + 1) * r.den,
                high.num == 1024 * k + 512,
                high.den == 1024,
        ;
        lemma_to_double_monotonic(high, r);
        lemma_round_half_up_monotonic(to_double(high), to_double(r));
    }
    if 1024 * r.num <= (1024 * k + 511) * r.den {
        assert(r.num * low.den <= low.num * r.den) by (nonlinear_arith)
            requires
                1024 * r.num <= (1024 * k + 511) * r.den,
                low.num == 1024 * k + 511,
                low.den == 1024,
        ;
        lemma_to_double_monotonic(r, low);
        lemma_round_half_up_monotonic(to_double(r), to_double(low));
    }
}

/// A line with a number of percent and decimals, as `12.3%`, is read as that number,
/// rounded.
pub proof fn law_decimal_percentages(n: nat, decimals: Seq<char>)
    requires
        all_digits(decimals),
    ensures
        progress_percent((decimal(n).push('.') + decimals).push('%')) == Some(
            nearest_percent(
                Ratio {
                    num: n * pow10(decimals.len()) + digits_value(decimals),
                    den: pow10(decimals.len()),
                },
            ),
        ),
{
    let whole = decimal(n);
    let s = whole.push('.') + decimals;
    let line = s.push('%');
    let a = whole.len() as int;
    let b = decimals.len() as int;
    lemma_decimal(n);
    assert(is_digit(whole[0]));
    assert(s[0] == whole[0]);
    if b > 0 {
        assert(is_digit(decimals[b - 1]));
        assert(s.last() == decimals[b - 1]);
    }
    lemma_trim_nothing(line);
    assert(line.drop_last() =~= s);
    lemma_trim_nothing(s);
    assert forall|i: int| 0 <= i < a implies is_digit(#[trigger] s[i]) by {
        assert(s[i] == whole[i]);
    }
    assert(s[a] == '.');
    lemma_digit_run(s, a);
    assert(after_whole(s)[0] == s[a]);
    assert(after_point(s) =~= decimals);
    lemma_digit_run(decimals, b);
    assert(s.take(a) =~= whole);
    assert(decimals.take(b) =~= decimals);
    assert(significand(s) =~= whole + decimals);
    lemma_digits_concat(whole, decimals);
    assert(after_point(s).skip(b) =~= Seq::<char>::empty());
    assert(lower(s[0]) != 'n' && lower(s[0]) != 'i');
    lemma_pow10(0, 0);
    let m = n * pow10(b as nat) + digits_value(decimals);
    if b == 0 {
        assert(m * pow10(0) == m) by (nonlinear_arith)
            requires
                pow10(0) == 1,
        ;
    }
}

/// A line without a percent sign at its end, white space aside, is no percentage.
pub proof fn law_no_percent_sign(line: Seq<char>)
    requires
        trimmed(line).len() == 0 || trimmed(line).last() != '%',
    ensures
        progress_percent(line) is None,
{
}

/// The decimal form of a number is made of digits, without a leading zero, and the
/// digits denote the number.
pub proof fn law_decimal_form(n: nat)
    ensures
        decimal(n).len() > 0,
        all_digits(decimal(n)),
        digits_value(decimal(n)) == n,
        n >= 10 ==> decimal(n)[0] != '0',
    decreases n,
{
    lemma_decimal(n);
    if n >= 10 {
        law_decimal_form(n / 10);
        assert(decimal(n)[0] == decimal(n / 10)[0]);
        if n < 100 {
            assert(decimal(n / 10)[0] == digit_char(n / 10));
        }
    }
}

} // verus!
