//! Decimal numerals as bit patterns of IEEE 754 binary interchange formats,
//! rounded to the nearest value with ties to the even pattern.
//!
//! No floating-point arithmetic is involved: the nearest pattern is found by
//! comparing natural numbers.
use crate::bignum;
use crate::text;
use vstd::arithmetic::power::*;
use vstd::prelude::*;

verus! {

/// A binary interchange format.
#[derive(Clone, Copy)]
pub enum Format {
    /// 32 bits: 8 of exponent, 23 of fraction.
    Single,
    /// 64 bits: 11 of exponent, 52 of fraction.
    Double,
}

/// Number of patterns per exponent: two to the number of fraction bits.
pub open spec fn fractions(f: Format) -> int {
    match f {
        Format::Single => 0x80_0000,
        Format::Double => 0x10_0000_0000_0000,
    }
}

/// The pattern of positive infinity.
pub open spec fn infinity(f: Format) -> int {
    match f {
        Format::Single => 0x7F80_0000,
        Format::Double => 0x7FF0_0000_0000_0000,
    }
}

/// The sign bit.
pub open spec fn sign_bit(f: Format) -> int {
    match f {
        Format::Single => 0x8000_0000,
        Format::Double => 0x8000_0000_0000_0000,
    }
}

/// The smallest positive value is two to the minus this.
pub open spec fn unit_exponent(f: Format) -> nat {
    match f {
        Format::Single => 149,
        Format::Double => 1074,
    }
}

/// The significand of a positive pattern as a whole number.
pub open spec fn significand(b: int, f: Format) -> int {
    if b / fractions(f) == 0 {
        b % fractions(f)
    } else {
        fractions(f) + b % fractions(f)
    }
}

/// The power of two by which the significand is scaled.
pub open spec fn scale(b: int, f: Format) -> int {
    if b / fractions(f) == 0 {
        0
    } else {
        b / fractions(f) - 1
    }
}

/// The value of a positive pattern, counted in smallest positive values. The
/// pattern of infinity counts as the value after the largest finite one.
pub open spec fn magnitude(b: int, f: Format) -> int {
    significand(b, f) * pow(2, scale(b, f) as nat)
}

/// The sum of the values of a pattern and its successor.
pub open spec fn midpoint(b: int, f: Format) -> int {
    magnitude(b, f) + magnitude(b + 1, f)
}

/// `n * 10^e` doubled and counted in smallest positive values, times a power
/// of ten that makes it whole.
pub open spec fn target(n: int, e: int, f: Format) -> int {
    n * pow(10, (if e > 0 { e } else { 0 }) as nat) * pow(2, unit_exponent(f) + 1)
}

/// The power of ten that makes `target` whole.
pub open spec fn clearing(e: int) -> int {
    pow(10, (if e < 0 { -e } else { 0 }) as nat)
}

/// `n * 10^e` lies below the midpoint after `b`, or on it with `b` even.
pub open spec fn rounds_down(n: int, e: int, f: Format, b: int) -> bool {
    ||| target(n, e, f) < midpoint(b, f) * clearing(e)
    ||| target(n, e, f) == midpoint(b, f) * clearing(e) && b % 2 == 0
}

/// `b` is the pattern nearest to `n * 10^e`.
pub open spec fn is_nearest(n: int, e: int, f: Format, b: int) -> bool {
    &&& 0 <= b <= infinity(f)
    &&& b > 0 ==> !rounds_down(n, e, f, b - 1)
    &&& b < infinity(f) ==> rounds_down(n, e, f, b)
}

/// The pattern nearest to `n * 10^e`.
pub open spec fn nearest(n: int, e: int, f: Format) -> int {
    choose|b: int| is_nearest(n, e, f, b)
}

/// The next pattern has a significand one larger at the same scale.
pub proof fn lemma_successor(b: int, f: Format)
    requires
        0 <= b,
    ensures
        magnitude(b + 1, f) == (significand(b, f) + 1) * pow(2, scale(b, f) as nat),
        midpoint(b, f) == (2 * significand(b, f) + 1) * pow(2, scale(b, f) as nat),
        significand(b, f) >= 0,
        scale(b, f) >= 0,
{
    let m = fractions(f);
    let e = b / m;
    let r = b % m;
    assert(b == e * m + r && 0 <= r < m && e >= 0) by (nonlinear_arith)
        requires
            e == b / m,
            r == b % m,
            m > 0,
            b >= 0,
    ;
    let p = pow(2, scale(b, f) as nat);
    let s = significand(b, f);
    if r + 1 < m {
        assert((b + 1) / m == e && (b + 1) % m == r + 1) by (nonlinear_arith)
            requires
                b == e * m + r,
                0 <= r,
                r + 1 < m,
        ;
    } else {
        assert((b + 1) / m == e + 1 && (b + 1) % m == 0) by (nonlinear_arith)
            requires
                b == e * m + r,
                r + 1 == m,
                m > 0,
        ;
        if e > 0 {
            assert(pow(2, e as nat) == 2 * pow(2, (e - 1) as nat)) by {
                reveal(pow);
            }
            assert(m * (2 * p) == (2 * m) * p) by (nonlinear_arith);
        } else {
            lemma_pow0(2);
        }
    }
    assert(s * p + (s + 1) * p == (2 * s + 1) * p) by (nonlinear_arith);
}

/// The doubled value before a pattern lies below the one after it.
proof fn lemma_midpoint_grows(a: int, b: int, f: Format)
    requires
        0 <= a < b,
    ensures
        midpoint(a, f) < midpoint(b, f),
    decreases b - a,
{
    lemma_successor(a, f);
    lemma_successor(a + 1, f);
    let p = pow(2, scale(a, f) as nat);
    let q = pow(2, scale(a + 1, f) as nat);
    lemma_pow_positive(2, scale(a, f) as nat);
    lemma_pow_positive(2, scale(a + 1, f) as nat);
    let s = significand(a, f);
    let t = significand(a + 1, f);
    assert(s * p < (s + 1) * p) by (nonlinear_arith)
        requires
            p > 0,
    ;
    assert(t * q < (t + 1) * q) by (nonlinear_arith)
        requires
            q > 0,
    ;
    if a + 1 < b {
        lemma_midpoint_grows(a + 1, b, f);
    }
}

/// Once a pattern rounds down, so does every later one.
proof fn lemma_rounds_down_stays(n: int, e: int, f: Format, a: int, b: int)
    requires
        0 <= a < b,
        rounds_down(n, e, f, a),
    ensures
        rounds_down(n, e, f, b),
{
    lemma_midpoint_grows(a, b, f);
    let c = clearing(e);
    lemma_pow_positive(10, (if e < 0 { -e } else { 0 }) as nat);
    let x = midpoint(a, f);
    let y = midpoint(b, f);
    assert(x * c < y * c) by (nonlinear_arith)
        requires
            x < y,
            c > 0,
    ;
}

/// There is only one nearest pattern.
pub proof fn lemma_nearest_unique(n: int, e: int, f: Format, a: int, b: int)
    requires
        is_nearest(n, e, f, a),
        is_nearest(n, e, f, b),
    ensures
        a == b,
{
    if a < b {
        if a < b - 1 {
            lemma_rounds_down_stays(n, e, f, a, b - 1);
        }
    } else if b < a {
        if b < a - 1 {
            lemma_rounds_down_stays(n, e, f, b, a - 1);
        }
    }
}

/// Ten to a power is at least eight to it.
proof fn lemma_ten_over_eight(k: nat)
    ensures
        pow(10, k) >= pow(2, 3 * k),
    decreases k,
{
    reveal(pow);
    if k > 0 {
        lemma_ten_over_eight((k - 1) as nat);
        lemma_pow_adds(2, (3 * (k - 1)) as nat, 3);
        assert(pow(2, 3) == 8) by {
            reveal_with_fuel(pow, 4);
        }
        let a = pow(10, (k - 1) as nat);
        let b = pow(2, (3 * (k - 1)) as nat);
        lemma_pow_positive(2, (3 * (k - 1)) as nat);
        assert(10 * a >= b * 8) by (nonlinear_arith)
            requires
                a >= b,
                b > 0,
        ;
    }
}

/// The number that `k` decimal digits spell is below ten to the `k`.
proof fn lemma_digits_bound(s: Seq<char>)
    requires
        text::all_digits(s, 10),
    ensures
        0 <= text::number(s, 10) < pow(10, s.len()),
    decreases s.len(),
{
    reveal(pow);
    if s.len() > 0 {
        assert(text::all_digits(s.drop_last(), 10)) by {
            assert forall|i: int| 0 <= i < s.drop_last().len() implies text::digit_of(
                #[trigger] s.drop_last()[i],
            ) < 10 by {
                assert(s.drop_last()[i] == s[i]);
            }
        }
        lemma_digits_bound(s.drop_last());
        assert(text::digit_of(s[s.len() - 1]) < 10);
    }
}

/// A number whose leading digit stands 400 places or more after the point is
/// nearest to zero.
proof fn lemma_tiny(n: int, e: int, f: Format, digits: nat)
    requires
        0 <= n < pow(10, digits),
        e + digits <= -400,
    ensures
        is_nearest(n, e, f, 0),
{
    let k = (-e - digits) as nat;
    lemma_ten_over_eight(k);
    lemma_pow_increases(2, unit_exponent(f) + 1, 3 * k);
    lemma_pow_adds(10, digits, k);
    assert(digits + k == -e);
    lemma_successor(0, f);
    lemma_pow0(2);
    lemma_pow0(10);
    assert(midpoint(0, f) == 1) by {
        assert(significand(0, f) == 0);
        assert(1 * pow(2, 0) == 1);
    }
    let d = pow(10, digits);
    let u = pow(2, unit_exponent(f) + 1);
    let t = pow(10, k);
    lemma_pow_positive(2, unit_exponent(f) + 1);
    assert(n * 1 * u < 1 * (d * t)) by (nonlinear_arith)
        requires
            0 <= n < d,
            0 < u <= t,
    ;
}

/// Zero is nearest to zero.
proof fn lemma_zero(e: int, f: Format)
    ensures
        is_nearest(0, e, f, 0),
{
    lemma_successor(0, f);
    lemma_pow0(2);
    assert(midpoint(0, f) == 1) by {
        assert(significand(0, f) == 0);
        assert(1 * pow(2, 0) == 1);
    }
    lemma_pow_positive(10, (if e < 0 { -e } else { 0 }) as nat);
    let t = pow(10, (if e > 0 { e } else { 0 }) as nat);
    let u = pow(2, unit_exponent(f) + 1);
    assert(0 * t * u == 0) by (nonlinear_arith);
}

/// A whole number with 400 zeros or more is nearest to infinity.
proof fn lemma_huge(n: int, e: int, f: Format)
    requires
        n >= 1,
        e >= 400,
    ensures
        is_nearest(n, e, f, infinity(f)),
{
    let i = infinity(f);
    lemma_successor(i - 1, f);
    let s = significand(i - 1, f);
    let sc = scale(i - 1, f) as nat;
    assert(s < 2 * fractions(f) && s >= 0);
    assert(2 * s + 1 <= 0x40_0000_0000_0000);
    assert(pow(2, 54) == 0x40_0000_0000_0000) by {
        lemma_two_to_54();
    }
    lemma_pow_adds(2, 54, sc);
    let p = pow(2, sc);
    lemma_pow_positive(2, sc);
    let g = 2 * s + 1;
    assert(g * p <= pow(2, 54) * p) by (nonlinear_arith)
        requires
            0 <= g <= 0x40_0000_0000_0000,
            pow(2, 54) == 0x40_0000_0000_0000,
            p > 0,
    ;
    lemma_ten_over_eight(e as nat);
    lemma_pow_adds(2, 3 * (e as nat), unit_exponent(f) + 1);
    assert(sc <= 2045) by {
        match f {
            Format::Single => {
                assert((i - 1) / fractions(f) == 254);
            },
            Format::Double => {
                assert((i - 1) / fractions(f) == 2046);
            },
        }
    }
    lemma_pow_strictly_increases(2, 54 + sc, 3 * (e as nat) + unit_exponent(f) + 1);
    let t = pow(10, e as nat);
    let u = pow(2, unit_exponent(f) + 1);
    let w = pow(2, 3 * (e as nat));
    lemma_pow_positive(2, unit_exponent(f) + 1);
    lemma_pow_positive(2, 3 * (e as nat));
    assert(n * t * u >= w * u) by (nonlinear_arith)
        requires
            n >= 1,
            t >= w,
            w > 0,
            u > 0,
    ;
    lemma_pow0(10);
    assert(clearing(e) == 1);
    let mp = midpoint(i - 1, f);
    assert(mp * 1 == mp);
}

proof fn lemma_two_to_54()
    ensures
        pow(2, 54) == 0x40_0000_0000_0000,
{
    reveal(pow);
    assert(pow(2, 9) == 512) by {
        reveal_with_fuel(pow, 10);
    }
    lemma_pow_adds(2, 9, 9);
    lemma_pow_adds(2, 18, 18);
    lemma_pow_adds(2, 36, 18);
    assert(512 * 512 == 0x4_0000);
    assert(0x4_0000 * 0x4_0000 == 0x10_0000_0000);
    assert(0x10_0000_0000 * 0x4_0000 == 0x40_0000_0000_0000);
}

/// Tests on which side of the midpoint after `b` a number lies. `digits` holds
/// the number scaled to `target`.
fn test_round_down(digits: &mut Vec<u32>, e: i128, f: Format, b: u64, Ghost(n): Ghost<int>) -> (r:
    bool)
    requires
        bignum::big(old(digits)@) == target(n, e as int, f),
        b < infinity(f),
        e > -2 * FAR,
    ensures
        r == rounds_down(n, e as int, f, b as int),
        bignum::big(final(digits)@) == bignum::big(old(digits)@),
{
    let m: u64 = match f {
        Format::Single => 0x80_0000,
        Format::Double => 0x10_0000_0000_0000,
    };
    let s: u64 = if b / m == 0 {
        b % m
    } else {
        m + b % m
    };
    let shift: u128 = if b / m == 0 {
        0
    } else {
        (b / m - 1) as u128
    };
    proof {
        lemma_successor(b as int, f);
    }
    let mut half: Vec<u32> = bignum::big_from(2 * s + 1);
    bignum::mul_power(&mut half, 2, shift);
    let tens: u128 = if e < 0 {
        (0 - e) as u128
    } else {
        0
    };
    bignum::mul_power(&mut half, 10, tens);
    let (less, equal) = bignum::compare_big(digits, &mut half);
    less || (equal && b % 2 == 0)
}

/// Exponents from here on up are all the same to rounding.
pub const FAR: i128 = 0x10_0000_0000_0000_0000_0000_0000;

/// The pattern nearest to the number that `digits` spell in decimal, times ten
/// to the `exact`. `e` is that exponent, or stands for one that is far off.
fn nearest_pattern(digits: &[char], e: i128, f: Format, Ghost(exact): Ghost<int>) -> (r: u64)
    requires
        text::all_digits(digits@, 10),
        -2 * FAR < e < 2 * FAR,
        e == exact || (e >= 0x1_0000_0000_0000_0000_0000 && exact >= 400) || (e
            <= -0x1_0000_0000_0000_0000_0000 && exact + digits@.len() <= -400),
    ensures
        r == nearest(text::number(digits@, 10), exact, f),
        r <= infinity(f),
{
    let ghost n = text::number(digits@, 10);
    let top: u64 = match f {
        Format::Single => 0x7F80_0000,
        Format::Double => 0x7FF0_0000_0000_0000,
    };
    let mut value: Vec<u32> = Vec::new();
    let mut i: usize = 0;
    let mut zero: bool = true;
    proof {
        lemma_digits_bound(digits@);
        assert(digits@.take(0) =~= Seq::empty());
    }
    while i < digits.len()
        invariant
            i <= digits@.len(),
            text::all_digits(digits@, 10),
            bignum::big(value@) == text::number(digits@.take(i as int), 10),
            zero == (text::number(digits@.take(i as int), 10) == 0),
        decreases digits@.len() - i,
    {
        proof {
            assert(digits@.take(i + 1).drop_last() =~= digits@.take(i as int));
            text::lemma_number_prefix(digits@, 10, i as int);
        }
        let d: u32 = text::digit(digits[i]);
        bignum::mul_add(&mut value, 10, d);
        zero = zero && d == 0;
        i = i + 1;
    }
    proof {
        assert(digits@.take(i as int) =~= digits@);
    }
    if zero || e + digits.len() as i128 <= -400 {
        proof {
            if n == 0 {
                lemma_zero(exact, f);
            } else {
                lemma_tiny(n, exact, f, digits@.len());
            }
            assert(is_nearest(n, exact, f, 0));
            lemma_nearest_unique(n, exact, f, 0, nearest(n, exact, f));
        }
        return 0;
    }
    if e >= 400 {
        proof {
            lemma_huge(n, exact, f);
            assert(is_nearest(n, exact, f, infinity(f)));
            lemma_nearest_unique(n, exact, f, infinity(f), nearest(n, exact, f));
        }
        return top;
    }
    let up: u128 = if e > 0 {
        e as u128
    } else {
        0
    };
    let units: u128 = match f {
        Format::Single => 150,
        Format::Double => 1075,
    };
    bignum::mul_power(&mut value, 10, up);
    bignum::mul_power(&mut value, 2, units);
    let mut low: u64 = 0;
    let mut high: u64 = top;
    while low < high
        invariant
            low <= high,
            high <= top,
            top == infinity(f),
            bignum::big(value@) == target(n, e as int, f),
            e > -2 * FAR,
            low > 0 ==> !rounds_down(n, e as int, f, low - 1),
            high < top ==> rounds_down(n, e as int, f, high as int),
        decreases high - low,
    {
        let mid: u64 = low + (high - low) / 2;
        if test_round_down(&mut value, e, f, mid, Ghost(n)) {
            high = mid;
        } else {
            low = mid + 1;
        }
    }
    proof {
        assert(e == exact);
        assert(is_nearest(n, exact, f, low as int));
        lemma_nearest_unique(n, exact, f, low as int, nearest(n, exact, f));
    }
    low
}

/// The exponent of a numeral: decimal digits after an optional sign.
pub open spec fn exponent(x: Seq<char>) -> Option<int> {
    if x.len() > 0 && x[0] == '-' {
        match text::natural(x.skip(1), 10) {
            Some(v) => Some(-v),
            None => None,
        }
    } else if x.len() > 0 && x[0] == '+' {
        text::natural(x.skip(1), 10)
    } else {
        text::natural(x, 10)
    }
}

/// The digits of a numeral before and after its point.
pub open spec fn halves(m: Seq<char>) -> (Seq<char>, Seq<char>) {
    match text::cut(m, text::Class::Is('.')) {
        Some((a, b)) => (a, b),
        None => (m, Seq::empty()),
    }
}

/// A numeral is digits with an optional point and an optional exponent. It
/// stands for its digits, read as a whole number, times ten to the second part
/// of the answer.
pub open spec fn numeral(s: Seq<char>) -> Option<(Seq<char>, int)> {
    let (m, power) = match text::cut(s, text::Class::Either('e', 'E')) {
        Some((m, x)) => (m, exponent(x)),
        None => (s, Some(0)),
    };
    let (a, b) = halves(m);
    if (a + b).len() == 0 || !text::all_digits(a + b, 10) {
        None
    } else {
        match power {
            Some(v) => Some((a + b, v - b.len())),
            None => None,
        }
    }
}

/// The pattern of a text without a sign: a numeral, infinity or not a number.
pub open spec fn unsigned_pattern(s: Seq<char>, f: Format) -> Option<int> {
    match numeral(s) {
        Some((d, e)) => Some(nearest(text::number(d, 10), e, f)),
        None => if text::same_ignoring_case(s, "inf"@) || text::same_ignoring_case(
            s,
            "infinity"@,
        ) {
            Some(infinity(f))
        } else if text::same_ignoring_case(s, "nan"@) {
            Some(infinity(f) + fractions(f) / 2)
        } else {
            None
        },
    }
}

/// The bit pattern of a number written in decimal.
pub open spec fn pattern(s: Seq<char>, f: Format) -> Option<int> {
    if s.len() == 0 {
        None
    } else if s[0] == '-' {
        match unsigned_pattern(s.skip(1), f) {
            Some(b) => Some(sign_bit(f) + b),
            None => None,
        }
    } else if s[0] == '+' {
        unsigned_pattern(s.skip(1), f)
    } else {
        unsigned_pattern(s, f)
    }
}

/// Reads decimal digits; a value from `FAR` on is only known to be that large.
fn read_power(s: &[char]) -> (r: Option<i128>)
    ensures
        match r {
            Some(v) => 0 <= v <= FAR && (match text::natural(s@, 10) {
                Some(w) => (v < FAR ==> v == w) && (v == FAR ==> w >= FAR),
                None => false,
            }),
            None => text::natural(s@, 10) is None,
        },
{
    if s.len() == 0 {
        return None;
    }
    let mut i: usize = 0;
    while i < s.len()
        invariant
            i <= s@.len(),
            forall|j: int| 0 <= j < i ==> text::digit_of(#[trigger] s@[j]) < 10,
        decreases s@.len() - i,
    {
        if text::digit(s[i]) >= 10 {
            return None;
        }
        i = i + 1;
    }
    let mut v: i128 = 0;
    let mut n: usize = 0;
    while n < s.len()
        invariant
            n <= s@.len(),
            0 <= v <= FAR,
            text::all_digits(s@, 10),
            v < FAR ==> v == text::number(s@.take(n as int), 10),
            v == FAR ==> text::number(s@.take(n as int), 10) >= FAR,
        decreases s@.len() - n,
    {
        proof {
            assert(s@.take(n + 1).drop_last() =~= s@.take(n as int));
            assert(text::digit_of(s@[n as int]) >= 0);
        }
        if v < FAR {
            v = v * 10 + text::digit(s[n]) as i128;
            if v > FAR {
                v = FAR;
            }
        }
        n = n + 1;
    }
    proof {
        assert(s@.take(n as int) =~= s@);
    }
    Some(v)
}

/// Reads the exponent of a numeral; one of `FAR` or more in size is only known
/// to be that large.
fn read_exponent(x: &[char]) -> (r: Option<i128>)
    ensures
        match r {
            Some(v) => -FAR <= v <= FAR && (match exponent(x@) {
                Some(w) => (-FAR < v < FAR ==> v == w) && (v == FAR ==> w >= FAR) && (v == -FAR
                    ==> w <= -FAR),
                None => false,
            }),
            None => exponent(x@) is None,
        },
{
    if x.len() > 0 && x[0] == '-' {
        match read_power(text::from_index(x, 1)) {
            Some(v) => Some(0 - v),
            None => None,
        }
    } else if x.len() > 0 && x[0] == '+' {
        read_power(text::from_index(x, 1))
    } else {
        read_power(x)
    }
}

/// Reads a number without a sign.
fn parse_unsigned_pattern(s: &[char], f: Format) -> (r: Option<u64>)
    ensures
        match r {
            Some(b) => unsigned_pattern(s@, f) == Some(b as int),
            None => unsigned_pattern(s@, f) is None,
        },
        r matches Some(b) ==> b < sign_bit(f),
{
    let (m, power): (&[char], Option<i128>) = match text::split_once(
        s,
        text::Class::Either('e', 'E'),
    ) {
        Some((m, x)) => (m, read_exponent(x)),
        None => (s, Some(0)),
    };
    let (a, b): (&[char], &[char]) = match text::split_once(m, text::Class::Is('.')) {
        Some((a, b)) => (a, b),
        None => (m, text::from_index(m, m.len())),
    };
    proof {
        assert(m@.skip(m@.len() as int) =~= Seq::empty());
        assert(halves(m@) == (a@, b@));
    }
    let mut digits: Vec<char> = text::copied(a);
    text::push_all(&mut digits, b);
    let mut ok: bool = digits.len() > 0;
    let mut i: usize = 0;
    while i < digits.len()
        invariant
            i <= digits@.len(),
            ok == (digits@.len() > 0 && forall|j: int|
                0 <= j < i ==> text::digit_of(#[trigger] digits@[j]) < 10),
        decreases digits@.len() - i,
    {
        ok = ok && text::digit(digits[i]) < 10;
        i = i + 1;
    }
    if ok {
        match power {
            Some(v) => {
                let e: i128 = v - b.len() as i128;
                let ghost exact = match numeral(s@) {
                    Some((d, x)) => x,
                    None => 0,
                };
                let r: u64 = nearest_pattern(&digits, e, f, Ghost(exact));
                return Some(r);
            },
            None => {},
        }
    }
    if text::same_any_case(s, &text::chars_of("inf")) || text::same_any_case(
        s,
        &text::chars_of("infinity"),
    ) {
        match f {
            Format::Single => Some(0x7F80_0000),
            Format::Double => Some(0x7FF0_0000_0000_0000),
        }
    } else if text::same_any_case(s, &text::chars_of("nan")) {
        match f {
            Format::Single => Some(0x7FC0_0000),
            Format::Double => Some(0x7FF8_0000_0000_0000),
        }
    } else {
        None
    }
}

/// Reads a number written in decimal as its bit pattern.
pub fn parse_pattern(s: &[char], f: Format) -> (r: Option<u64>)
    ensures
        match r {
            Some(b) => pattern(s@, f) == Some(b as int),
            None => pattern(s@, f) is None,
        },
        r matches Some(b) ==> b < 2 * sign_bit(f),
{
    if s.len() == 0 {
        None
    } else if s[0] == '-' {
        match parse_unsigned_pattern(text::from_index(s, 1), f) {
            Some(b) => match f {
                Format::Single => Some(0x8000_0000 + b),
                Format::Double => Some(0x8000_0000_0000_0000 + b),
            },
            None => None,
        }
    } else if s[0] == '+' {
        parse_unsigned_pattern(text::from_index(s, 1), f)
    } else {
        parse_unsigned_pattern(s, f)
    }
}

} // verus!
