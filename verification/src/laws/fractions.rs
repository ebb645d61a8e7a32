//! Numbers with a fraction: the bits that a decimal stands for.
use crate::bignum;
use crate::ieee;
use crate::ieee::Format;
use crate::laws::plain;
use crate::text;
use crate::text::Class;
use vstd::arithmetic::power::{lemma_pow_positive, pow};
use vstd::prelude::*;

verus! {

/// The decimal digits `n` with the point moved by `e` places, times the power of two
/// `unit`, equal `value`.
pub open spec fn equals(n: int, e: int, unit: nat, value: int) -> bool {
    if e >= 0 {
        n * pow(10, e as nat) * pow(2, unit) == value
    } else {
        n * pow(2, unit) == value * pow(10, (-e) as nat)
    }
}

/// The value of the 32 bits `b`, in units of two to the minus 149: 23 bits of fraction,
/// with a one before them unless the exponent above them is zero.
pub open spec fn single(b: int) -> int {
    if b < 0x80_0000 {
        b
    } else {
        (0x80_0000 + b % 0x80_0000) * pow(2, (b / 0x80_0000 - 1) as nat)
    }
}

/// The value of the 64 bits `b`, in units of two to the minus 1074: 52 bits of fraction,
/// with a one before them unless the exponent above them is zero.
pub open spec fn double(b: int) -> int {
    if b < 0x10_0000_0000_0000 {
        b
    } else {
        (0x10_0000_0000_0000 + b % 0x10_0000_0000_0000) * pow(
            2,
            (b / 0x10_0000_0000_0000 - 1) as nat,
        )
    }
}

proof fn lemma_magnitudes(b: int)
    requires
        0 <= b,
    ensures
        ieee::magnitude(b, Format::Single) == single(b),
        ieee::magnitude(b, Format::Double) == double(b),
{
    assert(pow(2, 0) == 1) by {
        reveal(pow);
    }
    assert(b < 0x80_0000 ==> b / 0x80_0000 == 0 && b % 0x80_0000 == b);
    assert(b < 0x10_0000_0000_0000 ==> b / 0x10_0000_0000_0000 == 0 && b % 0x10_0000_0000_0000 == b);
    assert(ieee::significand(b, Format::Single) * 1 == ieee::significand(b, Format::Single));
}

/// Values grow with their bits.
proof fn lemma_next(b: int, f: Format)
    requires
        0 <= b,
    ensures
        ieee::magnitude(b, f) < ieee::magnitude(b + 1, f),
{
    ieee::lemma_successor(b, f);
    let p = pow(2, ieee::scale(b, f) as nat);
    lemma_pow_positive(2, ieee::scale(b, f) as nat);
    let s = ieee::significand(b, f);
    assert((s + 1) * p == s * p + p) by (nonlinear_arith);
}

/// A decimal whose value is that of some bits exactly is read as these.
proof fn lemma_exact_pattern(n: int, e: int, f: Format, b: int)
    requires
        0 <= n,
        0 <= b < ieee::infinity(f),
        equals(n, e, ieee::unit_exponent(f), ieee::magnitude(b, f)),
    ensures
        ieee::nearest(n, e, f) == b,
{
    let u = ieee::unit_exponent(f);
    let m = ieee::magnitude(b, f);
    let c = ieee::clearing(e);
    lemma_pow_positive(10, (if e < 0 {
        -e
    } else {
        0
    }) as nat);
    assert(c > 0);
    assert(pow(2, u + 1) == 2 * pow(2, u)) by {
        reveal(pow);
    }
    let t = pow(10, (if e > 0 {
        e
    } else {
        0
    }) as nat);
    assert(pow(10, 0) == 1) by {
        reveal(pow);
    }
    let q = pow(2, u);
    assert(n * t * q == m * c) by {
        if e >= 0 {
            assert(m * 1 == m);
        } else {
            assert(n * 1 == n);
        }
    }
    assert(n * t * (2 * q) == 2 * (n * t * q)) by (nonlinear_arith);
    assert(ieee::target(n, e, f) == 2 * (m * c));
    lemma_next(b, f);
    let up = ieee::magnitude(b + 1, f);
    assert((m + up) * c > 2 * (m * c)) by (nonlinear_arith)
        requires
            up > m,
            c > 0,
    ;
    assert(ieee::rounds_down(n, e, f, b));
    if b > 0 {
        lemma_next(b - 1, f);
        let down = ieee::magnitude(b - 1, f);
        assert((down + m) * c < 2 * (m * c)) by (nonlinear_arith)
            requires
                down < m,
                c > 0,
        ;
        assert(!ieee::rounds_down(n, e, f, b - 1));
    }
    assert(ieee::is_nearest(n, e, f, b));
    let r = ieee::nearest(n, e, f);
    assert(ieee::is_nearest(n, e, f, r));
    ieee::lemma_nearest_unique(n, e, f, r, b);
}

/// A decimal that 32 bits can hold exactly is read as these bits.
pub proof fn lemma_exact_single(n: int, e: int, b: int)
    requires
        0 <= n,
        0 <= b < 0x7F80_0000,
        equals(n, e, 149, single(b)),
    ensures
        ieee::nearest(n, e, Format::Single) == b,
{
    lemma_magnitudes(b);
    lemma_exact_pattern(n, e, Format::Single, b);
}

/// A decimal that 64 bits can hold exactly is read as these bits.
pub proof fn lemma_exact_double(n: int, e: int, b: int)
    requires
        0 <= n,
        0 <= b < 0x7FF0_0000_0000_0000,
        equals(n, e, 1074, double(b)),
    ensures
        ieee::nearest(n, e, Format::Double) == b,
{
    lemma_magnitudes(b);
    lemma_exact_pattern(n, e, Format::Double, b);
}

/// Halfway between two numbers of 32 bits the one with the even fraction is read: an odd
/// number of 25 bits goes to the multiple of four next to it.
pub proof fn lemma_tie_single(m: int)
    requires
        0x80_0000 <= m < 0xFF_FFFF,
    ensures
        ieee::nearest(2 * m + 1, 0, Format::Single) == 0x4B80_0000 + (m - 0x80_0000) + m % 2,
{
    let f = Format::Single;
    let n = 2 * m + 1;
    let b = 0x4B80_0000 + (m - 0x80_0000);
    assert(b / 0x80_0000 == 151 && b % 0x80_0000 == m - 0x80_0000);
    ieee::lemma_successor(b, f);
    ieee::lemma_successor(b + 1, f);
    ieee::lemma_successor(b - 1, f);
    assert(pow(10, 0) == 1) by {
        reveal(pow);
    }
    let p = pow(2, 150);
    lemma_pow_positive(2, 150);
    assert(ieee::unit_exponent(f) + 1 == 150);
    assert(n * 1 == n);
    assert(ieee::target(n, 0, f) == n * p);
    assert(ieee::clearing(0) == 1);
    assert(ieee::midpoint(b, f) == (2 * m + 1) * p);
    assert(ieee::midpoint(b, f) * 1 == n * p);
    assert(b % 2 == m % 2);
    lemma_next(b, f);
    lemma_next(b - 1, f);
    lemma_next(b + 1, f);
    assert(ieee::midpoint(b - 1, f) < ieee::midpoint(b, f) < ieee::midpoint(b + 1, f));
    assert(ieee::midpoint(b - 1, f) * 1 == ieee::midpoint(b - 1, f));
    assert(ieee::midpoint(b + 1, f) * 1 == ieee::midpoint(b + 1, f));
    let r = b + m % 2;
    assert(ieee::is_nearest(n, 0, f, r));
    let z = ieee::nearest(n, 0, f);
    assert(ieee::is_nearest(n, 0, f, z));
    ieee::lemma_nearest_unique(n, 0, f, z, r);
}

/// A minus sets the highest bit and changes nothing else; a plus changes nothing.
pub proof fn lemma_signs(s: Seq<char>)
    requires
        s.len() > 0,
        s[0] != '-',
        s[0] != '+',
    ensures
        ieee::pattern(seq!['-'] + s, Format::Single) == match ieee::pattern(s, Format::Single) {
            Some(b) => Some(0x8000_0000 + b),
            None => None,
        },
        ieee::pattern(seq!['-'] + s, Format::Double) == match ieee::pattern(s, Format::Double) {
            Some(b) => Some(0x8000_0000_0000_0000 + b),
            None => None,
        },
        ieee::pattern(seq!['+'] + s, Format::Single) == ieee::pattern(s, Format::Single),
        ieee::pattern(seq!['+'] + s, Format::Double) == ieee::pattern(s, Format::Double),
{
    assert((seq!['-'] + s).skip(1) =~= s);
    assert((seq!['+'] + s).skip(1) =~= s);
}

/// Digits with a point among them are the digits, the point moved by as many places as stand
/// behind it; an exponent moves it further.
pub proof fn lemma_decimal(a: Seq<char>, b: Seq<char>, x: Seq<char>, f: Format)
    requires
        plain::is_number(a, 10),
        plain::is_number(b, 10),
        plain::is_number(x, 10),
    ensures
        ieee::pattern(a, f) == Some(ieee::nearest(plain::value(a, 10), 0, f)),
        ieee::pattern(a + seq!['.'] + b, f) == Some(
            ieee::nearest(plain::value(a + b, 10), -b.len(), f),
        ),
        ieee::pattern(a + seq!['.'] + b + seq!['e'] + x, f) == Some(
            ieee::nearest(plain::value(a + b, 10), plain::value(x, 10) - b.len(), f),
        ),
        ieee::pattern(a + seq!['.'] + b + seq!['e', '-'] + x, f) == Some(
            ieee::nearest(plain::value(a + b, 10), -plain::value(x, 10) - b.len(), f),
        ),
{
    lemma_digits(a);
    lemma_digits(b);
    lemma_digits(x);
    let ab = a + b;
    assert forall|i: int| 0 <= i < ab.len() implies plain::worth(#[trigger] ab[i]) is Some
        && plain::worth(ab[i])->0 < 10 by {
        if i < a.len() {
            assert(ab[i] == a[i]);
        } else {
            assert(ab[i] == b[i - a.len()]);
        }
    }
    plain::lemma_number(a, 10);
    plain::lemma_number(ab, 10);
    plain::lemma_number(x, 10);
    assert(text::natural(ab, 10) is Some);
    assert(plain::worth(a[0]) is Some);
    lemma_no_letter(a);
    lemma_no_point(a);
    assert(a + Seq::<char>::empty() =~= a);
    let m = a + seq!['.'] + b;
    lemma_point(a, b);
    assert forall|i: int| 0 <= i < m.len() implies !text::in_class(
        #[trigger] m[i],
        Class::Either('e', 'E'),
    ) by {
        if i < a.len() {
            assert(m[i] == a[i]);
            assert(plain::worth(a[i]) is Some && plain::worth(a[i])->0 < 10);
        } else if i > a.len() {
            assert(m[i] == b[i - a.len() - 1]);
            assert(plain::worth(b[i - a.len() - 1]) is Some && plain::worth(b[i - a.len() - 1])->0
                < 10);
        }
    }
    text::lemma_first_in_is(m, Class::Either('e', 'E'), m.len() as int);
    assert(m[0] == a[0]);
    let s = m + seq!['e'] + x;
    lemma_exponent(m, x, s);
    assert(s[0] == a[0]);
    assert(plain::worth(x[0]) is Some);
    let t = m + seq!['e'] + (seq!['-'] + x);
    assert(t =~= m + seq!['e', '-'] + x);
    lemma_exponent(m, seq!['-'] + x, t);
    assert((seq!['-'] + x).skip(1) =~= x);
    assert(t[0] == a[0]);
}

proof fn lemma_digits(a: Seq<char>)
    requires
        plain::is_number(a, 10),
    ensures
        forall|i: int| 0 <= i < a.len() ==> '0' <= #[trigger] a[i] && a[i] <= '9',
{
    assert forall|i: int| 0 <= i < a.len() implies '0' <= #[trigger] a[i] && a[i] <= '9' by {
        assert(plain::worth(a[i]) is Some && plain::worth(a[i])->0 < 10);
    }
}

proof fn lemma_no_letter(a: Seq<char>)
    requires
        forall|i: int| 0 <= i < a.len() ==> '0' <= #[trigger] a[i] && a[i] <= '9',
    ensures
        text::cut(a, Class::Either('e', 'E')) is None,
{
    text::lemma_first_in_is(a, Class::Either('e', 'E'), a.len() as int);
}

proof fn lemma_no_point(a: Seq<char>)
    requires
        forall|i: int| 0 <= i < a.len() ==> '0' <= #[trigger] a[i] && a[i] <= '9',
    ensures
        text::cut(a, Class::Is('.')) is None,
{
    text::lemma_first_in_is(a, Class::Is('.'), a.len() as int);
}

proof fn lemma_point(a: Seq<char>, b: Seq<char>)
    requires
        forall|i: int| 0 <= i < a.len() ==> '0' <= #[trigger] a[i] && a[i] <= '9',
    ensures
        text::cut(a + seq!['.'] + b, Class::Is('.')) == Some((a, b)),
{
    let m = a + seq!['.'] + b;
    let n = a.len() as int;
    assert forall|i: int| 0 <= i < n implies !text::in_class(#[trigger] m[i], Class::Is('.')) by {
        assert(m[i] == a[i]);
    }
    assert(m[n] == '.');
    text::lemma_first_in_is(m, Class::Is('.'), n);
    assert(m.take(n) =~= a);
    assert(m.skip(n + 1) =~= b);
}

proof fn lemma_exponent(m: Seq<char>, x: Seq<char>, s: Seq<char>)
    requires
        forall|i: int|
            0 <= i < m.len() ==> !text::in_class(#[trigger] m[i], Class::Either('e', 'E')),
        s == m + seq!['e'] + x,
    ensures
        text::cut(s, Class::Either('e', 'E')) == Some((m, x)),
{
    let n = m.len() as int;
    assert forall|i: int| 0 <= i < n implies !text::in_class(
        #[trigger] s[i],
        Class::Either('e', 'E'),
    ) by {
        assert(s[i] == m[i]);
    }
    assert(s[n] == 'e');
    text::lemma_first_in_is(s, Class::Either('e', 'E'), n);
    assert(s.take(n) =~= m);
    assert(s.skip(n + 1) =~= x);
}

/// A large number is its limbs of 32 bits, the lowest first.
pub proof fn lemma_limbs(a: u32, b: u32)
    ensures
        bignum::big(seq![a]) == a,
        bignum::big(seq![a, b]) == a + 0x1_0000_0000 * b,
        bignum::big(Seq::empty()) == 0,
{
    reveal_with_fuel(bignum::big, 4);
    assert(pow(0x1_0000_0000, 0) == 1 && pow(0x1_0000_0000, 1) == 0x1_0000_0000) by {
        reveal(pow);
    }
    assert(seq![a].drop_last() =~= Seq::<u32>::empty());
    assert(seq![a, b].drop_last() =~= seq![a]);
    assert(b * 0x1_0000_0000 == 0x1_0000_0000 * b);
    assert(a * 1 == a);
}

} // verus!
