//! Numbers in bytes, written out.
use crate::bytes;
use crate::text;
use vstd::prelude::*;

verus! {

/// The number in two bytes, the lowest first.
pub open spec fn two(b: Seq<u8>, i: int) -> int {
    b[i] + 0x100 * b[i + 1]
}

/// The number in four bytes, the lowest first.
pub open spec fn four(b: Seq<u8>, i: int) -> int {
    b[i] + 0x100 * b[i + 1] + 0x1_0000 * b[i + 2] + 0x100_0000 * b[i + 3]
}

/// The number in eight bytes, the lowest first.
pub open spec fn eight(b: Seq<u8>, i: int) -> int {
    four(b, i) + 0x1_0000_0000 * four(b, i + 4)
}

/// A number of 32 bits with its sign.
pub open spec fn signed(n: int) -> int {
    if n < 0x8000_0000 {
        n
    } else {
        n - 0x1_0000_0000
    }
}

/// The four lowest bytes of a number hold it modulo 2^32.
pub proof fn lemma_le4(n: int)
    ensures
        bytes::le(n, 4).len() == 4,
        four(bytes::le(n, 4), 0) == n % 0x1_0000_0000,
{
    reveal_with_fuel(bytes::le, 6);
}

/// The lowest byte of a number holds it modulo 256.
pub proof fn lemma_le1(n: int)
    ensures
        bytes::le(n, 1).len() == 1,
        bytes::le(n, 1)[0] == n % 0x100,
{
    reveal_with_fuel(bytes::le, 3);
}

/// The eight lowest bytes of a number hold it modulo 2^64.
pub proof fn lemma_le8(n: int)
    ensures
        bytes::le(n, 8).len() == 8,
        eight(bytes::le(n, 8), 0) == n % 0x1_0000_0000_0000_0000,
{
    reveal_with_fuel(bytes::le, 10);
}

/// The lowest bytes of a number, one, four or eight of them.
pub open spec fn low_bytes(n: int, k: int) -> Seq<u8> {
    if k == 1 {
        seq![(n % 0x100) as u8]
    } else if k == 4 {
        seq![
            (n % 0x100) as u8,
            ((n / 0x100) % 0x100) as u8,
            ((n / 0x1_0000) % 0x100) as u8,
            ((n / 0x100_0000) % 0x100) as u8,
        ]
    } else if k == 8 {
        low_bytes_of_four(n) + low_bytes_of_four(n / 0x1_0000_0000)
    } else {
        Seq::empty()
    }
}

/// The four lowest bytes of a number.
pub open spec fn low_bytes_of_four(n: int) -> Seq<u8> {
    seq![
        (n % 0x100) as u8,
        ((n / 0x100) % 0x100) as u8,
        ((n / 0x1_0000) % 0x100) as u8,
        ((n / 0x100_0000) % 0x100) as u8,
    ]
}

/// `le` writes the lowest bytes.
pub proof fn lemma_low_bytes(n: int, k: nat)
    requires
        k == 0 || k == 1 || k == 4 || k == 8,
    ensures
        bytes::le(n, k) == low_bytes(n, k as int),
{
    reveal_with_fuel(bytes::le, 10);
    assert(n / 0x100 / 0x100 == n / 0x1_0000);
    assert(n / 0x1_0000 / 0x100 == n / 0x100_0000);
    assert(n / 0x100_0000 / 0x100 == n / 0x1_0000_0000);
    let m = n / 0x1_0000_0000;
    assert(m / 0x100 / 0x100 == m / 0x1_0000);
    assert(m / 0x1_0000 / 0x100 == m / 0x100_0000);
    assert(bytes::le(n, k) =~= low_bytes(n, k as int));
}

/// The digit of a number below ten.
pub open spec fn digit(n: int) -> char {
    (48 + n) as char
}

/// A number below a hundred in decimal.
pub open spec fn small(n: int) -> Seq<char> {
    if n < 10 {
        seq![digit(n)]
    } else {
        seq![digit(n / 10), digit(n % 10)]
    }
}

/// The value of a digit, 0 to 9 and A to F in either case.
pub open spec fn worth(c: char) -> Option<int> {
    let n = c as int;
    if 48 <= n <= 57 {
        Some(n - 48)
    } else if 65 <= n <= 70 {
        Some(n - 55)
    } else if 97 <= n <= 102 {
        Some(n - 87)
    } else {
        None
    }
}

/// Whether a text is a number of a radix up to sixteen.
pub open spec fn is_number(s: Seq<char>, radix: int) -> bool {
    s.len() > 0 && forall|i: int|
        0 <= i < s.len() ==> worth(#[trigger] s[i]) is Some && worth(s[i])->0 < radix
}

/// The value of a number, each digit worth a radix more than the next.
pub open spec fn value(s: Seq<char>, radix: int) -> int
    decreases s.len(),
{
    if s.len() == 0 {
        0
    } else {
        value(s.drop_last(), radix) * radix + worth(s.last())->0
    }
}

/// A text is read as a number exactly if all of it is digits, and its value is theirs.
pub proof fn lemma_number(s: Seq<char>, radix: int)
    requires
        radix == 10 || radix == 16,
    ensures
        text::natural(s, radix) == if is_number(s, radix) {
            Some(value(s, radix))
        } else {
            None
        },
{
    assert(forall|c: char| #[trigger]
        text::digit_of(c) < radix <==> worth(c) is Some && worth(c)->0 < radix);
    if is_number(s, radix) {
        lemma_value(s, radix);
        assert(text::all_digits(s, radix));
    } else if s.len() > 0 {
        let i = choose|i: int|
            0 <= i < s.len() && !(worth(#[trigger] s[i]) is Some && worth(s[i])->0 < radix);
        assert(text::digit_of(s[i]) >= radix);
    }
}

proof fn lemma_value(s: Seq<char>, radix: int)
    requires
        radix == 10 || radix == 16,
        forall|i: int|
            0 <= i < s.len() ==> worth(#[trigger] s[i]) is Some && worth(s[i])->0 < radix,
    ensures
        text::number(s, radix) == value(s, radix),
    decreases s.len(),
{
    if s.len() > 0 {
        assert forall|i: int| 0 <= i < s.drop_last().len() implies worth(
            #[trigger] s.drop_last()[i],
        ) is Some && worth(s.drop_last()[i])->0 < radix by {
            assert(s.drop_last()[i] == s[i]);
        }
        lemma_value(s.drop_last(), radix);
        assert(worth(s[s.len() - 1]) is Some);
    }
}

/// The number in two bytes at an offset, zero past the end.
pub open spec fn two_at(b: Seq<u8>, i: int) -> int {
    if 0 <= i && i + 2 <= b.len() {
        two(b, i)
    } else {
        0
    }
}

/// The number in four bytes at an offset, zero past the end.
pub open spec fn four_at(b: Seq<u8>, i: int) -> int {
    if 0 <= i && i + 4 <= b.len() {
        four(b, i)
    } else {
        0
    }
}

/// The number in eight bytes at an offset, zero past the end.
pub open spec fn eight_at(b: Seq<u8>, i: int) -> int {
    if 0 <= i && i + 8 <= b.len() {
        eight(b, i)
    } else {
        0
    }
}

/// The value of bytes, the lowest first.
pub proof fn lemma_le_value(b: Seq<u8>)
    ensures
        b.len() == 1 ==> bytes::le_value(b) == b[0],
        b.len() == 2 ==> bytes::le_value(b) == two(b, 0),
        b.len() == 4 ==> bytes::le_value(b) == four(b, 0),
        b.len() == 8 ==> bytes::le_value(b) == eight(b, 0),
{
    reveal_with_fuel(bytes::le_value, 10);
    assert(forall|i: int, s: Seq<u8>| 0 <= i < s.len() - 1 ==> #[trigger] s.skip(1)[i] == s[i + 1]);
}

/// The values of bytes at an offset.
pub proof fn lemma_le_at(b: Seq<u8>, off: int)
    ensures
        (match bytes::le_at(b, off, 2) {
            Some(v) => v,
            None => 0,
        }) == two_at(b, off),
        (match bytes::le_at(b, off, 4) {
            Some(v) => v,
            None => 0,
        }) == four_at(b, off),
        (match bytes::le_at(b, off, 8) {
            Some(v) => v,
            None => 0,
        }) == eight_at(b, off),
        bytes::le_at(b, off, 2) is Some <==> 0 <= off && off + 2 <= b.len(),
        bytes::le_at(b, off, 4) is Some <==> 0 <= off && off + 4 <= b.len(),
        bytes::le_at(b, off, 8) is Some <==> 0 <= off && off + 8 <= b.len(),
{
    if 0 <= off && off + 2 <= b.len() {
        lemma_le_value(b.subrange(off, off + 2));
    }
    if 0 <= off && off + 4 <= b.len() {
        lemma_le_value(b.subrange(off, off + 4));
    }
    if 0 <= off && off + 8 <= b.len() {
        let s = b.subrange(off, off + 8);
        lemma_le_value(s);
        assert(four(s, 0) == four(b, off));
        assert(four(s, 4) == four(b, off + 4));
    }
}

/// A number in 64 bits with a sign differs from it by a multiple of two to the 64.
pub proof fn lemma_wrapped(n: int)
    ensures
        -0x8000_0000_0000_0000 <= bytes::wrapped(n) < 0x8000_0000_0000_0000,
        (n - bytes::wrapped(n)) % 0x1_0000_0000_0000_0000 == 0,
        -0x8000_0000_0000_0000 <= n < 0x8000_0000_0000_0000 ==> bytes::wrapped(n) == n,
{
}

} // verus!
