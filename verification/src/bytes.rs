//! Integers as bytes, and texts held as bytes.
use vstd::arithmetic::power::*;
use vstd::prelude::*;
use vstd::slice::slice_subrange;

verus! {

/// What `String::from_utf8_lossy` makes of some bytes.
pub uninterp spec fn utf8_lossy(b: Seq<u8>) -> Seq<char>;

/// What `String::from_utf16_lossy` makes of some code units.
pub uninterp spec fn utf16_lossy(u: Seq<u16>) -> Seq<char>;

/// Calls `String::from_utf8_lossy`. The contract names the result and adds
/// that valid UTF-8 is decoded as it stands.
#[verifier::external_body]
fn decode_utf8_lossy(b: &[u8]) -> (r: String)
    ensures
        r@ == utf8_lossy(b@),
        vstd::utf8::valid_utf8(b@) ==> r@ == vstd::utf8::decode_utf8(b@),
{
    String::from_utf8_lossy(b).into_owned()
}

/// Calls `String::from_utf16_lossy`. The contract names the result and adds
/// that units outside the surrogate range become the characters they number.
#[verifier::external_body]
fn decode_utf16_lossy(u: &[u16]) -> (r: String)
    ensures
        r@ == utf16_lossy(u@),
        no_surrogates(u@) ==> r@ == Seq::new(u@.len(), |i: int| u@[i] as char),
{
    String::from_utf16_lossy(u)
}

/// No code unit is a surrogate.
pub open spec fn no_surrogates(u: Seq<u16>) -> bool {
    forall|i: int| 0 <= i < u.len() ==> !(0xD800 <= #[trigger] u[i] <= 0xDFFF)
}

/// The text of some bytes: what they encode where they are valid UTF-8.
pub open spec fn utf8_text(b: Seq<u8>) -> Seq<char> {
    if vstd::utf8::valid_utf8(b) {
        vstd::utf8::decode_utf8(b)
    } else {
        utf8_lossy(b)
    }
}

/// The text of some code units: one character each where none is a surrogate.
pub open spec fn utf16_text(u: Seq<u16>) -> Seq<char> {
    if no_surrogates(u) {
        Seq::new(u.len(), |i: int| u[i] as char)
    } else {
        utf16_lossy(u)
    }
}

/// Reads bytes as a text.
pub fn utf8_string(b: &[u8]) -> (r: String)
    ensures
        r@ == utf8_text(b@),
{
    decode_utf8_lossy(b)
}

/// Reads code units as a text.
pub fn utf16_string(u: &[u16]) -> (r: String)
    ensures
        r@ == utf16_text(u@),
{
    decode_utf16_lossy(u)
}

/// The lowest `k` bytes of a number, least significant byte first. A negative
/// number counts in two's complement.
pub open spec fn le(n: int, k: nat) -> Seq<u8>
    decreases k,
{
    if k == 0 {
        Seq::empty()
    } else {
        seq![(n % 256) as u8] + le(n / 256, (k - 1) as nat)
    }
}

/// The number that bytes spell, least significant byte first.
pub open spec fn le_value(b: Seq<u8>) -> int
    decreases b.len(),
{
    if b.len() == 0 {
        0
    } else {
        b[0] + 256 * le_value(b.skip(1))
    }
}

/// The number that bytes spell, most significant byte first.
pub open spec fn be_value(b: Seq<u8>) -> int
    decreases b.len(),
{
    if b.len() == 0 {
        0
    } else {
        256 * be_value(b.drop_last()) + b.last()
    }
}

/// `le` gives as many bytes as it is asked for.
pub proof fn lemma_le_len(n: int, k: nat)
    ensures
        le(n, k).len() == k,
    decreases k,
{
    if k > 0 {
        lemma_le_len(n / 256, (k - 1) as nat);
    }
}

/// Reading back the lowest `k` bytes of a number gives its remainder by two
/// to the `8 * k`.
pub proof fn lemma_le_roundtrip(n: int, k: nat)
    ensures
        le_value(le(n, k)) == n % pow(256, k),
    decreases k,
{
    reveal(pow);
    if k == 0 {
    } else {
        lemma_le_roundtrip(n / 256, (k - 1) as nat);
        assert(le(n, k).skip(1) =~= le(n / 256, (k - 1) as nat));
        let p = pow(256, (k - 1) as nat);
        lemma_pow_positive(256, (k - 1) as nat);
        let q = n / 256;
        let r = n % 256;
        let x = q / p;
        let y = q % p;
        vstd::arithmetic::div_mod::lemma_fundamental_div_mod(q, p);
        assert(n == (256 * p) * x + (256 * y + r)) by (nonlinear_arith)
            requires
                n == 256 * q + r,
                q == p * x + y,
        ;
        assert(0 <= 256 * y + r < 256 * p);
        vstd::arithmetic::div_mod::lemma_fundamental_div_mod_converse(n, 256 * p, x, 256 * y + r);
    }
}

/// Numbers in the range of `k` bytes with the same bytes are the same.
pub proof fn lemma_le_injective(a: int, b: int, k: nat)
    requires
        le(a, k) == le(b, k),
    ensures
        a % pow(256, k) == b % pow(256, k),
{
    lemma_le_roundtrip(a, k);
    lemma_le_roundtrip(b, k);
}

/// The value of bytes lies below the weight of the byte after the last.
pub proof fn lemma_le_value_bound(b: Seq<u8>)
    ensures
        0 <= le_value(b) < pow(256, b.len()),
    decreases b.len(),
{
    reveal(pow);
    if b.len() > 0 {
        lemma_le_value_bound(b.skip(1));
    }
}

/// Appends the lowest `k` bytes of `n`.
pub fn push_le(out: &mut Vec<u8>, n: u64, k: usize)
    ensures
        final(out)@ == old(out)@ + le(n as int, k as nat),
{
    let ghost before = out@;
    let mut i: usize = 0;
    let mut x: u64 = n;
    proof {
        assert(out@ + le(x as int, (k - i) as nat) =~= before + le(n as int, k as nat));
    }
    while i < k
        invariant
            i <= k,
            out@ + le(x as int, (k - i) as nat) == before + le(n as int, k as nat),
        decreases k - i,
    {
        let ghost held = out@;
        out.push((x % 256) as u8);
        proof {
            assert(held + le(x as int, (k - i) as nat) =~= held.push((x % 256) as u8) + le(
                (x / 256) as int,
                (k - i - 1) as nat,
            ));
        }
        x = x / 256;
        i = i + 1;
    }
    proof {
        assert(out@ + le(x as int, 0) =~= out@);
    }
}

/// A number as a 64-bit integer in two's complement.
pub open spec fn wrapped(n: int) -> int {
    let m = n % 0x1_0000_0000_0000_0000;
    if m < 0x8000_0000_0000_0000 {
        m
    } else {
        m - 0x1_0000_0000_0000_0000
    }
}

/// Reads a 64-bit pattern in two's complement.
pub fn wrap_u64(n: u64) -> (r: i64)
    ensures
        r == wrapped(n as int),
{
    wrap(n as i128)
}

/// Computes `wrapped`.
pub fn wrap(n: i128) -> (r: i64)
    requires
        -0x1_0000_0000_0000_0000 <= n < 0x1_0000_0000_0000_0000,
    ensures
        r == wrapped(n as int),
{
    if n >= 0x8000_0000_0000_0000 {
        (n - 0x1_0000_0000_0000_0000) as i64
    } else if n < -0x8000_0000_0000_0000 {
        (n + 0x1_0000_0000_0000_0000) as i64
    } else {
        n as i64
    }
}

/// The unsigned 64-bit number with the same two's complement bytes as `n`.
pub fn as_unsigned(n: i64) -> (r: u64)
    ensures
        r == (n as int) % 0x1_0000_0000_0000_0000,
{
    if n >= 0 {
        n as u64
    } else {
        (n as i128 + 0x1_0000_0000_0000_0000) as u64
    }
}

/// A number and its remainder by two to the 64 have the same lowest bytes.
pub proof fn lemma_le_of_remainder(n: int, k: nat)
    requires
        k <= 8,
    ensures
        le(n % 0x1_0000_0000_0000_0000, k) == le(n, k),
{
    lemma_le_shift(n, k, n / 0x1_0000_0000_0000_0000);
    lemma_256_to_8();
    assert(n % 0x1_0000_0000_0000_0000 == n - n / 0x1_0000_0000_0000_0000
        * 0x1_0000_0000_0000_0000);
}

/// Two hundred and fifty-six to the small powers.
pub proof fn lemma_256_to_8()
    ensures
        pow(256, 0) == 1,
        pow(256, 1) == 256,
        pow(256, 2) == 0x1_0000,
        pow(256, 4) == 0x1_0000_0000,
        pow(256, 8) == 0x1_0000_0000_0000_0000,
{
    reveal(pow);
    assert(pow(256, 4) == 0x1_0000_0000) by {
        reveal_with_fuel(pow, 5);
    }
    assert(pow(256, 2) == 0x1_0000) by {
        reveal_with_fuel(pow, 3);
    }
    assert(pow(256, 1) == 256) by {
        reveal_with_fuel(pow, 2);
    }
    lemma_pow_adds(256, 4, 4);
    assert(0x1_0000_0000 * 0x1_0000_0000 == 0x1_0000_0000_0000_0000);
}

proof fn lemma_le_shift(n: int, k: nat, q: int)
    requires
        k <= 8,
    ensures
        le(n - q * 0x1_0000_0000_0000_0000, k) == le(n, k),
{
    lemma_256_to_8();
    lemma_pow_adds(256, k, (8 - k) as nat);
    let m = pow(256, (8 - k) as nat);
    assert(q * (pow(256, k) * m) == (q * m) * pow(256, k)) by (nonlinear_arith);
    lemma_le_sub(n, k, q * m);
}

proof fn lemma_le_sub(n: int, k: nat, q: int)
    ensures
        le(n - q * pow(256, k), k) == le(n, k),
    decreases k,
{
    reveal(pow);
    if k > 0 {
        let p = pow(256, (k - 1) as nat);
        lemma_le_sub(n / 256, (k - 1) as nat, q);
        let t = q * p;
        assert(q * (256 * p) == 256 * t) by (nonlinear_arith)
            requires
                t == q * p,
        ;
        assert((n - 256 * t) % 256 == n % 256);
        assert((n - 256 * t) / 256 == n / 256 - t);
    }
}

/// Reads `k` bytes from `off` on as a number, or nothing where they do not lie
/// within the buffer.
pub open spec fn le_at(b: Seq<u8>, off: int, k: int) -> Option<int> {
    if 0 <= off && off + k <= b.len() {
        Some(le_value(b.subrange(off, off + k)))
    } else {
        None
    }
}

/// Appends bytes to a vector.
pub fn push_bytes(out: &mut Vec<u8>, s: &[u8])
    ensures
        final(out)@ == old(out)@ + s@,
{
    let ghost before = out@;
    for i in 0..s.len()
        invariant
            out@ == before + s@.take(i as int),
    {
        out.push(s[i]);
    }
}

/// Reads at most eight bytes as a number.
pub fn read_le(b: &[u8]) -> (r: u64)
    requires
        b@.len() <= 8,
    ensures
        r == le_value(b@),
{
    let mut i: usize = b.len();
    let mut v: u64 = 0;
    proof {
        assert(b@.skip(i as int) =~= Seq::empty());
    }
    while i > 0
        invariant
            i <= b@.len(),
            b@.len() <= 8,
            v == le_value(b@.skip(i as int)),
        decreases i,
    {
        proof {
            assert(b@.skip(i - 1).skip(1) =~= b@.skip(i as int));
            lemma_le_value_bound(b@.skip(i - 1));
            lemma_256_to_8();
            lemma_pow_increases(256, b@.skip(i - 1).len(), 8);
        }
        i = i - 1;
        v = b[i] as u64 + 256 * v;
    }
    proof {
        assert(b@.skip(0) =~= b@);
    }
    v
}

/// Reads `k` bytes of a buffer from `off` on.
pub fn read_le_at(b: &[u8], off: u64, k: usize) -> (r: Option<u64>)
    requires
        k <= 8,
    ensures
        match r {
            Some(v) => le_at(b@, off as int, k as int) == Some(v as int),
            None => le_at(b@, off as int, k as int) is None,
        },
{
    let n: usize = b.len();
    if off > n as u64 {
        return None;
    }
    let o: usize = off as usize;
    if n - o < k {
        return None;
    }
    Some(read_le(slice_subrange(b, o, o + k)))
}

} // verus!
