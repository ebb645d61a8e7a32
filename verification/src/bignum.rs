//! Natural numbers of any size as little-endian limbs of 32 bits: what exact
//! comparison of decimal and binary fractions needs.
use vstd::arithmetic::power::*;
use vstd::prelude::*;

verus! {

/// The weight of the limb above.
pub const LIMB: u64 = 0x1_0000_0000;

/// The number that limbs stand for, least significant limb first.
pub open spec fn big(v: Seq<u32>) -> int
    decreases v.len(),
{
    if v.len() == 0 {
        0
    } else {
        big(v.drop_last()) + v.last() * pow(0x1_0000_0000, (v.len() - 1) as nat)
    }
}

/// A number is not negative and below the weight of the limb after its last.
proof fn lemma_big_bound(v: Seq<u32>)
    ensures
        0 <= big(v) < pow(0x1_0000_0000, v.len()),
    decreases v.len(),
{
    reveal(pow);
    if v.len() > 0 {
        lemma_big_bound(v.drop_last());
        let w = pow(0x1_0000_0000, (v.len() - 1) as nat);
        let x = v.last() as int;
        let b = big(v.drop_last());
        lemma_pow_positive(0x1_0000_0000, (v.len() - 1) as nat);
        assert(pow(0x1_0000_0000, v.len()) == 0x1_0000_0000 * w);
        assert(0 <= b + x * w < 0x1_0000_0000 * w) by (nonlinear_arith)
            requires
                0 <= b < w,
                0 <= x <= 0xFFFF_FFFF,
        ;
    }
}

/// Pushing a limb adds it at the next weight.
proof fn lemma_big_push(v: Seq<u32>, x: u32)
    ensures
        big(v.push(x)) == big(v) + x * pow(0x1_0000_0000, v.len()),
{
    assert(v.push(x).drop_last() =~= v);
}

/// The limbs of a number.
pub fn big_from(n: u64) -> (r: Vec<u32>)
    ensures
        big(r@) == n,
{
    let mut r: Vec<u32> = Vec::new();
    r.push((n % LIMB) as u32);
    r.push((n / LIMB) as u32);
    proof {
        reveal(pow);
        let lo = (n % LIMB) as u32;
        let hi = (n / LIMB) as u32;
        lemma_big_push(Seq::empty(), lo);
        lemma_big_push(Seq::empty().push(lo), hi);
        lemma_pow0(0x1_0000_0000);
        lemma_pow1(0x1_0000_0000);
        assert(r@ =~= Seq::empty().push(lo).push(hi));
    }
    r
}

/// Multiplies a number by `m` and adds `a`.
pub fn mul_add(v: &mut Vec<u32>, m: u32, a: u32)
    ensures
        big(final(v)@) == big(old(v)@) * m + a,
{
    let n: usize = v.len();
    let mut carry: u64 = a as u64;
    let ghost before = v@;
    let mut i: usize = 0;
    proof {
        lemma_pow0(0x1_0000_0000);
        assert(v@.take(0) =~= Seq::empty());
        assert(big(v@.take(0)) == 0);
        assert(0 * (m as int) == 0);
    }
    while i < n
        invariant
            i <= n,
            n == v@.len(),
            n == before.len(),
            carry < LIMB,
            forall|j: int| i <= j < n ==> v@[j] == before[j],
            big(v@.take(i as int)) + carry * pow(0x1_0000_0000, i as nat) == big(
                before.take(i as int),
            ) * m + a,
        decreases n - i,
    {
        let x: u32 = v[i];
        proof {
            assert((x as int) * (m as int) <= 0xFFFF_FFFF * 0xFFFF_FFFF) by (nonlinear_arith)
                requires
                    0 <= x <= 0xFFFF_FFFF,
                    0 <= m <= 0xFFFF_FFFF,
            ;
            assert((x as int) * (m as int) >= 0) by (nonlinear_arith)
                requires
                    0 <= x,
                    0 <= m,
            ;
        }
        let t: u64 = (x as u64) * (m as u64) + carry;
        let lo: u32 = (t % LIMB) as u32;
        let hi: u64 = t / LIMB;
        let ghost mid = v@;
        v.set(i, lo);
        proof {
            let w = pow(0x1_0000_0000, i as nat);
            assert(pow(0x1_0000_0000, (i + 1) as nat) == 0x1_0000_0000 * w) by {
                reveal(pow);
            }
            assert(v@.take(i + 1) =~= mid.take(i as int).push(lo));
            lemma_big_push(mid.take(i as int), lo);
            assert(before.take(i + 1) =~= before.take(i as int).push(x));
            lemma_big_push(before.take(i as int), x);
            let p = big(mid.take(i as int));
            let q = big(before.take(i as int));
            let c = carry as int;
            let xm = (x as int) * (m as int);
            assert(t == lo + hi * 0x1_0000_0000);
            assert(p + lo * w + hi * (0x1_0000_0000 * w) == (q + x * w) * m + a)
                by (nonlinear_arith)
                requires
                    p + c * w == q * m + a,
                    xm == x * m,
                    xm + c == lo + hi * 0x1_0000_0000,
            ;
        }
        carry = hi;
        i = i + 1;
    }
    proof {
        assert(v@.take(n as int) =~= v@);
        assert(before.take(n as int) =~= before);
        lemma_big_push(v@, carry as u32);
        assert(0 * pow(0x1_0000_0000, n as nat) == 0);
    }
    if carry > 0 {
        v.push(carry as u32);
    }
}

/// The highest power of a factor above 1 that fits in a limb: its exponent and
/// itself.
fn limb_power(m: u32) -> (r: (u128, u32))
    requires
        m > 1,
    ensures
        r.0 > 0,
        r.1 == pow(m as int, r.0 as nat),
{
    let mut k: u128 = 1;
    let mut p: u32 = m;
    proof {
        lemma_pow1(m as int);
        lemma_limb_product(p, m);
    }
    while (p as u64) * (m as u64) < LIMB
        invariant
            m > 1,
            0 < k <= p,
            p == pow(m as int, k as nat),
            (p as int) * (m as int) <= u64::MAX,
        decreases LIMB - p,
    {
        proof {
            assert((p as int) * (m as int) >= 2 * p) by (nonlinear_arith)
                requires
                    m > 1,
                    p > 0,
            ;
            assert(pow(m as int, (k + 1) as nat) == m * pow(m as int, k as nat)) by {
                reveal(pow);
            }
            assert((p as int) * (m as int) == (m as int) * (p as int)) by (nonlinear_arith);
        }
        p = p * m;
        k = k + 1;
        proof {
            lemma_limb_product(p, m);
        }
    }
    (k, p)
}

proof fn lemma_limb_product(p: u32, m: u32)
    ensures
        0 <= (p as int) * (m as int) <= u64::MAX,
{
    assert(0 <= (p as int) * (m as int) <= 0xFFFF_FFFF * 0xFFFF_FFFF) by (nonlinear_arith)
        requires
            0 <= p <= 0xFFFF_FFFF,
            0 <= m <= 0xFFFF_FFFF,
    ;
}

/// Multiplies a number `times` times by a factor above 1.
pub fn mul_power(v: &mut Vec<u32>, m: u32, times: u128)
    requires
        m > 1,
    ensures
        big(final(v)@) == big(old(v)@) * pow(m as int, times as nat),
{
    let ghost before = big(v@);
    let (k, p): (u128, u32) = limb_power(m);
    let mut left: u128 = times;
    proof {
        lemma_pow0(m as int);
        assert(before * 1 == before);
    }
    while left > 0
        invariant
            left <= times,
            k > 0,
            p == pow(m as int, k as nat),
            big(v@) == before * pow(m as int, (times - left) as nat),
        decreases left,
    {
        let ghost done = (times - left) as nat;
        let ghost now = pow(m as int, done);
        if left >= k {
            mul_add(v, p, 0);
            proof {
                lemma_pow_adds(m as int, done, k as nat);
                assert((before * now) * p == before * (now * p)) by (nonlinear_arith);
            }
            left = left - k;
            assert((times - left) as nat == done + k as nat);
        } else {
            mul_add(v, m, 0);
            proof {
                lemma_pow_adds(m as int, done, 1);
                lemma_pow1(m as int);
                assert((before * now) * m == before * (now * m)) by (nonlinear_arith);
            }
            left = left - 1;
            assert((times - left) as nat == done + 1);
        }
    }
}

/// Limbs that agree from `i` on contribute the same.
proof fn lemma_same_tail(a: Seq<u32>, b: Seq<u32>, i: int)
    requires
        a.len() == b.len(),
        0 <= i <= a.len(),
        forall|j: int| i <= j < a.len() ==> a[j] == b[j],
    ensures
        big(a) - big(a.take(i)) == big(b) - big(b.take(i)),
    decreases a.len() - i,
{
    if i == a.len() {
        assert(a.take(i) =~= a);
        assert(b.take(i) =~= b);
    } else {
        lemma_same_tail(a, b, i + 1);
        assert(a.take(i + 1) =~= a.take(i).push(a[i]));
        assert(b.take(i + 1) =~= b.take(i).push(b[i]));
        lemma_big_push(a.take(i), a[i]);
        lemma_big_push(b.take(i), b[i]);
    }
}

/// Appends zero limbs up to a length.
fn extend_to(v: &mut Vec<u32>, n: usize)
    ensures
        big(final(v)@) == big(old(v)@),
        final(v)@.len() >= n,
        old(v)@.len() <= n ==> final(v)@.len() == n,
        old(v)@.len() > n ==> final(v)@ == old(v)@,
{
    while v.len() < n
        invariant
            big(v@) == big(old(v)@),
            old(v)@.len() <= n ==> v@.len() <= n,
            old(v)@.len() > n ==> v@ == old(v)@,
        decreases n - v@.len(),
    {
        proof {
            lemma_big_push(v@, 0);
        }
        v.push(0);
    }
}

/// Compares two numbers: the first answer says less, the second equal.
pub fn compare_big(a: &mut Vec<u32>, b: &mut Vec<u32>) -> (r: (bool, bool))
    ensures
        r.0 == (big(old(a)@) < big(old(b)@)),
        r.1 == (big(old(a)@) == big(old(b)@)),
        big(final(a)@) == big(old(a)@),
        big(final(b)@) == big(old(b)@),
{
    let la: usize = a.len();
    let lb: usize = b.len();
    extend_to(a, lb);
    extend_to(b, la);
    let mut i: usize = a.len();
    while i > 0
        invariant
            a@.len() == b@.len(),
            i <= a@.len(),
            big(a@) == big(old(a)@),
            big(b@) == big(old(b)@),
            forall|j: int| i <= j < a@.len() ==> a@[j] == b@[j],
        decreases i,
    {
        let x: u32 = a[i - 1];
        let y: u32 = b[i - 1];
        if x != y {
            proof {
                lemma_same_tail(a@, b@, i as int);
                assert(a@.take(i as int) =~= a@.take(i - 1).push(x));
                assert(b@.take(i as int) =~= b@.take(i - 1).push(y));
                lemma_big_push(a@.take(i - 1), x);
                lemma_big_push(b@.take(i - 1), y);
                lemma_big_bound(a@.take(i - 1));
                lemma_big_bound(b@.take(i - 1));
                let w = pow(0x1_0000_0000, (i - 1) as nat);
                let p = big(a@.take(i - 1));
                let q = big(b@.take(i - 1));
                if x < y {
                    assert(p + x * w < q + y * w) by (nonlinear_arith)
                        requires
                            0 <= p < w,
                            0 <= q,
                            0 <= x < y,
                    ;
                } else {
                    assert(q + y * w < p + x * w) by (nonlinear_arith)
                        requires
                            0 <= q < w,
                            0 <= p,
                            0 <= y < x,
                    ;
                }
            }
            return (x < y, false);
        }
        i = i - 1;
    }
    proof {
        assert(a@ =~= b@);
    }
    (false, true)
}

} // verus!
