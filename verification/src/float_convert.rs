//! Conversions between integers, doubles and singles, on bit patterns.
//!
//! Every conversion rounds to the nearest number and, where two are equally
//! near, to the one whose last bit is zero.

use crate::float_bits;
use crate::float_bits::SIGN;
use vstd::arithmetic::power2;
use vstd::prelude::*;

verus! {

/// The bits of positive infinity as a single.
pub const INFINITY32: u32 = 0x7f80_0000;

/// The sign bit of a single.
pub const SIGN32: u32 = 0x8000_0000;

/// The place of the highest bit of `n`.
pub open spec fn order(n: nat) -> nat
    decreases n,
{
    if n <= 1 {
        0
    } else {
        1 + order(n / 2)
    }
}

/// `n / d`, rounded to the nearest integer, a tie to the even one.
pub open spec fn half_even(n: nat, d: nat) -> nat {
    let q = n / d;
    let r = n % d;
    if 2 * r > d || (2 * r == d && q % 2 == 1) {
        q + 1
    } else {
        q
    }
}

/// The bits of the double nearest to `n`.
pub open spec fn nearest(n: nat) -> nat {
    if n == 0 {
        0
    } else if order(n) <= 52 {
        (1022 + order(n)) * 0x10_0000_0000_0000 + n * power2::pow2((52 - order(n)) as nat)
    } else {
        (1022 + order(n)) * 0x10_0000_0000_0000 + half_even(
            n,
            power2::pow2((order(n) - 52) as nat),
        )
    }
}

/// The bits of the double nearest to a negative or positive integer.
pub open spec fn nearest_signed(n: int) -> nat {
    if n < 0 {
        SIGN as nat + nearest((-n) as nat)
    } else {
        nearest(n as nat)
    }
}

/// The powers of two that bound `n` give its order.
proof fn lemma_order(n: nat, e: nat)
    requires
        power2::pow2(e) <= n < 2 * power2::pow2(e),
    ensures
        order(n) == e,
    decreases e,
{
    if e == 0 {
        power2::lemma2_to64();
    } else {
        power2::lemma_pow2_unfold(e);
        lemma_order(n / 2, (e - 1) as nat);
        power2::lemma_pow2_pos((e - 1) as nat);
    }
}

/// The order of a 64-bit number is below 64, and its double needs no sign bit.
pub proof fn lemma_nearest_fits(n: nat)
    requires
        n <= u64::MAX,
    ensures
        nearest(n) <= 0x43f0_0000_0000_0000,
        n > 0 ==> nearest(n) >= 0x3ff0_0000_0000_0000,
{
    if n > 0 {
        lemma_between(n);
        let e = order(n);
        power2::lemma2_to64();
        power2::lemma2_to64_rest();
        lemma_order_below(n, 64);
        if e <= 52 {
            power2::lemma_pow2_adds(e, (52 - e) as nat);
            let p = power2::pow2(e);
            let q = power2::pow2((52 - e) as nat);
            assert(p * q <= n * q < 2 * (p * q)) by (nonlinear_arith)
                requires
                    p <= n < 2 * p,
                    q > 0,
            {}
        } else {
            power2::lemma_pow2_adds(52, (e - 52) as nat);
            let d = power2::pow2((e - 52) as nat);
            power2::lemma_pow2_pos((e - 52) as nat);
            lemma_quotient(n, d, 0x10_0000_0000_0000);
        }
    }
}

pub proof fn lemma_quotient(n: nat, d: nat, m: nat)
    requires
        d > 0,
        m * d <= n < 2 * (m * d),
    ensures
        m <= n / d < 2 * m,
{
    assert(m <= n / d) by (nonlinear_arith)
        requires
            d > 0,
            m * d <= n,
    ;
    assert(n / d < 2 * m) by (nonlinear_arith)
        requires
            d > 0,
            n < 2 * (m * d),
    ;
}

/// A number lies between the powers of two of its order.
pub proof fn lemma_between(n: nat)
    requires
        n > 0,
    ensures
        power2::pow2(order(n)) <= n < 2 * power2::pow2(order(n)),
    decreases n,
{
    if n == 1 {
        power2::lemma2_to64();
    } else {
        lemma_between(n / 2);
        power2::lemma_pow2_unfold(order(n));
    }
}

pub proof fn lemma_order_below(n: nat, k: nat)
    requires
        n > 0,
        n < power2::pow2(k),
    ensures
        order(n) < k,
    decreases k,
{
    if k == 0 {
        power2::lemma2_to64();
    } else {
        power2::lemma_pow2_unfold(k);
        if n > 1 {
            lemma_order_below(n / 2, (k - 1) as nat);
        }
    }
}

/// `n / d`, rounded to the nearest integer, a tie to the even one.
fn round_quotient(n: u64, d: u64) -> (r: u64)
    requires
        d > 0,
        n / d < u64::MAX,
    ensures
        r == half_even(n as nat, d as nat),
{
    let q: u64 = n / d;
    let rest: u64 = n % d;
    let other: u64 = d - rest;
    if rest > other || (rest == other && q % 2 == 1) {
        q + 1
    } else {
        q
    }
}

/// The double nearest to an unsigned integer.
pub fn double_of_u64(n: u64) -> (r: u64)
    ensures
        r == nearest(n as nat),
        float_bits::finite(r),
{
    proof {
        lemma_nearest_fits(n as nat);
    }
    if n == 0 {
        return 0;
    }
    let mut p: u64 = 1;
    let mut e: u64 = 0;
    proof {
        power2::lemma2_to64();
        power2::lemma2_to64_rest();
    }
    while p <= n / 2
        invariant
            p == power2::pow2(e as nat),
            1 <= p <= n,
            e < 64,
        decreases n - p,
    {
        proof {
            power2::lemma_pow2_unfold((e + 1) as nat);
            lemma_between(n as nat);
            power2::lemma2_to64();
            power2::lemma2_to64_rest();
            if e >= 63 {
                power2::lemma_pow2_strictly_increases(63, (e + 1) as nat);
            }
        }
        p = p * 2;
        e = e + 1;
    }
    proof {
        lemma_order(n as nat, e as nat);
    }
    if e <= 52 {
        let mut m: u64 = n;
        let mut k: u64 = e;
        assert(n * power2::pow2(0) == n);
        while k < 52
            invariant
                e <= k <= 52,
                p == power2::pow2(e as nat),
                p <= n < 2 * p,
                m == n * power2::pow2((k - e) as nat),
                power2::pow2(k as nat) <= m < 2 * power2::pow2(k as nat),
            decreases 52 - k,
        {
            proof {
                power2::lemma2_to64();
                power2::lemma2_to64_rest();
                power2::lemma_pow2_unfold((k + 1) as nat);
                power2::lemma_pow2_unfold((k + 1 - e) as nat);
                if k < 51 {
                    power2::lemma_pow2_strictly_increases((k + 1) as nat, 52);
                }
                let q = power2::pow2((k - e) as nat);
                assert(2 * (n * q) == n * (2 * q)) by (nonlinear_arith);
            }
            m = m * 2;
            k = k + 1;
        }
        proof {
            power2::lemma2_to64();
            power2::lemma2_to64_rest();
        }
        (1022 + e) * 0x10_0000_0000_0000 + m
    } else {
        let mut d: u64 = 1;
        let mut k: u64 = 52;
        while k < e
            invariant
                52 <= k <= e < 64,
                d == power2::pow2((k - 52) as nat),
            decreases e - k,
        {
            proof {
                power2::lemma2_to64();
                power2::lemma2_to64_rest();
                power2::lemma_pow2_unfold((k + 1 - 52) as nat);
                if k - 52 < 11 {
                    power2::lemma_pow2_strictly_increases((k - 52) as nat, 11);
                }
            }
            d = d * 2;
            k = k + 1;
        }
        proof {
            power2::lemma_pow2_pos((e - 52) as nat);
            power2::lemma_pow2_adds(52, (e - 52) as nat);
            power2::lemma2_to64();
            power2::lemma2_to64_rest();
            lemma_quotient(n as nat, d as nat, 0x10_0000_0000_0000);
        }
        (1022 + e) * 0x10_0000_0000_0000 + round_quotient(n, d)
    }
}

/// The double nearest to a signed integer.
pub fn double_of_i64(n: i64) -> (r: u64)
    ensures
        r == nearest_signed(n as int),
        float_bits::finite(r),
{
    if n < 0 {
        let m: u64 = if n == i64::MIN {
            0x8000_0000_0000_0000
        } else {
            (-n) as u64
        };
        let b: u64 = double_of_u64(m);
        proof {
            lemma_nearest_fits(m as nat);
        }
        SIGN + b
    } else {
        double_of_u64(n as u64)
    }
}

/// The magnitude of the single nearest to a finite double of magnitude `m`.
///
/// The double is `s * 2^(x - 1075)`; a single is `r * 2^(t - 149)` with
/// `t >= 0`, and its bits are `t * 2^23 + r` when `r` has 24 bits or `t` is zero.
pub open spec fn narrowed(m: nat) -> nat {
    let e = m / 0x10_0000_0000_0000;
    let f = m % 0x10_0000_0000_0000;
    let x: nat = if e == 0 {
        1
    } else {
        e
    };
    let s: nat = if e == 0 {
        f
    } else {
        0x10_0000_0000_0000 + f
    };
    let k: nat = if x > 897 {
        29
    } else {
        (926 - x) as nat
    };
    let bits: nat = ((x + k - 926) * 0x80_0000) as nat + half_even(s, power2::pow2(k));
    if bits < INFINITY32 {
        bits
    } else {
        INFINITY32 as nat
    }
}

/// The single nearest to a finite double.
pub open spec fn single_bits(bits: u64) -> nat {
    let m = narrowed(float_bits::magnitude(bits) as nat);
    if bits >= SIGN {
        SIGN32 as nat + m
    } else {
        m
    }
}

/// A number less than half of the divisor rounds to zero.
proof fn lemma_rounds_away(s: nat, d: nat)
    requires
        2 * s < d,
    ensures
        half_even(s, d) == 0,
{
    assert(s / d == 0 && s % d == s) by (nonlinear_arith)
        requires
            0 <= s < d,
    ;
}

/// The single nearest to a finite double.
pub fn single_of(bits: u64) -> (r: u32)
    requires
        float_bits::finite(bits),
    ensures
        r == single_bits(bits),
{
    let m: u64 = float_bits::mag(bits);
    let e: u64 = m / 0x10_0000_0000_0000;
    let f: u64 = m % 0x10_0000_0000_0000;
    let x: u64 = if e == 0 {
        1
    } else {
        e
    };
    let s: u64 = if e == 0 {
        f
    } else {
        0x10_0000_0000_0000 + f
    };
    let k: u64 = if x > 897 {
        29
    } else {
        926 - x
    };
    proof {
        power2::lemma2_to64();
        power2::lemma2_to64_rest();
    }
    let rounded: u64 = if k >= 60 {
        proof {
            if k > 60 {
                power2::lemma_pow2_strictly_increases(60, k as nat);
            }
            lemma_rounds_away(s as nat, power2::pow2(k as nat));
        }
        0
    } else {
        let mut d: u64 = 0x2000_0000;
        let mut j: u64 = 29;
        while j < k
            invariant
                29 <= j <= k < 60,
                d == power2::pow2(j as nat),
            decreases k - j,
        {
            proof {
                power2::lemma2_to64();
                power2::lemma2_to64_rest();
                power2::lemma_pow2_unfold((j + 1) as nat);
                power2::lemma_pow2_strictly_increases((j + 1) as nat, 61);
            }
            d = d * 2;
            j = j + 1;
        }
        proof {
            if k > 29 {
                power2::lemma_pow2_strictly_increases(29, k as nat);
            }
            assert(s / d <= s) by (nonlinear_arith)
                requires
                    d > 0,
            ;
            assert(s < 0x1000_0000 * d) by (nonlinear_arith)
                requires
                    s < 0x20_0000_0000_0000,
                    d >= 0x2000_0000,
            ;
            assert(s / d <= 0x1000_0000) by (nonlinear_arith)
                requires
                    d > 0,
                    s < 0x1000_0000 * d,
            ;
        }
        round_quotient(s, d)
    };
    let out: u64 = (x + k - 926) * 0x80_0000 + rounded;
    let m32: u32 = if out < INFINITY32 as u64 {
        out as u32
    } else {
        INFINITY32
    };
    if bits >= SIGN {
        SIGN32 + m32
    } else {
        m32
    }
}

/// The magnitude of a single.
pub open spec fn magnitude32(bits: u32) -> int {
    if bits >= SIGN32 {
        bits - SIGN32
    } else {
        bits as int
    }
}

/// Whether a single is neither infinite nor NaN.
pub open spec fn finite32(bits: u32) -> bool {
    magnitude32(bits) < INFINITY32
}

/// The magnitude of the double that equals a finite single of magnitude `m`.
pub open spec fn widened(m: nat) -> nat {
    let e = m / 0x80_0000;
    let f = m % 0x80_0000;
    if e == 0 && f == 0 {
        0
    } else if e == 0 {
        (nearest(f) - 149 * 0x10_0000_0000_0000) as nat
    } else {
        (e + 896) * 0x10_0000_0000_0000 + f * 0x2000_0000
    }
}

/// The double that equals a finite single.
pub open spec fn double_bits(bits: u32) -> nat {
    let m = widened(magnitude32(bits) as nat);
    if bits >= SIGN32 {
        SIGN as nat + m
    } else {
        m
    }
}

pub fn is_finite32(bits: u32) -> (r: bool)
    ensures
        r == finite32(bits),
{
    let m: u32 = if bits >= SIGN32 {
        bits - SIGN32
    } else {
        bits
    };
    m < INFINITY32
}

/// The double that equals a finite single.
pub fn double_of_single(bits: u32) -> (r: u64)
    requires
        finite32(bits),
    ensures
        r == double_bits(bits),
        float_bits::finite(r),
{
    let m: u32 = if bits >= SIGN32 {
        bits - SIGN32
    } else {
        bits
    };
    let e: u64 = (m / 0x80_0000) as u64;
    let f: u64 = (m % 0x80_0000) as u64;
    let wide: u64 = if e == 0 && f == 0 {
        0
    } else if e == 0 {
        proof {
            lemma_nearest_fits(f as nat);
        }
        double_of_u64(f) - 149 * 0x10_0000_0000_0000
    } else {
        (e + 896) * 0x10_0000_0000_0000 + f * 0x2000_0000
    };
    if bits >= SIGN32 {
        SIGN + wide
    } else {
        wide
    }
}

/// An exact multiple of the divisor needs no rounding.
proof fn lemma_exact(q: nat, d: nat)
    requires
        d > 0,
    ensures
        half_even(q * d, d) == q,
{
    assert((q * d) / d == q && (q * d) % d == 0) by (nonlinear_arith)
        requires
            d > 0,
    ;
}

/// A finite single comes back from the double that equals it.
pub proof fn law_single_through_double(m: nat)
    requires
        m < INFINITY32,
    ensures
        narrowed(widened(m)) == m,
{
    power2::lemma2_to64();
    power2::lemma2_to64_rest();
    let e = m / 0x80_0000;
    let f = m % 0x80_0000;
    let w = widened(m);
    if e == 0 && f == 0 {
        power2::lemma_pow2_strictly_increases(1, 925);
        lemma_rounds_away(0, power2::pow2(925));
    } else if e == 0 {
        lemma_between(f);
        lemma_order_below(f, 23);
        let o = order(f);
        let d = power2::pow2((52 - o) as nat);
        let p = power2::pow2(o);
        power2::lemma_pow2_adds(o, (52 - o) as nat);
        power2::lemma_pow2_pos((52 - o) as nat);
        assert(p * d <= f * d < 2 * (p * d)) by (nonlinear_arith)
            requires
                p <= f < 2 * p,
                d > 0,
        ;
        assert(w == (873 + o) * 0x10_0000_0000_0000 + f * d);
        assert(w / 0x10_0000_0000_0000 == 874 + o);
        assert(0x10_0000_0000_0000 + w % 0x10_0000_0000_0000 == f * d);
        lemma_exact(f, d);
    } else {
        assert(w / 0x10_0000_0000_0000 == e + 896);
        assert(w % 0x10_0000_0000_0000 == f * 0x2000_0000);
        let q: nat = 0x80_0000 + f;
        assert(0x10_0000_0000_0000 + f * 0x2000_0000 == q * 0x2000_0000);
        lemma_exact(q, 0x2000_0000);
    }
}

/// A widened single needs no sign bit.
pub proof fn lemma_widened_fits(m: nat)
    requires
        m < INFINITY32,
    ensures
        widened(m) < float_bits::INFINITY,
{
    let f = m % 0x80_0000;
    if m < 0x80_0000 && f > 0 {
        lemma_nearest_fits(f);
    }
}

} // verus!
