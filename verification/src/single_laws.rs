//! Singles as numbers: that widening keeps them, and that narrowing takes the
//! nearest.

use crate::float_bits;
use crate::float_convert;
use crate::float_laws;
use vstd::arithmetic::power2;
use vstd::prelude::*;

verus! {

/// The size of a finite single without its sign bit, in multiples of the smallest.
pub open spec fn single_size(m: nat) -> nat {
    let e = m / 0x80_0000;
    let f = m % 0x80_0000;
    if e == 0 {
        f
    } else {
        (0x80_0000 + f) * power2::pow2((e - 1) as nat)
    }
}

/// How many of the smallest doubles make up the smallest single.
pub open spec fn ratio() -> nat {
    power2::pow2(925)
}

proof fn lemma_sizes(m: u64)
    requires
        m < 0x8000_0000_0000_0000,
    ensures
        float_laws::exponent(m) == m as nat / 0x10_0000_0000_0000,
        float_laws::fraction(m) == m as nat % 0x10_0000_0000_0000,
{
}

/// A single is the same number as a double.
pub proof fn law_widening_keeps_the_number(m: nat)
    requires
        m < 0x7f80_0000,
    ensures
        float_laws::size(float_convert::widened(m) as u64) == single_size(m) * ratio(),
{
    let e = m / 0x80_0000;
    let f = m % 0x80_0000;
    let w = float_convert::widened(m);
    power2::lemma2_to64();
    power2::lemma2_to64_rest();
    float_convert::lemma_widened_fits(m);
    lemma_sizes(w as u64);
    if e == 0 && f == 0 {
        assert(0 * ratio() == 0);
    } else if e == 0 {
        float_convert::lemma_between(f);
        float_convert::lemma_order_below(f, 23);
        let o = float_convert::order(f);
        let d = power2::pow2((52 - o) as nat);
        let p = power2::pow2(o);
        power2::lemma_pow2_adds(o, (52 - o) as nat);
        power2::lemma_pow2_pos((52 - o) as nat);
        assert(p * d <= f * d < 2 * (p * d)) by (nonlinear_arith)
            requires
                p <= f < 2 * p,
                d > 0,
        ;
        assert(w == (873 + o) * 0x10_0000_0000_0000 + f * d);
        assert(w / 0x10_0000_0000_0000 == 874 + o);
        assert(0x10_0000_0000_0000 + w % 0x10_0000_0000_0000 == f * d);
        power2::lemma_pow2_adds((52 - o) as nat, (873 + o) as nat);
        let u = power2::pow2((873 + o) as nat);
        assert((f * d) * u == f * (d * u)) by (nonlinear_arith);
    } else {
        assert(w / 0x10_0000_0000_0000 == e + 896);
        assert(w % 0x10_0000_0000_0000 == f * 0x2000_0000);
        let q: nat = 0x80_0000 + f;
        let a = power2::pow2((e - 1) as nat);
        let c = power2::pow2((e + 895) as nat);
        power2::lemma_pow2_adds((e - 1) as nat, 925);
        power2::lemma_pow2_adds(29, (e + 895) as nat);
        assert(power2::pow2(29) == 0x2000_0000);
        assert(0x10_0000_0000_0000 + f * 0x2000_0000 == q * 0x2000_0000);
        assert((q * 0x2000_0000) * c == q * (0x2000_0000 * c)) by (nonlinear_arith);
        assert((q * a) * ratio() == q * (a * ratio())) by (nonlinear_arith);
    }
}

/// The bits of a single of `q` steps of size two to the power `t`.
proof fn lemma_steps(t: nat, q: nat)
    requires
        q <= 0x100_0000,
        t == 0 || q >= 0x80_0000,
    ensures
        single_size(t * 0x80_0000 + q) == q * power2::pow2(t),
{
    let m = t * 0x80_0000 + q;
    power2::lemma2_to64();
    if q < 0x80_0000 {
        assert(m / 0x80_0000 == 0);
    } else if q < 0x100_0000 {
        assert(m / 0x80_0000 == t + 1);
        assert(m % 0x80_0000 == q - 0x80_0000);
    } else {
        assert(m / 0x80_0000 == t + 2);
        assert(m % 0x80_0000 == 0);
        power2::lemma_pow2_unfold(t + 1);
        let p = power2::pow2(t);
        assert(0x80_0000 * (2 * p) == 0x100_0000 * p) by (nonlinear_arith);
    }
}

/// Every single is a whole number of steps, or below those of full length.
proof fn lemma_other(c: nat, t: nat) -> (j: nat)
    ensures
        single_size(c) == j * power2::pow2(t) || (t > 0 && single_size(c) < 0x80_0000
            * power2::pow2(t)),
{
    let e = c / 0x80_0000;
    let f = c % 0x80_0000;
    let p = power2::pow2(t);
    power2::lemma2_to64();
    power2::lemma_pow2_pos(t);
    if e > t {
        let k = (e - 1 - t) as nat;
        power2::lemma_pow2_adds(k, t);
        let a = power2::pow2(k);
        let q: nat = 0x80_0000 + f;
        assert(q * (a * p) == (q * a) * p) by (nonlinear_arith);
        (0x80_0000 + f) * a
    } else if t == 0 {
        f
    } else {
        if e == 0 {
            assert(f < 0x80_0000 * p) by (nonlinear_arith)
                requires
                    f < 0x80_0000,
                    p >= 1,
            ;
        } else {
            let a = power2::pow2((e - 1) as nat);
            let h = power2::pow2((t - 1) as nat);
            power2::lemma_pow2_unfold(t);
            power2::lemma_pow2_pos((t - 1) as nat);
            if e < t {
                power2::lemma_pow2_strictly_increases((e - 1) as nat, (t - 1) as nat);
            }
            assert((0x80_0000 + f) * a < 0x100_0000 * h) by (nonlinear_arith)
                requires
                    f < 0x80_0000,
                    0 <= a <= h,
                    h > 0,
            ;
            assert(0x100_0000 * h == 0x80_0000 * (2 * h)) by (nonlinear_arith);
        }
        0
    }
}

/// How far a double lies from a single.
pub open spec fn gap(m: u64, c: nat) -> int {
    let d = float_laws::size(m) - single_size(c) * ratio();
    if d < 0 {
        -d
    } else {
        d
    }
}

/// A double as so many units, and the single that it is narrowed to as so many
/// steps of as many units.
proof fn lemma_narrowed(m: u64) -> (r: (nat, nat, nat, nat, nat))
    requires
        m < 0x7ff0_0000_0000_0000,
    ensures
        ({
            let (s, d, u, t, q) = r;
            &&& d > 0
            &&& u > 0
            &&& float_laws::size(m) == s * u
            &&& power2::pow2(t) * ratio() == d * u
            &&& q == float_convert::half_even(s, d)
            &&& q <= 0x100_0000
            &&& t > 0 ==> 0x80_0000 * d <= s && q >= 0x80_0000
            &&& float_convert::narrowed(m as nat) == if t * 0x80_0000 + q < 0x7f80_0000 {
                t * 0x80_0000 + q
            } else {
                0x7f80_0000
            }
        }),
{
    let n = m as nat;
    let e = n / 0x10_0000_0000_0000;
    let f = n % 0x10_0000_0000_0000;
    let x: nat = if e == 0 {
        1
    } else {
        e
    };
    let s: nat = if e == 0 {
        f
    } else {
        0x10_0000_0000_0000 + f
    };
    let k: nat = if x > 897 {
        29
    } else {
        (926 - x) as nat
    };
    let t = (x + k - 926) as nat;
    let d = power2::pow2(k);
    let u = power2::pow2((x - 1) as nat);
    let q = float_convert::half_even(s, d);
    power2::lemma2_to64();
    power2::lemma2_to64_rest();
    lemma_sizes(m);
    power2::lemma_pow2_pos(k);
    power2::lemma_pow2_pos((x - 1) as nat);
    power2::lemma_pow2_adds(k, (x - 1) as nat);
    power2::lemma_pow2_adds(t, 925);
    assert(k + (x - 1) == t + 925);
    if k > 29 {
        power2::lemma_pow2_strictly_increases(29, k);
    }
    assert(s < 0x100_0000 * d) by (nonlinear_arith)
        requires
            s < 0x20_0000_0000_0000,
            d >= 0x2000_0000,
    ;
    let w = s / d;
    assert(w < 0x100_0000) by (nonlinear_arith)
        requires
            w == s / d,
            s < 0x100_0000 * d,
            d > 0,
    ;
    if t > 0 {
        assert(w >= 0x80_0000);
    }
    (s, d, u, t, q)
}

/// The single that a double is narrowed to is the nearest: no other is nearer, and
/// of two that are equally near it is the even one.
pub proof fn law_narrowing_takes_the_nearest(m: u64, c: nat)
    requires
        m < 0x7ff0_0000_0000_0000,
        float_convert::narrowed(m as nat) < 0x7f80_0000,
    ensures
        gap(m, float_convert::narrowed(m as nat)) <= gap(m, c),
        gap(m, float_convert::narrowed(m as nat)) == gap(m, c) && single_size(c) != single_size(
            float_convert::narrowed(m as nat),
        ) ==> float_convert::narrowed(m as nat) % 2 == 0,
{
    let (s, d, u, t, q) = lemma_narrowed(m);
    let p = power2::pow2(t);
    lemma_steps(t, q);
    assert((q * p) * ratio() == (q * d) * u) by (nonlinear_arith)
        requires
            p * ratio() == d * u,
    ;
    let a = q * d - s;
    assert(s * u - (q * d) * u == -(a * u)) by (nonlinear_arith)
        requires
            a == q * d - s,
    ;
    let j = lemma_other(c, t);
    if single_size(c) == j * p {
        assert((j * p) * ratio() == (j * d) * u) by (nonlinear_arith)
            requires
                p * ratio() == d * u,
        ;
        let b = j * d - s;
        assert(s * u - (j * d) * u == -(b * u)) by (nonlinear_arith)
            requires
                b == j * d - s,
        ;
        float_laws::lemma_half_even(s, d, q, j as int);
        lemma_scaled(a, b, u);
        if gap(m, float_convert::narrowed(m as nat)) == gap(m, c) && q * p != j * p {
            assert(a != b) by {
                if a == b {
                    assert(q * d == j * d);
                    assert(q == j) by (nonlinear_arith)
                        requires
                            q * d == j * d,
                            d > 0,
                    ;
                }
            }
            assert(q % 2 == 0);
        }
    } else {
        let h: nat = 0x80_0000;
        let b = h * d - s;
        float_laws::lemma_half_even(s, d, q, h as int);
        lemma_scaled(a, b, u);
        assert((h * p) * ratio() == (h * d) * u) by (nonlinear_arith)
            requires
                p * ratio() == d * u,
        ;
        assert(s * u - (h * d) * u == -(b * u)) by (nonlinear_arith)
            requires
                b == h * d - s,
        ;
        let y = single_size(c);
        power2::lemma_pow2_pos(925);
        assert(y * ratio() < (h * p) * ratio()) by (nonlinear_arith)
            requires
                y < h * p,
                ratio() > 0,
        ;
        assert(b <= 0);
        assert(b * u <= 0) by (nonlinear_arith)
            requires
                b <= 0,
                u > 0,
        ;
    }
}

proof fn lemma_scaled(a: int, b: int, u: nat)
    requires
        u > 0,
        (if a < 0 {
            -a
        } else {
            a
        }) <= (if b < 0 {
            -b
        } else {
            b
        }),
    ensures
        (if a * u < 0 {
            -(a * u)
        } else {
            a * u
        }) <= (if b * u < 0 {
            -(b * u)
        } else {
            b * u
        }),
        a * u == b * u ==> a == b,
        a * u == -(b * u) ==> a == -b,
{
    assert(a >= 0 ==> a * u >= 0) by (nonlinear_arith)
        requires
            u > 0,
    ;
    assert(a < 0 ==> a * u < 0) by (nonlinear_arith)
        requires
            u > 0,
    ;
    assert(b >= 0 ==> b * u >= 0) by (nonlinear_arith)
        requires
            u > 0,
    ;
    assert(b < 0 ==> b * u < 0) by (nonlinear_arith)
        requires
            u > 0,
    ;
    assert((-a) * u == -(a * u)) by (nonlinear_arith);
    assert((-b) * u == -(b * u)) by (nonlinear_arith);
    assert(a <= b ==> a * u <= b * u) by (nonlinear_arith)
        requires
            u > 0,
    ;
    assert(a <= -b ==> a * u <= (-b) * u) by (nonlinear_arith)
        requires
            u > 0,
    ;
    assert(-a <= b ==> (-a) * u <= b * u) by (nonlinear_arith)
        requires
            u > 0,
    ;
    assert(-a <= -b ==> (-a) * u <= (-b) * u) by (nonlinear_arith)
        requires
            u > 0,
    ;
    assert(a * u == b * u ==> a == b) by (nonlinear_arith)
        requires
            u > 0,
    ;
    assert(a * u == (-b) * u ==> a == -b) by (nonlinear_arith)
        requires
            u > 0,
    ;
}

/// A double is narrowed to infinity only where it lies at least half a step above
/// the largest single.
pub proof fn law_only_the_large_overflow(m: u64)
    requires
        m < 0x7ff0_0000_0000_0000,
        float_convert::narrowed(m as nat) == 0x7f80_0000,
    ensures
        2 * float_laws::size(m) >= (2 * single_size(0x7f7f_ffff) + power2::pow2(253)) * ratio(),
{
    let (s, d, u, t, q) = lemma_narrowed(m);
    let p = power2::pow2(t);
    let top = power2::pow2(253);
    assert(0x7f7f_ffffnat / 0x80_0000 == 254);
    assert(0x7f7f_ffffnat % 0x80_0000 == 0x7f_ffff);
    assert(single_size(0x7f7f_ffff) == 0xff_ffff * top);
    assert(2 * (0xff_ffff * top) + top == 0x1ff_ffff * top) by (nonlinear_arith);
    float_laws::lemma_half_even(s, d, q, 0);
    assert(t >= 253);
    if t == 253 {
        assert(q == 0x100_0000);
        assert(2 * s >= 0x1ff_ffff * d) by (nonlinear_arith)
            requires
                2 * (q * d - s) <= d,
                q == 0x100_0000,
        ;
        assert(2 * (s * u) >= (0x1ff_ffff * top) * ratio()) by (nonlinear_arith)
            requires
                2 * s >= 0x1ff_ffff * d,
                top * ratio() == d * u,
                u > 0,
        ;
    } else {
        power2::lemma_pow2_adds(1, (t - 1) as nat);
        power2::lemma2_to64();
        if t > 254 {
            power2::lemma_pow2_strictly_increases(254, t);
        }
        power2::lemma_pow2_unfold(254);
        power2::lemma_pow2_pos(925);
        assert(p >= 2 * top);
        assert(p * ratio() >= (2 * top) * ratio()) by (nonlinear_arith)
            requires
                p >= 2 * top,
                ratio() > 0,
        ;
        assert(s * u >= 0x80_0000 * (d * u)) by (nonlinear_arith)
            requires
                s >= 0x80_0000 * d,
                u > 0,
        ;
        assert(2 * (0x80_0000 * ((2 * top) * ratio())) >= (0x1ff_ffff * top) * ratio())
            by (nonlinear_arith)
            requires
                top >= 0,
                ratio() > 0,
        ;
    }
}

/// The sign of a number is kept by widening and by narrowing.
pub proof fn law_signs_are_kept(single: u32, double: u64)
    ensures
        float_convert::finite32(single) ==> (float_convert::double_bits(single)
            >= 0x8000_0000_0000_0000 <==> single >= 0x8000_0000),
        float_bits::finite(double) ==> (float_convert::single_bits(double) >= 0x8000_0000
            <==> double >= 0x8000_0000_0000_0000),
{
    if float_convert::finite32(single) {
        float_convert::lemma_widened_fits(float_convert::magnitude32(single) as nat);
    }
}

/// A finite single, in multiples of the smallest: the highest bit is the sign.
pub open spec fn single_number(bits: u32) -> int {
    if bits >= 0x8000_0000 {
        -(single_size((bits - 0x8000_0000) as nat) as int)
    } else {
        single_size(bits as nat) as int
    }
}

proof fn lemma_single_grows(a: nat, b: nat)
    requires
        a < b,
    ensures
        single_size(a) < single_size(b),
{
    let ea = a / 0x80_0000;
    let eb = b / 0x80_0000;
    let fa = a % 0x80_0000;
    let fb = b % 0x80_0000;
    let h: nat = 0x80_0000;
    power2::lemma2_to64();
    if ea == eb {
        if ea > 0 {
            let p = power2::pow2((ea - 1) as nat);
            power2::lemma_pow2_pos((ea - 1) as nat);
            assert((h + fa) * p < (h + fb) * p) by (nonlinear_arith)
                requires
                    fa < fb,
                    p > 0,
            ;
        }
    } else {
        let q = power2::pow2((eb - 1) as nat);
        power2::lemma_pow2_pos((eb - 1) as nat);
        assert(h * q <= (h + fb) * q) by (nonlinear_arith)
            requires
                fb >= 0,
                q >= 0,
        ;
        if ea == 0 {
            assert(h <= h * q) by (nonlinear_arith)
                requires
                    q >= 1,
            ;
        } else {
            let p = power2::pow2((ea - 1) as nat);
            power2::lemma_pow2_pos((ea - 1) as nat);
            power2::lemma_pow2_unfold(ea);
            assert((h + fa) * p < h * (2 * p)) by (nonlinear_arith)
                requires
                    fa < h,
                    p > 0,
            ;
            if ea < eb - 1 {
                power2::lemma_pow2_strictly_increases(ea, (eb - 1) as nat);
            }
            assert(h * (2 * p) <= h * q) by (nonlinear_arith)
                requires
                    2 * p <= q,
            ;
        }
    }
}

/// A single is finite where its exponent is not the largest.
pub proof fn law_finite_singles(bits: u32)
    ensures
        float_convert::finite32(bits) <==> (bits as int / 0x80_0000) % 0x100 < 0xff,
{
}

/// Two finite singles are the same exactly where they are the same number; what is
/// no number is the same as nothing.
pub proof fn law_same_singles(a: u32, b: u32)
    ensures
        float_convert::finite32(a) && float_convert::finite32(b) ==> (float_bits::same_single(a, b)
            <==> single_number(a) == single_number(b)),
        (a as int / 0x80_0000) % 0x100 == 0xff && a as int % 0x80_0000 != 0
            ==> !float_bits::same_single(a, b) && !float_bits::same_single(b, a),
{
    let m = float_convert::magnitude32(a) as nat;
    let n = float_convert::magnitude32(b) as nat;
    if m < n {
        lemma_single_grows(m, n);
    }
    if n < m {
        lemma_single_grows(n, m);
    }
    if m > 0 {
        lemma_single_grows(0, m);
    }
    if n > 0 {
        lemma_single_grows(0, n);
    }
}

/// The double for a finite single is the same number.
pub proof fn law_doubles_of_singles(bits: u32)
    requires
        float_convert::finite32(bits),
    ensures
        float_convert::double_bits(bits) <= u64::MAX,
        float_laws::number(float_convert::double_bits(bits) as u64) == single_number(bits)
            * ratio(),
{
    let m = float_convert::magnitude32(bits) as nat;
    float_convert::lemma_widened_fits(m);
    law_widening_keeps_the_number(m);
    let w = float_convert::widened(m) as u64;
    if bits >= 0x8000_0000 {
        let d = (0x8000_0000_0000_0000 + w) as u64;
        float_laws::lemma_size_of_sign(d);
        let z = single_size(m);
        assert((-(z as int)) * ratio() == -(z * ratio())) by (nonlinear_arith);
    }
}

} // verus!
