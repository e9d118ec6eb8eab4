//! What the bits of a double stand for, and that order and conversion keep to
//! it.
//!
//! Every finite double is a whole multiple of the smallest one, 2^-1074. Here a
//! double is that multiple, so that all of them are integers.

use crate::float_bits;
use crate::float_convert;
use vstd::arithmetic::power2;
use vstd::prelude::*;

verus! {

/// How often the smallest positive double goes into one.
pub open spec fn unit() -> nat {
    power2::pow2(1074)
}

/// The exponent field of a double.
pub open spec fn exponent(bits: u64) -> nat {
    ((bits as int / 0x10_0000_0000_0000) % 0x800) as nat
}

/// The fraction field of a double.
pub open spec fn fraction(bits: u64) -> nat {
    (bits as int % 0x10_0000_0000_0000) as nat
}

/// The size of a finite double, in multiples of the smallest: the fraction, with
/// a hidden bit before it and shifted by the exponent, where that is not zero.
pub open spec fn size(bits: u64) -> nat {
    if exponent(bits) == 0 {
        fraction(bits)
    } else {
        (0x10_0000_0000_0000 + fraction(bits)) * power2::pow2((exponent(bits) - 1) as nat)
    }
}

/// A finite double, in multiples of the smallest: the highest bit is the sign.
pub open spec fn number(bits: u64) -> int {
    if bits >= 0x8000_0000_0000_0000 {
        -(size(bits) as int)
    } else {
        size(bits) as int
    }
}

proof fn lemma_size_grows(a: u64, b: u64)
    requires
        a < b < 0x8000_0000_0000_0000,
    ensures
        size(a) < size(b),
{
    let ea = exponent(a);
    let eb = exponent(b);
    let h: nat = 0x10_0000_0000_0000;
    power2::lemma2_to64();
    if ea == eb {
        if ea > 0 {
            let p = power2::pow2((ea - 1) as nat);
            power2::lemma_pow2_pos((ea - 1) as nat);
            let fa = fraction(a);
            let fb = fraction(b);
            assert((h + fa) * p < (h + fb) * p) by (nonlinear_arith)
                requires
                    fa < fb,
                    p > 0,
            ;
        }
    } else {
        assert(ea < eb);
        let q = power2::pow2((eb - 1) as nat);
        let fb = fraction(b);
        assert(h * q <= (h + fb) * q) by (nonlinear_arith)
            requires
                fb >= 0,
                q >= 0,
        ;
        power2::lemma_pow2_pos((eb - 1) as nat);
        if ea == 0 {
            assert(h <= h * q) by (nonlinear_arith)
                requires
                    q >= 1,
            ;
        } else {
            let p = power2::pow2((ea - 1) as nat);
            let fa = fraction(a);
            power2::lemma_pow2_pos((ea - 1) as nat);
            power2::lemma_pow2_unfold(ea);
            assert((h + fa) * p < h * (2 * p)) by (nonlinear_arith)
                requires
                    fa < h,
                    p > 0,
            ;
            if ea < eb - 1 {
                power2::lemma_pow2_strictly_increases(ea, (eb - 1) as nat);
            }
            assert(h * (2 * p) <= h * q) by (nonlinear_arith)
                requires
                    2 * p <= q,
            ;
        }
    }
}

pub proof fn lemma_size_of_sign(a: u64)
    requires
        a >= 0x8000_0000_0000_0000,
    ensures
        size(a) == size((a - 0x8000_0000_0000_0000) as u64),
{
    let m = (a - 0x8000_0000_0000_0000) as u64;
    assert(a as int == 0x800 * 0x10_0000_0000_0000 + m);
    assert(a as int / 0x10_0000_0000_0000 == 0x800 + m as int / 0x10_0000_0000_0000);
    assert(exponent(a) == exponent(m));
    assert(fraction(a) == fraction(m));
}

/// The bits say whether a double is finite: its exponent is not the largest. With
/// the largest it is infinite where its fraction is zero, and else no number.
pub proof fn law_finite_by_the_exponent(a: u64)
    ensures
        float_bits::finite(a) <==> exponent(a) < 0x7ff,
        float_bits::nan(a) <==> exponent(a) == 0x7ff && fraction(a) != 0,
        float_bits::zero(a) <==> float_bits::finite(a) && number(a) == 0,
{
    if a >= 0x8000_0000_0000_0000 {
        lemma_size_of_sign(a);
        let m = (a - 0x8000_0000_0000_0000) as u64;
        assert(a as int / 0x10_0000_0000_0000 == 0x800 + m as int / 0x10_0000_0000_0000);
        if m > 0 {
            lemma_size_grows(0, m);
        }
    } else if a > 0 {
        lemma_size_grows(0, a);
    }
}

proof fn lemma_number_by_magnitude(a: u64)
    ensures
        ({
            let m = float_bits::magnitude(a) as u64;
            &&& m < 0x8000_0000_0000_0000
            &&& number(a) == (if a >= 0x8000_0000_0000_0000 {
                -(size(m) as int)
            } else {
                size(m) as int
            })
        }),
{
    if a >= 0x8000_0000_0000_0000 {
        lemma_size_of_sign(a);
    }
}

/// The order of the bits is the order of the numbers.
pub proof fn law_order_is_that_of_the_numbers(a: u64, b: u64)
    requires
        float_bits::finite(a),
        float_bits::finite(b),
    ensures
        float_bits::less(a, b) <==> number(a) < number(b),
        float_bits::at_most(a, b) <==> number(a) <= number(b),
        float_bits::same_number(a, b) <==> number(a) == number(b),
{
    lemma_number_by_magnitude(a);
    lemma_number_by_magnitude(b);
    let m = float_bits::magnitude(a) as u64;
    let n = float_bits::magnitude(b) as u64;
    if m < n {
        lemma_size_grows(m, n);
    }
    if n < m {
        lemma_size_grows(n, m);
    }
    if 0 < m {
        lemma_size_grows(0, m);
    }
    if 0 < n {
        lemma_size_grows(0, n);
    }
}

/// Infinity is above and its negative below every finite number, and no number
/// is above, below or the same as what is none.
pub proof fn law_order_at_the_ends(a: u64, inf: u64, none: u64)
    requires
        float_bits::finite(a),
        exponent(inf) == 0x7ff && fraction(inf) == 0 && inf < 0x8000_0000_0000_0000,
        exponent(none) == 0x7ff && fraction(none) != 0,
    ensures
        float_bits::less(a, inf),
        float_bits::less((inf + 0x8000_0000_0000_0000) as u64, a),
        !float_bits::less(a, none) && !float_bits::less(none, a),
        !float_bits::at_most(a, none) && !float_bits::at_most(none, a),
        !float_bits::same_number(a, none) && !float_bits::same_number(none, none),
{
    law_finite_by_the_exponent(a);
    law_finite_by_the_exponent(none);
    assert(inf == 0x7ff0_0000_0000_0000);
}

/// How far a double is from a whole number, in multiples of the smallest double.
pub open spec fn distance(bits: u64, n: int) -> int {
    let d = number(bits) - n * unit();
    if d < 0 {
        -d
    } else {
        d
    }
}

/// The double that a whole number is converted to, exactly or with its
/// remainder: `q` steps of size `d`.
proof fn lemma_made(n: nat, o: nat, q: nat, k: nat, bits: u64)
    requires
        o <= 63,
        0x10_0000_0000_0000 <= q <= 0x20_0000_0000_0000,
        bits == (1022 + o) * 0x10_0000_0000_0000 + q,
        k == 1022 + o,
    ensures
        number(bits) == q * power2::pow2(k),
        exponent(bits) >= 1,
{
    let h: nat = 0x10_0000_0000_0000;
    if q < 2 * h {
        assert(bits as int / 0x10_0000_0000_0000 == 1023 + o);
        assert(exponent(bits) == 1023 + o);
        assert(fraction(bits) == q - h);
    } else {
        assert(bits as int / 0x10_0000_0000_0000 == 1024 + o);
        assert(exponent(bits) == 1024 + o);
        assert(fraction(bits) == 0);
        power2::lemma_pow2_unfold((k + 1) as nat);
        let p = power2::pow2(k);
        assert(h * (2 * p) == (2 * h) * p) by (nonlinear_arith);
    }
}

/// A step count off by any other is no nearer.
pub proof fn lemma_half_even(n: nat, d: nat, q: nat, j: int)
    requires
        d > 0,
        q == float_convert::half_even(n, d),
    ensures
        -(d as int) <= 2 * (q * d - n) <= d,
        ({
            let a = q * d - n;
            let b = j * d - n;
            (if a < 0 {
                -a
            } else {
                a
            }) <= (if b < 0 {
                -b
            } else {
                b
            })
        }),
        ({
            let a = q * d - n;
            let b = j * d - n;
            (a == -b && a != b) ==> q % 2 == 0
        }),
{
    let f = n / d;
    let r = n % d;
    assert(n == f * d + r && 0 <= r < d) by (nonlinear_arith)
        requires
            d > 0,
            f == n / d,
            r == n % d,
    ;
    assert((f + 1) * d == f * d + d) by (nonlinear_arith);
    if j <= f {
        assert(j * d <= f * d) by (nonlinear_arith)
            requires
                j <= f,
                d > 0,
        ;
        if j < f {
            assert(j * d <= f * d - d) by (nonlinear_arith)
                requires
                    j <= f - 1,
                    d > 0,
            ;
        }
    } else {
        assert(j * d >= f * d + d) by (nonlinear_arith)
            requires
                j >= f + 1,
                d > 0,
        ;
        if j > f + 1 {
            assert(j * d >= f * d + 2 * d) by (nonlinear_arith)
                requires
                    j >= f + 2,
                    d > 0,
            ;
        }
    }
}

proof fn lemma_order_bounds(n: nat)
    requires
        0 < n <= u64::MAX,
    ensures
        float_convert::order(n) <= 63,
        power2::pow2(float_convert::order(n)) <= n < 2 * power2::pow2(float_convert::order(n)),
{
    power2::lemma2_to64();
    power2::lemma2_to64_rest();
    float_convert::lemma_between(n);
    float_convert::lemma_order_below(n, 64);
}

/// Small numbers are converted exactly.
proof fn lemma_exact(n: nat)
    requires
        0 < n <= u64::MAX,
        float_convert::order(n) <= 52,
    ensures
        number(float_convert::nearest(n) as u64) == n * unit(),
{
    let o = float_convert::order(n);
    lemma_order_bounds(n);
    float_convert::lemma_nearest_fits(n);
    let s = power2::pow2((52 - o) as nat);
    let p = power2::pow2(o);
    power2::lemma_pow2_adds(o, (52 - o) as nat);
    power2::lemma2_to64();
    power2::lemma2_to64_rest();
    let q = n * s;
    assert(p * s <= q <= 2 * (p * s)) by (nonlinear_arith)
        requires
            p <= n < 2 * p,
            q == n * s,
            s >= 0,
    ;
    lemma_made(n, o, q, 1022 + o, float_convert::nearest(n) as u64);
    power2::lemma_pow2_adds((52 - o) as nat, 1022 + o);
    let w = power2::pow2(1022 + o);
    assert((n * s) * w == n * (s * w)) by (nonlinear_arith);
}

/// Where a double lies that is no multiple of a step.
proof fn lemma_off_grid(d: u64, o: nat)
    requires
        float_bits::finite(d),
        d < 0x8000_0000_0000_0000,
        52 < o <= 63,
    ensures
        exponent(d) >= 1023 + o ==> exists|j: int|
            j >= 0 && #[trigger] (j * power2::pow2(1022 + o)) == number(d),
        exponent(d) < 1023 + o ==> number(d) < 0x10_0000_0000_0000 * power2::pow2(1022 + o),
{
    let h: nat = 0x10_0000_0000_0000;
    let e = exponent(d);
    let w = power2::pow2(1022 + o);
    if e >= 1023 + o {
        let up = power2::pow2((e - 1023 - o) as nat);
        power2::lemma_pow2_adds((e - 1023 - o) as nat, 1022 + o);
        let m = h + fraction(d);
        assert(m * (up * w) == (m * up) * w) by (nonlinear_arith);
        let j = (m * up) as int;
        assert(j >= 0) by (nonlinear_arith)
            requires
                j == m * up,
                m >= 0,
                up >= 0,
        ;
        assert(j * w == number(d));
    } else {
        power2::lemma2_to64();
        if e == 0 {
            power2::lemma_pow2_pos(1022 + o);
            assert(h <= h * w) by (nonlinear_arith)
                requires
                    w >= 1,
            ;
        } else {
            let p = power2::pow2((e - 1) as nat);
            power2::lemma_pow2_pos((e - 1) as nat);
            power2::lemma_pow2_unfold(e);
            let f = fraction(d);
            assert((h + f) * p < h * (2 * p)) by (nonlinear_arith)
                requires
                    f < h,
                    p > 0,
            ;
            if e < 1022 + o {
                power2::lemma_pow2_strictly_increases(e, 1022 + o);
            }
            assert(h * (2 * p) <= h * w) by (nonlinear_arith)
                requires
                    2 * p <= w,
            ;
        }
    }
}

/// Large numbers are converted to the nearest of the steps.
proof fn lemma_rounded(n: nat, d: u64)
    requires
        0 < n <= u64::MAX,
        float_convert::order(n) > 52,
        float_bits::finite(d),
    ensures
        distance(float_convert::nearest(n) as u64, n as int) <= distance(d, n as int),
        distance(float_convert::nearest(n) as u64, n as int) == distance(d, n as int) && number(d)
            != number(float_convert::nearest(n) as u64) ==> float_convert::nearest(n) % 2 == 0,
{
    let h: nat = 0x10_0000_0000_0000;
    let o = float_convert::order(n);
    lemma_order_bounds(n);
    float_convert::lemma_nearest_fits(n);
    let step = power2::pow2((o - 52) as nat);
    power2::lemma_pow2_pos((o - 52) as nat);
    power2::lemma_pow2_adds(52, (o - 52) as nat);
    power2::lemma2_to64();
    power2::lemma2_to64_rest();
    assert(h * step == power2::pow2(o));
    float_convert::lemma_quotient(n, step, h);
    let q = float_convert::half_even(n, step);
    let bits = float_convert::nearest(n) as u64;
    lemma_made(n, o, q, 1022 + o, bits);
    let w = power2::pow2(1022 + o);
    let u = unit();
    power2::lemma_pow2_adds((o - 52) as nat, 1074);
    assert(w == step * u);
    power2::lemma_pow2_pos(1074);
    // Whatever multiple of the step another double is, or between which it lies.
    let x = number(d);
    if d >= 0x8000_0000_0000_0000 {
        lemma_below_zero(n, step, q, u, w, x);
        lemma_half_even(n, step, q, 0);
    } else {
        lemma_off_grid(d, o);
        if exponent(d) >= 1023 + o {
            let j = choose|j: int| j >= 0 && #[trigger] (j * w) == x;
            lemma_half_even(n, step, q, j);
            lemma_on_grid(n, step, q, j, u, w);
        } else {
            lemma_half_even(n, step, q, h as int);
            lemma_under(n, step, q, u, w, x, h);
        }
    }
    assert(bits as nat == (1022 + o) * h + q);
}

proof fn lemma_on_grid(n: nat, step: nat, q: nat, j: int, u: nat, w: nat)
    requires
        w == step * u,
        u > 0,
        ({
            let a = q * step - n;
            let b = j * step - n;
            (if a < 0 {
                -a
            } else {
                a
            }) <= (if b < 0 {
                -b
            } else {
                b
            })
        }),
        ({
            let a = q * step - n;
            let b = j * step - n;
            (a == -b && a != b) ==> q % 2 == 0
        }),
    ensures
        ({
            let a = q * w - n * u;
            let b = j * w - n * u;
            (if a < 0 {
                -a
            } else {
                a
            }) <= (if b < 0 {
                -b
            } else {
                b
            })
        }),
        ({
            let a = q * w - n * u;
            let b = j * w - n * u;
            (if a < 0 {
                -a
            } else {
                a
            }) == (if b < 0 {
                -b
            } else {
                b
            }) && a != b ==> q % 2 == 0
        }),
{
    let a = q * step - n;
    let b = j * step - n;
    assert(q * w - n * u == a * u) by (nonlinear_arith)
        requires
            w == step * u,
            a == q * step - n,
    ;
    assert(j * w - n * u == b * u) by (nonlinear_arith)
        requires
            w == step * u,
            b == j * step - n,
    ;
    let aa = if a < 0 {
        -a
    } else {
        a
    };
    let bb = if b < 0 {
        -b
    } else {
        b
    };
    assert((if a * u < 0 {
        -(a * u)
    } else {
        a * u
    }) == aa * u) by (nonlinear_arith)
        requires
            u > 0,
            aa == (if a < 0 {
                -a
            } else {
                a
            }),
    ;
    assert((if b * u < 0 {
        -(b * u)
    } else {
        b * u
    }) == bb * u) by (nonlinear_arith)
        requires
            u > 0,
            bb == (if b < 0 {
                -b
            } else {
                b
            }),
    ;
    assert(aa * u <= bb * u) by (nonlinear_arith)
        requires
            aa <= bb,
            u > 0,
    ;
    if aa * u == bb * u {
        assert(aa == bb) by (nonlinear_arith)
            requires
                aa * u == bb * u,
                u > 0,
        ;
    }
}

proof fn lemma_under(n: nat, step: nat, q: nat, u: nat, w: nat, x: int, h: nat)
    requires
        w == step * u,
        u > 0,
        x < h * w,
        h * step <= n,
        ({
            let a = q * step - n;
            let b = h * step - n;
            (if a < 0 {
                -a
            } else {
                a
            }) <= (if b < 0 {
                -b
            } else {
                b
            })
        }),
    ensures
        ({
            let a = q * w - n * u;
            (if a < 0 {
                -a
            } else {
                a
            }) < n * u - x
        }),
{
    let a = q * step - n;
    let g = n - h * step;
    assert(q * w - n * u == a * u) by (nonlinear_arith)
        requires
            w == step * u,
            a == q * step - n,
    ;
    assert(n * u - h * w == g * u) by (nonlinear_arith)
        requires
            w == step * u,
            g == n - h * step,
    ;
    let aa = if a < 0 {
        -a
    } else {
        a
    };
    assert((if a * u < 0 {
        -(a * u)
    } else {
        a * u
    }) == aa * u) by (nonlinear_arith)
        requires
            u > 0,
            aa == (if a < 0 {
                -a
            } else {
                a
            }),
    ;
    assert(aa * u <= g * u) by (nonlinear_arith)
        requires
            aa <= g,
            u > 0,
    ;
}

proof fn lemma_below_zero(n: nat, step: nat, q: nat, u: nat, w: nat, x: int)
    requires
        step > 0,
        w == step * u,
        u > 0,
        x <= 0,
        n > 0,
        q == float_convert::half_even(n, step),
        0x10_0000_0000_0000 * step <= n,
    ensures
        ({
            let a = q * w - n * u;
            (if a < 0 {
                -a
            } else {
                a
            }) < n * u - x
        }),
{
    lemma_half_even(n, step, q, 1);
    assert(step < n) by (nonlinear_arith)
        requires
            0x10_0000_0000_0000 * step <= n,
            step > 0,
    ;
    let a = q * step - n;
    let aa = if a < 0 {
        -a
    } else {
        a
    };
    assert(q * w - n * u == a * u) by (nonlinear_arith)
        requires
            w == step * u,
            a == q * step - n,
    ;
    assert((if a * u < 0 {
        -(a * u)
    } else {
        a * u
    }) == aa * u) by (nonlinear_arith)
        requires
            u > 0,
            aa == (if a < 0 {
                -a
            } else {
                a
            }),
    ;
    assert(aa * u < n * u) by (nonlinear_arith)
        requires
            aa < n,
            u > 0,
    ;
}

/// No double is nearer to a whole number than the one that it is converted to;
/// where another is as near, the last bit of the chosen one is zero.
pub proof fn law_nearest_is_nearest(n: nat, d: u64)
    requires
        n <= u64::MAX,
        float_bits::finite(d),
    ensures
        float_convert::nearest(n) <= u64::MAX,
        float_bits::finite(float_convert::nearest(n) as u64),
        distance(float_convert::nearest(n) as u64, n as int) <= distance(d, n as int),
        distance(float_convert::nearest(n) as u64, n as int) == distance(d, n as int) && number(d)
            != number(float_convert::nearest(n) as u64) ==> float_convert::nearest(n) % 2 == 0,
{
    float_convert::lemma_nearest_fits(n);
    if n == 0 {
        assert(number(0) == 0);
        assert(0 * unit() == 0);
    } else if float_convert::order(n) <= 52 {
        lemma_exact(n);
    } else {
        lemma_rounded(n, d);
    }
}

/// The same for whole numbers below zero: the sign is the highest bit, and the
/// rest is the conversion of the number without its sign.
pub proof fn law_nearest_below_zero(n: int, d: u64)
    requires
        -0x8000_0000_0000_0000 <= n < 0,
        float_bits::finite(d),
    ensures
        float_convert::nearest_signed(n) <= u64::MAX,
        float_convert::nearest_signed(n) >= 0x8000_0000_0000_0000,
        float_bits::finite(float_convert::nearest_signed(n) as u64),
        distance(float_convert::nearest_signed(n) as u64, n) <= distance(d, n),
{
    let m = (-n) as nat;
    let other = if d >= 0x8000_0000_0000_0000 {
        (d - 0x8000_0000_0000_0000) as u64
    } else {
        (d + 0x8000_0000_0000_0000) as u64
    };
    if d >= 0x8000_0000_0000_0000 {
        lemma_size_of_sign(d);
    } else {
        lemma_size_of_sign(other);
    }
    assert(number(other) == -number(d));
    law_nearest_is_nearest(m, other);
    float_convert::lemma_nearest_fits(m);
    let made = float_convert::nearest_signed(n) as u64;
    lemma_size_of_sign(made);
    assert((-n) * unit() == -(n * unit())) by (nonlinear_arith);
}

} // verus!
