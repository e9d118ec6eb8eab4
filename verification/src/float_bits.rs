//! IEEE-754 numbers by their bit patterns.
//!
//! A double is held as the `u64` that `to_bits` gives for it. Sign, order,
//! zero, infinity and NaN are all decided on that integer: the low 63 bits are
//! the magnitude, and the magnitudes of two numbers compare as the numbers do.

use vstd::prelude::*;

verus! {

/// The sign bit of a double.
pub const SIGN: u64 = 0x8000_0000_0000_0000;

/// The bits of positive infinity; every larger magnitude is a NaN.
pub const INFINITY: u64 = 0x7ff0_0000_0000_0000;

/// The bits of the quiet NaN with an empty payload.
pub const NAN: u64 = 0x7ff8_0000_0000_0000;

/// The bits without the sign.
pub open spec fn magnitude(bits: u64) -> int {
    if bits >= SIGN {
        bits - SIGN
    } else {
        bits as int
    }
}

/// Whether the number is neither infinite nor NaN.
pub open spec fn finite(bits: u64) -> bool {
    magnitude(bits) < INFINITY
}

/// Whether the bits stand for no number.
pub open spec fn nan(bits: u64) -> bool {
    magnitude(bits) > INFINITY
}

/// Whether the number is `0.0` or `-0.0`.
pub open spec fn zero(bits: u64) -> bool {
    magnitude(bits) == 0
}

/// An integer that orders numbers as the numbers themselves are ordered:
/// both zeros map to `0`, negative numbers below it, positive ones above.
pub open spec fn order_key(bits: u64) -> int {
    if bits >= SIGN {
        -magnitude(bits)
    } else {
        magnitude(bits)
    }
}

/// `a < b` on the numbers; false when either is a NaN.
pub open spec fn less(a: u64, b: u64) -> bool {
    !nan(a) && !nan(b) && order_key(a) < order_key(b)
}

/// `a <= b` on the numbers; false when either is a NaN.
pub open spec fn at_most(a: u64, b: u64) -> bool {
    !nan(a) && !nan(b) && order_key(a) <= order_key(b)
}

/// `a == b` on the numbers: both zeros are the same, and a NaN is unlike every
/// number and itself.
pub open spec fn same_number(a: u64, b: u64) -> bool {
    !nan(a) && !nan(b) && order_key(a) == order_key(b)
}

/// [`same_number`] where a number may be missing.
pub open spec fn same_optional(a: Option<u64>, b: Option<u64>) -> bool {
    match (a, b) {
        (None, None) => true,
        (Some(x), Some(y)) => same_number(x, y),
        _ => false,
    }
}

/// [`same_number`] of two runs, place by place.
pub open spec fn same_numbers(a: Seq<u64>, b: Seq<u64>) -> bool {
    a.len() == b.len() && forall|i: int|
        0 <= i < a.len() ==> same_number(#[trigger] a[i], b[i])
}

/// The bits of a single without the sign.
pub open spec fn single_magnitude(bits: u32) -> int {
    if bits >= 0x8000_0000 {
        bits - 0x8000_0000
    } else {
        bits as int
    }
}

/// `a == b` on two singles.
pub open spec fn same_single(a: u32, b: u32) -> bool {
    &&& single_magnitude(a) <= 0x7f80_0000
    &&& single_magnitude(b) <= 0x7f80_0000
    &&& a == b || (single_magnitude(a) == 0 && single_magnitude(b) == 0)
}

/// The bits of `-|x|`.
pub open spec fn negative_of(bits: u64) -> u64 {
    if bits >= SIGN {
        bits
    } else {
        (bits + SIGN) as u64
    }
}

/// Two numbers are the same exactly where each is at most the other.
pub proof fn law_same_numbers(a: u64, b: u64)
    ensures
        same_number(a, b) <==> at_most(a, b) && at_most(b, a),
{
}

/// The order on numbers that are not NaN is total.
pub proof fn law_order_is_total(a: u64, b: u64)
    requires
        !nan(a),
        !nan(b),
    ensures
        at_most(a, b) || at_most(b, a),
        less(a, b) <==> !at_most(b, a),
{
}

pub fn mag(bits: u64) -> (r: u64)
    ensures
        r == magnitude(bits),
{
    if bits >= SIGN {
        bits - SIGN
    } else {
        bits
    }
}

pub fn is_finite(bits: u64) -> (r: bool)
    ensures
        r == finite(bits),
{
    mag(bits) < INFINITY
}

pub fn is_nan(bits: u64) -> (r: bool)
    ensures
        r == nan(bits),
{
    mag(bits) > INFINITY
}

pub fn is_zero(bits: u64) -> (r: bool)
    ensures
        r == zero(bits),
{
    mag(bits) == 0
}

pub fn is_less(a: u64, b: u64) -> (r: bool)
    ensures
        r == less(a, b),
{
    if is_nan(a) || is_nan(b) {
        return false;
    }
    if a >= SIGN {
        if b >= SIGN {
            mag(b) < mag(a)
        } else {
            mag(a) > 0 || mag(b) > 0
        }
    } else {
        b < SIGN && a < b
    }
}

pub fn is_at_most(a: u64, b: u64) -> (r: bool)
    ensures
        r == at_most(a, b),
{
    if is_nan(a) || is_nan(b) {
        false
    } else {
        !is_less(b, a)
    }
}

pub fn is_same_number(a: u64, b: u64) -> (r: bool)
    ensures
        r == same_number(a, b),
{
    !is_nan(a) && !is_nan(b) && (a == b || (is_zero(a) && is_zero(b)))
}

pub fn is_same_optional(a: Option<u64>, b: Option<u64>) -> (r: bool)
    ensures
        r == same_optional(a, b),
{
    match a {
        None => b.is_none(),
        Some(x) => match b {
            None => false,
            Some(y) => is_same_number(x, y),
        },
    }
}

pub fn are_same_numbers(a: &[u64], b: &[u64]) -> (r: bool)
    ensures
        r == same_numbers(a@, b@),
{
    if a.len() != b.len() {
        return false;
    }
    let mut i: usize = 0;
    while i < a.len()
        invariant
            i <= a@.len() == b@.len(),
            forall|k: int| 0 <= k < i ==> same_number(#[trigger] a@[k], b@[k]),
        decreases a@.len() - i,
    {
        if !is_same_number(a[i], b[i]) {
            assert(!same_number(a@[i as int], b@[i as int]));
            return false;
        }
        i = i + 1;
    }
    true
}

fn single_mag(bits: u32) -> (r: u32)
    ensures
        r == single_magnitude(bits),
{
    if bits >= 0x8000_0000 {
        bits - 0x8000_0000
    } else {
        bits
    }
}

pub fn is_same_single(a: u32, b: u32) -> (r: bool)
    ensures
        r == same_single(a, b),
{
    single_mag(a) <= 0x7f80_0000 && single_mag(b) <= 0x7f80_0000 && (a == b || (single_mag(a) == 0
        && single_mag(b) == 0))
}

/// The bits of `-|x|`.
pub fn negated_abs(bits: u64) -> (r: u64)
    ensures
        r == negative_of(bits),
{
    if bits >= SIGN {
        bits
    } else {
        bits + SIGN
    }
}

} // verus!
