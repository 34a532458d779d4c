//! Real numbers in the IEEE 754 binary64 format, by their encodings: how
//! they compare, and what whole number a channel of a colour comes to.
//!
//! Arithmetic on such numbers is left to the hardware and to the caller.
//! What a render decides by comparing them is decided here, on the 64 bits
//! of each number: a sign bit above 63 bits of magnitude, which hold eleven
//! bits of exponent above 52 bits of fraction. The encodings whose magnitude
//! lies above that of infinity are no numbers, and compare to nothing.

use vstd::arithmetic::power2::{
    lemma2_to64,
    lemma2_to64_rest,
    lemma_pow2_pos,
    lemma_pow2_strictly_increases,
    pow2,
};
use vstd::bits::lemma_u64_shr_is_div;
use vstd::prelude::*;

verus! {

/// The sign bit.
pub const SIGN: u64 = 0x8000_0000_0000_0000;

/// The bits of the magnitude.
pub const MAGNITUDE: u64 = 0x7fff_ffff_ffff_ffff;

/// The magnitude of infinity: every bit of the exponent, none of the
/// fraction.
pub const INFINITY: u64 = 0x7ff0_0000_0000_0000;

/// The bits of the fraction.
pub const FRACTION: u64 = 0x000f_ffff_ffff_ffff;

/// The encoding of zero.
pub const ZERO: u64 = 0;

/// The encoding of one.
pub const ONE: u64 = 0x3ff0_0000_0000_0000;

/// The magnitude of an encoding: exponent and fraction, as one number.
pub open spec fn magnitude(bits: u64) -> u64 {
    bits & MAGNITUDE
}

/// The encoding has its sign bit set.
pub open spec fn is_negative(bits: u64) -> bool {
    bits & SIGN != 0
}

/// The encoding is of no number.
pub open spec fn is_nan(bits: u64) -> bool {
    magnitude(bits) > INFINITY
}

/// The place of an encoding on the number line: numbers compare as their
/// places do. A larger magnitude lies further from zero, on the side that
/// the sign names, and the two zeros share a place.
pub open spec fn ordinal(bits: u64) -> int {
    if is_negative(bits) {
        -(magnitude(bits) as int)
    } else {
        magnitude(bits) as int
    }
}

/// The number encoded by `a` is less than that encoded by `b`. Nothing is
/// less than, or has less than it, what is no number.
pub open spec fn less_than(a: u64, b: u64) -> bool {
    !is_nan(a) && !is_nan(b) && ordinal(a) < ordinal(b)
}

/// The order key of an encoding: its place, moved up so as to be unsigned.
/// What is no number has none.
pub open spec fn key_of(bits: u64) -> Option<u64> {
    if is_nan(bits) {
        None
    } else {
        Some((ordinal(bits) + SIGN) as u64)
    }
}

/// Among numbers, keys compare as the numbers do.
pub proof fn lemma_keys_order(a: u64, b: u64)
    requires
        !is_nan(a),
        !is_nan(b),
    ensures
        key_of(a).unwrap() < key_of(b).unwrap() <==> less_than(a, b),
        key_of(a) == key_of(b) <==> ordinal(a) == ordinal(b),
{
    assert(a & MAGNITUDE <= MAGNITUDE) by (bit_vector);
    assert(b & MAGNITUDE <= MAGNITUDE) by (bit_vector);
}

/// The encoding of the number of the same magnitude and the other sign.
pub open spec fn negated(bits: u64) -> u64 {
    bits ^ SIGN
}

/// Changing the sign mirrors the place at zero, and leaves what is no
/// number no number.
pub proof fn lemma_negated(bits: u64)
    ensures
        magnitude(negated(bits)) == magnitude(bits),
        is_negative(negated(bits)) == !is_negative(bits),
        ordinal(negated(bits)) == -ordinal(bits),
        is_nan(negated(bits)) == is_nan(bits),
        negated(negated(bits)) == bits,
{
    assert((bits ^ SIGN) & MAGNITUDE == bits & MAGNITUDE) by (bit_vector);
    assert(((bits ^ SIGN) & SIGN != 0) == !(bits & SIGN != 0)) by (bit_vector);
    assert((bits ^ SIGN) ^ SIGN == bits) by (bit_vector);
}

/// Changes the sign of a number.
pub fn negate(bits: u64) -> (r: u64)
    ensures
        r == negated(bits),
{
    bits ^ SIGN
}

/// Computes the order key of an encoding.
pub fn order_key(bits: u64) -> (key: Option<u64>)
    ensures
        key == key_of(bits),
{
    assert(bits & MAGNITUDE <= MAGNITUDE) by (bit_vector);
    let mag: u64 = bits & MAGNITUDE;
    if mag > INFINITY {
        None
    } else if bits & SIGN != 0 {
        Some(SIGN - mag)
    } else {
        Some(SIGN + mag)
    }
}

/// Whether the number encoded by `a` is less than that encoded by `b`.
pub fn less(a: u64, b: u64) -> (r: bool)
    ensures
        r == less_than(a, b),
{
    proof {
        if !is_nan(a) && !is_nan(b) {
            lemma_keys_order(a, b);
        }
    }
    match (order_key(a), order_key(b)) {
        (Some(x), Some(y)) => x < y,
        _ => false,
    }
}

/// A number held between two bounds: `min` where the number is less than
/// it, else `max` where the number is greater, else the number itself. What
/// is no number stays as it is.
pub open spec fn clamped(num: u64, min: u64, max: u64) -> u64 {
    if less_than(num, min) {
        min
    } else if less_than(max, num) {
        max
    } else {
        num
    }
}

/// Holds a number between two bounds.
pub fn clamp(num: u64, min: u64, max: u64) -> (r: u64)
    ensures
        r == clamped(num, min, max),
{
    if less(num, min) {
        min
    } else if less(max, num) {
        max
    } else {
        num
    }
}

/// The smaller of two numbers; where one of the two is no number, the
/// other.
pub open spec fn smaller_of(a: u64, b: u64) -> u64 {
    if is_nan(a) {
        b
    } else if is_nan(b) {
        a
    } else if less_than(b, a) {
        b
    } else {
        a
    }
}

/// Computes the smaller of two numbers.
pub fn smaller(a: u64, b: u64) -> (r: u64)
    ensures
        r == smaller_of(a, b),
{
    match (order_key(a), order_key(b)) {
        (None, _) => b,
        (_, None) => a,
        (Some(x), Some(y)) => {
            proof {
                lemma_keys_order(b, a);
            }
            if y < x {
                b
            } else {
                a
            }
        },
    }
}

/// The exponent field of an encoding.
pub open spec fn exponent(bits: u64) -> nat {
    (magnitude(bits) / 0x10_0000_0000_0000) as nat
}

/// The fraction field of an encoding.
pub open spec fn fraction(bits: u64) -> nat {
    (magnitude(bits) % 0x10_0000_0000_0000) as nat
}

/// The significand of a finite number, as a whole number: the fraction,
/// with the leading bit that a normal number has above it.
pub open spec fn significand(bits: u64) -> nat {
    if exponent(bits) == 0 {
        fraction(bits)
    } else {
        0x10_0000_0000_0000 + fraction(bits)
    }
}

/// The power of two that a finite number's significand is scaled by, such
/// that the number's magnitude is `significand * 2^(scale - 1075)`.
pub open spec fn scale(bits: u64) -> nat {
    if exponent(bits) == 0 {
        1
    } else {
        exponent(bits)
    }
}

/// The whole part of 256 times the magnitude of a number.
pub open spec fn whole_of_256_times(bits: u64) -> nat {
    if scale(bits) <= 1067 {
        significand(bits) / pow2((1067 - scale(bits)) as nat)
    } else {
        significand(bits) * pow2((scale(bits) - 1067) as nat)
    }
}

/// The channel value of a number: 256 times the number, cut down to its
/// whole part and held within a byte. What is below zero gives 0, what is
/// no number too, and what comes to 255 or more gives 255.
pub open spec fn byte_of(bits: u64) -> u8 {
    if is_nan(bits) || is_negative(bits) {
        0
    } else if whole_of_256_times(bits) >= 255 {
        255
    } else {
        whole_of_256_times(bits) as u8
    }
}

/// Computes the channel value of a number.
pub fn to_byte_rgb(bits: u64) -> (byte: u8)
    ensures
        byte == byte_of(bits),
{
    assert(bits & MAGNITUDE <= MAGNITUDE) by (bit_vector);
    let mag: u64 = bits & MAGNITUDE;
    if mag > INFINITY || bits & SIGN != 0 {
        return 0;
    }
    let e: u64 = mag >> 52;
    let f: u64 = mag & FRACTION;
    assert(e == mag / 0x10_0000_0000_0000 && f == mag % 0x10_0000_0000_0000) by (bit_vector)
        requires
            e == mag >> 52,
            f == mag & FRACTION,
    ;
    proof {
        lemma2_to64();
        lemma2_to64_rest();
    }
    if mag >= ONE {
        proof {
            let m = significand(bits);
            let sc = scale(bits);
            assert(sc >= 1023);
            assert(m >= 0x10_0000_0000_0000);
            if sc <= 1067 {
                let shift = (1067 - sc) as nat;
                if shift < 44 {
                    lemma_pow2_strictly_increases(shift, 44);
                }
                lemma_pow2_pos(shift);
                assert(m / pow2(shift) >= 256) by (nonlinear_arith)
                    requires
                        m >= 0x10_0000_0000_0000,
                        0 < pow2(shift) <= 0x1000_0000_0000,
                ;
            } else {
                let up = (sc - 1067) as nat;
                lemma_pow2_pos(up);
                assert(m * pow2(up) >= m) by (nonlinear_arith)
                    requires
                        pow2(up) >= 1,
                ;
            }
        }
        return 255;
    }
    if e < 1015 {
        proof {
            let m = significand(bits);
            let shift = (1067 - scale(bits)) as nat;
            assert(shift >= 53);
            if shift > 53 {
                lemma_pow2_strictly_increases(53, shift);
            }
            assert(m / pow2(shift) == 0) by (nonlinear_arith)
                requires
                    m < 0x20_0000_0000_0000,
                    pow2(shift) >= 0x20_0000_0000_0000,
            ;
        }
        return 0;
    }
    let m: u64 = f + 0x10_0000_0000_0000;
    let shift: u64 = 1067 - e;
    assert((m >> shift) < 256) by (bit_vector)
        requires
            m < 0x20_0000_0000_0000,
            45 <= shift <= 52,
    ;
    proof {
        lemma_u64_shr_is_div(m, shift);
    }
    let whole: u64 = m >> shift;
    whole as u8
}

/// Three numbers: a point, a direction or a colour.
#[derive(Clone, Copy, Debug, PartialEq, Eq, Structural)]
pub struct Triple {
    pub x: u64,
    pub y: u64,
    pub z: u64,
}

/// The direction opposite to `v`.
pub open spec fn reversed(v: Triple) -> Triple {
    Triple { x: negated(v.x), y: negated(v.y), z: negated(v.z) }
}

} // verus!
