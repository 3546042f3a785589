//! Numbers with a fraction, worked on by the bits of their IEEE-754 form:
//! how they compare, and how they turn into integers and into each other.
//! A single precision number is given by 32 bits, a double precision
//! number by 64; of both the highest bit is the sign, the next 8 or 11 bits
//! the exponent, and the rest the fraction.

use vstd::prelude::*;

verus! {

/// The sign bit of a double precision number.
pub const DOUBLE_SIGN: u64 = 0x8000_0000_0000_0000;

/// The bits of the exponent of a double precision number.
pub const DOUBLE_EXPONENT: u64 = 0x7ff0_0000_0000_0000;

/// The bits of the fraction of a double precision number.
pub const DOUBLE_FRACTION: u64 = 0x000f_ffff_ffff_ffff;

/// The bit that stands in front of the fraction of a double precision number.
pub const DOUBLE_HIDDEN: u64 = 0x0010_0000_0000_0000;

/// The sign bit of a single precision number.
pub const REAL_SIGN: u32 = 0x8000_0000;

/// The bits of the exponent of a single precision number.
pub const REAL_EXPONENT: u32 = 0x7f80_0000;

/// The bits of the fraction of a single precision number.
pub const REAL_FRACTION: u32 = 0x007f_ffff;

/// Double precision one.
pub const DOUBLE_ONE: u64 = 0x3ff0_0000_0000_0000;

/// Whether the bits are no number.
pub open spec fn double_is_nan(bits: u64) -> bool {
    bits & DOUBLE_EXPONENT == DOUBLE_EXPONENT && bits & DOUBLE_FRACTION != 0
}

/// Whether the bits are zero, of either sign.
pub open spec fn double_is_zero(bits: u64) -> bool {
    bits & !DOUBLE_SIGN == 0
}

/// Whether the sign bit is set.
pub open spec fn double_is_negative(bits: u64) -> bool {
    bits & DOUBLE_SIGN != 0
}

/// Whether two double precision numbers are equal: neither is no
/// number, and they have the same bits or are both zero.
pub open spec fn double_equal(a: u64, b: u64) -> bool {
    !double_is_nan(a) && !double_is_nan(b) && (a == b || (double_is_zero(a) && double_is_zero(b)))
}

/// Whether one double precision number is less than another.
pub open spec fn double_less(a: u64, b: u64) -> bool {
    !double_is_nan(a) && !double_is_nan(b) && !(double_is_zero(a) && double_is_zero(b)) && (
    if double_is_negative(a) != double_is_negative(b) {
        double_is_negative(a)
    } else if double_is_negative(a) {
        a > b
    } else {
        a < b
    })
}

pub fn is_double_nan(bits: u64) -> (r: bool)
    ensures
        r == double_is_nan(bits),
{
    bits & DOUBLE_EXPONENT == DOUBLE_EXPONENT && bits & DOUBLE_FRACTION != 0
}

pub fn is_double_zero(bits: u64) -> (r: bool)
    ensures
        r == double_is_zero(bits),
{
    bits & !DOUBLE_SIGN == 0
}

pub fn doubles_equal(a: u64, b: u64) -> (r: bool)
    ensures
        r == double_equal(a, b),
{
    !is_double_nan(a) && !is_double_nan(b) && (a == b || (is_double_zero(a) && is_double_zero(b)))
}

pub fn double_is_less(a: u64, b: u64) -> (r: bool)
    ensures
        r == double_less(a, b),
{
    if is_double_nan(a) || is_double_nan(b) {
        return false;
    }
    if is_double_zero(a) && is_double_zero(b) {
        return false;
    }
    let a_negative = a & DOUBLE_SIGN != 0;
    let b_negative = b & DOUBLE_SIGN != 0;
    if a_negative != b_negative {
        a_negative
    } else if a_negative {
        a > b
    } else {
        a < b
    }
}

/// The position of the highest bit that is set; zero for zero.
pub open spec fn top_bit(a: u64) -> nat
    decreases a,
{
    if a <= 1 {
        0
    } else {
        1 + top_bit(a / 2)
    }
}

pub proof fn lemma_top_bit_bound(a: u64)
    ensures
        top_bit(a) <= 63,
{
    reveal_with_fuel(top_bit, 65);
}

pub proof fn lemma_top_bit_small(a: u64, limit: nat)
    requires
        limit <= 63,
        a < vstd::arithmetic::power2::pow2(limit + 1),
    ensures
        top_bit(a) <= limit,
    decreases limit,
{
    vstd::arithmetic::power2::lemma2_to64();
    vstd::arithmetic::power2::lemma_pow2_unfold(limit + 1);
    if a > 1 {
        if limit == 0 {
            assert(vstd::arithmetic::power2::pow2(1) == 2);
        } else {
            lemma_top_bit_small(a / 2, (limit - 1) as nat);
        }
    }
}

/// A number lies between the power of two of its highest bit and the next.
pub proof fn lemma_top_bit_above(a: u64)
    requires
        a >= 1,
    ensures
        vstd::arithmetic::power2::pow2(top_bit(a)) <= a < vstd::arithmetic::power2::pow2(top_bit(a) + 1),
    decreases a,
{
    vstd::arithmetic::power2::lemma2_to64();
    if a > 1 {
        lemma_top_bit_above(a / 2);
        vstd::arithmetic::power2::lemma_pow2_unfold(top_bit(a));
        vstd::arithmetic::power2::lemma_pow2_unfold(top_bit(a) + 1);
    }
}

/// The position of the highest bit that is set.
pub fn find_top_bit(a: u64) -> (p: u32)
    ensures
        p == top_bit(a),
        p <= 63,
{
    let mut p: u32 = 0;
    let mut t: u64 = a;
    proof {
        lemma_top_bit_bound(a);
    }
    while t > 1
        invariant
            top_bit(a) == p + top_bit(t),
            top_bit(a) <= 63,
        decreases t,
    {
        t = t / 2;
        p = p + 1;
    }
    p
}

/// The bits of the double precision number that equals a single
/// precision number.
pub open spec fn real_to_double(bits: u32) -> u64 {
    let sign: u64 = if bits & REAL_SIGN != 0 {
        DOUBLE_SIGN
    } else {
        0
    };
    let exponent: u64 = ((bits & REAL_EXPONENT) >> 23) as u64;
    let fraction: u64 = (bits & REAL_FRACTION) as u64;
    if exponent == 0xff {
        if fraction == 0 {
            sign | DOUBLE_EXPONENT
        } else {
            sign | DOUBLE_EXPONENT | 0x0008_0000_0000_0000 | (fraction << 29)
        }
    } else if exponent == 0 {
        if fraction == 0 {
            sign
        } else {
            let p = top_bit(fraction) as u64;
            sign | (((p + 874) as u64) << 52) | ((fraction << ((52 - p) as u64)) & DOUBLE_FRACTION)
        }
    } else {
        sign | (((exponent + 896) as u64) << 52) | (fraction << 29)
    }
}

/// Widens a single precision number to double precision.
pub fn widen(bits: u32) -> (r: u64)
    ensures
        r == real_to_double(bits),
{
    let sign: u64 = if bits & REAL_SIGN != 0 {
        DOUBLE_SIGN
    } else {
        0
    };
    let exponent: u64 = ((bits & REAL_EXPONENT) >> 23) as u64;
    let fraction: u64 = (bits & REAL_FRACTION) as u64;
    assert(exponent <= 0xff) by (bit_vector)
        requires
            exponent == ((bits & 0x7f80_0000u32) >> 23) as u64,
    ;
    if exponent == 0xff {
        if fraction == 0 {
            sign | DOUBLE_EXPONENT
        } else {
            sign | DOUBLE_EXPONENT | 0x0008_0000_0000_0000 | (fraction << 29)
        }
    } else if exponent == 0 {
        if fraction == 0 {
            sign
        } else {
            let p = find_top_bit(fraction) as u64;
            proof {
                assert(fraction <= 0x7f_ffff) by (bit_vector)
                    requires
                        fraction == (bits & 0x007f_ffffu32) as u64,
                ;
                vstd::arithmetic::power2::lemma2_to64();
                lemma_top_bit_small(fraction, 22);
            }
            sign | ((p + 874) << 52) | ((fraction << (52 - p)) & DOUBLE_FRACTION)
        }
    } else {
        sign | ((exponent + 896) << 52) | (fraction << 29)
    }
}

/// The magnitude of an integer.
pub open spec fn magnitude(v: i64) -> u64 {
    if v < 0 {
        (-v) as u64
    } else {
        v as u64
    }
}

/// The bits of the double precision number that equals an integer.
pub open spec fn int_to_double(v: i32) -> u64 {
    if v == 0 {
        0
    } else {
        let a = magnitude(v as i64);
        let p = top_bit(a) as u64;
        (if v < 0 {
            DOUBLE_SIGN
        } else {
            0
        }) | (((p + 1023) as u64) << 52) | ((a << ((52 - p) as u64)) & DOUBLE_FRACTION)
    }
}

/// The double precision number that equals an integer.
pub fn double_of_int(v: i32) -> (r: u64)
    ensures
        r == int_to_double(v),
{
    if v == 0 {
        return 0;
    }
    let wide: i64 = v as i64;
    let a: u64 = if wide < 0 {
        (-wide) as u64
    } else {
        wide as u64
    };
    let p = find_top_bit(a) as u64;
    proof {
        vstd::arithmetic::power2::lemma2_to64();
        lemma_top_bit_small(a, 31);
    }
    let sign: u64 = if v < 0 {
        DOUBLE_SIGN
    } else {
        0
    };
    sign | ((p + 1023) << 52) | ((a << (52 - p)) & DOUBLE_FRACTION)
}

/// The integer that a double precision number turns into: its whole
/// part, or the nearest integer of 32 bits where that does not fit; zero
/// for no number.
pub open spec fn double_to_int(bits: u64) -> i32 {
    let exponent: u64 = (bits & DOUBLE_EXPONENT) >> 52;
    let whole: u64 = (bits & DOUBLE_FRACTION) | DOUBLE_HIDDEN;
    if double_is_nan(bits) || exponent < 1023 {
        0
    } else if exponent >= 1054 {
        if double_is_negative(bits) {
            i32::MIN
        } else {
            i32::MAX
        }
    } else {
        let m: u64 = whole >> ((1075 - exponent) as u64);
        if double_is_negative(bits) {
            (-(m as int)) as i32
        } else {
            m as i32
        }
    }
}

/// Turns a double precision number into an integer of 32 bits.
pub fn int_of_double(bits: u64) -> (r: i32)
    ensures
        r == double_to_int(bits),
{
    let exponent: u64 = (bits & DOUBLE_EXPONENT) >> 52;
    let whole: u64 = (bits & DOUBLE_FRACTION) | DOUBLE_HIDDEN;
    if is_double_nan(bits) || exponent < 1023 {
        0
    } else if exponent >= 1054 {
        if bits & DOUBLE_SIGN != 0 {
            i32::MIN
        } else {
            i32::MAX
        }
    } else {
        let shift: u64 = 1075 - exponent;
        let m: u64 = whole >> shift;
        assert(m < 0x8000_0000) by (bit_vector)
            requires
                m == ((bits & 0x000f_ffff_ffff_ffffu64) | 0x0010_0000_0000_0000u64) >> shift,
                22 <= shift <= 52,
        ;
        if bits & DOUBLE_SIGN != 0 {
            -(m as i32)
        } else {
            m as i32
        }
    }
}

/// The integer of 64 bits that a double precision number turns into.
pub open spec fn double_to_long(bits: u64) -> i64 {
    let exponent: u64 = (bits & DOUBLE_EXPONENT) >> 52;
    let whole: u64 = (bits & DOUBLE_FRACTION) | DOUBLE_HIDDEN;
    if double_is_nan(bits) || exponent < 1023 {
        0
    } else if exponent >= 1086 {
        if double_is_negative(bits) {
            i64::MIN
        } else {
            i64::MAX
        }
    } else {
        let m: u64 = if exponent >= 1075 {
            whole << ((exponent - 1075) as u64)
        } else {
            whole >> ((1075 - exponent) as u64)
        };
        if double_is_negative(bits) {
            (-(m as int)) as i64
        } else {
            m as i64
        }
    }
}

/// Turns a double precision number into an integer of 64 bits.
pub fn long_of_double(bits: u64) -> (r: i64)
    ensures
        r == double_to_long(bits),
{
    let exponent: u64 = (bits & DOUBLE_EXPONENT) >> 52;
    let whole: u64 = (bits & DOUBLE_FRACTION) | DOUBLE_HIDDEN;
    if is_double_nan(bits) || exponent < 1023 {
        0
    } else if exponent >= 1086 {
        if bits & DOUBLE_SIGN != 0 {
            i64::MIN
        } else {
            i64::MAX
        }
    } else {
        let m: u64 = if exponent >= 1075 {
            let shift: u64 = exponent - 1075;
            let m: u64 = whole << shift;
            assert(m < 0x8000_0000_0000_0000) by (bit_vector)
                requires
                    m == ((bits & 0x000f_ffff_ffff_ffffu64) | 0x0010_0000_0000_0000u64) << shift,
                    shift <= 10,
            ;
            m
        } else {
            let shift: u64 = 1075 - exponent;
            let m: u64 = whole >> shift;
            assert(m < 0x8000_0000_0000_0000) by (bit_vector)
                requires
                    m == ((bits & 0x000f_ffff_ffff_ffffu64) | 0x0010_0000_0000_0000u64) >> shift,
                    1 <= shift <= 52,
            ;
            m
        };
        if bits & DOUBLE_SIGN != 0 {
            -(m as i64)
        } else {
            m as i64
        }
    }
}

/// The natural number that a double precision number turns into: its
/// whole part, zero for a negative number and for no number, and the
/// greatest number of 64 bits where the whole part does not fit.
pub open spec fn double_to_natural(bits: u64) -> u64 {
    let exponent: u64 = (bits & DOUBLE_EXPONENT) >> 52;
    let whole: u64 = (bits & DOUBLE_FRACTION) | DOUBLE_HIDDEN;
    if double_is_nan(bits) || exponent < 1023 || double_is_negative(bits) {
        0
    } else if exponent >= 1087 {
        u64::MAX
    } else if exponent >= 1075 {
        whole << ((exponent - 1075) as u64)
    } else {
        whole >> ((1075 - exponent) as u64)
    }
}

/// Turns a double precision number into a natural number of 64 bits.
pub fn natural_of_double(bits: u64) -> (r: u64)
    ensures
        r == double_to_natural(bits),
{
    let exponent: u64 = (bits & DOUBLE_EXPONENT) >> 52;
    let whole: u64 = (bits & DOUBLE_FRACTION) | DOUBLE_HIDDEN;
    if is_double_nan(bits) || exponent < 1023 || bits & DOUBLE_SIGN != 0 {
        0
    } else if exponent >= 1087 {
        u64::MAX
    } else if exponent >= 1075 {
        whole << (exponent - 1075)
    } else {
        whole >> (1075 - exponent)
    }
}

/// A number rounded to the nearest: the digits kept, made one greater
/// where the digits dropped are more than half of the last place, or are
/// just half of it and the number kept is odd.
pub open spec fn rounded(kept: u64, dropped: u64, half: u64) -> u64 {
    if dropped > half || (dropped == half && kept & 1 == 1) {
        (kept + 1) as u64
    } else {
        kept
    }
}

fn round(kept: u64, dropped: u64, half: u64) -> (r: u64)
    requires
        kept < 0x0100_0000,
    ensures
        r == rounded(kept, dropped, half),
        r <= 0x0100_0000,
{
    if dropped > half || (dropped == half && kept & 1 == 1) {
        kept + 1
    } else {
        kept
    }
}

/// The bits of the single precision number nearest to an integer.
pub open spec fn int_to_real(v: i32) -> u32 {
    if v == 0 {
        0
    } else {
        let a = magnitude(v as i64);
        let p = top_bit(a) as u64;
        let sign: u64 = if v < 0 {
            0x8000_0000
        } else {
            0
        };
        if p <= 23 {
            (sign | (((p + 127) as u64) << 23) | ((a << ((23 - p) as u64)) & 0x007f_ffff)) as u32
        } else {
            let shift = (p - 23) as u64;
            let q = rounded(a >> shift, a & (((1u64 << shift) - 1) as u64), 1u64 << ((shift - 1) as u64));
            if q == 0x0100_0000 {
                (sign | (((p + 128) as u64) << 23)) as u32
            } else {
                (sign | (((p + 127) as u64) << 23) | (q & 0x007f_ffff)) as u32
            }
        }
    }
}

/// The single precision number nearest to an integer.
pub fn real_of_int(v: i32) -> (r: u32)
    ensures
        r == int_to_real(v),
{
    if v == 0 {
        return 0;
    }
    let wide: i64 = v as i64;
    let a: u64 = if wide < 0 {
        (-wide) as u64
    } else {
        wide as u64
    };
    let p = find_top_bit(a) as u64;
    proof {
        vstd::arithmetic::power2::lemma2_to64();
        lemma_top_bit_small(a, 31);
    }
    let sign: u64 = if v < 0 {
        0x8000_0000
    } else {
        0
    };
    if p <= 23 {
        let exponent: u64 = (p + 127) << 23;
        let fraction: u64 = (a << (23 - p)) & 0x007f_ffff;
        let bits: u64 = sign | exponent | fraction;
        assert(bits <= 0xffff_ffff) by (bit_vector)
            requires
                bits == sign | exponent | fraction,
                sign == 0x8000_0000u64 || sign == 0u64,
                exponent == ((p + 127) as u64) << 23,
                p <= 23,
                fraction == (a << ((23 - p) as u64)) & 0x007f_ffffu64,
        ;
        bits as u32
    } else {
        let shift: u64 = p - 23;
        assert((1u64 << shift) >= 1) by (bit_vector)
            requires
                1 <= shift <= 8,
        ;
        let mask: u64 = (1u64 << shift) - 1;
        let kept: u64 = a >> shift;
        proof {
            lemma_top_bit_above(a);
            vstd::bits::lemma_u64_shl_is_mul(1, (shift + 24) as u64);
            assert(a < (1u64 << ((shift + 24) as u64)));
        }
        assert(kept < 0x0100_0000) by (bit_vector)
            requires
                kept == a >> shift,
                1 <= shift <= 8,
                a < (1u64 << ((shift + 24) as u64)),
        ;
        let q = round(kept, a & mask, 1u64 << (shift - 1));
        if q == 0x0100_0000 {
            let exponent: u64 = (p + 128) << 23;
            let bits: u64 = sign | exponent;
            assert(bits <= 0xffff_ffff) by (bit_vector)
                requires
                    bits == sign | exponent,
                    sign == 0x8000_0000u64 || sign == 0u64,
                    exponent == ((p + 128) as u64) << 23,
                    p <= 31,
            ;
            bits as u32
        } else {
            let exponent: u64 = (p + 127) << 23;
            let fraction: u64 = q & 0x007f_ffff;
            let bits: u64 = sign | exponent | fraction;
            assert(bits <= 0xffff_ffff) by (bit_vector)
                requires
                    bits == sign | exponent | fraction,
                    sign == 0x8000_0000u64 || sign == 0u64,
                    exponent == ((p + 127) as u64) << 23,
                    p <= 31,
                    fraction == q & 0x007f_ffffu64,
            ;
            bits as u32
        }
    }
}

/// The bits of the single precision number nearest to a double
/// precision number. A number too large becomes infinite, one too small zero.
pub open spec fn double_to_real(bits: u64) -> u32 {
    let sign: u64 = if bits & DOUBLE_SIGN != 0 {
        0x8000_0000
    } else {
        0
    };
    let exponent: u64 = (bits & DOUBLE_EXPONENT) >> 52;
    let fraction: u64 = bits & DOUBLE_FRACTION;
    let whole: u64 = fraction | DOUBLE_HIDDEN;
    if exponent == 0x7ff {
        if fraction == 0 {
            (sign | 0x7f80_0000) as u32
        } else {
            (sign | 0x7fc0_0000 | (fraction >> 29)) as u32
        }
    } else if exponent == 0 {
        sign as u32
    } else if exponent > 1150 {
        (sign | 0x7f80_0000) as u32
    } else if exponent >= 897 {
        let q = rounded(whole >> 29, whole & 0x1fff_ffff, 0x1000_0000);
        if q == 0x0100_0000 {
            (sign | (((exponent - 895) as u64) << 23)) as u32
        } else {
            (sign | (((exponent - 896) as u64) << 23) | (q & 0x007f_ffff)) as u32
        }
    } else if exponent < 872 {
        sign as u32
    } else {
        let shift = (926 - exponent) as u64;
        (sign | rounded(whole >> shift, whole & (((1u64 << shift) - 1) as u64), 1u64 << ((shift - 1) as u64))) as u32
    }
}

/// Narrows a double precision number to single precision.
pub fn narrow(bits: u64) -> (r: u32)
    ensures
        r == double_to_real(bits),
{
    let sign: u64 = if bits & DOUBLE_SIGN != 0 {
        0x8000_0000
    } else {
        0
    };
    let exponent: u64 = (bits & DOUBLE_EXPONENT) >> 52;
    let fraction: u64 = bits & DOUBLE_FRACTION;
    let whole: u64 = fraction | DOUBLE_HIDDEN;
    assert(exponent <= 0x7ff) by (bit_vector)
        requires
            exponent == (bits & 0x7ff0_0000_0000_0000u64) >> 52,
    ;
    if exponent == 0x7ff {
        if fraction == 0 {
            let r: u64 = sign | 0x7f80_0000;
            assert(r <= 0xffff_ffff) by (bit_vector)
                requires
                    r == sign | 0x7f80_0000u64,
                    sign == 0x8000_0000u64 || sign == 0u64,
            ;
            r as u32
        } else {
            let payload: u64 = fraction >> 29;
            let r: u64 = sign | 0x7fc0_0000 | payload;
            assert(r <= 0xffff_ffff) by (bit_vector)
                requires
                    r == sign | 0x7fc0_0000u64 | payload,
                    payload == (bits & 0x000f_ffff_ffff_ffffu64) >> 29,
                    sign == 0x8000_0000u64 || sign == 0u64,
            ;
            r as u32
        }
    } else if exponent == 0 {
        sign as u32
    } else if exponent > 1150 {
        let r: u64 = sign | 0x7f80_0000;
        assert(r <= 0xffff_ffff) by (bit_vector)
            requires
                r == sign | 0x7f80_0000u64,
                sign == 0x8000_0000u64 || sign == 0u64,
        ;
        r as u32
    } else if exponent >= 897 {
        let kept: u64 = whole >> 29;
        assert(kept < 0x0100_0000) by (bit_vector)
            requires
                kept == ((bits & 0x000f_ffff_ffff_ffffu64) | 0x0010_0000_0000_0000u64) >> 29,
        ;
        let q = round(kept, whole & 0x1fff_ffff, 0x1000_0000);
        if q == 0x0100_0000 {
            let e: u64 = (exponent - 895) << 23;
            let r: u64 = sign | e;
            assert(r <= 0xffff_ffff) by (bit_vector)
                requires
                    r == sign | e,
                    e == ((exponent - 895) as u64) << 23,
                    897 <= exponent <= 1150,
                    sign == 0x8000_0000u64 || sign == 0u64,
            ;
            r as u32
        } else {
            let e: u64 = (exponent - 896) << 23;
            let f: u64 = q & 0x007f_ffff;
            let r: u64 = sign | e | f;
            assert(r <= 0xffff_ffff) by (bit_vector)
                requires
                    r == sign | e | f,
                    e == ((exponent - 896) as u64) << 23,
                    f == q & 0x007f_ffffu64,
                    897 <= exponent <= 1150,
                    sign == 0x8000_0000u64 || sign == 0u64,
            ;
            r as u32
        }
    } else if exponent < 872 {
        sign as u32
    } else {
        let shift: u64 = 926 - exponent;
        assert((1u64 << shift) >= 1) by (bit_vector)
            requires
                30 <= shift <= 54,
        ;
        let kept: u64 = whole >> shift;
        assert(kept < 0x0080_0000) by (bit_vector)
            requires
                kept == ((bits & 0x000f_ffff_ffff_ffffu64) | 0x0010_0000_0000_0000u64) >> shift,
                30 <= shift <= 54,
        ;
        let q = round(kept, whole & ((1u64 << shift) - 1), 1u64 << (shift - 1));
        let r: u64 = sign | q;
        assert(r <= 0xffff_ffff) by (bit_vector)
            requires
                r == sign | q,
                q <= 0x0080_0000u64,
                sign == 0x8000_0000u64 || sign == 0u64,
        ;
        r as u32
    }
}

/// Whether two single precision numbers are equal.
pub open spec fn real_equal(a: u32, b: u32) -> bool {
    double_equal(real_to_double(a), real_to_double(b))
}

/// Whether one single precision number is less than another.
pub open spec fn real_less(a: u32, b: u32) -> bool {
    double_less(real_to_double(a), real_to_double(b))
}

pub fn reals_equal(a: u32, b: u32) -> (r: bool)
    ensures
        r == real_equal(a, b),
{
    doubles_equal(widen(a), widen(b))
}

pub fn real_is_less(a: u32, b: u32) -> (r: bool)
    ensures
        r == real_less(a, b),
{
    double_is_less(widen(a), widen(b))
}

} // verus!
