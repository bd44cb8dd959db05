//! Integer projections of IEEE-754 bit patterns.
//!
//! The decoder stores every float it reads as its raw bit pattern, so the
//! numeric getters convert those patterns to integers the way a Rust `as`
//! cast would: rounding toward zero, saturating at the `i32` bounds, and
//! sending NaN to zero. The conversion is pure integer arithmetic on the
//! sign, exponent and mantissa fields; values of magnitude `2^31` or more
//! land in the saturating branch because their exponent field is large.

use vstd::prelude::*;

verus! {

/// What a 32-bit float bit pattern yields when cast to `i32`: truncation
/// toward zero, saturating at the `i32` bounds, NaN to 0.
pub open spec fn f32_bits_to_i32(bits: u32) -> i32 {
    let s = bits >> 31;
    let e = (bits >> 23) & 0xff;
    let m = bits & 0x7f_ffff;
    if e == 0xff {
        if m != 0 {
            0i32
        } else if s == 1 {
            i32::MIN
        } else {
            i32::MAX
        }
    } else if e < 127 {
        0i32
    } else if e >= 158 {
        if s == 1 {
            i32::MIN
        } else {
            i32::MAX
        }
    } else {
        let frac = 0x80_0000u64 | m as u64;
        let mag = if e <= 150 {
            frac >> (((150 - e) as u64) as u64)
        } else {
            frac << (((e - 150) as u64) as u64)
        };
        if s == 1 {
            ((0 - mag) as i32)
        } else {
            (mag as i32)
        }
    }
}

/// What a 64-bit float bit pattern yields when cast to `i32`: truncation
/// toward zero, saturating at the `i32` bounds, NaN to 0.
pub open spec fn f64_bits_to_i32(bits: u64) -> i32 {
    let s = bits >> 63;
    let e = (bits >> 52) & 0x7ff;
    let m = bits & 0xf_ffff_ffff_ffff;
    if e == 0x7ff {
        if m != 0 {
            0i32
        } else if s == 1 {
            i32::MIN
        } else {
            i32::MAX
        }
    } else if e < 1023 {
        0i32
    } else if e >= 1054 {
        if s == 1 {
            i32::MIN
        } else {
            i32::MAX
        }
    } else {
        let frac = 0x10_0000_0000_0000u64 | m;
        let mag = frac >> (((1075 - e) as u64) as u64);
        if s == 1 {
            ((0 - mag) as i32)
        } else {
            (mag as i32)
        }
    }
}

/// Cast a 32-bit float bit pattern to `i32` as `as` would.
pub fn f32_bits_as_i32(bits: u32) -> (r: i32)
    ensures
        r == f32_bits_to_i32(bits),
{
    let s = bits >> 31;
    let e = (bits >> 23) & 0xff;
    let m = bits & 0x7f_ffff;
    assert(e <= 0xff && m <= 0x7f_ffff) by (bit_vector)
        requires
            e == (bits >> 23) & 0xff,
            m == bits & 0x7f_ffff,
    ;
    if e == 0xff {
        if m != 0 {
            0i32
        } else if s == 1 {
            i32::MIN
        } else {
            i32::MAX
        }
    } else if e < 127 {
        0i32
    } else if e >= 158 {
        if s == 1 {
            i32::MIN
        } else {
            i32::MAX
        }
    } else {
        let frac: u64 = 0x80_0000u64 | m as u64;
        let mag: u64 = if e <= 150 {
            frac >> ((150 - e) as u64)
        } else {
            assert(e - 150 < 8) by (bit_vector)
                requires
                    150 < e < 158,
            ;
            frac << ((e - 150) as u64)
        };
        assert(mag < 0x8000_0000) by (bit_vector)
            requires
                m <= 0x7f_ffff,
                127 <= e < 158,
                frac == 0x80_0000u64 | m as u64,
                mag == if e <= 150 {
                    frac >> ((150 - e) as u64)
                } else {
                    frac << ((e - 150) as u64)
                },
        ;
        if s == 1 {
            -(mag as i32)
        } else {
            mag as i32
        }
    }
}

/// Cast a 64-bit float bit pattern to `i32` as `as` would.
pub fn f64_bits_as_i32(bits: u64) -> (r: i32)
    ensures
        r == f64_bits_to_i32(bits),
{
    let s = bits >> 63;
    let e = (bits >> 52) & 0x7ff;
    let m = bits & 0xf_ffff_ffff_ffff;
    assert(e <= 0x7ff && m <= 0xf_ffff_ffff_ffff) by (bit_vector)
        requires
            e == (bits >> 52) & 0x7ff,
            m == bits & 0xf_ffff_ffff_ffff,
    ;
    if e == 0x7ff {
        if m != 0 {
            0i32
        } else if s == 1 {
            i32::MIN
        } else {
            i32::MAX
        }
    } else if e < 1023 {
        0i32
    } else if e >= 1054 {
        if s == 1 {
            i32::MIN
        } else {
            i32::MAX
        }
    } else {
        let frac: u64 = 0x10_0000_0000_0000u64 | m;
        assert(1075 - e >= 22 && 1075 - e < 64) by (bit_vector)
            requires
                1023 <= e < 1054,
        ;
        let mag: u64 = frac >> ((1075 - e) as u64);
        assert(mag < 0x8000_0000) by (bit_vector)
            requires
                m <= 0xf_ffff_ffff_ffff,
                1023 <= e < 1054,
                frac == 0x10_0000_0000_0000u64 | m,
                mag == frac >> ((1075 - e) as u64),
        ;
        if s == 1 {
            -(mag as i32)
        } else {
            mag as i32
        }
    }
}

} // verus!
