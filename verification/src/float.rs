//! Floating-point numbers by their IEEE 754 bit patterns: the classes that
//! the codec tells apart, and the conversions between the two widths.

use vstd::prelude::*;
use vstd::arithmetic::div_mod::*;
use vstd::arithmetic::power2::*;
use vstd::bits::*;

verus! {

/// The sign bit of a single-precision number.
pub const SIGN32: u32 = 0x8000_0000;

/// Positive infinity in single precision.
pub const INFINITY32: u32 = 0x7f80_0000;

/// Negative infinity in single precision.
pub const NEG_INFINITY32: u32 = 0xff80_0000;

/// The quiet NaN without payload in single precision.
pub const NAN32: u32 = 0x7fc0_0000;

/// The sign bit of a double-precision number.
pub const SIGN64: u64 = 0x8000_0000_0000_0000;

/// Positive infinity in double precision.
pub const INFINITY64: u64 = 0x7ff0_0000_0000_0000;

/// Negative infinity in double precision.
pub const NEG_INFINITY64: u64 = 0xfff0_0000_0000_0000;

/// The quiet NaN without payload in double precision.
pub const NAN64: u64 = 0x7ff8_0000_0000_0000;

/// The classes of numbers that are written differently.
#[derive(Debug, Clone, Copy, PartialEq, Eq, Structural)]
pub enum FloatClass {
    Nan,
    Infinity,
    NegInfinity,
    Finite,
}

/// The class of a single-precision number: with all exponent bits set it
/// is infinite where the fraction is zero and a NaN where it is not.
pub open spec fn class32(bits: u32) -> FloatClass {
    let magnitude = bits % SIGN32;
    if magnitude > INFINITY32 {
        FloatClass::Nan
    } else if magnitude < INFINITY32 {
        FloatClass::Finite
    } else if bits >= SIGN32 {
        FloatClass::NegInfinity
    } else {
        FloatClass::Infinity
    }
}

/// The class of a double-precision number.
pub open spec fn class64(bits: u64) -> FloatClass {
    let magnitude = bits % SIGN64;
    if magnitude > INFINITY64 {
        FloatClass::Nan
    } else if magnitude < INFINITY64 {
        FloatClass::Finite
    } else if bits >= SIGN64 {
        FloatClass::NegInfinity
    } else {
        FloatClass::Infinity
    }
}

/// A single-precision number with every NaN taken to the quiet NaN without
/// payload.
pub open spec fn canonical32(bits: u32) -> u32 {
    if class32(bits) == FloatClass::Nan {
        NAN32
    } else {
        bits
    }
}

/// A double-precision number with every NaN taken to the quiet NaN without
/// payload.
pub open spec fn canonical64(bits: u64) -> u64 {
    if class64(bits) == FloatClass::Nan {
        NAN64
    } else {
        bits
    }
}

/// Takes a NaN to the quiet NaN without payload, and leaves any other
/// number as it is.
pub fn canonicalize32(bits: u32) -> (r: u32)
    ensures
        r == canonical32(bits),
{
    match classify32(bits) {
        FloatClass::Nan => NAN32,
        _ => bits,
    }
}

/// Takes a NaN to the quiet NaN without payload, and leaves any other
/// number as it is.
pub fn canonicalize64(bits: u64) -> (r: u64)
    ensures
        r == canonical64(bits),
{
    match classify64(bits) {
        FloatClass::Nan => NAN64,
        _ => bits,
    }
}

/// The class of a single-precision number.
pub fn classify32(bits: u32) -> (c: FloatClass)
    ensures
        c == class32(bits),
{
    let magnitude = bits % SIGN32;
    if magnitude > INFINITY32 {
        FloatClass::Nan
    } else if magnitude < INFINITY32 {
        FloatClass::Finite
    } else if bits >= SIGN32 {
        FloatClass::NegInfinity
    } else {
        FloatClass::Infinity
    }
}

/// The class of a double-precision number.
pub fn classify64(bits: u64) -> (c: FloatClass)
    ensures
        c == class64(bits),
{
    let magnitude = bits % SIGN64;
    if magnitude > INFINITY64 {
        FloatClass::Nan
    } else if magnitude < INFINITY64 {
        FloatClass::Finite
    } else if bits >= SIGN64 {
        FloatClass::NegInfinity
    } else {
        FloatClass::Infinity
    }
}

/// `n / d`, rounded to the nearest integer, and to the even one of the two
/// where `n / d` lies halfway between them.
pub open spec fn round_half_even(n: nat, d: nat) -> nat
    recommends
        d > 0,
{
    let q = n / d;
    let r = n % d;
    if 2 * r > d || (2 * r == d && q % 2 == 1) {
        q + 1
    } else {
        q
    }
}

/// The single-precision number nearest to a double-precision one, with
/// ties going to the even significand.
///
/// A finite double is `significand * 2^(exponent - 1075)`, where the
/// exponent field of zero counts as one and any other adds the hidden bit
/// `2^52` to the fraction. Read as a number, the bits of a single below the
/// sign count its steps from zero upwards, so the result is a base for the
/// exponent plus the significand divided by the step and rounded; what lies
/// at or beyond infinity is infinity. A NaN becomes the quiet NaN without
/// payload.
pub open spec fn narrow(bits: u64) -> u32 {
    let sign: nat = if bits >= SIGN64 {
        SIGN32 as nat
    } else {
        0
    };
    let magnitude = bits % SIGN64;
    let exponent = magnitude / 0x10_0000_0000_0000;
    let fraction = magnitude % 0x10_0000_0000_0000;
    if exponent == 2047 {
        if fraction == 0 {
            (sign + INFINITY32) as u32
        } else {
            NAN32
        }
    } else if exponent >= 897 {
        let steps = (exponent - 897) * 0x80_0000 + round_half_even(
            (fraction + 0x10_0000_0000_0000) as nat,
            0x2000_0000,
        );
        if steps >= INFINITY32 {
            (sign + INFINITY32) as u32
        } else {
            (sign + steps) as u32
        }
    } else {
        let significand = if exponent == 0 {
            fraction
        } else {
            (fraction + 0x10_0000_0000_0000) as u64
        };
        let shift: nat = if exponent == 0 {
            925
        } else {
            (926 - exponent) as nat
        };
        (sign + round_half_even(significand as nat, pow2(shift))) as u32
    }
}

/// A significand below `2^23` doubled until it reaches `2^23`, with the
/// exponent lowered by one for each doubling.
pub open spec fn normalised(significand: nat, exponent: int) -> (nat, int)
    decreases
            if significand < 0x80_0000 {
                0x80_0000 - significand
            } else {
                0
            },
{
    if 0 < significand < 0x80_0000 {
        normalised(2 * significand, exponent - 1)
    } else {
        (significand, exponent)
    }
}

/// The double-precision number equal to a single-precision one.
///
/// A NaN becomes the quiet NaN without payload.
pub open spec fn widen(bits: u32) -> u64 {
    let sign: nat = if bits >= SIGN32 {
        SIGN64 as nat
    } else {
        0
    };
    let magnitude = bits % SIGN32;
    let exponent = magnitude / 0x80_0000;
    let fraction = magnitude % 0x80_0000;
    if exponent == 255 {
        if fraction == 0 {
            (sign + INFINITY64) as u64
        } else {
            NAN64
        }
    } else if magnitude == 0 {
        sign as u64
    } else {
        let parts = if exponent == 0 {
            normalised(fraction as nat, 1)
        } else {
            ((fraction + 0x80_0000) as nat, exponent as int)
        };
        (sign + (parts.1 + 896) * 0x10_0000_0000_0000 + (parts.0 - 0x80_0000) * 0x2000_0000) as u64
    }
}

/// A significand that is doubled until it reaches `2^23` ends in
/// `[2^23, 2^24)` after `k` doublings, at most `23 - j` of them where it
/// started at `2^j` or above.
proof fn lemma_normalised(significand: nat, exponent: int, j: nat) -> (k: nat)
    requires
        pow2(j) <= significand < 0x100_0000,
        j <= 23,
    ensures
        j + k <= 23,
        significand < 0x80_0000 ==> k >= 1,
        normalised(significand, exponent) == (significand * pow2(k), exponent - k),
        0x80_0000 <= significand * pow2(k) < 0x100_0000,
    decreases 23 - j,
{
    lemma2_to64();
    lemma_pow2_pos(j);
    if significand < 0x80_0000 {
        if j >= 23 {
            assert(false);
        }
        lemma_pow2_unfold(j + 1);
        let k = lemma_normalised(2 * significand, exponent - 1, j + 1);
        lemma_pow2_unfold(k + 1);
        assert((2 * significand) * pow2(k) == significand * pow2(k + 1)) by (nonlinear_arith)
            requires
                pow2(k + 1) == 2 * pow2(k),
        ;
        k + 1
    } else {
        0
    }
}

/// Narrowing gives no NaN but the quiet one without payload.
pub proof fn lemma_narrow_canonical(bits: u64)
    ensures
        canonical32(narrow(bits)) == narrow(bits),
{
    let magnitude = bits % SIGN64;
    let exponent = magnitude / 0x10_0000_0000_0000;
    let fraction = magnitude % 0x10_0000_0000_0000;
    if exponent < 897 {
        let significand = if exponent == 0 {
            fraction
        } else {
            (fraction + 0x10_0000_0000_0000) as u64
        };
        let shift: nat = if exponent == 0 {
            925
        } else {
            (926 - exponent) as nat
        };
        lemma2_to64();
        if shift > 30 {
            lemma_pow2_strictly_increases(30, shift);
        }
        lemma_div_is_ordered_by_denominator(significand as int, 0x4000_0000, pow2(shift) as int);
        assert(round_half_even(significand as nat, pow2(shift)) <= 0x80_0000);
    }
}

/// Widening gives no NaN but the quiet one without payload.
pub proof fn lemma_widen_canonical(bits: u32)
    ensures
        canonical64(widen(bits)) == widen(bits),
{
    let magnitude = bits % SIGN32;
    let exponent = magnitude / 0x80_0000;
    let fraction = magnitude % 0x80_0000;
    if exponent == 0 && magnitude != 0 {
        lemma2_to64();
        lemma_normalised(fraction as nat, 1, 0);
    }
}

/// A single-precision number, widened and narrowed again, is the number it
/// was; of the NaNs, the quiet one without payload.
#[verifier::rlimit(50)]
pub proof fn lemma_narrow_widen(bits: u32)
    ensures
        narrow(widen(bits)) == canonical32(bits),
{
    let sign: nat = if bits >= SIGN32 {
        SIGN64 as nat
    } else {
        0
    };
    let magnitude = bits % SIGN32;
    let exponent = magnitude / 0x80_0000;
    let fraction = magnitude % 0x80_0000;
    lemma2_to64();
    if exponent == 255 {
    } else if magnitude == 0 {
        lemma2_to64_rest();
        lemma_pow2_pos(925);
        lemma_basic_div(0, pow2(925) as int);
        lemma_small_mod(0, pow2(925));
    } else if exponent != 0 {
        let wide = (sign + (exponent + 896) * 0x10_0000_0000_0000 + fraction * 0x2000_0000) as u64;
        assert(widen(bits) == wide);
        let wide_magnitude = wide % SIGN64;
        assert(wide_magnitude == (exponent + 896) * 0x10_0000_0000_0000 + fraction * 0x2000_0000);
        assert(wide_magnitude / 0x10_0000_0000_0000 == exponent + 896);
        assert(wide_magnitude % 0x10_0000_0000_0000 == fraction * 0x2000_0000);
        let significand = (fraction * 0x2000_0000 + 0x10_0000_0000_0000) as nat;
        assert(significand / 0x2000_0000 == fraction + 0x80_0000);
        assert(significand % 0x2000_0000 == 0);
    } else {
        let k = lemma_normalised(fraction as nat, 1, 0);
        let scaled = fraction as nat * pow2(k);
        let wide = (sign + (1 - k + 896) * 0x10_0000_0000_0000 + (scaled - 0x80_0000)
            * 0x2000_0000) as u64;
        assert(widen(bits) == wide);
        let wide_magnitude = wide % SIGN64;
        assert(wide_magnitude == (897 - k) * 0x10_0000_0000_0000 + (scaled - 0x80_0000)
            * 0x2000_0000);
        assert(wide_magnitude / 0x10_0000_0000_0000 == 897 - k);
        assert(wide_magnitude % 0x10_0000_0000_0000 == (scaled - 0x80_0000) * 0x2000_0000);
        let significand = (scaled * 0x2000_0000) as nat;
        let shift = (29 + k) as nat;
        let d = pow2(shift);
        lemma_pow2_adds(k, 29);
        lemma_pow2_pos(shift);
        assert(significand == fraction * d) by (nonlinear_arith)
            requires
                significand == (fraction * pow2(k)) * 0x2000_0000,
                d == pow2(k) * 0x2000_0000,
        ;
        assert(significand == d * fraction) by (nonlinear_arith)
            requires
                significand == fraction * d,
        ;
        lemma_div_multiples_vanish(fraction as int, d as int);
        lemma_mod_multiples_basic(fraction as int, d as int);
        assert(round_half_even(significand, d) == fraction);
    }
}

/// `2^k` for `k` below 64.
fn power_of_two(k: u64) -> (d: u64)
    requires
        k < 64,
    ensures
        d == pow2(k as nat),
        d > 0,
{
    proof {
        lemma_u64_pow2_no_overflow(k as nat);
        lemma_u64_shl_is_mul(1, k);
        lemma_pow2_pos(k as nat);
    }
    1u64 << k
}

/// `n / d` rounded to the nearest integer, ties to even.
fn rounded_quotient(n: u64, d: u64) -> (q: u64)
    requires
        d > 0,
        n < u64::MAX,
    ensures
        q == round_half_even(n as nat, d as nat),
        q <= n / d + 1,
{
    let q = n / d;
    let r = n % d;
    proof {
        lemma_div_nonincreasing(n as int, d as int);
        lemma_mod_bound(n as int, d as int);
    }
    if r > d - r || (r == d - r && q % 2 == 1) {
        q + 1
    } else {
        q
    }
}

/// Converts a double-precision number to single precision, rounding to the
/// nearest with ties to even.
#[verifier::rlimit(50)]
pub fn narrow_bits(bits: u64) -> (r: u32)
    ensures
        r == narrow(bits),
{
    let sign: u32 = if bits >= SIGN64 {
        SIGN32
    } else {
        0
    };
    let magnitude = bits % SIGN64;
    let exponent = magnitude / 0x10_0000_0000_0000;
    let fraction = magnitude % 0x10_0000_0000_0000;
    if exponent == 2047 {
        if fraction == 0 {
            sign + INFINITY32
        } else {
            NAN32
        }
    } else if exponent >= 897 {
        let steps = (exponent - 897) * 0x80_0000 + rounded_quotient(
            fraction + 0x10_0000_0000_0000,
            0x2000_0000,
        );
        if steps >= INFINITY32 as u64 {
            sign + INFINITY32
        } else {
            sign + steps as u32
        }
    } else {
        let significand = if exponent == 0 {
            fraction
        } else {
            fraction + 0x10_0000_0000_0000
        };
        let ghost shift: nat = if exponent == 0 {
            925
        } else {
            (926 - exponent) as nat
        };
        if exponent < 873 {
            proof {
                lemma2_to64_rest();
                if shift > 54 {
                    lemma_pow2_strictly_increases(54, shift);
                }
                lemma_basic_div(significand as int, pow2(shift) as int);
                lemma_small_mod(significand as nat, pow2(shift));
            }
            sign
        } else {
            let d = power_of_two(926 - exponent);
            proof {
                lemma2_to64();
                if shift > 30 {
                    lemma_pow2_strictly_increases(30, shift);
                }
                lemma_div_is_ordered_by_denominator(significand as int, 0x4000_0000, d as int);
            }
            let q = rounded_quotient(significand, d);
            sign + q as u32
        }
    }
}

/// Converts a single-precision number to double precision.
#[verifier::rlimit(50)]
pub fn widen_bits(bits: u32) -> (r: u64)
    ensures
        r == widen(bits),
{
    let sign: u64 = if bits >= SIGN32 {
        SIGN64
    } else {
        0
    };
    let magnitude = bits % SIGN32;
    let exponent = magnitude / 0x80_0000;
    let fraction = magnitude % 0x80_0000;
    if exponent == 255 {
        if fraction == 0 {
            sign + INFINITY64
        } else {
            NAN64
        }
    } else if magnitude == 0 {
        sign
    } else {
        let mut significand: u64 = fraction as u64;
        let mut scale: u64 = 24;
        if exponent != 0 {
            significand = significand + 0x80_0000;
            scale = exponent as u64 + 23;
        } else {
            let ghost mut doublings: nat = 0;
            proof {
                lemma2_to64();
            }
            while significand < 0x80_0000
                invariant
                    0 < significand < 0x100_0000,
                    doublings <= 23,
                    scale == 24 - doublings,
                    significand >= pow2(doublings),
                    normalised(significand as nat, scale - 23) == normalised(fraction as nat, 1),
                decreases
                        if significand < 0x80_0000 {
                            0x80_0000 - significand
                        } else {
                            0
                        },
            {
                proof {
                    lemma2_to64();
                    if doublings >= 23 {
                        if doublings > 23 {
                            lemma_pow2_strictly_increases(23, doublings);
                        }
                        assert(false);
                    }
                    lemma_pow2_unfold(doublings + 1);
                    doublings = doublings + 1;
                }
                significand = significand * 2;
                scale = scale - 1;
            }
        }
        assert((significand as nat, scale - 23) == if exponent == 0 {
            normalised(fraction as nat, 1)
        } else {
            ((fraction + 0x80_0000) as nat, exponent as int)
        });
        sign + (scale + 873) * 0x10_0000_0000_0000 + (significand - 0x80_0000) * 0x2000_0000
    }
}

} // verus!
