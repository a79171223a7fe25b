//! Reduction of one color channel to its 8-bit serialized value.
//!
//! A channel is carried as the bit pattern of an IEEE-754 single-precision
//! number. Serialization scales the channel by 255 (with single-precision
//! round-to-nearest, ties to even), truncates the product toward zero and
//! saturates it to `0..=255`: negative channels and NaN give 0, channels at
//! 256/255 or above give 255. Everything here is integer arithmetic on the
//! bit pattern, so the whole reduction is verified.

use vstd::prelude::*;

verus! {

use vstd::arithmetic::div_mod::lemma_basic_div;
use vstd::arithmetic::power2::{
    lemma2_to64, lemma_pow2_pos, lemma_pow2_strictly_increases, lemma_pow2_unfold, pow2,
};

/// Sign bit of a single-precision bit pattern: 0 or 1.
pub open spec fn float_sign(bits: u32) -> nat {
    (bits / 0x8000_0000) as nat
}

/// Biased exponent field of a single-precision bit pattern: 0 to 255.
pub open spec fn float_exp(bits: u32) -> nat {
    ((bits / 0x80_0000) % 0x100) as nat
}

/// Fraction field of a single-precision bit pattern: the low 23 bits.
pub open spec fn float_frac(bits: u32) -> nat {
    (bits % 0x80_0000) as nat
}

/// `p / pow2(k)` rounded to the nearest integer, ties to the even neighbour.
pub open spec fn round_even(p: nat, k: nat) -> nat {
    let d = pow2(k);
    let q = p / d;
    let r = p % d;
    if 2 * r > d || (2 * r == d && q % 2 == 1) {
        q + 1
    } else {
        q
    }
}

/// The 8-bit value of the channel whose single-precision bit pattern is
/// `bits`: the channel times 255, rounded as a single-precision product
/// (round to nearest, ties to even), truncated toward zero and saturated
/// to `0..=255`.
///
/// A channel with the sign bit set (negative numbers, minus zero, NaN with
/// sign) truncates to 0 or below and so gives 0. An exponent field of 255 is
/// infinity (gives 255) or NaN (gives 0). An exponent field of 0 is zero or
/// subnormal; scaled by 255 that stays far below 1 and gives 0. For a normal
/// positive channel, the significand `m` (fraction plus implicit leading bit)
/// is multiplied by 255 exactly, rounded back to 24 bits of significand, and
/// the integer part of the rounded product is taken.
pub open spec fn scaled_channel(bits: u32) -> u8 {
    if float_sign(bits) == 1 {
        0u8
    } else if float_exp(bits) == 255 {
        if float_frac(bits) == 0 {
            255u8
        } else {
            0u8
        }
    } else if float_exp(bits) == 0 {
        0u8
    } else {
        let m = (0x80_0000 + float_frac(bits)) as nat;
        let p = (255 * m) as nat;
        let k: nat = if p >= 0x8000_0000 { 8 } else { 7 };
        let q = round_even(p, k);
        let sig: nat = if q == 0x100_0000 { 0x80_0000 as nat } else { q };
        let kk: nat = if q == 0x100_0000 { (k + 1) as nat } else { k };
        if float_exp(bits) + kk >= 150 {
            255u8
        } else {
            let t = (150 - float_exp(bits) - kk) as nat;
            let ip = sig / pow2(t);
            if ip >= 256 {
                255u8
            } else {
                ip as u8
            }
        }
    }
}

/// `pow2(t)` as a machine integer.
fn pow2_u32(t: u32) -> (v: u32)
    requires
        t < 32,
    ensures
        v == pow2(t as nat),
{
    let mut v: u32 = 1;
    let mut i: u32 = 0;
    proof {
        lemma2_to64();
    }
    while i < t
        invariant
            i <= t < 32,
            v == pow2(i as nat),
        decreases t - i,
    {
        proof {
            lemma_pow2_unfold((i + 1) as nat);
            if i + 1 < 31 {
                lemma_pow2_strictly_increases((i + 1) as nat, 31);
            }
            assert(pow2(31) == 0x8000_0000) by {
                lemma2_to64();
            }
        }
        v = v * 2;
        i = i + 1;
    }
    v
}

/// Computes `scaled_channel` on the bit pattern.
pub fn scale_channel(bits: u32) -> (v: u8)
    ensures
        v == scaled_channel(bits),
{
    let sign: u32 = bits / 0x8000_0000;
    let e: u32 = (bits / 0x80_0000) % 0x100;
    let f: u32 = bits % 0x80_0000;
    if sign == 1 {
        return 0;
    }
    if e == 255 {
        return if f == 0 {
            255
        } else {
            0
        };
    }
    if e == 0 {
        return 0;
    }
    let m: u32 = 0x80_0000 + f;
    let p: u32 = 255 * m;
    let k: u32 = if p >= 0x8000_0000 {
        8
    } else {
        7
    };
    let d: u32 = if p >= 0x8000_0000 {
        256
    } else {
        128
    };
    proof {
        lemma2_to64();
        assert(d == pow2(k as nat));
    }
    let q0: u32 = p / d;
    let r: u32 = p % d;
    let q: u32 = if 2 * r > d || (2 * r == d && q0 % 2 == 1) {
        q0 + 1
    } else {
        q0
    };
    assert(q == round_even(p as nat, k as nat));
    let sig: u32 = if q == 0x100_0000 {
        0x80_0000
    } else {
        q
    };
    let kk: u32 = if q == 0x100_0000 {
        k + 1
    } else {
        k
    };
    if e + kk >= 150 {
        return 255;
    }
    let t: u32 = 150 - e - kk;
    if t >= 24 {
        proof {
            lemma2_to64();
            if t > 24 {
                lemma_pow2_strictly_increases(24, t as nat);
            }
            lemma_basic_div(sig as int, pow2(t as nat) as int);
        }
        return 0;
    }
    let d2: u32 = pow2_u32(t);
    proof {
        lemma_pow2_pos(t as nat);
    }
    let ip: u32 = sig / d2;
    if ip >= 256 {
        255
    } else {
        ip as u8
    }
}

} // verus!

