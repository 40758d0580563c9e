//! Integer time.
//!
//! Every event carries a timestamp counted in picoseconds from the trigger
//! point of the capture. Timestamps before the trigger are negative.
use vstd::prelude::*;
use vstd::arithmetic::div_mod::lemma_basic_div;
use vstd::arithmetic::power2::lemma2_to64;
use vstd::arithmetic::power2::lemma_pow2_adds;
use vstd::arithmetic::power2::lemma_pow2_strictly_increases;
use vstd::arithmetic::power2::lemma_pow2_unfold;
use vstd::arithmetic::power2::pow2;

verus! {

/// A point in time, in picoseconds relative to the trigger.
pub type Timestamp = i64;

/// Picoseconds in one second.
pub const PICOS_PER_SECOND: i64 = 1_000_000_000_000;

/// The timestamp nearest to the exact value `t`.
pub open spec fn clamp(t: int) -> Timestamp {
    if t > i64::MAX {
        i64::MAX
    } else if t < i64::MIN {
        i64::MIN
    } else {
        t as i64
    }
}

/// `t + d`, held within the range of a timestamp.
pub fn offset(t: Timestamp, d: i64) -> (r: Timestamp)
    ensures
        r == clamp(t + d),
{
    let s: i128 = t as i128 + d as i128;
    if s > i64::MAX as i128 {
        i64::MAX
    } else if s < i64::MIN as i128 {
        i64::MIN
    } else {
        s as i64
    }
}

/// `num / den` rounded to the nearest integer, halves upward.
pub open spec fn round_div(num: int, den: int) -> int
    recommends
        den > 0,
{
    (2 * num + den) / (2 * den)
}

/// The exponent field of a 64-bit binary floating-point number.
pub open spec fn exponent_field(bits: u64) -> u64 {
    (bits >> 52) & 0x7FF
}

/// The fraction field of a 64-bit binary floating-point number.
pub open spec fn fraction_field(bits: u64) -> u64 {
    bits & 0xF_FFFF_FFFF_FFFF
}

/// The sign bit of a 64-bit binary floating-point number.
pub open spec fn sign_bit(bits: u64) -> u64 {
    bits >> 63
}

/// The significand as a whole number: the fraction, with the hidden bit
/// above it unless the exponent field is zero.
pub open spec fn significand(bits: u64) -> nat {
    if exponent_field(bits) == 0 {
        fraction_field(bits) as nat
    } else {
        (fraction_field(bits) + 0x10_0000_0000_0000) as nat
    }
}

/// How many binary places the significand has behind the point, where the
/// exponent field is below 1075: the magnitude of the number is
/// `significand / 2^places`.
pub open spec fn binary_places(bits: u64) -> nat {
    if exponent_field(bits) == 0 {
        1074
    } else {
        (1075 - exponent_field(bits)) as nat
    }
}

/// The timestamp nearest to the number of seconds that `bits` holds as a
/// 64-bit binary floating-point number, halves away from zero.
///
/// There is none where the number is infinite or not a number, and none
/// where it is too large for a timestamp, which every number with an exponent
/// field of 1075 or more is.
pub open spec fn timestamp_of_seconds(bits: u64) -> Option<Timestamp> {
    if exponent_field(bits) >= 1075 {
        None
    } else {
        let magnitude = round_div(
            significand(bits) * PICOS_PER_SECOND,
            pow2(binary_places(bits)) as int,
        );
        if magnitude > i64::MAX {
            None
        } else if sign_bit(bits) == 1 {
            Some((-magnitude) as i64)
        } else {
            Some(magnitude as i64)
        }
    }
}

/// Two to the power `k`, for a `k` below 95.
fn power_of_two(k: u64) -> (r: u128)
    requires
        k < 95,
    ensures
        r == pow2(k as nat),
        0 < r <= 0x4000_0000_0000_0000_0000_0000,
{
    proof {
        lemma2_to64();
    }
    let mut p: u128 = 1;
    let mut j: u64 = 0;
    while j < k
        invariant
            j <= k < 95,
            p == pow2(j as nat),
            p > 0,
            pow2(30) == 0x4000_0000,
            pow2(64) == 0x1_0000_0000_0000_0000,
        decreases k - j,
    {
        proof {
            lemma_pow2_unfold((j + 1) as nat);
            lemma_pow2_adds(64, 30);
            if j + 1 < 94 {
                lemma_pow2_strictly_increases((j + 1) as nat, 94);
            }
        }
        p = p * 2;
        j = j + 1;
    }
    proof {
        lemma_pow2_adds(64, 30);
        if k < 94 {
            lemma_pow2_strictly_increases(k as nat, 94);
        }
    }
    p
}

/// Converts a number of seconds, given as the bits of a 64-bit binary
/// floating-point number, to a timestamp.
pub fn timestamp_from_seconds(bits: u64) -> (r: Option<Timestamp>)
    ensures
        r == timestamp_of_seconds(bits),
{
    let e: u64 = (bits >> 52) & 0x7FF;
    let frac: u64 = bits & 0xF_FFFF_FFFF_FFFF;
    assert((bits & 0xF_FFFF_FFFF_FFFF) < 0x10_0000_0000_0000) by (bit_vector);
    if e >= 1075 {
        return None;
    }
    let m: u64 = if e == 0 {
        frac
    } else {
        frac + 0x10_0000_0000_0000
    };
    let places: u64 = if e == 0 {
        1074
    } else {
        1075 - e
    };
    let scaled: u128 = (m as u128) * 1_000_000_000_000u128;
    let magnitude: u128 = if places >= 95 {
        proof {
            lemma2_to64();
            lemma_pow2_adds(64, 31);
            if places > 95 {
                lemma_pow2_strictly_increases(95, places as nat);
            }
            let p = pow2(places as nat) as int;
            lemma_basic_div(2 * scaled + p, 2 * p);
        }
        0
    } else {
        let p: u128 = power_of_two(places);
        (2 * scaled + p) / (2 * p)
    };
    if magnitude > i64::MAX as u128 {
        None
    } else if bits >> 63 == 1 {
        Some(-(magnitude as i64))
    } else {
        Some(magnitude as i64)
    }
}

} // verus!
