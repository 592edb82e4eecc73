//! IEEE 754 binary64 values as bit patterns.

use crate::nearest::{lemma_nearest_is_zero_only_for_zero, lemma_widening_rounds_to_nearest};
use vstd::arithmetic::power2::{
    lemma2_to64, lemma2_to64_rest, lemma_pow2_adds, lemma_pow2_pos, lemma_pow2_subtracts,
    lemma_pow2_unfold, pow2,
};
use vstd::prelude::*;

verus! {

/// The sign bit of a binary64 pattern, as a number.
pub const SIGN_BIT: u64 = 0x8000_0000_0000_0000;

/// The pattern of positive infinity: all exponent bits set, no fraction bit.
pub const INFINITY_BITS: u64 = 0x7ff0_0000_0000_0000;

/// Two to the power 52: the weight of the exponent field in a pattern, and
/// the implicit leading bit of a normal significand.
pub const HIDDEN_BIT: u64 = 0x10_0000_0000_0000;

/// The position of the leading one bit of `m`: the `k` with
/// `2^k <= m < 2^(k+1)`. For 0 it is 0.
pub open spec fn floor_log2(m: nat) -> nat
    decreases m,
{
    if m < 2 {
        0
    } else {
        1 + floor_log2(m / 2)
    }
}

/// The whole number nearest to `m / unit`; where two are equally near, the
/// even one.
pub open spec fn round_half_even(m: nat, unit: nat) -> nat {
    let q = m / unit;
    let r = m % unit;
    if 2 * r > unit || (2 * r == unit && q % 2 == 1) {
        q + 1
    } else {
        q
    }
}

/// The magnitude of an integer.
pub open spec fn magnitude_of(i: int) -> nat {
    (if i < 0 {
        -i
    } else {
        i
    }) as nat
}

/// The significand of 53 bits that stands for a nonzero integer: its
/// magnitude `m`, with leading bit at position `k`, scaled up by `2^(52-k)`
/// where it is shorter than 53 bits, which loses nothing, and divided by
/// `2^(k-52)` where it is longer, rounded to the nearest whole number and to
/// the even one of two that are equally near. It lies between `2^52` and
/// `2^53`, and reaches `2^53` only by rounding up.
pub open spec fn significand_of(i: int) -> nat {
    let m = magnitude_of(i);
    let k = floor_log2(m);
    if k <= 52 {
        m * pow2((52 - k) as nat)
    } else {
        round_half_even(m, pow2((k - 52) as nat))
    }
}

/// A number between two consecutive powers of two has the lower one's
/// exponent as its `floor_log2`.
pub proof fn lemma_floor_log2_unique(m: nat, k: nat)
    requires
        pow2(k) <= m < 2 * pow2(k),
    ensures
        floor_log2(m) == k,
    decreases k,
{
    if k == 0 {
        lemma2_to64();
    } else {
        lemma_pow2_unfold(k);
        lemma_floor_log2_unique(m / 2, (k - 1) as nat);
    }
}

/// A positive number lies between the power of two that `floor_log2` names
/// and the next one.
pub proof fn lemma_floor_log2_bounds(m: nat)
    requires
        m >= 1,
    ensures
        pow2(floor_log2(m)) <= m < 2 * pow2(floor_log2(m)),
    decreases m,
{
    if m < 2 {
        lemma2_to64();
    } else {
        lemma_floor_log2_bounds(m / 2);
        lemma_pow2_unfold(floor_log2(m));
    }
}

/// A binary64 value, held as the 64 bits of its interchange format:
/// one sign bit, eleven exponent bits, fifty-two fraction bits.
#[derive(Clone, Copy, Debug, PartialEq, Eq, Structural)]
pub struct Binary64 {
    pub bits: u64,
}

impl Binary64 {
    /// Whether the sign bit is set.
    pub open spec fn is_negative(&self) -> bool {
        self.bits >= SIGN_BIT
    }

    /// The pattern without its sign bit.
    pub open spec fn magnitude(&self) -> nat {
        if self.bits >= SIGN_BIT {
            (self.bits - SIGN_BIT) as nat
        } else {
            self.bits as nat
        }
    }

    /// The biased exponent, between 0 and 2047.
    pub open spec fn exponent_field(&self) -> nat {
        self.magnitude() / (HIDDEN_BIT as nat)
    }

    /// The fifty-two fraction bits.
    pub open spec fn fraction_field(&self) -> nat {
        self.magnitude() % (HIDDEN_BIT as nat)
    }

    /// The magnitude of a finite value in units of `2^-1074`, the spacing of
    /// the smallest binary64 values: a whole number for every finite pattern.
    ///
    /// A pattern with exponent field 0 stands for its fraction field in those
    /// units; with exponent field `e >= 1` the hidden bit joins the fraction
    /// and the sum is scaled by `2^(e-1)`.
    pub open spec fn scaled_magnitude(&self) -> nat {
        if self.exponent_field() == 0 {
            self.fraction_field()
        } else {
            (HIDDEN_BIT as nat + self.fraction_field()) * pow2((self.exponent_field() - 1) as nat)
        }
    }

    /// The finite value in units of `2^-1074`, with its sign.
    pub open spec fn scaled_value(&self) -> int {
        if self.is_negative() {
            -(self.scaled_magnitude() as int)
        } else {
            self.scaled_magnitude() as int
        }
    }

    /// How far the finite value lies from the whole number `i`, in units of
    /// `2^-1074`.
    pub open spec fn distance_to(&self, i: int) -> nat {
        let d = self.scaled_value() - i * pow2(1074);
        (if d < 0 { -d } else { d }) as nat
    }

    /// Positive or negative zero: the two values that compare equal to 0.0.
    pub open spec fn spec_is_zero(&self) -> bool {
        self.magnitude() == 0
    }

    /// Zero, subnormal or normal: neither an infinity nor a NaN.
    pub open spec fn is_finite(&self) -> bool {
        self.magnitude() < INFINITY_BITS
    }

    /// The value is the finite binary64 value nearest to the whole number
    /// `i`, by the rule of rounding to nearest with ties to even: no finite
    /// value lies nearer to `i`; where another lies as near, this one has the
    /// even pattern; and for `i == 0` it is positive zero.
    pub open spec fn is_nearest_to(&self, i: int) -> bool {
        &&& self.is_finite()
        &&& self.is_negative() == (i < 0)
        &&& forall|other: Binary64|
            other.is_finite() ==> self.distance_to(i) <= #[trigger] other.distance_to(i)
        &&& forall|other: Binary64|
            other.is_finite() && #[trigger] other.distance_to(i) == self.distance_to(i)
                ==> other.scaled_value() == self.scaled_value() || self.bits % 2 == 0
    }

    /// The pattern of the binary64 value nearest to the whole number `i`,
    /// for `i` of at most 64 bits.
    ///
    /// Zero is positive zero. Otherwise the sign bit is that of `i`, the
    /// exponent field is `1023 + k` for a magnitude with leading bit at
    /// position `k`, and the fraction field is `significand_of(i)` without
    /// its leading bit. A significand that rounding carried to `2^53` runs
    /// over into the exponent field, which is what the format asks for.
    pub open spec fn nearest(i: int) -> Binary64
        recommends
            i64::MIN <= i <= i64::MAX,
    {
        if i == 0 {
            Binary64 { bits: 0 }
        } else {
            let k = floor_log2(magnitude_of(i));
            let sign = if i < 0 { SIGN_BIT as nat } else { 0 };
            Binary64 { bits: (sign + (1022 + k) * HIDDEN_BIT + significand_of(i)) as u64 }
        }
    }

    /// Widens a 64-bit signed integer to binary64, as a conversion in
    /// round-to-nearest, ties-to-even mode does.
    ///
    /// The result is the finite value nearest to `i`, and so `i` itself
    /// wherever binary64 holds it; its pattern is the one that `nearest`
    /// spells out.
    pub fn from_i64(i: i64) -> (r: Binary64)
        ensures
            r == Binary64::nearest(i as int),
            r.is_nearest_to(i as int),
            r.spec_is_zero() <==> i == 0,
    {
        proof {
            lemma_widening_rounds_to_nearest(i as int);
            lemma_nearest_is_zero_only_for_zero(i as int);
        }
        if i == 0 {
            return Binary64 { bits: 0 };
        }
        let negative = i < 0;
        let m: u64 = if i == i64::MIN {
            SIGN_BIT
        } else if negative {
            (-i) as u64
        } else {
            i as u64
        };
        proof {
            lemma2_to64();
            lemma2_to64_rest();
        }
        // The leading bit of m: p == 2^k <= m < 2^(k+1).
        let mut k: u64 = 0;
        let mut p: u64 = 1;
        while p <= m / 2
            invariant
                1 <= m <= SIGN_BIT,
                p == pow2(k as nat),
                p <= m,
                k <= 63,
            decreases m - p,
        {
            proof {
                lemma_pow2_unfold((k + 1) as nat);
                lemma_pow2_pos(k as nat);
                lemma2_to64_rest();
            }
            p = p * 2;
            k = k + 1;
        }
        proof {
            lemma_floor_log2_unique(m as nat, k as nat);
        }
        let significand: u64 = if k <= 52 {
            let scale = HIDDEN_BIT / p;
            proof {
                lemma_pow2_subtracts(k as nat, 52);
                lemma_pow2_adds(k as nat, (52 - k) as nat);
                assert(m * scale < 2 * HIDDEN_BIT) by (nonlinear_arith)
                    requires
                        m < 2 * p,
                        p * scale == HIDDEN_BIT,
                        scale > 0,
                ;
            }
            m * scale
        } else {
            let unit = p / HIDDEN_BIT;
            proof {
                lemma_pow2_subtracts(52, k as nat);
                lemma_pow2_adds(52, (k - 52) as nat);
                assert(m / unit < 2 * HIDDEN_BIT) by (nonlinear_arith)
                    requires
                        m < 2 * p,
                        HIDDEN_BIT * unit == p,
                        unit > 0,
                ;
            }
            let q = m / unit;
            let r = m % unit;
            if 2 * r > unit || (2 * r == unit && q % 2 == 1) {
                q + 1
            } else {
                q
            }
        };
        let sign: u64 = if negative {
            SIGN_BIT
        } else {
            0
        };
        Binary64 { bits: sign + (1022 + k) * HIDDEN_BIT + significand }
    }

    /// Wraps a bit pattern.
    pub fn from_bits(bits: u64) -> (r: Binary64)
        ensures
            r.bits == bits,
    {
        Binary64 { bits }
    }

    /// The bit pattern.
    pub fn to_bits(&self) -> (r: u64)
        ensures
            r == self.bits,
    {
        self.bits
    }

    /// Whether the value compares equal to 0.0, which both zeros do and
    /// nothing else does.
    #[verifier::when_used_as_spec(spec_is_zero)]
    pub fn is_zero(&self) -> (r: bool)
        ensures
            r == self.spec_is_zero(),
    {
        self.bits == 0 || self.bits == SIGN_BIT
    }
}

} // verus!
