//! A fixed-precision decimal: an integer mantissa scaled by a power of ten,
//! in the range that rust_decimal's `Decimal` holds.

use vstd::prelude::*;
use vstd::arithmetic::div_mod::lemma_div_is_ordered_by_denominator;

verus! {

/// The largest mantissa magnitude: 2^96 - 1.
pub const MAX_MANTISSA: i128 = 79228162514264337593543950335;

/// The largest number of fractional digits.
pub const MAX_SCALE: u32 = 28;

/// The number `mantissa / 10^scale`.
#[derive(Clone, Copy, Debug, PartialEq, Eq, Structural)]
pub struct Decimal {
    pub mantissa: i128,
    pub scale: u32,
}

pub open spec fn pow10(n: nat) -> nat
    decreases n,
{
    if n == 0 {
        1
    } else {
        10 * pow10((n - 1) as nat)
    }
}

pub open spec fn abs(m: int) -> nat {
    if m < 0 {
        (-m) as nat
    } else {
        m as nat
    }
}

/// `n / d` rounded to the nearest integer, ties to the even one.
pub open spec fn round_half_even(n: nat, d: nat) -> nat
    recommends
        d > 0,
{
    let q = n / d;
    let r = n % d;
    if 2 * r > d || (2 * r == d && q % 2 == 1) {
        q + 1
    } else {
        q
    }
}

/// The mantissa of `mantissa / 10^scale` rounded to `dp` fractional digits,
/// half to even on the magnitude; unchanged where `scale <= dp`.
pub open spec fn rounded_mantissa(mantissa: int, scale: nat, dp: nat) -> int {
    if scale <= dp {
        mantissa
    } else {
        let mag = round_half_even(abs(mantissa), pow10((scale - dp) as nat));
        if mantissa < 0 {
            -mag
        } else {
            mag as int
        }
    }
}

/// The scale after rounding to `dp` fractional digits.
pub open spec fn rounded_scale(scale: nat, dp: nat) -> nat {
    if scale <= dp {
        scale
    } else {
        dp
    }
}

impl Decimal {
    pub open spec fn wf(self) -> bool {
        &&& -MAX_MANTISSA <= self.mantissa <= MAX_MANTISSA
        &&& self.scale <= MAX_SCALE
    }

    /// This value rounded to `dp` fractional digits, half to even.
    pub open spec fn round_dp_spec(self, dp: nat) -> Decimal {
        Decimal {
            mantissa: rounded_mantissa(self.mantissa as int, self.scale as nat, dp) as i128,
            scale: rounded_scale(self.scale as nat, dp) as u32,
        }
    }

    /// The decimal `mantissa / 10^scale`, where both are in range.
    pub fn new(mantissa: i128, scale: u32) -> (r: Option<Decimal>)
        ensures
            match r {
                Some(d) => d.mantissa == mantissa && d.scale == scale && d.wf(),
                None => !(Decimal { mantissa, scale }).wf(),
            },
    {
        if -MAX_MANTISSA <= mantissa && mantissa <= MAX_MANTISSA && scale <= MAX_SCALE {
            Some(Decimal { mantissa, scale })
        } else {
            None
        }
    }

    /// Rounds to `dp` fractional digits, half to even; a value with at most
    /// `dp` fractional digits is returned as it is.
    pub fn round_dp(&self, dp: u32) -> (r: Decimal)
        requires
            self.wf(),
        ensures
            r == self.round_dp_spec(dp as nat),
            r.wf(),
    {
        proof {
            lemma_rounded_in_range(self.mantissa as int, self.scale as nat, dp as nat);
        }
        let (mantissa, scale) = round_dp_parts(self.mantissa, self.scale, dp);
        Decimal { mantissa, scale }
    }
}

proof fn lemma_pow10_positive(n: nat)
    ensures
        pow10(n) >= 1,
        n >= 1 ==> pow10(n) >= 10,
    decreases n,
{
    if n > 0 {
        lemma_pow10_positive((n - 1) as nat);
    }
}

/// Rounding to fewer fractional digits never leaves the mantissa range.
pub proof fn lemma_rounded_in_range(mantissa: int, scale: nat, dp: nat)
    requires
        -MAX_MANTISSA <= mantissa <= MAX_MANTISSA,
        scale <= MAX_SCALE,
    ensures
        -MAX_MANTISSA <= rounded_mantissa(mantissa, scale, dp) <= MAX_MANTISSA,
        rounded_scale(scale, dp) <= MAX_SCALE,
{
    if scale > dp {
        let d = pow10((scale - dp) as nat);
        lemma_pow10_positive((scale - dp) as nat);
        let n = abs(mantissa);
        lemma_div_is_ordered_by_denominator(n as int, 10, d as int);
        assert(n / 10 < MAX_MANTISSA);
    }
}

/// Relies on rust_decimal's `Decimal::round_dp`, reached through
/// `Decimal::from_i128_with_scale` and read back through `mantissa` and
/// `scale`: it rounds half to even on the magnitude to `dp` fractional digits
/// and returns a value that has at most `dp` of them unchanged.
#[verifier::external_body]
fn round_dp_parts(mantissa: i128, scale: u32, dp: u32) -> (r: (i128, u32))
    requires
        -MAX_MANTISSA <= mantissa <= MAX_MANTISSA,
        scale <= MAX_SCALE,
    ensures
        r.0 == rounded_mantissa(mantissa as int, scale as nat, dp as nat),
        r.1 == rounded_scale(scale as nat, dp as nat),
{
    let d = rust_decimal::Decimal::from_i128_with_scale(mantissa, scale).round_dp(dp);
    (d.mantissa(), d.scale())
}

} // verus!
