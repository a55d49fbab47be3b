//! An exact decimal amount: a 96-bit unsigned mantissa, a sign, and a decimal
//! scale of at most 28, denoting `mantissa / 10^scale`, negated when the sign
//! is set. This mirrors the layout of the decimal column values the portfolio
//! carries, without any floating-point representation.

use vstd::prelude::*;

verus! {

/// Smallest mantissa that no longer fits in 96 bits.
pub const MANTISSA_LIMIT: u128 = 0x1000000000000000000000000;

/// Largest admissible scale: the value is `mantissa / 10^scale`.
pub const MAX_SCALE: u32 = 28;

/// An exact decimal value, `mantissa / 10^scale`, negated when `negative`.
#[derive(Clone, Copy, Debug, PartialEq, Eq, Structural)]
pub struct Decimal {
    pub negative: bool,
    pub mantissa: u128,
    pub scale: u32,
}

/// 10 raised to `e`.
pub open spec fn pow10(e: nat) -> nat
    decreases e,
{
    if e == 0 {
        1
    } else {
        10 * pow10((e - 1) as nat)
    }
}

impl Decimal {
    /// A decimal is well formed when its mantissa fits in 96 bits and its
    /// scale does not exceed the supported precision.
    pub open spec fn wf(self) -> bool {
        self.mantissa < MANTISSA_LIMIT && self.scale <= MAX_SCALE
    }

    /// The value of the decimal, scaled by `10^MAX_SCALE` so that it is an
    /// integer: two decimals denote the same amount exactly when their
    /// scaled units agree.
    pub open spec fn units(self) -> int
        recommends
            self.wf(),
    {
        let magnitude = self.mantissa * pow10((MAX_SCALE - self.scale) as nat);
        if self.negative {
            -(magnitude as int)
        } else {
            magnitude as int
        }
    }

    /// Builds a decimal, rejecting a mantissa or scale that is out of range.
    pub fn try_new(negative: bool, mantissa: u128, scale: u32) -> (r: Option<Decimal>)
        ensures
            r is Some <==> (mantissa < MANTISSA_LIMIT && scale <= MAX_SCALE),
            r is Some ==> r == Some(Decimal { negative, mantissa, scale }),
    {
        if mantissa < MANTISSA_LIMIT && scale <= MAX_SCALE {
            Some(Decimal { negative, mantissa, scale })
        } else {
            None
        }
    }

    /// Builds a well-formed decimal from its parts.
    pub fn new(negative: bool, mantissa: u128, scale: u32) -> (r: Decimal)
        requires
            mantissa < MANTISSA_LIMIT,
            scale <= MAX_SCALE,
        ensures
            r == (Decimal { negative, mantissa, scale }),
            r.wf(),
    {
        Decimal { negative, mantissa, scale }
    }

    /// Whether two decimals denote the same amount, even when written with
    /// different scales, as `0.50` and `0.5` are.
    pub fn eq_value(&self, other: &Decimal) -> (r: bool)
        requires
            self.wf(),
            other.wf(),
        ensures
            r <==> self.units() == other.units(),
    {
        let (small, large) = if self.scale <= other.scale {
            (self, other)
        } else {
            (other, self)
        };
        let diff = large.scale - small.scale;
        let ghost rescaled: int = small.mantissa * pow10(diff as nat);
        let ghost rest: int = pow10((MAX_SCALE - large.scale) as nat) as int;
        proof {
            lemma_pow10_pos((MAX_SCALE - large.scale) as nat);
            lemma_units_rescale(*small, *large);
            lemma_signed_products(
                rescaled,
                small.negative,
                large.mantissa as int,
                large.negative,
                rest,
            );
        }
        match small.mantissa.checked_mul(pow10_u128(diff)) {
            Some(m) => m == large.mantissa && (small.negative == large.negative || m == 0),
            None => false,
        }
    }
}

/// 10 raised to `e`, computed exactly; `e` stays within the decimal range.
pub fn pow10_u128(e: u32) -> (r: u128)
    requires
        e <= MAX_SCALE,
    ensures
        r == pow10(e as nat),
{
    let mut r: u128 = 1;
    let mut k: u32 = 0;
    while k < e
        invariant
            k <= e <= MAX_SCALE,
            r == pow10(k as nat),
        decreases e - k,
    {
        proof {
            lemma_pow10_bounds();
            lemma_pow10_increases(k as nat + 1, MAX_SCALE as nat);
        }
        r = r * 10;
        k = k + 1;
    }
    r
}

/// `pow10` is positive.
pub proof fn lemma_pow10_pos(e: nat)
    ensures
        pow10(e) >= 1,
    decreases e,
{
    if e > 0 {
        lemma_pow10_pos((e - 1) as nat);
    }
}

/// `pow10` is monotonic in the exponent.
pub proof fn lemma_pow10_increases(e1: nat, e2: nat)
    requires
        e1 <= e2,
    ensures
        pow10(e1) <= pow10(e2),
    decreases e2,
{
    if e1 < e2 {
        lemma_pow10_increases(e1, (e2 - 1) as nat);
        lemma_pow10_pos((e2 - 1) as nat);
    }
}

/// Splitting an exponent splits the power into a product.
pub proof fn lemma_pow10_adds(e1: nat, e2: nat)
    ensures
        pow10(e1 + e2) == pow10(e1) * pow10(e2),
    decreases e1,
{
    if e1 == 0 {
        assert(pow10(e1) == 1);
        assert(pow10(e1 + e2) == 1 * pow10(e2));
    } else {
        lemma_pow10_adds((e1 - 1) as nat, e2);
        assert(pow10(e1 + e2) == 10 * pow10((e1 - 1) as nat + e2));
        assert(pow10(e1) == 10 * pow10((e1 - 1) as nat));
        assert(10 * (pow10((e1 - 1) as nat) * pow10(e2)) == (10 * pow10((e1 - 1) as nat)) * pow10(
            e2,
        )) by (nonlinear_arith);
        assert(pow10(e1 + e2) == pow10(e1) * pow10(e2));
    }
}

/// The largest power in use fits comfortably below the 96-bit mantissa bound.
pub proof fn lemma_pow10_bounds()
    ensures
        pow10(MAX_SCALE as nat) == 0x204fce5e3e25026110000000u128,
{
    reveal_with_fuel(pow10, 29);
}

/// Rescaling the smaller-scale mantissa aligns the two unit counts: the
/// magnitude of the smaller-scale decimal is its rescaled mantissa times the
/// power the two scales still share.
proof fn lemma_units_rescale(small: Decimal, large: Decimal)
    requires
        small.wf(),
        large.wf(),
        small.scale <= large.scale,
    ensures
        small.mantissa * pow10((MAX_SCALE - small.scale) as nat) == (small.mantissa * pow10(
            (large.scale - small.scale) as nat,
        )) * pow10((MAX_SCALE - large.scale) as nat),
{
    let diff = (large.scale - small.scale) as nat;
    let rest = (MAX_SCALE - large.scale) as nat;
    lemma_pow10_adds(diff, rest);
    assert(small.mantissa * (pow10(diff) * pow10(rest)) == (small.mantissa * pow10(diff)) * pow10(
        rest,
    )) by (nonlinear_arith);
}

/// Two signed products over the same positive factor agree exactly when the
/// nonnegative magnitudes agree and the signs agree or the magnitude is zero.
proof fn lemma_signed_products(a: int, an: bool, b: int, bn: bool, rest: int)
    requires
        a >= 0,
        b >= 0,
        rest > 0,
    ensures
        ((if an {
            -(a * rest)
        } else {
            a * rest
        }) == (if bn {
            -(b * rest)
        } else {
            b * rest
        })) <==> (a == b && (an == bn || a == 0)),
{
    assert(((if an {
        -(a * rest)
    } else {
        a * rest
    }) == (if bn {
        -(b * rest)
    } else {
        b * rest
    })) <==> (a == b && (an == bn || a == 0))) by (nonlinear_arith)
        requires
            a >= 0,
            b >= 0,
            rest > 0,
    ;
}

} // verus!
