//! Conversion between exact decimals and the storage engine's native
//! floating-point column type. The stored number is carried as the bit
//! pattern of a double-precision float, so the lossy encoding is confined to
//! this one seam: everything around it works on exact decimals.

use vstd::prelude::*;

use crate::decimal::Decimal;

verus! {

/// A value as the storage engine keeps it: the bit pattern of the
/// double-precision float written to the numeric column.
#[derive(Clone, Copy, Debug, PartialEq, Eq, Structural)]
pub struct StorageNumber {
    pub bits: u64,
}

/// Failure to read a stored number back as a decimal.
#[derive(Clone, Copy, Debug, PartialEq, Eq, Structural)]
pub enum CodecError {
    /// The stored bits do not denote a decimal value: NaN, an infinity, or a
    /// finite value outside the decimal range.
    Unrepresentable,
}

/// Bit pattern of the double-precision approximation of a decimal value.
pub uninterp spec fn storage_of(d: Decimal) -> u64;

/// The decimal read back from a stored double-precision bit pattern, `None`
/// when the bits denote no decimal value.
pub uninterp spec fn decoded(bits: u64) -> Option<Decimal>;

/// Relies on rust_decimal::Decimal::from_i128_with_scale and
/// rust_decimal::prelude::ToPrimitive::to_f64: the double-precision
/// approximation of the decimal value, a function of its parts alone.
#[verifier::external_body]
fn encode_bits(d: &Decimal) -> (r: u64)
    requires
        d.wf(),
    ensures
        r == storage_of(*d),
{
    let signed: i128 = if d.negative { -(d.mantissa as i128) } else { d.mantissa as i128 };
    let dec = rust_decimal::Decimal::from_i128_with_scale(signed, d.scale);
    rust_decimal::prelude::ToPrimitive::to_f64(&dec).unwrap_or_default().to_bits()
}

/// Relies on borsh::from_slice, which reads eight little-endian bytes back as
/// a double and fails on NaN, and on rust_decimal's from_f64, which parses a
/// float into a decimal and returns None for NaN, infinities, and values out
/// of range; from_f64 is also None on NaN, so the two failure paths agree.
/// The result is a function of the bits alone, and any decimal it yields
/// satisfies rust_decimal's own bounds: a 96-bit mantissa, a scale of at
/// most 28.
#[verifier::external_body]
fn decode_bits(bits: u64) -> (r: Option<Decimal>)
    ensures
        r == decoded(bits),
        r is Some ==> decoded(bits).unwrap().wf(),
{
    match borsh::from_slice(&bits.to_le_bytes()) {
        Ok(f) => match rust_decimal::prelude::FromPrimitive::from_f64(f) {
            Some(dec) => {
                let m: i128 = rust_decimal::Decimal::mantissa(&dec);
                Some(Decimal {
                    negative: m < 0,
                    mantissa: m.unsigned_abs(),
                    scale: rust_decimal::Decimal::scale(&dec),
                })
            },
            None => None,
        },
        Err(_) => None,
    }
}

/// Encodes an exact decimal as the nearest the storage column can keep. The
/// encoding is lossy for values that are not exact binary fractions; this
/// function is the only place a decimal turns into a stored number.
pub fn to_storage(d: &Decimal) -> (r: StorageNumber)
    requires
        d.wf(),
    ensures
        r.bits == storage_of(*d),
{
    StorageNumber { bits: encode_bits(d) }
}

/// Reads a stored number back as an exact decimal, failing on bits that
/// denote no decimal value; this function is the only place a stored number
/// turns back into a decimal.
pub fn from_storage(n: &StorageNumber) -> (r: Result<Decimal, CodecError>)
    ensures
        r is Ok <==> decoded(n.bits) is Some,
        r is Ok ==> r == Ok::<Decimal, CodecError>(decoded(n.bits).unwrap()) && decoded(
            n.bits,
        ).unwrap().wf(),
        r is Err ==> r == Err::<Decimal, CodecError>(CodecError::Unrepresentable),
{
    match decode_bits(n.bits) {
        Some(d) => Ok(d),
        None => Err(CodecError::Unrepresentable),
    }
}

} // verus!
