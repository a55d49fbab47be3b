use portfolio_core::codec::{from_storage, to_storage, CodecError, StorageNumber};
use portfolio_core::decimal::Decimal;
use rust_decimal::prelude::{FromPrimitive, ToPrimitive};

fn dec(negative: bool, mantissa: u128, scale: u32) -> Decimal {
    Decimal::try_new(negative, mantissa, scale).expect("decimal parts in range")
}

fn to_rust(d: &Decimal) -> rust_decimal::Decimal {
    let signed: i128 = if d.negative { -(d.mantissa as i128) } else { d.mantissa as i128 };
    rust_decimal::Decimal::from_i128_with_scale(signed, d.scale)
}

#[test]
fn round_trip_exact_binary_fractions() {
    // 0.5, 0.25 and 10 are exact binary fractions: the storage round trip
    // returns them unchanged.
    for d in [dec(false, 5, 1), dec(false, 25, 2), dec(false, 10, 0)] {
        let back = from_storage(&to_storage(&d)).expect("finite value decodes");
        assert_eq!(back, d);
        assert!(back.eq_value(&d));
    }
}

#[test]
fn round_trip_inexact_fraction_bounded_error() {
    // 0.1 is not an exact binary fraction, so the round trip may not return
    // the identical value; the error stays far below any monetary epsilon.
    let d = dec(false, 1, 1);
    let back = from_storage(&to_storage(&d)).expect("finite value decodes");
    let diff = (to_rust(&back) - to_rust(&d)).abs();
    let eps = rust_decimal::Decimal::new(1, 9); // 1e-9
    assert!(diff < eps, "round trip of 0.1 drifted by {diff}");
}

#[test]
fn round_trip_matches_storage_engine_composition() {
    // The codec reproduces exactly what writing to a double column and
    // reading it back produces: to_f64 followed by from_f64.
    for d in [dec(false, 1, 1), dec(true, 625, 4), dec(false, 333333, 6), dec(false, 0, 0)] {
        let back = from_storage(&to_storage(&d)).expect("finite value decodes");
        let expected =
            rust_decimal::Decimal::from_f64(to_rust(&d).to_f64().unwrap()).expect("in range");
        assert_eq!(to_rust(&back), expected);
    }
}

#[test]
fn to_storage_is_the_double_bit_pattern() {
    let half = dec(false, 5, 1);
    assert_eq!(to_storage(&half).bits, (0.5f64).to_bits());
    let neg = dec(true, 25, 1);
    assert_eq!(to_storage(&neg).bits, (-2.5f64).to_bits());
}

#[test]
fn from_storage_decodes_plain_bits() {
    let n = StorageNumber { bits: (2.5f64).to_bits() };
    let back = from_storage(&n).expect("finite value decodes");
    assert_eq!(back, dec(false, 25, 1));
}

#[test]
fn from_storage_rejects_nan_and_infinity() {
    for bits in [f64::NAN.to_bits(), f64::INFINITY.to_bits(), f64::NEG_INFINITY.to_bits()] {
        let r = from_storage(&StorageNumber { bits });
        assert!(matches!(r, Err(CodecError::Unrepresentable)));
    }
}

#[test]
fn from_storage_rejects_out_of_range_finite() {
    // 1e300 is finite but far beyond the decimal range.
    let r = from_storage(&StorageNumber { bits: (1e300f64).to_bits() });
    assert!(matches!(r, Err(CodecError::Unrepresentable)));
}

#[test]
fn eq_value_ignores_scale() {
    assert!(dec(false, 5, 1).eq_value(&dec(false, 50, 2)));
    assert!(dec(false, 5, 1).eq_value(&dec(false, 5000, 4)));
    assert!(!dec(false, 5, 1).eq_value(&dec(false, 25, 2)));
    assert!(!dec(false, 5, 1).eq_value(&dec(true, 5, 1)));
}

#[test]
fn eq_value_treats_signed_zero_as_zero() {
    assert!(dec(true, 0, 0).eq_value(&dec(false, 0, 0)));
    assert!(dec(true, 0, 5).eq_value(&dec(false, 0, 0)));
}

#[test]
fn eq_value_handles_rescale_overflow() {
    // Rescaling the full 96-bit mantissa by 10^28 overflows 128 bits; the
    // values still compare correctly as unequal.
    let big = dec(false, 0xFFFFFFFFFFFFFFFFFFFFFFFF, 0);
    let small = dec(false, 1, 28);
    assert!(!big.eq_value(&small));
    assert!(big.eq_value(&big));
}

#[test]
fn try_new_enforces_bounds() {
    assert!(Decimal::try_new(false, 1 << 96, 0).is_none());
    assert!(Decimal::try_new(false, 0, 29).is_none());
    assert!(Decimal::try_new(false, (1 << 96) - 1, 28).is_some());
}
