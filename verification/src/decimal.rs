//! The boundary to `rust_decimal`: ingestion parses raw amounts into
//! `rust_decimal::Decimal`, and the library normalizes such a value into
//! its own fixed-precision unit count by reading the decimal's mantissa
//! and scale and rounding in verified code (see `amount`).

use vstd::prelude::*;
use crate::amount::{in_units_range, round_to_units, rounded_units};

verus! {

/// `rust_decimal::Decimal` carries a raw decimal value as a 96-bit
/// mantissa scaled by a power of ten; the library reads only the mantissa
/// and the scale.
#[verifier::external_type_specification]
#[verifier::external_body]
pub struct ExDecimal(rust_decimal::Decimal);

/// The mantissa of a decimal: a pure function of the value alone.
pub uninterp spec fn decimal_mantissa(d: rust_decimal::Decimal) -> i128;

/// The scale of a decimal: a pure function of the value alone.
pub uninterp spec fn decimal_scale(d: rust_decimal::Decimal) -> u32;

/// Relies on rust_decimal::Decimal::mantissa: the result depends on the
/// decimal alone, and the mantissa is assembled from three 32-bit words
/// and a sign, so its magnitude stays below 2^96.
pub assume_specification[ rust_decimal::Decimal::mantissa ](d: &rust_decimal::Decimal) -> (r: i128)
    ensures
        r == decimal_mantissa(*d),
        -0x1_0000_0000_0000_0000_0000_0000 < r < 0x1_0000_0000_0000_0000_0000_0000,
;

/// Relies on rust_decimal::Decimal::scale: the result depends on the
/// decimal alone, and the scaling factor is documented to lie in the
/// range 0..=28.
pub assume_specification[ rust_decimal::Decimal::scale ](d: &rust_decimal::Decimal) -> (r: u32)
    ensures
        r == decimal_scale(*d),
        r <= 28,
;

/// The count of ten-thousandths a raw decimal amount normalizes to,
/// rounding half to even at the fourth fractional digit; `None` exactly
/// when the rounded value falls outside the representable unit range.
pub fn amount_from_decimal(d: &rust_decimal::Decimal) -> (r: Option<i64>)
    ensures
        r == (if in_units_range(
            rounded_units(decimal_mantissa(*d) as int, decimal_scale(*d) as nat),
        ) {
            Some(rounded_units(decimal_mantissa(*d) as int, decimal_scale(*d) as nat) as i64)
        } else {
            None::<i64>
        }),
{
    round_to_units(d.mantissa(), d.scale())
}

} // verus!
