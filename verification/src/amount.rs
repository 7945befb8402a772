//! Fixed-precision monetary amounts.
//!
//! An amount is a signed count of ten-thousandths of a currency unit, so
//! every value carries exactly four fractional digits and all balance
//! arithmetic is exact. Raw decimal inputs, given as an integer mantissa
//! scaled by a power of ten, are normalized here by rounding half to even
//! at the fourth fractional digit.

use vstd::prelude::*;

verus! {

/// `ten_pow(n)` is `10^n`.
pub open spec fn ten_pow(n: nat) -> int
    decreases n,
{
    if n == 0 {
        1
    } else {
        10 * ten_pow((n - 1) as nat)
    }
}

pub proof fn lemma_ten_pow_pos(n: nat)
    ensures
        ten_pow(n) >= 1,
    decreases n,
{
    if n > 0 {
        lemma_ten_pow_pos((n - 1) as nat);
    }
}

pub proof fn lemma_ten_pow_increases(m: nat, n: nat)
    requires
        m <= n,
    ensures
        ten_pow(m) <= ten_pow(n),
    decreases n,
{
    if m < n {
        lemma_ten_pow_increases(m, (n - 1) as nat);
        lemma_ten_pow_pos((n - 1) as nat);
    }
}

/// `m / d` rounded to the nearest integer, ties to the even neighbour;
/// meant for `m >= 0` and `d > 0`.
pub open spec fn div_round_half_even(m: int, d: int) -> int
    recommends
        m >= 0,
        d > 0,
{
    let q = m / d;
    let r = m % d;
    if 2 * r < d {
        q
    } else if 2 * r > d {
        q + 1
    } else if q % 2 == 0 {
        q
    } else {
        q + 1
    }
}

/// The count of ten-thousandths that the decimal value
/// `mantissa * 10^-scale` normalizes to: exact when the value has at most
/// four fractional digits, otherwise rounded half to even at the fourth.
pub open spec fn rounded_units(mantissa: int, scale: nat) -> int {
    if scale <= 4 {
        mantissa * ten_pow((4 - scale) as nat)
    } else if mantissa >= 0 {
        div_round_half_even(mantissa, ten_pow((scale - 4) as nat))
    } else {
        -div_round_half_even(-mantissa, ten_pow((scale - 4) as nat))
    }
}

/// The unit counts a balance word can carry.
pub open spec fn in_units_range(v: int) -> bool {
    -0x7fff_ffff_ffff_ffff <= v <= 0x7fff_ffff_ffff_ffff
}

fn pow10_u128(n: u32) -> (r: u128)
    requires
        n <= 24,
    ensures
        r as int == ten_pow(n as nat),
        r >= 1,
{
    proof {
        reveal_with_fuel(ten_pow, 26);
    }
    match n {
        0 => 1,
        1 => 10,
        2 => 100,
        3 => 1000,
        4 => 10000,
        5 => 100000,
        6 => 1000000,
        7 => 10000000,
        8 => 100000000,
        9 => 1000000000,
        10 => 10000000000,
        11 => 100000000000,
        12 => 1000000000000,
        13 => 10000000000000,
        14 => 100000000000000,
        15 => 1000000000000000,
        16 => 10000000000000000,
        17 => 100000000000000000,
        18 => 1000000000000000000,
        19 => 10000000000000000000,
        20 => 100000000000000000000,
        21 => 1000000000000000000000,
        22 => 10000000000000000000000,
        23 => 100000000000000000000000,
        24 => 1000000000000000000000000,
        _ => {
            assert(false);
            0
        },
    }
}

/// Normalize the decimal value `mantissa * 10^-scale` to ten-thousandths,
/// rounding half to even at the fourth fractional digit. Returns `None`
/// exactly when the rounded value falls outside the representable unit
/// range. The mantissa bound is the domain of a 96-bit decimal mantissa.
pub fn round_to_units(mantissa: i128, scale: u32) -> (r: Option<i64>)
    requires
        scale <= 28,
        -0x1_0000_0000_0000_0000_0000_0000 < mantissa < 0x1_0000_0000_0000_0000_0000_0000,
    ensures
        r is Some <==> in_units_range(rounded_units(mantissa as int, scale as nat)),
        r matches Some(u) ==> u == rounded_units(mantissa as int, scale as nat),
{
    let neg: bool = mantissa < 0;
    let mag: u128 = if neg {
        (-mantissa) as u128
    } else {
        mantissa as u128
    };
    let units_mag: u128 = if scale <= 4 {
        let factor: u128 = pow10_u128(4 - scale);
        proof {
            lemma_ten_pow_increases((4 - scale) as nat, 4);
            reveal_with_fuel(ten_pow, 6);
            assert(mag * factor <= 0xffff_ffff_ffff_ffff_ffff_ffff * 10000) by (nonlinear_arith)
                requires
                    mag <= 0xffff_ffff_ffff_ffff_ffff_ffff,
                    factor <= 10000,
            ;
            if neg {
                assert((-(mag as int)) * (factor as int) == -((mag as int) * (factor as int)))
                    by (nonlinear_arith);
            }
        }
        mag * factor
    } else {
        let d: u128 = pow10_u128(scale - 4);
        let q: u128 = mag / d;
        let rem: u128 = mag % d;
        proof {
            lemma_ten_pow_increases((scale - 4) as nat, 24);
            reveal_with_fuel(ten_pow, 26);
        }
        let twice: u128 = 2 * rem;
        if twice < d {
            q
        } else if twice > d {
            q + 1
        } else if q % 2 == 0 {
            q
        } else {
            q + 1
        }
    };
    if units_mag <= 0x7fff_ffff_ffff_ffff {
        let u: i64 = units_mag as i64;
        if neg {
            Some(-u)
        } else {
            Some(u)
        }
    } else {
        None
    }
}

} // verus!
