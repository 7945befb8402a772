//! Normalization tests: raw decimal amounts are rounded half to even at
//! the fourth fractional digit before any balance arithmetic.

use std::str::FromStr;

use ledger::amount::round_to_units;
use ledger::config::Config;
use ledger::decimal::amount_from_decimal;
use ledger::generate::generate_client_accounts;
use ledger::transactions::Transaction;
use rust_decimal::Decimal;

#[test]
fn normalization_drops_extra_digits() {
    // 1.123456789 rounds to 1.1235
    assert_eq!(round_to_units(1123456789, 9), Some(11235));
}

#[test]
fn normalization_ties_go_to_even() {
    // 1.12345 rounds to 1.1234, 1.12355 rounds to 1.1236
    assert_eq!(round_to_units(112345, 5), Some(11234));
    assert_eq!(round_to_units(112355, 5), Some(11236));
    // 0.00005 rounds to 0.0000, 0.00025 rounds to 0.0002
    assert_eq!(round_to_units(5, 5), Some(0));
    assert_eq!(round_to_units(25, 5), Some(2));
}

#[test]
fn normalization_is_sign_symmetric() {
    assert_eq!(round_to_units(-1123456789, 9), Some(-11235));
    assert_eq!(round_to_units(-112345, 5), Some(-11234));
}

#[test]
fn normalization_widens_short_scales() {
    // 1.5 is 15000 ten-thousandths; 5 is 50000
    assert_eq!(round_to_units(15, 1), Some(15000));
    assert_eq!(round_to_units(5, 0), Some(50000));
    assert_eq!(round_to_units(11235, 4), Some(11235));
}

#[test]
fn normalization_rejects_unrepresentable_values() {
    // 2^95 whole units exceed the unit range
    assert_eq!(round_to_units(39614081257132168796771975168, 0), None);
}

#[test]
fn decimal_amounts_normalize_through_mantissa_and_scale() {
    let raw = Decimal::from_str("1.123456789").unwrap();
    assert_eq!(amount_from_decimal(&raw), Some(11235));

    let short = Decimal::from_str("1.5").unwrap();
    assert_eq!(amount_from_decimal(&short), Some(15000));

    let negative = Decimal::from_str("-11.12345").unwrap();
    assert_eq!(amount_from_decimal(&negative), Some(-111234));
}

#[test]
fn deposits_are_normalized_before_balance_arithmetic() {
    let raw = Decimal::from_str("1.123456789").unwrap();
    let units = amount_from_decimal(&raw).unwrap();
    let transactions = vec![Transaction::new_deposit(1, 1, Some(units))];
    let result = generate_client_accounts(transactions);

    let c1 = result.get(&1).unwrap();
    assert_eq!(c1.available, 11235);
    assert_eq!(c1.total, 11235);
}

#[test]
fn config_keeps_the_file_location() {
    let config = Config::new(String::from("transactions.csv"));
    assert_eq!(config.transaction_file, "transactions.csv");
}
