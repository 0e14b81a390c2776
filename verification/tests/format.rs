use carteira::format::{brl_from_cents, group_thousands, percent_from_fixed, quantity_from_fixed};

// The application rounds or prints the float before handing it to the
// library; these helpers do the same, so that the expectations below are
// those of the application's own formatting functions.

fn brl(value: f64) -> String {
    brl_from_cents((value.abs() * 100.0).round() as u128, value < 0.0)
}

fn quantity(value: f64) -> String {
    quantity_from_fixed(&format!("{value:.8}"), value < 0.0)
}

fn percent(value: f64) -> String {
    percent_from_fixed(&format!("{value:.1}"))
}

#[test]
fn formats_currency_with_thousand_separators() {
    assert_eq!(brl(212_200.0), "212.200,00");
    assert_eq!(brl(1_234_567.89), "1.234.567,89");
    assert_eq!(brl(999.0), "999,00");
    assert_eq!(brl(0.0), "0,00");
}

#[test]
fn formats_currency_below_one_real() {
    assert_eq!(brl(0.5), "0,50");
    assert_eq!(brl(0.05), "0,05");
}

#[test]
fn rounds_currency_to_cents() {
    assert_eq!(brl(10.005), "10,01");
    assert_eq!(brl(10.004), "10,00");
}

#[test]
fn formats_negative_currency() {
    assert_eq!(brl(-1_500.25), "-1.500,25");
}

#[test]
fn quantity_drops_trailing_zeros() {
    assert_eq!(quantity(3.0), "3");
    assert_eq!(quantity(0.5), "0,5");
    assert_eq!(quantity(1.25), "1,25");
}

#[test]
fn quantity_keeps_small_fractions() {
    assert_eq!(quantity(0.000_005), "0,000005");
}

#[test]
fn quantity_groups_large_amounts() {
    assert_eq!(quantity(1_500_000.0), "1.500.000");
}

#[test]
fn formats_percent_with_one_decimal() {
    assert_eq!(percent(75.0), "75,0");
    assert_eq!(percent(33.333), "33,3");
}

#[test]
fn groups_thousands_from_the_right() {
    assert_eq!(group_thousands(212_200), "212.200");
    assert_eq!(group_thousands(1_234_567), "1.234.567");
    assert_eq!(group_thousands(999), "999");
    assert_eq!(group_thousands(1_000), "1.000");
    assert_eq!(group_thousands(0), "0");
    assert_eq!(group_thousands(100_000), "100.000");
    assert_eq!(
        group_thousands(u128::MAX),
        "340.282.366.920.938.463.463.374.607.431.768.211.455"
    );
}

#[test]
fn formats_cents_with_thousand_separators() {
    assert_eq!(brl_from_cents(21_220_000, false), "212.200,00");
    assert_eq!(brl_from_cents(123_456_789, false), "1.234.567,89");
    assert_eq!(brl_from_cents(99_900, false), "999,00");
    assert_eq!(brl_from_cents(0, false), "0,00");
}

#[test]
fn formats_cents_below_one_real() {
    assert_eq!(brl_from_cents(50, false), "0,50");
    assert_eq!(brl_from_cents(5, false), "0,05");
}

#[test]
fn formats_negative_cents() {
    assert_eq!(brl_from_cents(150_025, true), "-1.500,25");
    assert_eq!(brl_from_cents(1_001, true), "-10,01");
    assert_eq!(brl_from_cents(0, true), "-0,00");
}

#[test]
fn cents_read_back_from_money_text() {
    for cents in [0u128, 7, 99, 100, 101, 99_999, 100_000, 21_220_000, 123_456_789] {
        let text = brl_from_cents(cents, false);
        let digits: String = text.chars().filter(|c| *c != '.' && *c != ',').collect();
        assert_eq!(digits.parse::<u128>().unwrap(), cents);
    }
}

#[test]
fn quantity_text_drops_trailing_zeros() {
    assert_eq!(quantity_from_fixed("3.00000000", false), "3");
    assert_eq!(quantity_from_fixed("0.50000000", false), "0,5");
    assert_eq!(quantity_from_fixed("1.25000000", false), "1,25");
    assert_eq!(quantity_from_fixed("100.00000000", false), "100");
    assert_eq!(quantity_from_fixed("10.10000000", false), "10,1");
}

#[test]
fn quantity_text_keeps_small_fractions() {
    assert_eq!(quantity_from_fixed("0.00000500", false), "0,000005");
    assert_eq!(quantity_from_fixed("0.00000001", false), "0,00000001");
}

#[test]
fn quantity_text_groups_large_amounts() {
    assert_eq!(quantity_from_fixed("1500000.00000000", false), "1.500.000");
    assert_eq!(quantity_from_fixed("1234567.89000000", false), "1.234.567,89");
}

#[test]
fn quantity_text_of_negative_amounts() {
    assert_eq!(quantity_from_fixed("-2.50000000", true), "-2,5");
    assert_eq!(quantity_from_fixed("-1500.00000000", true), "-1.500");
    // Negative zero prints a sign but is not below zero.
    assert_eq!(quantity_from_fixed("-0.00000000", false), "0");
}

#[test]
fn quantity_text_of_unreadable_integer_parts() {
    assert_eq!(quantity_from_fixed("inf", false), "0");
    assert_eq!(quantity_from_fixed("-inf", true), "-0");
    assert_eq!(quantity_from_fixed("NaN", false), "0");
    assert_eq!(
        quantity_from_fixed("340282366920938463463374607431768211456.00000000", false),
        "0"
    );
    assert_eq!(
        quantity_from_fixed("340282366920938463463374607431768211455.50000000", false),
        "340.282.366.920.938.463.463.374.607.431.768.211.455,5"
    );
}

#[test]
fn formats_percent_with_decimal_comma() {
    assert_eq!(percent_from_fixed("75.0"), "75,0");
    assert_eq!(percent_from_fixed("33.3"), "33,3");
    assert_eq!(percent_from_fixed("0.0"), "0,0");
    assert_eq!(percent_from_fixed("100.0"), "100,0");
}
