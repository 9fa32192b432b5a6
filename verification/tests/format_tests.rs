use loan_sim::utils::format_currency;

#[test]
fn formats_zero() {
    assert_eq!(format_currency(0), "0,00");
}

#[test]
fn formats_cents_only() {
    assert_eq!(format_currency(5), "0,05");
    assert_eq!(format_currency(99), "0,99");
}

#[test]
fn formats_small_amounts() {
    assert_eq!(format_currency(100), "1,00");
    assert_eq!(format_currency(12345), "123,45");
    assert_eq!(format_currency(99999), "999,99");
}

#[test]
fn groups_thousands_with_spaces() {
    assert_eq!(format_currency(100000), "1 000,00");
    assert_eq!(format_currency(107_600_012), "1 076 000,12");
    assert_eq!(format_currency(123_456_789), "1 234 567,89");
    assert_eq!(format_currency(1_000_000_000_00), "1 000 000 000,00");
}

#[test]
fn keeps_zero_groups() {
    assert_eq!(format_currency(100_000_005), "1 000 000,05");
    assert_eq!(format_currency(2_000_30), "2 000,30");
}
