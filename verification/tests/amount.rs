use runwayclock::amount::{parse_amount_minor, parse_flexible_amount_minor};
use runwayclock::entry::parse_user_amount;
use runwayclock::money::CurrencyCode;
use runwayclock::presentation::format_money;
use runwayclock::profile::{ImportError, ValueFormats};

fn invalid(value: &str, reason: &str) -> ImportError {
    ImportError::InvalidMoney { value: value.to_owned(), reason: reason.to_owned() }
}

#[test]
fn parses_turkish_money_without_floating_point() {
    let formats = ValueFormats::default();
    assert_eq!(parse_amount_minor("₺1.234,56", &formats).unwrap(), 123_456);
    assert_eq!(parse_amount_minor("-30.000,00 TL", &formats).unwrap(), -3_000_000);
    assert_eq!(parse_amount_minor("(42,10)", &formats).unwrap(), -4_210);
}

#[test]
fn user_amount_accepts_turkish_and_english_notation() {
    assert_eq!(parse_user_amount("6.500,00").unwrap(), 650_000);
    assert_eq!(parse_user_amount("6500.00").unwrap(), 650_000);
    assert_eq!(parse_user_amount("132000").unwrap(), 13_200_000);
}

#[test]
fn flexible_amounts_guess_their_separators() {
    assert_eq!(parse_flexible_amount_minor("6.500,00").unwrap(), 650_000);
    assert_eq!(parse_flexible_amount_minor("6500.00").unwrap(), 650_000);
    assert_eq!(parse_flexible_amount_minor("132000").unwrap(), 13_200_000);
}

#[test]
fn amount_errors_name_their_reason() {
    let formats = ValueFormats::default();
    assert_eq!(parse_amount_minor("   ", &formats).unwrap_err(), invalid("   ", "empty value"));
    assert_eq!(parse_amount_minor("TL", &formats).unwrap_err(), invalid("TL", "no digits"));
    assert_eq!(
        parse_amount_minor("1,2,3", &formats).unwrap_err(),
        invalid("1,2,3", "multiple decimal separators")
    );
    assert_eq!(
        parse_amount_minor("1-2", &formats).unwrap_err(),
        invalid("1-2", "unexpected characters")
    );
    assert_eq!(
        parse_amount_minor("1,234", &formats).unwrap_err(),
        invalid("1,234", "more fractional digits than the profile permits")
    );
    assert_eq!(
        parse_amount_minor("99999999999999999999999999999999999999999", &formats).unwrap_err(),
        invalid("99999999999999999999999999999999999999999", "whole-number overflow")
    );
    assert_eq!(
        parse_amount_minor("99999999999999999999999999999999999999", &formats).unwrap_err(),
        invalid("99999999999999999999999999999999999999", "amount overflow")
    );
    assert_eq!(
        parse_amount_minor("100000000000000000000", &formats).unwrap_err(),
        invalid("100000000000000000000", "amount is outside the supported range")
    );
    let mut wide = ValueFormats::default();
    wide.minor_unit_digits = 40;
    assert_eq!(parse_amount_minor("1", &wide).unwrap_err(), invalid("1", "minor-unit scale overflow"));
    let mut same = ValueFormats::default();
    same.thousands_separator = Some(',');
    assert_eq!(parse_amount_minor("1", &same).unwrap_err(), ImportError::ConflictingSeparators);
}

#[test]
fn amount_signs_and_padding() {
    let formats = ValueFormats::default();
    assert_eq!(parse_amount_minor("12-", &formats).unwrap(), -1_200);
    assert_eq!(parse_amount_minor("+5", &formats).unwrap(), 500);
    assert_eq!(parse_amount_minor(",5", &formats).unwrap(), 50);
    assert_eq!(parse_amount_minor(" 7,1 ", &formats).unwrap(), 710);
    assert_eq!(parse_flexible_amount_minor("1,234.50").unwrap(), 123_450);
    assert_eq!(parse_flexible_amount_minor("1.234").unwrap(), 123_400);
    assert_eq!(parse_flexible_amount_minor("12,5").unwrap(), 1_250);
    assert_eq!(parse_flexible_amount_minor("6 500.00").unwrap(), 650_000);
}

#[test]
fn signs_and_parentheses_negate_and_plus_keeps() {
    let formats = ValueFormats::default();
    assert_eq!(parse_amount_minor("1.234,56", &formats).unwrap(), 123_456);
    assert_eq!(parse_amount_minor("-1.234,56", &formats).unwrap(), -123_456);
    assert_eq!(parse_amount_minor("1.234,56-", &formats).unwrap(), -123_456);
    assert_eq!(parse_amount_minor("(1.234,56)", &formats).unwrap(), -123_456);
    assert_eq!(parse_amount_minor("+1.234,56", &formats).unwrap(), 123_456);
}

#[test]
fn money_text_parses_back_to_its_amount() {
    let code = CurrencyCode::new("TRY").unwrap();
    let formats = ValueFormats {
        date: vec![],
        decimal_separator: '.',
        thousands_separator: Some(','),
        minor_unit_digits: 2,
    };
    for amount in [0, 5, -5, 99, -4_210, 650_000, 123_456_789, i64::MIN, i64::MAX] {
        let text = format_money(amount, &code);
        assert_eq!(parse_amount_minor(&text, &formats).unwrap(), amount, "{text}");
    }
}

#[test]
fn signs_work_with_a_space_as_thousands_separator() {
    let formats = ValueFormats {
        date: vec![],
        decimal_separator: ',',
        thousands_separator: Some(' '),
        minor_unit_digits: 2,
    };
    assert_eq!(parse_amount_minor("1 234,56", &formats).unwrap(), 123_456);
    assert_eq!(parse_amount_minor("-1 234,56", &formats).unwrap(), -123_456);
    assert_eq!(parse_amount_minor("1 234,56-", &formats).unwrap(), -123_456);
    assert_eq!(parse_amount_minor("(1 234,56)", &formats).unwrap(), -123_456);
    assert_eq!(parse_amount_minor("+1 234,56", &formats).unwrap(), 123_456);
    assert_eq!(parse_amount_minor(" 5 ", &formats).unwrap(), 500);
    assert_eq!(parse_amount_minor("- 5 ", &formats).unwrap(), -500);
    assert_eq!(parse_amount_minor(" 5 -", &formats).unwrap(), -500);
}

#[test]
fn signs_work_with_a_space_as_decimal_separator() {
    let formats = ValueFormats {
        date: vec![],
        decimal_separator: ' ',
        thousands_separator: Some('.'),
        minor_unit_digits: 2,
    };
    assert_eq!(parse_amount_minor("1.234 56", &formats).unwrap(), 123_456);
    assert_eq!(parse_amount_minor("-1.234 56", &formats).unwrap(), -123_456);
    assert_eq!(parse_amount_minor("1.234 56-", &formats).unwrap(), -123_456);
    assert_eq!(parse_amount_minor("(1.234 56)", &formats).unwrap(), -123_456);
    assert_eq!(parse_amount_minor("+1.234 56", &formats).unwrap(), 123_456);
    assert_eq!(parse_amount_minor("5 ", &formats).unwrap(), 500);
    assert_eq!(parse_amount_minor("(5 )", &formats).unwrap(), -500);
    assert_eq!(parse_amount_minor("5 -", &formats).unwrap(), -500);
    // A leading decimal separator is trimmed off the bare text but kept
    // once a sign stands before it.
    assert_eq!(parse_amount_minor(" 5", &formats).unwrap(), 500);
    assert_eq!(parse_amount_minor("- 5", &formats).unwrap(), -50);
}
