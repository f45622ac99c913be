use runwayclock::money::{CurrencyCode, Money, MoneyError};

#[test]
fn currency_codes_are_trimmed_and_upper_cased() {
    assert_eq!(CurrencyCode::new(" try ").unwrap().as_str(), "TRY");
    assert_eq!(CurrencyCode::new("try").unwrap().as_str(), "TRY");
    assert_eq!(
        CurrencyCode::new("TL").unwrap_err(),
        MoneyError::InvalidCurrency("TL".to_owned())
    );
    assert_eq!(
        CurrencyCode::new("T1Y").unwrap_err(),
        MoneyError::InvalidCurrency("T1Y".to_owned())
    );
    assert_eq!(
        CurrencyCode::new("₺₺₺").unwrap_err(),
        MoneyError::InvalidCurrency("₺₺₺".to_owned())
    );
}

#[test]
fn money_adds_only_within_one_currency() {
    let try_ = CurrencyCode::new("TRY").unwrap();
    let eur = CurrencyCode::new("EUR").unwrap();
    let a = Money::new(150, try_.clone());
    let b = Money::new(-50, try_.clone());
    assert_eq!(a.checked_add(&b).unwrap(), Money::new(100, try_.clone()));
    assert_eq!(
        a.checked_add(&Money::new(1, eur)).unwrap_err(),
        MoneyError::CurrencyMismatch { left: "TRY".to_owned(), right: "EUR".to_owned() }
    );
    assert_eq!(
        Money::new(i64::MAX, try_.clone()).checked_add(&Money::new(1, try_)).unwrap_err(),
        MoneyError::Overflow
    );
}

#[test]
fn currency_codes_convert_from_and_to_strings() {
    let code = CurrencyCode::try_from(" try ".to_owned()).unwrap();
    assert_eq!(code.as_str(), "TRY");
    assert_eq!(String::from(code), "TRY");
    assert_eq!(
        CurrencyCode::try_from("TL".to_owned()).unwrap_err(),
        MoneyError::InvalidCurrency("TL".to_owned())
    );
}
