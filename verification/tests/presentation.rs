use runwayclock::calendar::Date;
use runwayclock::forecast::HistoricalBurn;
use runwayclock::ledger::SavedImportProfile;
use runwayclock::money::CurrencyCode;
use runwayclock::presentation::{
    dashboard_scenario, estimated_effect_days, first_fitting_profile, format_money,
    monthly_estimate, preview_choice, slugify, widget_confidence,
};
use runwayclock::profile::{ColumnMapping, ImportProfile, ValueFormats};

fn date(value: &str) -> Date {
    Date::parse(value, "%Y-%m-%d").unwrap()
}

#[test]
fn profile_name_becomes_stable_account_key() {
    assert_eq!(slugify("My Bank – TRY"), "my-bank-try");
    assert_eq!(slugify("---"), "main-account");
}

#[test]
fn account_keys_are_stable_under_slugify() {
    for name in ["My Bank – TRY", "  Ziraat__Vadesiz 2024 ", "---", "", "ÇAĞDAŞ bank"] {
        let key = slugify(name);
        assert_eq!(slugify(&key), key);
        assert!(!key.starts_with('-') && !key.ends_with('-') && !key.contains("--"));
        assert!(key.chars().all(|c| c.is_ascii_lowercase() || c.is_ascii_digit() || c == '-'));
    }
    assert_eq!(slugify("  Ziraat__Vadesiz 2024 "), "ziraat-vadesiz-2024");
    assert_eq!(slugify("ÇAĞDAŞ bank"), "a-da-bank");
}

#[test]
fn money_is_shown_with_two_minor_digits_and_code() {
    let code = CurrencyCode::new("TRY").unwrap();
    assert_eq!(format_money(650_000, &code), "6500.00 TRY");
    assert_eq!(format_money(-4_210, &code), "-42.10 TRY");
    assert_eq!(format_money(5, &code), "0.05 TRY");
    assert_eq!(format_money(0, &code), "0.00 TRY");
    assert_eq!(format_money(i64::MIN, &code), "-92233720368547758.08 TRY");
}

#[test]
fn widget_confidence_follows_history_length() {
    assert_eq!(widget_confidence(0), "low");
    assert_eq!(widget_confidence(29), "low");
    assert_eq!(widget_confidence(30), "medium");
    assert_eq!(widget_confidence(179), "medium");
    assert_eq!(widget_confidence(180), "high");
}

#[test]
fn monthly_estimate_scales_to_thirty_days() {
    assert_eq!(monthly_estimate(1_530_000, 30), 1_530_000);
    assert_eq!(monthly_estimate(1_000, 7), 4_285);
    assert_eq!(monthly_estimate(-1_000, 7), -4_285);
}

fn burn(expense_minor: i64, observed_days: u32) -> HistoricalBurn {
    HistoricalBurn {
        expense_minor,
        observed_days,
        observed_from: date("2026-07-22"),
        observed_through: date("2026-08-20"),
        included_transaction_count: 1,
        excluded_transaction_count: 0,
    }
}

#[test]
fn effect_days_use_the_observed_spending_rate() {
    assert_eq!(estimated_effect_days(-51_000, &burn(1_530_000, 30)), Some(1));
    assert_eq!(estimated_effect_days(-510_000, &burn(1_530_000, 30)), Some(10));
    assert_eq!(estimated_effect_days(-10, &burn(1_530_000, 30)), Some(1));
    assert_eq!(estimated_effect_days(i64::MIN, &burn(1, u32::MAX)), Some(u32::MAX));
    assert_eq!(estimated_effect_days(-510_000, &burn(0, 30)), None);
}

#[test]
fn dashboard_prefers_the_no_work_scenario() {
    let names = vec!["alpha".to_owned(), "no-work".to_owned()];
    assert_eq!(dashboard_scenario(&names), Some("no-work".to_owned()));
    let names = vec!["alpha".to_owned(), "beta".to_owned()];
    assert_eq!(dashboard_scenario(&names), Some("alpha".to_owned()));
    assert_eq!(dashboard_scenario(&Vec::new()), None);
}

fn profile(name: &str, amount_header: &str) -> ImportProfile {
    ImportProfile {
        name: name.to_owned(),
        delimiter: "auto".to_owned(),
        encoding: "utf-8".to_owned(),
        skip_rows: 0,
        columns: ColumnMapping {
            date: "Tarih".to_owned(),
            description: "Açıklama".to_owned(),
            amount: Some(amount_header.to_owned()),
            debit: None,
            credit: None,
            balance: None,
            transaction_id: None,
        },
        formats: ValueFormats::default(),
    }
}

fn saved(name: &str, key: Option<&str>) -> SavedImportProfile {
    SavedImportProfile {
        name: name.to_owned(),
        config_toml: String::new(),
        account_key: key.map(str::to_owned),
        account_name: None,
        currency: Some("EUR".to_owned()),
    }
}

#[test]
fn preview_offers_the_first_fitting_saved_profile() {
    let headers = vec!["Tarih".to_owned(), " Açıklama ".to_owned(), "Tutar".to_owned()];
    let candidates = vec![
        (profile("other", "Amount"), saved("other", None)),
        (profile("bank", "Tutar"), saved("bank", Some("checking-try"))),
        (profile("bank-2", "Tutar"), saved("bank-2", None)),
    ];
    assert_eq!(first_fitting_profile(&candidates, &headers), Some(1));
    assert_eq!(first_fitting_profile(&candidates[..1].to_vec(), &headers), None);

    let mut suggested = profile("My Bank Export", "Tutar");
    suggested.delimiter = ";".to_owned();
    suggested.encoding = "windows-1254".to_owned();
    suggested.skip_rows = 3;
    let matched = candidates[1].clone();
    let choice = preview_choice(suggested.clone(), Some(matched));
    assert!(choice.matched_saved_profile);
    assert_eq!(choice.profile.name, "bank");
    assert_eq!(choice.profile.delimiter, ";");
    assert_eq!(choice.profile.encoding, "windows-1254");
    assert_eq!(choice.profile.skip_rows, 3);
    assert_eq!(choice.account_key, "checking-try");
    assert_eq!(choice.account_name, "Main account");
    assert_eq!(choice.currency, "EUR");

    let fresh = preview_choice(suggested.clone(), None);
    assert!(!fresh.matched_saved_profile);
    assert_eq!(fresh.profile, suggested);
    assert_eq!(fresh.account_key, "my-bank-export");
    assert_eq!(fresh.account_name, "Main account");
    assert_eq!(fresh.currency, "TRY");
}
