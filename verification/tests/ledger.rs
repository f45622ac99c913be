use runwayclock::calendar::Date;
use runwayclock::forecast::{CashFlowDirection, ForecastCadence, HistoricalBurn, Provenance};
use runwayclock::ledger::{
    actual_date_bound, assemble_runway_input, check_account_currency, decode_account,
    decode_scenario, decode_transaction, encode_scenario_assets, liquid_assets_for, migration_step, parse_stored_date,
    plan_runway_input, reusable_snapshot, summarize_burn, DbError, MigrationStep, NewForecastRule,
    Scenario, StoredAccount, StoredScenario, StoredTransaction,
};
use runwayclock::money::{CurrencyCode, MoneyError};
use runwayclock::rule_rows::{
    decode_forecast_rule, decode_rule_list_item, encode_forecast_rule, StoredForecastRule,
};

fn date(value: &str) -> Date {
    Date::parse(value, "%Y-%m-%d").unwrap()
}

fn try_currency() -> CurrencyCode {
    CurrencyCode::new("TRY").unwrap()
}

fn scenario(assets: Option<i64>, assets_as_of: Option<&str>) -> Scenario {
    Scenario {
        id: 1,
        name: "no-work".to_owned(),
        currency: try_currency(),
        reserve_minor: 2_000_000,
        explicit_assets_minor: assets,
        assets_as_of: assets_as_of.map(date),
        max_horizon_days: 36_525,
    }
}

#[test]
fn schema_versions_choose_the_migration() {
    assert_eq!(migration_step(0).unwrap(), MigrationStep::CreateSchema);
    assert_eq!(migration_step(1).unwrap(), MigrationStep::UpgradeFromV1);
    assert_eq!(migration_step(2).unwrap(), MigrationStep::Current);
    assert_eq!(migration_step(3).unwrap_err(), DbError::UnsupportedSchema(3));
    assert_eq!(migration_step(-1).unwrap_err(), DbError::UnsupportedSchema(-1));
}

#[test]
fn stored_dates_name_their_field() {
    assert_eq!(parse_stored_date("t.d", "2026-08-20").unwrap(), date("2026-08-20"));
    assert_eq!(
        parse_stored_date("t.d", "20.08.2026").unwrap_err(),
        DbError::InvalidStoredDate { field: "t.d".to_owned(), value: "20.08.2026".to_owned() }
    );
    assert_eq!(
        actual_date_bound("TRY", &None).unwrap_err(),
        DbError::NoActualTransactions("TRY".to_owned())
    );
    assert_eq!(
        actual_date_bound("TRY", &Some("2026-08-20".to_owned())).unwrap(),
        date("2026-08-20")
    );
}

fn stored_scenario(currency: &str, assets_as_of: Option<&str>, horizon: i64) -> StoredScenario {
    StoredScenario {
        id: 7,
        name: "no-work".to_owned(),
        currency: currency.to_owned(),
        reserve_minor: 2_000_000,
        explicit_assets_minor: Some(13_200_000),
        assets_as_of: assets_as_of.map(str::to_owned),
        max_horizon_days: horizon,
    }
}

#[test]
fn scenario_round_trip_preserves_minor_units() {
    let columns = encode_scenario_assets(Some((13_200_000, date("2026-08-20"))));
    assert_eq!(columns.explicit_assets_minor, Some(13_200_000));
    assert_eq!(columns.assets_as_of.as_deref(), Some("2026-08-20"));
    let none = encode_scenario_assets(None);
    assert_eq!((none.explicit_assets_minor, none.assets_as_of), (None, None));
    let read = decode_scenario(stored_scenario("try", columns.assets_as_of.as_deref(), 36_525)).unwrap();
    assert_eq!(read.reserve_minor, 2_000_000);
    assert_eq!(read.explicit_assets_minor, Some(13_200_000));
    assert_eq!(read.currency.as_str(), "TRY");
    assert_eq!(read.assets_as_of, Some(date("2026-08-20")));
    assert_eq!(read.max_horizon_days, 36_525);
    assert_eq!(
        decode_scenario(stored_scenario("TL", None, 1)).unwrap_err(),
        DbError::Money(MoneyError::InvalidCurrency("TL".to_owned()))
    );
    assert_eq!(
        decode_scenario(stored_scenario("TRY", Some("bad"), 1)).unwrap_err(),
        DbError::InvalidStoredDate {
            field: "scenarios.assets_as_of".to_owned(),
            value: "bad".to_owned()
        }
    );
    assert_eq!(
        decode_scenario(stored_scenario("TRY", None, -1)).unwrap_err(),
        DbError::InvalidValue("negative max_horizon_days".to_owned())
    );
}

#[test]
fn balance_date_cannot_move_past_actual_data_without_an_asset_fact() {
    let last_actual = date("2026-08-20");
    let plain = scenario(None, None);
    let plan = plan_runway_input(&plain, last_actual, None).unwrap();
    assert_eq!(plan.as_of, last_actual);
    assert_eq!(plan.explicit_assets_minor, None);
    assert_eq!(
        plan_runway_input(&plain, last_actual, Some(date("2026-09-01"))).unwrap_err(),
        DbError::StaleBalanceOverride { requested: date("2026-09-01"), last_actual }
    );
    let earlier = plan_runway_input(&plain, last_actual, Some(date("2026-08-01"))).unwrap();
    assert_eq!(earlier.observed_through, date("2026-08-01"));

    let dated = scenario(Some(13_200_000), Some("2026-09-01"));
    let plan = plan_runway_input(&dated, last_actual, None).unwrap();
    assert_eq!(plan.as_of, date("2026-09-01"));
    assert_eq!(plan.explicit_assets_minor, Some(13_200_000));
    assert_eq!(plan.observed_through, last_actual);
    let same = plan_runway_input(&dated, last_actual, Some(date("2026-09-01"))).unwrap();
    assert_eq!(same.explicit_assets_minor, Some(13_200_000));
    let moved = plan_runway_input(&dated, last_actual, Some(date("2026-08-10"))).unwrap();
    assert_eq!(moved.explicit_assets_minor, None);
    assert_eq!(
        liquid_assets_for(&moved, &try_currency(), None).unwrap_err(),
        DbError::NoAccountBalance { currency: "TRY".to_owned(), as_of: date("2026-08-10") }
    );
    assert_eq!(liquid_assets_for(&moved, &try_currency(), Some(42)).unwrap(), 42);
    assert_eq!(liquid_assets_for(&plan, &try_currency(), Some(42)).unwrap(), 13_200_000);
}

#[test]
fn historical_burn_excludes_transfers_and_subtracts_refunds() {
    let rows = vec![
        (-100_000, None),
        (-50_000, Some("transfer".to_owned())),
        (-20_000, Some("exceptional".to_owned())),
        (-30_000, Some("income".to_owned())),
        (-10_000, Some("fixed_recurrent".to_owned())),
        (5_000, Some("refund".to_owned())),
        (-7_000, Some("refund".to_owned())),
        (200_000, None),
    ];
    let burn = summarize_burn(&rows, date("2026-07-22"), date("2026-08-20")).unwrap();
    assert_eq!(burn.expense_minor, 105_000);
    assert_eq!(burn.observed_days, 30);
    assert_eq!(burn.included_transaction_count, 3);
    assert_eq!(burn.excluded_transaction_count, 5);
    let refunds_only = vec![(5_000, Some("refund".to_owned()))];
    let burn = summarize_burn(&refunds_only, date("2026-08-20"), date("2026-08-20")).unwrap();
    assert_eq!(burn.expense_minor, 0);
    assert_eq!(burn.observed_days, 1);
    assert_eq!(
        summarize_burn(&rows, date("2026-08-21"), date("2026-08-19")).unwrap_err(),
        DbError::InvalidValue("invalid observation window".to_owned())
    );
}

#[test]
fn runway_input_carries_the_scenario() {
    let s = scenario(Some(13_200_000), Some("2026-08-20"));
    let plan = plan_runway_input(&s, date("2026-08-20"), None).unwrap();
    let burn = HistoricalBurn {
        expense_minor: 1_530_000,
        observed_days: 30,
        observed_from: date("2026-07-22"),
        observed_through: date("2026-08-20"),
        included_transaction_count: 20,
        excluded_transaction_count: 2,
    };
    let input = assemble_runway_input(&s, &plan, 13_200_000, burn.clone(), Vec::new());
    assert_eq!(input.as_of, date("2026-08-20"));
    assert_eq!(input.liquid_assets.amount_minor, 13_200_000);
    assert_eq!(input.reserve.amount_minor, 2_000_000);
    assert_eq!(input.reserve.currency.as_str(), "TRY");
    assert_eq!(input.historical_burn, burn);
    assert_eq!(input.max_horizon_days, Some(36_525));
}

#[test]
fn accounts_keep_their_currency() {
    assert!(check_account_currency("checking-try", "TRY", &try_currency()).is_ok());
    assert_eq!(
        check_account_currency("checking-try", "EUR", &try_currency()).unwrap_err(),
        DbError::InvalidValue("account \"checking-try\" already uses EUR, not TRY".to_owned())
    );
}

#[test]
fn listed_rows_read_their_dates() {
    let row = StoredTransaction {
        id: 4,
        booked_on: "2026-08-01".to_owned(),
        account: "Synthetic checking".to_owned(),
        description: "MARKET".to_owned(),
        amount_minor: -12_345,
        currency: "TRY".to_owned(),
        balance_after_minor: Some(1_000),
        interpretation: None,
    };
    let item = decode_transaction(row.clone()).unwrap();
    assert_eq!(item.booked_on, date("2026-08-01"));
    assert_eq!(item.amount_minor, -12_345);
    let mut bad = row;
    bad.booked_on = "01/08/2026".to_owned();
    assert_eq!(
        decode_transaction(bad).unwrap_err(),
        DbError::InvalidStoredDate {
            field: "actual_transactions.booked_on".to_owned(),
            value: "01/08/2026".to_owned()
        }
    );
    let account = decode_account(StoredAccount {
        external_key: "checking-try".to_owned(),
        display_name: "Synthetic checking".to_owned(),
        currency: "TRY".to_owned(),
        transaction_count: 0,
        last_booked_on: None,
    })
    .unwrap();
    assert_eq!(account.last_actual_data, None);
}

#[test]
fn unchanged_snapshots_are_reused() {
    let latest = Some((9, "{\"a\":1}".to_owned()));
    assert_eq!(reusable_snapshot(&latest, "{\"a\":1}"), Some(9));
    assert_eq!(reusable_snapshot(&latest, "{\"a\":2}"), None);
    assert_eq!(reusable_snapshot(&None, "{}"), None);
}

fn new_rule() -> NewForecastRule {
    NewForecastRule {
        label: "Scholarship".to_owned(),
        direction: CashFlowDirection::Income,
        amount_minor: 650_000,
        currency: try_currency(),
        cadence: ForecastCadence::Monthly { day_of_month: 1 },
        starts_on: date("2026-09-01"),
        ends_on: Some(date("2027-06-30")),
        evidence: vec!["transaction:4".to_owned(), "say \"hi\"".to_owned()],
    }
}

#[test]
fn stored_forecast_rules_read_back_as_written() {
    let s = scenario(None, None);
    let rule = new_rule();
    let columns = encode_forecast_rule(&s, &rule).unwrap();
    assert_eq!(columns.direction, "income");
    assert_eq!(columns.cadence, "monthly");
    assert_eq!(columns.day_of_month, Some(1));
    assert_eq!(columns.starts_on, "2026-09-01");
    assert_eq!(columns.ends_on, Some("2027-06-30".to_owned()));
    assert_eq!(columns.evidence_json, "[\"transaction:4\",\"say \\\"hi\\\"\"]");
    let row = StoredForecastRule {
        id: 12,
        label: rule.label.clone(),
        direction: columns.direction.clone(),
        amount_minor: rule.amount_minor,
        currency: "TRY".to_owned(),
        cadence: columns.cadence.clone(),
        day_of_month: columns.day_of_month,
        starts_on: columns.starts_on.clone(),
        ends_on: columns.ends_on.clone(),
        source: "user_confirmed".to_owned(),
        confidence_ppm: 1_000_000,
        evidence_json: columns.evidence_json.clone(),
    };
    let read = decode_forecast_rule(&row).unwrap();
    assert_eq!(read.id, "forecast_rule:12");
    assert_eq!(read.direction, rule.direction);
    assert_eq!(read.cadence, rule.cadence);
    assert_eq!(read.starts_on, rule.starts_on);
    assert_eq!(read.ends_on, rule.ends_on);
    assert_eq!(read.provenance, Provenance::UserConfirmed);
    assert_eq!(read.evidence, rule.evidence);
    let item = decode_rule_list_item(&row).unwrap();
    assert_eq!(item.direction, "income");
    assert_eq!(item.evidence, rule.evidence);

    let mut wrong = s.clone();
    wrong.currency = CurrencyCode::new("EUR").unwrap();
    assert_eq!(
        encode_forecast_rule(&wrong, &rule).unwrap_err(),
        DbError::InvalidValue(
            "forecast rule currency TRY does not match scenario currency EUR".to_owned()
        )
    );
}

#[test]
fn invalid_stored_rules_are_named() {
    let base = StoredForecastRule {
        id: -3,
        label: "x".to_owned(),
        direction: "income".to_owned(),
        amount_minor: 1,
        currency: "TRY".to_owned(),
        cadence: "once".to_owned(),
        day_of_month: None,
        starts_on: "2026-09-01".to_owned(),
        ends_on: None,
        source: "deterministic_estimate".to_owned(),
        confidence_ppm: 5,
        evidence_json: "[]".to_owned(),
    };
    let read = decode_forecast_rule(&base).unwrap();
    assert_eq!(read.id, "forecast_rule:-3");
    assert_eq!(read.provenance, Provenance::DeterministicEstimate);
    let mut r = base.clone();
    r.direction = "gift".to_owned();
    assert_eq!(
        decode_forecast_rule(&r).unwrap_err(),
        DbError::InvalidValue("invalid direction \"gift\"".to_owned())
    );
    let mut r = base.clone();
    r.cadence = "weekly".to_owned();
    r.day_of_month = Some(3);
    assert_eq!(
        decode_forecast_rule(&r).unwrap_err(),
        DbError::InvalidValue("invalid cadence (\"weekly\", Some(3))".to_owned())
    );
    let mut r = base.clone();
    r.cadence = "monthly".to_owned();
    assert_eq!(
        decode_forecast_rule(&r).unwrap_err(),
        DbError::InvalidValue("invalid cadence (\"monthly\", None)".to_owned())
    );
    let mut r = base.clone();
    r.source = "imported".to_owned();
    assert_eq!(
        decode_forecast_rule(&r).unwrap_err(),
        DbError::InvalidValue("invalid source \"imported\"".to_owned())
    );
    let mut r = base.clone();
    r.evidence_json = "not json".to_owned();
    assert!(matches!(decode_forecast_rule(&r).unwrap_err(), DbError::Json(_)));
}

#[test]
fn errors_show_their_messages() {
    assert_eq!(
        DbError::ScenarioNotFound("no-work".to_owned()).to_text(),
        "scenario \"no-work\" does not exist"
    );
    assert_eq!(
        DbError::NoAccountBalance { currency: "TRY".to_owned(), as_of: date("2026-08-20") }.to_text(),
        "no account balance is available for TRY as of 2026-08-20; set explicit assets"
    );
    assert_eq!(
        DbError::StaleBalanceOverride {
            requested: date("2026-09-01"),
            last_actual: date("2026-08-20")
        }
        .to_text(),
        "cannot move as-of date beyond actual data (2026-08-20) without an explicit asset fact for that date"
    );
    assert_eq!(
        DbError::InvalidStoredDate { field: "scenarios.assets_as_of".to_owned(), value: "x".to_owned() }
            .to_text(),
        "invalid date \"x\" stored in scenarios.assets_as_of"
    );
    assert_eq!(DbError::UnsupportedSchema(3).to_text(), "database schema version 3 is newer than this RunwayClock build");
    assert_eq!(
        DbError::Money(MoneyError::InvalidCurrency("TL".to_owned())).to_text(),
        "currency must be a three-letter ISO-style code, got \"TL\""
    );
    assert_eq!(
        MoneyError::CurrencyMismatch { left: "TRY".to_owned(), right: "EUR".to_owned() }.to_text(),
        "money arithmetic requires the same currency (TRY != EUR)"
    );
    assert_eq!(
        runwayclock::forecast::RunwayError::InvalidRuleAmount("rent".to_owned()).to_text(),
        "forecast rule \"rent\" has a non-positive amount"
    );
    assert_eq!(
        runwayclock::forecast::RunwayError::DateOverflow.to_text(),
        "date arithmetic overflow"
    );
    assert_eq!(
        runwayclock::entry::EntryError::Refused("Reserve cannot be negative.".to_owned()).to_text(),
        "Reserve cannot be negative."
    );
}

#[test]
fn stored_currency_codes_read_back_unchanged() {
    for text in [" try ", "eur", "Usd"] {
        let code = CurrencyCode::new(text).unwrap();
        assert_eq!(CurrencyCode::new(code.as_str()).unwrap(), code);
    }
}
