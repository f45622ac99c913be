use runwayclock::calendar::Date;
use runwayclock::forecast::{
    calculate_runway, format_calendar_duration, rule_occurs_on, CashFlowDirection, ForecastCadence,
    ForecastRule, HistoricalBurn, Provenance, RunwayError, RunwayInput,
};
use runwayclock::money::{CurrencyCode, Money};

fn date(value: &str) -> Date {
    Date::parse(value, "%Y-%m-%d").unwrap()
}

fn try_currency() -> CurrencyCode {
    CurrencyCode::new("TRY").unwrap()
}

fn scholarship_input() -> RunwayInput {
    RunwayInput {
        as_of: date("2026-08-20"),
        liquid_assets: Money::new(13_200_000, try_currency()),
        reserve: Money::new(2_000_000, try_currency()),
        historical_burn: HistoricalBurn {
            expense_minor: 1_530_000,
            observed_days: 30,
            observed_from: date("2026-07-22"),
            observed_through: date("2026-08-20"),
            included_transaction_count: 20,
            excluded_transaction_count: 2,
        },
        forecast_rules: vec![ForecastRule {
            id: "scholarship".into(),
            label: "Scholarship".into(),
            direction: CashFlowDirection::Income,
            amount_minor: 650_000,
            currency: try_currency(),
            cadence: ForecastCadence::Monthly { day_of_month: 1 },
            starts_on: date("2026-09-01"),
            ends_on: Some(date("2027-06-30")),
            provenance: Provenance::UserConfirmed,
            confidence_ppm: 1_000_000,
            evidence: vec![],
        }],
        max_horizon_days: None,
    }
}

#[test]
fn no_work_scenario_counts_scholarship_but_no_assumed_salary() {
    let input = scholarship_input();
    let result = calculate_runway(&input).unwrap();
    assert_eq!(result.zero_date, Some(date("2027-08-03")));
    assert_eq!(result.rule_contributions[0].occurrence_count, 10);
    assert_eq!(result.rule_contributions[0].amount_minor, 6_500_000);
}

#[test]
fn monthly_day_is_clamped_to_last_day_of_month() {
    let rule = ForecastRule {
        id: "rent".into(),
        label: "Rent".into(),
        direction: CashFlowDirection::Expense,
        amount_minor: 100,
        currency: try_currency(),
        cadence: ForecastCadence::Monthly { day_of_month: 31 },
        starts_on: date("2027-01-01"),
        ends_on: None,
        provenance: Provenance::UserConfirmed,
        confidence_ppm: 1_000_000,
        evidence: vec![],
    };
    assert!(rule_occurs_on(&rule, &date("2027-02-28")) == Some(true));
    assert!(!(rule_occurs_on(&rule, &date("2027-02-27")) == Some(true)));
}

#[test]
fn calendar_duration_uses_calendar_months() {
    assert_eq!(
        format_calendar_duration(&date("2026-08-20"), &date("2027-10-02")).unwrap(),
        "13 months 12 days"
    );
}

#[test]
fn runway_result_explains_the_scholarship_scenario() {
    let result = calculate_runway(&scholarship_input()).unwrap();
    assert_eq!(result.runway_days, Some(348));
    assert_eq!(result.display_duration.as_deref(), Some("11 months 14 days"));
    assert_eq!(result.horizon_days, 36_525);
    assert!(result.warnings.is_empty());
    // Closing balance identity: assets + contributions - baseline.
    assert_eq!(
        result.projected_balance_minor,
        13_200_000 + 6_500_000 - result.historical_expense_applied_minor
    );
    // Baseline applied is exactly floor(days * expense / observed_days).
    assert_eq!(result.historical_expense_applied_minor, 348 * 1_530_000 / 30);
    assert!(result.projected_balance_minor <= 2_000_000);
}

#[test]
fn assets_at_reserve_end_the_runway_immediately() {
    let mut input = scholarship_input();
    input.liquid_assets = Money::new(2_000_000, try_currency());
    input.historical_burn.observed_days = 10;
    input.historical_burn.observed_from = date("2026-08-11");
    let result = calculate_runway(&input).unwrap();
    assert_eq!(result.zero_date, Some(date("2026-08-20")));
    assert_eq!(result.runway_days, Some(0));
    assert_eq!(result.display_duration.as_deref(), Some("0 days"));
    assert!(result.rule_contributions.is_empty());
    assert_eq!(
        result.warnings,
        vec!["Only 10 days of actual spending history are available; the estimate is fragile."
            .to_owned()]
    );
}

#[test]
fn reserve_beyond_horizon_reports_a_warning() {
    let mut input = scholarship_input();
    input.historical_burn.expense_minor = 0;
    input.max_horizon_days = Some(0);
    let result = calculate_runway(&input).unwrap();
    assert_eq!(result.horizon_days, 1);
    assert_eq!(result.zero_date, None);
    assert_eq!(result.runway_days, None);
    assert_eq!(
        result.warnings,
        vec!["The reserve is not reached within the 1-day calculation horizon.".to_owned()]
    );
}

#[test]
fn burn_remainder_is_carried_between_days() {
    // 10 minor units over 3 days: 3, 3, 4 on the first three days.
    let mut input = scholarship_input();
    input.forecast_rules.clear();
    input.liquid_assets = Money::new(100, try_currency());
    input.reserve = Money::new(0, try_currency());
    input.historical_burn.expense_minor = 10;
    input.historical_burn.observed_days = 3;
    input.historical_burn.observed_from = date("2026-08-18");
    input.max_horizon_days = Some(3);
    let result = calculate_runway(&input).unwrap();
    assert_eq!(result.historical_expense_applied_minor, 10);
    assert_eq!(result.projected_balance_minor, 90);
    input.max_horizon_days = Some(2);
    let result = calculate_runway(&input).unwrap();
    assert_eq!(result.historical_expense_applied_minor, 6);
}

#[test]
fn contributions_are_sorted_by_rule_id_and_merged() {
    let mut input = scholarship_input();
    let base = input.forecast_rules[0].clone();
    let mut rent = base.clone();
    rent.id = "a-rent".into();
    rent.label = "Rent".into();
    rent.direction = CashFlowDirection::Expense;
    rent.amount_minor = 100_000;
    rent.ends_on = None;
    let mut twin = base.clone();
    twin.label = "Scholarship part two".into();
    input.forecast_rules = vec![base, rent, twin];
    let result = calculate_runway(&input).unwrap();
    let ids: Vec<&str> = result.rule_contributions.iter().map(|c| c.rule_id.as_str()).collect();
    assert_eq!(ids, vec!["a-rent", "scholarship"]);
    assert_eq!(result.rule_contributions[1].label, "Scholarship");
    assert_eq!(result.rule_contributions[1].occurrence_count % 2, 0);
}

#[test]
fn validation_names_the_first_defect() {
    let mut input = scholarship_input();
    input.forecast_rules[0].amount_minor = 0;
    assert_eq!(
        calculate_runway(&input).unwrap_err(),
        RunwayError::InvalidRuleAmount("scholarship".into())
    );
    let mut input = scholarship_input();
    input.forecast_rules[0].confidence_ppm = 1_000_001;
    assert_eq!(
        calculate_runway(&input).unwrap_err(),
        RunwayError::InvalidConfidence("scholarship".into())
    );
    let mut input = scholarship_input();
    input.forecast_rules[0].cadence = ForecastCadence::Monthly { day_of_month: 32 };
    assert_eq!(
        calculate_runway(&input).unwrap_err(),
        RunwayError::InvalidMonthlyDay("scholarship".into())
    );
    let mut input = scholarship_input();
    input.forecast_rules[0].ends_on = Some(date("2026-08-01"));
    assert_eq!(
        calculate_runway(&input).unwrap_err(),
        RunwayError::InvalidRuleDates("scholarship".into())
    );
    let mut input = scholarship_input();
    input.forecast_rules[0].currency = CurrencyCode::new("eur").unwrap();
    assert_eq!(
        calculate_runway(&input).unwrap_err(),
        RunwayError::RuleCurrencyMismatch("scholarship".into())
    );
    let mut input = scholarship_input();
    input.reserve = Money::new(0, CurrencyCode::new("USD").unwrap());
    assert_eq!(calculate_runway(&input).unwrap_err(), RunwayError::CurrencyMismatch);
    let mut input = scholarship_input();
    input.historical_burn.expense_minor = -1;
    assert_eq!(
        calculate_runway(&input).unwrap_err(),
        RunwayError::NegativeHistoricalExpense
    );
    let mut input = scholarship_input();
    input.historical_burn.observed_days = 0;
    assert_eq!(calculate_runway(&input).unwrap_err(), RunwayError::EmptyObservationWindow);
    let mut input = scholarship_input();
    input.historical_burn.observed_days = 31;
    assert_eq!(calculate_runway(&input).unwrap_err(), RunwayError::InvalidObservationWindow);
}

#[test]
fn overflowing_balance_is_reported() {
    let mut input = scholarship_input();
    input.liquid_assets = Money::new(i64::MAX - 10, try_currency());
    assert_eq!(calculate_runway(&input).unwrap_err(), RunwayError::ArithmeticOverflow);
}

#[test]
fn date_overflow_is_reported() {
    let mut input = scholarship_input();
    input.forecast_rules.clear();
    input.historical_burn.expense_minor = 0;
    input.as_of = Date::from_ymd(262_142, 12, 31).unwrap();
    input.historical_burn.observed_from = Date::from_ymd(262_142, 12, 2).unwrap();
    input.historical_burn.observed_through = input.as_of;
    assert_eq!(calculate_runway(&input).unwrap_err(), RunwayError::DateOverflow);
}

#[test]
fn durations_use_singular_and_plural_units() {
    assert_eq!(format_calendar_duration(&date("2026-01-31"), &date("2026-01-31")).unwrap(), "0 days");
    assert_eq!(format_calendar_duration(&date("2026-01-31"), &date("2026-02-01")).unwrap(), "1 day");
    assert_eq!(format_calendar_duration(&date("2026-01-31"), &date("2026-02-28")).unwrap(), "1 month");
    assert_eq!(format_calendar_duration(&date("2026-01-15"), &date("2026-03-16")).unwrap(), "2 months 1 day");
}

#[test]
fn calendar_range_matches_chrono() {
    assert_eq!(Date::from_ymd(-262_143, 1, 1).unwrap().days_from_ce(), runwayclock::calendar::MIN_DAY_NUMBER);
    assert_eq!(Date::from_ymd(262_142, 12, 31).unwrap().days_from_ce(), runwayclock::calendar::MAX_DAY_NUMBER);
    assert!(Date::from_ymd(262_143, 1, 1).is_none());
    assert_eq!(Date::from_ymd(1, 1, 1).unwrap().days_from_ce(), 1);
    assert_eq!(date("2026-08-20").to_iso_string(), "2026-08-20");
    assert_eq!(date("2026-08-20").ymd(), (2026, 8, 20));
    assert_eq!(date("2027-01-31").checked_add_months(1), Some(date("2027-02-28")));
}

fn extra_rule(id: &str, direction: CashFlowDirection, amount_minor: i64) -> ForecastRule {
    ForecastRule {
        id: id.into(),
        label: id.into(),
        direction,
        amount_minor,
        currency: try_currency(),
        cadence: ForecastCadence::Monthly { day_of_month: 15 },
        starts_on: date("2026-09-15"),
        ends_on: None,
        provenance: Provenance::UserConfirmed,
        confidence_ppm: 1_000_000,
        evidence: vec![],
    }
}

#[test]
fn a_better_outlook_never_shortens_the_runway() {
    let base = calculate_runway(&scholarship_input()).unwrap().runway_days.unwrap();

    let mut richer = scholarship_input();
    richer.liquid_assets = Money::new(14_200_000, try_currency());
    let richer_days = calculate_runway(&richer).unwrap().runway_days.unwrap();
    assert!(richer_days > base);

    let mut earning = scholarship_input();
    earning.forecast_rules.push(extra_rule("tutoring", CashFlowDirection::Income, 200_000));
    let earning_days = calculate_runway(&earning).unwrap().runway_days.unwrap();
    assert!(earning_days >= base);

    let mut spending = scholarship_input();
    spending.forecast_rules.push(extra_rule("gym", CashFlowDirection::Expense, 200_000));
    let spending_days = calculate_runway(&spending).unwrap().runway_days.unwrap();
    assert!(spending_days <= base);

    let mut thriftier = scholarship_input();
    thriftier.historical_burn.expense_minor = 1_230_000;
    let thriftier_days = calculate_runway(&thriftier).unwrap().runway_days.unwrap();
    assert!(thriftier_days >= base);
}

#[test]
fn dates_follow_the_proleptic_gregorian_calendar() {
    assert_eq!(Date::from_ymd(1, 1, 1).unwrap().days_from_ce(), 1);
    assert_eq!(Date::from_ymd(0, 1, 1).unwrap().days_from_ce(), -365);
    assert_eq!(Date::from_ymd(1970, 1, 1).unwrap().days_from_ce(), 719_163);
    assert_eq!(Date::from_ymd(2026, 1, 3).unwrap().days_from_ce(), 739_619);
    assert!(Date::from_ymd(2027, 2, 29).is_none());
    assert!(Date::from_ymd(2024, 2, 29).is_some());
    assert!(Date::from_ymd(1900, 2, 29).is_none());
    assert!(Date::from_ymd(2000, 2, 29).is_some());
    let later = Date::from_ymd(2026, 1, 3).unwrap().checked_add_days(30).unwrap();
    assert_eq!(later, Date::from_ymd(2026, 2, 2).unwrap());
    let clamped = Date::from_ymd(2026, 1, 31).unwrap().checked_add_months(1).unwrap();
    assert_eq!(clamped, Date::from_ymd(2026, 2, 28).unwrap());
    assert_eq!(Date::from_ymd(-1, 1, 1).unwrap().to_iso_string(), "-0001-01-01");
    assert_eq!(Date::from_ymd(10000, 12, 31).unwrap().to_iso_string(), "+10000-12-31");
    assert_eq!(Date::from_ymd(2026, 9, 5).unwrap().to_iso_string(), "2026-09-05");
}
