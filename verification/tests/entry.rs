use runwayclock::calendar::Date;
use runwayclock::entry::{
    account_entry, check_interpretation, cli_flow_rule, cli_scenario_entry, desktop_flow_rule,
    desktop_scenario_entry, interpretation_named, CliFlow, EntryError, FlowEntry,
    InterpretationClass,
};
use runwayclock::forecast::{CashFlowDirection, ForecastCadence};
use runwayclock::money::MoneyError;
use runwayclock::profile::ImportError;

fn date(value: &str) -> Date {
    Date::parse(value, "%Y-%m-%d").unwrap()
}

fn refused(message: &str) -> EntryError {
    EntryError::Refused(message.to_owned())
}

fn cli_flow(amount: &str, monthly: bool, day: Option<u32>) -> CliFlow {
    CliFlow {
        label: "Scholarship".to_owned(),
        direction: CashFlowDirection::Income,
        amount: amount.to_owned(),
        currency: "try".to_owned(),
        monthly,
        starts_on: date("2026-09-01"),
        ends_on: Some(date("2027-06-30")),
        day_of_month: day,
        evidence: vec!["transaction:4".to_owned()],
    }
}

#[test]
fn command_line_flows_are_checked_before_storing() {
    let rule = cli_flow_rule(cli_flow("6.500,00", true, Some(1))).unwrap();
    assert_eq!(rule.amount_minor, 650_000);
    assert_eq!(rule.cadence, ForecastCadence::Monthly { day_of_month: 1 });
    assert_eq!(rule.currency.as_str(), "TRY");
    assert_eq!(rule.evidence, vec!["transaction:4".to_owned()]);
    assert_eq!(
        cli_flow_rule(cli_flow("0", true, Some(1))).unwrap_err(),
        refused("forecast amount must be positive; use --direction for its sign")
    );
    assert_eq!(
        cli_flow_rule(cli_flow("10", false, Some(1))).unwrap_err(),
        refused("--day-of-month only applies to monthly flows")
    );
    assert_eq!(
        cli_flow_rule(cli_flow("10", true, Some(32))).unwrap_err(),
        refused("monthly flows require --day-of-month from 1 to 31")
    );
    assert_eq!(
        cli_flow_rule(cli_flow("10", true, None)).unwrap_err(),
        refused("monthly flows require --day-of-month from 1 to 31")
    );
    assert_eq!(
        cli_flow_rule(cli_flow("abc", true, Some(1))).unwrap_err(),
        EntryError::Amount(ImportError::InvalidMoney {
            value: "abc".to_owned(),
            reason: "no digits".to_owned()
        })
    );
    let mut flow = cli_flow("10", false, None);
    flow.currency = "TL".to_owned();
    assert_eq!(
        cli_flow_rule(flow).unwrap_err(),
        EntryError::Currency(MoneyError::InvalidCurrency("TL".to_owned()))
    );
    let once = cli_flow_rule(cli_flow("10", false, None)).unwrap();
    assert_eq!(once.cadence, ForecastCadence::Once);
}

fn desktop_flow(direction: &str, cadence: &str, amount: &str, day: Option<u32>) -> FlowEntry {
    FlowEntry {
        label: "Rent".to_owned(),
        direction: direction.to_owned(),
        amount: amount.to_owned(),
        currency: "TRY".to_owned(),
        cadence: cadence.to_owned(),
        starts_on: date("2027-01-01"),
        ends_on: None,
        day_of_month: day,
        evidence: Vec::new(),
    }
}

#[test]
fn desktop_flows_are_checked_before_storing() {
    let rule = desktop_flow_rule(desktop_flow("expense", "monthly", "1.000,00", Some(31))).unwrap();
    assert_eq!(rule.direction, CashFlowDirection::Expense);
    assert_eq!(rule.amount_minor, 100_000);
    assert_eq!(rule.cadence, ForecastCadence::Monthly { day_of_month: 31 });
    let once = desktop_flow_rule(desktop_flow("income", "once", "5", Some(9))).unwrap();
    assert_eq!(once.cadence, ForecastCadence::Once);
    assert_eq!(
        desktop_flow_rule(desktop_flow("gift", "once", "5", None)).unwrap_err(),
        refused("Direction must be income or expense.")
    );
    assert_eq!(
        desktop_flow_rule(desktop_flow("income", "weekly", "5", None)).unwrap_err(),
        refused("Cadence must be once or monthly.")
    );
    assert_eq!(
        desktop_flow_rule(desktop_flow("income", "monthly", "5", Some(0))).unwrap_err(),
        refused("Monthly facts need a day from 1 to 31.")
    );
    assert_eq!(
        desktop_flow_rule(desktop_flow("income", "once", "-5", None)).unwrap_err(),
        refused("Amount must be positive; choose income or expense separately.")
    );
}

#[test]
fn scenarios_need_a_non_negative_reserve_and_dated_assets() {
    let entry =
        cli_scenario_entry("no-work".to_owned(), "try", "20.000,00", &Some("132000".to_owned()), Some(date("2026-08-20")))
            .unwrap();
    assert_eq!(entry.reserve_minor, 2_000_000);
    assert_eq!(entry.explicit_assets, Some((13_200_000, date("2026-08-20"))));
    assert_eq!(entry.currency.as_str(), "TRY");
    assert_eq!(
        cli_scenario_entry("no-work".to_owned(), "TRY", "-1", &None, None).unwrap_err(),
        refused("reserve cannot be negative")
    );

    let desk = desktop_scenario_entry("  no-work ", "TRY", "0", &Some("  ".to_owned()), None).unwrap();
    assert_eq!(desk.name, "no-work");
    assert_eq!(desk.explicit_assets, None);
    assert_eq!(
        desktop_scenario_entry("x", "TRY", "0", &Some("100".to_owned()), None).unwrap_err(),
        refused("Asset amount requires an as-of date.")
    );
    assert_eq!(
        desktop_scenario_entry("x", "TRY", "0", &None, Some(date("2026-08-20"))).unwrap_err(),
        refused("Asset date requires an asset amount.")
    );
    assert_eq!(
        desktop_scenario_entry("x", "TRY", "-0,01", &None, None).unwrap_err(),
        refused("Reserve cannot be negative.")
    );
    let dated =
        desktop_scenario_entry("x", "TRY", "0", &Some("1.500".to_owned()), Some(date("2026-08-20")))
            .unwrap();
    assert_eq!(dated.explicit_assets, Some((150_000, date("2026-08-20"))));
    assert_eq!(
        desktop_scenario_entry("x", "TL", "0", &None, None).unwrap_err(),
        EntryError::Currency(MoneyError::InvalidCurrency("TL".to_owned()))
    );
}

#[test]
fn accounts_need_a_name_and_identifier() {
    assert_eq!(
        account_entry(" checking-try ", " Synthetic checking ").unwrap(),
        ("checking-try".to_owned(), "Synthetic checking".to_owned())
    );
    assert_eq!(
        account_entry("  ", "Name").unwrap_err(),
        refused("Account name and identifier are required.")
    );
}

#[test]
fn only_known_interpretations_are_accepted() {
    assert!(check_interpretation("exceptional").is_ok());
    assert!(check_interpretation("refund").is_ok());
    assert_eq!(
        check_interpretation("salary").unwrap_err(),
        refused("Unknown transaction interpretation.")
    );
    for class in [
        InterpretationClass::FixedRecurrent,
        InterpretationClass::VariableRecurrent,
        InterpretationClass::IrregularRecurrent,
        InterpretationClass::Exceptional,
        InterpretationClass::Transfer,
        InterpretationClass::Income,
        InterpretationClass::Refund,
        InterpretationClass::Unknown,
    ] {
        assert_eq!(interpretation_named(class.as_str()), Some(class));
    }
    assert_eq!(InterpretationClass::FixedRecurrent.as_str(), "fixed_recurrent");
}
