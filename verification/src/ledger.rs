//! Rules the ledger database applies around its queries: stored values,
//! the historical spending summary, and how a runway input is assembled.

use vstd::prelude::*;
use crate::calendar::{Date, day_number_ymd, iso_text, parsed_day_number};
use crate::forecast::{
    min_int, CashFlowDirection, ForecastCadence, ForecastRule, HistoricalBurn, RunwayInput,
};
use crate::money::{CurrencyCode, Money, MoneyError, is_valid_code, normalized_code};
use crate::profile::{debug_quoted, debug_text, owned};
use crate::text::{chars_equal, chars_of, push_str, string_from_chars};

verus! {

/// Why a ledger operation failed.
#[derive(Debug, Clone, PartialEq, Eq)]
pub enum DbError {
    /// Stored JSON could not be read or written; holds the message.
    Json(String),
    Money(MoneyError),
    ScenarioNotFound(String),
    ProfileNotFound(String),
    /// No actual transactions exist for the currency.
    NoActualTransactions(String),
    /// No account balance is available; explicit assets are needed.
    NoAccountBalance { currency: String, as_of: Date },
    /// The as-of date lies beyond actual data without an asset fact for it.
    StaleBalanceOverride { requested: Date, last_actual: Date },
    InvalidStoredDate { field: String, value: String },
    InvalidValue(String),
    /// The database schema is newer than this build.
    UnsupportedSchema(i64),
}

/// A calculation scenario.
#[derive(Debug, Clone, PartialEq, Eq)]
pub struct Scenario {
    pub id: i64,
    pub name: String,
    pub currency: CurrencyCode,
    pub reserve_minor: i64,
    pub explicit_assets_minor: Option<i64>,
    pub assets_as_of: Option<Date>,
    pub max_horizon_days: u32,
}

/// A user-confirmed future cash flow to store.
#[derive(Debug, Clone, PartialEq, Eq)]
pub struct NewForecastRule {
    pub label: String,
    pub direction: CashFlowDirection,
    pub amount_minor: i64,
    pub currency: CurrencyCode,
    pub cadence: ForecastCadence,
    pub starts_on: Date,
    pub ends_on: Option<Date>,
    pub evidence: Vec<String>,
}

#[derive(Debug, Clone, PartialEq, Eq)]
pub struct TransactionListItem {
    pub id: i64,
    pub booked_on: Date,
    pub account: String,
    pub description: String,
    pub amount_minor: i64,
    pub currency: String,
    pub balance_after_minor: Option<i64>,
    pub interpretation: Option<String>,
}

#[derive(Debug, Clone, PartialEq, Eq)]
pub struct AccountSummary {
    pub external_key: String,
    pub display_name: String,
    pub currency: String,
    pub transaction_count: u64,
    pub last_actual_data: Option<Date>,
}

#[derive(Debug, Clone, PartialEq, Eq)]
pub struct AppSummary {
    pub transaction_count: u64,
    pub last_actual_data: Option<Date>,
    pub accounts: Vec<AccountSummary>,
    pub scenarios: Vec<String>,
    pub unresolved_outflow_count: u64,
}

#[derive(Debug, Clone, PartialEq, Eq)]
pub struct SavedImportProfile {
    pub name: String,
    pub config_toml: String,
    pub account_key: Option<String>,
    pub account_name: Option<String>,
    pub currency: Option<String>,
}

#[derive(Debug, Clone, PartialEq, Eq)]
pub struct ForecastRuleListItem {
    pub id: i64,
    pub label: String,
    pub direction: String,
    pub amount_minor: i64,
    pub currency: String,
    pub cadence: String,
    pub day_of_month: Option<u32>,
    pub starts_on: Date,
    pub ends_on: Option<Date>,
    pub source: String,
    pub evidence: Vec<String>,
}

// ---------------------------------------------------------------------------
// Stored dates
// ---------------------------------------------------------------------------

/// Reads a date stored as `YYYY-MM-DD`; the error names the field.
pub fn parse_stored_date(field: &str, value: &str) -> (r: Result<Date, DbError>)
    ensures
        match parsed_day_number(value@, "%Y-%m-%d"@) {
            Some(d) => r matches Ok(date) && date@ == d,
            None => r matches Err(DbError::InvalidStoredDate { field: f, value: v }) && f@ == field@
                && v@ == value@,
        },
{
    match Date::parse(value, "%Y-%m-%d") {
        Some(date) => Ok(date),
        None => Err(DbError::InvalidStoredDate { field: owned(field), value: owned(value) }),
    }
}

// ---------------------------------------------------------------------------
// Historical spending
// ---------------------------------------------------------------------------

/// An interpretation class that removes a transaction from the baseline.
pub open spec fn excluding_class(class: Option<Seq<char>>) -> bool {
    class == Some("transfer"@) || class == Some("exceptional"@) || class == Some("income"@)
}

/// How one actual transaction enters the baseline: `Some(delta)` adds
/// `delta` to observed spending (an outflow adds its magnitude, a confirmed
/// refund subtracts), `None` excludes it.
pub open spec fn burn_effect(amount: int, class: Option<Seq<char>>) -> Option<int> {
    if amount < 0 && !excluding_class(class) && class != Some("refund"@) {
        Some(-amount)
    } else if amount > 0 && class == Some("refund"@) {
        Some(-amount)
    } else {
        None
    }
}

pub open spec fn optional_text(c: Option<String>) -> Option<Seq<char>> {
    match c {
        Some(s) => Some(s@),
        None => None,
    }
}

/// Spending total and (included, excluded) counts over the first `n` rows.
pub open spec fn burn_totals(rows: Seq<(i64, Option<String>)>, n: int) -> (int, int, int)
    decreases n,
{
    if n <= 0 {
        (0, 0, 0)
    } else {
        let prev = burn_totals(rows, n - 1);
        match burn_effect(rows[n - 1].0 as int, optional_text(rows[n - 1].1)) {
            Some(delta) => (prev.0 + delta, prev.1 + 1, prev.2),
            None => (prev.0, prev.1, prev.2 + 1),
        }
    }
}

fn class_is(class: &Option<String>, name: &str) -> (r: bool)
    ensures
        r == (optional_text(*class) == Some(name@)),
{
    match class {
        Some(c) => chars_equal(&chars_of(c.as_str()), &chars_of(name)),
        None => false,
    }
}

/// Summarizes the actual transactions of the observation window into the
/// historical burn: outflows count as spending unless the user marked them
/// a transfer, exceptional or income; confirmed refunds reduce spending;
/// everything else is excluded. A negative total counts as zero.
pub fn summarize_burn(
    rows: &Vec<(i64, Option<String>)>,
    observed_from: Date,
    observed_through: Date,
) -> (r: Result<HistoricalBurn, DbError>)
    requires
        rows@.len() < 0x4000_0000_0000_0000,
    ensures
        ({
            let days = observed_through@ - observed_from@ + 1;
            let totals = burn_totals(rows@, rows@.len() as int);
            let expense = if totals.0 < 0 {
                0
            } else {
                totals.0
            };
            if !(0 <= days <= u32::MAX) {
                r matches Err(DbError::InvalidValue(m)) && m@ == "invalid observation window"@
            } else if expense > i64::MAX {
                r matches Err(DbError::InvalidValue(m)) && m@ == "historical expense overflow"@
            } else {
                r matches Ok(b) && b.expense_minor == expense && b.observed_days == days
                    && b.observed_from == observed_from && b.observed_through == observed_through
                    && b.included_transaction_count == totals.1
                    && b.excluded_transaction_count == totals.2
            }
        }),
        r matches Ok(b) ==> b.included_transaction_count + b.excluded_transaction_count
            == rows@.len(),
{
    let span: i64 = observed_through.days_since(&observed_from);
    let days: i64 = span + 1;
    if days < 0 || days > u32::MAX as i64 {
        return Err(DbError::InvalidValue(owned("invalid observation window")));
    }
    let mut expense: i128 = 0;
    let mut included: u64 = 0;
    let mut excluded: u64 = 0;
    for k in 0..rows.len()
        invariant
            rows@.len() < 0x4000_0000_0000_0000,
            (expense as int, included as int, excluded as int) == burn_totals(rows@, k as int),
            -(k as int) * 0x8000_0000_0000_0000 <= expense <= (k as int) * 0x8000_0000_0000_0000,
            included + excluded == k,
    {
        let amount: i64 = rows[k].0;
        let class = &rows[k].1;
        let excluded_class = class_is(class, "transfer") || class_is(class, "exceptional")
            || class_is(class, "income");
        let refund = class_is(class, "refund");
        if amount < 0 && !excluded_class && !refund {
            expense = expense - amount as i128;
            included = included + 1;
        } else if amount > 0 && refund {
            expense = expense - amount as i128;
            included = included + 1;
        } else {
            excluded = excluded + 1;
        }
        proof {
            assert((k + 1) as int * 0x8000_0000_0000_0000 == (k as int) * 0x8000_0000_0000_0000
                + 0x8000_0000_0000_0000) by (nonlinear_arith);
        }
    }
    let total: i128 = if expense < 0 {
        0
    } else {
        expense
    };
    if total > i64::MAX as i128 {
        return Err(DbError::InvalidValue(owned("historical expense overflow")));
    }
    Ok(
        HistoricalBurn {
            expense_minor: total as i64,
            observed_days: days as u32,
            observed_from,
            observed_through,
            included_transaction_count: included,
            excluded_transaction_count: excluded,
        },
    )
}


// ---------------------------------------------------------------------------
// Schema versions
// ---------------------------------------------------------------------------

/// What opening a database must do for its stored schema version.
#[derive(Debug, Clone, Copy, PartialEq, Eq)]
pub enum MigrationStep {
    /// A fresh database: create the schema and record version 2.
    CreateSchema,
    /// A version 1 database: add profile-aware reimports.
    UpgradeFromV1,
    /// The schema is current.
    Current,
}

/// The step for a stored `user_version`; a newer version is refused.
pub fn migration_step(version: i64) -> (r: Result<MigrationStep, DbError>)
    ensures
        version == 0 ==> r == Ok::<MigrationStep, DbError>(MigrationStep::CreateSchema),
        version == 1 ==> r == Ok::<MigrationStep, DbError>(MigrationStep::UpgradeFromV1),
        version == 2 ==> r == Ok::<MigrationStep, DbError>(MigrationStep::Current),
        !(0 <= version <= 2) ==> r == Err::<MigrationStep, DbError>(
            DbError::UnsupportedSchema(version),
        ),
{
    if version == 0 {
        Ok(MigrationStep::CreateSchema)
    } else if version == 1 {
        Ok(MigrationStep::UpgradeFromV1)
    } else if version == 2 {
        Ok(MigrationStep::Current)
    } else {
        Err(DbError::UnsupportedSchema(version))
    }
}

// ---------------------------------------------------------------------------
// Stored rows
// ---------------------------------------------------------------------------

/// A stored date is one that reads back as `YYYY-MM-DD`.
pub open spec fn stored_date_ok(value: Seq<char>) -> bool {
    parsed_day_number(value, "%Y-%m-%d"@) is Some
}

/// The day number a well-formed stored date reads as.
pub open spec fn stored_day(value: Seq<char>) -> int {
    parsed_day_number(value, "%Y-%m-%d"@).unwrap() as int
}

/// An optional stored date that is present but does not read as a date.
pub open spec fn unreadable_date(value: Option<String>) -> bool {
    match value {
        Some(v) => !stored_date_ok(v@),
        None => false,
    }
}

/// `r` is what reading the optional stored date `value` of `field` gives.
pub open spec fn optional_date_read(
    field: Seq<char>,
    value: Option<String>,
    r: Result<Option<Date>, DbError>,
) -> bool {
    match value {
        None => r matches Ok(None),
        Some(v) => if stored_date_ok(v@) {
            r matches Ok(Some(d)) && d@ == stored_day(v@)
        } else {
            r matches Err(DbError::InvalidStoredDate { field: f, value: x }) && f@ == field
                && x@ == v@
        },
    }
}

/// Reads an optional stored date; the error names the field.
pub fn parse_optional_stored_date(field: &str, value: &Option<String>) -> (r: Result<
    Option<Date>,
    DbError,
>)
    ensures
        optional_date_read(field@, *value, r),
{
    match value {
        None => Ok(None),
        Some(v) => match parse_stored_date(field, v.as_str()) {
            Ok(d) => Ok(Some(d)),
            Err(e) => Err(e),
        },
    }
}

/// The latest (or earliest) booking date that a query over the actual
/// transactions of `currency` returned; no date means no transactions.
pub fn actual_date_bound(currency: &str, stored: &Option<String>) -> (r: Result<Date, DbError>)
    ensures
        match *stored {
            None => r matches Err(DbError::NoActualTransactions(c)) && c@ == currency@,
            Some(v) => if stored_date_ok(v@) {
                r matches Ok(d) && d@ == stored_day(v@)
            } else {
                r matches Err(DbError::InvalidStoredDate { field: f, value: x })
                    && f@ == "actual_transactions.booked_on"@ && x@ == v@
            },
        },
{
    match stored {
        None => Err(DbError::NoActualTransactions(owned(currency))),
        Some(v) => parse_stored_date("actual_transactions.booked_on", v.as_str()),
    }
}

/// A scenario row as the database holds it.
#[derive(Debug, Clone, PartialEq, Eq)]
pub struct StoredScenario {
    pub id: i64,
    pub name: String,
    pub currency: String,
    pub reserve_minor: i64,
    pub explicit_assets_minor: Option<i64>,
    pub assets_as_of: Option<String>,
    pub max_horizon_days: i64,
}

/// `r` is what reading a stored scenario gives: its currency must be a
/// valid code, its asset date a stored date, and its horizon a non-negative
/// 32-bit count, checked in that order.
pub open spec fn decode_scenario_outcome(row: StoredScenario, r: Result<Scenario, DbError>) -> bool {
    if !is_valid_code(normalized_code(row.currency@)) {
        r matches Err(DbError::Money(MoneyError::InvalidCurrency(t))) && t@ == row.currency@
    } else if unreadable_date(row.assets_as_of) {
        r matches Err(DbError::InvalidStoredDate { field: f, value: x })
            && f@ == "scenarios.assets_as_of"@ && optional_text(row.assets_as_of) == Some(x@)
    } else if !(0 <= row.max_horizon_days <= u32::MAX) {
        r matches Err(DbError::InvalidValue(m)) && m@ == "negative max_horizon_days"@
    } else {
        r matches Ok(s) && {
            &&& s.id == row.id
            &&& s.name == row.name
            &&& s.currency@ == normalized_code(row.currency@)
            &&& s.reserve_minor == row.reserve_minor
            &&& s.explicit_assets_minor == row.explicit_assets_minor
            &&& optional_date_read("scenarios.assets_as_of"@, row.assets_as_of, Ok(s.assets_as_of))
            &&& s.max_horizon_days == row.max_horizon_days
        }
    }
}

/// Reads a stored scenario.
pub fn decode_scenario(row: StoredScenario) -> (r: Result<Scenario, DbError>)
    ensures
        decode_scenario_outcome(row, r),
{
    let currency = match CurrencyCode::new(row.currency.as_str()) {
        Ok(c) => c,
        Err(e) => return Err(DbError::Money(e)),
    };
    let assets_as_of = match parse_optional_stored_date("scenarios.assets_as_of", &row.assets_as_of) {
        Ok(d) => d,
        Err(e) => return Err(e),
    };
    if row.max_horizon_days < 0 || row.max_horizon_days > u32::MAX as i64 {
        return Err(DbError::InvalidValue(owned("negative max_horizon_days")));
    }
    Ok(
        Scenario {
            id: row.id,
            name: row.name,
            currency,
            reserve_minor: row.reserve_minor,
            explicit_assets_minor: row.explicit_assets_minor,
            assets_as_of,
            max_horizon_days: row.max_horizon_days as u32,
        },
    )
}

// ---------------------------------------------------------------------------
// Assembling a runway input
// ---------------------------------------------------------------------------

/// What the scenario and the data decide before the balance and history
/// queries are made.
#[derive(Debug, Clone, PartialEq, Eq)]
pub struct RunwayPlan {
    /// The balance date.
    pub as_of: Date,
    /// The scenario's explicit asset amount where it applies to `as_of`;
    /// `None` means the latest account balances must be summed.
    pub explicit_assets_minor: Option<i64>,
    /// The last day of spending history taken into account.
    pub observed_through: Date,
}

/// The scenario holds an asset fact for the day `day`.
pub open spec fn assets_dated(scenario: Scenario, day: int) -> bool {
    scenario.assets_as_of matches Some(a) && a@ == day
}

/// The balance date: the override, else the scenario's asset date, else the
/// last day with actual data.
pub open spec fn planned_as_of(scenario: Scenario, last_actual: Date, as_of_override: Option<
    Date,
>) -> int {
    match as_of_override {
        Some(d) => d@,
        None => match scenario.assets_as_of {
            Some(a) => a@,
            None => last_actual@,
        },
    }
}

/// An override may not move past the actual data unless the scenario holds
/// an asset fact for that very day.
pub open spec fn stale_override(scenario: Scenario, last_actual: Date, as_of_override: Option<
    Date,
>) -> bool {
    let as_of = planned_as_of(scenario, last_actual, as_of_override);
    as_of_override is Some && as_of > last_actual@ && !assets_dated(scenario, as_of)
}

/// The explicit asset amount is used unless an override moved the balance
/// date away from the date the amount was given for.
pub open spec fn explicit_assets_apply(scenario: Scenario, last_actual: Date, as_of_override: Option<
    Date,
>) -> bool {
    &&& scenario.explicit_assets_minor is Some
    &&& (as_of_override is None || assets_dated(
        scenario,
        planned_as_of(scenario, last_actual, as_of_override),
    ))
}

/// Decides the balance date, whether the scenario's explicit assets apply,
/// and how far spending history is observed. A balance date beyond the
/// actual data is only accepted with an asset fact for that date.
pub fn plan_runway_input(scenario: &Scenario, last_actual: Date, as_of_override: Option<Date>) -> (r:
    Result<RunwayPlan, DbError>)
    ensures
        ({
            let as_of = planned_as_of(*scenario, last_actual, as_of_override);
            if stale_override(*scenario, last_actual, as_of_override) {
                r matches Err(DbError::StaleBalanceOverride { requested, last_actual: l })
                    && requested@ == as_of && l == last_actual
            } else {
                r matches Ok(p) && p.as_of@ == as_of && p.explicit_assets_minor == (
                if explicit_assets_apply(*scenario, last_actual, as_of_override) {
                    scenario.explicit_assets_minor
                } else {
                    None
                }) && p.observed_through@ == min_int(last_actual@, as_of)
            }
        }),
        r matches Ok(p) ==> p.as_of@ <= last_actual@ || assets_dated(*scenario, p.as_of@),
        r matches Ok(p) ==> p.observed_through@ <= last_actual@ && p.observed_through@ <= p.as_of@,
{
    let as_of: Date = match as_of_override {
        Some(d) => d,
        None => match scenario.assets_as_of {
            Some(a) => a,
            None => last_actual,
        },
    };
    let dated: bool = match scenario.assets_as_of {
        Some(a) => a.days_from_ce() == as_of.days_from_ce(),
        None => false,
    };
    if as_of_override.is_some() && last_actual.is_before(&as_of) && !dated {
        return Err(DbError::StaleBalanceOverride { requested: as_of, last_actual });
    }
    let explicit_assets_minor = if as_of_override.is_none() || dated {
        scenario.explicit_assets_minor
    } else {
        None
    };
    let observed_through = if as_of.is_before(&last_actual) {
        as_of
    } else {
        last_actual
    };
    Ok(RunwayPlan { as_of, explicit_assets_minor, observed_through })
}

/// The liquid assets of the plan: its explicit amount, else the summed
/// latest balances that the database returned, else an error that asks for
/// explicit assets.
pub fn liquid_assets_for(plan: &RunwayPlan, currency: &CurrencyCode, balance: Option<i64>) -> (r:
    Result<i64, DbError>)
    ensures
        match plan.explicit_assets_minor {
            Some(a) => r == Ok::<i64, DbError>(a),
            None => match balance {
                Some(b) => r == Ok::<i64, DbError>(b),
                None => r matches Err(DbError::NoAccountBalance { currency: c, as_of })
                    && c@ == currency@ && as_of == plan.as_of,
            },
        },
{
    match plan.explicit_assets_minor {
        Some(a) => Ok(a),
        None => match balance {
            Some(b) => Ok(b),
            None => Err(DbError::NoAccountBalance { currency: currency.to_text(), as_of: plan.as_of }),
        },
    }
}

/// The runway input of a scenario: the planned balance date, the liquid
/// assets and reserve in the scenario's currency, the observed history, the
/// scenario's forecast rules and its horizon.
pub fn assemble_runway_input(
    scenario: &Scenario,
    plan: &RunwayPlan,
    liquid_assets_minor: i64,
    historical_burn: HistoricalBurn,
    forecast_rules: Vec<ForecastRule>,
) -> (r: RunwayInput)
    ensures
        r.as_of == plan.as_of,
        r.liquid_assets.amount_minor == liquid_assets_minor,
        r.liquid_assets.currency == scenario.currency,
        r.reserve.amount_minor == scenario.reserve_minor,
        r.reserve.currency == scenario.currency,
        r.historical_burn == historical_burn,
        r.forecast_rules@ == forecast_rules@,
        r.max_horizon_days == Some(scenario.max_horizon_days),
{
    RunwayInput {
        as_of: plan.as_of,
        liquid_assets: Money::new(liquid_assets_minor, scenario.currency.clone()),
        reserve: Money::new(scenario.reserve_minor, scenario.currency.clone()),
        historical_burn,
        forecast_rules,
        max_horizon_days: Some(scenario.max_horizon_days),
    }
}


// ---------------------------------------------------------------------------
// Accounts, transactions and snapshots
// ---------------------------------------------------------------------------

/// An account keeps the currency it was created with: after the upsert the
/// stored currency must be the requested one.
pub fn check_account_currency(external_key: &str, stored_currency: &str, currency: &CurrencyCode) -> (r:
    Result<(), DbError>)
    ensures
        stored_currency@ == currency@ <==> r is Ok,
        r matches Err(e) ==> (e matches DbError::InvalidValue(m) && m@ == "account "@ + debug_quoted(
            external_key@,
        ) + " already uses "@ + stored_currency@ + ", not "@ + currency@),
{
    if chars_equal(&chars_of(stored_currency), &chars_of(currency.as_str())) {
        return Ok(());
    }
    let mut m = chars_of("account ");
    let quoted = debug_text(external_key);
    push_str(&mut m, quoted.as_str());
    push_str(&mut m, " already uses ");
    push_str(&mut m, stored_currency);
    push_str(&mut m, ", not ");
    push_str(&mut m, currency.as_str());
    Err(DbError::InvalidValue(string_from_chars(&m)))
}

/// An actual transaction row as a listing query returns it.
#[derive(Debug, Clone, PartialEq, Eq)]
pub struct StoredTransaction {
    pub id: i64,
    pub booked_on: String,
    pub account: String,
    pub description: String,
    pub amount_minor: i64,
    pub currency: String,
    pub balance_after_minor: Option<i64>,
    pub interpretation: Option<String>,
}

/// Reads a listed transaction; only its booking date needs reading.
pub fn decode_transaction(row: StoredTransaction) -> (r: Result<TransactionListItem, DbError>)
    ensures
        !stored_date_ok(row.booked_on@) ==> (r matches Err(DbError::InvalidStoredDate {
            field: f,
            value: v,
        }) && f@ == "actual_transactions.booked_on"@ && v@ == row.booked_on@),
        stored_date_ok(row.booked_on@) ==> (r matches Ok(t) && {
            &&& t.id == row.id
            &&& t.booked_on@ == stored_day(row.booked_on@)
            &&& t.account == row.account
            &&& t.description == row.description
            &&& t.amount_minor == row.amount_minor
            &&& t.currency == row.currency
            &&& t.balance_after_minor == row.balance_after_minor
            &&& t.interpretation == row.interpretation
        }),
{
    let booked_on = match parse_stored_date("actual_transactions.booked_on", row.booked_on.as_str()) {
        Ok(d) => d,
        Err(e) => return Err(e),
    };
    Ok(
        TransactionListItem {
            id: row.id,
            booked_on,
            account: row.account,
            description: row.description,
            amount_minor: row.amount_minor,
            currency: row.currency,
            balance_after_minor: row.balance_after_minor,
            interpretation: row.interpretation,
        },
    )
}

/// An account row of the summary query.
#[derive(Debug, Clone, PartialEq, Eq)]
pub struct StoredAccount {
    pub external_key: String,
    pub display_name: String,
    pub currency: String,
    pub transaction_count: u64,
    pub last_booked_on: Option<String>,
}

/// Reads an account summary; only its last booking date needs reading.
pub fn decode_account(row: StoredAccount) -> (r: Result<AccountSummary, DbError>)
    ensures
        unreadable_date(row.last_booked_on) ==> (r matches Err(DbError::InvalidStoredDate {
            field: f,
            value: v,
        }) && f@ == "actual_transactions.booked_on"@ && optional_text(row.last_booked_on) == Some(
            v@,
        )),
        !unreadable_date(row.last_booked_on) ==> (r matches Ok(a) && {
            &&& a.external_key == row.external_key
            &&& a.display_name == row.display_name
            &&& a.currency == row.currency
            &&& a.transaction_count == row.transaction_count
            &&& optional_date_read(
                "actual_transactions.booked_on"@,
                row.last_booked_on,
                Ok(a.last_actual_data),
            )
        }),
{
    let last_actual_data = match parse_optional_stored_date(
        "actual_transactions.booked_on",
        &row.last_booked_on,
    ) {
        Ok(d) => d,
        Err(e) => return Err(e),
    };
    Ok(
        AccountSummary {
            external_key: row.external_key,
            display_name: row.display_name,
            currency: row.currency,
            transaction_count: row.transaction_count,
            last_actual_data,
        },
    )
}

/// A new snapshot is only stored when its explanation differs from the
/// scenario's latest one; otherwise the latest snapshot's id is reused.
pub fn reusable_snapshot(latest: &Option<(i64, String)>, explanation: &str) -> (r: Option<i64>)
    ensures
        match *latest {
            Some((id, previous)) => if previous@ == explanation@ {
                r == Some(id)
            } else {
                r is None
            },
            None => r is None,
        },
{
    match latest {
        Some((id, previous)) => if chars_equal(&chars_of(previous.as_str()), &chars_of(explanation)) {
            Some(*id)
        } else {
            None
        },
        None => None,
    }
}


// ---------------------------------------------------------------------------
// Writing a scenario
// ---------------------------------------------------------------------------

/// The explicit-assets columns of a scenario: the amount, and the date as
/// `YYYY-MM-DD` text.
#[derive(Debug, Clone, PartialEq, Eq)]
pub struct AssetColumns {
    pub explicit_assets_minor: Option<i64>,
    pub assets_as_of: Option<String>,
}

/// `c` holds the explicit assets `explicit`.
pub open spec fn asset_columns_of(explicit: Option<(i64, Date)>, c: AssetColumns) -> bool {
    match explicit {
        Some((amount, date)) => {
            &&& c.explicit_assets_minor == Some(amount)
            &&& c.assets_as_of matches Some(t)
            &&& t@ == iso_text(date@ as i32)
            &&& (0 <= day_number_ymd(date@ as i32).0 <= 9999 ==> parsed_day_number(
                t@,
                "%Y-%m-%d"@,
            ) == Some(date@ as i32))
        },
        None => c.explicit_assets_minor is None && c.assets_as_of is None,
    }
}

/// The columns that store a scenario's explicit assets.
pub fn encode_scenario_assets(explicit: Option<(i64, Date)>) -> (r: AssetColumns)
    ensures
        asset_columns_of(explicit, r),
{
    match explicit {
        Some((amount, date)) => AssetColumns {
            explicit_assets_minor: Some(amount),
            assets_as_of: Some(date.to_iso_string()),
        },
        None => AssetColumns { explicit_assets_minor: None, assets_as_of: None },
    }
}

/// A scenario that is written and read back keeps its currency, reserve and
/// explicit assets with their date (for dates whose year prints as four
/// digits).
pub proof fn law_stored_scenario_reads_back(
    currency: CurrencyCode,
    reserve_minor: i64,
    explicit: Option<(i64, Date)>,
    c: AssetColumns,
    row: StoredScenario,
    r: Result<Scenario, DbError>,
)
    requires
        is_valid_code(currency@),
        normalized_code(currency@) == currency@,
        explicit matches Some((a, d)) ==> 0 <= day_number_ymd(d@ as i32).0 <= 9999,
        asset_columns_of(explicit, c),
        row.currency@ == currency@,
        row.reserve_minor == reserve_minor,
        row.explicit_assets_minor == c.explicit_assets_minor,
        row.assets_as_of == c.assets_as_of,
        0 <= row.max_horizon_days <= u32::MAX,
        decode_scenario_outcome(row, r),
    ensures
        r matches Ok(s) && {
            &&& s.currency@ == currency@
            &&& s.reserve_minor == reserve_minor
            &&& s.explicit_assets_minor == match explicit {
                Some((a, _)) => Some(a),
                None => None::<i64>,
            }
            &&& optional_day_of(s.assets_as_of) == match explicit {
                Some((_, d)) => Some(d@),
                None => None::<int>,
            }
        },
{
    if let Some((_, d)) = explicit {
        Date::lemma_day_number_fits(d);
    }
}

/// The day number of an optional date.
pub open spec fn optional_day_of(d: Option<Date>) -> Option<int> {
    match d {
        Some(x) => Some(x@),
        None => None,
    }
}

} // verus!
