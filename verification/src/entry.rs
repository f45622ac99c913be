//! Facts a person enters by hand, from the command line or the desktop
//! window: amounts, scenarios, forecast flows, accounts and transaction
//! interpretations, checked before anything is stored.

use vstd::prelude::*;
use crate::amount::{
    AmountParse, flexible_separators, parse_amount, parse_flexible_amount_minor, remove_white_space,
};
use crate::calendar::Date;
use crate::forecast::{CashFlowDirection, ForecastCadence, texts};
use crate::ledger::NewForecastRule;
use crate::money::{CurrencyCode, MoneyError, is_valid_code, normalized_code};
use crate::profile::{ImportError, owned};
use crate::rule_rows::direction_named;
use crate::text::{chars_equal, chars_of, string_from_chars, trim, trim_chars};

verus! {

/// Why an entered fact was refused.
#[derive(Debug, Clone, PartialEq, Eq)]
pub enum EntryError {
    /// The amount text does not parse.
    Amount(ImportError),
    /// The currency text is not a currency code.
    Currency(MoneyError),
    /// The entry breaks a rule; holds the message shown to the person.
    Refused(String),
}

// ---------------------------------------------------------------------------
// Amounts
// ---------------------------------------------------------------------------

/// How an amount entered by hand parses: white space is dropped and the
/// separators are guessed from the text, with two minor-unit digits.
pub open spec fn flexible_amount(value: Seq<char>) -> AmountParse {
    let compact = remove_white_space(value);
    let seps = flexible_separators(compact);
    parse_amount(compact, seps.0, seps.1, 2)
}

/// `e` is the error that parsing the entered amount `value` reports.
pub open spec fn amount_error_is(value: Seq<char>, e: ImportError) -> bool {
    match flexible_amount(value) {
        AmountParse::ConflictingSeparators => e == ImportError::ConflictingSeparators,
        AmountParse::Invalid(reason) => e matches ImportError::InvalidMoney { value: v, reason: why }
            && v@ == remove_white_space(value) && why@ == reason,
        AmountParse::Value(n) => false,
    }
}

/// An amount typed on the command line, in `6.500,00` or `6500.00`
/// notation.
pub fn parse_user_amount(value: &str) -> (r: Result<i64, ImportError>)
    ensures
        match flexible_amount(value@) {
            AmountParse::Value(n) => r == Ok::<i64, ImportError>(n as i64),
            _ => r matches Err(e) && amount_error_is(value@, e),
        },
        r matches Ok(n) ==> flexible_amount(value@) == AmountParse::Value(n as int),
{
    parse_flexible_amount_minor(value)
}

/// A positive amount for a forecast flow, or the refusal message.
fn positive_amount(value: &str, refusal: &str) -> (r: Result<i64, EntryError>)
    ensures
        match flexible_amount(value@) {
            AmountParse::Value(n) => if n <= 0 {
                r matches Err(EntryError::Refused(m)) && m@ == refusal@
            } else {
                r == Ok::<i64, EntryError>(n as i64)
            },
            _ => r matches Err(EntryError::Amount(e)) && amount_error_is(value@, e),
        },
{
    match parse_user_amount(value) {
        Ok(n) => if n <= 0 {
            Err(EntryError::Refused(owned(refusal)))
        } else {
            Ok(n)
        },
        Err(e) => Err(EntryError::Amount(e)),
    }
}

fn currency_entry(value: &str) -> (r: Result<CurrencyCode, EntryError>)
    ensures
        is_valid_code(normalized_code(value@)) ==> (r matches Ok(c) && c@ == normalized_code(
            value@,
        )),
        !is_valid_code(normalized_code(value@)) ==> (r matches Err(
            EntryError::Currency(MoneyError::InvalidCurrency(t)),
        ) && t@ == value@),
{
    match CurrencyCode::new(value) {
        Ok(c) => Ok(c),
        Err(e) => Err(EntryError::Currency(e)),
    }
}

// ---------------------------------------------------------------------------
// Forecast flows
// ---------------------------------------------------------------------------

/// A day of month from 1 to 31.
pub open spec fn day_in_month_range(day: Option<u32>) -> bool {
    day matches Some(d) && 1 <= d <= 31
}

/// A future cash flow as typed on the command line (direction and cadence
/// are chosen from fixed lists there).
#[derive(Debug, Clone, PartialEq, Eq)]
pub struct CliFlow {
    pub label: String,
    pub direction: CashFlowDirection,
    pub amount: String,
    pub currency: String,
    pub monthly: bool,
    pub starts_on: Date,
    pub ends_on: Option<Date>,
    pub day_of_month: Option<u32>,
    pub evidence: Vec<String>,
}

/// A future cash flow as entered in the desktop window.
#[derive(Debug, Clone, PartialEq, Eq)]
pub struct FlowEntry {
    pub label: String,
    pub direction: String,
    pub amount: String,
    pub currency: String,
    pub cadence: String,
    pub starts_on: Date,
    pub ends_on: Option<Date>,
    pub day_of_month: Option<u32>,
    pub evidence: Vec<String>,
}

/// `rule` carries the entered label, dates and evidence.
pub open spec fn keeps_entry(rule: NewForecastRule, label: String, starts_on: Date, ends_on: Option<
    Date,
>, evidence: Seq<String>) -> bool {
    &&& rule.label == label
    &&& rule.starts_on == starts_on
    &&& rule.ends_on == ends_on
    &&& texts(rule.evidence@) == texts(evidence)
}

/// What the command line makes of a flow: the amount is parsed and must be
/// positive, a one-off flow takes no day of month and a monthly one needs a
/// day from 1 to 31, and the currency must be a code.
pub open spec fn cli_flow_outcome(flow: CliFlow, r: Result<NewForecastRule, EntryError>) -> bool {
    let amount = flexible_amount(flow.amount@);
    if !(amount is Value) {
        r matches Err(EntryError::Amount(e)) && amount_error_is(flow.amount@, e)
    } else if amount->Value_0 <= 0 {
        r matches Err(EntryError::Refused(m))
            && m@ == "forecast amount must be positive; use --direction for its sign"@
    } else if !flow.monthly && flow.day_of_month is Some {
        r matches Err(EntryError::Refused(m)) && m@ == "--day-of-month only applies to monthly flows"@
    } else if flow.monthly && !day_in_month_range(flow.day_of_month) {
        r matches Err(EntryError::Refused(m))
            && m@ == "monthly flows require --day-of-month from 1 to 31"@
    } else if !is_valid_code(normalized_code(flow.currency@)) {
        r matches Err(EntryError::Currency(MoneyError::InvalidCurrency(t))) && t@ == flow.currency@
    } else {
        r matches Ok(rule) && {
            &&& keeps_entry(rule, flow.label, flow.starts_on, flow.ends_on, flow.evidence@)
            &&& rule.direction == flow.direction
            &&& rule.amount_minor == amount->Value_0
            &&& rule.currency@ == normalized_code(flow.currency@)
            &&& rule.cadence == if flow.monthly {
                ForecastCadence::Monthly { day_of_month: flow.day_of_month.unwrap() }
            } else {
                ForecastCadence::Once
            }
        }
    }
}

/// Checks a flow typed on the command line and builds the rule to store.
pub fn cli_flow_rule(flow: CliFlow) -> (r: Result<NewForecastRule, EntryError>)
    ensures
        cli_flow_outcome(flow, r),
{
    let amount_minor = match positive_amount(
        flow.amount.as_str(),
        "forecast amount must be positive; use --direction for its sign",
    ) {
        Ok(n) => n,
        Err(e) => return Err(e),
    };
    let cadence = if flow.monthly {
        match flow.day_of_month {
            Some(day) => if 1 <= day && day <= 31 {
                ForecastCadence::Monthly { day_of_month: day }
            } else {
                return Err(
                    EntryError::Refused(owned("monthly flows require --day-of-month from 1 to 31")),
                );
            },
            None => {
                return Err(
                    EntryError::Refused(owned("monthly flows require --day-of-month from 1 to 31")),
                );
            },
        }
    } else {
        if flow.day_of_month.is_some() {
            return Err(EntryError::Refused(owned("--day-of-month only applies to monthly flows")));
        }
        ForecastCadence::Once
    };
    let currency = match currency_entry(flow.currency.as_str()) {
        Ok(c) => c,
        Err(e) => return Err(e),
    };
    Ok(
        NewForecastRule {
            label: flow.label,
            direction: flow.direction,
            amount_minor,
            currency,
            cadence,
            starts_on: flow.starts_on,
            ends_on: flow.ends_on,
            evidence: flow.evidence,
        },
    )
}

/// What the desktop window makes of a flow: the direction and cadence must
/// be known names, a monthly flow needs a day from 1 to 31 (a one-off flow
/// ignores the day), the amount must parse and be positive, and the currency
/// must be a code.
pub open spec fn desktop_flow_outcome(flow: FlowEntry, r: Result<NewForecastRule, EntryError>) -> bool {
    let amount = flexible_amount(flow.amount@);
    if direction_named(flow.direction@) is None {
        r matches Err(EntryError::Refused(m)) && m@ == "Direction must be income or expense."@
    } else if flow.cadence@ != "once"@ && flow.cadence@ != "monthly"@ {
        r matches Err(EntryError::Refused(m)) && m@ == "Cadence must be once or monthly."@
    } else if flow.cadence@ == "monthly"@ && !day_in_month_range(flow.day_of_month) {
        r matches Err(EntryError::Refused(m)) && m@ == "Monthly facts need a day from 1 to 31."@
    } else if !(amount is Value) {
        r matches Err(EntryError::Amount(e)) && amount_error_is(flow.amount@, e)
    } else if amount->Value_0 <= 0 {
        r matches Err(EntryError::Refused(m))
            && m@ == "Amount must be positive; choose income or expense separately."@
    } else if !is_valid_code(normalized_code(flow.currency@)) {
        r matches Err(EntryError::Currency(MoneyError::InvalidCurrency(t))) && t@ == flow.currency@
    } else {
        r matches Ok(rule) && {
            &&& keeps_entry(rule, flow.label, flow.starts_on, flow.ends_on, flow.evidence@)
            &&& direction_named(flow.direction@) == Some(rule.direction)
            &&& rule.amount_minor == amount->Value_0
            &&& rule.currency@ == normalized_code(flow.currency@)
            &&& rule.cadence == if flow.cadence@ == "monthly"@ {
                ForecastCadence::Monthly { day_of_month: flow.day_of_month.unwrap() }
            } else {
                ForecastCadence::Once
            }
        }
    }
}

fn text_is(s: &str, literal: &str) -> (r: bool)
    ensures
        r == (s@ == literal@),
{
    chars_equal(&chars_of(s), &chars_of(literal))
}

/// Checks a flow entered in the desktop window and builds the rule to store.
pub fn desktop_flow_rule(flow: FlowEntry) -> (r: Result<NewForecastRule, EntryError>)
    ensures
        desktop_flow_outcome(flow, r),
{
    proof {
        reveal_strlit("once");
        reveal_strlit("monthly");
        assert("once"@.len() != "monthly"@.len());
    }
    let direction = if text_is(flow.direction.as_str(), "income") {
        CashFlowDirection::Income
    } else if text_is(flow.direction.as_str(), "expense") {
        CashFlowDirection::Expense
    } else {
        return Err(EntryError::Refused(owned("Direction must be income or expense.")));
    };
    let cadence = if text_is(flow.cadence.as_str(), "once") {
        ForecastCadence::Once
    } else if text_is(flow.cadence.as_str(), "monthly") {
        match flow.day_of_month {
            Some(day) => if 1 <= day && day <= 31 {
                ForecastCadence::Monthly { day_of_month: day }
            } else {
                return Err(EntryError::Refused(owned("Monthly facts need a day from 1 to 31.")));
            },
            None => {
                return Err(EntryError::Refused(owned("Monthly facts need a day from 1 to 31.")));
            },
        }
    } else {
        return Err(EntryError::Refused(owned("Cadence must be once or monthly.")));
    };
    let amount_minor = match positive_amount(
        flow.amount.as_str(),
        "Amount must be positive; choose income or expense separately.",
    ) {
        Ok(n) => n,
        Err(e) => return Err(e),
    };
    let currency = match currency_entry(flow.currency.as_str()) {
        Ok(c) => c,
        Err(e) => return Err(e),
    };
    Ok(
        NewForecastRule {
            label: flow.label,
            direction,
            amount_minor,
            currency,
            cadence,
            starts_on: flow.starts_on,
            ends_on: flow.ends_on,
            evidence: flow.evidence,
        },
    )
}


// ---------------------------------------------------------------------------
// Scenarios
// ---------------------------------------------------------------------------

/// A checked scenario to store.
#[derive(Debug, Clone, PartialEq, Eq)]
pub struct ScenarioEntry {
    pub name: String,
    pub currency: CurrencyCode,
    pub reserve_minor: i64,
    /// Explicit liquid assets and the date they were counted on.
    pub explicit_assets: Option<(i64, Date)>,
}

/// The reserve and currency checks both front ends make, in their order:
/// the currency first, then the reserve, which must not be negative.
pub open spec fn reserve_refused(currency: Seq<char>, reserve: Seq<char>) -> bool {
    !is_valid_code(normalized_code(currency)) || !(flexible_amount(reserve) is Value)
        || flexible_amount(reserve)->Value_0 < 0
}

/// `r` reports the first failing reserve or currency check.
pub open spec fn reserve_error(
    currency: Seq<char>,
    reserve: Seq<char>,
    negative: Seq<char>,
    r: Result<ScenarioEntry, EntryError>,
) -> bool {
    if !is_valid_code(normalized_code(currency)) {
        r matches Err(EntryError::Currency(MoneyError::InvalidCurrency(t))) && t@ == currency
    } else if !(flexible_amount(reserve) is Value) {
        r matches Err(EntryError::Amount(e)) && amount_error_is(reserve, e)
    } else {
        r matches Err(EntryError::Refused(m)) && m@ == negative
    }
}

/// The currency and reserve of an accepted scenario.
pub open spec fn keeps_reserve(currency: Seq<char>, reserve: Seq<char>, s: ScenarioEntry) -> bool {
    &&& s.currency@ == normalized_code(currency)
    &&& s.reserve_minor == flexible_amount(reserve)->Value_0
}

fn reserve_entry(currency: &str, reserve: &str, negative: &str) -> (r: Result<
    (CurrencyCode, i64),
    EntryError,
>)
    ensures
        reserve_refused(currency@, reserve@) ==> (r matches Err(e) && reserve_error(
            currency@,
            reserve@,
            negative@,
            Err(e),
        )),
        !reserve_refused(currency@, reserve@) ==> (r matches Ok((c, n)) && c@ == normalized_code(
            currency@,
        ) && n == flexible_amount(reserve@)->Value_0),
{
    let code = match currency_entry(currency) {
        Ok(c) => c,
        Err(e) => return Err(e),
    };
    let reserve_minor = match parse_user_amount(reserve) {
        Ok(n) => n,
        Err(e) => return Err(EntryError::Amount(e)),
    };
    if reserve_minor < 0 {
        return Err(EntryError::Refused(owned(negative)));
    }
    Ok((code, reserve_minor))
}

/// What the command line makes of a scenario: the explicit assets, when
/// given (always with their date), must parse.
pub open spec fn cli_scenario_outcome(
    name: String,
    currency: Seq<char>,
    reserve: Seq<char>,
    assets: Option<String>,
    assets_as_of: Option<Date>,
    r: Result<ScenarioEntry, EntryError>,
) -> bool {
    if reserve_refused(currency, reserve) {
        reserve_error(currency, reserve, "reserve cannot be negative"@, r)
    } else if assets matches Some(a) && !(flexible_amount(a@) is Value) {
        r matches Err(EntryError::Amount(e)) && amount_error_is(assets.unwrap()@, e)
    } else {
        r matches Ok(s) && keeps_reserve(currency, reserve, s) && s.name == name
            && s.explicit_assets == match (assets, assets_as_of) {
            (Some(a), Some(d)) => Some((flexible_amount(a@)->Value_0 as i64, d)),
            _ => None,
        }
    }
}

/// Checks a scenario typed on the command line.
pub fn cli_scenario_entry(
    name: String,
    currency: &str,
    reserve: &str,
    assets: &Option<String>,
    assets_as_of: Option<Date>,
) -> (r: Result<ScenarioEntry, EntryError>)
    ensures
        cli_scenario_outcome(name, currency@, reserve@, *assets, assets_as_of, r),
{
    let (code, reserve_minor) = match reserve_entry(currency, reserve, "reserve cannot be negative") {
        Ok(v) => v,
        Err(e) => return Err(e),
    };
    let amount = match assets {
        Some(a) => match parse_user_amount(a.as_str()) {
            Ok(n) => Some(n),
            Err(e) => return Err(EntryError::Amount(e)),
        },
        None => None,
    };
    let explicit_assets = match (amount, assets_as_of) {
        (Some(n), Some(d)) => Some((n, d)),
        _ => None,
    };
    Ok(ScenarioEntry { name, currency: code, reserve_minor, explicit_assets })
}

/// Whether a text holds nothing but white space.
pub open spec fn blank(s: Seq<char>) -> bool {
    trim(s).len() == 0
}

/// What the desktop window makes of a scenario: the name is trimmed; asset
/// amount and date come together, a blank amount counts as none, and a
/// given amount must parse.
pub open spec fn desktop_scenario_outcome(
    name: Seq<char>,
    currency: Seq<char>,
    reserve: Seq<char>,
    assets: Option<String>,
    assets_as_of: Option<Date>,
    r: Result<ScenarioEntry, EntryError>,
) -> bool {
    if reserve_refused(currency, reserve) {
        reserve_error(currency, reserve, "Reserve cannot be negative."@, r)
    } else {
        match (assets, assets_as_of) {
            (Some(a), Some(d)) => if !blank(a@) && !(flexible_amount(a@) is Value) {
                r matches Err(EntryError::Amount(e)) && amount_error_is(a@, e)
            } else {
                r matches Ok(s) && keeps_reserve(currency, reserve, s) && s.name@ == trim(name)
                    && s.explicit_assets == if blank(a@) {
                    None
                } else {
                    Some((flexible_amount(a@)->Value_0 as i64, d))
                }
            },
            (Some(a), None) => if blank(a@) {
                r matches Ok(s) && keeps_reserve(currency, reserve, s) && s.name@ == trim(name)
                    && s.explicit_assets is None
            } else {
                r matches Err(EntryError::Refused(m)) && m@ == "Asset amount requires an as-of date."@
            },
            (None, Some(_)) => r matches Err(EntryError::Refused(m))
                && m@ == "Asset date requires an asset amount."@,
            (None, None) => r matches Ok(s) && keeps_reserve(currency, reserve, s) && s.name@ == trim(
                name,
            ) && s.explicit_assets is None,
        }
    }
}

fn is_blank(s: &str) -> (r: bool)
    ensures
        r == blank(s@),
{
    trim_chars(&chars_of(s)).len() == 0
}

/// Checks a scenario entered in the desktop window.
pub fn desktop_scenario_entry(
    name: &str,
    currency: &str,
    reserve: &str,
    assets: &Option<String>,
    assets_as_of: Option<Date>,
) -> (r: Result<ScenarioEntry, EntryError>)
    ensures
        desktop_scenario_outcome(name@, currency@, reserve@, *assets, assets_as_of, r),
{
    let (code, reserve_minor) = match reserve_entry(currency, reserve, "Reserve cannot be negative.") {
        Ok(v) => v,
        Err(e) => return Err(e),
    };
    let explicit_assets = match (assets, assets_as_of) {
        (Some(a), Some(d)) => if is_blank(a.as_str()) {
            None
        } else {
            match parse_user_amount(a.as_str()) {
                Ok(n) => Some((n, d)),
                Err(e) => return Err(EntryError::Amount(e)),
            }
        },
        (Some(a), None) => if is_blank(a.as_str()) {
            None
        } else {
            return Err(EntryError::Refused(owned("Asset amount requires an as-of date.")));
        },
        (None, Some(_)) => {
            return Err(EntryError::Refused(owned("Asset date requires an asset amount.")));
        },
        (None, None) => None,
    };
    let trimmed = trim_chars(&chars_of(name));
    Ok(
        ScenarioEntry {
            name: string_from_chars(&trimmed),
            currency: code,
            reserve_minor,
            explicit_assets,
        },
    )
}

// ---------------------------------------------------------------------------
// Accounts and interpretations
// ---------------------------------------------------------------------------

/// The account an import goes to: identifier and name, trimmed; neither may
/// be blank.
pub fn account_entry(key: &str, name: &str) -> (r: Result<(String, String), EntryError>)
    ensures
        blank(key@) || blank(name@) ==> (r matches Err(EntryError::Refused(m))
            && m@ == "Account name and identifier are required."@),
        !blank(key@) && !blank(name@) ==> (r matches Ok((k, n)) && k@ == trim(key@) && n@ == trim(
            name@,
        )),
{
    let k = trim_chars(&chars_of(key));
    let n = trim_chars(&chars_of(name));
    if k.len() == 0 || n.len() == 0 {
        return Err(EntryError::Refused(owned("Account name and identifier are required.")));
    }
    Ok((string_from_chars(&k), string_from_chars(&n)))
}

/// How a person explains an actual transaction.
#[derive(Debug, Clone, Copy, PartialEq, Eq)]
pub enum InterpretationClass {
    FixedRecurrent,
    VariableRecurrent,
    IrregularRecurrent,
    Exceptional,
    Transfer,
    Income,
    Refund,
    Unknown,
}

pub open spec fn class_name(c: InterpretationClass) -> Seq<char> {
    match c {
        InterpretationClass::FixedRecurrent => "fixed_recurrent"@,
        InterpretationClass::VariableRecurrent => "variable_recurrent"@,
        InterpretationClass::IrregularRecurrent => "irregular_recurrent"@,
        InterpretationClass::Exceptional => "exceptional"@,
        InterpretationClass::Transfer => "transfer"@,
        InterpretationClass::Income => "income"@,
        InterpretationClass::Refund => "refund"@,
        InterpretationClass::Unknown => "unknown"@,
    }
}

/// The names under which interpretations are stored.
pub open spec fn known_class_name(name: Seq<char>) -> bool {
    ||| name == "fixed_recurrent"@
    ||| name == "variable_recurrent"@
    ||| name == "irregular_recurrent"@
    ||| name == "exceptional"@
    ||| name == "transfer"@
    ||| name == "income"@
    ||| name == "refund"@
    ||| name == "unknown"@
}

impl InterpretationClass {
    /// The stored name of the interpretation.
    pub fn as_str(self) -> (r: &'static str)
        ensures
            r@ == class_name(self),
    {
        match self {
            InterpretationClass::FixedRecurrent => "fixed_recurrent",
            InterpretationClass::VariableRecurrent => "variable_recurrent",
            InterpretationClass::IrregularRecurrent => "irregular_recurrent",
            InterpretationClass::Exceptional => "exceptional",
            InterpretationClass::Transfer => "transfer",
            InterpretationClass::Income => "income",
            InterpretationClass::Refund => "refund",
            InterpretationClass::Unknown => "unknown",
        }
    }
}

/// The interpretation stored under `name`, if any.
pub fn interpretation_named(name: &str) -> (r: Option<InterpretationClass>)
    ensures
        r is Some <==> known_class_name(name@),
        r matches Some(c) ==> class_name(c) == name@,
{
    if text_is(name, "fixed_recurrent") {
        Some(InterpretationClass::FixedRecurrent)
    } else if text_is(name, "variable_recurrent") {
        Some(InterpretationClass::VariableRecurrent)
    } else if text_is(name, "irregular_recurrent") {
        Some(InterpretationClass::IrregularRecurrent)
    } else if text_is(name, "exceptional") {
        Some(InterpretationClass::Exceptional)
    } else if text_is(name, "transfer") {
        Some(InterpretationClass::Transfer)
    } else if text_is(name, "income") {
        Some(InterpretationClass::Income)
    } else if text_is(name, "refund") {
        Some(InterpretationClass::Refund)
    } else if text_is(name, "unknown") {
        Some(InterpretationClass::Unknown)
    } else {
        None
    }
}

/// Only the stored interpretation names are accepted.
pub fn check_interpretation(name: &str) -> (r: Result<(), EntryError>)
    ensures
        r is Ok <==> known_class_name(name@),
        r matches Err(e) ==> (e matches EntryError::Refused(m)
            && m@ == "Unknown transaction interpretation."@),
{
    match interpretation_named(name) {
        Some(_) => Ok(()),
        None => Err(EntryError::Refused(owned("Unknown transaction interpretation."))),
    }
}

} // verus!
