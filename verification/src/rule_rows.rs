//! Forecast rules as the ledger stores them: column texts for the direction,
//! cadence and source, dates as `YYYY-MM-DD`, and the evidence labels as a
//! JSON list.

use vstd::prelude::*;
use crate::calendar::{Date, iso_text, day_number_ymd, parsed_day_number};
use crate::forecast::{CashFlowDirection, ForecastCadence, ForecastRule, Provenance, texts};
use crate::ledger::{
    DbError, ForecastRuleListItem, NewForecastRule, Scenario, optional_date_read, optional_text,
    parse_optional_stored_date, parse_stored_date, stored_date_ok, stored_day, unreadable_date,
};
use crate::money::{CurrencyCode, MoneyError, is_valid_code, normalized_code};
use crate::profile::{debug_quoted, debug_text, owned};
use crate::raw_rows::{comma_joined, json_string};
use crate::rows::{push_signed, signed_decimal};
use crate::text::{chars_equal, chars_of, decimal, push_decimal, push_str, string_from_chars};

verus! {

// ---------------------------------------------------------------------------
// JSON lists of labels
// ---------------------------------------------------------------------------

/// What `serde_json` reads from `text` as a list of strings: the strings, or
/// the text of its error.
pub uninterp spec fn json_string_list(text: Seq<char>) -> Result<Seq<Seq<char>>, Seq<char>>;

/// The JSON text that `serde_json` writes for a list of strings: in
/// brackets, each item as a JSON string, separated by commas, and no white
/// space.
#[verifier::opaque]
pub open spec fn json_of_strings(items: Seq<Seq<char>>) -> Seq<char> {
    seq!['['] + comma_joined(items.map_values(|s: Seq<char>| json_string(s))) + seq![']']
}

/// `text` reads as exactly the list `items`.
pub open spec fn json_reads_as(text: Seq<char>, items: Seq<Seq<char>>) -> bool {
    json_string_list(text) == Ok::<Seq<Seq<char>>, Seq<char>>(items)
}

/// `serde_json::from_str::<Vec<String>>`, with the error turned into its
/// message. The contract names the outcome.
#[verifier::external_body]
fn read_json_strings(text: &str) -> (r: Result<Vec<String>, String>)
    ensures
        match r {
            Ok(items) => json_reads_as(text@, texts(items@)),
            Err(m) => json_string_list(text@) == Err::<Seq<Seq<char>>, Seq<char>>(m@),
        },
{
    serde_json::from_str::<Vec<String>>(text).map_err(|e| e.to_string())
}

/// `serde_json::to_string` of a list of strings. Its documentation says
/// serialization fails only for a failing `Serialize` impl or a map with
/// non-string keys, neither of which a list of strings has, so the contract
/// states success; and reading the text back gives the same list, which is
/// what the JSON string encoding is for.
#[verifier::external_body]
fn write_json_strings(items: &Vec<String>) -> (r: Result<String, String>)
    ensures
        r is Ok,
        r matches Ok(t) ==> t@ == json_of_strings(texts(items@)),
        r matches Ok(t) ==> json_reads_as(t@, texts(items@)),
{
    serde_json::to_string(items).map_err(|e| e.to_string())
}

// ---------------------------------------------------------------------------
// Column texts
// ---------------------------------------------------------------------------

pub open spec fn direction_name(d: CashFlowDirection) -> Seq<char> {
    match d {
        CashFlowDirection::Income => "income"@,
        CashFlowDirection::Expense => "expense"@,
    }
}

pub open spec fn direction_named(name: Seq<char>) -> Option<CashFlowDirection> {
    if name == "income"@ {
        Some(CashFlowDirection::Income)
    } else if name == "expense"@ {
        Some(CashFlowDirection::Expense)
    } else {
        None
    }
}

/// The cadence column and the day-of-month column of a cadence.
pub open spec fn cadence_columns(c: ForecastCadence) -> (Seq<char>, Option<u32>) {
    match c {
        ForecastCadence::Once => ("once"@, None),
        ForecastCadence::Monthly { day_of_month } => ("monthly"@, Some(day_of_month)),
    }
}

/// A one-off rule has no day of month; a monthly rule has one.
pub open spec fn cadence_named(name: Seq<char>, day: Option<u32>) -> Option<ForecastCadence> {
    if name == "once"@ && day is None {
        Some(ForecastCadence::Once)
    } else if name == "monthly"@ && day is Some {
        Some(ForecastCadence::Monthly { day_of_month: day.unwrap() })
    } else {
        None
    }
}

/// Stored rules come from the user or from a deterministic estimate.
pub open spec fn provenance_named(name: Seq<char>) -> Option<Provenance> {
    if name == "user_confirmed"@ {
        Some(Provenance::UserConfirmed)
    } else if name == "deterministic_estimate"@ {
        Some(Provenance::DeterministicEstimate)
    } else {
        None
    }
}

/// The `Debug` text of an optional day of month.
pub open spec fn optional_day_debug(day: Option<u32>) -> Seq<char> {
    match day {
        None => "None"@,
        Some(n) => "Some("@ + decimal(n as nat) + ")"@,
    }
}

/// The `Debug` text of a (cadence, day of month) column pair.
pub open spec fn cadence_debug(name: Seq<char>, day: Option<u32>) -> Seq<char> {
    "("@ + debug_quoted(name) + ", "@ + optional_day_debug(day) + ")"@
}

/// The identifier a stored rule carries in explanations.
pub open spec fn rule_id_text(id: i64) -> Seq<char> {
    "forecast_rule:"@ + signed_decimal(id as int)
}

fn text_is(s: &str, literal: &str) -> (r: bool)
    ensures
        r == (s@ == literal@),
{
    chars_equal(&chars_of(s), &chars_of(literal))
}

fn message(prefix: &str, detail: &Vec<char>) -> (r: String)
    ensures
        r@ == prefix@ + detail@,
{
    let mut out = chars_of(prefix);
    crate::text::push_all(&mut out, detail);
    string_from_chars(&out)
}

// ---------------------------------------------------------------------------
// Writing a rule
// ---------------------------------------------------------------------------

/// The column values stored for a new forecast rule.
#[derive(Debug, Clone, PartialEq, Eq)]
pub struct RuleColumns {
    pub direction: String,
    pub cadence: String,
    pub day_of_month: Option<u32>,
    pub starts_on: String,
    pub ends_on: Option<String>,
    pub evidence_json: String,
}

/// The dated text of an optional date.
pub open spec fn optional_iso(d: Option<Date>) -> Option<Seq<char>> {
    match d {
        Some(x) => Some(iso_text(x@ as i32)),
        None => None,
    }
}

/// `c` holds the columns that store `rule`.
pub open spec fn columns_of(rule: NewForecastRule, c: RuleColumns) -> bool {
    &&& c.direction@ == direction_name(rule.direction)
    &&& (c.cadence@, c.day_of_month) == cadence_columns(rule.cadence)
    &&& c.starts_on@ == iso_text(rule.starts_on@ as i32)
    &&& optional_text(c.ends_on) == optional_iso(rule.ends_on)
    &&& four_digit_year(rule.starts_on) ==> parsed_day_number(c.starts_on@, "%Y-%m-%d"@) == Some(
        rule.starts_on@ as i32,
    )
    &&& (c.ends_on matches Some(t) ==> (rule.ends_on matches Some(e) && (four_digit_year(e)
        ==> parsed_day_number(t@, "%Y-%m-%d"@) == Some(e@ as i32))))
    &&& c.evidence_json@ == json_of_strings(texts(rule.evidence@))
    &&& json_reads_as(c.evidence_json@, texts(rule.evidence@))
}

/// The column values for storing `rule` in `scenario`; a rule in another
/// currency than the scenario's is refused.
pub fn encode_forecast_rule(scenario: &Scenario, rule: &NewForecastRule) -> (r: Result<
    RuleColumns,
    DbError,
>)
    ensures
        scenario.currency@ != rule.currency@ ==> (r matches Err(DbError::InvalidValue(m)) && m@
            == "forecast rule currency "@ + rule.currency@ + " does not match scenario currency "@
            + scenario.currency@),
        scenario.currency@ == rule.currency@ ==> (r matches Ok(c) && columns_of(*rule, c)),
{
    if !scenario.currency.same_as(&rule.currency) {
        let mut m = chars_of("forecast rule currency ");
        push_str(&mut m, rule.currency.as_str());
        push_str(&mut m, " does not match scenario currency ");
        push_str(&mut m, scenario.currency.as_str());
        return Err(DbError::InvalidValue(string_from_chars(&m)));
    }
    let direction = match rule.direction {
        CashFlowDirection::Income => owned("income"),
        CashFlowDirection::Expense => owned("expense"),
    };
    let (cadence, day_of_month) = match rule.cadence {
        ForecastCadence::Once => (owned("once"), None),
        ForecastCadence::Monthly { day_of_month } => (owned("monthly"), Some(day_of_month)),
    };
    let evidence_json = match write_json_strings(&rule.evidence) {
        Ok(t) => t,
        Err(m) => return Err(DbError::Json(m)),
    };
    let ends_on = match rule.ends_on {
        Some(d) => Some(d.to_iso_string()),
        None => None,
    };
    Ok(
        RuleColumns {
            direction,
            cadence,
            day_of_month,
            starts_on: rule.starts_on.to_iso_string(),
            ends_on,
            evidence_json,
        },
    )
}

// ---------------------------------------------------------------------------
// Reading a rule
// ---------------------------------------------------------------------------

/// A forecast rule row as the database holds it.
#[derive(Debug, Clone, PartialEq, Eq)]
pub struct StoredForecastRule {
    pub id: i64,
    pub label: String,
    pub direction: String,
    pub amount_minor: i64,
    pub currency: String,
    pub cadence: String,
    pub day_of_month: Option<u32>,
    pub starts_on: String,
    pub ends_on: Option<String>,
    pub source: String,
    pub confidence_ppm: u32,
    pub evidence_json: String,
}

/// `r` is what reading the stored row gives: the first of the checks below
/// that fails names the error, in the order the columns are read.
pub open spec fn rule_row_read(row: StoredForecastRule, r: Result<ForecastRule, DbError>) -> bool {
    if direction_named(row.direction@) is None {
        r matches Err(DbError::InvalidValue(m)) && m@ == "invalid direction "@ + debug_quoted(
            row.direction@,
        )
    } else if cadence_named(row.cadence@, row.day_of_month) is None {
        r matches Err(DbError::InvalidValue(m)) && m@ == "invalid cadence "@ + cadence_debug(
            row.cadence@,
            row.day_of_month,
        )
    } else if provenance_named(row.source@) is None {
        r matches Err(DbError::InvalidValue(m)) && m@ == "invalid source "@ + debug_quoted(
            row.source@,
        )
    } else if !is_valid_code(normalized_code(row.currency@)) {
        r matches Err(DbError::Money(MoneyError::InvalidCurrency(t))) && t@ == row.currency@
    } else if !stored_date_ok(row.starts_on@) {
        r matches Err(DbError::InvalidStoredDate { field: f, value: v })
            && f@ == "forecast_rules.starts_on"@ && v@ == row.starts_on@
    } else if unreadable_date(row.ends_on) {
        r matches Err(DbError::InvalidStoredDate { field: f, value: v })
            && f@ == "forecast_rules.ends_on"@ && optional_text(row.ends_on) == Some(v@)
    } else if json_string_list(row.evidence_json@) is Err {
        r matches Err(DbError::Json(m)) && json_string_list(row.evidence_json@) == Err::<
            Seq<Seq<char>>,
            Seq<char>,
        >(m@)
    } else {
        r matches Ok(rule) && {
            &&& rule.id@ == rule_id_text(row.id)
            &&& rule.label == row.label
            &&& direction_named(row.direction@) == Some(rule.direction)
            &&& rule.amount_minor == row.amount_minor
            &&& rule.currency@ == normalized_code(row.currency@)
            &&& cadence_named(row.cadence@, row.day_of_month) == Some(rule.cadence)
            &&& rule.starts_on@ == stored_day(row.starts_on@)
            &&& optional_date_read("forecast_rules.ends_on"@, row.ends_on, Ok(rule.ends_on))
            &&& provenance_named(row.source@) == Some(rule.provenance)
            &&& rule.confidence_ppm == row.confidence_ppm
            &&& json_reads_as(row.evidence_json@, texts(rule.evidence@))
        }
    }
}

fn read_direction(name: &str) -> (r: Option<CashFlowDirection>)
    ensures
        r == direction_named(name@),
{
    if text_is(name, "income") {
        Some(CashFlowDirection::Income)
    } else if text_is(name, "expense") {
        Some(CashFlowDirection::Expense)
    } else {
        None
    }
}

fn read_cadence(name: &str, day: Option<u32>) -> (r: Option<ForecastCadence>)
    ensures
        r == cadence_named(name@, day),
{
    match day {
        None => if text_is(name, "once") {
            Some(ForecastCadence::Once)
        } else {
            None
        },
        Some(d) => if text_is(name, "monthly") {
            Some(ForecastCadence::Monthly { day_of_month: d })
        } else {
            None
        },
    }
}

fn read_provenance(name: &str) -> (r: Option<Provenance>)
    ensures
        r == provenance_named(name@),
{
    if text_is(name, "user_confirmed") {
        Some(Provenance::UserConfirmed)
    } else if text_is(name, "deterministic_estimate") {
        Some(Provenance::DeterministicEstimate)
    } else {
        None
    }
}

fn cadence_debug_text(name: &str, day: Option<u32>) -> (r: Vec<char>)
    ensures
        r@ == cadence_debug(name@, day),
{
    let mut out = chars_of("(");
    let quoted = debug_text(name);
    push_str(&mut out, quoted.as_str());
    push_str(&mut out, ", ");
    match day {
        None => push_str(&mut out, "None"),
        Some(n) => {
            push_str(&mut out, "Some(");
            push_decimal(&mut out, n as u64);
            push_str(&mut out, ")");
        },
    }
    push_str(&mut out, ")");
    proof {
        assert(out@ =~= cadence_debug(name@, day));
    }
    out
}

/// Reads a stored forecast rule back into the rule the calculation uses.
pub fn decode_forecast_rule(row: &StoredForecastRule) -> (r: Result<ForecastRule, DbError>)
    ensures
        rule_row_read(*row, r),
{
    let direction = match read_direction(row.direction.as_str()) {
        Some(d) => d,
        None => {
            let q = debug_text(row.direction.as_str());
            return Err(DbError::InvalidValue(message("invalid direction ", &chars_of(q.as_str()))));
        },
    };
    let cadence = match read_cadence(row.cadence.as_str(), row.day_of_month) {
        Some(c) => c,
        None => {
            let d = cadence_debug_text(row.cadence.as_str(), row.day_of_month);
            return Err(DbError::InvalidValue(message("invalid cadence ", &d)));
        },
    };
    let provenance = match read_provenance(row.source.as_str()) {
        Some(p) => p,
        None => {
            let q = debug_text(row.source.as_str());
            return Err(DbError::InvalidValue(message("invalid source ", &chars_of(q.as_str()))));
        },
    };
    let mut id = chars_of("forecast_rule:");
    push_signed(&mut id, row.id);
    let currency = match CurrencyCode::new(row.currency.as_str()) {
        Ok(c) => c,
        Err(e) => return Err(DbError::Money(e)),
    };
    let starts_on = match parse_stored_date("forecast_rules.starts_on", row.starts_on.as_str()) {
        Ok(d) => d,
        Err(e) => return Err(e),
    };
    let ends_on = match parse_optional_stored_date("forecast_rules.ends_on", &row.ends_on) {
        Ok(d) => d,
        Err(e) => return Err(e),
    };
    let evidence = match read_json_strings(row.evidence_json.as_str()) {
        Ok(items) => items,
        Err(m) => return Err(DbError::Json(m)),
    };
    Ok(
        ForecastRule {
            id: string_from_chars(&id),
            label: row.label.clone(),
            direction,
            amount_minor: row.amount_minor,
            currency,
            cadence,
            starts_on,
            ends_on,
            provenance,
            confidence_ppm: row.confidence_ppm,
            evidence,
        },
    )
}

/// The stored row holds the columns `c` of `rule`, as `add_forecast_rule`
/// writes them: user-confirmed, at full confidence.
pub open spec fn row_holds(row: StoredForecastRule, rule: NewForecastRule, c: RuleColumns) -> bool {
    &&& row.label == rule.label
    &&& row.direction@ == c.direction@
    &&& row.amount_minor == rule.amount_minor
    &&& row.currency@ == rule.currency@
    &&& row.cadence@ == c.cadence@
    &&& row.day_of_month == c.day_of_month
    &&& row.starts_on@ == c.starts_on@
    &&& optional_text(row.ends_on) == optional_text(c.ends_on)
    &&& row.source@ == "user_confirmed"@
    &&& row.confidence_ppm == 1000000
    &&& row.evidence_json@ == c.evidence_json@
}

/// The year of a date prints as four digits.
pub open spec fn four_digit_year(d: Date) -> bool {
    0 <= day_number_ymd(d@ as i32).0 <= 9999
}

/// A forecast rule that is written and then read back is the rule that was
/// written: same label, direction, amount, currency, cadence, dates and
/// evidence, now carrying the row id, user-confirmed provenance and full
/// confidence. Dates are covered for the years that print as four digits.
pub proof fn law_stored_rule_reads_back(
    rule: NewForecastRule,
    c: RuleColumns,
    row: StoredForecastRule,
    r: Result<ForecastRule, DbError>,
)
    requires
        is_valid_code(rule.currency@),
        normalized_code(rule.currency@) == rule.currency@,
        four_digit_year(rule.starts_on),
        rule.ends_on matches Some(e) ==> four_digit_year(e),
        columns_of(rule, c),
        row_holds(row, rule, c),
        rule_row_read(row, r),
    ensures
        r matches Ok(read) && {
            &&& read.id@ == rule_id_text(row.id)
            &&& read.label == rule.label
            &&& read.direction == rule.direction
            &&& read.amount_minor == rule.amount_minor
            &&& read.currency@ == rule.currency@
            &&& read.cadence == rule.cadence
            &&& read.starts_on@ == rule.starts_on@
            &&& optional_day(read.ends_on) == optional_day(rule.ends_on)
            &&& read.provenance == Provenance::UserConfirmed
            &&& read.confidence_ppm == 1000000
            &&& texts(read.evidence@) == texts(rule.evidence@)
        },
{
    reveal_strlit("income");
    reveal_strlit("expense");
    Date::lemma_day_number_fits(rule.starts_on);
    match rule.ends_on {
        Some(e) => {
            Date::lemma_day_number_fits(e);
        },
        None => {},
    }
    match rule.cadence {
        ForecastCadence::Once => {},
        ForecastCadence::Monthly { day_of_month } => {},
    }
    assert("expense"@.len() != "income"@.len());
}

/// The day number of an optional date.
pub open spec fn optional_day(d: Option<Date>) -> Option<int> {
    match d {
        Some(x) => Some(x@),
        None => None,
    }
}

/// `r` is what reading the stored row for a rule listing gives: the
/// direction, cadence and source columns are shown as stored; the dates and
/// the evidence are read, in that order.
pub open spec fn rule_item_read(row: StoredForecastRule, r: Result<ForecastRuleListItem, DbError>) -> bool {
    if !stored_date_ok(row.starts_on@) {
        r matches Err(DbError::InvalidStoredDate { field: f, value: v })
            && f@ == "forecast_rules.starts_on"@ && v@ == row.starts_on@
    } else if unreadable_date(row.ends_on) {
        r matches Err(DbError::InvalidStoredDate { field: f, value: v })
            && f@ == "forecast_rules.ends_on"@ && optional_text(row.ends_on) == Some(v@)
    } else if json_string_list(row.evidence_json@) is Err {
        r matches Err(DbError::Json(m)) && json_string_list(row.evidence_json@) == Err::<
            Seq<Seq<char>>,
            Seq<char>,
        >(m@)
    } else {
        r matches Ok(item) && {
            &&& item.id == row.id
            &&& item.label == row.label
            &&& item.direction == row.direction
            &&& item.amount_minor == row.amount_minor
            &&& item.currency == row.currency
            &&& item.cadence == row.cadence
            &&& item.day_of_month == row.day_of_month
            &&& item.starts_on@ == stored_day(row.starts_on@)
            &&& optional_date_read("forecast_rules.ends_on"@, row.ends_on, Ok(item.ends_on))
            &&& item.source == row.source
            &&& json_reads_as(row.evidence_json@, texts(item.evidence@))
        }
    }
}

/// Reads a stored forecast rule for listing. The confidence column is not
/// read.
pub fn decode_rule_list_item(row: &StoredForecastRule) -> (r: Result<ForecastRuleListItem, DbError>)
    ensures
        rule_item_read(*row, r),
{
    let starts_on = match parse_stored_date("forecast_rules.starts_on", row.starts_on.as_str()) {
        Ok(d) => d,
        Err(e) => return Err(e),
    };
    let ends_on = match parse_optional_stored_date("forecast_rules.ends_on", &row.ends_on) {
        Ok(d) => d,
        Err(e) => return Err(e),
    };
    let evidence = match read_json_strings(row.evidence_json.as_str()) {
        Ok(items) => items,
        Err(m) => return Err(DbError::Json(m)),
    };
    Ok(
        ForecastRuleListItem {
            id: row.id,
            label: row.label.clone(),
            direction: row.direction.clone(),
            amount_minor: row.amount_minor,
            currency: row.currency.clone(),
            cadence: row.cadence.clone(),
            day_of_month: row.day_of_month,
            starts_on,
            ends_on,
            source: row.source.clone(),
            evidence,
        },
    )
}

} // verus!
