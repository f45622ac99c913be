//! The no-work runway simulation.
//!
//! Starting the day after `as_of`, each future day's closing balance is the
//! previous closing balance, plus explicit income and minus explicit expense
//! occurring that day, minus the historical baseline spending allocated to
//! that day. The baseline is the rational value `expense / observed_days` per
//! day; the division remainder is carried from day to day, so no fractional
//! minor unit is ever lost. The runway ends on the first day whose closing
//! balance is at or below the reserve.

use vstd::prelude::*;
use crate::calendar::{
    Date, MAX_DAY_NUMBER, day_number_ymd, in_range, months_after, ymd_day_number,
};
use crate::money::{CurrencyCode, Money, MoneyError};
use crate::order::{
    chars_less, lemma_text_less_irreflexive, lemma_text_less_transitive,
    lemma_text_less_trichotomy, text_less,
};
use crate::text::{chars_of, decimal, push_decimal, push_str, string_from_chars};

verus! {

/// Horizon used when the input names none: about one hundred years.
pub const DEFAULT_MAX_HORIZON_DAYS: u32 = 36525;

/// Largest accepted rule confidence, in parts per million.
pub const FULL_CONFIDENCE_PPM: u32 = 1000000;

#[derive(Debug, Clone, Copy, PartialEq, Eq)]
pub enum CashFlowDirection {
    Income,
    Expense,
}

#[derive(Debug, Clone, Copy, PartialEq, Eq)]
pub enum ForecastCadence {
    Once,
    Monthly { day_of_month: u32 },
}

#[derive(Debug, Clone, Copy, PartialEq, Eq)]
pub enum Provenance {
    UserConfirmed,
    DeterministicEstimate,
    ImportedActual,
}

/// An explicit future cash flow.
#[derive(Debug, Clone, PartialEq, Eq)]
pub struct ForecastRule {
    pub id: String,
    pub label: String,
    pub direction: CashFlowDirection,
    /// Always a positive magnitude.
    pub amount_minor: i64,
    pub currency: CurrencyCode,
    pub cadence: ForecastCadence,
    pub starts_on: Date,
    pub ends_on: Option<Date>,
    pub provenance: Provenance,
    /// Integer parts per million. User-confirmed facts use 1,000,000.
    pub confidence_ppm: u32,
    pub evidence: Vec<String>,
}

/// Summary of the actual spending history.
#[derive(Debug, Clone, PartialEq, Eq)]
pub struct HistoricalBurn {
    /// Sum of included historical external outflows, after confirmed refunds.
    pub expense_minor: i64,
    /// Inclusive length of the observation window.
    pub observed_days: u32,
    pub observed_from: Date,
    pub observed_through: Date,
    pub included_transaction_count: u64,
    pub excluded_transaction_count: u64,
}

#[derive(Debug, Clone, PartialEq, Eq)]
pub struct RunwayInput {
    /// Balance as of the end of `as_of`; simulation starts the following day.
    pub as_of: Date,
    pub liquid_assets: Money,
    pub reserve: Money,
    pub historical_burn: HistoricalBurn,
    pub forecast_rules: Vec<ForecastRule>,
    pub max_horizon_days: Option<u32>,
}

/// How much one rule (by id) moved the balance over the simulated days.
#[derive(Debug, Clone, PartialEq, Eq)]
pub struct RuleContribution {
    pub rule_id: String,
    pub label: String,
    pub direction: CashFlowDirection,
    pub occurrence_count: u32,
    /// Signed: income is positive, expense is negative.
    pub amount_minor: i64,
}

#[derive(Debug, Clone, PartialEq, Eq)]
pub struct RunwayResult {
    pub as_of: Date,
    pub currency: CurrencyCode,
    pub liquid_assets_minor: i64,
    pub reserve_minor: i64,
    pub zero_date: Option<Date>,
    pub runway_days: Option<u32>,
    pub display_duration: Option<String>,
    pub projected_balance_minor: i64,
    pub historical_expense_applied_minor: i64,
    pub rule_contributions: Vec<RuleContribution>,
    pub last_actual_data: Date,
    pub horizon_days: u32,
    pub warnings: Vec<String>,
}

#[derive(Debug, Clone, PartialEq, Eq)]
pub enum RunwayError {
    Money(MoneyError),
    /// Liquid assets and reserve use different currencies.
    CurrencyMismatch,
    /// The historical expense is negative.
    NegativeHistoricalExpense,
    /// The observation window has no day.
    EmptyObservationWindow,
    /// The historical dates do not match `observed_days`.
    InvalidObservationWindow,
    /// The rule (by id) has a non-positive amount.
    InvalidRuleAmount(String),
    /// The rule (by id) has a confidence above one million parts per million.
    InvalidConfidence(String),
    /// The rule (by id) has a monthly day outside 1..=31.
    InvalidMonthlyDay(String),
    /// The rule (by id) ends before it starts.
    InvalidRuleDates(String),
    /// The rule (by id) uses another currency than the liquid assets.
    RuleCurrencyMismatch(String),
    /// A date left the representable calendar.
    DateOverflow,
    /// An amount or counter left its integer range.
    ArithmeticOverflow,
}

// ---------------------------------------------------------------------------
// Validation
// ---------------------------------------------------------------------------

/// The first defect of a rule, in the order the checks are made.
pub open spec fn rule_defect(rule: ForecastRule, currency: Seq<char>) -> Option<RunwayError> {
    if rule.amount_minor <= 0 {
        Some(RunwayError::InvalidRuleAmount(rule.id))
    } else if rule.confidence_ppm > FULL_CONFIDENCE_PPM {
        Some(RunwayError::InvalidConfidence(rule.id))
    } else if rule.currency@ != currency {
        Some(RunwayError::RuleCurrencyMismatch(rule.id))
    } else if rule.ends_on matches Some(end) && end@ < rule.starts_on@ {
        Some(RunwayError::InvalidRuleDates(rule.id))
    } else if rule.cadence matches ForecastCadence::Monthly { day_of_month } && !(1 <= day_of_month
        <= 31) {
        Some(RunwayError::InvalidMonthlyDay(rule.id))
    } else {
        None
    }
}

/// The first defect among the first `n` rules.
pub open spec fn first_rule_defect(rules: Seq<ForecastRule>, currency: Seq<char>, n: int) -> Option<
    RunwayError,
>
    decreases n,
{
    if n <= 0 {
        None
    } else {
        match first_rule_defect(rules, currency, n - 1) {
            Some(e) => Some(e),
            None => rule_defect(rules[n - 1], currency),
        }
    }
}

/// Why an input is refused, checked in order: currencies, history, rules.
pub open spec fn input_defect(input: RunwayInput) -> Option<RunwayError> {
    let burn = input.historical_burn;
    if input.liquid_assets.currency@ != input.reserve.currency@ {
        Some(RunwayError::CurrencyMismatch)
    } else if burn.expense_minor < 0 {
        Some(RunwayError::NegativeHistoricalExpense)
    } else if burn.observed_days == 0 {
        Some(RunwayError::EmptyObservationWindow)
    } else if burn.observed_through@ - burn.observed_from@ + 1 != burn.observed_days {
        Some(RunwayError::InvalidObservationWindow)
    } else {
        first_rule_defect(
            input.forecast_rules@,
            input.liquid_assets.currency@,
            input.forecast_rules@.len() as int,
        )
    }
}

/// Once a defect is found among the first rules, it stays the first defect.
proof fn lemma_first_defect_stable(rules: Seq<ForecastRule>, currency: Seq<char>, k: int, n: int)
    requires
        k <= n,
        first_rule_defect(rules, currency, k) is Some,
    ensures
        first_rule_defect(rules, currency, n) == first_rule_defect(rules, currency, k),
    decreases n - k,
{
    if k < n {
        lemma_first_defect_stable(rules, currency, k, n - 1);
    }
}

fn check_rule(rule: &ForecastRule, currency: &CurrencyCode) -> (r: Result<(), RunwayError>)
    ensures
        match rule_defect(*rule, currency@) {
            Some(e) => r == Err::<(), RunwayError>(e),
            None => r is Ok,
        },
{
    if rule.amount_minor <= 0 {
        return Err(RunwayError::InvalidRuleAmount(rule.id.clone()));
    }
    if rule.confidence_ppm > FULL_CONFIDENCE_PPM {
        return Err(RunwayError::InvalidConfidence(rule.id.clone()));
    }
    if !rule.currency.same_as(currency) {
        return Err(RunwayError::RuleCurrencyMismatch(rule.id.clone()));
    }
    if let Some(end) = &rule.ends_on {
        if end.is_before(&rule.starts_on) {
            return Err(RunwayError::InvalidRuleDates(rule.id.clone()));
        }
    }
    if let ForecastCadence::Monthly { day_of_month } = rule.cadence {
        if !(1 <= day_of_month && day_of_month <= 31) {
            return Err(RunwayError::InvalidMonthlyDay(rule.id.clone()));
        }
    }
    Ok(())
}

/// Accepts an input or names its first defect.
pub fn validate(input: &RunwayInput) -> (r: Result<(), RunwayError>)
    ensures
        match input_defect(*input) {
            Some(e) => r == Err::<(), RunwayError>(e),
            None => r is Ok,
        },
{
    if !input.liquid_assets.currency.same_as(&input.reserve.currency) {
        return Err(RunwayError::CurrencyMismatch);
    }
    let burn = &input.historical_burn;
    if burn.expense_minor < 0 {
        return Err(RunwayError::NegativeHistoricalExpense);
    }
    if burn.observed_days == 0 {
        return Err(RunwayError::EmptyObservationWindow);
    }
    let span: i64 = burn.observed_through.days_since(&burn.observed_from);
    let actual_days: i64 = span + 1;
    if actual_days != burn.observed_days as i64 {
        return Err(RunwayError::InvalidObservationWindow);
    }
    let rules = &input.forecast_rules;
    for i in 0..rules.len()
        invariant
            rules == &input.forecast_rules,
            input_defect(*input) == first_rule_defect(
                rules@,
                input.liquid_assets.currency@,
                rules@.len() as int,
            ),
            first_rule_defect(rules@, input.liquid_assets.currency@, i as int) is None,
    {
        match check_rule(&rules[i], &input.liquid_assets.currency) {
            Ok(()) => {},
            Err(e) => {
                proof {
                    assert(first_rule_defect(rules@, input.liquid_assets.currency@, i + 1)
                        == rule_defect(rules@[i as int], input.liquid_assets.currency@));
                    lemma_first_defect_stable(
                        rules@,
                        input.liquid_assets.currency@,
                        i + 1,
                        rules@.len() as int,
                    );
                }
                return Err(e);
            },
        }
    }
    Ok(())
}

// ---------------------------------------------------------------------------
// When a rule occurs
// ---------------------------------------------------------------------------

/// The number of days in `month` of `year`, as measured with `chrono`: from
/// the first of the month to the same day one month later.
pub open spec fn month_length(year: i32, month: u32) -> Option<int> {
    match ymd_day_number(year, month, 1) {
        Some(first) => match months_after(first, 1) {
            Some(next) => Some(next - first),
            None => None,
        },
        None => None,
    }
}

pub open spec fn min_int(a: int, b: int) -> int {
    if a <= b {
        a
    } else {
        b
    }
}

/// Whether `rule` occurs on day number `d`; `None` where the length of the
/// month of `d` is not representable (the last month of the calendar).
pub open spec fn occurs_on(rule: ForecastRule, d: int) -> Option<bool> {
    if d < rule.starts_on@ || (rule.ends_on matches Some(end) && d > end@) {
        Some(false)
    } else {
        match rule.cadence {
            ForecastCadence::Once => Some(d == rule.starts_on@),
            ForecastCadence::Monthly { day_of_month } => {
                let ymd = day_number_ymd(d as i32);
                match month_length(ymd.0, ymd.1) {
                    Some(len) => Some(ymd.2 == min_int(day_of_month as int, len)),
                    None => None,
                }
            },
        }
    }
}

/// Days in a month, or `None` when the following month is not representable.
fn days_in_month(year: i32, month: u32) -> (r: Option<u32>)
    ensures
        r is Some <==> month_length(year, month) is Some,
        r matches Some(n) ==> month_length(year, month) == Some(n as int),
{
    match Date::from_ymd(year, month, 1) {
        Some(first) => {
            let first_day: i32 = first.days_from_ce();
            match first.checked_add_months(1) {
                Some(next) => {
                    let next_day: i32 = next.days_from_ce();
                    let len: i64 = next.days_since(&first);
                    proof {
                        assert(first_day == first@);
                        assert(next_day == next@);
                    }
                    Some(len as u32)
                },
                None => {
                    proof {
                        assert(first_day == first@);
                    }
                    None
                },
            }
        },
        None => None,
    }
}

/// Whether `rule` occurs on `date`. A monthly rule whose day does not exist
/// in a month falls on that month's last day. `None` only where the month's
/// length cannot be measured (the last month of the calendar).
pub fn rule_occurs_on(rule: &ForecastRule, date: &Date) -> (r: Option<bool>)
    ensures
        r == occurs_on(*rule, date@),
{
    if date.is_before(&rule.starts_on) {
        return Some(false);
    }
    if let Some(end) = &rule.ends_on {
        if end.is_before(date) {
            return Some(false);
        }
    }
    match rule.cadence {
        ForecastCadence::Once => Some(date.days_from_ce() == rule.starts_on.days_from_ce()),
        ForecastCadence::Monthly { day_of_month } => {
            let d: i32 = date.days_from_ce();
            let (year, month, day) = date.ymd();
            match days_in_month(year, month) {
                Some(len) => {
                    let target: u32 = if day_of_month <= len {
                        day_of_month
                    } else {
                        len
                    };
                    proof {
                        assert(d == date@);
                    }
                    Some(day == target)
                },
                None => {
                    proof {
                        assert(d == date@);
                    }
                    None
                },
            }
        },
    }
}

// ---------------------------------------------------------------------------
// Calendar duration
// ---------------------------------------------------------------------------

/// Whole calendar months that fit from `cursor` up to `end`, and where they
/// end: `(months, cursor after those months)`.
pub open spec fn months_within(cursor: int, end: int) -> (int, int)
    decreases end - cursor,
{
    match months_after(cursor as i32, 1) {
        Some(next) => if cursor < next && next <= end {
            let rest = months_within(next as int, end);
            (rest.0 + 1, rest.1)
        } else {
            (0, cursor)
        },
        None => (0, cursor),
    }
}

/// `n unit` with the singular form for one.
pub open spec fn count_text(n: nat, singular: Seq<char>, plural: Seq<char>) -> Seq<char> {
    decimal(n) + " "@ + (if n == 1 {
        singular
    } else {
        plural
    })
}

/// A day span as full calendar months plus remaining days.
pub open spec fn duration_text(start: int, end: int) -> Seq<char> {
    if end <= start {
        "0 days"@
    } else {
        let fit = months_within(start, end);
        let months = fit.0;
        let days = end - fit.1;
        if months == 0 {
            count_text(days as nat, "day"@, "days"@)
        } else if days == 0 {
            count_text(months as nat, "month"@, "months"@)
        } else {
            count_text(months as nat, "month"@, "months"@) + " "@ + count_text(
                days as nat,
                "day"@,
                "days"@,
            )
        }
    }
}

fn push_count(out: &mut Vec<char>, n: u64, singular: &str, plural: &str)
    ensures
        final(out)@ == old(out)@ + count_text(n as nat, singular@, plural@),
{
    push_decimal(out, n);
    push_str(out, " ");
    if n == 1 {
        push_str(out, singular);
    } else {
        push_str(out, plural);
    }
    proof {
        assert(final(out)@ =~= old(out)@ + count_text(n as nat, singular@, plural@));
    }
}

/// Express a day span as full calendar months plus remaining days. The start
/// date is the last actual balance date; the end date is the first reserve
/// date.
pub fn format_calendar_duration(start: &Date, end: &Date) -> (r: Result<String, RunwayError>)
    ensures
        r matches Ok(text) && text@ == duration_text(start@, end@),
{
    let mut out: Vec<char> = Vec::new();
    if !start.is_before(end) {
        push_str(&mut out, "0 days");
        return Ok(string_from_chars(&out));
    }
    let start_day: i32 = start.days_from_ce();
    let end_day: i32 = end.days_from_ce();
    let mut cursor: Date = *start;
    let mut months: u32 = 0;
    let mut done: bool = false;
    while !done
        invariant
            start_day == start@,
            end_day == end@,
            start@ <= cursor@ <= end@,
            0 <= months <= cursor@ - start@,
            in_range(cursor@),
            in_range(end@),
            !done ==> months_within(start@, end@) == (months + months_within(cursor@, end@).0,
                months_within(cursor@, end@).1),
            done ==> months_within(start@, end@) == (months as int, cursor@),
        decreases end@ - cursor@ + (if done { 0int } else { 1int }),
    {
        let cursor_day: i32 = cursor.days_from_ce();
        match cursor.checked_add_months(1) {
            Some(next) => {
                let next_day: i32 = next.days_from_ce();
                if end.is_before(&next) {
                    done = true;
                } else {
                    proof {
                        assert(cursor_day == cursor@);
                        assert(next_day == next@);
                    }
                    cursor = next;
                    months = months + 1;
                }
            },
            None => {
                done = true;
            },
        }
    }
    let days: i64 = end.days_since(&cursor);
    if months == 0 {
        push_count(&mut out, days as u64, "day", "days");
    } else if days == 0 {
        push_count(&mut out, months as u64, "month", "months");
    } else {
        push_count(&mut out, months as u64, "month", "months");
        push_str(&mut out, " ");
        push_count(&mut out, days as u64, "day", "days");
    }
    Ok(string_from_chars(&out))
}

// ---------------------------------------------------------------------------
// Per-rule contributions, kept sorted by rule id
// ---------------------------------------------------------------------------

// The contributions form a map from rule id to contribution, held as a `Vec`
// kept strictly sorted by id rather than as a `BTreeMap<String, _>`: vstd
// specifies `BTreeMap` only for keys that follow its `Ord` model, and it gives
// `String` no such model, so with string keys not even the length after one
// `insert` can be proved. The sorted `Vec` keeps the map's order and its
// one entry per id as an invariant that Verus checks.

/// Contributions strictly increasing by rule id (so each id occurs once).
pub open spec fn sorted_by_id(cs: Seq<RuleContribution>) -> bool {
    forall|i: int, j: int|
        0 <= i < j < cs.len() ==> text_less(#[trigger] cs[i].rule_id@, #[trigger] cs[j].rule_id@)
}

/// Number of leading contributions whose id sorts before `key`.
pub open spec fn lower_bound(cs: Seq<RuleContribution>, key: Seq<char>) -> int
    decreases cs.len(),
{
    if cs.len() > 0 && text_less(cs[0].rule_id@, key) {
        1 + lower_bound(cs.drop_first(), key)
    } else {
        0
    }
}

/// The signed effect of one occurrence: income positive, expense negative.
pub open spec fn signed_amount(rule: ForecastRule) -> int {
    match rule.direction {
        CashFlowDirection::Income => rule.amount_minor as int,
        CashFlowDirection::Expense => -rule.amount_minor,
    }
}

pub open spec fn fits_i64(x: int) -> bool {
    i64::MIN <= x <= i64::MAX
}

/// Records one occurrence of `rule`: the entry with the rule's id counts one
/// more occurrence and adds `signed`; a new id gets an entry at its sorted
/// place. `None` when a count or total leaves its integer range.
pub open spec fn record_occurrence(cs: Seq<RuleContribution>, rule: ForecastRule, signed: int) -> Option<
    Seq<RuleContribution>,
> {
    let p = lower_bound(cs, rule.id@);
    if p < cs.len() && cs[p].rule_id@ == rule.id@ {
        let c = cs[p];
        if c.occurrence_count + 1 > u32::MAX || !fits_i64(c.amount_minor + signed) {
            None
        } else {
            Some(
                cs.update(
                    p,
                    RuleContribution {
                        rule_id: c.rule_id,
                        label: c.label,
                        direction: c.direction,
                        occurrence_count: (c.occurrence_count + 1) as u32,
                        amount_minor: (c.amount_minor + signed) as i64,
                    },
                ),
            )
        }
    } else {
        Some(
            cs.insert(
                p,
                RuleContribution {
                    rule_id: rule.id,
                    label: rule.label,
                    direction: rule.direction,
                    occurrence_count: 1,
                    amount_minor: signed as i64,
                },
            ),
        )
    }
}

proof fn lemma_lower_bound(cs: Seq<RuleContribution>, key: Seq<char>)
    requires
        sorted_by_id(cs),
    ensures
        0 <= lower_bound(cs, key) <= cs.len(),
        forall|i: int| 0 <= i < lower_bound(cs, key) ==> text_less(#[trigger] cs[i].rule_id@, key),
        forall|i: int|
            lower_bound(cs, key) <= i < cs.len() ==> !text_less(#[trigger] cs[i].rule_id@, key),
    decreases cs.len(),
{
    if cs.len() > 0 && text_less(cs[0].rule_id@, key) {
        let rest = cs.drop_first();
        assert(sorted_by_id(rest)) by {
            assert forall|i: int, j: int| 0 <= i < j < rest.len() implies text_less(
                #[trigger] rest[i].rule_id@,
                #[trigger] rest[j].rule_id@,
            ) by {
                assert(rest[i] == cs[i + 1]);
                assert(rest[j] == cs[j + 1]);
            }
        }
        lemma_lower_bound(rest, key);
        assert forall|i: int| 0 <= i < lower_bound(cs, key) implies text_less(
            #[trigger] cs[i].rule_id@,
            key,
        ) by {
            if i > 0 {
                assert(cs[i] == rest[i - 1]);
            }
        }
        assert forall|i: int| lower_bound(cs, key) <= i < cs.len() implies !text_less(
            #[trigger] cs[i].rule_id@,
            key,
        ) by {
            assert(cs[i] == rest[i - 1]);
        }
    } else if cs.len() > 0 {
        assert forall|i: int| 0 <= i < cs.len() implies !text_less(
            #[trigger] cs[i].rule_id@,
            key,
        ) by {
            if i > 0 && text_less(cs[i].rule_id@, key) {
                assert(text_less(cs[0].rule_id@, cs[i].rule_id@));
                lemma_text_less_transitive(cs[0].rule_id@, cs[i].rule_id@, key);
            }
        }
    }
}

/// Recording an occurrence keeps the contributions sorted by id.
pub proof fn lemma_record_keeps_sorted(cs: Seq<RuleContribution>, rule: ForecastRule, signed: int)
    requires
        sorted_by_id(cs),
        record_occurrence(cs, rule, signed) is Some,
    ensures
        sorted_by_id(record_occurrence(cs, rule, signed)->0),
{
    lemma_lower_bound(cs, rule.id@);
    let p = lower_bound(cs, rule.id@);
    let out = record_occurrence(cs, rule, signed)->0;
    if p < cs.len() && cs[p].rule_id@ == rule.id@ {
        assert forall|i: int, j: int| 0 <= i < j < out.len() implies text_less(
            #[trigger] out[i].rule_id@,
            #[trigger] out[j].rule_id@,
        ) by {
            assert(out[i].rule_id@ == cs[i].rule_id@);
            assert(out[j].rule_id@ == cs[j].rule_id@);
        }
    } else {
        assert forall|i: int, j: int| 0 <= i < j < out.len() implies text_less(
            #[trigger] out[i].rule_id@,
            #[trigger] out[j].rule_id@,
        ) by {
            if j < p {
                assert(out[i] == cs[i] && out[j] == cs[j]);
            } else if j == p {
                assert(out[i] == cs[i]);
            } else if i == p {
                assert(out[j] == cs[j - 1]);
                lemma_text_less_trichotomy(cs[j - 1].rule_id@, rule.id@);
                if j - 1 > p {
                    assert(text_less(cs[p].rule_id@, cs[j - 1].rule_id@));
                    lemma_text_less_trichotomy(cs[p].rule_id@, rule.id@);
                    if text_less(rule.id@, cs[p].rule_id@) {
                        lemma_text_less_transitive(rule.id@, cs[p].rule_id@, cs[j - 1].rule_id@);
                    }
                }
            } else if i < p {
                assert(out[i] == cs[i] && out[j] == cs[j - 1]);
                if j - 1 > i {
                } else {
                    lemma_text_less_irreflexive(cs[i].rule_id@);
                }
            } else {
                assert(out[i] == cs[i - 1] && out[j] == cs[j - 1]);
            }
        }
    }
}

/// Records one occurrence of `rule` with effect `signed` (see
/// [`record_occurrence`]); `false` on overflow.
fn record_contribution(cs: &mut Vec<RuleContribution>, rule: &ForecastRule, signed: i64) -> (ok:
    bool)
    requires
        sorted_by_id(old(cs)@),
    ensures
        match record_occurrence(old(cs)@, *rule, signed as int) {
            Some(out) => ok && final(cs)@ == out,
            None => !ok,
        },
        ok ==> sorted_by_id(final(cs)@),
{
    let key = chars_of(rule.id.as_str());
    let mut p: usize = 0;
    assert(old(cs)@.skip(0) =~= old(cs)@);
    while p < cs.len() && chars_less(&chars_of(cs[p].rule_id.as_str()), &key)
        invariant
            cs@ == old(cs)@,
            key@ == rule.id@,
            p <= cs.len(),
            lower_bound(cs@, key@) == p + lower_bound(cs@.skip(p as int), key@),
        decreases cs.len() - p,
    {
        assert(cs@.skip(p as int).drop_first() =~= cs@.skip(p + 1));
        assert(cs@.skip(p as int)[0] == cs@[p as int]);
        p = p + 1;
    }
    proof {
        if p < cs.len() {
            assert(cs@.skip(p as int)[0] == cs@[p as int]);
        }
    }
    if p < cs.len() && crate::text::chars_equal(&chars_of(cs[p].rule_id.as_str()), &key) {
        let count = cs[p].occurrence_count.checked_add(1);
        let amount = cs[p].amount_minor.checked_add(signed);
        match (count, amount) {
            (Some(occurrence_count), Some(amount_minor)) => {
                let updated = RuleContribution {
                    rule_id: cs[p].rule_id.clone(),
                    label: cs[p].label.clone(),
                    direction: cs[p].direction,
                    occurrence_count,
                    amount_minor,
                };
                cs.set(p, updated);
                proof {
                    lemma_record_keeps_sorted(old(cs)@, *rule, signed as int);
                }
                true
            },
            _ => false,
        }
    } else {
        let entry = RuleContribution {
            rule_id: rule.id.clone(),
            label: rule.label.clone(),
            direction: rule.direction,
            occurrence_count: 1,
            amount_minor: signed,
        };
        cs.insert(p, entry);
        proof {
            lemma_record_keeps_sorted(old(cs)@, *rule, signed as int);
        }
        true
    }
}

// ---------------------------------------------------------------------------
// The day-by-day simulation
// ---------------------------------------------------------------------------

/// The simulation's state at the end of a day.
pub struct SimState {
    /// Closing balance.
    pub balance: int,
    /// Baseline spending owed but not yet applied, in units of
    /// `1 / observed_days` minor units.
    pub remainder: int,
    /// Baseline spending applied so far.
    pub applied: int,
    /// Effect of each rule so far, sorted by rule id.
    pub contributions: Seq<RuleContribution>,
}

/// The state before the first simulated day.
pub open spec fn initial_state(input: RunwayInput) -> SimState {
    SimState {
        balance: input.liquid_assets.amount_minor as int,
        remainder: 0,
        applied: 0,
        contributions: Seq::empty(),
    }
}

/// Applies one rule on day `d`.
pub open spec fn apply_rule(rule: ForecastRule, d: int, st: SimState) -> Result<
    SimState,
    RunwayError,
> {
    match occurs_on(rule, d) {
        None => Err(RunwayError::DateOverflow),
        Some(false) => Ok(st),
        Some(true) => {
            let balance = st.balance + signed_amount(rule);
            if !fits_i64(balance) {
                Err(RunwayError::ArithmeticOverflow)
            } else {
                match record_occurrence(st.contributions, rule, signed_amount(rule)) {
                    None => Err(RunwayError::ArithmeticOverflow),
                    Some(contributions) => Ok(
                        SimState {
                            balance,
                            remainder: st.remainder,
                            applied: st.applied,
                            contributions,
                        },
                    ),
                }
            }
        },
    }
}

/// Applies the first `n` rules, in order, on day `d`.
pub open spec fn apply_rules(rules: Seq<ForecastRule>, n: int, d: int, st: SimState) -> Result<
    SimState,
    RunwayError,
>
    decreases n,
{
    if n <= 0 {
        Ok(st)
    } else {
        match apply_rules(rules, n - 1, d, st) {
            Err(e) => Err(e),
            Ok(s) => apply_rule(rules[n - 1], d, s),
        }
    }
}

/// Allocates one day of baseline spending: the carried remainder plus the
/// total expense, divided by the observed days; the quotient is spent and
/// the remainder carried.
pub open spec fn apply_burn(expense: int, days: int, st: SimState) -> Result<SimState, RunwayError> {
    let total = st.remainder + expense;
    let today = total / days;
    if today > i64::MAX || !fits_i64(st.balance - today) || !fits_i64(st.applied + today) {
        Err(RunwayError::ArithmeticOverflow)
    } else {
        Ok(
            SimState {
                balance: st.balance - today,
                remainder: total % days,
                applied: st.applied + today,
                contributions: st.contributions,
            },
        )
    }
}

/// Simulates day number `k` (the date `as_of + k`).
pub open spec fn simulate_day(input: RunwayInput, st: SimState, k: int) -> Result<
    SimState,
    RunwayError,
> {
    let d = input.as_of@ + k;
    if d > MAX_DAY_NUMBER {
        Err(RunwayError::DateOverflow)
    } else {
        let rules = input.forecast_rules@;
        match apply_rules(rules, rules.len() as int, d, st) {
            Err(e) => Err(e),
            Ok(s) => apply_burn(
                input.historical_burn.expense_minor as int,
                input.historical_burn.observed_days as int,
                s,
            ),
        }
    }
}

/// Number of days simulated at most.
pub open spec fn horizon(input: RunwayInput) -> int {
    let h = match input.max_horizon_days {
        Some(h) => h as int,
        None => DEFAULT_MAX_HORIZON_DAYS as int,
    };
    if h < 1 {
        1
    } else {
        h
    }
}

/// Runs days `k, k + 1, ...` up to the horizon. The result holds the first
/// day whose closing balance is at or below the reserve (`None` when the
/// horizon passes first) and the state at the end of the last day run.
pub open spec fn simulate_from(input: RunwayInput, st: SimState, k: int) -> Result<
    (Option<int>, SimState),
    RunwayError,
>
    decreases horizon(input) + 1 - k,
{
    if k > horizon(input) {
        Ok((None, st))
    } else {
        match simulate_day(input, st, k) {
            Err(e) => Err(e),
            Ok(s) => if s.balance <= input.reserve.amount_minor {
                Ok((Some(k), s))
            } else {
                simulate_from(input, s, k + 1)
            },
        }
    }
}

/// The whole simulation from the day after `as_of`.
pub open spec fn simulation(input: RunwayInput) -> Result<(Option<int>, SimState), RunwayError> {
    simulate_from(input, initial_state(input), 1)
}

/// The warning for a short history.
pub open spec fn history_warning(days: u32) -> Seq<char> {
    "Only "@ + decimal(days as nat)
        + " days of actual spending history are available; the estimate is fragile."@
}

/// The warning when the reserve is not reached within the horizon.
pub open spec fn horizon_warning(days: int) -> Seq<char> {
    "The reserve is not reached within the "@ + decimal(days as nat)
        + "-day calculation horizon."@
}

/// Warnings known before simulating.
pub open spec fn early_warnings(input: RunwayInput) -> Seq<Seq<char>> {
    if input.historical_burn.observed_days < 30 {
        seq![history_warning(input.historical_burn.observed_days)]
    } else {
        Seq::empty()
    }
}

pub open spec fn texts(v: Seq<String>) -> Seq<Seq<char>> {
    v.map_values(|s: String| s@)
}

/// The fields every result carries unchanged from the input.
pub open spec fn result_echoes_input(input: RunwayInput, res: RunwayResult) -> bool {
    &&& res.as_of == input.as_of
    &&& res.currency == input.liquid_assets.currency
    &&& res.liquid_assets_minor == input.liquid_assets.amount_minor
    &&& res.reserve_minor == input.reserve.amount_minor
    &&& res.last_actual_data == input.historical_burn.observed_through
    &&& res.horizon_days == horizon(input)
}

/// The result when the assets are already at or below the reserve.
pub open spec fn immediate_result(input: RunwayInput, res: RunwayResult) -> bool {
    &&& result_echoes_input(input, res)
    &&& res.zero_date == Some(input.as_of)
    &&& res.runway_days == Some(0u32)
    &&& res.display_duration matches Some(t) && t@ == "0 days"@
    &&& res.projected_balance_minor == input.liquid_assets.amount_minor
    &&& res.historical_expense_applied_minor == 0
    &&& res.rule_contributions@.len() == 0
    &&& texts(res.warnings@) == early_warnings(input)
}

/// The result after simulating, stopping on day `stop` in state `st`.
pub open spec fn simulated_result(
    input: RunwayInput,
    stop: Option<int>,
    st: SimState,
    res: RunwayResult,
) -> bool {
    &&& result_echoes_input(input, res)
    &&& res.projected_balance_minor == st.balance
    &&& res.historical_expense_applied_minor == st.applied
    &&& res.rule_contributions@ == st.contributions
    &&& match stop {
        Some(k) => {
            &&& res.zero_date matches Some(z) && z@ == input.as_of@ + k
            &&& res.runway_days == Some(k as u32)
            &&& res.display_duration matches Some(t) && t@ == duration_text(
                input.as_of@,
                input.as_of@ + k,
            )
            &&& texts(res.warnings@) == early_warnings(input)
        },
        None => {
            &&& res.zero_date is None
            &&& res.runway_days is None
            &&& res.display_duration is None
            &&& texts(res.warnings@) == early_warnings(input).push(horizon_warning(horizon(input)))
        },
    }
}

/// `r` is what calculating the runway of `input` gives: the first defect of
/// an invalid input; the immediate result when the assets are already at or
/// below the reserve; otherwise the simulation's error or its explained
/// result.
pub open spec fn runway_outcome(input: RunwayInput, r: Result<RunwayResult, RunwayError>) -> bool {
    match input_defect(input) {
        Some(e) => r == Err::<RunwayResult, RunwayError>(e),
        None => if input.liquid_assets.amount_minor <= input.reserve.amount_minor {
            r matches Ok(res) && immediate_result(input, res)
        } else {
            match simulation(input) {
                Err(e) => r == Err::<RunwayResult, RunwayError>(e),
                Ok((stop, st)) => r matches Ok(res) && simulated_result(input, stop, st, res),
            }
        },
    }
}

/// An execution-side simulation state.
struct DayState {
    balance: i64,
    remainder: u128,
    applied: i64,
    contributions: Vec<RuleContribution>,
}

impl DayState {
    spec fn view(&self) -> SimState {
        SimState {
            balance: self.balance as int,
            remainder: self.remainder as int,
            applied: self.applied as int,
            contributions: self.contributions@,
        }
    }
}

/// A failing rule makes the whole day fail with the same error.
proof fn lemma_apply_rules_error_stable(
    rules: Seq<ForecastRule>,
    k: int,
    n: int,
    d: int,
    st: SimState,
)
    requires
        0 <= k <= n,
        apply_rules(rules, k, d, st) is Err,
    ensures
        apply_rules(rules, n, d, st) == apply_rules(rules, k, d, st),
    decreases n - k,
{
    if k < n {
        lemma_apply_rules_error_stable(rules, k, n - 1, d, st);
    }
}

/// Every rule of a valid input has a positive amount.
proof fn lemma_valid_rule_amounts(rules: Seq<ForecastRule>, currency: Seq<char>, n: int, i: int)
    requires
        0 <= i < n <= rules.len(),
        first_rule_defect(rules, currency, n) is None,
    ensures
        rules[i].amount_minor > 0,
    decreases n,
{
    if i < n - 1 {
        lemma_valid_rule_amounts(rules, currency, n - 1, i);
    }
}

fn history_warning_text(days: u32) -> (r: String)
    ensures
        r@ == history_warning(days),
{
    let mut out: Vec<char> = Vec::new();
    push_str(&mut out, "Only ");
    push_decimal(&mut out, days as u64);
    push_str(&mut out, " days of actual spending history are available; the estimate is fragile.");
    proof {
        assert(out@ =~= history_warning(days));
    }
    string_from_chars(&out)
}

fn horizon_warning_text(days: u32) -> (r: String)
    ensures
        r@ == horizon_warning(days as int),
{
    let mut out: Vec<char> = Vec::new();
    push_str(&mut out, "The reserve is not reached within the ");
    push_decimal(&mut out, days as u64);
    push_str(&mut out, "-day calculation horizon.");
    proof {
        assert(out@ =~= horizon_warning(days as int));
    }
    string_from_chars(&out)
}

/// Applies all rules of a valid input on `date`.
fn apply_day_rules(input: &RunwayInput, state: &mut DayState, date: &Date) -> (r: Result<
    (),
    RunwayError,
>)
    requires
        input_defect(*input) is None,
        sorted_by_id(old(state).view().contributions),
    ensures
        match apply_rules(
            input.forecast_rules@,
            input.forecast_rules@.len() as int,
            date@,
            old(state).view(),
        ) {
            Ok(s) => r is Ok && final(state).view() == s,
            Err(e) => r == Err::<(), RunwayError>(e),
        },
        r is Ok ==> sorted_by_id(final(state).view().contributions),
        final(state).remainder == old(state).remainder,
{
    let rules = &input.forecast_rules;
    let ghost start = state.view();
    for i in 0..rules.len()
        invariant
            rules == &input.forecast_rules,
            input_defect(*input) is None,
            start == old(state).view(),
            state.remainder == old(state).remainder,
            apply_rules(rules@, i as int, date@, start) == Ok::<SimState, RunwayError>(
                state.view(),
            ),
            sorted_by_id(state.view().contributions),
    {
        let rule = &rules[i];
        proof {
            lemma_valid_rule_amounts(
                rules@,
                input.liquid_assets.currency@,
                rules@.len() as int,
                i as int,
            );
            assert(apply_rules(rules@, i + 1, date@, start) == apply_rule(
                rules@[i as int],
                date@,
                state.view(),
            ));
        }
        match rule_occurs_on(rule, date) {
            None => {
                proof {
                    lemma_apply_rules_error_stable(
                        rules@,
                        i + 1,
                        rules@.len() as int,
                        date@,
                        start,
                    );
                }
                return Err(RunwayError::DateOverflow);
            },
            Some(false) => {},
            Some(true) => {
                let signed: i64 = match rule.direction {
                    CashFlowDirection::Income => rule.amount_minor,
                    CashFlowDirection::Expense => -rule.amount_minor,
                };
                match state.balance.checked_add(signed) {
                    None => {
                        proof {
                            lemma_apply_rules_error_stable(
                                rules@,
                                i + 1,
                                rules@.len() as int,
                                date@,
                                start,
                            );
                        }
                        return Err(RunwayError::ArithmeticOverflow);
                    },
                    Some(balance) => {
                        let ok = record_contribution(&mut state.contributions, rule, signed);
                        if !ok {
                            proof {
                                lemma_apply_rules_error_stable(
                                    rules@,
                                    i + 1,
                                    rules@.len() as int,
                                    date@,
                                    start,
                                );
                            }
                            return Err(RunwayError::ArithmeticOverflow);
                        }
                        state.balance = balance;
                    },
                }
            },
        }
    }
    Ok(())
}

/// Allocates one day of baseline spending.
fn apply_day_burn(input: &RunwayInput, state: &mut DayState) -> (r: Result<(), RunwayError>)
    requires
        input_defect(*input) is None,
        0 <= old(state).remainder < input.historical_burn.observed_days,
    ensures
        match apply_burn(
            input.historical_burn.expense_minor as int,
            input.historical_burn.observed_days as int,
            old(state).view(),
        ) {
            Ok(s) => r is Ok && final(state).view() == s,
            Err(e) => r == Err::<(), RunwayError>(e),
        },
        r is Ok ==> 0 <= final(state).remainder < input.historical_burn.observed_days,
        final(state).contributions@ == old(state).contributions@,
{
    let expense: u128 = input.historical_burn.expense_minor as u128;
    let days: u128 = input.historical_burn.observed_days as u128;
    let total: u128 = state.remainder + expense;
    let today: u128 = total / days;
    let remainder: u128 = total % days;
    if today > i64::MAX as u128 {
        return Err(RunwayError::ArithmeticOverflow);
    }
    let today_minor: i64 = today as i64;
    match (state.balance.checked_sub(today_minor), state.applied.checked_add(today_minor)) {
        (Some(balance), Some(applied)) => {
            state.balance = balance;
            state.applied = applied;
            state.remainder = remainder;
            Ok(())
        },
        _ => Err(RunwayError::ArithmeticOverflow),
    }
}

/// Runs the simulation of a valid input for up to `horizon_days` days.
fn run_days(input: &RunwayInput, horizon_days: u32) -> (r: Result<
    (Option<(u32, Date)>, DayState),
    RunwayError,
>)
    requires
        input_defect(*input) is None,
        horizon_days == horizon(*input),
    ensures
        match simulation(*input) {
            Err(e) => r == Err::<(Option<(u32, Date)>, DayState), RunwayError>(e),
            Ok((stop, st)) => r matches Ok((found, state)) && state.view() == st && match stop {
                Some(k) => found matches Some((n, z)) && n == k && z@ == input.as_of@ + k,
                None => found is None,
            },
        },
{
    let mut state = DayState {
        balance: input.liquid_assets.amount_minor,
        remainder: 0,
        applied: 0,
        contributions: Vec::new(),
    };
    let mut k: u64 = 1;
    proof {
        assert(state.view() == initial_state(*input));
    }
    while k <= horizon_days as u64
        invariant
            input_defect(*input) is None,
            horizon_days == horizon(*input),
            1 <= k <= horizon_days as u64 + 1,
            simulation(*input) == simulate_from(*input, state.view(), k as int),
            0 <= state.remainder < input.historical_burn.observed_days,
            sorted_by_id(state.view().contributions),
        decreases horizon_days as u64 + 1 - k,
    {
        let date = match input.as_of.checked_add_days(k) {
            Some(d) => d,
            None => {
                return Err(RunwayError::DateOverflow);
            },
        };
        let ghost before = state.view();
        match apply_day_rules(input, &mut state, &date) {
            Ok(()) => {},
            Err(e) => {
                return Err(e);
            },
        }
        match apply_day_burn(input, &mut state) {
            Ok(()) => {},
            Err(e) => {
                return Err(e);
            },
        }
        proof {
            assert(simulate_day(*input, before, k as int) == Ok::<SimState, RunwayError>(
                state.view(),
            ));
        }
        if state.balance <= input.reserve.amount_minor {
            return Ok((Some((k as u32, date)), state));
        }
        k = k + 1;
    }
    Ok((None, state))
}

/// Simulates the no-work runway: the first day after `as_of` whose closing
/// balance is at or below the reserve, with the explanation of how it was
/// reached.
pub fn calculate_runway(input: &RunwayInput) -> (r: Result<RunwayResult, RunwayError>)
    ensures
        runway_outcome(*input, r),
{
    match validate(input) {
        Ok(()) => {},
        Err(e) => {
            return Err(e);
        },
    }
    let horizon_days: u32 = {
        let h: u32 = match input.max_horizon_days {
            Some(h) => h,
            None => DEFAULT_MAX_HORIZON_DAYS,
        };
        if h < 1 {
            1
        } else {
            h
        }
    };
    let mut warnings: Vec<String> = Vec::new();
    if input.historical_burn.observed_days < 30 {
        warnings.push(history_warning_text(input.historical_burn.observed_days));
    }
    proof {
        assert(texts(warnings@) =~= early_warnings(*input));
    }
    if input.liquid_assets.amount_minor <= input.reserve.amount_minor {
        let mut zero_text: Vec<char> = Vec::new();
        push_str(&mut zero_text, "0 days");
        proof {
            assert(zero_text@ =~= "0 days"@);
        }
        return Ok(
            RunwayResult {
                as_of: input.as_of,
                currency: input.liquid_assets.currency.clone(),
                liquid_assets_minor: input.liquid_assets.amount_minor,
                reserve_minor: input.reserve.amount_minor,
                zero_date: Some(input.as_of),
                runway_days: Some(0),
                display_duration: Some(string_from_chars(&zero_text)),
                projected_balance_minor: input.liquid_assets.amount_minor,
                historical_expense_applied_minor: 0,
                rule_contributions: Vec::new(),
                last_actual_data: input.historical_burn.observed_through,
                horizon_days,
                warnings,
            },
        );
    }
    let (found, state) = match run_days(input, horizon_days) {
        Ok(outcome) => outcome,
        Err(e) => {
            return Err(e);
        },
    };
    match found {
        Some((day_number, date)) => {
            let duration = match format_calendar_duration(&input.as_of, &date) {
                Ok(text) => text,
                Err(e) => {
                    return Err(e);
                },
            };
            Ok(
                RunwayResult {
                    as_of: input.as_of,
                    currency: input.liquid_assets.currency.clone(),
                    liquid_assets_minor: input.liquid_assets.amount_minor,
                    reserve_minor: input.reserve.amount_minor,
                    zero_date: Some(date),
                    runway_days: Some(day_number),
                    display_duration: Some(duration),
                    projected_balance_minor: state.balance,
                    historical_expense_applied_minor: state.applied,
                    rule_contributions: state.contributions,
                    last_actual_data: input.historical_burn.observed_through,
                    horizon_days,
                    warnings,
                },
            )
        },
        None => {
            let ghost early = warnings@;
            warnings.push(horizon_warning_text(horizon_days));
            proof {
                assert(texts(warnings@) =~= texts(early).push(horizon_warning(horizon_days as int)));
            }
            Ok(
                RunwayResult {
                    as_of: input.as_of,
                    currency: input.liquid_assets.currency.clone(),
                    liquid_assets_minor: input.liquid_assets.amount_minor,
                    reserve_minor: input.reserve.amount_minor,
                    zero_date: None,
                    runway_days: None,
                    display_duration: None,
                    projected_balance_minor: state.balance,
                    historical_expense_applied_minor: state.applied,
                    rule_contributions: state.contributions,
                    last_actual_data: input.historical_burn.observed_through,
                    horizon_days,
                    warnings,
                },
            )
        },
    }
}

} // verus!
