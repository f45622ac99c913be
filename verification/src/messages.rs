//! The messages that errors show to a person.

use vstd::prelude::*;
use crate::calendar::iso_text;
use crate::entry::EntryError;
use crate::forecast::RunwayError;
use crate::ledger::DbError;
use crate::money::MoneyError;
use crate::profile::{debug_quoted, debug_text, import_error_text};
use crate::rows::{push_signed, signed_decimal};
use crate::text::{push_str, string_from_chars};

verus! {

pub open spec fn money_error_text(e: MoneyError) -> Seq<char> {
    match e {
        MoneyError::InvalidCurrency(s) => "currency must be a three-letter ISO-style code, got "@
            + debug_quoted(s@),
        MoneyError::CurrencyMismatch { left, right } =>
            "money arithmetic requires the same currency ("@ + left@ + " != "@ + right@ + ")"@,
        MoneyError::Overflow => "money arithmetic overflow"@,
    }
}

/// The message of a rule error: `forecast rule "<id>"` and what is wrong.
pub open spec fn rule_message(id: Seq<char>, what: Seq<char>) -> Seq<char> {
    "forecast rule "@ + debug_quoted(id) + what
}

pub open spec fn runway_error_text(e: RunwayError) -> Seq<char> {
    match e {
        RunwayError::Money(m) => money_error_text(m),
        RunwayError::CurrencyMismatch => "liquid assets and reserve must use the same currency"@,
        RunwayError::NegativeHistoricalExpense => "historical expense must not be negative"@,
        RunwayError::EmptyObservationWindow =>
            "historical observation window must contain at least one day"@,
        RunwayError::InvalidObservationWindow => "historical dates do not match observed_days"@,
        RunwayError::InvalidRuleAmount(id) => rule_message(id@, " has a non-positive amount"@),
        RunwayError::InvalidConfidence(id) => rule_message(id@, " has an invalid confidence"@),
        RunwayError::InvalidMonthlyDay(id) => rule_message(id@, " has an invalid monthly day"@),
        RunwayError::InvalidRuleDates(id) => rule_message(id@, " ends before it starts"@),
        RunwayError::RuleCurrencyMismatch(id) => rule_message(id@, " uses a different currency"@),
        RunwayError::DateOverflow => "date arithmetic overflow"@,
        RunwayError::ArithmeticOverflow => "financial arithmetic overflow"@,
    }
}

pub open spec fn db_error_text(e: DbError) -> Seq<char> {
    match e {
        DbError::Json(m) => m@,
        DbError::Money(m) => money_error_text(m),
        DbError::ScenarioNotFound(n) => "scenario "@ + debug_quoted(n@) + " does not exist"@,
        DbError::ProfileNotFound(n) => "import profile "@ + debug_quoted(n@) + " does not exist"@,
        DbError::NoActualTransactions(c) => "no actual transactions exist for "@ + c@,
        DbError::NoAccountBalance { currency, as_of } => "no account balance is available for "@
            + currency@ + " as of "@ + iso_text(as_of@ as i32) + "; set explicit assets"@,
        DbError::StaleBalanceOverride { requested, last_actual } =>
            "cannot move as-of date beyond actual data ("@ + iso_text(last_actual@ as i32)
            + ") without an explicit asset fact for that date"@,
        DbError::InvalidStoredDate { field, value } => "invalid date "@ + debug_quoted(value@)
            + " stored in "@ + field@,
        DbError::InvalidValue(m) => "invalid database value: "@ + m@,
        DbError::UnsupportedSchema(v) => "database schema version "@ + signed_decimal(v as int)
            + " is newer than this RunwayClock build"@,
    }
}

pub open spec fn entry_error_text(e: EntryError) -> Seq<char> {
    match e {
        EntryError::Amount(a) => import_error_text(a),
        EntryError::Currency(m) => money_error_text(m),
        EntryError::Refused(m) => m@,
    }
}

impl MoneyError {
    /// The error's message.
    pub fn to_text(&self) -> (r: String)
        ensures
            r@ == money_error_text(*self),
    {
        let mut out: Vec<char> = Vec::new();
        match self {
            MoneyError::InvalidCurrency(s) => {
                push_str(&mut out, "currency must be a three-letter ISO-style code, got ");
                let q = debug_text(s.as_str());
                push_str(&mut out, q.as_str());
            },
            MoneyError::CurrencyMismatch { left, right } => {
                push_str(&mut out, "money arithmetic requires the same currency (");
                push_str(&mut out, left.as_str());
                push_str(&mut out, " != ");
                push_str(&mut out, right.as_str());
                push_str(&mut out, ")");
            },
            MoneyError::Overflow => {
                push_str(&mut out, "money arithmetic overflow");
            },
        }
        string_from_chars(&out)
    }
}

fn push_rule_message(out: &mut Vec<char>, id: &String, what: &str)
    ensures
        final(out)@ == old(out)@ + rule_message(id@, what@),
{
    push_str(out, "forecast rule ");
    let q = debug_text(id.as_str());
    push_str(out, q.as_str());
    push_str(out, what);
}

impl RunwayError {
    /// The error's message.
    pub fn to_text(&self) -> (r: String)
        ensures
            r@ == runway_error_text(*self),
    {
        let mut out: Vec<char> = Vec::new();
        match self {
            RunwayError::Money(m) => {
                return m.to_text();
            },
            RunwayError::CurrencyMismatch => {
                push_str(&mut out, "liquid assets and reserve must use the same currency");
            },
            RunwayError::NegativeHistoricalExpense => {
                push_str(&mut out, "historical expense must not be negative");
            },
            RunwayError::EmptyObservationWindow => {
                push_str(&mut out, "historical observation window must contain at least one day");
            },
            RunwayError::InvalidObservationWindow => {
                push_str(&mut out, "historical dates do not match observed_days");
            },
            RunwayError::InvalidRuleAmount(id) => {
                push_rule_message(&mut out, id, " has a non-positive amount");
            },
            RunwayError::InvalidConfidence(id) => {
                push_rule_message(&mut out, id, " has an invalid confidence");
            },
            RunwayError::InvalidMonthlyDay(id) => {
                push_rule_message(&mut out, id, " has an invalid monthly day");
            },
            RunwayError::InvalidRuleDates(id) => {
                push_rule_message(&mut out, id, " ends before it starts");
            },
            RunwayError::RuleCurrencyMismatch(id) => {
                push_rule_message(&mut out, id, " uses a different currency");
            },
            RunwayError::DateOverflow => {
                push_str(&mut out, "date arithmetic overflow");
            },
            RunwayError::ArithmeticOverflow => {
                push_str(&mut out, "financial arithmetic overflow");
            },
        }
        proof {
            assert(out@ =~= Seq::<char>::empty() + runway_error_text(*self));
        }
        string_from_chars(&out)
    }
}

impl DbError {
    /// The error's message.
    pub fn to_text(&self) -> (r: String)
        ensures
            r@ == db_error_text(*self),
    {
        let mut out: Vec<char> = Vec::new();
        match self {
            DbError::Json(m) => {
                return m.clone();
            },
            DbError::Money(m) => {
                return m.to_text();
            },
            DbError::ScenarioNotFound(n) => {
                push_str(&mut out, "scenario ");
                let q = debug_text(n.as_str());
                push_str(&mut out, q.as_str());
                push_str(&mut out, " does not exist");
            },
            DbError::ProfileNotFound(n) => {
                push_str(&mut out, "import profile ");
                let q = debug_text(n.as_str());
                push_str(&mut out, q.as_str());
                push_str(&mut out, " does not exist");
            },
            DbError::NoActualTransactions(c) => {
                push_str(&mut out, "no actual transactions exist for ");
                push_str(&mut out, c.as_str());
            },
            DbError::NoAccountBalance { currency, as_of } => {
                push_str(&mut out, "no account balance is available for ");
                push_str(&mut out, currency.as_str());
                push_str(&mut out, " as of ");
                let d = as_of.to_iso_string();
                push_str(&mut out, d.as_str());
                push_str(&mut out, "; set explicit assets");
            },
            DbError::StaleBalanceOverride { requested, last_actual } => {
                push_str(&mut out, "cannot move as-of date beyond actual data (");
                let d = last_actual.to_iso_string();
                push_str(&mut out, d.as_str());
                push_str(&mut out, ") without an explicit asset fact for that date");
            },
            DbError::InvalidStoredDate { field, value } => {
                push_str(&mut out, "invalid date ");
                let q = debug_text(value.as_str());
                push_str(&mut out, q.as_str());
                push_str(&mut out, " stored in ");
                push_str(&mut out, field.as_str());
            },
            DbError::InvalidValue(m) => {
                push_str(&mut out, "invalid database value: ");
                push_str(&mut out, m.as_str());
            },
            DbError::UnsupportedSchema(v) => {
                push_str(&mut out, "database schema version ");
                push_signed(&mut out, *v);
                push_str(&mut out, " is newer than this RunwayClock build");
            },
        }
        proof {
            assert(out@ =~= Seq::<char>::empty() + db_error_text(*self));
        }
        string_from_chars(&out)
    }
}

impl EntryError {
    /// The error's message.
    pub fn to_text(&self) -> (r: String)
        ensures
            r@ == entry_error_text(*self),
    {
        match self {
            EntryError::Amount(a) => a.to_text(),
            EntryError::Currency(m) => m.to_text(),
            EntryError::Refused(m) => m.clone(),
        }
    }
}

} // verus!
