//! Import profiles: how a bank's CSV export maps to transactions.

use vstd::prelude::*;
use crate::text::{chars_of, chars_equal, string_from_chars, trim, trimmed_chars_of};

verus! {

/// Why a statement or profile could not be used.
#[derive(Debug, Clone, PartialEq, Eq)]
pub enum ImportError {
    /// The CSV reader refused the header or a record; holds its message.
    Csv(String),
    UnknownEncoding(String),
    /// The input holds bytes that are invalid in the named encoding.
    InvalidEncoding(String),
    /// The delimiter must be one ASCII character or `auto`.
    InvalidDelimiter,
    /// The profile maps neither an amount column nor debit/credit columns.
    MissingAmountMapping,
    /// The profile maps both a signed amount and debit/credit columns.
    AmbiguousAmountMapping,
    /// A mapped column was not found in the CSV header.
    MissingColumn(String),
    InvalidDate { value: String, formats: Vec<String> },
    InvalidMoney { value: String, reason: String },
    /// Amount formats must use different decimal and thousands separators.
    ConflictingSeparators,
}

/// Which CSV column holds which transaction field (by header text).
#[derive(Debug, Clone, PartialEq, Eq)]
pub struct ColumnMapping {
    pub date: String,
    pub description: String,
    pub amount: Option<String>,
    pub debit: Option<String>,
    pub credit: Option<String>,
    pub balance: Option<String>,
    pub transaction_id: Option<String>,
}

/// How dates and amounts are written.
#[derive(Debug, Clone, PartialEq, Eq)]
pub struct ValueFormats {
    /// strftime-style date formats, tried in order.
    pub date: Vec<String>,
    pub decimal_separator: char,
    pub thousands_separator: Option<char>,
    pub minor_unit_digits: u32,
}

/// A saved bank statement format.
#[derive(Debug, Clone, PartialEq, Eq)]
pub struct ImportProfile {
    pub name: String,
    /// One ASCII character, or `auto` to detect it from the header line.
    pub delimiter: String,
    pub encoding: String,
    /// Lines before the CSV header.
    pub skip_rows: usize,
    pub columns: ColumnMapping,
    pub formats: ValueFormats,
}

/// Builds a `String` from a string slice.
pub fn owned(s: &str) -> (r: String)
    ensures
        r@ == s@,
{
    string_from_chars(&chars_of(s))
}

/// The delimiter used when a profile names none: detect it.
pub fn default_delimiter() -> (r: String)
    ensures
        r@ == "auto"@,
{
    owned("auto")
}

/// The encoding used when a profile names none.
pub fn default_encoding() -> (r: String)
    ensures
        r@ == "utf-8"@,
{
    owned("utf-8")
}

/// Date formats tried when a profile names none: day.month.year,
/// day/month/year and ISO.
pub fn default_date_formats() -> (r: Vec<String>)
    ensures
        r@.len() == 3,
        r@[0]@ == "%d.%m.%Y"@,
        r@[1]@ == "%d/%m/%Y"@,
        r@[2]@ == "%Y-%m-%d"@,
{
    let mut v: Vec<String> = Vec::new();
    v.push(owned("%d.%m.%Y"));
    v.push(owned("%d/%m/%Y"));
    v.push(owned("%Y-%m-%d"));
    v
}

pub fn default_decimal_separator() -> (r: char)
    ensures
        r == ',',
{
    ','
}

pub fn default_thousands_separator() -> (r: Option<char>)
    ensures
        r == Some('.'),
{
    Some('.')
}

pub fn default_minor_unit_digits() -> (r: u32)
    ensures
        r == 2,
{
    2
}

impl Default for ValueFormats {
    /// Turkish-style amounts (`1.234,56`) with two minor digits and the
    /// default date formats.
    fn default() -> (r: ValueFormats)
        ensures
            r.date@.len() == 3,
            r.date@[0]@ == "%d.%m.%Y"@,
            r.date@[1]@ == "%d/%m/%Y"@,
            r.date@[2]@ == "%Y-%m-%d"@,
            r.decimal_separator == ',',
            r.thousands_separator == Some('.'),
            r.minor_unit_digits == 2,
    {
        ValueFormats {
            date: default_date_formats(),
            decimal_separator: default_decimal_separator(),
            thousands_separator: default_thousands_separator(),
            minor_unit_digits: default_minor_unit_digits(),
        }
    }
}

/// A delimiter setting is `auto` or a single ASCII character.
pub open spec fn delimiter_setting_ok(d: Seq<char>) -> bool {
    d == "auto"@ || (d.len() == 1 && (d[0] as u32) < 128)
}

/// Why a profile is refused, checked in order.
pub open spec fn profile_defect(p: ImportProfile) -> Option<ImportError> {
    let signed = p.columns.amount is Some;
    let split = p.columns.debit is Some || p.columns.credit is Some;
    if !signed && !split {
        Some(ImportError::MissingAmountMapping)
    } else if signed && split {
        Some(ImportError::AmbiguousAmountMapping)
    } else if p.formats.thousands_separator == Some(p.formats.decimal_separator) {
        Some(ImportError::ConflictingSeparators)
    } else if !delimiter_setting_ok(p.delimiter@) {
        Some(ImportError::InvalidDelimiter)
    } else {
        None
    }
}

/// Accepts a profile that maps exactly one way of reading amounts, uses
/// distinct separators and a valid delimiter.
pub fn validate_profile(profile: &ImportProfile) -> (r: Result<(), ImportError>)
    ensures
        match profile_defect(*profile) {
            Some(e) => r == Err::<(), ImportError>(e),
            None => r is Ok,
        },
{
    let uses_signed = profile.columns.amount.is_some();
    let uses_split = profile.columns.debit.is_some() || profile.columns.credit.is_some();
    if !uses_signed && !uses_split {
        return Err(ImportError::MissingAmountMapping);
    }
    if uses_signed && uses_split {
        return Err(ImportError::AmbiguousAmountMapping);
    }
    let conflicting = match profile.formats.thousands_separator {
        Some(sep) => sep == profile.formats.decimal_separator,
        None => false,
    };
    if conflicting {
        return Err(ImportError::ConflictingSeparators);
    }
    let delimiter = chars_of(profile.delimiter.as_str());
    let auto = chars_of("auto");
    let single_ascii = delimiter.len() == 1 && (delimiter[0] as u32) < 128;
    if !chars_equal(&delimiter, &auto) && !single_ascii {
        return Err(ImportError::InvalidDelimiter);
    }
    Ok(())
}

/// Some header, trimmed, equals the trimmed name.
pub open spec fn header_present(headers: Seq<String>, name: Seq<char>) -> bool {
    exists|i: int| 0 <= i < headers.len() && trim(#[trigger] headers[i]@) == trim(name)
}

pub open spec fn optional_present(headers: Seq<String>, name: Option<String>) -> bool {
    match name {
        Some(n) => header_present(headers, n@),
        None => true,
    }
}

fn has_header(headers: &[String], name: &str) -> (r: bool)
    ensures
        r == header_present(headers@, name@),
{
    let wanted = trimmed_chars_of(name);
    for k in 0..headers.len()
        invariant
            wanted@ == trim(name@),
            forall|i: int| 0 <= i < k ==> trim(#[trigger] headers@[i]@) != trim(name@),
    {
        let h = trimmed_chars_of(headers[k].as_str());
        if chars_equal(&h, &wanted) {
            return true;
        }
    }
    false
}

fn has_optional_header(headers: &[String], name: &Option<String>) -> (r: bool)
    ensures
        r == optional_present(headers@, *name),
{
    match name {
        Some(n) => has_header(headers, n.as_str()),
        None => true,
    }
}

/// A saved profile fits a statement when every column it maps appears in
/// the statement's header row.
pub open spec fn profile_fits(profile: ImportProfile, headers: Seq<String>) -> bool {
    &&& header_present(headers, profile.columns.date@)
    &&& header_present(headers, profile.columns.description@)
    &&& optional_present(headers, profile.columns.amount)
    &&& optional_present(headers, profile.columns.debit)
    &&& optional_present(headers, profile.columns.credit)
    &&& optional_present(headers, profile.columns.balance)
    &&& optional_present(headers, profile.columns.transaction_id)
}

/// Whether the saved profile fits the statement's header row.
pub fn profile_matches_headers(profile: &ImportProfile, headers: &[String]) -> (r: bool)
    ensures
        r == profile_fits(*profile, headers@),
{
    let c = &profile.columns;
    has_header(headers, c.date.as_str()) && has_header(headers, c.description.as_str())
        && has_optional_header(headers, &c.amount) && has_optional_header(headers, &c.debit)
        && has_optional_header(headers, &c.credit) && has_optional_header(headers, &c.balance)
        && has_optional_header(headers, &c.transaction_id)
}

/// The `Debug` text of a string slice (quoted, with escapes).
pub uninterp spec fn debug_quoted(s: Seq<char>) -> Seq<char>;

/// `format!("{:?}", s)` for a string slice. The contract names the text.
#[verifier::external_body]
pub(crate) fn debug_text(s: &str) -> (r: String)
    ensures
        r@ == debug_quoted(s@),
{
    format!("{:?}", s)
}

/// The `Debug` text of a list of strings: `["a", "b"]`.
pub open spec fn debug_list(items: Seq<Seq<char>>) -> Seq<char>
    decreases items.len(),
{
    if items.len() == 0 {
        "[]"@
    } else {
        debug_list_body(items) + "]"@
    }
}

pub open spec fn debug_list_body(items: Seq<Seq<char>>) -> Seq<char>
    decreases items.len(),
{
    if items.len() == 0 {
        "["@
    } else if items.len() == 1 {
        "["@ + debug_quoted(items[0])
    } else {
        debug_list_body(items.drop_last()) + ", "@ + debug_quoted(items.last())
    }
}

fn push_debug_list(out: &mut Vec<char>, items: &Vec<String>)
    ensures
        final(out)@ == old(out)@ + debug_list(items@.map_values(|s: String| s@)),
{
    let ghost texts = items@.map_values(|s: String| s@);
    if items.len() == 0 {
        crate::text::push_str(out, "[]");
        return;
    }
    let ghost start = out@;
    crate::text::push_str(out, "[");
    let first = debug_text(items[0].as_str());
    crate::text::push_str(out, first.as_str());
    assert(texts.take(1).len() == 1);
    assert(out@ =~= start + debug_list_body(texts.take(1)));
    for k in 1..items.len()
        invariant
            texts == items@.map_values(|s: String| s@),
            items.len() >= 1,
            out@ == start + debug_list_body(texts.take(k as int)),
    {
        crate::text::push_str(out, ", ");
        let next = debug_text(items[k].as_str());
        crate::text::push_str(out, next.as_str());
        assert(texts.take(k + 1).drop_last() =~= texts.take(k as int));
        assert(out@ =~= start + debug_list_body(texts.take(k + 1)));
    }
    crate::text::push_str(out, "]");
    assert(texts.take(items.len() as int) =~= texts);
    assert(final(out)@ =~= old(out)@ + debug_list(texts));
}

/// The message of an import error, as shown to the user.
pub open spec fn import_error_text(e: ImportError) -> Seq<char> {
    match e {
        ImportError::Csv(m) => m@,
        ImportError::UnknownEncoding(n) => "unknown encoding "@ + debug_quoted(n@),
        ImportError::InvalidEncoding(n) => "input contains bytes that are invalid in "@ + n@,
        ImportError::InvalidDelimiter => "delimiter must be one ASCII character or 'auto'"@,
        ImportError::MissingAmountMapping =>
            "profile maps neither an amount column nor debit/credit columns"@,
        ImportError::AmbiguousAmountMapping =>
            "profile maps both a signed amount and debit/credit columns"@,
        ImportError::MissingColumn(n) => "mapped column "@ + debug_quoted(n@)
            + " was not found in the CSV header"@,
        ImportError::InvalidDate { value, formats } => "invalid date "@ + debug_quoted(value@)
            + "; expected one of "@ + debug_list(formats@.map_values(|s: String| s@)),
        ImportError::InvalidMoney { value, reason } => "invalid money value "@ + debug_quoted(
            value@,
        ) + ": "@ + reason@,
        ImportError::ConflictingSeparators =>
            "amount and balance formats must use different decimal and thousands separators"@,
    }
}

impl ImportError {
    /// The error's message.
    pub fn to_text(&self) -> (r: String)
        ensures
            r@ == import_error_text(*self),
    {
        let mut out: Vec<char> = Vec::new();
        match self {
            ImportError::Csv(m) => {
                return m.clone();
            },
            ImportError::UnknownEncoding(n) => {
                crate::text::push_str(&mut out, "unknown encoding ");
                let q = debug_text(n.as_str());
                crate::text::push_str(&mut out, q.as_str());
            },
            ImportError::InvalidEncoding(n) => {
                crate::text::push_str(&mut out, "input contains bytes that are invalid in ");
                crate::text::push_str(&mut out, n.as_str());
            },
            ImportError::InvalidDelimiter => {
                crate::text::push_str(&mut out, "delimiter must be one ASCII character or 'auto'");
            },
            ImportError::MissingAmountMapping => {
                crate::text::push_str(
                    &mut out,
                    "profile maps neither an amount column nor debit/credit columns",
                );
            },
            ImportError::AmbiguousAmountMapping => {
                crate::text::push_str(
                    &mut out,
                    "profile maps both a signed amount and debit/credit columns",
                );
            },
            ImportError::MissingColumn(n) => {
                crate::text::push_str(&mut out, "mapped column ");
                let q = debug_text(n.as_str());
                crate::text::push_str(&mut out, q.as_str());
                crate::text::push_str(&mut out, " was not found in the CSV header");
            },
            ImportError::InvalidDate { value, formats } => {
                crate::text::push_str(&mut out, "invalid date ");
                let q = debug_text(value.as_str());
                crate::text::push_str(&mut out, q.as_str());
                crate::text::push_str(&mut out, "; expected one of ");
                push_debug_list(&mut out, formats);
            },
            ImportError::InvalidMoney { value, reason } => {
                crate::text::push_str(&mut out, "invalid money value ");
                let q = debug_text(value.as_str());
                crate::text::push_str(&mut out, q.as_str());
                crate::text::push_str(&mut out, ": ");
                crate::text::push_str(&mut out, reason.as_str());
            },
            ImportError::ConflictingSeparators => {
                crate::text::push_str(
                    &mut out,
                    "amount and balance formats must use different decimal and thousands separators",
                );
            },
        }
        assert(out@ =~= import_error_text(*self));
        string_from_chars(&out)
    }
}

} // verus!
