//! Reading statement rows: the CSV reader, column resolution, row parsing
//! and the identity used to reconcile overlapping statements.

use vstd::prelude::*;
use sha2::Digest;
use crate::amount::{AmountParse, parse_amount, parse_amount_minor};
use crate::calendar::{Date, iso_text, parsed_day_number};
use crate::profile::{ColumnMapping, ImportError, ImportProfile, ValueFormats, owned};
use crate::text::{
    chars_equal, chars_of, decimal, is_white_space, is_white_space_char, push_decimal,
    push_str, string_from_chars, trim, trim_chars, trimmed_chars_of,
};

verus! {

/// A CSV document read with `flexible` records and trimmed fields: the
/// header record (or the reader's error message) and each further record
/// (or its error message).
pub struct CsvTable {
    pub headers: Result<Vec<String>, String>,
    pub records: Vec<Result<Vec<String>, String>>,
}

/// What the `csv` crate reads from `source` with `delimiter`, trimming every
/// field and accepting records of any length.
pub uninterp spec fn csv_reading(source: Seq<char>, delimiter: u8) -> (
    Result<Seq<Seq<char>>, Seq<char>>,
    Seq<Result<Seq<Seq<char>>, Seq<char>>>,
);

pub open spec fn cell_texts(v: Seq<String>) -> Seq<Seq<char>> {
    v.map_values(|s: String| s@)
}

pub open spec fn record_view(r: Result<Vec<String>, String>) -> Result<Seq<Seq<char>>, Seq<char>> {
    match r {
        Ok(cells) => Ok(cell_texts(cells@)),
        Err(m) => Err(m@),
    }
}

/// `t` holds exactly the reading `parsed`.
pub open spec fn table_is(
    t: CsvTable,
    parsed: (Result<Seq<Seq<char>>, Seq<char>>, Seq<Result<Seq<Seq<char>>, Seq<char>>>),
) -> bool {
    &&& record_view(t.headers) == parsed.0
    &&& t.records@.len() == parsed.1.len()
    &&& forall|i: int| 0 <= i < parsed.1.len() ==> #[trigger] record_view(t.records@[i]) == parsed.1[i]
}

/// `csv::ReaderBuilder` (flexible, trimming all fields) reading `source`:
/// the header record and every further record, errors as their messages.
/// The contract names the reading only.
#[verifier::external_body]
pub(crate) fn read_csv(source: &str, delimiter: u8) -> (r: CsvTable)
    ensures
        table_is(r, csv_reading(source@, delimiter)),
{
    let mut reader = csv::ReaderBuilder::new().delimiter(delimiter).flexible(true).trim(
        csv::Trim::All,
    ).from_reader(source.as_bytes());
    let headers = match reader.headers() {
        Ok(h) => Ok(h.iter().map(|f| f.to_owned()).collect()),
        Err(e) => Err(e.to_string()),
    };
    let records = reader.records().map(
        |r| match r {
            Ok(rec) => Ok(rec.iter().map(|f| f.to_owned()).collect()),
            Err(e) => Err(e.to_string()),
        },
    ).collect();
    CsvTable { headers, records }
}

// ---------------------------------------------------------------------------
// Columns
// ---------------------------------------------------------------------------

/// `s` without leading byte-order marks.
pub open spec fn strip_bom(s: Seq<char>) -> Seq<char>
    decreases s.len(),
{
    if s.len() > 0 && s[0] == '\u{feff}' {
        strip_bom(s.drop_first())
    } else {
        s
    }
}

/// Index of the first header that, trimmed and without a byte-order mark,
/// equals the trimmed name.
pub open spec fn column_position(headers: Seq<Seq<char>>, name: Seq<char>) -> Option<int>
    decreases headers.len(),
{
    if headers.len() == 0 {
        None
    } else {
        match column_position(headers.drop_last(), name) {
            Some(i) => Some(i),
            None => if strip_bom(trim(headers.last())) == trim(name) {
                Some(headers.len() - 1)
            } else {
                None
            },
        }
    }
}

pub fn strip_bom_chars(s: &Vec<char>) -> (r: Vec<char>)
    ensures
        r@ == strip_bom(s@),
{
    let mut i: usize = 0;
    assert(s@.skip(0) =~= s@);
    while i < s.len() && s[i] == '\u{feff}'
        invariant
            i <= s.len(),
            strip_bom(s@) == strip_bom(s@.skip(i as int)),
        decreases s.len() - i,
    {
        assert(s@.skip(i as int).drop_first() =~= s@.skip(i + 1));
        i = i + 1;
    }
    crate::text::slice_chars(s, i, s.len())
}

proof fn lemma_column_position_prefix(headers: Seq<Seq<char>>, name: Seq<char>, n: int)
    requires
        0 <= n <= headers.len(),
        column_position(headers.take(n), name) is Some,
    ensures
        column_position(headers, name) == column_position(headers.take(n), name),
    decreases headers.len() - n,
{
    if n < headers.len() {
        assert(headers.take(n + 1).drop_last() =~= headers.take(n));
        lemma_column_position_prefix(headers, name, n + 1);
    } else {
        assert(headers.take(n) =~= headers);
    }
}

/// The position of a mapped column, or `MissingColumn` with its name.
pub fn required_header(headers: &[String], name: &str) -> (r: Result<usize, ImportError>)
    ensures
        match r {
            Ok(k) => column_position(cell_texts(headers@), name@) == Some(k as int),
            Err(e) => column_position(cell_texts(headers@), name@) is None && (e matches ImportError::MissingColumn(n) && n@ == name@),
        },
{
    let wanted = trimmed_chars_of(name);
    let ghost hs = cell_texts(headers@);
    let mut k: usize = 0;
    while k < headers.len()
        invariant
            k <= headers.len(),
            hs == cell_texts(headers@),
            wanted@ == trim(name@),
            column_position(hs.take(k as int), name@) is None,
        decreases headers.len() - k,
    {
        assert(hs.take(k + 1).drop_last() =~= hs.take(k as int));
        assert(hs[k as int] == headers@[k as int]@);
        let h = strip_bom_chars(&trimmed_chars_of(headers[k].as_str()));
        if chars_equal(&h, &wanted) {
            proof {
                assert(column_position(hs.take(k + 1), name@) == Some(k as int));
                lemma_column_position_prefix(hs, name@, k + 1);
            }
            return Ok(k);
        }
        k = k + 1;
    }
    assert(hs.take(hs.len() as int) =~= hs);
    Err(ImportError::MissingColumn(owned(name)))
}

pub open spec fn optional_position(headers: Seq<Seq<char>>, name: Option<String>) -> Option<
    Option<int>,
> {
    match name {
        None => Some(None),
        Some(n) => match column_position(headers, n@) {
            Some(i) => Some(Some(i)),
            None => None,
        },
    }
}

pub fn optional_header(headers: &[String], name: &Option<String>) -> (r: Result<
    Option<usize>,
    ImportError,
>)
    ensures
        match r {
            Ok(k) => optional_position(cell_texts(headers@), *name) == Some(opt_index(k)),
            Err(e) => optional_position(cell_texts(headers@), *name) is None && (e matches ImportError::MissingColumn(n) && n@ == name->0@),
        },
{
    match name {
        None => Ok(None),
        Some(n) => match required_header(headers, n.as_str()) {
            Ok(i) => Ok(Some(i)),
            Err(e) => Err(e),
        },
    }
}

/// The column index of each mapped field.
#[derive(Debug, Clone, Copy, PartialEq, Eq)]
pub struct ResolvedColumns {
    pub date: usize,
    pub description: usize,
    pub amount: Option<usize>,
    pub debit: Option<usize>,
    pub credit: Option<usize>,
    pub balance: Option<usize>,
    pub transaction_id: Option<usize>,
}

pub open spec fn opt_index(o: Option<usize>) -> Option<int> {
    match o {
        Some(i) => Some(i as int),
        None => None,
    }
}

/// `r` resolves every mapped column against the headers.
pub open spec fn columns_resolved(headers: Seq<Seq<char>>, m: ColumnMapping, r: ResolvedColumns) -> bool {
    &&& column_position(headers, m.date@) == Some(r.date as int)
    &&& column_position(headers, m.description@) == Some(r.description as int)
    &&& optional_position(headers, m.amount) == Some(opt_index(r.amount))
    &&& optional_position(headers, m.debit) == Some(opt_index(r.debit))
    &&& optional_position(headers, m.credit) == Some(opt_index(r.credit))
    &&& optional_position(headers, m.balance) == Some(opt_index(r.balance))
    &&& optional_position(headers, m.transaction_id) == Some(opt_index(r.transaction_id))
}

/// The first mapped column (in field order) missing from the headers.
pub open spec fn first_missing_column(headers: Seq<Seq<char>>, m: ColumnMapping) -> Option<
    Seq<char>,
> {
    if column_position(headers, m.date@) is None {
        Some(m.date@)
    } else if column_position(headers, m.description@) is None {
        Some(m.description@)
    } else if optional_position(headers, m.amount) is None {
        Some(m.amount->0@)
    } else if optional_position(headers, m.debit) is None {
        Some(m.debit->0@)
    } else if optional_position(headers, m.credit) is None {
        Some(m.credit->0@)
    } else if optional_position(headers, m.balance) is None {
        Some(m.balance->0@)
    } else if optional_position(headers, m.transaction_id) is None {
        Some(m.transaction_id->0@)
    } else {
        None
    }
}

impl ResolvedColumns {
    /// Finds every mapped column in the header row.
    pub fn new(headers: &[String], mapping: &ColumnMapping) -> (r: Result<
        ResolvedColumns,
        ImportError,
    >)
        ensures
            match first_missing_column(cell_texts(headers@), *mapping) {
                Some(name) => r matches Err(ImportError::MissingColumn(n)) && n@ == name,
                None => r matches Ok(cols) && columns_resolved(cell_texts(headers@), *mapping, cols),
            },
    {
        let date = match required_header(headers, mapping.date.as_str()) {
            Ok(i) => i,
            Err(e) => {
                return Err(e);
            },
        };
        let description = match required_header(headers, mapping.description.as_str()) {
            Ok(i) => i,
            Err(e) => {
                return Err(e);
            },
        };
        let amount = match optional_header(headers, &mapping.amount) {
            Ok(i) => i,
            Err(e) => {
                return Err(e);
            },
        };
        let debit = match optional_header(headers, &mapping.debit) {
            Ok(i) => i,
            Err(e) => {
                return Err(e);
            },
        };
        let credit = match optional_header(headers, &mapping.credit) {
            Ok(i) => i,
            Err(e) => {
                return Err(e);
            },
        };
        let balance = match optional_header(headers, &mapping.balance) {
            Ok(i) => i,
            Err(e) => {
                return Err(e);
            },
        };
        let transaction_id = match optional_header(headers, &mapping.transaction_id) {
            Ok(i) => i,
            Err(e) => {
                return Err(e);
            },
        };
        Ok(ResolvedColumns { date, description, amount, debit, credit, balance, transaction_id })
    }
}

// ---------------------------------------------------------------------------
// Rows
// ---------------------------------------------------------------------------

/// What `str::to_uppercase` gives for a text (full Unicode upper-casing).
pub uninterp spec fn unicode_uppercase(s: Seq<char>) -> Seq<char>;

/// `str::to_uppercase`. The contract names the result only.
#[verifier::external_body]
fn uppercase(s: &Vec<char>) -> (r: Vec<char>)
    ensures
        r@ == unicode_uppercase(s@),
{
    s.iter().collect::<String>().to_uppercase().chars().collect()
}

/// The white-space separated words of `s` joined by single spaces
/// (`split_whitespace` then `join(" ")`), with whether white space followed
/// the last word.
pub open spec fn join_words_by_space(s: Seq<char>) -> (Seq<char>, bool)
    decreases s.len(),
{
    if s.len() == 0 {
        (Seq::empty(), false)
    } else {
        let prev = join_words_by_space(s.drop_last());
        let c = s.last();
        if !is_white_space(c) {
            if prev.1 && prev.0.len() > 0 {
                (prev.0 + seq![' ', c], false)
            } else {
                (prev.0.push(c), false)
            }
        } else {
            (prev.0, true)
        }
    }
}

/// A description in canonical form: words separated by single spaces, in
/// upper case.
pub open spec fn normalized_description(s: Seq<char>) -> Seq<char> {
    unicode_uppercase(join_words_by_space(s).0)
}

pub fn normalize_description(value: &Vec<char>) -> (r: Vec<char>)
    ensures
        r@ == normalized_description(value@),
{
    let mut out: Vec<char> = Vec::new();
    let mut gap: bool = false;
    for k in 0..value.len()
        invariant
            (out@, gap) == join_words_by_space(value@.take(k as int)),
    {
        assert(value@.take(k + 1).drop_last() =~= value@.take(k as int));
        let c = value[k];
        if !is_white_space_char(c) {
            if gap && out.len() > 0 {
                out.push(' ');
            }
            out.push(c);
            gap = false;
        } else {
            gap = true;
        }
        proof {
            let prev = join_words_by_space(value@.take(k as int));
            if !is_white_space(c) && prev.1 && prev.0.len() > 0 {
                assert(out@ =~= prev.0 + seq![' ', c]);
            }
        }
    }
    assert(value@.take(value.len() as int) =~= value@);
    uppercase(&out)
}

/// A statement row read into a transaction.
#[derive(Debug, Clone, PartialEq, Eq)]
pub struct ParsedRow {
    pub booked_on: Date,
    pub description_raw: String,
    pub description_normalized: String,
    pub amount_minor: i64,
    pub balance_after_minor: Option<i64>,
    pub external_id: Option<String>,
}

/// The cell at `i`, empty when the record is shorter.
pub open spec fn cell(record: Seq<Seq<char>>, i: int) -> Seq<char> {
    if 0 <= i < record.len() {
        record[i]
    } else {
        Seq::empty()
    }
}

/// The trimmed cell of an optional column, when not blank.
pub open spec fn filled_cell(record: Seq<Seq<char>>, i: Option<usize>) -> Option<Seq<char>> {
    match i {
        Some(i) => {
            let t = trim(cell(record, i as int));
            if t.len() > 0 {
                Some(t)
            } else {
                None
            }
        },
        None => None,
    }
}

/// The day of `value` under the first of the formats (from the `n`-th on)
/// that reads it.
pub open spec fn first_date(value: Seq<char>, formats: Seq<Seq<char>>, n: int) -> Option<int>
    decreases formats.len() - n,
{
    if n >= formats.len() || n < 0 {
        None
    } else {
        match parsed_day_number(value, formats[n]) {
            Some(d) => Some(d as int),
            None => first_date(value, formats, n + 1),
        }
    }
}

/// How a row turns out, in the order the fields are read.
pub enum RowParse {
    /// No format reads the date.
    BadDate,
    /// An amount text did not parse; the text and how it failed.
    BadAmount(Seq<char>, AmountParse),
    /// A refused amount with a fixed value text and reason.
    Refused(Seq<char>, Seq<char>),
    /// The day number, signed amount and balance.
    Row(int, int, Option<int>),
}

pub open spec fn amount_parse(text: Seq<char>, f: ValueFormats) -> AmountParse {
    parse_amount(text, f.decimal_separator, f.thousands_separator, f.minor_unit_digits)
}

/// The magnitude of a parsed debit or credit value.
pub open spec fn magnitude_of(v: int) -> Option<int> {
    if v == i64::MIN {
        None
    } else if v < 0 {
        Some(-v)
    } else {
        Some(v)
    }
}

/// A split (debit/credit) amount: `Ok(magnitude or none)` or the failure.
pub open spec fn split_part(record: Seq<Seq<char>>, i: Option<usize>, f: ValueFormats) -> Result<
    Option<int>,
    RowParse,
> {
    match filled_cell(record, i) {
        None => Ok(None),
        Some(t) => match amount_parse(t, f) {
            AmountParse::Value(v) => match magnitude_of(v) {
                Some(m) => Ok(Some(m)),
                None => Err(RowParse::Refused("-9223372036854775808"@, "amount magnitude overflow"@)),
            },
            p => Err(RowParse::BadAmount(t, p)),
        },
    }
}

/// The row's signed amount, or how reading it failed.
pub open spec fn row_amount(record: Seq<Seq<char>>, cols: ResolvedColumns, f: ValueFormats) -> Result<
    int,
    RowParse,
> {
    match cols.amount {
        Some(i) => {
            let t = cell(record, i as int);
            match amount_parse(t, f) {
                AmountParse::Value(v) => Ok(v),
                p => Err(RowParse::BadAmount(t, p)),
            }
        },
        None => match split_part(record, cols.debit, f) {
            Err(e) => Err(e),
            Ok(debit) => match split_part(record, cols.credit, f) {
                Err(e) => Err(e),
                Ok(credit) => match (debit, credit) {
                    (Some(_), Some(_)) => Err(
                        RowParse::Refused("debit + credit"@, "both columns contain an amount"@),
                    ),
                    (Some(d), None) => Ok(-d),
                    (None, Some(c)) => Ok(c),
                    (None, None) => Err(
                        RowParse::Refused(Seq::empty(), "both debit and credit are empty"@),
                    ),
                },
            },
        },
    }
}

/// A signed amount column is read as written: the row's amount is the
/// amount that its cell holds, and so is the amount of the row that
/// `parse_row` returns.
pub proof fn law_signed_amount_as_written(
    record: Seq<Seq<char>>,
    cols: ResolvedColumns,
    f: ValueFormats,
    v: int,
    r: Result<ParsedRow, ImportError>,
)
    ensures
        cols.amount matches Some(i) && amount_parse(cell(record, i as int), f) == AmountParse::Value(
            v,
        ) ==> {
            &&& row_amount(record, cols, f) == Ok::<int, RowParse>(v)
            &&& (row_result_is(record, cols, f, r) && r is Ok) ==> r->Ok_0.amount_minor == v
        },
{
}

/// A split (debit/credit) mapping reads a debit as money going out and a
/// credit as money coming in: a row with only its debit cell filled, holding
/// an amount `v`, has the amount `-|v|`; one with only its credit cell
/// filled, `|v|`. So does the row that `parse_row` returns.
pub proof fn law_debit_out_credit_in(
    record: Seq<Seq<char>>,
    cols: ResolvedColumns,
    f: ValueFormats,
    v: int,
    r: Result<ParsedRow, ImportError>,
)
    requires
        cols.amount is None,
        v != i64::MIN,
    ensures
        cols.debit matches Some(i) && amount_parse(trim(cell(record, i as int)), f)
            == AmountParse::Value(v) && filled_cell(record, cols.credit) is None ==> {
            &&& row_amount(record, cols, f) == Ok::<int, RowParse>(if v < 0 { v } else { -v })
            &&& (row_result_is(record, cols, f, r) && r is Ok) ==> r->Ok_0.amount_minor <= 0
                && r->Ok_0.amount_minor == (if v < 0 { v } else { -v })
        },
        cols.credit matches Some(i) && amount_parse(trim(cell(record, i as int)), f)
            == AmountParse::Value(v) && filled_cell(record, cols.debit) is None ==> {
            &&& row_amount(record, cols, f) == Ok::<int, RowParse>(if v < 0 { -v } else { v })
            &&& (row_result_is(record, cols, f, r) && r is Ok) ==> r->Ok_0.amount_minor >= 0
                && r->Ok_0.amount_minor == (if v < 0 { -v } else { v })
        },
{
    if let Some(i) = cols.debit {
        let t = trim(cell(record, i as int));
        if amount_parse(t, f) == AmountParse::Value(v) {
            assert(t.len() > 0);
        }
    }
    if let Some(i) = cols.credit {
        let t = trim(cell(record, i as int));
        if amount_parse(t, f) == AmountParse::Value(v) {
            assert(t.len() > 0);
        }
    }
}

pub open spec fn format_texts(f: ValueFormats) -> Seq<Seq<char>> {
    f.date@.map_values(|s: String| s@)
}

/// How a record reads: its date under the first fitting format, its amount
/// (signed column, or debit as negative and credit as positive, exactly one
/// of them filled), and its balance when filled.
pub open spec fn row_parse(record: Seq<Seq<char>>, cols: ResolvedColumns, f: ValueFormats) -> RowParse {
    let date_value = trim(cell(record, cols.date as int));
    match first_date(date_value, format_texts(f), 0) {
        None => RowParse::BadDate,
        Some(day) => match row_amount(record, cols, f) {
            Err(e) => e,
            Ok(amount) => match filled_cell(record, cols.balance) {
                None => RowParse::Row(day, amount, None),
                Some(t) => match amount_parse(t, f) {
                    AmountParse::Value(b) => RowParse::Row(day, amount, Some(b)),
                    p => RowParse::BadAmount(t, p),
                },
            },
        },
    }
}

/// `e` is the money error that parsing `text` gave.
pub open spec fn money_error_is(text: Seq<char>, p: AmountParse, e: ImportError) -> bool {
    match p {
        AmountParse::ConflictingSeparators => e == ImportError::ConflictingSeparators,
        AmountParse::Invalid(reason) => e matches ImportError::InvalidMoney { value, reason: why }
            && value@ == text && why@ == reason,
        AmountParse::Value(_) => false,
    }
}

pub open spec fn opt_text(o: Option<String>) -> Option<Seq<char>> {
    match o {
        Some(s) => Some(s@),
        None => None,
    }
}

pub open spec fn opt_int(o: Option<i64>) -> Option<int> {
    match o {
        Some(v) => Some(v as int),
        None => None,
    }
}

/// `r` is what `parse_row` gives for the record.
pub open spec fn row_result_is(
    record: Seq<Seq<char>>,
    cols: ResolvedColumns,
    f: ValueFormats,
    r: Result<ParsedRow, ImportError>,
) -> bool {
    match row_parse(record, cols, f) {
        RowParse::BadDate => r matches Err(ImportError::InvalidDate { value, formats }) && value@
            == trim(cell(record, cols.date as int)) && formats@.map_values(|s: String| s@)
            == format_texts(f),
        RowParse::BadAmount(text, p) => r matches Err(e) && money_error_is(text, p, e),
        RowParse::Refused(text, reason) => r matches Err(ImportError::InvalidMoney { value, reason: why })
            && value@ == text && why@ == reason,
        RowParse::Row(day, amount, balance) => r matches Ok(row) && {
            let description = trim(cell(record, cols.description as int));
            &&& row.booked_on@ == day
            &&& row.amount_minor == amount
            &&& opt_int(row.balance_after_minor) == balance
            &&& row.description_raw@ == description
            &&& row.description_normalized@ == normalized_description(description)
            &&& opt_text(row.external_id) == filled_cell(record, cols.transaction_id)
        },
    }
}

fn cell_chars(record: &Vec<String>, i: usize) -> (r: Vec<char>)
    ensures
        r@ == cell(cell_texts(record@), i as int),
{
    if i < record.len() {
        chars_of(record[i].as_str())
    } else {
        Vec::new()
    }
}

/// The trimmed text of the cell at `i`, when there is such a cell and it is
/// not blank.
fn nonempty(record: &Vec<String>, i: Option<usize>) -> (r: Option<Vec<char>>)
    ensures
        match r {
            Some(v) => filled_cell(cell_texts(record@), i) == Some(v@),
            None => filled_cell(cell_texts(record@), i) is None,
        },
{
    match i {
        Some(i) => {
            let t = trim_chars(&cell_chars(record, i));
            if t.len() > 0 {
                Some(t)
            } else {
                None
            }
        },
        None => None,
    }
}

fn parse_amount_chars(text: &Vec<char>, f: &ValueFormats) -> (r: Result<i64, ImportError>)
    ensures
        match amount_parse(text@, *f) {
            AmountParse::Value(v) => r == Ok::<i64, ImportError>(v as i64),
            p => r matches Err(e) && money_error_is(text@, p, e),
        },
{
    let s = string_from_chars(text);
    parse_amount_minor(s.as_str(), f)
}

fn split_part_exec(record: &Vec<String>, i: Option<usize>, f: &ValueFormats) -> (r: Result<
    Option<i64>,
    ImportError,
>)
    ensures
        match split_part(cell_texts(record@), i, *f) {
            Ok(Some(m)) => r == Ok::<Option<i64>, ImportError>(Some(m as i64)),
            Ok(None) => r == Ok::<Option<i64>, ImportError>(None),
            Err(RowParse::BadAmount(t, p)) => r matches Err(e) && money_error_is(t, p, e),
            Err(RowParse::Refused(v, why)) => r matches Err(ImportError::InvalidMoney { value, reason })
                && value@ == v && reason@ == why,
            Err(_) => false,
        },
{
    match nonempty(record, i) {
        None => Ok(None),
        Some(t) => match parse_amount_chars(&t, f) {
            Ok(v) => match checked_magnitude(v) {
                Ok(m) => Ok(Some(m)),
                Err(e) => Err(e),
            },
            Err(e) => Err(e),
        },
    }
}

/// The magnitude of a debit or credit amount; that of the most negative
/// 64-bit value does not fit.
fn checked_magnitude(value: i64) -> (r: Result<i64, ImportError>)
    ensures
        match magnitude_of(value as int) {
            Some(m) => r == Ok::<i64, ImportError>(m as i64),
            None => r matches Err(ImportError::InvalidMoney { value: v, reason })
                && v@ == "-9223372036854775808"@ && reason@ == "amount magnitude overflow"@,
        },
{
    if value == i64::MIN {
        Err(
            ImportError::InvalidMoney {
                value: owned("-9223372036854775808"),
                reason: owned("amount magnitude overflow"),
            },
        )
    } else if value < 0 {
        Ok(-value)
    } else {
        Ok(value)
    }
}

/// A copy of a list of strings.
pub fn clone_texts(v: &Vec<String>) -> (r: Vec<String>)
    ensures
        r@ == v@,
{
    let mut out: Vec<String> = Vec::new();
    for k in 0..v.len()
        invariant
            out@ == v@.take(k as int),
    {
        out.push(v[k].clone());
        assert(out@ =~= v@.take(k + 1));
    }
    assert(v@.take(v@.len() as int) =~= v@);
    out
}

/// Reads one statement record with the profile's formats.
pub fn parse_row(record: &Vec<String>, columns: &ResolvedColumns, profile: &ImportProfile) -> (r:
    Result<ParsedRow, ImportError>)
    ensures
        row_result_is(cell_texts(record@), *columns, profile.formats, r),
{
    let ghost rec = cell_texts(record@);
    let f = &profile.formats;
    let date_chars = trim_chars(&cell_chars(record, columns.date));
    let date_value = string_from_chars(&date_chars);
    let mut booked_on: Option<Date> = None;
    let mut k: usize = 0;
    while k < f.date.len() && booked_on.is_none()
        invariant
            k <= f.date.len(),
            date_value@ == trim(cell(rec, columns.date as int)),
            booked_on is None ==> first_date(date_value@, format_texts(*f), 0) == first_date(
                date_value@,
                format_texts(*f),
                k as int,
            ),
            booked_on matches Some(d) ==> first_date(date_value@, format_texts(*f), 0) == Some(
                d@,
            ),
        decreases f.date.len() - k,
    {
        assert(format_texts(*f)[k as int] == f.date@[k as int]@);
        match Date::parse(date_value.as_str(), f.date[k].as_str()) {
            Some(d) => {
                let n: i32 = d.days_from_ce();
                booked_on = Some(d);
            },
            None => {},
        }
        k = k + 1;
    }
    let booked_on = match booked_on {
        Some(d) => d,
        None => {
            return Err(ImportError::InvalidDate { value: date_value, formats: clone_texts(&f.date) });
        },
    };
    let description_chars = trim_chars(&cell_chars(record, columns.description));
    let amount_minor: i64 = match columns.amount {
        Some(i) => match parse_amount_chars(&cell_chars(record, i), f) {
            Ok(v) => v,
            Err(e) => {
                return Err(e);
            },
        },
        None => {
            let debit = match split_part_exec(record, columns.debit, f) {
                Ok(v) => v,
                Err(e) => {
                    return Err(e);
                },
            };
            let credit = match split_part_exec(record, columns.credit, f) {
                Ok(v) => v,
                Err(e) => {
                    return Err(e);
                },
            };
            match (debit, credit) {
                (Some(_), Some(_)) => {
                    return Err(
                        ImportError::InvalidMoney {
                            value: owned("debit + credit"),
                            reason: owned("both columns contain an amount"),
                        },
                    );
                },
                (Some(value), None) => -value,
                (None, Some(value)) => value,
                (None, None) => {
                    return Err(
                        ImportError::InvalidMoney {
                            value: String::new(),
                            reason: owned("both debit and credit are empty"),
                        },
                    );
                },
            }
        },
    };
    let balance_after_minor: Option<i64> = match nonempty(record, columns.balance) {
        None => None,
        Some(t) => match parse_amount_chars(&t, f) {
            Ok(v) => Some(v),
            Err(e) => {
                return Err(e);
            },
        },
    };
    let external_id: Option<String> = match nonempty(record, columns.transaction_id) {
        None => None,
        Some(t) => Some(string_from_chars(&t)),
    };
    let normalized = normalize_description(&description_chars);
    Ok(
        ParsedRow {
            booked_on,
            description_raw: string_from_chars(&description_chars),
            description_normalized: string_from_chars(&normalized),
            amount_minor,
            balance_after_minor,
            external_id,
        },
    )
}

// ---------------------------------------------------------------------------
// Identity
// ---------------------------------------------------------------------------

/// The SHA-256 digest of a byte sequence.
pub uninterp spec fn sha256_digest(bytes: Seq<u8>) -> Seq<u8>;

/// `sha2::Sha256::digest`. The contract names the digest and states its
/// length.
#[verifier::external_body]
fn sha256(bytes: &[u8]) -> (r: Vec<u8>)
    ensures
        r@ == sha256_digest(bytes@),
        r@.len() == 32,
{
    sha2::Sha256::digest(bytes).to_vec()
}

pub open spec fn hex_digit(n: int) -> char {
    if n < 10 {
        ((n + 48) as u32) as char
    } else {
        ((n + 87) as u32) as char
    }
}

/// Lower-case hexadecimal text, two digits per byte.
pub open spec fn hex_lower(bytes: Seq<u8>) -> Seq<char>
    decreases bytes.len(),
{
    if bytes.len() == 0 {
        Seq::empty()
    } else {
        hex_lower(bytes.drop_last()) + seq![
            hex_digit(bytes.last() as int / 16),
            hex_digit(bytes.last() as int % 16),
        ]
    }
}

fn hex_digit_exec(n: u8) -> (r: char)
    requires
        n < 16,
    ensures
        r == hex_digit(n as int),
{
    if n < 10 {
        (n + 48) as char
    } else {
        (n + 87) as char
    }
}

/// The lower-case hexadecimal SHA-256 digest of `bytes`.
pub fn sha256_hex(bytes: &[u8]) -> (r: String)
    ensures
        r@ == hex_lower(sha256_digest(bytes@)),
{
    let digest = sha256(bytes);
    hex_text(&digest)
}

/// Bytes as lower-case hexadecimal text, two digits per byte.
pub fn hex_text(digest: &Vec<u8>) -> (r: String)
    ensures
        r@ == hex_lower(digest@),
{
    let mut out: Vec<char> = Vec::new();
    for k in 0..digest.len()
        invariant
            out@ == hex_lower(digest@.take(k as int)),
    {
        let b: u8 = digest[k];
        assert(digest@.take(k + 1).drop_last() =~= digest@.take(k as int));
        out.push(hex_digit_exec(b / 16));
        out.push(hex_digit_exec(b % 16));
        assert(out@ =~= hex_lower(digest@.take(k + 1)));
    }
    assert(digest@.take(digest@.len() as int) =~= digest@);
    string_from_chars(&out)
}

/// Decimal text of an integer, with a leading `-` when negative.
pub open spec fn signed_decimal(n: int) -> Seq<char> {
    if n < 0 {
        "-"@ + decimal((-n) as nat)
    } else {
        decimal(n as nat)
    }
}

pub fn push_signed(out: &mut Vec<char>, n: i64)
    ensures
        final(out)@ == old(out)@ + signed_decimal(n as int),
{
    if n < 0 {
        push_str(out, "-");
        let magnitude: u64 = (-(n as i128)) as u64;
        push_decimal(out, magnitude);
        assert(final(out)@ =~= old(out)@ + signed_decimal(n as int));
    } else {
        push_decimal(out, n as u64);
    }
}

/// The text that identifies a transaction within an account: the bank's
/// transaction id when there is one, otherwise a fingerprint of date,
/// signed amount, normalized description and balance.
pub open spec fn identity_text(account_key: Seq<char>, row: ParsedRow) -> Seq<char> {
    match row.external_id {
        Some(id) => "id|"@ + account_key + "|"@ + id@,
        None => "fp|"@ + account_key + "|"@ + iso_text(row.booked_on@ as i32) + "|"@
            + signed_decimal(row.amount_minor as int) + "|"@ + row.description_normalized@ + "|"@
            + match row.balance_after_minor {
            Some(b) => signed_decimal(b as int),
            None => "no-balance"@,
        },
    }
}

/// The reconciliation key of a parsed row: the hexadecimal SHA-256 of its
/// identity text.
pub fn dedup_key(account_key: &str, row: &ParsedRow) -> (r: String)
    ensures
        r@ == hex_lower(sha256_digest(vstd::utf8::encode_utf8(identity_text(account_key@, *row)))),
{
    let mut text: Vec<char> = Vec::new();
    match &row.external_id {
        Some(id) => {
            push_str(&mut text, "id|");
            push_str(&mut text, account_key);
            push_str(&mut text, "|");
            push_str(&mut text, id.as_str());
        },
        None => {
            push_str(&mut text, "fp|");
            push_str(&mut text, account_key);
            push_str(&mut text, "|");
            let date_text = row.booked_on.to_iso_string();
            push_str(&mut text, date_text.as_str());
            push_str(&mut text, "|");
            push_signed(&mut text, row.amount_minor);
            push_str(&mut text, "|");
            push_str(&mut text, row.description_normalized.as_str());
            push_str(&mut text, "|");
            match row.balance_after_minor {
                Some(b) => push_signed(&mut text, b),
                None => push_str(&mut text, "no-balance"),
            }
        },
    }
    assert(text@ =~= identity_text(account_key@, *row));
    let identity = string_from_chars(&text);
    sha256_hex(identity.as_str().as_bytes())
}

/// Rows that are the same transaction of an account.
pub open spec fn same_transaction(a: ParsedRow, b: ParsedRow) -> bool {
    match (a.external_id, b.external_id) {
        (Some(x), Some(y)) => x@ == y@,
        (None, None) => {
            &&& a.booked_on@ == b.booked_on@
            &&& a.amount_minor == b.amount_minor
            &&& a.description_normalized@ == b.description_normalized@
            &&& a.balance_after_minor == b.balance_after_minor
        },
        _ => false,
    }
}

/// Overlapping statements reconcile: two rows of one account get the same
/// reconciliation key when the bank gave both the same transaction id, or,
/// without ids, when their date, signed amount, normalized description and
/// balance after the transaction agree. With an id, nothing else matters.
pub proof fn law_same_transaction_same_key(account_key: Seq<char>, a: ParsedRow, b: ParsedRow)
    requires
        same_transaction(a, b),
    ensures
        identity_text(account_key, a) == identity_text(account_key, b),
        hex_lower(sha256_digest(vstd::utf8::encode_utf8(identity_text(account_key, a))))
            == hex_lower(sha256_digest(vstd::utf8::encode_utf8(identity_text(account_key, b)))),
{
    if a.external_id is None {
        Date::lemma_eq(a.booked_on, b.booked_on);
    }
}

} // verus!
