//! Turning a statement file's bytes into previewed or reconciled rows.

use vstd::prelude::*;
use crate::decode::{decode, decode_for_preview};
use crate::formats::{suggest_formats, suggested_formats};
use crate::headers::{suggest_columns, suggested_columns};
use crate::raw_rows::{collected, json_object_text, raw_row_json, unreadable_row_json, zipped};
use crate::profile::{ImportError, ImportProfile, import_error_text, profile_defect, validate_profile};
use crate::rows::{
    ParsedRow, ResolvedColumns, cell_texts, csv_reading, dedup_key, parse_row, read_csv,
    record_view, row_result_is, strip_bom,
};
use crate::statement::{detect_header_row, detected_header, resolve_delimiter, skip_leading_lines};
use crate::text::{chars_of, string_from_chars, trim, trimmed_chars_of};

verus! {

/// A statement inspected without writing anything.
#[derive(Debug, Clone, PartialEq, Eq)]
pub struct StatementPreview {
    pub source_name: String,
    pub headers: Vec<String>,
    pub sample_rows: Vec<Vec<String>>,
    pub suggested_profile: ImportProfile,
}

/// Outcome of importing one statement.
#[derive(Debug, Clone, PartialEq, Eq)]
pub struct ImportReport {
    pub batch_id: i64,
    pub profile_name: String,
    pub account_key: String,
    pub rows: u64,
    pub inserted: u64,
    pub duplicates: u64,
    pub errors: u64,
    pub row_errors: Vec<ImportRowError>,
    /// The same bytes were already imported with the same profile.
    pub exact_reimport: bool,
}

#[derive(Debug, Clone, PartialEq, Eq)]
pub struct ImportRowError {
    pub row_number: u64,
    pub message: String,
}

/// What a statement record became.
#[derive(Debug, Clone, PartialEq, Eq)]
pub enum RecordOutcome {
    /// A transaction and its reconciliation key.
    Parsed { row: ParsedRow, dedup_key: String },
    /// The record was read but a field was refused; holds the message.
    Invalid(String),
    /// The CSV reader refused the record; holds its message.
    Unreadable(String),
}

/// One statement record with its line number in the file (the header is
/// line `skip_rows + 1`) and its cells.
#[derive(Debug, Clone, PartialEq, Eq)]
pub struct PreparedRecord {
    pub row_number: u64,
    pub cells: Vec<String>,
    /// The record as a JSON object from header to cell, kept as it was read.
    pub raw_json: String,
    pub outcome: RecordOutcome,
}

/// A statement read with a profile: its header row and records.
#[derive(Debug, Clone, PartialEq, Eq)]
pub struct PreparedStatement {
    pub headers: Vec<String>,
    pub columns: ResolvedColumns,
    pub records: Vec<PreparedRecord>,
}

/// The line number of record `index` (0-based) after `skip_rows` preamble
/// lines and the header line, capped at `u64::MAX`.
pub open spec fn record_line(index: int, skip_rows: int) -> int {
    if index + 2 + skip_rows <= u64::MAX {
        index + 2 + skip_rows
    } else {
        u64::MAX as int
    }
}

/// `out` is what one CSV record becomes.
pub open spec fn record_prepared(
    headers: Seq<Seq<char>>,
    record: Result<Seq<Seq<char>>, Seq<char>>,
    columns: ResolvedColumns,
    profile: ImportProfile,
    account_key: Seq<char>,
    out: PreparedRecord,
) -> bool {
    match record {
        Err(m) => out.outcome matches RecordOutcome::Unreadable(msg) && msg@ == m && out.cells@.len()
            == 0 && out.raw_json@ == json_object_text(seq![("csv_error"@, m)]),
        Ok(cells) => cell_texts(out.cells@) == cells && out.raw_json@ == json_object_text(
            collected(zipped(headers, cells)),
        ) && match out.outcome {
            RecordOutcome::Parsed { row, dedup_key } => {
                &&& row_result_is(cells, columns, profile.formats, Ok::<ParsedRow, ImportError>(row))
                &&& dedup_key@ == crate::rows::hex_lower(
                    crate::rows::sha256_digest(
                        vstd::utf8::encode_utf8(crate::rows::identity_text(account_key, row)),
                    ),
                )
            },
            RecordOutcome::Invalid(msg) => exists|e: ImportError|
                row_result_is(cells, columns, profile.formats, Err::<ParsedRow, ImportError>(e))
                    && msg@ == #[trigger] import_error_text(e),
            RecordOutcome::Unreadable(_) => false,
        },
    }
}

fn line_number(index: usize, skip_rows: usize) -> (r: u64)
    ensures
        r == record_line(index as int, skip_rows as int),
{
    let total: u128 = index as u128 + 2 + skip_rows as u128;
    if total <= u64::MAX as u128 {
        total as u64
    } else {
        u64::MAX
    }
}

/// `st` holds the records of `reading` prepared with `columns`.
pub open spec fn records_prepared(
    headers: Seq<Seq<char>>,
    reading: Seq<Result<Seq<Seq<char>>, Seq<char>>>,
    columns: ResolvedColumns,
    profile: ImportProfile,
    account_key: Seq<char>,
    records: Seq<PreparedRecord>,
) -> bool {
    &&& records.len() == reading.len()
    &&& forall|i: int|
        0 <= i < reading.len() ==> {
            &&& (#[trigger] records[i]).row_number == record_line(i, profile.skip_rows as int)
            &&& record_prepared(headers, reading[i], columns, profile, account_key, records[i])
        }
}

/// `r` is what reading the statement bytes with the profile gives, step by
/// step: profile check, decoding, preamble, delimiter, CSV reading, column
/// resolution, then every record.
pub open spec fn statement_prepared(
    bytes: Seq<u8>,
    profile: ImportProfile,
    account_key: Seq<char>,
    r: Result<PreparedStatement, ImportError>,
) -> bool {
    match profile_defect(profile) {
        Some(e) => r == Err::<PreparedStatement, ImportError>(e),
        None => match crate::decode::decoding(bytes, profile.encoding@) {
            crate::decode::Decoding::UnknownEncoding => r matches Err(
                ImportError::UnknownEncoding(n),
            ) && n@ == profile.encoding@,
            crate::decode::Decoding::InvalidEncoding => r matches Err(
                ImportError::InvalidEncoding(n),
            ) && n@ == profile.encoding@,
            crate::decode::Decoding::Text(text) => {
                let tabular = crate::statement::skip_lines(text, profile.skip_rows as nat);
                match crate::statement::resolved_delimiter(profile.delimiter@, tabular) {
                    None => r == Err::<PreparedStatement, ImportError>(
                        ImportError::InvalidDelimiter,
                    ),
                    Some(c) => {
                        let reading = csv_reading(tabular, c);
                        match reading.0 {
                            Err(m) => r matches Err(ImportError::Csv(msg)) && msg@ == m,
                            Ok(headers) => match crate::rows::first_missing_column(
                                headers,
                                profile.columns,
                            ) {
                                Some(name) => r matches Err(ImportError::MissingColumn(n)) && n@
                                    == name,
                                None => r matches Ok(st) && {
                                    &&& cell_texts(st.headers@) == headers
                                    &&& crate::rows::columns_resolved(
                                        headers,
                                        profile.columns,
                                        st.columns,
                                    )
                                    &&& records_prepared(
                                        headers,
                                        reading.1,
                                        st.columns,
                                        profile,
                                        account_key,
                                        st.records@,
                                    )
                                },
                            },
                        }
                    },
                }
            },
        },
    }
}

/// Reads a statement's bytes with a profile: decodes them, skips the
/// preamble, splits the records and parses each row. Rows that fail are
/// kept with their error so nothing is silently dropped.
pub fn prepare_statement(bytes: &[u8], profile: &ImportProfile, account_key: &str) -> (r: Result<
    PreparedStatement,
    ImportError,
>)
    ensures
        statement_prepared(bytes@, *profile, account_key@, r),
{
    match validate_profile(profile) {
        Ok(()) => {},
        Err(e) => {
            return Err(e);
        },
    }
    let decoded = match decode(bytes, profile.encoding.as_str()) {
        Ok(text) => text,
        Err(e) => {
            return Err(e);
        },
    };
    let tabular = skip_leading_lines(&chars_of(decoded.as_str()), profile.skip_rows);
    let delimiter = match resolve_delimiter(profile.delimiter.as_str(), &tabular) {
        Ok(d) => d,
        Err(e) => {
            return Err(e);
        },
    };
    let tabular_text = string_from_chars(&tabular);
    let table = read_csv(tabular_text.as_str(), delimiter);
    let headers = match table.headers {
        Ok(h) => h,
        Err(m) => {
            return Err(ImportError::Csv(m));
        },
    };
    let columns = match ResolvedColumns::new(headers.as_slice(), &profile.columns) {
        Ok(c) => c,
        Err(e) => {
            return Err(e);
        },
    };
    let ghost reading = csv_reading(tabular@, delimiter);
    let mut records: Vec<PreparedRecord> = Vec::new();
    let n = table.records.len();
    for i in 0..n
        invariant
            n == table.records@.len(),
            crate::rows::table_is(table, reading),
            reading.0 == Ok::<Seq<Seq<char>>, Seq<char>>(cell_texts(headers@)),
            records@.len() == i,
            forall|j: int|
                0 <= j < i ==> {
                    &&& (#[trigger] records@[j]).row_number == record_line(
                        j,
                        profile.skip_rows as int,
                    )
                    &&& record_prepared(
                        cell_texts(headers@),
                        reading.1[j],
                        columns,
                        *profile,
                        account_key@,
                        records@[j],
                    )
                },
    {
        assert(record_view(table.records@[i as int]) == reading.1[i as int]);
        let row_number = line_number(i, profile.skip_rows);
        let prepared = match &table.records[i] {
            Err(m) => PreparedRecord {
                row_number,
                cells: Vec::new(),
                raw_json: unreadable_row_json(m),
                outcome: RecordOutcome::Unreadable(m.clone()),
            },
            Ok(cells) => {
                let outcome = match parse_row(cells, &columns, profile) {
                    Ok(row) => {
                        let key = dedup_key(account_key, &row);
                        RecordOutcome::Parsed { row, dedup_key: key }
                    },
                    Err(e) => {
                        let message = e.to_text();
                        RecordOutcome::Invalid(message)
                    },
                };
                let raw_json = raw_row_json(&headers, cells);
                PreparedRecord {
                    row_number,
                    cells: crate::rows::clone_texts(cells),
                    raw_json,
                    outcome,
                }
            },
        };
        records.push(prepared);
    }
    Ok(PreparedStatement { headers, columns, records })
}

/// The header texts shown in a preview: trimmed, byte-order mark removed.
pub open spec fn clean_headers(h: Seq<Seq<char>>) -> Seq<Seq<char>> {
    h.map_values(|x: Seq<char>| strip_bom(trim(x)))
}

/// The first error among the first `n` records, if any.
pub open spec fn first_record_error(records: Seq<Result<Seq<Seq<char>>, Seq<char>>>, n: int) -> Option<
    Seq<char>,
>
    decreases n,
{
    if n <= 0 {
        None
    } else {
        match first_record_error(records, n - 1) {
            Some(m) => Some(m),
            None => match records[n - 1] {
                Err(m) => Some(m),
                Ok(_) => None,
            },
        }
    }
}

/// The name shown for a statement file.
pub open spec fn source_name_for(file_name: Option<Seq<char>>) -> Seq<char> {
    match file_name {
        Some(n) => n,
        None => "statement.csv"@,
    }
}

/// The profile name suggested for a statement file: its stem when not blank.
pub open spec fn profile_name_for(stem: Option<Seq<char>>) -> Seq<char> {
    match stem {
        Some(s) => if trim(s).len() > 0 {
            s
        } else {
            "bank-statement"@
        },
        None => "bank-statement"@,
    }
}

pub open spec fn opt_view(o: Option<&str>) -> Option<Seq<char>> {
    match o {
        Some(s) => Some(s@),
        None => None,
    }
}

/// `r` is the preview of the statement bytes.
pub open spec fn preview_is(
    bytes: Seq<u8>,
    file_name: Option<Seq<char>>,
    file_stem: Option<Seq<char>>,
    r: Result<StatementPreview, ImportError>,
) -> bool {
    let utf8 = vstd::utf8::valid_utf8(bytes);
    let decoded = if utf8 {
        crate::decode::Decoding::Text(vstd::utf8::decode_utf8(bytes))
    } else {
        crate::decode::decoding(bytes, "windows-1254"@)
    };
    match decoded {
        crate::decode::Decoding::UnknownEncoding => r matches Err(ImportError::UnknownEncoding(n))
            && n@ == "windows-1254"@,
        crate::decode::Decoding::InvalidEncoding => r matches Err(ImportError::InvalidEncoding(n))
            && n@ == "windows-1254"@,
        crate::decode::Decoding::Text(text) => match detected_header(text) {
            None => r == Err::<StatementPreview, ImportError>(ImportError::InvalidDelimiter),
            Some((line, c)) => {
                let tabular = crate::statement::skip_lines(text, line as nat);
                let reading = csv_reading(tabular, c as u8);
                let sample_count = if reading.1.len() <= 8 {
                    reading.1.len() as int
                } else {
                    8
                };
                match reading.0 {
                    Err(m) => r matches Err(ImportError::Csv(msg)) && msg@ == m,
                    Ok(raw_headers) => match first_record_error(reading.1, sample_count) {
                        Some(m) => r matches Err(ImportError::Csv(msg)) && msg@ == m,
                        None => r matches Ok(p) && {
                            &&& p.source_name@ == source_name_for(file_name)
                            &&& cell_texts(p.headers@) == clean_headers(raw_headers)
                            &&& p.sample_rows@.len() == sample_count
                            &&& forall|i: int|
                                0 <= i < sample_count ==> Ok::<Seq<Seq<char>>, Seq<char>>(
                                    cell_texts((#[trigger] p.sample_rows@[i])@),
                                ) == reading.1[i]
                            &&& p.suggested_profile.name@ == profile_name_for(file_stem)
                            &&& p.suggested_profile.delimiter@ == seq![c]
                            &&& p.suggested_profile.encoding@ == (if utf8 {
                                "utf-8"@
                            } else {
                                "windows-1254"@
                            })
                            &&& p.suggested_profile.skip_rows == line
                            &&& suggested_columns(p.headers@, p.suggested_profile.columns)
                            &&& suggested_formats(
                                p.headers@,
                                p.sample_rows@,
                                p.suggested_profile.columns,
                                p.suggested_profile.formats,
                            )
                        },
                    },
                }
            },
        },
    }
}

/// Inspects a statement without writing any financial data: detects the
/// encoding, preamble rows, delimiter, Turkish/English column names, date
/// formats and decimal conventions, and returns up to eight sample rows.
/// Every suggestion remains editable.
pub fn preview_statement(bytes: &[u8], file_name: Option<&str>, file_stem: Option<&str>) -> (r:
    Result<StatementPreview, ImportError>)
    ensures
        preview_is(bytes@, opt_view(file_name), opt_view(file_stem), r),
{
    let (encoding, decoded) = match decode_for_preview(bytes) {
        Ok(pair) => pair,
        Err(e) => {
            return Err(e);
        },
    };
    let text = chars_of(decoded.as_str());
    let (skip_rows, delimiter) = match detect_header_row(&text) {
        Ok(found) => found,
        Err(e) => {
            return Err(e);
        },
    };
    let tabular = skip_leading_lines(&text, skip_rows);
    let tabular_text = string_from_chars(&tabular);
    let table = read_csv(tabular_text.as_str(), delimiter);
    let ghost reading = csv_reading(tabular@, delimiter);
    let raw_headers = match table.headers {
        Ok(h) => h,
        Err(m) => {
            return Err(ImportError::Csv(m));
        },
    };
    let mut headers: Vec<String> = Vec::new();
    for k in 0..raw_headers.len()
        invariant
            cell_texts(headers@) == clean_headers(cell_texts(raw_headers@)).take(k as int),
    {
        let h = crate::rows::strip_bom_chars(&trimmed_chars_of(raw_headers[k].as_str()));
        let ghost before = cell_texts(headers@);
        headers.push(string_from_chars(&h));
        assert(cell_texts(raw_headers@)[k as int] == raw_headers@[k as int]@);
        assert(cell_texts(headers@) =~= before.push(h@));
        assert(cell_texts(headers@) =~= clean_headers(cell_texts(raw_headers@)).take(k + 1));
    }
    assert(clean_headers(cell_texts(raw_headers@)).take(raw_headers@.len() as int) =~= clean_headers(
        cell_texts(raw_headers@),
    ));
    let sample_count: usize = if table.records.len() <= 8 {
        table.records.len()
    } else {
        8
    };
    let mut sample_rows: Vec<Vec<String>> = Vec::new();
    let mut error: Option<String> = None;
    let mut k: usize = 0;
    while k < sample_count && error.is_none()
        invariant
            sample_count <= table.records@.len(),
            sample_count == (if reading.1.len() <= 8 {
                reading.1.len() as int
            } else {
                8
            }),
            crate::rows::table_is(table, reading),
            k <= sample_count,
            error is None ==> first_record_error(reading.1, k as int) is None,
            error is None ==> sample_rows@.len() == k,
            error is None ==> forall|i: int|
                0 <= i < k ==> Ok::<Seq<Seq<char>>, Seq<char>>(
                    cell_texts((#[trigger] sample_rows@[i])@),
                ) == reading.1[i],
            error matches Some(m) ==> first_record_error(reading.1, sample_count as int) == Some(
                m@,
            ),
        decreases sample_count - k,
    {
        assert(record_view(table.records@[k as int]) == reading.1[k as int]);
        match &table.records[k] {
            Ok(cells) => {
                sample_rows.push(crate::rows::clone_texts(cells));
            },
            Err(m) => {
                proof {
                    lemma_first_error_stable(reading.1, k + 1, sample_count as int);
                }
                error = Some(m.clone());
            },
        }
        k = k + 1;
    }
    if let Some(m) = error {
        return Err(ImportError::Csv(m));
    }
    assert(k == sample_count);
    let columns = suggest_columns(headers.as_slice());
    let formats = suggest_formats(headers.as_slice(), sample_rows.as_slice(), &columns);
    let mut delimiter_text: Vec<char> = Vec::new();
    delimiter_text.push(delimiter as char);
    let source_name = match file_name {
        Some(n) => crate::profile::owned(n),
        None => crate::profile::owned("statement.csv"),
    };
    let name = match file_stem {
        Some(s) => if trimmed_chars_of(s).len() > 0 {
            crate::profile::owned(s)
        } else {
            crate::profile::owned("bank-statement")
        },
        None => crate::profile::owned("bank-statement"),
    };
    Ok(
        StatementPreview {
            source_name,
            headers,
            sample_rows,
            suggested_profile: ImportProfile {
                name,
                delimiter: string_from_chars(&delimiter_text),
                encoding,
                skip_rows,
                columns,
                formats,
            },
        },
    )
}

proof fn lemma_first_error_stable(
    records: Seq<Result<Seq<Seq<char>>, Seq<char>>>,
    k: int,
    n: int,
)
    requires
        0 <= k <= n,
        first_record_error(records, k) is Some,
    ensures
        first_record_error(records, n) == first_record_error(records, k),
    decreases n - k,
{
    if k < n {
        lemma_first_error_stable(records, k, n - 1);
    }
}


// ---------------------------------------------------------------------------
// Counting an import
// ---------------------------------------------------------------------------

/// Every record is counted once: inserted, a duplicate, or an error.
pub open spec fn counts_add_up(r: ImportReport) -> bool {
    r.inserted + r.duplicates + r.errors == r.rows
}

impl ImportReport {
    /// The report of a new batch, before any record is counted.
    pub fn started(batch_id: i64, profile_name: String, account_key: String) -> (r: ImportReport)
        ensures
            r.batch_id == batch_id,
            r.profile_name == profile_name,
            r.account_key == account_key,
            r.rows == 0,
            r.inserted == 0,
            r.duplicates == 0,
            r.errors == 0,
            r.row_errors@.len() == 0,
            !r.exact_reimport,
            counts_add_up(r),
    {
        ImportReport {
            batch_id,
            profile_name,
            account_key,
            rows: 0,
            inserted: 0,
            duplicates: 0,
            errors: 0,
            row_errors: Vec::new(),
            exact_reimport: false,
        }
    }

    /// Counts one record of the batch. A parsed record counts as inserted
    /// when the ledger did not hold its reconciliation key yet
    /// (`newly_stored`), otherwise as a duplicate; a refused record counts as
    /// an error and is listed with its line number and message.
    pub fn count_record(&mut self, record: &PreparedRecord, newly_stored: bool)
        requires
            old(self).rows < u64::MAX,
            record.outcome is Parsed && newly_stored ==> old(self).inserted < u64::MAX,
            record.outcome is Parsed && !newly_stored ==> old(self).duplicates < u64::MAX,
            !(record.outcome is Parsed) ==> old(self).errors < u64::MAX,
        ensures
            final(self).rows == old(self).rows + 1,
            counts_add_up(*old(self)) ==> counts_add_up(*final(self)),
            final(self).batch_id == old(self).batch_id,
            final(self).profile_name == old(self).profile_name,
            final(self).account_key == old(self).account_key,
            final(self).exact_reimport == old(self).exact_reimport,
            match record.outcome {
                RecordOutcome::Parsed { .. } => {
                    &&& final(self).inserted == old(self).inserted + (if newly_stored {
                        1int
                    } else {
                        0
                    })
                    &&& final(self).duplicates == old(self).duplicates + (if newly_stored {
                        0int
                    } else {
                        1
                    })
                    &&& final(self).errors == old(self).errors
                    &&& final(self).row_errors@ == old(self).row_errors@
                },
                RecordOutcome::Invalid(m) | RecordOutcome::Unreadable(m) => {
                    &&& final(self).inserted == old(self).inserted
                    &&& final(self).duplicates == old(self).duplicates
                    &&& final(self).errors == old(self).errors + 1
                    &&& final(self).row_errors@.len() == old(self).row_errors@.len() + 1
                    &&& final(self).row_errors@.drop_last() == old(self).row_errors@
                    &&& final(self).row_errors@.last().row_number == record.row_number
                    &&& final(self).row_errors@.last().message == m
                },
            },
    {
        self.rows = self.rows + 1;
        match &record.outcome {
            RecordOutcome::Parsed { .. } => {
                if newly_stored {
                    self.inserted = self.inserted + 1;
                } else {
                    self.duplicates = self.duplicates + 1;
                }
            },
            RecordOutcome::Invalid(m) | RecordOutcome::Unreadable(m) => {
                self.errors = self.errors + 1;
                self.row_errors.push(
                    ImportRowError { row_number: record.row_number, message: m.clone() },
                );
                assert(self.row_errors@.drop_last() =~= old(self).row_errors@);
            },
        }
    }
}

/// The report for a statement whose bytes were already imported with the
/// same profile: nothing new is inserted, and what was inserted or found
/// then counts as duplicates now.
pub fn reimport_report(
    batch_id: i64,
    profile_name: String,
    account_key: String,
    rows: u64,
    inserted: u64,
    duplicates: u64,
    errors: u64,
    row_errors: Vec<ImportRowError>,
) -> (r: ImportReport)
    requires
        inserted + duplicates <= u64::MAX,
    ensures
        r.exact_reimport,
        r.inserted == 0,
        r.duplicates == inserted + duplicates,
        r.batch_id == batch_id,
        r.profile_name == profile_name,
        r.account_key == account_key,
        r.rows == rows,
        r.errors == errors,
        r.row_errors@ == row_errors@,
        rows == inserted + duplicates + errors ==> counts_add_up(r),
{
    ImportReport {
        batch_id,
        profile_name,
        account_key,
        rows,
        inserted: 0,
        duplicates: inserted + duplicates,
        errors,
        row_errors,
        exact_reimport: true,
    }
}


// ---------------------------------------------------------------------------
// Reading the same statement again
// ---------------------------------------------------------------------------

/// Two prepared records are alike: same line, same kind of outcome, and for
/// parsed rows the same reconciliation key.
pub open spec fn same_record(x: PreparedRecord, y: PreparedRecord) -> bool {
    &&& x.row_number == y.row_number
    &&& match (x.outcome, y.outcome) {
        (RecordOutcome::Parsed { dedup_key: k1, .. }, RecordOutcome::Parsed { dedup_key: k2, .. }) =>
            k1@ == k2@,
        (RecordOutcome::Invalid(_), RecordOutcome::Invalid(_)) => true,
        (RecordOutcome::Unreadable(m1), RecordOutcome::Unreadable(m2)) => m1@ == m2@,
        _ => false,
    }
}

proof fn lemma_columns_unique(
    headers: Seq<Seq<char>>,
    m: crate::profile::ColumnMapping,
    a: ResolvedColumns,
    b: ResolvedColumns,
)
    requires
        crate::rows::columns_resolved(headers, m, a),
        crate::rows::columns_resolved(headers, m, b),
    ensures
        a == b,
{
    assert(crate::rows::opt_index(a.amount) == crate::rows::opt_index(b.amount));
    assert(a.amount == b.amount);
    assert(crate::rows::opt_index(a.debit) == crate::rows::opt_index(b.debit));
    assert(a.debit == b.debit);
    assert(crate::rows::opt_index(a.credit) == crate::rows::opt_index(b.credit));
    assert(a.credit == b.credit);
    assert(crate::rows::opt_index(a.balance) == crate::rows::opt_index(b.balance));
    assert(a.balance == b.balance);
    assert(crate::rows::opt_index(a.transaction_id) == crate::rows::opt_index(b.transaction_id));
    assert(a.transaction_id == b.transaction_id);
}

proof fn lemma_same_cells_same_record(
    headers: Seq<Seq<char>>,
    record: Result<Seq<Seq<char>>, Seq<char>>,
    columns: ResolvedColumns,
    profile: ImportProfile,
    account_key: Seq<char>,
    x: PreparedRecord,
    y: PreparedRecord,
)
    requires
        x.row_number == y.row_number,
        record_prepared(headers, record, columns, profile, account_key, x),
        record_prepared(headers, record, columns, profile, account_key, y),
    ensures
        same_record(x, y),
{
    match record {
        Err(m) => {},
        Ok(cells) => {
            match (x.outcome, y.outcome) {
                (
                    RecordOutcome::Parsed { row: r1, dedup_key: k1 },
                    RecordOutcome::Parsed { row: r2, dedup_key: k2 },
                ) => {
                    assert(crate::rows::opt_int(r1.balance_after_minor) == crate::rows::opt_int(
                        r2.balance_after_minor,
                    ));
                    assert(r1.balance_after_minor == r2.balance_after_minor);
                    assert(crate::rows::opt_text(r1.external_id) == crate::rows::opt_text(
                        r2.external_id,
                    ));
                    assert(crate::rows::identity_text(account_key, r1)
                        == crate::rows::identity_text(account_key, r2));
                },
                _ => {},
            }
        },
    }
}

/// Reading a statement is deterministic: the same bytes read with the same
/// profile for the same account give the same outcome, record by record,
/// with the same reconciliation keys. This is what lets a corrected profile
/// read a file again without duplicating the rows that already went in.
pub proof fn law_same_statement_same_keys(
    bytes: Seq<u8>,
    profile: ImportProfile,
    account_key: Seq<char>,
    r1: Result<PreparedStatement, ImportError>,
    r2: Result<PreparedStatement, ImportError>,
)
    requires
        statement_prepared(bytes, profile, account_key, r1),
        statement_prepared(bytes, profile, account_key, r2),
    ensures
        r1 is Ok <==> r2 is Ok,
        r1 matches Ok(a) ==> (r2 matches Ok(b) && a.records@.len() == b.records@.len() && forall|
            i: int,
        | 0 <= i < a.records@.len() ==> same_record(#[trigger] a.records@[i], b.records@[i])),
{
    if r1 is Ok && r2 is Ok {
        let a = r1->Ok_0;
        let b = r2->Ok_0;
        let text = match crate::decode::decoding(bytes, profile.encoding@) {
            crate::decode::Decoding::Text(t) => t,
            _ => Seq::empty(),
        };
        let tabular = crate::statement::skip_lines(text, profile.skip_rows as nat);
        let c = crate::statement::resolved_delimiter(profile.delimiter@, tabular)->0;
        let reading = csv_reading(tabular, c);
        let headers = reading.0->Ok_0;
        lemma_columns_unique(headers, profile.columns, a.columns, b.columns);
        assert forall|i: int| 0 <= i < a.records@.len() implies same_record(
            #[trigger] a.records@[i],
            b.records@[i],
        ) by {
            lemma_same_cells_same_record(
                headers,
                reading.1[i],
                a.columns,
                profile,
                account_key,
                a.records@[i],
                b.records@[i],
            );
        }
    }
}

} // verus!
