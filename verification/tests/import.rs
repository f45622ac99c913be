use std::collections::{HashMap, HashSet};
use runwayclock::calendar::Date;
use runwayclock::decode::{decode, decode_for_preview};
use runwayclock::headers::suggest_columns;
use runwayclock::import::{
    prepare_statement, preview_statement, reimport_report, ImportReport, RecordOutcome,
};
use runwayclock::profile::{
    profile_matches_headers, validate_profile, ColumnMapping, ImportError, ImportProfile,
    ValueFormats,
};
use runwayclock::raw_rows::{raw_row_json, unreadable_row_json};
use runwayclock::rows::{dedup_key, sha256_hex, ParsedRow};
use runwayclock::statement::{detect_header_row, skip_leading_lines};

fn date(value: &str) -> Date {
    Date::parse(value, "%Y-%m-%d").unwrap()
}

fn synthetic_profile() -> ImportProfile {
    ImportProfile {
        name: "synthetic-bank".to_owned(),
        delimiter: ";".to_owned(),
        encoding: "utf-8".to_owned(),
        skip_rows: 0,
        columns: ColumnMapping {
            date: "Tarih".to_owned(),
            description: "Açıklama".to_owned(),
            amount: Some("İşlem Tutarı".to_owned()),
            debit: None,
            credit: None,
            balance: Some("Bakiye".to_owned()),
            transaction_id: Some("İşlem No".to_owned()),
        },
        formats: ValueFormats::default(),
    }
}

const PREAMBLE: &str = "Hesap Özeti\nMüşteri: Synthetic\n\n";

const STATEMENT: &str = "Tarih;Açıklama;İşlem Tutarı;Bakiye;İşlem No\n01.08.2026;MARKET  ALIŞVERİŞ;-1.234,56;98.765,44;P-1\n02.08.2026;Maaş;30.000,00;128.765,44;P-2\n03.08.2026;KİRA;-15.000,00;113.765,44;P-3\n04.08.2026;Elektrik;-850,25;112.915,19;P-4\n05.08.2026;Market;-420,00;112.495,19;P-5\n06.08.2026;Burs;6.500,00;118.995,19;P-6\n07.08.2026;İade;120,00;119.115,19;P-7\n08.08.2026;Kafe;-75,50;119.039,69;P-8\n";

const OVERLAP: &str = "Tarih;Açıklama;İşlem Tutarı;Bakiye;İşlem No\n07.08.2026;İade;120,00;119.115,19;P-7\n08.08.2026;Kafe;-75,50;119.039,69;P-8\n09.08.2026;Eczane;-39,69;119.000,00;P-9\n";

fn with_preamble(statement: &str) -> String {
    format!("{PREAMBLE}{statement}")
}

/// A ledger that keeps what the database would: the reconciliation keys of
/// each account and the batches by file and profile digest.
#[derive(Default)]
struct Ledger {
    keys: HashSet<(String, String)>,
    batches: HashMap<(String, String, String), ImportReport>,
}

impl Ledger {
    fn import(&mut self, bytes: &[u8], profile: &ImportProfile, account: &str) -> ImportReport {
        let content = sha256_hex(bytes);
        let profile_digest = sha256_hex(format!("{profile:?}").as_bytes());
        let batch = (account.to_owned(), content, profile_digest);
        if let Some(r) = self.batches.get(&batch) {
            return reimport_report(
                r.batch_id,
                profile.name.clone(),
                account.to_owned(),
                r.rows,
                r.inserted,
                r.duplicates,
                r.errors,
                r.row_errors.clone(),
            );
        }
        let prepared = prepare_statement(bytes, profile, account).unwrap();
        let batch_id = self.batches.len() as i64 + 1;
        let mut report = ImportReport::started(batch_id, profile.name.clone(), account.to_owned());
        for record in &prepared.records {
            let new = match &record.outcome {
                RecordOutcome::Parsed { dedup_key, .. } => {
                    self.keys.insert((account.to_owned(), dedup_key.clone()))
                }
                _ => false,
            };
            report.count_record(record, new);
        }
        self.batches.insert(batch, report.clone());
        report
    }
}

#[test]
fn skip_rows_applies_before_the_csv_header() {
    let source = "Generated by Synthetic Bank\nTarih;Açıklama;İşlem Tutarı;Bakiye;İşlem No\n01.08.2026;MARKET;-10,00;990,00;P-1\n";
    let mut profile = synthetic_profile();
    profile.skip_rows = 1;
    let prepared = prepare_statement(source.as_bytes(), &profile, "checking-try").unwrap();
    let mut report = ImportReport::started(1, profile.name.clone(), "checking-try".to_owned());
    for record in &prepared.records {
        report.count_record(record, true);
    }
    assert_eq!(report.inserted, 1);
    assert_eq!(report.errors, 0);
}

#[test]
fn preview_suggests_turkish_mapping_and_formats_without_writing() {
    let preview = preview_statement(STATEMENT.as_bytes(), Some("turkish-bank.csv"), Some("turkish-bank"))
        .unwrap();
    assert_eq!(preview.suggested_profile.delimiter, ";");
    assert_eq!(preview.suggested_profile.encoding, "utf-8");
    assert_eq!(preview.suggested_profile.columns.date, "Tarih");
    assert_eq!(preview.suggested_profile.columns.description, "Açıklama");
    assert_eq!(preview.suggested_profile.columns.amount.as_deref(), Some("İşlem Tutarı"));
    assert_eq!(preview.suggested_profile.formats.decimal_separator, ',');
    assert_eq!(preview.sample_rows.len(), 8);
}

#[test]
fn preview_finds_the_header_after_a_preamble() {
    let source = with_preamble(STATEMENT);
    let preview =
        preview_statement(source.as_bytes(), Some("turkish-bank.csv"), Some("turkish-bank"))
            .unwrap();
    assert_eq!(preview.source_name, "turkish-bank.csv");
    assert_eq!(preview.suggested_profile.name, "turkish-bank");
    assert_eq!(preview.suggested_profile.delimiter, ";");
    assert_eq!(preview.suggested_profile.encoding, "utf-8");
    assert_eq!(preview.suggested_profile.skip_rows, 3);
    assert_eq!(preview.suggested_profile.columns.date, "Tarih");
    assert_eq!(preview.suggested_profile.columns.description, "Açıklama");
    assert_eq!(preview.suggested_profile.columns.amount.as_deref(), Some("İşlem Tutarı"));
    assert_eq!(preview.suggested_profile.columns.balance.as_deref(), Some("Bakiye"));
    assert_eq!(preview.suggested_profile.formats.decimal_separator, ',');
    assert_eq!(preview.suggested_profile.formats.thousands_separator, Some('.'));
    assert_eq!(preview.sample_rows.len(), 8);
    let unnamed = preview_statement(source.as_bytes(), None, Some("  ")).unwrap();
    assert_eq!(unnamed.source_name, "statement.csv");
    assert_eq!(unnamed.suggested_profile.name, "bank-statement");
}

#[test]
fn statement_rows_are_parsed() {
    let mut profile = synthetic_profile();
    profile.skip_rows = 3;
    assert!(validate_profile(&profile).is_ok());
    let source = with_preamble(STATEMENT);
    let prepared = prepare_statement(source.as_bytes(), &profile, "checking-try").unwrap();
    assert_eq!(prepared.records.len(), 8);
    assert_eq!(prepared.records[0].row_number, 5);
    match &prepared.records[0].outcome {
        RecordOutcome::Parsed { row, dedup_key } => {
            assert_eq!(row.booked_on, date("2026-08-01"));
            assert_eq!(row.amount_minor, -123_456);
            assert_eq!(row.balance_after_minor, Some(9_876_544));
            assert_eq!(row.description_raw, "MARKET  ALIŞVERİŞ");
            assert_eq!(row.description_normalized, "MARKET ALIŞVERİŞ");
            assert_eq!(row.external_id.as_deref(), Some("P-1"));
            assert_eq!(dedup_key.len(), 64);
            assert_eq!(dedup_key, &sha256_hex("id|checking-try|P-1".as_bytes()));
        }
        other => panic!("unexpected outcome {other:?}"),
    }
    let again = prepare_statement(source.as_bytes(), &profile, "checking-try").unwrap();
    assert_eq!(again, prepared);
}

#[test]
fn exact_reimport_inserts_zero_transactions() {
    let mut ledger = Ledger::default();
    let profile = synthetic_profile();
    let first = ledger.import(STATEMENT.as_bytes(), &profile, "checking-try");
    let second = ledger.import(STATEMENT.as_bytes(), &profile, "checking-try");
    assert_eq!(first.inserted, 8);
    assert_eq!(first.errors, 0);
    assert_eq!(second.inserted, 0);
    assert_eq!(second.duplicates, 8);
    assert!(second.exact_reimport);
    assert_eq!(ledger.keys.len(), 8);
}

#[test]
fn saved_profile_shape_matches_later_statement_headers() {
    let profile = synthetic_profile();
    let preview = preview_statement(OVERLAP.as_bytes(), Some("overlap.csv"), Some("overlap")).unwrap();
    assert!(profile_matches_headers(&profile, &preview.headers));
}

#[test]
fn overlapping_statement_rows_are_reconciled() {
    let mut ledger = Ledger::default();
    let profile = synthetic_profile();
    ledger.import(STATEMENT.as_bytes(), &profile, "checking-try");
    let overlap = ledger.import(OVERLAP.as_bytes(), &profile, "checking-try");
    assert_eq!(overlap.inserted, 1);
    assert_eq!(overlap.duplicates, 2);
}

#[test]
fn overlapping_rows_reconcile_without_bank_transaction_ids() {
    let mut ledger = Ledger::default();
    let mut profile = synthetic_profile();
    profile.columns.transaction_id = None;
    ledger.import(STATEMENT.as_bytes(), &profile, "checking-try");
    let overlap = ledger.import(OVERLAP.as_bytes(), &profile, "checking-try");
    assert_eq!(overlap.inserted, 1);
    assert_eq!(overlap.duplicates, 2);
}

#[test]
fn corrected_profile_retries_the_same_file_without_duplicates() {
    let mut ledger = Ledger::default();
    let mut incorrect = synthetic_profile();
    incorrect.formats.date = vec!["%Y/%m/%d".to_owned()];
    let failed = ledger.import(STATEMENT.as_bytes(), &incorrect, "checking-try");
    assert_eq!(failed.inserted, 0);
    assert_eq!(failed.errors, 8);
    assert_eq!(failed.row_errors.len(), 8);

    let corrected = ledger.import(STATEMENT.as_bytes(), &synthetic_profile(), "checking-try");
    assert_eq!(corrected.inserted, 8);
    assert_eq!(corrected.errors, 0);
    assert!(!corrected.exact_reimport);

    let exact = ledger.import(STATEMENT.as_bytes(), &synthetic_profile(), "checking-try");
    assert!(exact.exact_reimport);
    assert_eq!(exact.inserted, 0);
}

#[test]
fn refused_rows_are_kept_with_their_error() {
    let source = "Tarih;Açıklama;İşlem Tutarı\n2026/08/01;A;-1,00\n01.08.2026;B;abc\n02.08.2026;C;5,00\n";
    let mut profile = synthetic_profile();
    profile.columns.balance = None;
    profile.columns.transaction_id = None;
    let prepared = prepare_statement(source.as_bytes(), &profile, "checking-try").unwrap();
    assert_eq!(
        prepared.records[0].outcome,
        RecordOutcome::Invalid(
            "invalid date \"2026/08/01\"; expected one of [\"%d.%m.%Y\", \"%d/%m/%Y\", \"%Y-%m-%d\"]"
                .to_owned()
        )
    );
    assert_eq!(
        prepared.records[1].outcome,
        RecordOutcome::Invalid("invalid money value \"abc\": no digits".to_owned())
    );
    let mut report = ImportReport::started(3, profile.name.clone(), "checking-try".to_owned());
    for record in &prepared.records {
        report.count_record(record, false);
    }
    assert_eq!(report.rows, 3);
    assert_eq!(report.errors, 2);
    assert_eq!(report.duplicates, 1);
    assert_eq!(report.row_errors[0].row_number, 2);
    assert_eq!(report.row_errors[1].row_number, 3);
    assert_eq!(
        prepared.records[2].raw_json,
        "{\"Açıklama\":\"C\",\"Tarih\":\"02.08.2026\",\"İşlem Tutarı\":\"5,00\"}"
    );
}

#[test]
fn profile_errors_come_before_reading() {
    let mut profile = synthetic_profile();
    profile.columns.debit = Some("Borç".to_owned());
    assert_eq!(
        prepare_statement(STATEMENT.as_bytes(), &profile, "k").unwrap_err(),
        ImportError::AmbiguousAmountMapping
    );
    let mut profile = synthetic_profile();
    profile.columns.date = "Date".to_owned();
    assert_eq!(
        prepare_statement(STATEMENT.as_bytes(), &profile, "k").unwrap_err(),
        ImportError::MissingColumn("Date".to_owned())
    );
    let mut profile = synthetic_profile();
    profile.encoding = "klingon".to_owned();
    assert_eq!(
        prepare_statement(STATEMENT.as_bytes(), &profile, "k").unwrap_err(),
        ImportError::UnknownEncoding("klingon".to_owned())
    );
}

#[test]
fn raw_rows_are_json_objects_by_header() {
    let headers = vec!["b".to_owned(), "a".to_owned(), "b".to_owned()];
    let cells = vec!["1".to_owned(), "say \"x\"".to_owned(), "3".to_owned(), "extra".to_owned()];
    assert_eq!(raw_row_json(&headers, &cells), "{\"a\":\"say \\\"x\\\"\",\"b\":\"3\"}");
    assert_eq!(unreadable_row_json(&"bad record".to_owned()), "{\"csv_error\":\"bad record\"}");
}

#[test]
fn digests_are_lower_case_hex_sha256() {
    assert_eq!(
        sha256_hex(b"abc"),
        "ba7816bf8f01cfea414140de5dae2223b00361a396177a9cb410ff61f20015ad"
    );
    assert_eq!(
        sha256_hex(b""),
        "e3b0c44298fc1c149afbf4c8996fb92427ae41e4649b934ca495991b7852b855"
    );
}

#[test]
fn windows_1254_statements_are_decoded() {
    let bytes = [0x54, 0x61, 0x72, 0x69, 0x68, 0x3b, 0xdd, 0xfe, 0xf0];
    assert_eq!(decode(&bytes, "windows-1254").unwrap(), "Tarih;İşğ");
    assert_eq!(
        decode(&bytes, "utf-8").unwrap_err(),
        ImportError::InvalidEncoding("utf-8".to_owned())
    );
    assert_eq!(
        decode_for_preview(&bytes).unwrap(),
        ("windows-1254".to_owned(), "Tarih;İşğ".to_owned())
    );
    assert_eq!(
        decode_for_preview("Tarih".as_bytes()).unwrap(),
        ("utf-8".to_owned(), "Tarih".to_owned())
    );
}

#[test]
fn header_row_is_found_after_a_preamble() {
    let text: Vec<char> = with_preamble(STATEMENT).chars().collect();
    assert_eq!(detect_header_row(&text).unwrap(), (3, b';'));
    let rest: String = skip_leading_lines(&text, 3).into_iter().collect();
    assert!(rest.starts_with("Tarih;"));
    let headers: Vec<String> =
        ["İşlem Tarihi", "Açıklama", "Borç", "Alacak", "Bakiye"].iter().map(|s| s.to_string()).collect();
    let columns = suggest_columns(&headers);
    assert_eq!(columns.date, "İşlem Tarihi");
    assert_eq!(columns.debit.as_deref(), Some("Borç"));
    assert_eq!(columns.credit.as_deref(), Some("Alacak"));
    assert_eq!(columns.amount, None);
}

#[test]
fn same_transaction_gets_the_same_key() {
    let row = |amount: i64, id: Option<&str>, description: &str| ParsedRow {
        booked_on: date("2026-08-01"),
        description_raw: description.to_owned(),
        description_normalized: description.to_uppercase(),
        amount_minor: amount,
        balance_after_minor: Some(1_000),
        external_id: id.map(str::to_owned),
    };
    assert_eq!(
        dedup_key("checking-try", &row(-10, Some("P-1"), "market")),
        dedup_key("checking-try", &row(-99, Some("P-1"), "other"))
    );
    assert_eq!(
        dedup_key("checking-try", &row(-10, None, "market")),
        dedup_key("checking-try", &row(-10, None, "Market"))
    );
    assert_ne!(
        dedup_key("checking-try", &row(-10, None, "market")),
        dedup_key("checking-try", &row(-11, None, "market"))
    );
    assert_ne!(
        dedup_key("checking-try", &row(-10, Some("P-1"), "market")),
        dedup_key("savings-try", &row(-10, Some("P-1"), "market"))
    );
    assert_eq!(
        dedup_key("checking-try", &row(-10, None, "market")),
        sha256_hex("fp|checking-try|2026-08-01|-10|MARKET|1000".as_bytes())
    );
}

#[test]
fn bytes_are_shown_as_lower_case_hex() {
    assert_eq!(runwayclock::rows::hex_text(&vec![0x00, 0x0f, 0xa0, 0xff]), "000fa0ff");
    assert_eq!(runwayclock::rows::hex_text(&Vec::new()), "");
}

#[test]
fn raw_row_json_escapes_controls_and_backslashes() {
    let headers = vec!["note".to_owned(), "path".to_owned()];
    let cells = vec!["line\none\ttab\u{1}".to_owned(), "c:\\tmp ₺".to_owned()];
    assert_eq!(
        raw_row_json(&headers, &cells),
        "{\"note\":\"line\\none\\ttab\\u0001\",\"path\":\"c:\\\\tmp ₺\"}"
    );
    assert_eq!(raw_row_json(&vec![], &vec![]), "{}");
}
