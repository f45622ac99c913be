//! Suggesting date formats and decimal conventions from sample rows.

use vstd::prelude::*;
use crate::amount::{last_index_of, lemma_last_index_absent, lemma_last_index_at};
use crate::calendar::{Date, parsed_day_number};
use crate::headers::{contains_chars, contains_text, normalize_header, normalized_header};
use crate::profile::{ColumnMapping, ValueFormats, default_date_formats, owned};
use crate::text::{chars_of, is_ascii_digit, string_from_chars, trim, trim_chars};

verus! {

/// Index of the first header equal to `name`.
pub open spec fn header_index(headers: Seq<String>, name: Seq<char>) -> Option<int>
    decreases headers.len(),
{
    if headers.len() == 0 {
        None
    } else {
        match header_index(headers.drop_last(), name) {
            Some(i) => Some(i),
            None => if headers.last()@ == name {
                Some(headers.len() - 1)
            } else {
                None
            },
        }
    }
}

proof fn lemma_header_index_range(headers: Seq<String>, name: Seq<char>)
    ensures
        header_index(headers, name) matches Some(i) ==> 0 <= i < headers.len(),
    decreases headers.len(),
{
    if headers.len() > 0 {
        lemma_header_index_range(headers.drop_last(), name);
    }
}

fn header_index_exec(headers: &[String], name: &String) -> (r: Option<usize>)
    ensures
        match r {
            Some(k) => header_index(headers@, name@) == Some(k as int),
            None => header_index(headers@, name@) is None,
        },
{
    proof {
        lemma_header_index_range(headers@, name@);
    }
    let mut k: usize = 0;
    while k < headers.len()
        invariant
            k <= headers.len(),
            header_index(headers@.take(k as int), name@) is None,
        decreases headers.len() - k,
    {
        assert(headers@.take(k + 1).drop_last() =~= headers@.take(k as int));
        if headers[k] == *name {
            proof {
                lemma_header_index_prefix(headers@, name@, k + 1);
            }
            return Some(k);
        }
        k = k + 1;
    }
    assert(headers@.take(headers@.len() as int) =~= headers@);
    None
}

proof fn lemma_header_index_prefix(headers: Seq<String>, name: Seq<char>, n: int)
    requires
        0 <= n <= headers.len(),
        header_index(headers.take(n), name) is Some,
    ensures
        header_index(headers, name) == header_index(headers.take(n), name),
    decreases headers.len() - n,
{
    if n < headers.len() {
        assert(headers.take(n + 1).drop_last() =~= headers.take(n));
        lemma_header_index_prefix(headers, name, n + 1);
    } else {
        assert(headers.take(n) =~= headers);
    }
}

/// The non-blank cells of column `index` in the sample rows.
pub open spec fn column_values(rows: Seq<Vec<String>>, index: Option<int>) -> Seq<Seq<char>>
    decreases rows.len(),
{
    if rows.len() == 0 {
        Seq::empty()
    } else {
        let prev = column_values(rows.drop_last(), index);
        let row = rows.last()@;
        match index {
            Some(i) => if 0 <= i < row.len() && trim(row[i]@).len() > 0 {
                prev.push(row[i]@)
            } else {
                prev
            },
            None => prev,
        }
    }
}

fn column_values_exec(rows: &[Vec<String>], index: Option<usize>) -> (r: Vec<Vec<char>>)
    ensures
        r@.map_values(|v: Vec<char>| v@) == column_values(
            rows@,
            match index {
                Some(i) => Some(i as int),
                None => None,
            },
        ),
{
    let ghost idx = match index {
        Some(i) => Some(i as int),
        None => None::<int>,
    };
    let mut out: Vec<Vec<char>> = Vec::new();
    for k in 0..rows.len()
        invariant
            idx == (match index {
                Some(i) => Some(i as int),
                None => None::<int>,
            }),
            out@.map_values(|v: Vec<char>| v@) == column_values(rows@.take(k as int), idx),
    {
        assert(rows@.take(k + 1).drop_last() =~= rows@.take(k as int));
        let ghost before = out@.map_values(|v: Vec<char>| v@);
        if let Some(i) = index {
            if i < rows[k].len() {
                let cell = chars_of(rows[k][i].as_str());
                if trim_chars(&cell).len() > 0 {
                    out.push(cell);
                    assert(out@.map_values(|v: Vec<char>| v@) =~= before.push(
                        rows@[k as int]@[i as int]@,
                    ));
                }
            }
        }
    }
    assert(rows@.take(rows@.len() as int) =~= rows@);
    out
}

/// Every value, trimmed, parses with the format (and there is a value).
pub open spec fn format_fits(values: Seq<Seq<char>>, format: Seq<char>) -> bool {
    &&& values.len() > 0
    &&& forall|i: int|
        0 <= i < values.len() ==> (#[trigger] parsed_day_number(trim(values[i]), format)) is Some
}

pub open spec fn date_format_candidates() -> Seq<&'static str> {
    seq!["%d.%m.%Y", "%d/%m/%Y", "%Y-%m-%d", "%m/%d/%Y"]
}

/// The first `n` candidate formats that fit every value, in order.
pub open spec fn fitting_formats(values: Seq<Seq<char>>, n: int) -> Seq<Seq<char>>
    decreases n,
{
    if n <= 0 {
        Seq::empty()
    } else {
        let prev = fitting_formats(values, n - 1);
        let f = date_format_candidates()[n - 1]@;
        if format_fits(values, f) {
            prev.push(f)
        } else {
            prev
        }
    }
}

fn format_fits_exec(values: &Vec<Vec<char>>, format: &str) -> (r: bool)
    ensures
        r == format_fits(values@.map_values(|v: Vec<char>| v@), format@),
{
    let ghost vs = values@.map_values(|v: Vec<char>| v@);
    if values.len() == 0 {
        return false;
    }
    for k in 0..values.len()
        invariant
            vs == values@.map_values(|v: Vec<char>| v@),
            vs.len() > 0,
            forall|i: int| 0 <= i < k ==> (#[trigger] parsed_day_number(trim(vs[i]), format@)) is Some,
    {
        let t = string_from_chars(&trim_chars(&values[k]));
        assert(vs[k as int] == values@[k as int]@);
        if Date::parse(t.as_str(), format).is_none() {
            return false;
        }
    }
    true
}

/// Counts of amount samples that read as comma-decimal and dot-decimal: a
/// value with both separators votes twice for the later one; one separator
/// followed by at most two digits votes once.
pub open spec fn decimal_votes(values: Seq<Seq<char>>) -> (int, int)
    decreases values.len(),
{
    if values.len() == 0 {
        (0, 0)
    } else {
        let prev = decimal_votes(values.drop_last());
        let v = values.last();
        let comma = last_index_of(v, ',');
        let dot = last_index_of(v, '.');
        if comma >= 0 && dot >= 0 {
            if comma > dot {
                (prev.0 + 2, prev.1)
            } else {
                (prev.0, prev.1 + 2)
            }
        } else if comma >= 0 && leading_digits(v.skip(comma + 1)) <= 2 {
            (prev.0 + 1, prev.1)
        } else if dot >= 0 && comma < 0 && leading_digits(v.skip(dot + 1)) <= 2 {
            (prev.0, prev.1 + 1)
        } else {
            prev
        }
    }
}

/// Number of leading ASCII digits.
pub open spec fn leading_digits(s: Seq<char>) -> int
    decreases s.len(),
{
    if s.len() > 0 && is_ascii_digit(s[0]) {
        1 + leading_digits(s.drop_first())
    } else {
        0
    }
}

/// The number of digits right after the separator at `separator_index`.
pub fn trailing_digit_count(value: &Vec<char>, separator_index: usize) -> (r: usize)
    requires
        separator_index < value.len(),
    ensures
        r == leading_digits(value@.skip(separator_index + 1)),
{
    let mut k: usize = separator_index + 1;
    assert(value@.skip(k as int) =~= value@.skip(separator_index + 1));
    while k < value.len() && '0' <= value[k] && value[k] <= '9'
        invariant
            separator_index + 1 <= k <= value.len(),
            leading_digits(value@.skip(separator_index + 1)) == (k - separator_index - 1)
                + leading_digits(value@.skip(k as int)),
        decreases value.len() - k,
    {
        assert(value@.skip(k as int).drop_first() =~= value@.skip(k + 1));
        k = k + 1;
    }
    k - separator_index - 1
}

fn last_index_exec(s: &Vec<char>, c: char) -> (r: Option<usize>)
    ensures
        match r {
            Some(i) => i == last_index_of(s@, c) && i < s.len(),
            None => last_index_of(s@, c) == -1,
        },
{
    let mut k: usize = s.len();
    assert(s@.take(s.len() as int) =~= s@);
    while k > 0
        invariant
            k <= s.len(),
            last_index_of(s@, c) == last_index_of(s@.take(k as int), c),
        decreases k,
    {
        assert(s@.take(k as int).drop_last() =~= s@.take(k - 1));
        if s[k - 1] == c {
            return Some(k - 1);
        }
        k = k - 1;
    }
    None
}

pub open spec fn turkish_words() -> Seq<&'static str> {
    seq!["tarih", "aciklama", "tutar", "bakiye"]
}

/// Some header contains a Turkish column word.
pub open spec fn looks_turkish(headers: Seq<String>) -> bool {
    exists|i: int, j: int|
        0 <= i < headers.len() && 0 <= j < 4 && contains_text(
            normalized_header(#[trigger] headers[i]@),
            #[trigger] turkish_words()[j]@,
        )
}

fn looks_turkish_exec(headers: &[String]) -> (r: bool)
    ensures
        r == looks_turkish(headers@),
{
    let mut words: Vec<Vec<char>> = Vec::new();
    words.push(chars_of("tarih"));
    words.push(chars_of("aciklama"));
    words.push(chars_of("tutar"));
    words.push(chars_of("bakiye"));
    for i in 0..headers.len()
        invariant
            words@.len() == 4,
            forall|j: int| 0 <= j < 4 ==> #[trigger] words@[j]@ == turkish_words()[j]@,
            forall|a: int, j: int|
                0 <= a < i && 0 <= j < 4 ==> !contains_text(
                    normalized_header(#[trigger] headers@[a]@),
                    #[trigger] turkish_words()[j]@,
                ),
    {
        let key = normalize_header(headers[i].as_str());
        for j in 0..4
            invariant
                words@.len() == 4,
                forall|w: int| 0 <= w < 4 ==> #[trigger] words@[w]@ == turkish_words()[w]@,
                key@ == normalized_header(headers@[i as int]@),
                i < headers@.len(),
                forall|w: int| 0 <= w < j ==> !contains_text(key@, #[trigger] turkish_words()[w]@),
        {
            if contains_chars(&key, &words[j]) {
                assert(words@[j as int]@ == turkish_words()[j as int]@);
                assert(contains_text(
                    normalized_header(headers@[i as int]@),
                    turkish_words()[j as int]@,
                ));
                assert(0 <= i < headers@.len() && 0 <= j < 4);
                assert(looks_turkish(headers@));
                return true;
            }
        }
    }
    false
}

pub open spec fn first_some(a: Option<String>, b: Option<String>, c: Option<String>) -> Option<
    String,
> {
    match a {
        Some(x) => Some(x),
        None => match b {
            Some(x) => Some(x),
            None => c,
        },
    }
}

/// The amount samples: the filled cells of the amount column, or else of
/// the debit column, or else of the credit column.
pub open spec fn amount_samples(headers: Seq<String>, rows: Seq<Vec<String>>, columns: ColumnMapping) -> Seq<
    Seq<char>,
> {
    let amount_column = first_some(columns.amount, columns.debit, columns.credit);
    let amount_index = match amount_column {
        Some(name) => header_index(headers, name@),
        None => None,
    };
    column_values(rows, amount_index)
}

/// A sample written with `sep` before its minor digits: it has no `other`
/// separator, and its last `sep` is followed by one or two digits and no
/// third.
pub open spec fn minor_digits_after(v: Seq<char>, sep: char, other: char) -> bool {
    &&& forall|q: int| 0 <= q < v.len() ==> #[trigger] v[q] != other
    &&& exists|p: int|
        {
            &&& 0 <= p && p + 1 < v.len()
            &&& #[trigger] v[p] == sep
            &&& forall|q: int| p < q < v.len() ==> #[trigger] v[q] != sep
            &&& is_ascii_digit(v[p + 1])
            &&& !(p + 3 < v.len() && is_ascii_digit(v[p + 2]) && is_ascii_digit(v[p + 3]))
        }
}

/// Samples written with one separator before their minor digits, and
/// without the other, all vote for that separator and never for the other.
proof fn lemma_separator_votes(values: Seq<Seq<char>>, sep: char, other: char)
    requires
        (sep == '.' && other == ',') || (sep == ',' && other == '.'),
        forall|i: int| 0 <= i < values.len() ==> minor_digits_after(#[trigger] values[i], sep, other),
    ensures
        decimal_votes(values) == (if sep == ',' {
            (values.len() as int, 0int)
        } else {
            (0int, values.len() as int)
        }),
    decreases values.len(),
{
    if values.len() > 0 {
        let r = values.drop_last();
        assert forall|i: int| 0 <= i < r.len() implies minor_digits_after(#[trigger] r[i], sep, other) by {
            assert(r[i] == values[i]);
        }
        lemma_separator_votes(r, sep, other);
        let v = values.last();
        assert(minor_digits_after(values[values.len() - 1], sep, other));
        let p = choose|p: int|
            {
                &&& 0 <= p && p + 1 < v.len()
                &&& #[trigger] v[p] == sep
                &&& forall|q: int| p < q < v.len() ==> #[trigger] v[q] != sep
                &&& is_ascii_digit(v[p + 1])
                &&& !(p + 3 < v.len() && is_ascii_digit(v[p + 2]) && is_ascii_digit(v[p + 3]))
            };
        lemma_last_index_absent(v, other);
        lemma_last_index_at(v, sep, p);
        let t = v.skip(p + 1);
        let t1 = t.drop_first();
        assert(t[0] == v[p + 1]);
        if t1.len() == 0 {
            assert(leading_digits(t1) == 0);
        } else {
            assert(t1[0] == v[p + 2]);
            if is_ascii_digit(t1[0]) {
                let t2 = t1.drop_first();
                if t2.len() == 0 {
                    assert(leading_digits(t2) == 0);
                } else {
                    assert(t2[0] == v[p + 3]);
                    assert(leading_digits(t2) == 0);
                }
                assert(leading_digits(t1) <= 1);
            } else {
                assert(leading_digits(t1) == 0);
            }
        }
        assert(leading_digits(t) <= 2);
    }
}

/// Amount samples that all write a dot before their minor digits (and no
/// comma) make the dot the suggested decimal separator, with the comma
/// grouping thousands: such samples never vote for the comma.
pub proof fn law_dot_samples_suggest_dot(
    headers: Seq<String>,
    rows: Seq<Vec<String>>,
    columns: ColumnMapping,
    f: ValueFormats,
)
    requires
        suggested_formats(headers, rows, columns, f),
        amount_samples(headers, rows, columns).len() > 0,
        forall|i: int|
            0 <= i < amount_samples(headers, rows, columns).len() ==> minor_digits_after(
                #[trigger] amount_samples(headers, rows, columns)[i],
                '.',
                ',',
            ),
    ensures
        f.decimal_separator == '.',
        f.thousands_separator == Some(','),
{
    lemma_separator_votes(amount_samples(headers, rows, columns), '.', ',');
}

/// Amount samples that all write a comma before their minor digits (and no
/// dot) make the comma the suggested decimal separator, with the dot
/// grouping thousands, whatever language the headers are in.
pub proof fn law_comma_samples_suggest_comma(
    headers: Seq<String>,
    rows: Seq<Vec<String>>,
    columns: ColumnMapping,
    f: ValueFormats,
)
    requires
        suggested_formats(headers, rows, columns, f),
        amount_samples(headers, rows, columns).len() > 0,
        forall|i: int|
            0 <= i < amount_samples(headers, rows, columns).len() ==> minor_digits_after(
                #[trigger] amount_samples(headers, rows, columns)[i],
                ',',
                '.',
            ),
    ensures
        f.decimal_separator == ',',
        f.thousands_separator == Some('.'),
{
    lemma_separator_votes(amount_samples(headers, rows, columns), ',', '.');
}

/// The formats suggested for a statement: the candidate date formats that
/// parse every sample date (the defaults when none does), and the decimal
/// separator that most amount samples vote for (a tie goes to the comma for
/// Turkish headers); thousands are grouped with the other separator.
pub open spec fn suggested_formats(
    headers: Seq<String>,
    rows: Seq<Vec<String>>,
    columns: ColumnMapping,
    f: ValueFormats,
) -> bool {
    let dates = column_values(rows, header_index(headers, columns.date@));
    let fitting = fitting_formats(dates, 4);
    let votes = decimal_votes(amount_samples(headers, rows, columns));
    let decimal = if votes.0 > votes.1 || (votes.0 == votes.1 && looks_turkish(headers)) {
        ','
    } else {
        '.'
    };
    &&& (if fitting.len() == 0 {
        f.date@.map_values(|s: String| s@) == seq!["%d.%m.%Y"@, "%d/%m/%Y"@, "%Y-%m-%d"@]
    } else {
        f.date@.map_values(|s: String| s@) == fitting
    })
    &&& f.decimal_separator == decimal
    &&& f.thousands_separator == Some(
        if decimal == ',' {
            '.'
        } else {
            ','
        },
    )
    &&& f.minor_unit_digits == 2
}

/// Suggests value formats from a statement's headers and sample rows.
pub fn suggest_formats(headers: &[String], rows: &[Vec<String>], columns: &ColumnMapping) -> (r:
    ValueFormats)
    requires
        rows@.len() < 0x8000_0000_0000_0000,
    ensures
        suggested_formats(headers@, rows@, *columns, r),
{
    let date_index = header_index_exec(headers, &columns.date);
    let date_values = column_values_exec(rows, date_index);
    let ghost dates = date_values@.map_values(|v: Vec<char>| v@);
    proof {
        let e = match date_index {
            Some(i) => Some(i as int),
            None => None,
        };
        assert(e == header_index(headers@, columns.date@));
        assert(dates == column_values(rows@, header_index(headers@, columns.date@)));
    }
    let mut candidates: Vec<&'static str> = Vec::new();
    candidates.push("%d.%m.%Y");
    candidates.push("%d/%m/%Y");
    candidates.push("%Y-%m-%d");
    candidates.push("%m/%d/%Y");
    assert(candidates@ =~= date_format_candidates());
    let mut date: Vec<String> = Vec::new();
    for k in 0..4
        invariant
            candidates@ == date_format_candidates(),
            dates == date_values@.map_values(|v: Vec<char>| v@),
            date@.map_values(|s: String| s@) == fitting_formats(dates, k as int),
    {
        if format_fits_exec(&date_values, candidates[k]) {
            let ghost before = date@.map_values(|s: String| s@);
            date.push(owned(candidates[k]));
            assert(date@.map_values(|s: String| s@) =~= before.push(candidates@[k as int]@));
        }
    }
    if date.len() == 0 {
        date = default_date_formats();
        assert(date@.map_values(|s: String| s@) =~= seq!["%d.%m.%Y"@, "%d/%m/%Y"@, "%Y-%m-%d"@]);
    }
    let amount_column: Option<&String> = match &columns.amount {
        Some(a) => Some(a),
        None => match &columns.debit {
            Some(d) => Some(d),
            None => match &columns.credit {
                Some(c) => Some(c),
                None => None,
            },
        },
    };
    let amount_index: Option<usize> = match amount_column {
        Some(name) => header_index_exec(headers, name),
        None => None,
    };
    let values = column_values_exec(rows, amount_index);
    let ghost vals = values@.map_values(|v: Vec<char>| v@);
    proof {
        lemma_column_values_len(rows@, match amount_index {
            Some(i) => Some(i as int),
            None => None,
        });
    }
    let mut comma_decimal: u64 = 0;
    let mut dot_decimal: u64 = 0;
    for k in 0..values.len()
        invariant
            vals == values@.map_values(|v: Vec<char>| v@),
            values.len() < 0x8000_0000_0000_0000,
            (comma_decimal as int, dot_decimal as int) == decimal_votes(vals.take(k as int)),
            comma_decimal <= 2 * k,
            dot_decimal <= 2 * k,
    {
        assert(vals.take(k + 1).drop_last() =~= vals.take(k as int));
        assert(vals[k as int] == values@[k as int]@);
        let v = &values[k];
        let comma = last_index_exec(v, ',');
        let dot = last_index_exec(v, '.');
        match (comma, dot) {
            (Some(c), Some(d)) => {
                if c > d {
                    comma_decimal = comma_decimal + 2;
                } else {
                    dot_decimal = dot_decimal + 2;
                }
            },
            (Some(c), None) => {
                if trailing_digit_count(v, c) <= 2 {
                    comma_decimal = comma_decimal + 1;
                }
            },
            (None, Some(d)) => {
                if trailing_digit_count(v, d) <= 2 {
                    dot_decimal = dot_decimal + 1;
                }
            },
            (None, None) => {},
        }
    }
    assert(vals.take(vals.len() as int) =~= vals);
    let turkish = looks_turkish_exec(headers);
    proof {
        let spec_index = match first_some(columns.amount, columns.debit, columns.credit) {
            Some(name) => header_index(headers@, name@),
            None => None,
        };
        let exec_index = match amount_index {
            Some(i) => Some(i as int),
            None => None,
        };
        assert(spec_index == exec_index);
        assert(vals == column_values(rows@, spec_index));
        assert(dates == column_values(rows@, header_index(headers@, columns.date@)));
    }
    let decimal_separator: char = if comma_decimal > dot_decimal || (comma_decimal == dot_decimal
        && turkish) {
        ','
    } else {
        '.'
    };
    ValueFormats {
        date,
        decimal_separator,
        thousands_separator: Some(
            if decimal_separator == ',' {
                '.'
            } else {
                ','
            },
        ),
        minor_unit_digits: 2,
    }
}

proof fn lemma_column_values_len(rows: Seq<Vec<String>>, index: Option<int>)
    ensures
        column_values(rows, index).len() <= rows.len(),
    decreases rows.len(),
{
    if rows.len() > 0 {
        lemma_column_values_len(rows.drop_last(), index);
    }
}

} // verus!
