//! Recognizing statement columns from their Turkish or English header text.

use vstd::prelude::*;
use crate::profile::ColumnMapping;
use crate::text::{chars_equal, chars_of};

verus! {

/// What `str::to_lowercase` gives for a text (full Unicode lower-casing).
pub uninterp spec fn unicode_lowercase(s: Seq<char>) -> Seq<char>;

/// Whether `char::is_alphanumeric` holds (Unicode `Alphabetic` or `Numeric`).
pub uninterp spec fn unicode_alphanumeric(c: char) -> bool;

/// `str::to_lowercase`. The contract names the result only.
#[verifier::external_body]
fn lowercase(s: &Vec<char>) -> (r: Vec<char>)
    ensures
        r@ == unicode_lowercase(s@),
{
    s.iter().collect::<String>().to_lowercase().chars().collect()
}

/// `char::is_alphanumeric`. The contract names the result, and adds that
/// ASCII letters and digits are alphanumeric and the ASCII space is not.
#[verifier::external_body]
fn is_alphanumeric(c: char) -> (r: bool)
    ensures
        r == unicode_alphanumeric(c),
        crate::text::is_ascii_alphanumeric(c) ==> r,
        c == ' ' ==> !r,
{
    c.is_alphanumeric()
}

/// Folds Turkish letters to the ASCII letters used in header aliases.
pub open spec fn fold_turkish(c: char) -> char {
    if c == 'İ' || c == 'I' || c == 'ı' {
        'i'
    } else if c == 'Ş' || c == 'ş' {
        's'
    } else if c == 'Ğ' || c == 'ğ' {
        'g'
    } else if c == 'Ü' || c == 'ü' {
        'u'
    } else if c == 'Ö' || c == 'ö' {
        'o'
    } else if c == 'Ç' || c == 'ç' {
        'c'
    } else {
        c
    }
}

fn fold_turkish_exec(c: char) -> (r: char)
    ensures
        r == fold_turkish(c),
{
    if c == 'İ' || c == 'I' || c == 'ı' {
        'i'
    } else if c == 'Ş' || c == 'ş' {
        's'
    } else if c == 'Ğ' || c == 'ğ' {
        'g'
    } else if c == 'Ü' || c == 'ü' {
        'u'
    } else if c == 'Ö' || c == 'ö' {
        'o'
    } else if c == 'Ç' || c == 'ç' {
        'c'
    } else {
        c
    }
}

/// The alphanumeric runs of `s`, joined by single spaces: the text and
/// whether a separator followed the last run.
pub open spec fn join_words(s: Seq<char>) -> (Seq<char>, bool)
    decreases s.len(),
{
    if s.len() == 0 {
        (Seq::empty(), false)
    } else {
        let prev = join_words(s.drop_last());
        let c = s.last();
        if unicode_alphanumeric(c) {
            if prev.1 && prev.0.len() > 0 {
                (prev.0 + seq![' ', c], false)
            } else {
                (prev.0.push(c), false)
            }
        } else {
            (prev.0, true)
        }
    }
}

/// A header reduced to lower-case words separated by single spaces, with
/// Turkish letters folded to ASCII.
pub open spec fn normalized_header(h: Seq<char>) -> Seq<char> {
    join_words(unicode_lowercase(h.map_values(|c: char| fold_turkish(c)))).0
}

/// Normalizes a header for matching against aliases.
pub fn normalize_header(h: &str) -> (r: Vec<char>)
    ensures
        r@ == normalized_header(h@),
{
    let raw = chars_of(h);
    let mut folded: Vec<char> = Vec::new();
    for k in 0..raw.len()
        invariant
            folded@ == raw@.take(k as int).map_values(|c: char| fold_turkish(c)),
    {
        folded.push(fold_turkish_exec(raw[k]));
        assert(raw@.take(k + 1).map_values(|c: char| fold_turkish(c)) =~= raw@.take(
            k as int,
        ).map_values(|c: char| fold_turkish(c)).push(fold_turkish(raw@[k as int])));
    }
    assert(raw@.take(raw.len() as int) =~= raw@);
    let lower = lowercase(&folded);
    let mut out: Vec<char> = Vec::new();
    let mut gap: bool = false;
    for k in 0..lower.len()
        invariant
            (out@, gap) == join_words(lower@.take(k as int)),
    {
        assert(lower@.take(k + 1).drop_last() =~= lower@.take(k as int));
        let c = lower[k];
        if is_alphanumeric(c) {
            if gap && out.len() > 0 {
                out.push(' ');
            }
            out.push(c);
            gap = false;
        } else {
            gap = true;
        }
        proof {
            let prev = join_words(lower@.take(k as int));
            if unicode_alphanumeric(c) && prev.1 && prev.0.len() > 0 {
                assert(out@ =~= prev.0 + seq![' ', c]);
            }
        }
    }
    assert(lower@.take(lower.len() as int) =~= lower@);
    out
}

/// `needle` occurs in `hay`.
pub open spec fn contains_text(hay: Seq<char>, needle: Seq<char>) -> bool {
    exists|i: int|
        0 <= i && i + needle.len() <= hay.len() && #[trigger] hay.subrange(i, i + needle.len())
            == needle
}

fn occurs_at(hay: &Vec<char>, needle: &Vec<char>, i: usize) -> (r: bool)
    requires
        i + needle.len() <= hay.len(),
    ensures
        r == (hay@.subrange(i as int, i + needle.len()) == needle@),
{
    let mut k: usize = 0;
    while k < needle.len()
        invariant
            k <= needle.len(),
            i + needle.len() <= hay.len(),
            forall|j: int| 0 <= j < k ==> hay@[i + j] == needle@[j],
        decreases needle.len() - k,
    {
        if hay[i + k] != needle[k] {
            assert(hay@.subrange(i as int, i + needle.len())[k as int] != needle@[k as int]);
            return false;
        }
        k = k + 1;
    }
    assert(hay@.subrange(i as int, i + needle.len()) =~= needle@);
    true
}

pub fn contains_chars(hay: &Vec<char>, needle: &Vec<char>) -> (r: bool)
    ensures
        r == contains_text(hay@, needle@),
{
    if needle.len() > hay.len() {
        return false;
    }
    let last: usize = hay.len() - needle.len();
    let mut i: usize = 0;
    while i < last
        invariant
            last == hay.len() - needle.len(),
            i <= last,
            forall|j: int| 0 <= j < i ==> #[trigger] hay@.subrange(j, j + needle.len()) != needle@,
        decreases last - i,
    {
        if occurs_at(hay, needle, i) {
            return true;
        }
        i = i + 1;
    }
    occurs_at(hay, needle, last)
}

/// How well a normalized header matches one alias: 100 exactly, 60 when one
/// contains the other, else 0.
pub open spec fn alias_score(norm: Seq<char>, alias: Seq<char>) -> int {
    if norm == alias {
        100
    } else if contains_text(norm, alias) || contains_text(alias, norm) {
        60
    } else {
        0
    }
}

/// The best score of a normalized header over the first `n` aliases.
pub open spec fn header_score(norm: Seq<char>, aliases: Seq<Seq<char>>, n: int) -> int
    decreases n,
{
    if n <= 0 {
        0
    } else {
        let prev = header_score(norm, aliases, n - 1);
        let s = alias_score(norm, aliases[n - 1]);
        if s > prev {
            s
        } else {
            prev
        }
    }
}

/// Among the first `n` headers, the last one with the highest positive
/// score, with that score.
pub open spec fn best_header(headers: Seq<Seq<char>>, aliases: Seq<Seq<char>>, n: int) -> Option<
    (int, int),
>
    decreases n,
{
    if n <= 0 {
        None
    } else {
        let prev = best_header(headers, aliases, n - 1);
        let s = header_score(normalized_header(headers[n - 1]), aliases, aliases.len() as int);
        if s > 0 && (prev matches Some((_, best)) ==> s >= best) {
            Some((n - 1, s))
        } else {
            prev
        }
    }
}

pub open spec fn texts_of(v: Seq<String>) -> Seq<Seq<char>> {
    v.map_values(|s: String| s@)
}

pub open spec fn alias_texts(v: Seq<&str>) -> Seq<Seq<char>> {
    v.map_values(|s: &str| s@)
}

/// The header of `headers` that best matches the aliases.
pub open spec fn found_header(headers: Seq<String>, aliases: Seq<&str>) -> Option<String> {
    match best_header(texts_of(headers), alias_texts(aliases), headers.len() as int) {
        Some((i, _)) => Some(headers[i]),
        None => None,
    }
}

/// A header's best score is 100 exactly when its normalized text is one of
/// the aliases; otherwise it is at most 60.
proof fn lemma_header_score(norm: Seq<char>, aliases: Seq<Seq<char>>, n: int)
    requires
        0 <= n <= aliases.len(),
    ensures
        0 <= header_score(norm, aliases, n) <= 100,
        header_score(norm, aliases, n) == 100 <==> exists|k: int|
            0 <= k < n && norm == #[trigger] aliases[k],
    decreases n,
{
    if n > 0 {
        lemma_header_score(norm, aliases, n - 1);
        if norm == aliases[n - 1] {
            assert(alias_score(norm, aliases[n - 1]) == 100);
        }
        if header_score(norm, aliases, n) == 100 && header_score(norm, aliases, n - 1) != 100 {
            assert(norm == aliases[n - 1]);
        }
        if exists|k: int| 0 <= k < n - 1 && norm == #[trigger] aliases[k] {
            let k = choose|k: int| 0 <= k < n - 1 && norm == #[trigger] aliases[k];
            assert(0 <= k < n && norm == aliases[k]);
        }
        if exists|k: int| 0 <= k < n && norm == #[trigger] aliases[k] {
            let k = choose|k: int| 0 <= k < n && norm == #[trigger] aliases[k];
            if k < n - 1 {
                assert(0 <= k < n - 1 && norm == aliases[k]);
            }
        }
    }
}

/// The header that `best_header` picks has the highest score of all.
proof fn lemma_best_header(headers: Seq<Seq<char>>, aliases: Seq<Seq<char>>, n: int)
    requires
        0 <= n <= headers.len(),
    ensures
        match best_header(headers, aliases, n) {
            Some((i, s)) => {
                &&& 0 <= i < n
                &&& s > 0
                &&& s == header_score(normalized_header(headers[i]), aliases, aliases.len() as int)
                &&& forall|j: int|
                    0 <= j < n ==> header_score(
                        normalized_header(#[trigger] headers[j]),
                        aliases,
                        aliases.len() as int,
                    ) <= s
                &&& forall|j: int|
                    i < j < n ==> header_score(
                        normalized_header(#[trigger] headers[j]),
                        aliases,
                        aliases.len() as int,
                    ) < s
            },
            None => forall|j: int|
                0 <= j < n ==> header_score(
                    normalized_header(#[trigger] headers[j]),
                    aliases,
                    aliases.len() as int,
                ) <= 0,
        },
    decreases n,
{
    if n > 0 {
        lemma_best_header(headers, aliases, n - 1);
    }
}

/// The header found scores highest of all the headers, with a positive
/// score, and no later header scores as high: among equals the last wins.
/// No header is found only when none scores above zero.
pub proof fn law_found_header_is_last_best(headers: Seq<String>, aliases: Seq<&str>)
    ensures
        ({
            let names = texts_of(headers);
            let atexts = alias_texts(aliases);
            let score = |j: int|
                header_score(normalized_header(names[j]), atexts, atexts.len() as int);
            match best_header(names, atexts, headers.len() as int) {
                Some((i, s)) => {
                    &&& 0 <= i < headers.len()
                    &&& found_header(headers, aliases) == Some(headers[i])
                    &&& s == score(i) && s > 0
                    &&& forall|j: int| 0 <= j < headers.len() ==> #[trigger] score(j) <= s
                    &&& forall|j: int| i < j < headers.len() ==> #[trigger] score(j) < s
                },
                None => {
                    &&& found_header(headers, aliases) is None
                    &&& forall|j: int| 0 <= j < headers.len() ==> #[trigger] score(j) <= 0
                },
            }
        }),
{
    let names = texts_of(headers);
    let atexts = alias_texts(aliases);
    lemma_best_header(names, atexts, headers.len() as int);
}

/// An exact match wins: when the normalized text of some header is one of
/// the aliases, the header found is one whose normalized text is an alias,
/// never a header that only contains an alias or is contained in one.
pub proof fn law_exact_header_wins(headers: Seq<String>, aliases: Seq<&str>, j: int, k: int)
    requires
        0 <= j < headers.len(),
        0 <= k < aliases.len(),
        normalized_header(headers[j]@) == aliases[k]@,
    ensures
        found_header(headers, aliases) matches Some(h) && exists|m: int|
            0 <= m < aliases.len() && normalized_header(h@) == (#[trigger] aliases[m])@,
{
    let names = texts_of(headers);
    let atexts = alias_texts(aliases);
    let n = aliases.len() as int;
    assert(names[j] == headers[j]@);
    assert(atexts[k] == aliases[k]@);
    lemma_header_score(normalized_header(names[j]), atexts, n);
    lemma_best_header(names, atexts, headers.len() as int);
    match best_header(names, atexts, headers.len() as int) {
        Some((i, s)) => {
            lemma_header_score(normalized_header(names[i]), atexts, n);
            let m = choose|m: int| 0 <= m < n && normalized_header(names[i]) == #[trigger] atexts[m];
            assert(names[i] == headers[i]@);
            assert(atexts[m] == aliases[m]@);
        },
        None => {
            assert(header_score(normalized_header(names[j]), atexts, n) <= 0);
        },
    }
}

fn score_header(norm: &Vec<char>, aliases: &Vec<Vec<char>>) -> (r: u32)
    ensures
        r == header_score(norm@, aliases@.map_values(|a: Vec<char>| a@), aliases@.len() as int),
        r == 0 || r == 60 || r == 100,
{
    let ghost texts = aliases@.map_values(|a: Vec<char>| a@);
    let mut best: u32 = 0;
    for k in 0..aliases.len()
        invariant
            texts == aliases@.map_values(|a: Vec<char>| a@),
            best == header_score(norm@, texts, k as int),
            best == 0 || best == 60 || best == 100,
    {
        let alias = &aliases[k];
        assert(texts[k as int] == alias@);
        let s: u32 = if chars_equal(norm, alias) {
            100
        } else if contains_chars(norm, alias) || contains_chars(alias, norm) {
            60
        } else {
            0
        };
        if s > best {
            best = s;
        }
    }
    best
}

fn alias_list(aliases: &[&str]) -> (r: Vec<Vec<char>>)
    ensures
        r@.map_values(|a: Vec<char>| a@) == alias_texts(aliases@),
{
    let mut out: Vec<Vec<char>> = Vec::new();
    for k in 0..aliases.len()
        invariant
            out@.map_values(|a: Vec<char>| a@) == alias_texts(aliases@.take(k as int)),
    {
        out.push(chars_of(aliases[k]));
        assert(alias_texts(aliases@.take(k + 1)) =~= alias_texts(aliases@.take(k as int)).push(
            aliases@[k as int]@,
        ));
        assert(out@.map_values(|a: Vec<char>| a@) =~= alias_texts(aliases@.take(k as int)).push(
            aliases@[k as int]@,
        ));
    }
    assert(aliases@.take(aliases@.len() as int) =~= aliases@);
    out
}

/// The header that best matches one of the aliases: exact matches win over
/// partial ones, and among equals the last header wins.
pub fn find_header(headers: &[String], aliases: &[&str]) -> (r: Option<String>)
    ensures
        r == found_header(headers@, aliases@),
{
    let alias_chars = alias_list(aliases);
    let ghost names = texts_of(headers@);
    let ghost atexts = alias_texts(aliases@);
    let mut best: Option<(usize, u32)> = None;
    for k in 0..headers.len()
        invariant
            names == texts_of(headers@),
            atexts == alias_texts(aliases@),
            alias_chars@.map_values(|a: Vec<char>| a@) == atexts,
            match best_header(names, atexts, k as int) {
                Some((i, s)) => best == Some((i as usize, s as u32)) && 0 <= i < k && 0 < s <= 100,
                None => best is None,
            },
    {
        let norm = normalize_header(headers[k].as_str());
        let s = score_header(&norm, &alias_chars);
        assert(names[k as int] == headers@[k as int]@);
        let better = match best {
            Some((_, b)) => s >= b,
            None => true,
        };
        proof {
            let h = header_score(normalized_header(names[k as int]), atexts, atexts.len() as int);
            assert(h == s);
        }
        if s > 0 && better {
            best = Some((k, s));
        }
    }
    match best {
        Some((i, _)) => Some(headers[i].clone()),
        None => None,
    }
}

pub open spec fn date_aliases() -> Seq<&'static str> {
    seq!["tarih", "islem tarihi", "date", "transaction date", "booking date"]
}

pub open spec fn description_aliases() -> Seq<&'static str> {
    seq!["aciklama", "islem aciklamasi", "description", "details", "merchant", "memo"]
}

pub open spec fn amount_aliases() -> Seq<&'static str> {
    seq!["islem tutari", "tutar", "amount", "transaction amount"]
}

pub open spec fn debit_aliases() -> Seq<&'static str> {
    seq!["borc", "debit", "withdrawal", "cikan"]
}

pub open spec fn credit_aliases() -> Seq<&'static str> {
    seq!["alacak", "credit", "deposit", "giren"]
}

pub open spec fn balance_aliases() -> Seq<&'static str> {
    seq!["bakiye", "balance", "running balance"]
}

pub open spec fn transaction_id_aliases() -> Seq<&'static str> {
    seq!["islem no", "islem id", "referans no", "transaction id", "reference no", "reference"]
}

fn date_alias_list() -> (r: Vec<&'static str>)
    ensures
        r@ == date_aliases(),
{
    let mut v: Vec<&'static str> = Vec::new();
    v.push("tarih");
    v.push("islem tarihi");
    v.push("date");
    v.push("transaction date");
    v.push("booking date");
    assert(v@ =~= date_aliases());
    v
}

fn description_alias_list() -> (r: Vec<&'static str>)
    ensures
        r@ == description_aliases(),
{
    let mut v: Vec<&'static str> = Vec::new();
    v.push("aciklama");
    v.push("islem aciklamasi");
    v.push("description");
    v.push("details");
    v.push("merchant");
    v.push("memo");
    assert(v@ =~= description_aliases());
    v
}

fn amount_alias_list() -> (r: Vec<&'static str>)
    ensures
        r@ == amount_aliases(),
{
    let mut v: Vec<&'static str> = Vec::new();
    v.push("islem tutari");
    v.push("tutar");
    v.push("amount");
    v.push("transaction amount");
    assert(v@ =~= amount_aliases());
    v
}

fn debit_alias_list() -> (r: Vec<&'static str>)
    ensures
        r@ == debit_aliases(),
{
    let mut v: Vec<&'static str> = Vec::new();
    v.push("borc");
    v.push("debit");
    v.push("withdrawal");
    v.push("cikan");
    assert(v@ =~= debit_aliases());
    v
}

fn credit_alias_list() -> (r: Vec<&'static str>)
    ensures
        r@ == credit_aliases(),
{
    let mut v: Vec<&'static str> = Vec::new();
    v.push("alacak");
    v.push("credit");
    v.push("deposit");
    v.push("giren");
    assert(v@ =~= credit_aliases());
    v
}

fn balance_alias_list() -> (r: Vec<&'static str>)
    ensures
        r@ == balance_aliases(),
{
    let mut v: Vec<&'static str> = Vec::new();
    v.push("bakiye");
    v.push("balance");
    v.push("running balance");
    assert(v@ =~= balance_aliases());
    v
}

fn transaction_id_alias_list() -> (r: Vec<&'static str>)
    ensures
        r@ == transaction_id_aliases(),
{
    let mut v: Vec<&'static str> = Vec::new();
    v.push("islem no");
    v.push("islem id");
    v.push("referans no");
    v.push("transaction id");
    v.push("reference no");
    v.push("reference");
    assert(v@ =~= transaction_id_aliases());
    v
}

pub open spec fn text_or_empty(o: Option<String>) -> Seq<char> {
    match o {
        Some(s) => s@,
        None => Seq::empty(),
    }
}

/// The column mapping suggested for a header row: for each field, the
/// header that best matches its Turkish and English aliases. Debit and
/// credit columns are only looked for when no signed amount column exists.
pub open spec fn suggested_columns(headers: Seq<String>, m: ColumnMapping) -> bool {
    let amount = found_header(headers, amount_aliases());
    &&& m.date@ == text_or_empty(found_header(headers, date_aliases()))
    &&& m.description@ == text_or_empty(found_header(headers, description_aliases()))
    &&& m.amount == amount
    &&& m.debit == (if amount is None {
        found_header(headers, debit_aliases())
    } else {
        None
    })
    &&& m.credit == (if amount is None {
        found_header(headers, credit_aliases())
    } else {
        None
    })
    &&& m.balance == found_header(headers, balance_aliases())
    &&& m.transaction_id == found_header(headers, transaction_id_aliases())
}

fn or_empty(o: Option<String>) -> (r: String)
    ensures
        r@ == text_or_empty(o),
{
    match o {
        Some(s) => s,
        None => String::new(),
    }
}

/// Suggests which header holds which transaction field.
pub fn suggest_columns(headers: &[String]) -> (r: ColumnMapping)
    ensures
        suggested_columns(headers@, r),
{
    let date = or_empty(find_header(headers, date_alias_list().as_slice()));
    let description = or_empty(find_header(headers, description_alias_list().as_slice()));
    let amount = find_header(headers, amount_alias_list().as_slice());
    let (debit, credit) = if amount.is_none() {
        (
            find_header(headers, debit_alias_list().as_slice()),
            find_header(headers, credit_alias_list().as_slice()),
        )
    } else {
        (None, None)
    };
    ColumnMapping {
        date,
        description,
        amount,
        debit,
        credit,
        balance: find_header(headers, balance_alias_list().as_slice()),
        transaction_id: find_header(headers, transaction_id_alias_list().as_slice()),
    }
}

} // verus!
