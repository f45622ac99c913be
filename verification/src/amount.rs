//! Parsing money amounts into minor units without floating point.

use vstd::prelude::*;
use crate::profile::{ImportError, ValueFormats, owned};
use crate::money::is_valid_code;
use crate::presentation::money_text;
use crate::text::{
    chars_of, decimal, digit_char, is_ascii_alphabetic, is_ascii_digit, is_white_space,
    string_from_chars, trim, trim_chars, trim_end, trim_start,
};

verus! {

/// Characters an amount may keep: digits, the separators and signs.
pub open spec fn money_char(c: char, decimal: char, thousands: Option<char>) -> bool {
    is_ascii_digit(c) || c == decimal || thousands == Some(c) || c == '+' || c == '-'
}

/// `s` keeping only money characters.
pub open spec fn keep_money_chars(s: Seq<char>, decimal: char, thousands: Option<char>) -> Seq<
    char,
>
    decreases s.len(),
{
    if s.len() == 0 {
        s
    } else if money_char(s.last(), decimal, thousands) {
        keep_money_chars(s.drop_last(), decimal, thousands).push(s.last())
    } else {
        keep_money_chars(s.drop_last(), decimal, thousands)
    }
}

/// `s` without any occurrence of `c`.
pub open spec fn remove_char(s: Seq<char>, c: char) -> Seq<char>
    decreases s.len(),
{
    if s.len() == 0 {
        s
    } else if s.last() == c {
        remove_char(s.drop_last(), c)
    } else {
        remove_char(s.drop_last(), c).push(s.last())
    }
}

/// `s` without its leading `+` and `-` signs.
pub open spec fn strip_signs(s: Seq<char>) -> Seq<char>
    decreases s.len(),
{
    if s.len() > 0 && (s[0] == '+' || s[0] == '-') {
        strip_signs(s.drop_first())
    } else {
        s
    }
}

/// Occurrences of `c` in `s`.
pub open spec fn count_char(s: Seq<char>, c: char) -> nat
    decreases s.len(),
{
    if s.len() == 0 {
        0
    } else {
        count_char(s.drop_last(), c) + (if s.last() == c {
            1nat
        } else {
            0nat
        })
    }
}

/// Index of the first `c` in `s`, or `s.len()`.
pub open spec fn find_char(s: Seq<char>, c: char) -> int
    decreases s.len(),
{
    if s.len() == 0 {
        0
    } else if s[0] == c {
        0
    } else {
        1 + find_char(s.drop_first(), c)
    }
}

pub open spec fn all_digits(s: Seq<char>) -> bool {
    forall|i: int| 0 <= i < s.len() ==> is_ascii_digit(#[trigger] s[i])
}

pub open spec fn has_digit(s: Seq<char>) -> bool {
    exists|i: int| 0 <= i < s.len() && is_ascii_digit(#[trigger] s[i])
}

/// The value of a string of decimal digits (0 for the empty string).
pub open spec fn digits_value(s: Seq<char>) -> int
    decreases s.len(),
{
    if s.len() == 0 {
        0
    } else {
        digits_value(s.drop_last()) * 10 + (s.last() as int - '0' as int)
    }
}

pub open spec fn pow10(n: nat) -> int
    decreases n,
{
    if n == 0 {
        1
    } else {
        10 * pow10((n - 1) as nat)
    }
}

/// How an amount text parses.
pub enum AmountParse {
    /// The formats use one character for both separators.
    ConflictingSeparators,
    /// The text is refused, for the given reason.
    Invalid(Seq<char>),
    /// The signed amount in minor units.
    Value(int),
}

/// After the sign characters were moved and thousands separators removed.
pub open spec fn normalized_amount(t: Seq<char>, decimal: char, thousands: Option<char>) -> Seq<
    char,
> {
    let kept = keep_money_chars(t, decimal, thousands);
    let moved = if kept.len() > 0 && kept.last() == '-' {
        seq!['-'] + kept.drop_last()
    } else {
        kept
    };
    match thousands {
        Some(sep) => remove_char(moved, sep),
        None => moved,
    }
}

/// The parse of `value` as `parse_amount_minor` performs it, for the given
/// separators and number of minor-unit digits.
pub open spec fn parse_amount(
    value: Seq<char>,
    decimal: char,
    thousands: Option<char>,
    minor_digits: u32,
) -> AmountParse {
    let t = trim(value);
    if thousands == Some(decimal) {
        AmountParse::ConflictingSeparators
    } else if t.len() == 0 {
        AmountParse::Invalid("empty value"@)
    } else {
        let parentheses = t[0] == '(' && t.last() == ')';
        let filtered = normalized_amount(t, decimal, thousands);
        let negative = parentheses || (filtered.len() > 0 && filtered[0] == '-');
        unsigned_amount(strip_signs(filtered), negative, decimal, minor_digits)
    }
}

/// The amount written by the sign-free text `unsigned` (digits around at
/// most one decimal separator), negated when `negative`.
#[verifier::inline]
pub open spec fn unsigned_amount(
    unsigned: Seq<char>,
    negative: bool,
    decimal: char,
    minor_digits: u32,
) -> AmountParse {
    let m = minor_digits as nat;
    if unsigned.len() == 0 || !has_digit(unsigned) {
        AmountParse::Invalid("no digits"@)
    } else if count_char(unsigned, decimal) > 1 {
        AmountParse::Invalid("multiple decimal separators"@)
    } else {
        let at = find_char(unsigned, decimal);
        let whole = unsigned.take(at);
        let fraction = if at < unsigned.len() {
            unsigned.skip(at + 1)
        } else {
            Seq::empty()
        };
        if !all_digits(whole) || !all_digits(fraction) {
            AmountParse::Invalid("unexpected characters"@)
        } else if fraction.len() > m {
            AmountParse::Invalid("more fractional digits than the profile permits"@)
        } else if pow10(m) > i128::MAX {
            AmountParse::Invalid("minor-unit scale overflow"@)
        } else if digits_value(whole) > i128::MAX {
            AmountParse::Invalid("whole-number overflow"@)
        } else {
            let fraction_value = digits_value(fraction) * pow10((m - fraction.len()) as nat);
            let magnitude = digits_value(whole) * pow10(m) + fraction_value;
            if magnitude > i128::MAX {
                AmountParse::Invalid("amount overflow"@)
            } else {
                let signed = if negative {
                    -magnitude
                } else {
                    magnitude
                };
                if !(i64::MIN <= signed <= i64::MAX) {
                    AmountParse::Invalid("amount is outside the supported range"@)
                } else {
                    AmountParse::Value(signed)
                }
            }
        }
    }
}

/// `parse_amount_minor`'s result matches the parse of `value`.
pub open spec fn amount_result_matches(
    value: Seq<char>,
    decimal: char,
    thousands: Option<char>,
    minor_digits: u32,
    r: Result<i64, ImportError>,
) -> bool {
    match parse_amount(value, decimal, thousands, minor_digits) {
        AmountParse::ConflictingSeparators => r == Err::<i64, ImportError>(
            ImportError::ConflictingSeparators,
        ),
        AmountParse::Invalid(reason) => r matches Err(ImportError::InvalidMoney { value: v, reason: why })
            && v@ == value && why@ == reason,
        AmountParse::Value(n) => r == Ok::<i64, ImportError>(n as i64),
    }
}

fn invalid_money(value: &str, reason: &str) -> (r: ImportError)
    ensures
        r matches ImportError::InvalidMoney { value: v, reason: why } && v@ == value@ && why@
            == reason@,
{
    ImportError::InvalidMoney { value: owned(value), reason: owned(reason) }
}

fn money_char_exec(c: char, f: &ValueFormats) -> (r: bool)
    ensures
        r == money_char(c, f.decimal_separator, f.thousands_separator),
{
    ('0' <= c && c <= '9') || c == f.decimal_separator || f.thousands_separator == Some(c) || c
        == '+' || c == '-'
}

fn keep_money_chars_exec(s: &Vec<char>, f: &ValueFormats) -> (r: Vec<char>)
    ensures
        r@ == keep_money_chars(s@, f.decimal_separator, f.thousands_separator),
{
    let mut out: Vec<char> = Vec::new();
    for k in 0..s.len()
        invariant
            out@ == keep_money_chars(s@.take(k as int), f.decimal_separator, f.thousands_separator),
    {
        assert(s@.take(k + 1).drop_last() =~= s@.take(k as int));
        if money_char_exec(s[k], f) {
            out.push(s[k]);
        }
    }
    assert(s@.take(s.len() as int) =~= s@);
    out
}

fn remove_char_exec(s: &Vec<char>, c: char) -> (r: Vec<char>)
    ensures
        r@ == remove_char(s@, c),
{
    let mut out: Vec<char> = Vec::new();
    for k in 0..s.len()
        invariant
            out@ == remove_char(s@.take(k as int), c),
    {
        assert(s@.take(k + 1).drop_last() =~= s@.take(k as int));
        if s[k] != c {
            out.push(s[k]);
        }
    }
    assert(s@.take(s.len() as int) =~= s@);
    out
}

fn count_char_exec(s: &Vec<char>, c: char) -> (r: usize)
    ensures
        r == count_char(s@, c),
{
    let mut n: usize = 0;
    for k in 0..s.len()
        invariant
            n == count_char(s@.take(k as int), c),
            n <= k,
    {
        assert(s@.take(k + 1).drop_last() =~= s@.take(k as int));
        if s[k] == c {
            n = n + 1;
        }
    }
    assert(s@.take(s.len() as int) =~= s@);
    n
}

/// Index of the first leading character that is not a sign.
fn skip_signs(s: &Vec<char>) -> (i: usize)
    ensures
        i <= s.len(),
        strip_signs(s@) == s@.skip(i as int),
{
    let mut i: usize = 0;
    assert(s@.skip(0) =~= s@);
    while i < s.len() && (s[i] == '+' || s[i] == '-')
        invariant
            i <= s.len(),
            strip_signs(s@) == strip_signs(s@.skip(i as int)),
        decreases s.len() - i,
    {
        assert(s@.skip(i as int).drop_first() =~= s@.skip(i + 1));
        i = i + 1;
    }
    i
}

fn find_char_exec(s: &Vec<char>, c: char) -> (i: usize)
    ensures
        i == find_char(s@, c),
        i <= s.len(),
        forall|j: int| 0 <= j < i ==> s@[j] != c,
        i < s.len() ==> s@[i as int] == c,
{
    let mut i: usize = 0;
    assert(s@.skip(0) =~= s@);
    while i < s.len() && s[i] != c
        invariant
            i <= s.len(),
            find_char(s@, c) == i + find_char(s@.skip(i as int), c),
            forall|j: int| 0 <= j < i ==> s@[j] != c,
        decreases s.len() - i,
    {
        assert(s@.skip(i as int).drop_first() =~= s@.skip(i + 1));
        i = i + 1;
    }
    i
}

fn all_digits_exec(s: &Vec<char>, start: usize, end: usize) -> (r: bool)
    requires
        start <= end <= s.len(),
    ensures
        r == all_digits(s@.subrange(start as int, end as int)),
{
    let mut k: usize = start;
    while k < end
        invariant
            start <= k <= end <= s.len(),
            forall|j: int| start <= j < k ==> is_ascii_digit(s@[j]),
        decreases end - k,
    {
        if !('0' <= s[k] && s[k] <= '9') {
            assert(!is_ascii_digit(s@.subrange(start as int, end as int)[k - start]));
            return false;
        }
        k = k + 1;
    }
    assert forall|i: int| 0 <= i < end - start implies is_ascii_digit(
        #[trigger] s@.subrange(start as int, end as int)[i],
    ) by {
        assert(s@.subrange(start as int, end as int)[i] == s@[start + i]);
    }
    true
}

fn has_digit_exec(s: &Vec<char>, start: usize) -> (r: bool)
    requires
        start <= s.len(),
    ensures
        r == has_digit(s@.skip(start as int)),
{
    let mut k: usize = start;
    while k < s.len()
        invariant
            start <= k <= s.len(),
            forall|j: int| start <= j < k ==> !is_ascii_digit(s@[j]),
        decreases s.len() - k,
    {
        if '0' <= s[k] && s[k] <= '9' {
            assert(is_ascii_digit(s@.skip(start as int)[k - start]));
            return true;
        }
        k = k + 1;
    }
    assert forall|i: int| 0 <= i < s.len() - start implies !is_ascii_digit(
        #[trigger] s@.skip(start as int)[i],
    ) by {
        assert(s@.skip(start as int)[i] == s@[start + i]);
    }
    false
}

proof fn lemma_digits_value_nonneg(s: Seq<char>)
    requires
        all_digits(s),
    ensures
        digits_value(s) >= 0,
    decreases s.len(),
{
    if s.len() > 0 {
        assert(all_digits(s.drop_last())) by {
            assert forall|i: int| 0 <= i < s.drop_last().len() implies is_ascii_digit(
                #[trigger] s.drop_last()[i],
            ) by {
                assert(s.drop_last()[i] == s[i]);
            }
        }
        lemma_digits_value_nonneg(s.drop_last());
        assert(is_ascii_digit(s[s.len() - 1]));
    }
}

/// The value of the digits `s[start..end]`, or `None` when it exceeds
/// `i128::MAX`.
fn digits_value_exec(s: &Vec<char>, start: usize, end: usize) -> (r: Option<i128>)
    requires
        start <= end <= s.len(),
        all_digits(s@.subrange(start as int, end as int)),
    ensures
        r matches Some(v) ==> v == digits_value(s@.subrange(start as int, end as int)),
        r is None <==> digits_value(s@.subrange(start as int, end as int)) > i128::MAX,
{
    let mut v: i128 = 0;
    let mut k: usize = start;
    assert(s@.subrange(start as int, start as int) =~= Seq::<char>::empty());
    while k < end
        invariant
            start <= k <= end <= s.len(),
            all_digits(s@.subrange(start as int, end as int)),
            v == digits_value(s@.subrange(start as int, k as int)),
            0 <= v,
        decreases end - k,
    {
        let ghost whole = s@.subrange(start as int, end as int);
        assert(s@.subrange(start as int, k + 1).drop_last() =~= s@.subrange(start as int, k as int));
        assert(whole[k - start] == s@[k as int]);
        assert(is_ascii_digit(s@[k as int]));
        let d: i128 = (s[k] as u32 - '0' as u32) as i128;
        match v.checked_mul(10) {
            Some(t) => match t.checked_add(d) {
                Some(n) => {
                    v = n;
                },
                None => {
                    proof {
                        lemma_digits_prefix_bound(whole, (k + 1 - start) as int);
                        assert(whole.take((k + 1 - start) as int) =~= s@.subrange(
                            start as int,
                            k + 1,
                        ));
                    }
                    return None;
                },
            },
            None => {
                proof {
                    lemma_digits_prefix_bound(whole, (k + 1 - start) as int);
                    assert(whole.take((k + 1 - start) as int) =~= s@.subrange(start as int, k + 1));
                }
                return None;
            },
        }
        k = k + 1;
    }
    Some(v)
}

/// The value of a digit string is at least that of any of its prefixes.
proof fn lemma_digits_prefix_bound(s: Seq<char>, n: int)
    requires
        all_digits(s),
        0 <= n <= s.len(),
    ensures
        digits_value(s.take(n)) <= digits_value(s),
    decreases s.len(),
{
    if n < s.len() {
        let t = s.drop_last();
        assert(all_digits(t)) by {
            assert forall|i: int| 0 <= i < t.len() implies is_ascii_digit(#[trigger] t[i]) by {
                assert(t[i] == s[i]);
            }
        }
        lemma_digits_prefix_bound(t, n);
        assert(t.take(n) =~= s.take(n));
        lemma_digits_value_nonneg(t);
        assert(is_ascii_digit(s[s.len() - 1]));
    } else {
        assert(s.take(n) =~= s);
    }
}

/// `10^n`, or `None` when it exceeds `i128::MAX`.
fn pow10_exec(n: u32) -> (r: Option<i128>)
    ensures
        r matches Some(v) ==> v == pow10(n as nat),
        r is None <==> pow10(n as nat) > i128::MAX,
{
    let mut v: i128 = 1;
    let mut k: u32 = 0;
    while k < n
        invariant
            k <= n,
            v == pow10(k as nat),
            v >= 1,
        decreases n - k,
    {
        match v.checked_mul(10) {
            Some(t) => {
                v = t;
            },
            None => {
                proof {
                    lemma_pow10_monotone((k + 1) as nat, n as nat);
                }
                return None;
            },
        }
        k = k + 1;
    }
    Some(v)
}

proof fn lemma_pow10_monotone(a: nat, b: nat)
    requires
        a <= b,
    ensures
        pow10(a) <= pow10(b),
        pow10(a) >= 1,
    decreases b,
{
    if a < b {
        lemma_pow10_monotone(a, (b - 1) as nat);
    } else if a > 0 {
        lemma_pow10_monotone((a - 1) as nat, (a - 1) as nat);
    }
}

proof fn lemma_digits_value_bound(s: Seq<char>)
    requires
        all_digits(s),
    ensures
        0 <= digits_value(s) < pow10(s.len()),
    decreases s.len(),
{
    if s.len() > 0 {
        let t = s.drop_last();
        assert(all_digits(t)) by {
            assert forall|i: int| 0 <= i < t.len() implies is_ascii_digit(#[trigger] t[i]) by {
                assert(t[i] == s[i]);
            }
        }
        lemma_digits_value_bound(t);
        assert(is_ascii_digit(s[s.len() - 1]));
        assert(pow10(s.len()) == 10 * pow10(t.len()));
    }
}

proof fn lemma_pow10_add(a: nat, b: nat)
    ensures
        pow10(a) * pow10(b) == pow10(a + b),
    decreases a,
{
    if a > 0 {
        lemma_pow10_add((a - 1) as nat, b);
        assert(pow10(a) * pow10(b) == 10 * (pow10((a - 1) as nat) * pow10(b))) by (nonlinear_arith)
            requires
                pow10(a) == 10 * pow10((a - 1) as nat),
        ;
        assert(pow10(a + b) == 10 * pow10((a + b - 1) as nat));
    }
}

fn is_digit_char(c: char) -> (r: bool)
    ensures
        r == is_ascii_digit(c),
{
    '0' <= c && c <= '9'
}

/// Parses an amount written with the profile's separators into signed minor
/// units. Any character other than digits, separators and signs is ignored
/// (currency symbols and codes); a trailing minus or surrounding parentheses
/// mark a negative amount; missing fraction digits count as zeros.
#[verifier::spinoff_prover]
#[verifier::rlimit(40)]
pub fn parse_amount_minor(value: &str, formats: &ValueFormats) -> (r: Result<i64, ImportError>)
    ensures
        amount_result_matches(
            value@,
            formats.decimal_separator,
            formats.thousands_separator,
            formats.minor_unit_digits,
            r,
        ),
{
    let conflicting = match formats.thousands_separator {
        Some(sep) => sep == formats.decimal_separator,
        None => false,
    };
    if conflicting {
        return Err(ImportError::ConflictingSeparators);
    }
    let all = chars_of(value);
    let t = trim_chars(&all);
    if t.len() == 0 {
        return Err(invalid_money(value, "empty value"));
    }
    let parentheses: bool = t[0] == '(' && t[t.len() - 1] == ')';
    let kept = keep_money_chars_exec(&t, formats);
    let moved: Vec<char> = if kept.len() > 0 && kept[kept.len() - 1] == '-' {
        let mut m: Vec<char> = Vec::new();
        m.push('-');
        let head = crate::text::slice_chars(&kept, 0, kept.len() - 1);
        crate::text::push_all(&mut m, &head);
        proof {
            assert(m@ =~= seq!['-'] + kept@.drop_last());
        }
        m
    } else {
        kept
    };
    let filtered: Vec<char> = match formats.thousands_separator {
        Some(sep) => remove_char_exec(&moved, sep),
        None => moved,
    };
    proof {
        assert(filtered@ == normalized_amount(
            trim(value@),
            formats.decimal_separator,
            formats.thousands_separator,
        ));
    }
    let negative: bool = parentheses || (filtered.len() > 0 && filtered[0] == '-');
    let start = skip_signs(&filtered);
    if start == filtered.len() || !has_digit_exec(&filtered, start) {
        return Err(invalid_money(value, "no digits"));
    }
    let unsigned = crate::text::slice_chars(&filtered, start, filtered.len());
    proof {
        assert(unsigned@ =~= filtered@.skip(start as int));
    }
    if count_char_exec(&unsigned, formats.decimal_separator) > 1 {
        return Err(invalid_money(value, "multiple decimal separators"));
    }
    let at = find_char_exec(&unsigned, formats.decimal_separator);
    let fraction_start: usize = if at < unsigned.len() {
        at + 1
    } else {
        unsigned.len()
    };
    proof {
        assert(unsigned@.subrange(0, at as int) =~= unsigned@.take(at as int));
        if at < unsigned.len() {
            assert(unsigned@.subrange(fraction_start as int, unsigned.len() as int)
                =~= unsigned@.skip(at + 1));
        } else {
            assert(unsigned@.subrange(fraction_start as int, unsigned.len() as int)
                =~= Seq::<char>::empty());
        }
    }
    if !all_digits_exec(&unsigned, 0, at) || !all_digits_exec(
        &unsigned,
        fraction_start,
        unsigned.len(),
    ) {
        return Err(invalid_money(value, "unexpected characters"));
    }
    let fraction_len: usize = unsigned.len() - fraction_start;
    if fraction_len as u64 > formats.minor_unit_digits as u64 {
        return Err(invalid_money(value, "more fractional digits than the profile permits"));
    }
    let scale: i128 = match pow10_exec(formats.minor_unit_digits) {
        Some(v) => v,
        None => {
            return Err(invalid_money(value, "minor-unit scale overflow"));
        },
    };
    let whole_value: i128 = match digits_value_exec(&unsigned, 0, at) {
        Some(v) => v,
        None => {
            return Err(invalid_money(value, "whole-number overflow"));
        },
    };
    let ghost whole = unsigned@.subrange(0, at as int);
    let ghost fraction = unsigned@.subrange(fraction_start as int, unsigned.len() as int);
    let m: u32 = formats.minor_unit_digits;
    let pad: u32 = m - fraction_len as u32;
    proof {
        lemma_digits_value_bound(fraction);
        lemma_digits_value_bound(whole);
        lemma_pow10_add(fraction.len(), pad as nat);
        lemma_pow10_monotone(pad as nat, m as nat);
        lemma_pow10_monotone(fraction.len(), m as nat);
    }
    let fraction_digits: i128 = match digits_value_exec(&unsigned, fraction_start, unsigned.len()) {
        Some(v) => v,
        None => {
            proof {
                assert(false);
            }
            return Err(invalid_money(value, "fraction overflow"));
        },
    };
    let pad_scale: i128 = match pow10_exec(pad) {
        Some(v) => v,
        None => {
            proof {
                assert(false);
            }
            return Err(invalid_money(value, "fraction overflow"));
        },
    };
    proof {
        assert(fraction_digits * pad_scale < pow10(m as nat)) by (nonlinear_arith)
            requires
                0 <= fraction_digits < pow10(fraction.len()),
                pad_scale == pow10(pad as nat),
                pad_scale >= 1,
                pow10(fraction.len()) * pow10(pad as nat) == pow10(fraction.len() + pad as nat),
                fraction.len() + pad as nat == m as nat,
        ;
        assert(fraction_digits * pad_scale >= 0) by (nonlinear_arith)
            requires
                fraction_digits >= 0,
                pad_scale >= 1,
        ;
    }
    let fraction_value: i128 = fraction_digits * pad_scale;
    let magnitude: i128 = match whole_value.checked_mul(scale) {
        Some(w) => match w.checked_add(fraction_value) {
            Some(total) => total,
            None => {
                return Err(invalid_money(value, "amount overflow"));
            },
        },
        None => {
            proof {
                assert(whole_value * scale + fraction_value > i128::MAX) by (nonlinear_arith)
                    requires
                        whole_value * scale > i128::MAX,
                        fraction_value >= 0,
                ;
            }
            return Err(invalid_money(value, "amount overflow"));
        },
    };
    proof {
        assert(whole_value * scale >= 0) by (nonlinear_arith)
            requires
                whole_value >= 0,
                scale >= 1,
        ;
    }
    let signed: i128 = if negative {
        -magnitude
    } else {
        magnitude
    };
    if signed < i64::MIN as i128 || signed > i64::MAX as i128 {
        return Err(invalid_money(value, "amount is outside the supported range"));
    }
    Ok(signed as i64)
}

/// `s` without white space.
pub open spec fn remove_white_space(s: Seq<char>) -> Seq<char>
    decreases s.len(),
{
    if s.len() == 0 {
        s
    } else if crate::text::is_white_space(s.last()) {
        remove_white_space(s.drop_last())
    } else {
        remove_white_space(s.drop_last()).push(s.last())
    }
}

/// Index of the last `c` in `s`, or -1.
pub open spec fn last_index_of(s: Seq<char>, c: char) -> int
    decreases s.len(),
{
    if s.len() == 0 {
        -1
    } else if s.last() == c {
        s.len() - 1
    } else {
        last_index_of(s.drop_last(), c)
    }
}

/// Number of ASCII digits in `s`.
pub open spec fn count_digits(s: Seq<char>) -> nat
    decreases s.len(),
{
    if s.len() == 0 {
        0
    } else {
        count_digits(s.drop_last()) + (if is_ascii_digit(s.last()) {
            1nat
        } else {
            0nat
        })
    }
}

/// The separators a person most likely meant: the later of `,` and `.` is
/// the decimal separator; a lone `.` followed by more than two digits groups
/// thousands.
pub open spec fn flexible_separators(compact: Seq<char>) -> (char, Option<char>) {
    let comma = last_index_of(compact, ',');
    let dot = last_index_of(compact, '.');
    if comma >= 0 && dot >= 0 {
        if comma > dot {
            (',', Some('.'))
        } else {
            ('.', Some(','))
        }
    } else if comma >= 0 {
        (',', None)
    } else if dot >= 0 {
        if count_digits(compact.skip(dot + 1)) <= 2 {
            ('.', None)
        } else {
            (',', Some('.'))
        }
    } else {
        ('.', None)
    }
}

fn remove_white_space_exec(s: &Vec<char>) -> (r: Vec<char>)
    ensures
        r@ == remove_white_space(s@),
{
    let mut out: Vec<char> = Vec::new();
    for k in 0..s.len()
        invariant
            out@ == remove_white_space(s@.take(k as int)),
    {
        assert(s@.take(k + 1).drop_last() =~= s@.take(k as int));
        if !crate::text::is_white_space_char(s[k]) {
            out.push(s[k]);
        }
    }
    assert(s@.take(s.len() as int) =~= s@);
    out
}

fn last_index_exec(s: &Vec<char>, c: char) -> (r: Option<usize>)
    ensures
        match r {
            Some(i) => i == last_index_of(s@, c) && i < s.len(),
            None => last_index_of(s@, c) == -1,
        },
{
    let mut k: usize = s.len();
    assert(s@.take(s.len() as int) =~= s@);
    while k > 0
        invariant
            k <= s.len(),
            last_index_of(s@, c) == last_index_of(s@.take(k as int), c),
        decreases k,
    {
        assert(s@.take(k as int).drop_last() =~= s@.take(k - 1));
        if s[k - 1] == c {
            return Some(k - 1);
        }
        k = k - 1;
    }
    None
}

fn count_digits_from(s: &Vec<char>, start: usize) -> (r: usize)
    requires
        start <= s.len(),
    ensures
        r == count_digits(s@.skip(start as int)),
{
    let mut n: usize = 0;
    let mut k: usize = start;
    assert(s@.subrange(start as int, start as int) =~= Seq::<char>::empty());
    while k < s.len()
        invariant
            start <= k <= s.len(),
            n == count_digits(s@.subrange(start as int, k as int)),
            n <= k - start,
        decreases s.len() - k,
    {
        assert(s@.subrange(start as int, k + 1).drop_last() =~= s@.subrange(
            start as int,
            k as int,
        ));
        if is_digit_char(s[k]) {
            n = n + 1;
        }
        k = k + 1;
    }
    assert(s@.subrange(start as int, s.len() as int) =~= s@.skip(start as int));
    n
}

/// The last `c` of `s` is at `p` when `s[p]` is `c` and none follows.
pub(crate) proof fn lemma_last_index_at(s: Seq<char>, c: char, p: int)
    requires
        0 <= p < s.len(),
        s[p] == c,
        forall|q: int| p < q < s.len() ==> #[trigger] s[q] != c,
    ensures
        last_index_of(s, c) == p,
    decreases s.len(),
{
    if s.len() - 1 != p {
        let r = s.drop_last();
        assert forall|q: int| p < q < r.len() implies #[trigger] r[q] != c by {
            assert(r[q] == s[q]);
        }
        assert(s.last() == s[s.len() - 1]);
        lemma_last_index_at(r, c, p);
    }
}

/// A character that does not occur has no last index.
pub(crate) proof fn lemma_last_index_absent(s: Seq<char>, c: char)
    requires
        forall|q: int| 0 <= q < s.len() ==> #[trigger] s[q] != c,
    ensures
        last_index_of(s, c) == -1,
    decreases s.len(),
{
    if s.len() > 0 {
        let r = s.drop_last();
        assert forall|q: int| 0 <= q < r.len() implies #[trigger] r[q] != c by {
            assert(r[q] == s[q]);
        }
        assert(s.last() == s[s.len() - 1]);
        lemma_last_index_absent(r, c);
    }
}

/// Text without white space is left as it is.
proof fn lemma_no_white_space(s: Seq<char>)
    requires
        forall|i: int| 0 <= i < s.len() ==> !is_white_space(#[trigger] s[i]),
    ensures
        remove_white_space(s) == s,
    decreases s.len(),
{
    if s.len() > 0 {
        let r = s.drop_last();
        assert forall|i: int| 0 <= i < r.len() implies !is_white_space(#[trigger] r[i]) by {
            assert(r[i] == s[i]);
        }
        lemma_no_white_space(r);
        assert(s[s.len() - 1] == s.last());
        assert(r.push(s.last()) =~= s);
    }
}

/// A run of digits counts every character.
proof fn lemma_count_all_digits(s: Seq<char>)
    requires
        all_digits(s),
    ensures
        count_digits(s) == s.len(),
    decreases s.len(),
{
    if s.len() > 0 {
        let r = s.drop_last();
        assert(all_digits(r)) by {
            assert forall|i: int| 0 <= i < r.len() implies is_ascii_digit(#[trigger] r[i]) by {
                assert(r[i] == s[i]);
            }
        }
        lemma_count_all_digits(r);
        assert(is_ascii_digit(s[s.len() - 1]));
    }
}

/// Digits, one separator `c` (`.` or `,`) and one or two digits read, under
/// the flexible separators, as whole units and a two-digit fraction.
proof fn lemma_lone_separator(whole: Seq<char>, c: char, fraction: Seq<char>)
    requires
        c == '.' || c == ',',
        whole.len() > 0,
        all_digits(whole),
        1 <= fraction.len() <= 2,
        all_digits(fraction),
        digits_value(whole) * 100 + digits_value(fraction) * (if fraction.len() == 1 {
            10int
        } else {
            1int
        }) <= i64::MAX,
    ensures
        ({
            let compact = remove_white_space(whole + seq![c] + fraction);
            let seps = flexible_separators(compact);
            parse_amount(compact, seps.0, seps.1, 2) == AmountParse::Value(
                digits_value(whole) * 100 + digits_value(fraction) * (if fraction.len() == 1 {
                    10int
                } else {
                    1int
                }),
            )
        }),
{
    let point = seq![c];
    let other = if c == '.' {
        ','
    } else {
        '.'
    };
    let text = whole + point + fraction;
    assert forall|i: int| 0 <= i < text.len() implies !is_white_space(#[trigger] text[i]) by {
        if i < whole.len() {
            assert(text[i] == whole[i]);
        } else if i > whole.len() {
            assert(text[i] == fraction[i - whole.len() - 1]);
        }
    }
    lemma_no_white_space(text);
    // The separators: none of the other kind, the one `c` before one or two
    // digits.
    assert forall|q: int| 0 <= q < text.len() implies #[trigger] text[q] != other by {
        if q < whole.len() {
            assert(text[q] == whole[q]);
        } else if q > whole.len() {
            assert(text[q] == fraction[q - whole.len() - 1]);
        }
    }
    lemma_last_index_absent(text, other);
    let w = whole.len() as int;
    assert forall|q: int| w < q < text.len() implies #[trigger] text[q] != c by {
        assert(text[q] == fraction[q - w - 1]);
    }
    lemma_last_index_at(text, c, w);
    assert(text.skip(w + 1) =~= fraction);
    lemma_count_all_digits(fraction);
    assert(flexible_separators(text) == (c, None::<char>));
    // Trimming, keeping and signs leave the text as it is.
    assert(trim(text) == text);
    assert(unsigned_text(text, c, None)) by {
        assert forall|i: int| 0 <= i < text.len() implies (is_ascii_digit(#[trigger] text[i])
            || text[i] == c || None::<char> == Some(text[i])) by {
            if i < w {
                assert(text[i] == whole[i]);
            } else if i > w {
                assert(text[i] == fraction[i - w - 1]);
            }
        }
    }
    lemma_keep_all(text, c, None);
    assert(text.last() == fraction.last());
    assert(normalized_amount(text, c, None) == text);
    assert(text[0] == whole[0]);
    assert(strip_signs(text) == text);
    // One decimal separator, after the whole units.
    assert(has_digit(text)) by {
        assert(is_ascii_digit(text[0]));
    }
    assert forall|i: int| 0 <= i < whole.len() implies #[trigger] whole[i] != c by {
        assert(is_ascii_digit(whole[i]));
    }
    assert forall|i: int| 0 <= i < fraction.len() implies #[trigger] fraction[i] != c by {
        assert(is_ascii_digit(fraction[i]));
    }
    lemma_count_concat(whole + point, fraction, c);
    lemma_count_concat(whole, point, c);
    lemma_count_absent(whole, c);
    lemma_count_absent(fraction, c);
    assert(point.drop_last() =~= Seq::<char>::empty());
    assert(count_char(Seq::<char>::empty(), c) == 0);
    assert(point.last() == c);
    assert(count_char(point, c) == 1);
    assert(text =~= whole + (point + fraction));
    lemma_find_after(whole, point + fraction, c);
    assert((point + fraction)[0] == c);
    assert(find_char(text, c) == w);
    assert(text.take(w) =~= whole);
    assert(text.skip(w + 1) =~= fraction);
    // The value.
    assert(pow10(0) == 1);
    assert(pow10(1) == 10);
    assert(pow10(2) == 100);
    lemma_digits_value_nonneg(whole);
    lemma_digits_value_nonneg(fraction);
    assert(unsigned_amount(text, false, c, 2) == AmountParse::Value(
        digits_value(whole) * 100 + digits_value(fraction) * (if fraction.len() == 1 {
            10int
        } else {
            1int
        }),
    ));
}

/// A lone `.` followed by one or two digits is the decimal separator: an
/// amount typed as digits, a `.` and one or two digits reads as the whole
/// units times 100 plus the fraction written out to two digits (`12.5` is
/// 1250, `12.05` is 1205), whenever that fits in 64 bits.
pub proof fn law_lone_dot_is_decimal(whole: Seq<char>, fraction: Seq<char>)
    requires
        whole.len() > 0,
        all_digits(whole),
        1 <= fraction.len() <= 2,
        all_digits(fraction),
        digits_value(whole) * 100 + digits_value(fraction) * (if fraction.len() == 1 {
            10int
        } else {
            1int
        }) <= i64::MAX,
    ensures
        ({
            let compact = remove_white_space(whole + seq!['.'] + fraction);
            let seps = flexible_separators(compact);
            parse_amount(compact, seps.0, seps.1, 2) == AmountParse::Value(
                digits_value(whole) * 100 + digits_value(fraction) * (if fraction.len() == 1 {
                    10int
                } else {
                    1int
                }),
            )
        }),
{
    lemma_lone_separator(whole, '.', fraction);
}

/// A lone `,` followed by one or two digits is the decimal separator too:
/// `12,5` is 1250 and `12,05` is 1205, whenever that fits in 64 bits.
pub proof fn law_lone_comma_is_decimal(whole: Seq<char>, fraction: Seq<char>)
    requires
        whole.len() > 0,
        all_digits(whole),
        1 <= fraction.len() <= 2,
        all_digits(fraction),
        digits_value(whole) * 100 + digits_value(fraction) * (if fraction.len() == 1 {
            10int
        } else {
            1int
        }) <= i64::MAX,
    ensures
        ({
            let compact = remove_white_space(whole + seq![','] + fraction);
            let seps = flexible_separators(compact);
            parse_amount(compact, seps.0, seps.1, 2) == AmountParse::Value(
                digits_value(whole) * 100 + digits_value(fraction) * (if fraction.len() == 1 {
                    10int
                } else {
                    1int
                }),
            )
        }),
{
    lemma_lone_separator(whole, ',', fraction);
}

/// Parses a two-decimal amount entered by a person, in either `6.500,00` or
/// `6500.00` notation. White space is ignored. Statement imports remain
/// profile-driven; this is only for explicit facts entered by hand.
pub fn parse_flexible_amount_minor(value: &str) -> (r: Result<i64, ImportError>)
    ensures
        ({
            let compact = remove_white_space(value@);
            let seps = flexible_separators(compact);
            amount_result_matches(compact, seps.0, seps.1, 2, r)
        }),
{
    let all = chars_of(value);
    let compact = remove_white_space_exec(&all);
    let last_comma = last_index_exec(&compact, ',');
    let last_dot = last_index_exec(&compact, '.');
    let (decimal_separator, thousands_separator): (char, Option<char>) = match (
        last_comma,
        last_dot,
    ) {
        (Some(comma), Some(dot)) => if comma > dot {
            (',', Some('.'))
        } else {
            ('.', Some(','))
        },
        (Some(_), None) => (',', None),
        (None, Some(dot)) => {
            if count_digits_from(&compact, dot + 1) <= 2 {
                ('.', None)
            } else {
                (',', Some('.'))
            }
        },
        (None, None) => ('.', None),
    };
    let text = string_from_chars(&compact);
    let formats = ValueFormats {
        date: Vec::new(),
        decimal_separator,
        thousands_separator,
        minor_unit_digits: 2,
    };
    parse_amount_minor(text.as_str(), &formats)
}


// ---------------------------------------------------------------------------
// Signs
// ---------------------------------------------------------------------------

/// A separator that cannot be mistaken for a digit, a sign or a parenthesis.
pub open spec fn sign_free(c: char) -> bool {
    !is_ascii_digit(c) && c != '+' && c != '-' && c != '(' && c != ')'
}

/// A separator that is neither a digit, a sign, a parenthesis nor white
/// space.
pub open spec fn plain_separator(c: char) -> bool {
    sign_free(c) && !is_white_space(c)
}

/// `u` is made only of ASCII digits and the given separators.
pub open spec fn unsigned_text(u: Seq<char>, decimal: char, thousands: Option<char>) -> bool {
    forall|i: int|
        0 <= i < u.len() ==> (is_ascii_digit(#[trigger] u[i]) || u[i] == decimal || thousands
            == Some(u[i]))
}

proof fn lemma_keep_concat(a: Seq<char>, b: Seq<char>, decimal: char, thousands: Option<char>)
    ensures
        keep_money_chars(a + b, decimal, thousands) == keep_money_chars(a, decimal, thousands)
            + keep_money_chars(b, decimal, thousands),
    decreases b.len(),
{
    if b.len() == 0 {
        assert(a + b =~= a);
        assert(keep_money_chars(a, decimal, thousands) + keep_money_chars(b, decimal, thousands)
            =~= keep_money_chars(a, decimal, thousands));
    } else {
        lemma_keep_concat(a, b.drop_last(), decimal, thousands);
        assert((a + b).drop_last() =~= a + b.drop_last());
        assert((a + b).last() == b.last());
        let ka = keep_money_chars(a, decimal, thousands);
        let kb = keep_money_chars(b.drop_last(), decimal, thousands);
        assert((ka + kb).push(b.last()) =~= ka + kb.push(b.last()));
    }
}

proof fn lemma_keep_one(c: char, decimal: char, thousands: Option<char>)
    ensures
        keep_money_chars(seq![c], decimal, thousands) == if money_char(c, decimal, thousands) {
            seq![c]
        } else {
            Seq::<char>::empty()
        },
{
    let s = seq![c];
    assert(s.drop_last() =~= Seq::<char>::empty());
    assert(s.last() == c);
    assert(keep_money_chars(s.drop_last(), decimal, thousands) == s.drop_last());
    assert(s.drop_last().push(c) =~= s);
}

proof fn lemma_remove_one(c: char, x: char)
    requires
        c != x,
    ensures
        remove_char(seq![c], x) == seq![c],
{
    let s = seq![c];
    assert(s.drop_last() =~= Seq::<char>::empty());
    assert(s.last() == c);
    assert(remove_char(s.drop_last(), x) == s.drop_last());
    assert(s.drop_last().push(c) =~= s);
}

proof fn lemma_keep_all(u: Seq<char>, decimal: char, thousands: Option<char>)
    requires
        unsigned_text(u, decimal, thousands),
    ensures
        keep_money_chars(u, decimal, thousands) == u,
    decreases u.len(),
{
    if u.len() > 0 {
        let t = u.drop_last();
        assert(unsigned_text(t, decimal, thousands)) by {
            assert forall|i: int| 0 <= i < t.len() implies (is_ascii_digit(#[trigger] t[i]) || t[i]
                == decimal || thousands == Some(t[i])) by {
                assert(t[i] == u[i]);
            }
        }
        lemma_keep_all(t, decimal, thousands);
        assert(u[u.len() - 1] == u.last());
        assert(t.push(u.last()) =~= u);
    }
}

proof fn lemma_remove_concat(a: Seq<char>, b: Seq<char>, c: char)
    ensures
        remove_char(a + b, c) == remove_char(a, c) + remove_char(b, c),
    decreases b.len(),
{
    if b.len() == 0 {
        assert(a + b =~= a);
        assert(remove_char(a, c) + remove_char(b, c) =~= remove_char(a, c));
    } else {
        lemma_remove_concat(a, b.drop_last(), c);
        assert((a + b).drop_last() =~= a + b.drop_last());
        assert((a + b).last() == b.last());
        let ra = remove_char(a, c);
        let rb = remove_char(b.drop_last(), c);
        assert((ra + rb).push(b.last()) =~= ra + rb.push(b.last()));
    }
}

/// Without its thousands separators, an unsigned text has no sign.
proof fn lemma_no_signs(u: Seq<char>, decimal: char, thousands: Option<char>)
    requires
        unsigned_text(u, decimal, thousands),
        sign_free(decimal),
        thousands matches Some(t) ==> sign_free(t),
    ensures
        ({
            let w = match thousands {
                Some(t) => remove_char(u, t),
                None => u,
            };
            &&& strip_signs(w) == w
            &&& w.len() == 0 || (w[0] != '-' && w[0] != '+')
        }),
    decreases u.len(),
{
    if u.len() > 0 {
        let t = u.drop_last();
        assert(unsigned_text(t, decimal, thousands)) by {
            assert forall|i: int| 0 <= i < t.len() implies (is_ascii_digit(#[trigger] t[i]) || t[i]
                == decimal || thousands == Some(t[i])) by {
                assert(t[i] == u[i]);
            }
        }
        lemma_no_signs(t, decimal, thousands);
        assert(u[u.len() - 1] == u.last());
    }
}

proof fn lemma_negated(w: Seq<char>, decimal: char, minor_digits: u32, v: int)
    requires
        unsigned_amount(w, false, decimal, minor_digits) == AmountParse::Value(v),
    ensures
        v >= 0,
        unsigned_amount(w, true, decimal, minor_digits) == AmountParse::Value(-v),
{
    let m = minor_digits as nat;
    let at = find_char(w, decimal);
    let whole = w.take(at);
    let fraction = if at < w.len() {
        w.skip(at + 1)
    } else {
        Seq::empty()
    };
    lemma_digits_value_nonneg(whole);
    lemma_digits_value_nonneg(fraction);
    lemma_pow10_monotone(0, m);
    lemma_pow10_monotone(0, (m - fraction.len()) as nat);
    let fv = digits_value(fraction) * pow10((m - fraction.len()) as nat);
    assert(fv >= 0) by (nonlinear_arith)
        requires
            digits_value(fraction) >= 0,
            pow10((m - fraction.len()) as nat) >= 1,
            fv == digits_value(fraction) * pow10((m - fraction.len()) as nat),
    ;
    assert(digits_value(whole) * pow10(m) >= 0) by (nonlinear_arith)
        requires
            digits_value(whole) >= 0,
            pow10(m) >= 1,
    ;
}

/// Every white-space character of `s` is `t`.
pub open spec fn white_only(s: Seq<char>, t: char) -> bool {
    forall|i: int| 0 <= i < s.len() && is_white_space(#[trigger] s[i]) ==> s[i] == t
}

/// Trimming the start drops a prefix of white space.
proof fn lemma_trim_start_skip(s: Seq<char>) -> (k: int)
    ensures
        0 <= k <= s.len(),
        trim_start(s) == s.skip(k),
        forall|i: int| 0 <= i < k ==> is_white_space(#[trigger] s[i]),
    decreases s.len(),
{
    if s.len() > 0 && is_white_space(s[0]) {
        let rest = s.drop_first();
        let k = lemma_trim_start_skip(rest);
        assert(rest.skip(k) =~= s.skip(k + 1));
        assert forall|i: int| 0 <= i < k + 1 implies is_white_space(#[trigger] s[i]) by {
            if i > 0 {
                assert(s[i] == rest[i - 1]);
            }
        }
        k + 1
    } else {
        assert(s.skip(0) =~= s);
        0
    }
}

/// Trimming the end keeps a prefix, dropping white space.
proof fn lemma_trim_end_take(s: Seq<char>) -> (k: int)
    ensures
        0 <= k <= s.len(),
        trim_end(s) == s.take(k),
        forall|i: int| k <= i < s.len() ==> is_white_space(#[trigger] s[i]),
    decreases s.len(),
{
    if s.len() > 0 && is_white_space(s.last()) {
        let rest = s.drop_last();
        let k = lemma_trim_end_take(rest);
        assert(rest.take(k) =~= s.take(k));
        assert forall|i: int| k <= i < s.len() implies is_white_space(#[trigger] s[i]) by {
            if i < rest.len() {
                assert(s[i] == rest[i]);
            }
        }
        k
    } else {
        assert(s.take(s.len() as int) =~= s);
        s.len() as int
    }
}

/// What is left after trimming the end of `s` is empty only when `s` is all
/// white space.
proof fn lemma_trim_end_empty(s: Seq<char>)
    requires
        trim_end(s).len() == 0,
    ensures
        forall|i: int| 0 <= i < s.len() ==> is_white_space(#[trigger] s[i]),
    decreases s.len(),
{
    if s.len() > 0 {
        let t = s.drop_last();
        lemma_trim_end_empty(t);
        assert forall|i: int| 0 <= i < s.len() implies is_white_space(#[trigger] s[i]) by {
            if i < t.len() {
                assert(s[i] == t[i]);
            }
        }
    }
}

proof fn lemma_trim_start_all_white(s: Seq<char>)
    requires
        forall|i: int| 0 <= i < s.len() ==> is_white_space(#[trigger] s[i]),
    ensures
        trim_start(s).len() == 0,
    decreases s.len(),
{
    if s.len() > 0 {
        let t = s.drop_first();
        assert forall|i: int| 0 <= i < t.len() implies is_white_space(#[trigger] t[i]) by {
            assert(t[i] == s[i + 1]);
        }
        assert(is_white_space(s[0]));
        lemma_trim_start_all_white(t);
    }
}

/// A text whose end is kept by trimming keeps what stands before it.
proof fn lemma_trim_end_concat(a: Seq<char>, b: Seq<char>)
    requires
        trim_end(b).len() > 0,
    ensures
        trim_end(a + b) == a + trim_end(b),
    decreases b.len(),
{
    assert(b.len() > 0);
    assert((a + b).last() == b.last());
    if is_white_space(b.last()) {
        assert((a + b).drop_last() =~= a + b.drop_last());
        lemma_trim_end_concat(a, b.drop_last());
    }
}

/// A text whose start is kept by trimming keeps what follows it.
proof fn lemma_trim_start_concat(a: Seq<char>, b: Seq<char>)
    requires
        trim_start(a).len() > 0,
    ensures
        trim_start(a + b) == trim_start(a) + b,
    decreases a.len(),
{
    assert(a.len() > 0);
    assert((a + b)[0] == a[0]);
    if is_white_space(a[0]) {
        assert((a + b).drop_first() =~= a.drop_first() + b);
        lemma_trim_start_concat(a.drop_first(), b);
    }
}

/// Removing `t` from a text whose leading white space is all `t` removes
/// that white space too.
proof fn lemma_remove_trim_start(s: Seq<char>, t: char)
    requires
        white_only(s, t),
    ensures
        remove_char(trim_start(s), t) == remove_char(s, t),
    decreases s.len(),
{
    if s.len() > 0 && is_white_space(s[0]) {
        let rest = s.drop_first();
        assert(white_only(rest, t)) by {
            assert forall|i: int| 0 <= i < rest.len() && is_white_space(#[trigger] rest[i])
                implies rest[i] == t by {
                assert(rest[i] == s[i + 1]);
            }
        }
        lemma_remove_trim_start(rest, t);
        assert(s =~= seq![s[0]] + rest);
        lemma_remove_concat(seq![s[0]], rest, t);
        let one = seq![t];
        assert(one.drop_last() =~= Seq::<char>::empty());
        assert(remove_char(one, t) == remove_char(Seq::<char>::empty(), t));
        assert(remove_char(one, t) + remove_char(rest, t) =~= remove_char(rest, t));
    }
}

/// Removing `t` from a text whose trailing white space is all `t` removes
/// that white space too.
proof fn lemma_remove_trim_end(s: Seq<char>, t: char)
    requires
        white_only(s, t),
    ensures
        remove_char(trim_end(s), t) == remove_char(s, t),
    decreases s.len(),
{
    if s.len() > 0 && is_white_space(s.last()) {
        let rest = s.drop_last();
        assert(white_only(rest, t)) by {
            assert forall|i: int| 0 <= i < rest.len() && is_white_space(#[trigger] rest[i])
                implies rest[i] == t by {
                assert(rest[i] == s[i]);
            }
        }
        assert(s[s.len() - 1] == s.last());
        lemma_remove_trim_end(rest, t);
    }
}

/// An unsigned text keeps its characters through a prefix or a suffix.
proof fn lemma_unsigned_part(u: Seq<char>, decimal: char, thousands: Option<char>, a: int, b: int)
    requires
        unsigned_text(u, decimal, thousands),
        0 <= a <= b <= u.len(),
    ensures
        unsigned_text(u.subrange(a, b), decimal, thousands),
{
    let p = u.subrange(a, b);
    assert forall|i: int| 0 <= i < p.len() implies (is_ascii_digit(#[trigger] p[i]) || p[i]
        == decimal || thousands == Some(p[i])) by {
        assert(p[i] == u[i + a]);
    }
}

/// The sign law where the thousands separator is white space: trimming then
/// takes only separators, which are removed anyway.
proof fn lemma_signs_white_thousands(
    u: Seq<char>,
    decimal: char,
    t: char,
    minor_digits: u32,
    v: int,
)
    requires
        t != decimal,
        plain_separator(decimal),
        sign_free(t),
        is_white_space(t),
        unsigned_text(u, decimal, Some(t)),
        parse_amount(u, decimal, Some(t), minor_digits) == AmountParse::Value(v),
    ensures
        v >= 0,
        parse_amount(seq!['-'] + u, decimal, Some(t), minor_digits) == AmountParse::Value(-v),
        parse_amount(u.push('-'), decimal, Some(t), minor_digits) == AmountParse::Value(-v),
        parse_amount(seq!['('] + u.push(')'), decimal, Some(t), minor_digits)
            == AmountParse::Value(-v),
        parse_amount(seq!['+'] + u, decimal, Some(t), minor_digits) == AmountParse::Value(v),
{
    let th = Some(t);
    let ts = trim_start(u);
    let te = trim_end(u);
    let tu = trim(u);
    assert(tu.len() > 0);
    // The parts that trimming keeps are parts of `u`.
    let ks = lemma_trim_start_skip(u);
    assert(ts =~= u.subrange(ks, u.len() as int));
    lemma_unsigned_part(u, decimal, th, ks, u.len() as int);
    let ke = lemma_trim_end_take(u);
    assert(te =~= u.subrange(0, ke));
    lemma_unsigned_part(u, decimal, th, 0, ke);
    let kt = lemma_trim_end_take(ts);
    assert(tu =~= ts.subrange(0, kt));
    lemma_unsigned_part(ts, decimal, th, 0, kt);
    // Neither end is all white space.
    if ts.len() == 0 {
        assert(tu =~= ts);
    }
    if te.len() == 0 {
        lemma_trim_end_empty(u);
        lemma_trim_start_all_white(u);
        assert(tu =~= ts);
    }
    assert(white_only(u, t));
    assert(white_only(ts, t));
    let w = remove_char(u, t);
    lemma_remove_trim_start(u, t);
    lemma_remove_trim_end(u, t);
    lemma_remove_trim_end(ts, t);
    assert(remove_char(tu, t) == w);
    lemma_no_signs(u, decimal, th);
    // `u` itself.
    lemma_keep_all(tu, decimal, th);
    assert(tu.last() == tu[tu.len() - 1]);
    assert(normalized_amount(tu, decimal, th) == w);
    assert(unsigned_amount(w, false, decimal, minor_digits) == AmountParse::Value(v));
    lemma_negated(w, decimal, minor_digits, v);
    let dash = seq!['-'];
    let plus = seq!['+'];
    let open = seq!['('];
    let close = seq![')'];
    lemma_keep_one('-', decimal, th);
    lemma_keep_one('+', decimal, th);
    lemma_keep_one('(', decimal, th);
    lemma_keep_one(')', decimal, th);
    lemma_remove_one('-', t);
    lemma_remove_one('+', t);
    lemma_keep_all(te, decimal, th);
    lemma_keep_all(ts, decimal, th);
    lemma_keep_all(u, decimal, th);
    // `-u` and `+u`
    let x1 = dash + u;
    assert((dash + u)[0] == '-');
    assert(trim_start(x1) == x1);
    lemma_trim_end_concat(dash, u);
    assert(trim(x1) == dash + te);
    lemma_keep_concat(dash, te, decimal, th);
    assert(te.last() == te[te.len() - 1]);
    assert((dash + te).last() == te.last());
    lemma_remove_concat(dash, te, t);
    assert(normalized_amount(trim(x1), decimal, th) == dash + w);
    assert(strip_signs(dash + w) == strip_signs(w)) by {
        assert((dash + w).drop_first() =~= w);
    }
    let x4 = plus + u;
    assert((plus + u)[0] == '+');
    assert(trim_start(x4) == x4);
    lemma_trim_end_concat(plus, u);
    assert(trim(x4) == plus + te);
    lemma_keep_concat(plus, te, decimal, th);
    assert((plus + te).last() == te.last());
    lemma_remove_concat(plus, te, t);
    assert(normalized_amount(trim(x4), decimal, th) == plus + w);
    assert(strip_signs(plus + w) == strip_signs(w)) by {
        assert((plus + w).drop_first() =~= w);
    }
    // `u-`
    let x2 = u.push('-');
    assert(x2 =~= u + dash);
    lemma_trim_start_concat(u, dash);
    assert(trim_start(x2) == ts + dash);
    assert((ts + dash).last() == '-');
    assert(trim(x2) == ts + dash);
    lemma_keep_concat(ts, dash, decimal, th);
    assert((ts + dash).drop_last() =~= ts);
    lemma_remove_concat(dash, ts, t);
    assert(normalized_amount(trim(x2), decimal, th) == dash + w);
    // `(u)`
    let x3 = open + u.push(')');
    assert(x3 =~= open + (u + close));
    assert(x3[0] == '(' && x3.last() == ')');
    assert(trim(x3) == x3);
    lemma_keep_concat(open, u + close, decimal, th);
    lemma_keep_concat(u, close, decimal, th);
    assert(keep_money_chars(x3, decimal, th) =~= u);
    assert(normalized_amount(trim(x3), decimal, th) == w);
}

/// `s` without its thousands separators, where the formats have one.
pub open spec fn without_thousands(s: Seq<char>, thousands: Option<char>) -> Seq<char> {
    match thousands {
        Some(t) => remove_char(s, t),
        None => s,
    }
}

/// Trimming `u` takes no decimal separator off its start, and off its end at
/// most the one decimal separator that `u` holds.
pub open spec fn trim_keeps_decimal(u: Seq<char>, decimal: char) -> bool {
    &&& count_char(trim_start(u), decimal) == count_char(u, decimal)
    &&& (count_char(trim(u), decimal) == count_char(u, decimal) || (count_char(u, decimal) == 1
        && count_char(trim(u), decimal) == 0))
}

proof fn lemma_without_concat(a: Seq<char>, b: Seq<char>, thousands: Option<char>)
    ensures
        without_thousands(a + b, thousands) == without_thousands(a, thousands)
            + without_thousands(b, thousands),
{
    if let Some(t) = thousands {
        lemma_remove_concat(a, b, t);
    }
}

/// A text made only of separators keeps, without its thousands separators,
/// just its decimal separators.
proof fn lemma_only_separators(s: Seq<char>, decimal: char, thousands: Option<char>)
    requires
        thousands != Some(decimal),
        forall|i: int| 0 <= i < s.len() ==> #[trigger] s[i] == decimal || thousands == Some(s[i]),
    ensures
        without_thousands(s, thousands) == Seq::new(count_char(s, decimal), |i: int| decimal),
    decreases s.len(),
{
    if s.len() == 0 {
        assert(without_thousands(s, thousands) =~= Seq::new(0, |i: int| decimal));
    } else {
        let r = s.drop_last();
        assert forall|i: int| 0 <= i < r.len() implies #[trigger] r[i] == decimal || thousands
            == Some(r[i]) by {
            assert(r[i] == s[i]);
        }
        lemma_only_separators(r, decimal, thousands);
        assert(s[s.len() - 1] == s.last());
        let before = Seq::new(count_char(r, decimal), |i: int| decimal);
        if s.last() == decimal {
            assert(s =~= r.push(decimal));
            assert(before.push(decimal) =~= Seq::new(count_char(s, decimal), |i: int| decimal));
        } else {
            assert(count_char(s, decimal) == count_char(r, decimal));
        }
    }
}

/// Removing another character leaves the count of `c` as it was.
proof fn lemma_count_remove(s: Seq<char>, t: char, c: char)
    requires
        t != c,
    ensures
        count_char(remove_char(s, t), c) == count_char(s, c),
    decreases s.len(),
{
    if s.len() > 0 {
        lemma_count_remove(s.drop_last(), t, c);
        let r = remove_char(s.drop_last(), t);
        if s.last() != t {
            assert(r.push(s.last()).drop_last() =~= r);
        }
    }
}

/// A character counted zero times does not occur.
proof fn lemma_count_zero(s: Seq<char>, c: char)
    requires
        count_char(s, c) == 0,
    ensures
        forall|i: int| 0 <= i < s.len() ==> #[trigger] s[i] != c,
    decreases s.len(),
{
    if s.len() > 0 {
        let r = s.drop_last();
        lemma_count_zero(r, c);
        assert forall|i: int| 0 <= i < s.len() implies #[trigger] s[i] != c by {
            if i < r.len() {
                assert(s[i] == r[i]);
            }
        }
    }
}

/// A decimal separator at the very end, after digits that have none, adds
/// an empty fraction and leaves the amount as it is.
proof fn lemma_trailing_decimal(x: Seq<char>, negative: bool, decimal: char, minor_digits: u32)
    requires
        x.len() > 0,
        !is_ascii_digit(decimal),
        forall|i: int| 0 <= i < x.len() ==> #[trigger] x[i] != decimal,
    ensures
        unsigned_amount(x.push(decimal), negative, decimal, minor_digits) == unsigned_amount(
            x,
            negative,
            decimal,
            minor_digits,
        ),
{
    let y = x.push(decimal);
    assert(has_digit(y) == has_digit(x)) by {
        if has_digit(x) {
            let i = choose|i: int| 0 <= i < x.len() && is_ascii_digit(#[trigger] x[i]);
            assert(y[i] == x[i]);
        }
        if has_digit(y) {
            let i = choose|i: int| 0 <= i < y.len() && is_ascii_digit(#[trigger] y[i]);
            if i < x.len() {
                assert(x[i] == y[i]);
            }
        }
    }
    lemma_count_absent(x, decimal);
    assert(y.drop_last() =~= x);
    assert(count_char(y, decimal) == 1);
    lemma_find_after(x, seq![decimal], decimal);
    assert(x + seq![decimal] =~= y);
    lemma_find_after(x, Seq::<char>::empty(), decimal);
    assert(x + Seq::<char>::empty() =~= x);
    assert(find_char(y, decimal) == x.len());
    assert(find_char(x, decimal) == x.len());
    assert(y.take(x.len() as int) =~= x);
    assert(x.take(x.len() as int) =~= x);
    assert(y.skip(x.len() + 1int) =~= Seq::<char>::empty());
}

/// `u` split into the white space that trimming takes off its start, the
/// trimmed text, and the white space taken off its end.
spec fn trimmed_split(u: Seq<char>, lead: Seq<char>, core: Seq<char>, trail: Seq<char>) -> bool {
    &&& u == lead + core + trail
    &&& core.len() > 0
    &&& trim(u) == core
    &&& trim_start(u) == core + trail
    &&& trim_end(u) == lead + core
}

/// Splits `u` at its trimmed white space. Its thousands separators gone,
/// the white space at the start leaves nothing, and the white space at the
/// end leaves nothing or the one decimal separator.
proof fn lemma_split_at_trim(u: Seq<char>, decimal: char, thousands: Option<char>) -> (parts: (
    Seq<char>,
    Seq<char>,
    Seq<char>,
))
    requires
        thousands != Some(decimal),
        unsigned_text(u, decimal, thousands),
        trim_keeps_decimal(u, decimal),
        trim(u).len() > 0,
    ensures
        trimmed_split(u, parts.0, parts.1, parts.2),
        unsigned_text(parts.0, decimal, thousands),
        unsigned_text(parts.1, decimal, thousands),
        unsigned_text(parts.2, decimal, thousands),
        without_thousands(parts.0, thousands) == Seq::<char>::empty(),
        without_thousands(parts.2, thousands) == Seq::<char>::empty() || (without_thousands(
            parts.2,
            thousands,
        ) == seq![decimal] && count_char(parts.1, decimal) == 0),
{
    let d = decimal;
    let th = thousands;
    let ks = lemma_trim_start_skip(u);
    let ts = trim_start(u);
    let lead = u.take(ks);
    assert(u =~= lead + ts);
    let kt = lemma_trim_end_take(ts);
    let tu = trim(u);
    let trail = ts.skip(kt);
    assert(ts =~= tu + trail);
    assert(ts.len() > 0) by {
        if ts.len() == 0 {
            assert(tu =~= ts);
        }
    }
    lemma_unsigned_part(u, d, th, 0, ks);
    assert(lead =~= u.subrange(0, ks));
    lemma_unsigned_part(u, d, th, ks, u.len() as int);
    assert(ts =~= u.subrange(ks, u.len() as int));
    lemma_unsigned_part(ts, d, th, 0, kt);
    assert(tu =~= ts.subrange(0, kt));
    lemma_unsigned_part(ts, d, th, kt, ts.len() as int);
    assert(trail =~= ts.subrange(kt, ts.len() as int));
    assert forall|i: int| 0 <= i < lead.len() implies #[trigger] lead[i] == d || th == Some(
        lead[i],
    ) by {
        assert(lead[i] == u[i]);
        assert(is_white_space(u[i]));
    }
    assert forall|i: int| 0 <= i < trail.len() implies #[trigger] trail[i] == d || th == Some(
        trail[i],
    ) by {
        assert(trail[i] == ts[i + kt]);
        assert(is_white_space(ts[i + kt]));
    }
    lemma_count_concat(lead, ts, d);
    lemma_count_concat(tu, trail, d);
    lemma_only_separators(lead, d, th);
    lemma_only_separators(trail, d, th);
    assert(without_thousands(lead, th) =~= Seq::<char>::empty());
    if count_char(trail, d) == 0 {
        assert(without_thousands(trail, th) =~= Seq::<char>::empty());
    } else {
        assert(without_thousands(trail, th) =~= seq![d]);
    }
    lemma_trim_end_concat(lead, ts);
    assert(u =~= lead + tu + trail);
    (lead, tu, trail)
}

/// The amount of the trimmed text and what the white space at its end
/// leaves of it.
proof fn lemma_core_amount(
    core: Seq<char>,
    tail: Seq<char>,
    decimal: char,
    thousands: Option<char>,
    minor_digits: u32,
    v: int,
)
    requires
        thousands != Some(decimal),
        sign_free(decimal),
        thousands matches Some(t) ==> sign_free(t),
        unsigned_text(core, decimal, thousands),
        core.len() > 0,
        tail == Seq::<char>::empty() || (tail == seq![decimal] && count_char(core, decimal) == 0),
        unsigned_amount(
            strip_signs(without_thousands(core, thousands)),
            false,
            decimal,
            minor_digits,
        ) == AmountParse::Value(v),
    ensures
        ({
            let x = without_thousands(core, thousands);
            let y = x + tail;
            &&& v >= 0
            &&& x.len() > 0 && x[0] != '-' && x[0] != '+'
            &&& strip_signs(x) == x
            &&& strip_signs(y) == y
            &&& unsigned_amount(x, true, decimal, minor_digits) == AmountParse::Value(-v)
            &&& unsigned_amount(y, true, decimal, minor_digits) == AmountParse::Value(-v)
        }),
{
    let d = decimal;
    let th = thousands;
    let x = without_thousands(core, th);
    let y = x + tail;
    lemma_no_signs(core, d, th);
    assert(x.len() > 0);
    lemma_negated(x, d, minor_digits, v);
    if tail.len() == 0 {
        assert(y =~= x);
    } else {
        if let Some(t) = th {
            lemma_count_remove(core, t, d);
        }
        lemma_count_zero(x, d);
        lemma_trailing_decimal(x, true, d, minor_digits);
        assert(y =~= x.push(d));
    }
    assert(y[0] == x[0]);
}

/// The sign law where the decimal separator is white space and trimming
/// keeps it.
#[verifier::rlimit(50)]
proof fn lemma_signs_white_decimal(
    u: Seq<char>,
    decimal: char,
    thousands: Option<char>,
    minor_digits: u32,
    v: int,
)
    requires
        thousands != Some(decimal),
        sign_free(decimal),
        is_white_space(decimal),
        thousands matches Some(t) ==> sign_free(t),
        unsigned_text(u, decimal, thousands),
        trim_keeps_decimal(u, decimal),
        parse_amount(u, decimal, thousands, minor_digits) == AmountParse::Value(v),
    ensures
        v >= 0,
        parse_amount(seq!['-'] + u, decimal, thousands, minor_digits) == AmountParse::Value(-v),
        parse_amount(u.push('-'), decimal, thousands, minor_digits) == AmountParse::Value(-v),
        parse_amount(seq!['('] + u.push(')'), decimal, thousands, minor_digits)
            == AmountParse::Value(-v),
        parse_amount(seq!['+'] + u, decimal, thousands, minor_digits) == AmountParse::Value(v),
{
    let d = decimal;
    let th = thousands;
    assert(trim(u).len() > 0);
    let (lead, core, trail) = lemma_split_at_trim(u, d, th);
    let x = without_thousands(core, th);
    let tail = without_thousands(trail, th);
    let y = x + tail;
    // `u` itself.
    lemma_keep_all(core, d, th);
    lemma_no_signs(core, d, th);
    assert(core.last() == core[core.len() - 1]);
    assert(core[0] != '(');
    assert(normalized_amount(core, d, th) == x);
    assert(unsigned_amount(strip_signs(x), false, d, minor_digits) == AmountParse::Value(v));
    lemma_core_amount(core, tail, d, th, minor_digits, v);
    lemma_signed_forms(u, lead, core, trail, d, th);
    let dash = seq!['-'];
    let plus = seq!['+'];
    assert(strip_signs(dash + x) == x) by {
        assert((dash + x).drop_first() =~= x);
    }
    assert(strip_signs(plus + x) == x) by {
        assert((plus + x).drop_first() =~= x);
    }
    assert(strip_signs(dash + y) == y) by {
        assert((dash + y).drop_first() =~= y);
    }
}

/// What the signed forms of `u` leave once trimmed, with the money
/// characters kept and the thousands separators removed.
#[verifier::rlimit(50)]
proof fn lemma_signed_forms(
    u: Seq<char>,
    lead: Seq<char>,
    core: Seq<char>,
    trail: Seq<char>,
    decimal: char,
    thousands: Option<char>,
)
    requires
        thousands != Some(decimal),
        sign_free(decimal),
        thousands matches Some(t) ==> sign_free(t),
        trimmed_split(u, lead, core, trail),
        unsigned_text(lead, decimal, thousands),
        unsigned_text(core, decimal, thousands),
        unsigned_text(trail, decimal, thousands),
        without_thousands(lead, thousands) == Seq::<char>::empty(),
    ensures
        ({
            let x = without_thousands(core, thousands);
            let y = x + without_thousands(trail, thousands);
            &&& normalized_amount(trim(seq!['-'] + u), decimal, thousands) == seq!['-'] + x
            &&& normalized_amount(trim(seq!['+'] + u), decimal, thousands) == seq!['+'] + x
            &&& normalized_amount(trim(u.push('-')), decimal, thousands) == seq!['-'] + y
            &&& normalized_amount(trim(seq!['('] + u.push(')')), decimal, thousands) == y
            &&& trim(seq!['-'] + u)[0] == '-'
            &&& trim(seq!['+'] + u)[0] == '+'
            &&& trim(u.push('-'))[0] != '('
            &&& trim(seq!['('] + u.push(')'))[0] == '('
            &&& trim(seq!['('] + u.push(')')).last() == ')'
            &&& trim(seq!['-'] + u).len() > 0
            &&& trim(seq!['+'] + u).len() > 0
            &&& trim(u.push('-')).len() > 0
        }),
{
    let d = decimal;
    let th = thousands;
    let x = without_thousands(core, th);
    let tail = without_thousands(trail, th);
    let y = x + tail;
    let dash = seq!['-'];
    let plus = seq!['+'];
    let open = seq!['('];
    let close = seq![')'];
    lemma_keep_one('-', d, th);
    lemma_keep_one('+', d, th);
    lemma_keep_one('(', d, th);
    lemma_keep_one(')', d, th);
    lemma_keep_all(lead, d, th);
    lemma_keep_all(core, d, th);
    lemma_keep_all(trail, d, th);
    assert(without_thousands(dash, th) == dash) by {
        if let Some(t) = th {
            lemma_remove_one('-', t);
        }
    }
    assert(without_thousands(plus, th) == plus) by {
        if let Some(t) = th {
            lemma_remove_one('+', t);
        }
    }
    assert(core.last() == core[core.len() - 1]);
    // `-u` and `+u`: the end of `u` is trimmed.
    let x1 = dash + u;
    assert((dash + u)[0] == '-');
    assert(trim_start(x1) == x1);
    lemma_trim_end_concat(dash, u);
    assert(trim(x1) == dash + (lead + core));
    lemma_keep_concat(dash, lead + core, d, th);
    lemma_keep_concat(lead, core, d, th);
    assert((dash + (lead + core)).last() == core.last());
    lemma_without_concat(dash, lead + core, th);
    lemma_without_concat(lead, core, th);
    assert(normalized_amount(trim(x1), d, th) =~= dash + x);
    let x4 = plus + u;
    assert((plus + u)[0] == '+');
    assert(trim_start(x4) == x4);
    lemma_trim_end_concat(plus, u);
    assert(trim(x4) == plus + (lead + core));
    lemma_keep_concat(plus, lead + core, d, th);
    assert((plus + (lead + core)).last() == core.last());
    lemma_without_concat(plus, lead + core, th);
    assert(normalized_amount(trim(x4), d, th) =~= plus + x);
    // `u-`: the start of `u` is trimmed.
    let ts = core + trail;
    let x2 = u.push('-');
    assert(x2 =~= u + dash);
    lemma_trim_start_concat(u, dash);
    assert((ts + dash).last() == '-');
    assert(trim(x2) == ts + dash);
    assert((ts + dash)[0] == core[0]);
    lemma_keep_concat(ts, dash, d, th);
    lemma_keep_concat(core, trail, d, th);
    assert((ts + dash).drop_last() =~= ts);
    lemma_without_concat(dash, ts, th);
    lemma_without_concat(core, trail, th);
    assert(normalized_amount(trim(x2), d, th) =~= dash + y);
    // `(u)`: nothing is trimmed.
    let x3 = open + u.push(')');
    assert(x3 =~= open + (u + close));
    assert(x3[0] == '(' && x3.last() == ')');
    assert(trim(x3) == x3);
    lemma_keep_concat(open, u + close, d, th);
    lemma_keep_concat(u, close, d, th);
    lemma_keep_concat(lead + core, trail, d, th);
    lemma_keep_concat(lead, core, d, th);
    assert(keep_money_chars(x3, d, th) =~= u);
    assert(u.last() == u[u.len() - 1]);
    assert(u.len() > 0);
    lemma_without_concat(lead + core, trail, th);
    assert(normalized_amount(trim(x3), d, th) =~= y);
}

/// The sign law where no separator is white space: trimming leaves every
/// text as it is.
#[verifier::rlimit(50)]
proof fn lemma_signs_plain_separators(
    u: Seq<char>,
    decimal: char,
    thousands: Option<char>,
    minor_digits: u32,
    v: int,
)
    requires
        thousands != Some(decimal),
        plain_separator(decimal),
        thousands matches Some(t) ==> plain_separator(t),
        unsigned_text(u, decimal, thousands),
        parse_amount(u, decimal, thousands, minor_digits) == AmountParse::Value(v),
    ensures
        v >= 0,
        parse_amount(seq!['-'] + u, decimal, thousands, minor_digits) == AmountParse::Value(-v),
        parse_amount(u.push('-'), decimal, thousands, minor_digits) == AmountParse::Value(-v),
        parse_amount(seq!['('] + u.push(')'), decimal, thousands, minor_digits)
            == AmountParse::Value(-v),
        parse_amount(seq!['+'] + u, decimal, thousands, minor_digits) == AmountParse::Value(v),
{
    // `u` is not empty, and neither it nor the signed texts have white
    // space at either end, so trimming leaves them as they are.
    assert(u.len() > 0);
    assert(!is_white_space(u[0]));
    assert(!is_white_space(u.last()));
    assert(trim(u) == u);
    let w = match thousands {
        Some(t) => remove_char(u, t),
        None => u,
    };
    lemma_keep_all(u, decimal, thousands);
    lemma_no_signs(u, decimal, thousands);
    assert(normalized_amount(u, decimal, thousands) == w);
    assert(unsigned_amount(w, false, decimal, minor_digits) == AmountParse::Value(v));
    lemma_negated(w, decimal, minor_digits, v);
    let sign_dash = seq!['-'];
    let sign_plus = seq!['+'];
    let open = seq!['('];
    let close = seq![')'];
    // keep and remove through the concatenations
    lemma_keep_concat(sign_dash, u, decimal, thousands);
    lemma_keep_concat(sign_plus, u, decimal, thousands);
    lemma_keep_concat(u, sign_dash, decimal, thousands);
    lemma_keep_concat(open, u, decimal, thousands);
    lemma_keep_concat(u, close, decimal, thousands);
    lemma_keep_one('-', decimal, thousands);
    lemma_keep_one('+', decimal, thousands);
    lemma_keep_one('(', decimal, thousands);
    lemma_keep_one(')', decimal, thousands);
    if let Some(t) = thousands {
        lemma_remove_concat(sign_dash, u, t);
        lemma_remove_concat(sign_plus, u, t);
        lemma_remove_one('-', t);
        lemma_remove_one('+', t);
    }
    // `-u`
    let x1 = sign_dash + u;
    assert(x1[0] == '-' && x1.last() == u.last());
    assert(trim(x1) == x1);
    assert(keep_money_chars(x1, decimal, thousands) == x1);
    assert(normalized_amount(x1, decimal, thousands) =~= sign_dash + w);
    assert(strip_signs(sign_dash + w) == strip_signs(w)) by {
        assert((sign_dash + w).drop_first() =~= w);
    }
    // `u-`
    let x2 = u.push('-');
    assert(x2 =~= u + sign_dash);
    assert(x2[0] == u[0] && x2.last() == '-');
    assert(trim(x2) == x2);
    assert(keep_money_chars(x2, decimal, thousands) == x2);
    assert(x2.drop_last() =~= u);
    assert(normalized_amount(x2, decimal, thousands) =~= sign_dash + w);
    // `(u)`
    let x3 = open + u.push(')');
    assert(x3 =~= open + (u + close));
    lemma_keep_concat(open, u + close, decimal, thousands);
    assert(x3[0] == '(' && x3.last() == ')');
    assert(trim(x3) == x3);
    assert(keep_money_chars(x3, decimal, thousands) =~= u);
    assert(normalized_amount(x3, decimal, thousands) == w);
    // `+u`
    let x4 = sign_plus + u;
    assert(x4[0] == '+' && x4.last() == u.last());
    assert(trim(x4) == x4);
    assert(keep_money_chars(x4, decimal, thousands) == x4);
    assert(normalized_amount(x4, decimal, thousands) =~= sign_plus + w);
    assert(strip_signs(sign_plus + w) == strip_signs(w)) by {
        assert((sign_plus + w).drop_first() =~= w);
    }
}

/// The sign of an amount: a leading or trailing `-` or surrounding
/// parentheses negate it, a leading `+` keeps it. Stated for an unsigned
/// amount made of digits and the separators, with separators that are not
/// digits, signs or parentheses. Where the decimal separator is white space,
/// trimming must leave it where it stands: none at the start of the amount,
/// and at its end at most the only one.
pub proof fn law_amount_signs(
    u: Seq<char>,
    decimal: char,
    thousands: Option<char>,
    minor_digits: u32,
    v: int,
)
    requires
        thousands != Some(decimal),
        sign_free(decimal),
        is_white_space(decimal) ==> trim_keeps_decimal(u, decimal),
        thousands matches Some(t) ==> sign_free(t),
        unsigned_text(u, decimal, thousands),
        parse_amount(u, decimal, thousands, minor_digits) == AmountParse::Value(v),
    ensures
        v >= 0,
        parse_amount(seq!['-'] + u, decimal, thousands, minor_digits) == AmountParse::Value(-v),
        parse_amount(u.push('-'), decimal, thousands, minor_digits) == AmountParse::Value(-v),
        parse_amount(seq!['('] + u.push(')'), decimal, thousands, minor_digits)
            == AmountParse::Value(-v),
        parse_amount(seq!['+'] + u, decimal, thousands, minor_digits) == AmountParse::Value(v),
{
    if is_white_space(decimal) {
        lemma_signs_white_decimal(u, decimal, thousands, minor_digits, v);
    } else {
        match thousands {
            Some(t) => {
                if is_white_space(t) {
                    lemma_signs_white_thousands(u, decimal, t, minor_digits, v);
                } else {
                    lemma_signs_plain_separators(u, decimal, thousands, minor_digits, v);
                }
            },
            None => {
                lemma_signs_plain_separators(u, decimal, thousands, minor_digits, v);
            },
        }
    }
}

// ---------------------------------------------------------------------------
// Facts about plain digit texts, for texts this library writes itself
// ---------------------------------------------------------------------------

/// The digit character of a number below ten is a digit with that value.
proof fn lemma_digit_char(d: nat)
    requires
        d < 10,
    ensures
        is_ascii_digit(digit_char(d)),
        digit_char(d) as int - '0' as int == d,
{
    let n: u32 = (d + 48) as u32;
    assert(n == d + 48);
    assert((n as char) as u32 == n);
}

/// The decimal text of a natural number is a non-empty run of digits whose
/// value is the number.
proof fn lemma_decimal_digits(n: nat)
    ensures
        decimal(n).len() > 0,
        all_digits(decimal(n)),
        digits_value(decimal(n)) == n,
    decreases n,
{
    let d = decimal(n);
    if n < 10 {
        lemma_digit_char(n);
        assert(d.drop_last() =~= Seq::<char>::empty());
        assert(digits_value(d.drop_last()) == 0);
        assert(d.last() == digit_char(n));
        assert(is_ascii_digit(d[0]));
    } else {
        lemma_digit_char(n % 10);
        lemma_decimal_digits(n / 10);
        let front = decimal(n / 10);
        assert(d.drop_last() =~= front);
        assert(d.last() == digit_char(n % 10));
        assert(digits_value(d) == (n / 10) * 10 + n % 10);
        assert forall|i: int| 0 <= i < d.len() implies is_ascii_digit(#[trigger] d[i]) by {
            if i < front.len() {
                assert(d[i] == front[i]);
            }
        }
    }
}

/// `keep_money_chars` drops a text with no money characters entirely.
proof fn lemma_keep_none(s: Seq<char>, decimal: char, thousands: Option<char>)
    requires
        forall|i: int| 0 <= i < s.len() ==> !money_char(#[trigger] s[i], decimal, thousands),
    ensures
        keep_money_chars(s, decimal, thousands) == Seq::<char>::empty(),
    decreases s.len(),
{
    if s.len() > 0 {
        let t = s.drop_last();
        assert forall|i: int| 0 <= i < t.len() implies !money_char(#[trigger] t[i], decimal, thousands) by {
            assert(t[i] == s[i]);
        }
        lemma_keep_none(t, decimal, thousands);
        assert(s[s.len() - 1] == s.last());
    }
}

/// Removing a character that does not occur changes nothing.
proof fn lemma_remove_absent(s: Seq<char>, c: char)
    requires
        forall|i: int| 0 <= i < s.len() ==> #[trigger] s[i] != c,
    ensures
        remove_char(s, c) == s,
    decreases s.len(),
{
    if s.len() > 0 {
        let t = s.drop_last();
        assert forall|i: int| 0 <= i < t.len() implies #[trigger] t[i] != c by {
            assert(t[i] == s[i]);
        }
        lemma_remove_absent(t, c);
        assert(s[s.len() - 1] == s.last());
        assert(t.push(s.last()) =~= s);
    }
}

/// Occurrences add up over a concatenation.
proof fn lemma_count_concat(a: Seq<char>, b: Seq<char>, c: char)
    ensures
        count_char(a + b, c) == count_char(a, c) + count_char(b, c),
    decreases b.len(),
{
    if b.len() == 0 {
        assert(a + b =~= a);
    } else {
        lemma_count_concat(a, b.drop_last(), c);
        assert((a + b).drop_last() =~= a + b.drop_last());
        assert((a + b).last() == b.last());
    }
}

/// A character that does not occur is counted zero times.
proof fn lemma_count_absent(s: Seq<char>, c: char)
    requires
        forall|i: int| 0 <= i < s.len() ==> #[trigger] s[i] != c,
    ensures
        count_char(s, c) == 0,
    decreases s.len(),
{
    if s.len() > 0 {
        let t = s.drop_last();
        assert forall|i: int| 0 <= i < t.len() implies #[trigger] t[i] != c by {
            assert(t[i] == s[i]);
        }
        lemma_count_absent(t, c);
        assert(s[s.len() - 1] == s.last());
    }
}

/// The first `c` of `a + b`, where `a` holds no `c`, is found in `b`.
proof fn lemma_find_after(a: Seq<char>, b: Seq<char>, c: char)
    requires
        forall|i: int| 0 <= i < a.len() ==> #[trigger] a[i] != c,
    ensures
        find_char(a + b, c) == a.len() + find_char(b, c),
    decreases a.len(),
{
    if a.len() == 0 {
        assert(a + b =~= b);
    } else {
        let t = a.drop_first();
        assert forall|i: int| 0 <= i < t.len() implies #[trigger] t[i] != c by {
            assert(t[i] == a[i + 1]);
        }
        lemma_find_after(t, b, c);
        assert((a + b).drop_first() =~= t + b);
        assert((a + b)[0] == a[0]);
    }
}

/// Money text reads back: the text that `format_money` writes for an amount
/// (sign, whole units, `.`, two digits, a space and a three-letter code)
/// parses, with `.` as decimal separator, `,` as thousands separator and two
/// minor-unit digits, to that same amount.
#[verifier::rlimit(30)]
pub proof fn law_money_text_parses_back(amount: i64, code: Seq<char>)
    requires
        is_valid_code(code),
    ensures
        parse_amount(money_text(amount as int, code), '.', Some(','), 2) == AmountParse::Value(
            amount as int,
        ),
{
    reveal_strlit("-");
    reveal_strlit("");
    reveal_strlit(".");
    reveal_strlit(" ");
    let x = amount as int;
    let mag = if x < 0 {
        -x
    } else {
        x
    };
    let q = (mag / 100) as nat;
    let tens = (mag % 100 / 10) as nat;
    let ones = (mag % 10) as nat;
    let sign = if x < 0 {
        seq!['-']
    } else {
        Seq::<char>::empty()
    };
    let d = decimal(q);
    let point = seq!['.'];
    let frac = seq![digit_char(tens), digit_char(ones)];
    let space = seq![' '];
    let text = money_text(x, code);
    assert(text =~= sign + d + point + frac + space + code);
    lemma_decimal_digits(q);
    lemma_digit_char(tens);
    lemma_digit_char(ones);
    assert(all_digits(frac));
    let thousands = Some(',');
    // Trimming leaves the text as it is.
    assert(!is_white_space(text[0]));
    assert(text.last() == code[2]);
    assert(is_ascii_alphabetic(code[2]));
    assert(trim(text) == text);
    // Keeping the money characters drops the space and the code.
    lemma_keep_concat(sign + d + point + frac + space, code, '.', thousands);
    lemma_keep_concat(sign + d + point + frac, space, '.', thousands);
    lemma_keep_concat(sign + d + point, frac, '.', thousands);
    lemma_keep_concat(sign + d, point, '.', thousands);
    lemma_keep_concat(sign, d, '.', thousands);
    if x < 0 {
        lemma_keep_one('-', '.', thousands);
    } else {
        assert(keep_money_chars(sign, '.', thousands) == sign);
    }
    lemma_keep_all(d, '.', thousands);
    lemma_keep_one('.', '.', thousands);
    lemma_keep_all(frac, '.', thousands);
    lemma_keep_one(' ', '.', thousands);
    lemma_keep_none(code, '.', thousands);
    let u = d + point + frac;
    let kept = sign + u;
    assert(keep_money_chars(text, '.', thousands) =~= kept);
    assert(kept.last() == digit_char(ones));
    assert forall|i: int| 0 <= i < kept.len() implies #[trigger] kept[i] != ',' by {
        if i >= sign.len() + d.len() {
            assert(kept[i] == u[i - sign.len()]);
        } else if i >= sign.len() {
            assert(kept[i] == d[i - sign.len()]);
        }
    }
    lemma_remove_absent(kept, ',');
    assert(normalized_amount(text, '.', thousands) == kept);
    // The sign comes off.
    assert(u[0] == d[0]);
    assert(strip_signs(u) == u);
    if x < 0 {
        assert(kept.drop_first() =~= u);
    } else {
        assert(kept =~= u);
    }
    assert(strip_signs(kept) == u);
    assert((kept.len() > 0 && kept[0] == '-') == (x < 0));
    // One decimal separator, after the whole units.
    assert(has_digit(u)) by {
        assert(is_ascii_digit(u[0]));
    }
    lemma_count_concat(d + point, frac, '.');
    lemma_count_concat(d, point, '.');
    lemma_count_absent(d, '.');
    lemma_count_absent(frac, '.');
    assert(point.drop_last() =~= Seq::<char>::empty());
    assert(count_char(Seq::<char>::empty(), '.') == 0);
    assert(point.last() == '.');
    assert(count_char(point, '.') == 1);
    assert(count_char(u, '.') == 1);
    assert(u =~= d + (point + frac));
    lemma_find_after(d, point + frac, '.');
    assert((point + frac)[0] == '.');
    assert(find_char(u, '.') == d.len());
    assert(u.take(d.len() as int) =~= d);
    assert(u.skip(d.len() + 1int) =~= frac);
    // The value of the digits.
    assert(pow10(0) == 1);
    assert(pow10(1) == 10);
    assert(pow10(2) == 100);
    assert(frac.drop_last() =~= seq![digit_char(tens)]);
    let first = seq![digit_char(tens)];
    assert(first.drop_last() =~= Seq::<char>::empty());
    assert(digits_value(Seq::<char>::empty()) == 0);
    assert(first.last() == digit_char(tens));
    assert(digits_value(first) == tens);
    assert(digits_value(frac) == tens * 10 + ones);
    assert(tens * 10 + ones == mag % 100) by (nonlinear_arith)
        requires
            mag >= 0,
            tens == mag % 100 / 10,
            ones == mag % 10,
    ;
    assert(q * 100 + mag % 100 == mag);
    assert(unsigned_amount(u, x < 0, '.', 2) == AmountParse::Value(x));
}

} // verus!
