//! Currency codes and amounts held in a currency's minor unit.

use vstd::prelude::*;
use crate::text::{
    ascii_upper_chars, ascii_upper_seq, chars_of, is_ascii_alphabetic, string_from_chars,
    trim, trimmed_chars_of,
};

verus! {

/// Why a money value or operation was refused.
#[derive(Debug, Clone, PartialEq, Eq)]
pub enum MoneyError {
    /// The text is not a three-letter code; it holds the text as given.
    InvalidCurrency(String),
    /// Two amounts in different currencies were combined.
    CurrencyMismatch { left: String, right: String },
    /// The sum does not fit in 64 bits.
    Overflow,
}

/// The normalized form of a currency code: the text with surrounding white
/// space removed and ASCII letters upper-cased.
pub open spec fn normalized_code(text: Seq<char>) -> Seq<char> {
    ascii_upper_seq(trim(text))
}

/// A code is three ASCII letters.
pub open spec fn is_valid_code(code: Seq<char>) -> bool {
    &&& code.len() == 3
    &&& forall|i: int| 0 <= i < 3 ==> is_ascii_alphabetic(#[trigger] code[i])
}

/// A normalized three-letter currency code. It deliberately does not check
/// the code against a compiled-in list.
#[derive(Debug, PartialEq, Eq, Hash)]
pub struct CurrencyCode(String);

impl Clone for CurrencyCode {
    fn clone(&self) -> (r: Self)
        ensures
            r == *self,
    {
        proof {
            use_type_invariant(self);
        }
        CurrencyCode(self.0.clone())
    }
}

impl View for CurrencyCode {
    type V = Seq<char>;

    closed spec fn view(&self) -> Seq<char> {
        self.0@
    }
}

impl CurrencyCode {
    #[verifier::type_invariant]
    spec fn well_formed(self) -> bool {
        &&& is_valid_code(self.0@)
        &&& normalized_code(self.0@) == self.0@
    }

    /// Normalizes `value` (trim, ASCII upper case) and accepts it when it is
    /// three ASCII letters; otherwise reports `value` unchanged.
    pub fn new(value: &str) -> (r: Result<CurrencyCode, MoneyError>)
        ensures
            is_valid_code(normalized_code(value@)) <==> r is Ok,
            r matches Ok(code) ==> code@ == normalized_code(value@),
            r matches Err(e) ==> e matches MoneyError::InvalidCurrency(text) && text@ == value@,
    {
        let trimmed = trimmed_chars_of(value);
        let upper = ascii_upper_chars(&trimmed);
        let ok = upper.len() == 3 && is_alpha(upper[0]) && is_alpha(upper[1]) && is_alpha(
            upper[2],
        );
        proof {
            let u = upper@;
            if ok {
                assert(is_valid_code(u));
            }
            if is_valid_code(u) {
                assert(is_ascii_alphabetic(u[0]) && is_ascii_alphabetic(u[1])
                    && is_ascii_alphabetic(u[2]));
            }
        }
        if ok {
            let code = string_from_chars(&upper);
            proof {
                law_normalized_code_is_stable(value@);
            }
            Ok(CurrencyCode(code))
        } else {
            Err(MoneyError::InvalidCurrency(string_from_chars(&chars_of(value))))
        }
    }

    /// The code's text.
    pub fn as_str(&self) -> (r: &str)
        ensures
            r@ == self@,
            is_valid_code(r@),
    {
        proof {
            use_type_invariant(self);
        }
        self.0.as_str()
    }

    /// The code's text as an owned string.
    pub fn to_text(&self) -> (r: String)
        ensures
            r@ == self@,
    {
        self.0.clone()
    }

    /// Both codes name the same currency.
    pub fn same_as(&self, other: &CurrencyCode) -> (r: bool)
        ensures
            r == (self@ == other@),
    {
        self.0 == other.0
    }
}

/// What reading the text `value` as a currency code gives: the normalized
/// code when it is three ASCII letters, otherwise `InvalidCurrency` holding
/// `value` as given.
pub open spec fn code_read(value: Seq<char>, r: Result<CurrencyCode, MoneyError>) -> bool {
    &&& is_valid_code(normalized_code(value)) <==> r is Ok
    &&& r matches Ok(code) ==> code@ == normalized_code(value)
    &&& r matches Err(e) ==> e matches MoneyError::InvalidCurrency(text) && text@ == value
}

impl TryFrom<String> for CurrencyCode {
    type Error = MoneyError;

    /// Reads an owned text as a currency code, as `CurrencyCode::new` does.
    fn try_from(value: String) -> (r: Result<CurrencyCode, MoneyError>)
        ensures
            code_read(value@, r),
    {
        CurrencyCode::new(value.as_str())
    }
}

/// Two strings with the same text are not known to Verus to be the same
/// value, so no spec function can name the very code that a conversion
/// builds: `try_from` is not tied to `try_from_spec`, and its own contract
/// (`code_read`) states what it returns.
impl vstd::std_specs::convert::TryFromSpecImpl<String> for CurrencyCode {
    open spec fn obeys_try_from_spec() -> bool {
        false
    }

    open spec fn try_from_spec(v: String) -> Result<CurrencyCode, MoneyError> {
        choose|r: Result<CurrencyCode, MoneyError>| code_read(v@, r)
    }
}

impl From<CurrencyCode> for String {
    /// The code's text.
    fn from(value: CurrencyCode) -> (r: String)
        ensures
            r@ == value@,
    {
        value.0
    }
}

impl vstd::std_specs::convert::FromSpecImpl<CurrencyCode> for String {
    open spec fn obeys_from_spec() -> bool {
        true
    }

    closed spec fn from_spec(v: CurrencyCode) -> String {
        v.0
    }
}

fn is_alpha(c: char) -> (r: bool)
    ensures
        r == is_ascii_alphabetic(c),
{
    ('a' <= c && c <= 'z') || ('A' <= c && c <= 'Z')
}

proof fn lemma_trim_start_idempotent(s: Seq<char>)
    ensures
        crate::text::trim_start(crate::text::trim_start(s)) == crate::text::trim_start(s),
    decreases s.len(),
{
    if s.len() > 0 && crate::text::is_white_space(s[0]) {
        lemma_trim_start_idempotent(s.drop_first());
    }
}

/// Currency codes are stable: normalizing an accepted code again changes
/// nothing, so a code read back from storage is the code that was written.
pub proof fn law_normalized_code_is_stable(text: Seq<char>)
    requires
        is_valid_code(normalized_code(text)),
    ensures
        normalized_code(normalized_code(text)) == normalized_code(text),
        is_valid_code(normalized_code(normalized_code(text))),
{
    let n = normalized_code(text);
    assert(!crate::text::is_white_space(n[0]));
    assert(!crate::text::is_white_space(n[2]));
    assert(crate::text::trim_start(n) == n);
    assert(n.last() == n[2]);
    assert(crate::text::trim_end(n) == n);
    assert(trim(n) == n);
    assert(ascii_upper_seq(n) =~= n);
}

/// An amount in the currency's minor unit (for example cents). No floating
/// point value crosses the financial core.
#[derive(Debug, PartialEq, Eq)]
pub struct Money {
    pub amount_minor: i64,
    pub currency: CurrencyCode,
}

impl Clone for Money {
    fn clone(&self) -> (r: Self)
        ensures
            r == *self,
    {
        Money { amount_minor: self.amount_minor, currency: self.currency.clone() }
    }
}

impl Money {
    pub fn new(amount_minor: i64, currency: CurrencyCode) -> (r: Money)
        ensures
            r.amount_minor == amount_minor,
            r.currency == currency,
    {
        Money { amount_minor, currency }
    }

    /// The sum of two amounts in the same currency.
    pub fn checked_add(&self, other: &Money) -> (r: Result<Money, MoneyError>)
        ensures
            self.currency@ != other.currency@ ==> (r matches Err(MoneyError::CurrencyMismatch {
                left,
                right,
            }) && left@ == self.currency@ && right@ == other.currency@),
            self.currency@ == other.currency@ && !(i64::MIN <= self.amount_minor
                + other.amount_minor <= i64::MAX) ==> r == Err::<Money, MoneyError>(
                MoneyError::Overflow,
            ),
            self.currency@ == other.currency@ && i64::MIN <= self.amount_minor + other.amount_minor
                <= i64::MAX ==> (r matches Ok(m) && m.amount_minor == self.amount_minor
                + other.amount_minor && m.currency == self.currency),
    {
        if !self.currency.same_as(&other.currency) {
            return Err(
                MoneyError::CurrencyMismatch {
                    left: self.currency.to_text(),
                    right: other.currency.to_text(),
                },
            );
        }
        match self.amount_minor.checked_add(other.amount_minor) {
            Some(amount_minor) => Ok(Money::new(amount_minor, self.currency.clone())),
            None => Err(MoneyError::Overflow),
        }
    }
}

} // verus!
