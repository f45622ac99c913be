//! What the command line and the desktop window show and suggest: account
//! keys made from profile names, money text, the widget's confidence, the
//! effect of a transaction on the runway, and the choices a preview offers.

use vstd::prelude::*;
use crate::forecast::HistoricalBurn;
use crate::ledger::SavedImportProfile;
use crate::money::CurrencyCode;
use crate::profile::{ImportProfile, owned, profile_fits, profile_matches_headers};
use crate::text::{
    ascii_lower, ascii_lower_char, chars_equal, chars_of, decimal, digit_char,
    is_ascii_alphanumeric, is_ascii_digit, is_ascii_lowercase, push_decimal, push_str,
    string_from_chars,
};

verus! {

// ---------------------------------------------------------------------------
// Account keys
// ---------------------------------------------------------------------------

/// A character of a key: ASCII letters and digits in lower case, anything
/// else a hyphen.
pub open spec fn key_char(c: char) -> char {
    if is_ascii_alphanumeric(ascii_lower(c)) {
        ascii_lower(c)
    } else {
        '-'
    }
}

/// `key_char` applied to each character.
pub open spec fn key_chars(s: Seq<char>) -> Seq<char> {
    s.map_values(|c: char| key_char(c))
}

/// Drops hyphens at either end and merges runs of hyphens into one: the
/// non-empty hyphen-separated pieces of `s`, joined by single hyphens.
pub open spec fn squeeze_hyphens(s: Seq<char>) -> Seq<char>
    decreases s.len(),
{
    if s.len() == 0 {
        s
    } else {
        let before = squeeze_hyphens(s.drop_last());
        let c = s.last();
        if c == '-' {
            before
        } else if before.len() > 0 && s.drop_last().last() == '-' {
            before + seq!['-', c]
        } else {
            before.push(c)
        }
    }
}

/// The account key suggested for a profile name; a name without letters or
/// digits gives `main-account`.
pub open spec fn slug(name: Seq<char>) -> Seq<char> {
    let squeezed = squeeze_hyphens(key_chars(name));
    if squeezed.len() == 0 {
        "main-account"@
    } else {
        squeezed
    }
}

/// The characters a key is made of.
pub open spec fn key_alphabet(c: char) -> bool {
    is_ascii_lowercase(c) || is_ascii_digit(c) || c == '-'
}

/// A well-formed key: not empty, made of lower-case ASCII letters, digits and
/// hyphens, with no hyphen at either end and no two hyphens in a row.
pub open spec fn key_shaped(k: Seq<char>) -> bool {
    &&& k.len() > 0
    &&& k[0] != '-'
    &&& k.last() != '-'
    &&& forall|i: int| 0 <= i < k.len() ==> key_alphabet(#[trigger] k[i])
    &&& forall|i: int| 0 <= i < k.len() - 1 ==> !(#[trigger] k[i] == '-' && k[i + 1] == '-')
}

fn key_char_exec(c: char) -> (r: char)
    ensures
        r == key_char(c),
{
    let l = ascii_lower_char(c);
    if ('a' <= l && l <= 'z') || ('A' <= l && l <= 'Z') || ('0' <= l && l <= '9') {
        l
    } else {
        '-'
    }
}

/// Turns a profile name into a stable account key.
pub fn slugify(value: &str) -> (r: String)
    ensures
        r@ == slug(value@),
{
    let chars = chars_of(value);
    let ghost mapped = key_chars(value@);
    let mut out: Vec<char> = Vec::new();
    let mut after_hyphen = false;
    for k in 0..chars.len()
        invariant
            chars@ == value@,
            mapped == key_chars(value@),
            out@ == squeeze_hyphens(mapped.take(k as int)),
            after_hyphen == (k > 0 && mapped[k - 1] == '-'),
    {
        let c = key_char_exec(chars[k]);
        let ghost prefix = mapped.take(k + 1);
        proof {
            assert(prefix.drop_last() =~= mapped.take(k as int));
            assert(prefix.last() == c);
        }
        if c == '-' {
            after_hyphen = true;
        } else {
            if out.len() > 0 && after_hyphen {
                out.push('-');
                out.push(c);
                assert(out@ =~= squeeze_hyphens(mapped.take(k as int)) + seq!['-', c]);
            } else {
                out.push(c);
            }
            after_hyphen = false;
        }
    }
    proof {
        assert(mapped.take(chars.len() as int) =~= mapped);
    }
    if out.len() == 0 {
        return string_from_chars(&chars_of("main-account"));
    }
    string_from_chars(&out)
}

proof fn lemma_key_chars(s: Seq<char>)
    ensures
        forall|i: int|
            0 <= i < s.len() ==> key_alphabet(#[trigger] key_chars(s)[i]),
{
    assert forall|i: int| 0 <= i < s.len() implies key_alphabet(
        #[trigger] key_chars(s)[i],
    ) by {
        let c = s[i];
        if 'A' <= c <= 'Z' {
            assert(ascii_lower(c) == ((c as u32) + 32) as char);
        }
    }
}

/// What squeezing keeps: only characters of the input, no hyphen at either
/// end, and no two hyphens in a row.
proof fn lemma_squeeze_shape(s: Seq<char>)
    requires
        forall|i: int| 0 <= i < s.len() ==> key_alphabet(#[trigger] s[i]),
    ensures
        ({
            let q = squeeze_hyphens(s);
            &&& q.len() > 0 ==> q[0] != '-' && q.last() != '-'
            &&& forall|i: int| 0 <= i < q.len() ==> key_alphabet(#[trigger] q[i])
            &&& forall|i: int| 0 <= i < q.len() - 1 ==> !(#[trigger] q[i] == '-' && q[i + 1] == '-')
        }),
    decreases s.len(),
{
    if s.len() > 0 {
        let t = s.drop_last();
        assert forall|i: int| 0 <= i < t.len() implies key_alphabet(#[trigger] t[i]) by {
            assert(t[i] == s[i]);
        }
        lemma_squeeze_shape(t);
        let before = squeeze_hyphens(t);
        let c = s.last();
        assert(key_alphabet(s[s.len() - 1]));
        let q = squeeze_hyphens(s);
        if c != '-' {
            if before.len() > 0 && t.last() == '-' {
                assert(q =~= before + seq!['-', c]);
                assert forall|i: int| 0 <= i < q.len() implies key_alphabet(#[trigger] q[i]) by {
                    if i < before.len() {
                        assert(q[i] == before[i]);
                    }
                }
                assert forall|i: int| 0 <= i < q.len() - 1 implies !(#[trigger] q[i] == '-' && q[i
                    + 1] == '-') by {
                    if i < before.len() - 1 {
                        assert(q[i] == before[i] && q[i + 1] == before[i + 1]);
                    } else if i == before.len() - 1 {
                        assert(q[i] == before.last());
                    }
                }
            } else {
                assert(q =~= before.push(c));
                assert forall|i: int| 0 <= i < q.len() implies key_alphabet(#[trigger] q[i]) by {
                    if i < before.len() {
                        assert(q[i] == before[i]);
                    }
                }
                assert forall|i: int| 0 <= i < q.len() - 1 implies !(#[trigger] q[i] == '-' && q[i
                    + 1] == '-') by {
                    if i < before.len() - 1 {
                        assert(q[i] == before[i] && q[i + 1] == before[i + 1]);
                    }
                }
            }
        }
    }
}

/// Squeezing a prefix of a well-formed key gives the prefix without a
/// trailing hyphen.
proof fn lemma_squeeze_prefix(k: Seq<char>, n: int)
    requires
        key_shaped(k),
        1 <= n <= k.len(),
    ensures
        squeeze_hyphens(k.take(n)) == if k[n - 1] == '-' {
            k.take(n - 1)
        } else {
            k.take(n)
        },
    decreases n,
{
    let p = k.take(n);
    assert(p.drop_last() =~= k.take(n - 1));
    if n == 1 {
        assert(squeeze_hyphens(k.take(0)) =~= Seq::<char>::empty());
        assert(p =~= seq![k[0]]);
    } else {
        lemma_squeeze_prefix(k, n - 1);
        let c = k[n - 1];
        if c == '-' {
            assert(!(k[n - 2] == '-' && k[n - 1] == '-'));
        } else if k[n - 2] == '-' {
            assert(n - 2 >= 1) by {
                if n - 2 == 0 {
                    assert(k[0] != '-');
                }
            }
            assert(k.take(n - 2) + seq!['-', c] =~= p);
        } else {
            assert(k.take(n - 1).push(c) =~= p);
        }
    }
}

/// A suggested account key is well formed.
pub proof fn law_slug_is_key_shaped(name: Seq<char>)
    ensures
        key_shaped(slug(name)),
{
    let mapped = key_chars(name);
    lemma_key_chars(name);
    lemma_squeeze_shape(mapped);
    let q = squeeze_hyphens(mapped);
    if q.len() == 0 {
        reveal_strlit("main-account");
        let m = "main-account"@;
        assert forall|i: int| 0 <= i < m.len() implies key_alphabet(#[trigger] m[i]) by {}
        assert forall|i: int| 0 <= i < m.len() - 1 implies !(#[trigger] m[i] == '-' && m[i + 1]
            == '-') by {}
    }
}

/// Suggesting a key for a key changes nothing: the suggestion is stable.
pub proof fn law_slug_idempotent(name: Seq<char>)
    ensures
        slug(slug(name)) == slug(name),
{
    law_slug_is_key_shaped(name);
    let k = slug(name);
    let mapped = key_chars(k);
    assert(mapped =~= k) by {
        assert forall|i: int| 0 <= i < k.len() implies mapped[i] == k[i] by {
            assert(key_alphabet(k[i]));
        }
    }
    lemma_squeeze_prefix(k, k.len() as int);
    assert(k.take(k.len() as int) =~= k);
}


// ---------------------------------------------------------------------------
// Money text
// ---------------------------------------------------------------------------

/// An amount in minor units as `-1234.05 TRY`: sign, whole units, two
/// digits of minor units and the currency code.
pub open spec fn money_text(amount: int, code: Seq<char>) -> Seq<char> {
    let magnitude = if amount < 0 {
        -amount
    } else {
        amount
    };
    (if amount < 0 {
        "-"@
    } else {
        ""@
    }) + decimal((magnitude / 100) as nat) + "."@ + seq![
        digit_char((magnitude % 100 / 10) as nat),
        digit_char((magnitude % 10) as nat),
    ] + " "@ + code
}

/// Shows an amount in minor units with its currency.
pub fn format_money(amount_minor: i64, currency: &CurrencyCode) -> (r: String)
    ensures
        r@ == money_text(amount_minor as int, currency@),
{
    let magnitude: u64 = if amount_minor < 0 {
        (-(amount_minor as i128)) as u64
    } else {
        amount_minor as u64
    };
    let mut out: Vec<char> = Vec::new();
    if amount_minor < 0 {
        push_str(&mut out, "-");
    }
    let ghost sign = out@;
    push_decimal(&mut out, magnitude / 100);
    push_str(&mut out, ".");
    let cents: u64 = magnitude % 100;
    let tens: u8 = (cents / 10) as u8;
    let ones: u8 = (cents % 10) as u8;
    out.push((tens + 48) as char);
    out.push((ones + 48) as char);
    push_str(&mut out, " ");
    push_str(&mut out, currency.as_str());
    proof {
        reveal_strlit("-");
        reveal_strlit("");
        assert(magnitude % 100 / 10 == cents / 10);
        assert(magnitude % 10 == cents % 10) by (nonlinear_arith)
            requires
                cents == magnitude % 100,
        ;
        assert(out@ =~= money_text(amount_minor as int, currency@));
    }
    string_from_chars(&out)
}

// ---------------------------------------------------------------------------
// Runway figures
// ---------------------------------------------------------------------------

/// How much to trust a runway, by the length of the spending history.
pub open spec fn confidence_label(observed_days: u32) -> Seq<char> {
    if observed_days <= 29 {
        "low"@
    } else if observed_days <= 179 {
        "medium"@
    } else {
        "high"@
    }
}

/// The widget's confidence label for a history of `observed_days` days.
pub fn widget_confidence(observed_days: u32) -> (r: &'static str)
    ensures
        r@ == confidence_label(observed_days),
{
    if observed_days <= 29 {
        "low"
    } else if observed_days <= 179 {
        "medium"
    } else {
        "high"
    }
}

/// Rust's integer division, which rounds toward zero.
pub open spec fn quotient_toward_zero(n: int, d: int) -> int {
    if n >= 0 {
        n / d
    } else {
        -((-n) / d)
    }
}

/// The historical spending over 30 days at the observed daily rate, in the
/// 64-bit range that the text shows (a quotient outside it wraps).
pub fn monthly_estimate(expense_minor: i64, observed_days: u32) -> (r: i64)
    requires
        observed_days > 0,
    ensures
        r == quotient_toward_zero(expense_minor * 30, observed_days as int) as i64,
{
    let scaled: i128 = expense_minor as i128 * 30;
    let days: i128 = observed_days as i128;
    let q: i128 = if scaled >= 0 {
        scaled / days
    } else {
        -((-scaled) / days)
    };
    q as i64
}

/// About how many days of runway a transaction of `amount` stands for, at
/// the observed spending rate: at least one, at most `u32::MAX`; nothing
/// when no spending was observed.
pub open spec fn effect_days(amount: int, observed_days: int, expense: int) -> Option<int> {
    if expense > 0 {
        let magnitude = if amount < 0 {
            -amount
        } else {
            amount
        };
        let days = magnitude * observed_days / expense;
        Some(
            if days < 1 {
                1
            } else if days > u32::MAX {
                u32::MAX as int
            } else {
                days
            },
        )
    } else {
        None
    }
}

/// The runway days a transaction stands for, given the observed history.
pub fn estimated_effect_days(amount_minor: i64, burn: &HistoricalBurn) -> (r: Option<u32>)
    ensures
        match effect_days(amount_minor as int, burn.observed_days as int, burn.expense_minor as int) {
            Some(d) => r == Some(d as u32),
            None => r is None,
        },
{
    if burn.expense_minor <= 0 {
        return None;
    }
    let magnitude: i128 = if amount_minor < 0 {
        -(amount_minor as i128)
    } else {
        amount_minor as i128
    };
    let observed: i128 = burn.observed_days as i128;
    proof {
        assert(0 <= magnitude * observed <= 0x8000_0000_0000_0000 * 0xffff_ffff) by (nonlinear_arith)
            requires
                0 <= magnitude <= 0x8000_0000_0000_0000,
                0 <= observed <= 0xffff_ffff,
        ;
    }
    let days: i128 = magnitude * observed / (burn.expense_minor as i128);
    if days < 1 {
        Some(1)
    } else if days > u32::MAX as i128 {
        Some(u32::MAX)
    } else {
        Some(days as u32)
    }
}

// ---------------------------------------------------------------------------
// Desktop choices
// ---------------------------------------------------------------------------

/// Some scenario is named `no-work`.
pub open spec fn has_no_work(names: Seq<String>) -> bool {
    exists|i: int| 0 <= i < names.len() && (#[trigger] names[i])@ == "no-work"@
}

/// The dashboard shows the `no-work` scenario when there is one, otherwise
/// the first scenario, if any.
pub fn dashboard_scenario(names: &Vec<String>) -> (r: Option<String>)
    ensures
        has_no_work(names@) ==> (r matches Some(n) && n@ == "no-work"@),
        !has_no_work(names@) && names@.len() > 0 ==> r == Some(names@[0]),
        names@.len() == 0 ==> r is None,
{
    let wanted = chars_of("no-work");
    for k in 0..names.len()
        invariant
            wanted@ == "no-work"@,
            forall|i: int| 0 <= i < k ==> (#[trigger] names@[i])@ != "no-work"@,
    {
        if chars_equal(&chars_of(names[k].as_str()), &wanted) {
            return Some(owned("no-work"));
        }
    }
    if names.len() > 0 {
        Some(names[0].clone())
    } else {
        None
    }
}

/// The first saved profile (in the order given) that fits the statement's
/// header row.
pub fn first_fitting_profile(
    candidates: &Vec<(ImportProfile, SavedImportProfile)>,
    headers: &Vec<String>,
) -> (r: Option<usize>)
    ensures
        match r {
            Some(i) => i < candidates@.len() && profile_fits(candidates@[i as int].0, headers@)
                && forall|j: int| 0 <= j < i ==> !profile_fits(#[trigger] candidates@[j].0, headers@),
            None => forall|j: int|
                0 <= j < candidates@.len() ==> !profile_fits(#[trigger] candidates@[j].0, headers@),
        },
{
    for k in 0..candidates.len()
        invariant
            forall|j: int| 0 <= j < k ==> !profile_fits(#[trigger] candidates@[j].0, headers@),
    {
        if profile_matches_headers(&candidates[k].0, headers.as_slice()) {
            return Some(k);
        }
    }
    None
}

/// What the preview of a statement offers for import.
#[derive(Debug, Clone, PartialEq, Eq)]
pub struct PreviewChoice {
    pub profile: ImportProfile,
    pub matched_saved_profile: bool,
    pub account_key: String,
    pub account_name: String,
    pub currency: String,
}

/// The preview offers the saved profile that fits the statement, with the
/// encoding, delimiter and preamble detected in this file (they change
/// between exports of the same statement shape), and the account it was
/// last used for; without one it offers the suggested profile, an account
/// key made from its name, `Main account` and `TRY`.
pub fn preview_choice(suggested: ImportProfile, matched: Option<(ImportProfile, SavedImportProfile)>) -> (r:
    PreviewChoice)
    ensures
        match matched {
            Some((p, saved)) => {
                &&& r.matched_saved_profile
                &&& r.profile.name == p.name
                &&& r.profile.columns == p.columns
                &&& r.profile.formats == p.formats
                &&& r.profile.encoding == suggested.encoding
                &&& r.profile.delimiter == suggested.delimiter
                &&& r.profile.skip_rows == suggested.skip_rows
                &&& r.account_key@ == match saved.account_key {
                    Some(k) => k@,
                    None => slug(suggested.name@),
                }
                &&& r.account_name@ == match saved.account_name {
                    Some(n) => n@,
                    None => "Main account"@,
                }
                &&& r.currency@ == match saved.currency {
                    Some(c) => c@,
                    None => "TRY"@,
                }
            },
            None => {
                &&& !r.matched_saved_profile
                &&& r.profile == suggested
                &&& r.account_key@ == slug(suggested.name@)
                &&& r.account_name@ == "Main account"@
                &&& r.currency@ == "TRY"@
            },
        },
{
    let fallback_key = slugify(suggested.name.as_str());
    match matched {
        Some((profile, saved)) => {
            let mut profile = profile;
            profile.encoding = suggested.encoding;
            profile.delimiter = suggested.delimiter;
            profile.skip_rows = suggested.skip_rows;
            let account_key = match saved.account_key {
                Some(k) => k,
                None => fallback_key,
            };
            let account_name = match saved.account_name {
                Some(n) => n,
                None => owned("Main account"),
            };
            let currency = match saved.currency {
                Some(c) => c,
                None => owned("TRY"),
            };
            PreviewChoice {
                profile,
                matched_saved_profile: true,
                account_key,
                account_name,
                currency,
            }
        },
        None => PreviewChoice {
            profile: suggested,
            matched_saved_profile: false,
            account_key: fallback_key,
            account_name: owned("Main account"),
            currency: owned("TRY"),
        },
    }
}

} // verus!
