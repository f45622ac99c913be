//! The raw text kept for every statement record: a JSON object from header
//! to cell, so an import can always be explained from what the file said.

use vstd::prelude::*;
use crate::order::{
    chars_less, lemma_text_less_transitive,
    lemma_text_less_trichotomy, text_less,
};
use crate::profile::owned;
use crate::text::{chars_equal, chars_of, digit_char};

verus! {

/// Key/value pairs of texts.
pub open spec fn pair_texts(v: Seq<(String, String)>) -> Seq<(Seq<char>, Seq<char>)> {
    v.map_values(|p: (String, String)| (p.0@, p.1@))
}

// The header/cell map is held as entries kept strictly sorted by key rather
// than as a `BTreeMap<&str, &str>`: vstd specifies `BTreeMap` only for keys
// that follow its `Ord` model, and it gives string keys no such model, so a
// map of them would let nothing be proved of its contents or order. Only
// the call into `serde_json` builds the `BTreeMap`, from entries already in
// its order.

/// Keys strictly increasing, so each key occurs once.
pub open spec fn key_sorted(m: Seq<(Seq<char>, Seq<char>)>) -> bool {
    forall|i: int, j: int| 0 <= i < j < m.len() ==> text_less(#[trigger] m[i].0, #[trigger] m[j].0)
}

/// Number of leading entries whose key sorts before `key`.
pub open spec fn key_position(m: Seq<(Seq<char>, Seq<char>)>, key: Seq<char>) -> int
    decreases m.len(),
{
    if m.len() > 0 && text_less(m[0].0, key) {
        1 + key_position(m.drop_first(), key)
    } else {
        0
    }
}

/// Puts `key` with `value` into the sorted entries: an entry with that key
/// takes the new value, otherwise a new entry goes to its sorted place.
pub open spec fn put(m: Seq<(Seq<char>, Seq<char>)>, key: Seq<char>, value: Seq<char>) -> Seq<
    (Seq<char>, Seq<char>),
> {
    let p = key_position(m, key);
    if p < m.len() && m[p].0 == key {
        m.update(p, (key, value))
    } else {
        m.insert(p, (key, value))
    }
}

/// The map that collecting `pairs` in order builds: sorted by key, a later
/// pair replacing an earlier one with the same key.
pub open spec fn collected(pairs: Seq<(Seq<char>, Seq<char>)>) -> Seq<(Seq<char>, Seq<char>)>
    decreases pairs.len(),
{
    if pairs.len() == 0 {
        Seq::empty()
    } else {
        put(collected(pairs.drop_last()), pairs.last().0, pairs.last().1)
    }
}

/// Header/cell pairs, as far as both reach.
pub open spec fn zipped(headers: Seq<Seq<char>>, cells: Seq<Seq<char>>) -> Seq<
    (Seq<char>, Seq<char>),
> {
    let n = if headers.len() <= cells.len() {
        headers.len()
    } else {
        cells.len()
    };
    Seq::new(n, |i: int| (headers[i], cells[i]))
}

/// A hexadecimal digit in lower case, for `n < 16`.
pub open spec fn hex_digit(n: nat) -> char {
    if n < 10 {
        digit_char(n)
    } else {
        ((n + 87) as u32) as char
    }
}

/// How `serde_json` writes a character inside a JSON string: `"` and `\`
/// behind a backslash, the controls with a short escape as `\b`, `\t`,
/// `\n`, `\f` and `\r`, the other characters below 0x20 as `\u00` and two
/// lower-case hex digits, and every other character as it is.
pub open spec fn json_char(c: char) -> Seq<char> {
    let n = c as u32;
    if c == '"' {
        seq!['\\', '"']
    } else if c == '\\' {
        seq!['\\', '\\']
    } else if n == 0x08 {
        seq!['\\', 'b']
    } else if n == 0x09 {
        seq!['\\', 't']
    } else if n == 0x0a {
        seq!['\\', 'n']
    } else if n == 0x0c {
        seq!['\\', 'f']
    } else if n == 0x0d {
        seq!['\\', 'r']
    } else if n < 0x20 {
        seq!['\\', 'u', '0', '0', hex_digit((n / 16) as nat), hex_digit((n % 16) as nat)]
    } else {
        seq![c]
    }
}

/// The characters of `s`, each written as `json_char` writes it.
pub open spec fn json_escaped(s: Seq<char>) -> Seq<char>
    decreases s.len(),
{
    if s.len() == 0 {
        Seq::empty()
    } else {
        json_escaped(s.drop_last()) + json_char(s.last())
    }
}

/// `s` as a JSON string: escaped, in double quotes.
pub open spec fn json_string(s: Seq<char>) -> Seq<char> {
    seq!['"'] + json_escaped(s) + seq!['"']
}

/// The parts, in order, with a comma between each two.
pub open spec fn comma_joined(parts: Seq<Seq<char>>) -> Seq<char>
    decreases parts.len(),
{
    if parts.len() == 0 {
        Seq::empty()
    } else if parts.len() == 1 {
        parts[0]
    } else {
        comma_joined(parts.drop_last()) + seq![','] + parts.last()
    }
}

/// The JSON object text that `serde_json` writes for a map with these
/// entries, in this order: in braces, each key and value as JSON strings
/// with a colon between them, the entries separated by commas, and no white
/// space.
#[verifier::opaque]
pub open spec fn json_object_text(entries: Seq<(Seq<char>, Seq<char>)>) -> Seq<char> {
    seq!['{'] + comma_joined(
        entries.map_values(
            |e: (Seq<char>, Seq<char>)| json_string(e.0) + seq![':'] + json_string(e.1),
        ),
    ) + seq!['}']
}

/// `serde_json::to_string` of a `BTreeMap<&str, &str>` holding the given
/// entries. The entries arrive sorted with distinct keys, in the order of
/// `str`'s `Ord` (character by character), so building the map keeps them
/// one for one and the map writes them in this order. Serializing a map with string keys does not
/// fail (serde_json's documentation names only failing `Serialize` impls and
/// non-string keys), so the contract states success and names the text.
#[verifier::external_body]
fn write_json_object(entries: &Vec<(String, String)>) -> (r: Result<String, String>)
    requires
        key_sorted(pair_texts(entries@)),
    ensures
        r is Ok,
        r matches Ok(t) ==> t@ == json_object_text(pair_texts(entries@)),
{
    let map: std::collections::BTreeMap<&str, &str> = entries.iter().map(
        |(k, v)| (k.as_str(), v.as_str()),
    ).collect();
    serde_json::to_string(&map).map_err(|e| e.to_string())
}

proof fn lemma_key_position(m: Seq<(Seq<char>, Seq<char>)>, key: Seq<char>)
    requires
        key_sorted(m),
    ensures
        0 <= key_position(m, key) <= m.len(),
        forall|i: int| 0 <= i < key_position(m, key) ==> text_less(#[trigger] m[i].0, key),
        forall|i: int| key_position(m, key) <= i < m.len() ==> !text_less(#[trigger] m[i].0, key),
    decreases m.len(),
{
    if m.len() > 0 && text_less(m[0].0, key) {
        let rest = m.drop_first();
        assert(key_sorted(rest)) by {
            assert forall|i: int, j: int| 0 <= i < j < rest.len() implies text_less(
                #[trigger] rest[i].0,
                #[trigger] rest[j].0,
            ) by {
                assert(rest[i] == m[i + 1]);
                assert(rest[j] == m[j + 1]);
            }
        }
        lemma_key_position(rest, key);
        assert forall|i: int| 0 <= i < key_position(m, key) implies text_less(
            #[trigger] m[i].0,
            key,
        ) by {
            if i > 0 {
                assert(m[i] == rest[i - 1]);
            }
        }
        assert forall|i: int| key_position(m, key) <= i < m.len() implies !text_less(
            #[trigger] m[i].0,
            key,
        ) by {
            assert(m[i] == rest[i - 1]);
        }
    } else if m.len() > 0 {
        assert forall|i: int| 0 <= i < m.len() implies !text_less(#[trigger] m[i].0, key) by {
            if i > 0 && text_less(m[i].0, key) {
                assert(text_less(m[0].0, m[i].0));
                lemma_text_less_transitive(m[0].0, m[i].0, key);
            }
        }
    }
}

/// Putting an entry keeps the keys sorted.
proof fn lemma_put_sorted(m: Seq<(Seq<char>, Seq<char>)>, key: Seq<char>, value: Seq<char>)
    requires
        key_sorted(m),
    ensures
        key_sorted(put(m, key, value)),
{
    lemma_key_position(m, key);
    let p = key_position(m, key);
    let out = put(m, key, value);
    if p < m.len() && m[p].0 == key {
        assert forall|i: int, j: int| 0 <= i < j < out.len() implies text_less(
            #[trigger] out[i].0,
            #[trigger] out[j].0,
        ) by {
            assert(out[i].0 == m[i].0);
            assert(out[j].0 == m[j].0);
        }
    } else {
        assert forall|i: int, j: int| 0 <= i < j < out.len() implies text_less(
            #[trigger] out[i].0,
            #[trigger] out[j].0,
        ) by {
            if j < p {
                assert(out[i] == m[i] && out[j] == m[j]);
            } else if j == p {
                assert(out[i] == m[i]);
            } else if i == p {
                assert(out[j] == m[j - 1]);
                lemma_text_less_trichotomy(m[j - 1].0, key);
                if j - 1 > p {
                    assert(text_less(m[p].0, m[j - 1].0));
                    lemma_text_less_trichotomy(m[p].0, key);
                    if text_less(key, m[p].0) {
                        lemma_text_less_transitive(key, m[p].0, m[j - 1].0);
                    }
                }
            } else if i < p {
                assert(out[i] == m[i] && out[j] == m[j - 1]);
                if j - 1 > i {
                } else {
                    assert(j - 1 == i || j - 1 > i);
                }
                lemma_text_less_trichotomy(m[j - 1].0, key);
                if !text_less(m[i].0, m[j - 1].0) {
                    assert(j - 1 >= p);
                    assert(text_less(m[i].0, key));
                    lemma_text_less_trichotomy(m[j - 1].0, key);
                    if text_less(key, m[j - 1].0) {
                        lemma_text_less_transitive(m[i].0, key, m[j - 1].0);
                    }
                }
            } else {
                assert(out[i] == m[i - 1] && out[j] == m[j - 1]);
            }
        }
    }
}

proof fn lemma_collected_sorted(pairs: Seq<(Seq<char>, Seq<char>)>)
    ensures
        key_sorted(collected(pairs)),
    decreases pairs.len(),
{
    if pairs.len() > 0 {
        lemma_collected_sorted(pairs.drop_last());
        lemma_put_sorted(collected(pairs.drop_last()), pairs.last().0, pairs.last().1);
    }
}

fn put_entry(m: &mut Vec<(String, String)>, key: &String, value: &String)
    requires
        key_sorted(pair_texts(old(m)@)),
    ensures
        pair_texts(final(m)@) == put(pair_texts(old(m)@), key@, value@),
{
    let ghost start = pair_texts(m@);
    proof {
        lemma_key_position(start, key@);
    }
    let wanted = chars_of(key.as_str());
    let mut p: usize = 0;
    while p < m.len() && chars_less(&chars_of(m[p].0.as_str()), &wanted)
        invariant
            pair_texts(m@) == start,
            wanted@ == key@,
            p <= m.len(),
            p <= key_position(start, key@),
            0 <= key_position(start, key@) <= start.len(),
            forall|i: int|
                key_position(start, key@) <= i < start.len() ==> !text_less(
                    #[trigger] start[i].0,
                    key@,
                ),
        decreases m.len() - p,
    {
        assert(start[p as int].0 == m@[p as int].0@);
        p = p + 1;
    }
    assert(p == key_position(start, key@)) by {
        if p < m.len() {
            assert(start[p as int].0 == m@[p as int].0@);
        }
    }
    if p < m.len() && chars_equal(&chars_of(m[p].0.as_str()), &wanted) {
        m.set(p, (key.clone(), value.clone()));
        assert(pair_texts(m@) =~= start.update(p as int, (key@, value@)));
    } else {
        proof {
            if p < m.len() {
                assert(start[p as int].0 == m@[p as int].0@);
            }
        }
        m.insert(p, (key.clone(), value.clone()));
        assert(pair_texts(m@) =~= start.insert(p as int, (key@, value@)));
    }
}

/// The raw JSON of a record: each header with the cell under it, collected
/// into a map (sorted by header; of repeated headers the later one wins).
pub fn raw_row_json(headers: &Vec<String>, cells: &Vec<String>) -> (r: String)
    ensures
        r@ == json_object_text(
            collected(zipped(headers@.map_values(|s: String| s@), cells@.map_values(|s: String| s@))),
        ),
{
    let n: usize = if headers.len() <= cells.len() {
        headers.len()
    } else {
        cells.len()
    };
    let ghost pairs = zipped(
        headers@.map_values(|s: String| s@),
        cells@.map_values(|s: String| s@),
    );
    let mut entries: Vec<(String, String)> = Vec::new();
    for k in 0..n
        invariant
            n == pairs.len(),
            n <= headers.len(),
            n <= cells.len(),
            pairs == zipped(headers@.map_values(|s: String| s@), cells@.map_values(|s: String| s@)),
            pair_texts(entries@) == collected(pairs.take(k as int)),
    {
        proof {
            lemma_collected_sorted(pairs.take(k as int));
            assert(pairs.take(k + 1).drop_last() =~= pairs.take(k as int));
            assert(pairs.take(k + 1).last() == (headers@[k as int]@, cells@[k as int]@));
        }
        put_entry(&mut entries, &headers[k], &cells[k]);
    }
    proof {
        assert(pairs.take(n as int) =~= pairs);
        lemma_collected_sorted(pairs);
    }
    match write_json_object(&entries) {
        Ok(text) => text,
        Err(_) => {
            proof {
                assert(false);
            }
            String::new()
        },
    }
}

/// The raw JSON kept for a record the CSV reader refused: its message under
/// `csv_error`.
pub fn unreadable_row_json(message: &String) -> (r: String)
    ensures
        r@ == json_object_text(seq![("csv_error"@, message@)]),
{
    let mut entries: Vec<(String, String)> = Vec::new();
    entries.push((owned("csv_error"), message.clone()));
    assert(pair_texts(entries@) =~= seq![("csv_error"@, message@)]);
    match write_json_object(&entries) {
        Ok(text) => text,
        Err(_) => {
            proof {
                assert(false);
            }
            String::new()
        },
    }
}

} // verus!
