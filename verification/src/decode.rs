//! Decoding statement bytes into text.

use vstd::prelude::*;
use vstd::utf8::{decode_utf8, valid_utf8};
use crate::profile::{ImportError, owned};
use crate::text::{ascii_lower_chars, ascii_lower_seq, chars_equal, chars_of};

verus! {

/// What `encoding_rs` gives for `bytes` decoded with the encoding that
/// `label` names (after its byte-order-mark sniffing): the text and whether
/// malformed bytes were replaced; `None` when no encoding has that label.
pub uninterp spec fn label_decoding(label: Seq<char>, bytes: Seq<u8>) -> Option<(Seq<char>, bool)>;

/// `encoding_rs::Encoding::for_label` followed by `Encoding::decode`. The
/// contract names the outcome only.
#[verifier::external_body]
fn decode_with_label(label: &str, bytes: &[u8]) -> (r: Option<(String, bool)>)
    ensures
        match label_decoding(label@, bytes@) {
            Some((text, errors)) => r matches Some((t, e)) && t@ == text && e == errors,
            None => r is None,
        },
{
    match encoding_rs::Encoding::for_label(label.as_bytes()) {
        Some(encoding) => {
            let (text, _, had_errors) = encoding.decode(bytes);
            Some((text.into_owned(), had_errors))
        },
        None => None,
    }
}

/// `std::str::from_utf8`: succeeds exactly on valid UTF-8 and then holds
/// the decoded characters.
#[verifier::external_body]
fn utf8_text(bytes: &[u8]) -> (r: Option<String>)
    ensures
        r is Some <==> valid_utf8(bytes@),
        r matches Some(s) ==> s@ == decode_utf8(bytes@),
{
    match std::str::from_utf8(bytes) {
        Ok(text) => Some(text.to_owned()),
        Err(_) => None,
    }
}

/// A name that means UTF-8 (ASCII case ignored).
pub open spec fn is_utf8_name(name: Seq<char>) -> bool {
    ascii_lower_seq(name) == "utf-8"@ || ascii_lower_seq(name) == "utf8"@
}

/// How decoding with a named encoding turns out.
pub enum Decoding {
    Text(Seq<char>),
    UnknownEncoding,
    InvalidEncoding,
}

/// The text of `bytes` in the named encoding, or why it cannot be had.
pub open spec fn decoding(bytes: Seq<u8>, name: Seq<char>) -> Decoding {
    let label = if is_utf8_name(name) {
        "utf-8"@
    } else {
        name
    };
    match label_decoding(label, bytes) {
        None => Decoding::UnknownEncoding,
        Some((text, errors)) => if errors {
            Decoding::InvalidEncoding
        } else {
            Decoding::Text(text)
        },
    }
}

/// `r` is the decoding of `bytes` in the encoding `name`.
pub open spec fn decoded_as(bytes: Seq<u8>, name: Seq<char>, r: Result<String, ImportError>) -> bool {
    match decoding(bytes, name) {
        Decoding::Text(text) => r matches Ok(s) && s@ == text,
        Decoding::UnknownEncoding => r matches Err(ImportError::UnknownEncoding(n)) && n@ == name,
        Decoding::InvalidEncoding => r matches Err(ImportError::InvalidEncoding(n)) && n@ == name,
    }
}

/// Decodes statement bytes with the named encoding; malformed input is an
/// error rather than silently replaced.
pub fn decode(bytes: &[u8], encoding_name: &str) -> (r: Result<String, ImportError>)
    ensures
        decoded_as(bytes@, encoding_name@, r),
{
    let lower = ascii_lower_chars(&chars_of(encoding_name));
    let utf8 = chars_equal(&lower, &chars_of("utf-8")) || chars_equal(&lower, &chars_of("utf8"));
    let label: &str = if utf8 {
        "utf-8"
    } else {
        encoding_name
    };
    match decode_with_label(label, bytes) {
        None => Err(ImportError::UnknownEncoding(owned(encoding_name))),
        Some((text, had_errors)) => {
            if had_errors {
                Err(ImportError::InvalidEncoding(owned(encoding_name)))
            } else {
                Ok(text)
            }
        },
    }
}

/// Decodes a statement for preview: UTF-8 when the bytes are valid UTF-8,
/// otherwise Windows-1254 (Turkish). Returns the encoding name and the text.
pub fn decode_for_preview(bytes: &[u8]) -> (r: Result<(String, String), ImportError>)
    ensures
        valid_utf8(bytes@) ==> (r matches Ok((name, text)) && name@ == "utf-8"@ && text@
            == decode_utf8(bytes@)),
        !valid_utf8(bytes@) ==> match r {
            Ok((name, text)) => name@ == "windows-1254"@ && decoded_as(
                bytes@,
                "windows-1254"@,
                Ok::<String, ImportError>(text),
            ),
            Err(e) => decoded_as(bytes@, "windows-1254"@, Err::<String, ImportError>(e)),
        },
{
    if let Some(source) = utf8_text(bytes) {
        return Ok((owned("utf-8"), source));
    }
    let encoding_name = "windows-1254";
    match decode(bytes, encoding_name) {
        Ok(text) => Ok((owned(encoding_name), text)),
        Err(e) => Err(e),
    }
}

} // verus!
