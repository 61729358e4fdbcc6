//! Encodings the library takes from outside crates: base64 (`base64`),
//! SHA-256 (`sha2`), form encoding (`url`'s `form_urlencoded`,
//! `serde_urlencoded`), URL building (`url`) and JSON string literals
//! (`serde_json`). Each call stands behind a small wrapper whose contract
//! states what the crate documents of it.

use base64::Engine;
use sha2::Digest;
use vstd::prelude::*;

verus! {

// ---------------------------------------------------------------------------
// base64
// ---------------------------------------------------------------------------

/// Character `i < 64` of the URL-safe base64 alphabet (RFC 4648 §5).
pub open spec fn b64url_char(i: int) -> char {
    if i < 26 {
        (i + 65) as char
    } else if i < 52 {
        (i - 26 + 97) as char
    } else if i < 62 {
        (i - 52 + 48) as char
    } else if i == 62 {
        '-'
    } else {
        '_'
    }
}

/// URL-safe base64 without padding: three bytes become four characters; a
/// last group of two bytes becomes three characters, of one byte two.
pub open spec fn b64url_spec(b: Seq<u8>) -> Seq<char>
    decreases b.len(),
{
    if b.len() == 0 {
        seq![]
    } else {
        let b0 = b[0] as int;
        if b.len() == 1 {
            seq![b64url_char(b0 / 4), b64url_char((b0 % 4) * 16)]
        } else {
            let b1 = b[1] as int;
            if b.len() == 2 {
                seq![
                    b64url_char(b0 / 4),
                    b64url_char((b0 % 4) * 16 + b1 / 16),
                    b64url_char((b1 % 16) * 4),
                ]
            } else {
                let b2 = b[2] as int;
                seq![
                    b64url_char(b0 / 4),
                    b64url_char((b0 % 4) * 16 + b1 / 16),
                    b64url_char((b1 % 16) * 4 + b2 / 64),
                    b64url_char(b2 % 64),
                ] + b64url_spec(b.skip(3))
            }
        }
    }
}

/// `base64::engine::general_purpose::URL_SAFE_NO_PAD.encode`: claims the
/// result is the RFC 4648 URL-safe encoding of the bytes, without padding.
#[verifier::external_body]
pub(crate) fn b64url_encode(bytes: &[u8]) -> (s: String)
    ensures
        s@ == b64url_spec(bytes@),
{
    base64::engine::general_purpose::URL_SAFE_NO_PAD.encode(bytes)
}

// ---------------------------------------------------------------------------
// SHA-256
// ---------------------------------------------------------------------------

/// The SHA-256 digest of a byte string.
pub uninterp spec fn sha256_spec(b: Seq<u8>) -> Seq<u8>;

/// `sha2::Sha256::digest`: claims the result is the name `sha256_spec` of
/// the bytes, 32 bytes long; the digest itself is not stated.
#[verifier::external_body]
pub(crate) fn sha256(bytes: &[u8]) -> (d: Vec<u8>)
    ensures
        d@ == sha256_spec(bytes@),
        d@.len() == 32,
{
    sha2::Sha256::digest(bytes).to_vec()
}

// ---------------------------------------------------------------------------
// Form encoding
// ---------------------------------------------------------------------------

/// Upper-case hex digit for `d < 16`.
pub open spec fn upper_hex(d: int) -> char {
    if d < 10 {
        (d + 48) as char
    } else {
        (d + 55) as char
    }
}

/// The `application/x-www-form-urlencoded` form of one byte: ASCII letters,
/// digits and `*` (42), `-` (45), `.` (46), `_` (95) stay, a space (32)
/// becomes `+`, anything else `%XX`.
pub open spec fn form_byte(b: u8) -> Seq<char> {
    if (97 <= b && b <= 122) || (65 <= b && b <= 90) || (48 <= b && b <= 57) || b == 42 || b == 45
        || b == 46 || b == 95 {
        seq![b as char]
    } else if b == 32 {
        seq!['+']
    } else {
        seq!['%', upper_hex(b as int / 16), upper_hex(b as int % 16)]
    }
}

/// Every byte in its form-encoded form.
pub open spec fn form_bytes(b: Seq<u8>) -> Seq<char>
    decreases b.len(),
{
    if b.len() == 0 {
        seq![]
    } else {
        form_bytes(b.drop_last()) + form_byte(b.last())
    }
}

/// `form_urlencoded::byte_serialize`, collected: claims the result is the
/// byte serializer's output (WHATWG URL standard), byte by byte.
#[verifier::external_body]
pub(crate) fn form_encode(bytes: &[u8]) -> (s: String)
    ensures
        s@ == form_bytes(bytes@),
{
    url::form_urlencoded::byte_serialize(bytes).collect::<String>()
}

/// The form-encoded text of a string (its UTF-8 bytes).
pub open spec fn form_text(s: Seq<char>) -> Seq<char> {
    form_bytes(vstd::utf8::encode_utf8(s))
}

/// `name=value` pairs, form-encoded, joined with `&`.
pub open spec fn form_pairs_spec(pairs: Seq<(Seq<char>, Seq<char>)>) -> Seq<char>
    decreases pairs.len(),
{
    if pairs.len() == 0 {
        seq![]
    } else if pairs.len() == 1 {
        form_text(pairs[0].0) + seq!['='] + form_text(pairs[0].1)
    } else {
        form_pairs_spec(pairs.drop_last()) + seq!['&'] + form_text(pairs.last().0) + seq!['=']
            + form_text(pairs.last().1)
    }
}

/// The texts of string pairs.
pub open spec fn text_pairs(v: Seq<(String, String)>) -> Seq<(Seq<char>, Seq<char>)> {
    v.map_values(|p: (String, String)| (p.0@, p.1@))
}

/// `serde_urlencoded::to_string` of a list of string pairs: claims the
/// result is each pair form-encoded as `name=value`, joined with `&`
/// (`form_urlencoded::Serializer::append_pair` for each).
#[verifier::external_body]
pub(crate) fn urlencode_pairs(pairs: &Vec<(String, String)>) -> (s: String)
    ensures
        s@ == form_pairs_spec(text_pairs(pairs@)),
{
    serde_urlencoded::to_string(pairs).unwrap_or_default()
}

/// The `name=value` pairs of a form-encoded body, percent-escapes and `+`
/// decoded, in order.
pub uninterp spec fn form_decoded(body: Seq<u8>) -> Seq<(Seq<char>, Seq<char>)>;

/// `url::form_urlencoded::parse`, collected into owned pairs: claims the
/// result is the name `form_decoded` of the body; the decoding itself is
/// not stated.
#[verifier::external_body]
pub(crate) fn form_decode(body: &[u8]) -> (pairs: Vec<(String, String)>)
    ensures
        text_pairs(pairs@) == form_decoded(body@),
{
    url::form_urlencoded::parse(body).map(|(k, v)| (k.into_owned(), v.into_owned())).collect()
}

// ---------------------------------------------------------------------------
// URLs
// ---------------------------------------------------------------------------

/// The URL `base` with the pairs appended to its query, as `url` writes it;
/// `None` when `base` is not a valid absolute URL.
pub uninterp spec fn query_url(base: Seq<char>, pairs: Seq<(Seq<char>, Seq<char>)>) -> Option<Seq<char>>;

/// `url::Url::parse(base)`, then `query_pairs_mut().extend_pairs(pairs)`,
/// then `to_string()`: claims the result is the name `query_url` of the
/// base and the pairs; what parsing normalizes and how the query is
/// written is not stated.
#[verifier::external_body]
pub(crate) fn url_with_query(base: &str, pairs: &Vec<(String, String)>) -> (r: Option<String>)
    ensures
        match r {
            Some(u) => query_url(base@, text_pairs(pairs@)) == Some(u@),
            None => query_url(base@, text_pairs(pairs@)) is None,
        },
{
    match url::Url::parse(base) {
        Ok(mut url) => {
            url.query_pairs_mut().extend_pairs(pairs.iter());
            Some(url.to_string())
        },
        Err(_) => None,
    }
}

// ---------------------------------------------------------------------------
// JSON
// ---------------------------------------------------------------------------

/// What `serde_json::to_string` writes for a string: the text as a JSON
/// string literal, which the page's script reads as a JavaScript string.
pub uninterp spec fn json_quoted(s: Seq<char>) -> Seq<char>;

/// `serde_json::to_string` of a string. Claims the result is the name
/// `json_quoted` of the text, between double quotes; which characters are
/// escaped, and how, is left to the name.
#[verifier::external_body]
pub(crate) fn json_string(s: &str) -> (r: String)
    ensures
        r@ == json_quoted(s@),
        r@.len() >= 2,
        r@[0] == '"',
        r@.last() == '"',
{
    serde_json::to_string(s).unwrap_or_default()
}


} // verus!
