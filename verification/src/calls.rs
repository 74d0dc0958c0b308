//! Calls into std and the outside crates whose results the library builds on.
//!
//! Each function here is trusted: Verus believes its contract without reading its body.
use crate::text::{ascii_lower, ascii_upper, hex_digit_value, is_ascii, is_ascii_alnum, is_digit, is_hex_digit};
use vstd::prelude::*;
use vstd::string::StringSliceAdditionalSpecFns;

verus! {

// ---------------------------------------------------------------------------
// Unicode case mapping (std)
// ---------------------------------------------------------------------------

/// What `str::to_lowercase` gives for a character sequence (the Unicode lower-case mapping).
pub uninterp spec fn unicode_lowercase(s: Seq<char>) -> Seq<char>;

/// What `str::to_uppercase` gives for a character sequence (the Unicode upper-case mapping).
pub uninterp spec fn unicode_uppercase(s: Seq<char>) -> Seq<char>;

/// `str::to_lowercase`: the result is the Unicode lower-case mapping of the argument, a
/// function of the argument alone; on ASCII text that mapping is the ASCII lower case.
#[verifier::external_body]
pub(crate) fn to_lowercase(s: &str) -> (res: String)
    ensures
        res@ == unicode_lowercase(s@),
        is_ascii(s@) ==> res@ == ascii_lower(s@),
{
    s.to_lowercase()
}

/// `str::to_uppercase`: the result is the Unicode upper-case mapping of the argument, a
/// function of the argument alone; on ASCII text that mapping is the ASCII upper case.
#[verifier::external_body]
pub(crate) fn to_uppercase(s: &str) -> (res: String)
    ensures
        res@ == unicode_uppercase(s@),
        is_ascii(s@) ==> res@ == ascii_upper(s@),
{
    s.to_uppercase()
}

// ---------------------------------------------------------------------------
// HMAC-SHA1 (hmac, sha1) and Base64 (base64)
// ---------------------------------------------------------------------------

/// The HMAC-SHA1 tag of a message under a key.
pub uninterp spec fn hmac_sha1_tag(key: Seq<u8>, msg: Seq<u8>) -> Seq<u8>;

/// `Hmac::<Sha1>::new_from_slice(key)`, `update(msg)`, `finalize()`: the tag is named by
/// `hmac_sha1_tag`; `new_from_slice` in hmac 0.12 accepts keys of every length, so the
/// result is always `Some`.
#[verifier::external_body]
pub(crate) fn hmac_sha1(key: &[u8], msg: &[u8]) -> (res: Option<Vec<u8>>)
    ensures
        res is Some,
        res matches Some(v) ==> v@ == hmac_sha1_tag(key@, msg@),
{
    match <hmac::Hmac<sha1::Sha1> as hmac::Mac>::new_from_slice(key) {
        Ok(mut mac) => {
            hmac::Mac::update(&mut mac, msg);
            Some(hmac::Mac::finalize(mac).into_bytes().to_vec())
        },
        Err(_) => None,
    }
}

/// The Base64 alphabet of RFC 4648.
pub open spec fn base64_char(v: nat) -> char {
    if v < 26 {
        (('A' as u32) + v) as char
    } else if v < 52 {
        (('a' as u32) + (v - 26)) as char
    } else if v < 62 {
        (('0' as u32) + (v - 52)) as char
    } else if v == 62 {
        '+'
    } else {
        '/'
    }
}

/// Standard Base64 with `'='` padding (RFC 4648, section 4).
pub open spec fn base64_encode(b: Seq<u8>) -> Seq<char>
    decreases b.len(),
{
    if b.len() == 0 {
        seq![]
    } else if b.len() == 1 {
        seq![base64_char(b[0] as nat / 4), base64_char((b[0] as nat % 4) * 16), '=', '=']
    } else if b.len() == 2 {
        seq![
            base64_char(b[0] as nat / 4),
            base64_char((b[0] as nat % 4) * 16 + b[1] as nat / 16),
            base64_char((b[1] as nat % 16) * 4),
            '=',
        ]
    } else {
        seq![
            base64_char(b[0] as nat / 4),
            base64_char((b[0] as nat % 4) * 16 + b[1] as nat / 16),
            base64_char((b[1] as nat % 16) * 4 + b[2] as nat / 64),
            base64_char(b[2] as nat % 64),
        ] + base64_encode(b.skip(3))
    }
}

/// `base64::engine::general_purpose::STANDARD.encode`: standard alphabet with padding.
#[verifier::external_body]
pub(crate) fn base64_standard(bytes: &[u8]) -> (res: String)
    ensures
        res@ == base64_encode(bytes@),
{
    base64::Engine::encode(&base64::engine::general_purpose::STANDARD, bytes)
}

// ---------------------------------------------------------------------------
// Hex decoding (hex)
// ---------------------------------------------------------------------------

/// Pairs of hexadecimal digits, read as bytes; `None` for an odd length or a byte that is
/// no hexadecimal digit.
pub open spec fn hex_decode(b: Seq<u8>) -> Option<Seq<u8>>
    decreases b.len(),
{
    if b.len() == 0 {
        Some(seq![])
    } else if b.len() == 1 || !is_hex_digit(b[0]) || !is_hex_digit(b[1]) {
        None
    } else {
        match hex_decode(b.skip(2)) {
            Some(rest) => Some(
                seq![(hex_digit_value(b[0]) * 16 + hex_digit_value(b[1])) as u8] + rest,
            ),
            None => None,
        }
    }
}

/// The text of the error `hex::decode` gives for bytes it refuses.
pub uninterp spec fn hex_error_text(b: Seq<u8>) -> Seq<char>;

/// `hex::decode` on the UTF-8 bytes of a text: `Ok` exactly when `hex_decode` reads bytes,
/// with those bytes. Otherwise the error's text, named by `hex_error_text`; for an odd
/// number of bytes it is `Odd number of digits` (the crate checks the length first). For
/// an invalid digit the crate names the character and its position; that text is left to
/// the name.
#[verifier::external_body]
pub(crate) fn hex_decode_str(s: &str) -> (res: Result<Vec<u8>, String>)
    ensures
        match res {
            Ok(v) => hex_decode(s.spec_bytes()) == Some(v@),
            Err(e) => hex_decode(s.spec_bytes()) is None && e@ == hex_error_text(s.spec_bytes())
                && (s.spec_bytes().len() % 2 == 1 ==> e@ == "Odd number of digits"@),
        },
{
    hex::decode(s).map_err(|e| e.to_string())
}

// ---------------------------------------------------------------------------
// URLs (url) and HTTP methods (http, through reqwest)
// ---------------------------------------------------------------------------

/// The serialized absolute URL `url::Url::parse` reads from a text, or `None` when it
/// refuses it.
pub uninterp spec fn url_parse(s: Seq<char>) -> Option<Seq<char>>;

/// The text of the `url::ParseError` for a text `url::Url::parse` refuses.
pub uninterp spec fn url_error_text(s: Seq<char>) -> Seq<char>;

/// `url::Url::parse(s)`: the serialized URL (`Url::as_str`), named by `url_parse`, or the
/// error's text, named by `url_error_text`. Both depend on the text alone.
#[verifier::external_body]
pub(crate) fn parse_url(s: &str) -> (res: Result<String, String>)
    ensures
        match res {
            Ok(u) => url_parse(s@) == Some(u@),
            Err(e) => url_parse(s@) is None && e@ == url_error_text(s@),
        },
{
    match url::Url::parse(s) {
        Ok(u) => Ok(u.as_str().to_string()),
        Err(e) => Err(e.to_string()),
    }
}

/// A character of an HTTP method (a token character of RFC 9110): an ASCII letter or
/// digit, or one of `` !#$%&'*+-.^_`|~ ``.
pub open spec fn is_method_char(c: char) -> bool {
    is_ascii_alnum(c) || c == '!' || c == '#' || c == '$' || c == '%' || c == '&' || c == '\''
        || c == '*' || c == '+' || c == '-' || c == '.' || c == '^' || c == '_' || c == '`' || c
        == '|' || c == '~'
}

/// The method `http::Method::from_str` reads from a text, by its text: a nonempty text of
/// method characters is accepted and given back as it is; anything else is refused.
pub open spec fn http_method(s: Seq<char>) -> Option<Seq<char>> {
    if s.len() > 0 && forall|k: int| 0 <= k < s.len() ==> is_method_char(#[trigger] s[k]) {
        Some(s)
    } else {
        None
    }
}

/// `s.parse::<http::Method>()` (re-exported by reqwest as `reqwest::Method`) and the
/// method's text (`Method::as_str`). The crate refuses an empty text and any byte outside
/// its table of token characters (`METHOD_CHARS` in `method.rs`), for every length; the
/// standard methods and extension methods alike give their text back unchanged. A
/// non-ASCII character has bytes outside the table.
#[verifier::external_body]
pub(crate) fn parse_method(s: &str) -> (res: Option<String>)
    ensures
        match res {
            Some(m) => http_method(s@) == Some(m@),
            None => http_method(s@) is None,
        },
{
    s.parse::<reqwest::Method>().ok().map(|m| m.as_str().to_string())
}

// ---------------------------------------------------------------------------
// Lossy UTF-8 decoding (std)
// ---------------------------------------------------------------------------

/// The text `String::from_utf8_lossy` reads from bytes: valid UTF-8 decoded, each invalid
/// sequence replaced by U+FFFD.
pub uninterp spec fn utf8_lossy(bytes: Seq<u8>) -> Seq<char>;

/// `String::from_utf8_lossy(bytes).into_owned()`: the result is named by `utf8_lossy`;
/// valid UTF-8 is decoded as it is.
#[verifier::external_body]
pub(crate) fn from_utf8_lossy(bytes: &[u8]) -> (res: String)
    ensures
        res@ == utf8_lossy(bytes@),
        vstd::utf8::valid_utf8(bytes@) ==> res@ == vstd::utf8::decode_utf8(bytes@),
{
    String::from_utf8_lossy(bytes).into_owned()
}

// ---------------------------------------------------------------------------
// Randomness and time (uuid, chrono)
// ---------------------------------------------------------------------------

/// A lower-case hexadecimal digit.
pub open spec fn is_lower_hex(c: char) -> bool {
    ('0' <= c && c <= '9') || ('a' <= c && c <= 'f')
}

/// The hyphenated text of a UUID: 36 characters, hyphens after the 8th, 12th, 16th and
/// 20th hexadecimal digit, lower-case hexadecimal digits elsewhere.
pub open spec fn uuid_text(s: Seq<char>) -> bool {
    &&& s.len() == 36
    &&& forall|k: int|
        0 <= k < 36 ==> if k == 8 || k == 13 || k == 18 || k == 23 {
            #[trigger] s[k] == '-'
        } else {
            is_lower_hex(s[k])
        }
}

/// `Uuid::new_v4().to_string()`: a fresh random identifier. Its `Display` writes the
/// hyphenated lower-case form (`format_hyphenated` in the crate's `fmt.rs`); which digits
/// come is left open.
#[verifier::external_body]
pub(crate) fn new_uuid() -> (res: String)
    ensures
        uuid_text(res@),
{
    uuid::Uuid::new_v4().to_string()
}

/// The text of a UTC time as `%Y-%m-%dT%H:%M:%SZ` writes it: the year, then 16
/// characters `-MM-DDTHH:MM:SSZ` with two decimal digits in each field. The year takes at
/// least four characters (four digits from year 0 to 9999, a sign and digits outside).
pub open spec fn timestamp_text(s: Seq<char>) -> bool {
    &&& s.len() >= 20
    &&& {
        let t = s.skip(s.len() - 16);
        &&& t[0] == '-' && is_digit(t[1]) && is_digit(t[2])
        &&& t[3] == '-' && is_digit(t[4]) && is_digit(t[5])
        &&& t[6] == 'T' && is_digit(t[7]) && is_digit(t[8])
        &&& t[9] == ':' && is_digit(t[10]) && is_digit(t[11])
        &&& t[12] == ':' && is_digit(t[13]) && is_digit(t[14])
        &&& t[15] == 'Z'
    }
}

/// `chrono::Utc::now().format("%Y-%m-%dT%H:%M:%SZ")`: the current time. Month, day, hour,
/// minute and second are written as two digits each (`write_two` in the crate's
/// `format/formatting.rs`), the year as four digits or, outside 0 to 9999, a sign and at
/// least four digits (`write_year`); which time comes is left open.
#[verifier::external_body]
pub(crate) fn utc_timestamp() -> (res: String)
    ensures
        timestamp_text(res@),
{
    chrono::Utc::now().format("%Y-%m-%dT%H:%M:%SZ").to_string()
}

} // verus!
