//! Calls into other crates, each behind a contract that is believed and not proved.
use vstd::prelude::*;
use vstd::utf8::{decode_utf8, valid_utf8};

verus! {

/// What `serde_json` reads `text` as when a JSON array of strings is expected: the strings, or
/// the text of the error.
pub uninterp spec fn json_strings(text: Seq<char>) -> Result<Seq<Seq<char>>, Seq<char>>;

/// The views of what a reader of string lists returned.
pub open spec fn strings_view(r: Result<Vec<String>, String>) -> Result<Seq<Seq<char>>, Seq<char>> {
    match r {
        Ok(v) => Ok(v.deep_view()),
        Err(e) => Err(e@),
    }
}

/// Trusted: `serde_json::from_str::<Vec<String>>`, with the error as the text that its `Display`
/// prints. The result is a function of the text alone; which texts are JSON arrays of strings,
/// and what their strings are, is left to the crate.
#[verifier::external_body]
pub(crate) fn read_json_strings(text: &str) -> (r: Result<Vec<String>, String>)
    ensures
        strings_view(r) == json_strings(text@),
{
    serde_json::from_str::<Vec<String>>(text).map_err(|e| e.to_string())
}

/// What `serde_json` reads `text` as when a JSON object of strings is expected: its entries by their
/// keys, or the text of the error.
pub uninterp spec fn json_labels(text: Seq<char>) -> Result<
    Seq<(Seq<char>, Seq<char>)>,
    Seq<char>,
>;

/// The views of what a reader of labels returned.
pub open spec fn labels_view(r: Result<Vec<(String, String)>, String>) -> Result<
    Seq<(Seq<char>, Seq<char>)>,
    Seq<char>,
> {
    match r {
        Ok(v) => Ok(v.deep_view()),
        Err(e) => Err(e@),
    }
}

/// Trusted: `serde_json::from_str::<BTreeMap<String, String>>`, its entries in order, with the error
/// as the text that its `Display` prints. The result is a function of the text alone; which texts
/// are JSON objects of strings, and what their entries are, is left to the crate.
#[verifier::external_body]
pub(crate) fn read_json_labels(text: &str) -> (r: Result<Vec<(String, String)>, String>)
    ensures
        labels_view(r) == json_labels(text@),
{
    serde_json::from_str::<std::collections::BTreeMap<String, String>>(text)
        .map(|m| m.into_iter().collect())
        .map_err(|e| e.to_string())
}

/// Whether `c` is a hexadecimal digit, with small letters.
pub open spec fn hex_digit(c: char) -> bool {
    '0' <= c <= '9' || 'a' <= c <= 'f'
}

/// Whether `s` is a text of `n` hexadecimal digits.
pub open spec fn hex_text(s: Seq<char>, n: nat) -> bool {
    &&& s.len() == n
    &&& forall|i: int| 0 <= i < n ==> hex_digit(#[trigger] s[i])
}

/// Whether `s` has the form of a random id: 36 characters, hyphens at four places and hexadecimal
/// digits at the others, among them the marks of version and variant.
pub open spec fn uuid_text(s: Seq<char>) -> bool {
    &&& s.len() == 36
    &&& forall|i: int|
        0 <= i < 36 ==> if i == 8 || i == 13 || i == 18 || i == 23 {
            #[trigger] s[i] == '-'
        } else {
            hex_digit(s[i])
        }
    &&& s[14] == '4'
    &&& s[19] == '8' || s[19] == '9' || s[19] == 'a' || s[19] == 'b'
}

/// The MD5 digest of `bytes` in hexadecimal digits.
pub uninterp spec fn md5_hex(bytes: Seq<u8>) -> Seq<char>;

/// Trusted: `md5::compute`, its digest written by `LowerHex`: sixteen bytes, two small hexadecimal
/// digits each. The digest is a function of the bytes alone; how it comes about is left to the
/// crate.
#[verifier::external_body]
pub(crate) fn md5_digest(bytes: &[u8]) -> (r: String)
    ensures
        r@ == md5_hex(bytes@),
        hex_text(r@, 32),
{
    format!("{:x}", md5::compute(bytes))
}

/// The SHA-256 digest of `bytes` in hexadecimal digits.
pub uninterp spec fn sha256_hex(bytes: Seq<u8>) -> Seq<char>;

/// Trusted: `sha2::Digest::digest` of `sha2::Sha256`, its digest written by `LowerHex`: thirty-two
/// bytes, two small hexadecimal digits each. The digest is a function of the bytes alone; how it
/// comes about is left to the crate.
#[verifier::external_body]
pub(crate) fn sha256_digest(bytes: &[u8]) -> (r: String)
    ensures
        r@ == sha256_hex(bytes@),
        hex_text(r@, 64),
{
    format!("{:x}", <sha2::Sha256 as sha2::Digest>::digest(bytes))
}

/// `bytes` read as UTF-8, with a replacement character for what cannot be read.
pub uninterp spec fn lossy(bytes: Seq<u8>) -> Seq<char>;

/// Trusted: `std::string::String::from_utf8_lossy`. The text is a function of the bytes alone, and
/// the text that the bytes encode where they are UTF-8; how many replacement characters stand for
/// bytes that are not is left to std.
#[verifier::external_body]
pub(crate) fn lossy_text(bytes: &[u8]) -> (r: String)
    ensures
        r@ == lossy(bytes@),
        valid_utf8(bytes@) ==> r@ == decode_utf8(bytes@),
{
    String::from_utf8_lossy(bytes).into_owned()
}

/// Trusted: `uuid::Uuid::new_v4`, written by its `Display` in hyphenated form with small letters.
/// The id is drawn at random, so nothing more is said of it; that two of them differ is likely and
/// not stated.
#[verifier::external_body]
pub(crate) fn new_id() -> (r: String)
    ensures
        uuid_text(r@),
{
    uuid::Uuid::new_v4().to_string()
}

/// A time, given in seconds and nanoseconds since the start of 1970, in the form of RFC 3339.
pub uninterp spec fn rfc3339(secs: int, nanos: int) -> Seq<char>;

/// Whether a time lies in a year that can be written.
pub open spec fn writable_time(secs: i64, nanos: u32) -> bool {
    -8_334_601_228_800 <= secs <= 8_210_266_876_799 && nanos < 1_000_000_000
}

/// Whether `text` is a time since the start of 1970, in the form of RFC 3339.
pub open spec fn clock_text(text: Seq<char>) -> bool {
    exists|secs: i64, nanos: u32|
        0 <= secs && writable_time(secs, nanos) && text == #[trigger] rfc3339(
            secs as int,
            nanos as int,
        )
}

/// Trusted: `chrono::Utc::now`, written by `to_rfc3339`: the text of a time since the start of 1970,
/// as `chrono::DateTime::from_timestamp` gives it. Which time the clock shows is not known, so
/// nothing more is said.
#[verifier::external_body]
pub(crate) fn now_text() -> (r: String)
    ensures
        clock_text(r@),
{
    chrono::Utc::now().to_rfc3339()
}

/// `bytes` in Base64, with the standard alphabet and padding.
pub uninterp spec fn base64_text(bytes: Seq<u8>) -> Seq<char>;

/// What `text` is the Base64 form of, with the standard alphabet and padding, or the text of the
/// error.
pub uninterp spec fn base64_bytes(text: Seq<char>) -> Result<Seq<u8>, Seq<char>>;

/// Whether the Base64 form of so many bytes fits in memory.
pub open spec fn encodable(len: nat) -> bool {
    (len + 2) / 3 * 4 <= isize::MAX
}

/// The views of what a reader of bytes returned.
pub open spec fn bytes_view(r: Result<Vec<u8>, String>) -> Result<Seq<u8>, Seq<char>> {
    match r {
        Ok(v) => Ok(v@),
        Err(e) => Err(e@),
    }
}

/// Trusted: `base64::Engine::encode` of `base64::engine::general_purpose::STANDARD`. The text is a
/// function of the bytes alone; the alphabet is left to the crate.
#[verifier::external_body]
pub(crate) fn base64_encode(bytes: &[u8]) -> (r: String)
    requires
        encodable(bytes@.len()),
    ensures
        r@ == base64_text(bytes@),
{
    base64::Engine::encode(&base64::engine::general_purpose::STANDARD, bytes)
}

/// Whether a result is the bytes that were encoded, where the text comes from encoding.
pub open spec fn gives_back(r: Result<Seq<u8>, Seq<char>>, text: Seq<char>) -> bool {
    forall|b: Seq<u8>|
        encodable(b.len()) && text == #[trigger] base64_text(b) ==> (r matches Ok(v) && v == b)
}

/// Trusted: `base64::Engine::decode` of `base64::engine::general_purpose::STANDARD`, with the error
/// as the text that its `Display` prints. The result is a function of the text alone, and the bytes
/// that were encoded where the text comes from encoding; which other texts are in Base64 form is
/// left to the crate.
#[verifier::external_body]
pub(crate) fn base64_decode(text: &str) -> (r: Result<Vec<u8>, String>)
    ensures
        bytes_view(r) == base64_bytes(text@),
        gives_back(bytes_view(r), text@),
{
    base64::Engine::decode(&base64::engine::general_purpose::STANDARD, text).map_err(|e| e.to_string())
}

/// Trusted: `chrono::DateTime::from_timestamp` for `chrono::Utc`, written by `to_rfc3339`. The text
/// is a function of the time alone; its form is left to the crate.
#[verifier::external_body]
pub(crate) fn time_text(secs: i64, nanos: u32) -> (r: String)
    requires
        writable_time(secs, nanos),
    ensures
        r@ == rfc3339(secs as int, nanos as int),
{
    chrono::DateTime::<chrono::Utc>::from_timestamp(secs, nanos).unwrap().to_rfc3339()
}

} // verus!
