//! The outside crates' functions that the library calls, each with what is believed of it.

use base64::Engine;
use vstd::prelude::*;
use vstd::utf8::{decode_utf8, valid_utf8};

verus! {

/// The error of the regex crate.
#[verifier::external_type_specification]
#[verifier::external_body]
pub struct ExRegexError(regex::Error);

/// Whether `regex::Regex::new` accepts the pattern.
pub uninterp spec fn regex_compiles(pattern: Seq<char>) -> bool;

/// The text of the first match that `regex::Regex::find` reports, if there is one.
pub uninterp spec fn regex_found(pattern: Seq<char>, text: Seq<char>) -> Option<Seq<char>>;

/// The pattern of the texts that a key holds unencoded.
pub const SAFE_TOKEN_PATTERN: &'static str = "^[A-Za-z0-9][A-Za-z0-9_-]*$";

/// The pattern of the ids that an action provider may have.
pub const PROVIDER_ID_PATTERN: &'static str = "^[A-Za-z0-9][A-Za-z0-9._-]*$";

/// A letter or a digit of ASCII.
pub open spec fn ascii_alphanumeric(c: char) -> bool {
    'A' <= c <= 'Z' || 'a' <= c <= 'z' || '0' <= c <= '9'
}

/// A letter or digit, and then letters, digits, underscores and hyphens.
pub open spec fn safe_token(text: Seq<char>) -> bool {
    &&& text.len() > 0
    &&& ascii_alphanumeric(text[0])
    &&& forall|i: int|
        0 <= i < text.len() ==> ascii_alphanumeric(#[trigger] text[i]) || text[i] == '_' || text[i]
            == '-'
}

/// A letter or digit, and then letters, digits, dots, underscores and hyphens.
pub open spec fn provider_id(text: Seq<char>) -> bool {
    &&& text.len() > 0
    &&& ascii_alphanumeric(text[0])
    &&& forall|i: int|
        0 <= i < text.len() ==> ascii_alphanumeric(#[trigger] text[i]) || text[i] == '_' || text[i]
            == '-' || text[i] == '.'
}

/// `regex::Regex::new` and `regex::Regex::is_match`: an error exactly where the pattern does not
/// compile, else whether the pattern matches anywhere in the text, which is whether `find` reports
/// a match. The two patterns of this library compile, and being anchored at both ends they match
/// the texts of their character classes and no others.
#[verifier::external_body]
pub(crate) fn regex_is_match(pattern: &str, text: &str) -> (r: Result<bool, regex::Error>)
    ensures
        r is Ok <==> regex_compiles(pattern@),
        r matches Ok(matched) ==> matched == (regex_found(pattern@, text@) is Some),
        pattern@ == SAFE_TOKEN_PATTERN@ ==> r is Ok && r->Ok_0 == safe_token(text@),
        pattern@ == PROVIDER_ID_PATTERN@ ==> r is Ok && r->Ok_0 == provider_id(text@),
{
    Ok(regex::Regex::new(pattern)?.is_match(text))
}

/// `regex::Regex::new` and `regex::Regex::find`: an error exactly where the pattern does not
/// compile, else the text of the first match, if there is one.
#[verifier::external_body]
pub(crate) fn regex_find(pattern: &str, text: &str) -> (r: Result<Option<String>, regex::Error>)
    ensures
        r is Ok <==> regex_compiles(pattern@),
        r matches Ok(found) ==> found.deep_view() == regex_found(pattern@, text@),
{
    Ok(regex::Regex::new(pattern)?.find(text).map(|found| found.as_str().to_string()))
}

// ---------------------------------------------------------------------------------------------
// Base64
// ---------------------------------------------------------------------------------------------

/// The text that `base64::engine::general_purpose::URL_SAFE_NO_PAD` encodes the bytes as.
pub uninterp spec fn base64_token(bytes: Seq<u8>) -> Seq<char>;

/// The bytes that `base64::engine::general_purpose::URL_SAFE_NO_PAD` decodes the text to, if it
/// does.
pub uninterp spec fn base64_token_bytes(text: Seq<char>) -> Option<Seq<u8>>;

/// The text that `base64::engine::general_purpose::URL_SAFE` encodes the bytes as.
pub uninterp spec fn base64_padded(bytes: Seq<u8>) -> Seq<char>;

/// The bytes that `base64::engine::general_purpose::URL_SAFE` decodes the text to, if it does.
pub uninterp spec fn base64_padded_bytes(text: Seq<char>) -> Option<Seq<u8>>;

/// The bytes that `base64::engine::general_purpose::STANDARD` decodes the text to, if it does.
pub uninterp spec fn base64_standard_bytes(text: Seq<char>) -> Option<Seq<u8>>;

/// A character of the URL-safe alphabet of Base64.
pub open spec fn base64_url_char(c: char) -> bool {
    ascii_alphanumeric(c) || c == '-' || c == '_'
}

/// `URL_SAFE_NO_PAD.encode`: the text is made of the URL-safe alphabet alone, and decoding it with
/// the same engine gives the bytes back.
#[verifier::external_body]
pub(crate) fn encode_base64_token(bytes: &[u8]) -> (r: String)
    ensures
        r@ == base64_token(bytes@),
        base64_token_bytes(r@) == Some(bytes@),
        forall|i: int| 0 <= i < r@.len() ==> base64_url_char(#[trigger] r@[i]),
{
    base64::engine::general_purpose::URL_SAFE_NO_PAD.encode(bytes)
}

/// `URL_SAFE_NO_PAD.decode`: the bytes of the text, or nothing where the engine refuses it.
#[verifier::external_body]
pub(crate) fn decode_base64_token(text: &str) -> (r: Option<Vec<u8>>)
    ensures
        r is Some <==> base64_token_bytes(text@) is Some,
        r matches Some(bytes) ==> base64_token_bytes(text@) == Some(bytes@),
{
    base64::engine::general_purpose::URL_SAFE_NO_PAD.decode(text).ok()
}

/// `URL_SAFE.encode`: decoding the text with the same engine gives the bytes back.
#[verifier::external_body]
pub(crate) fn encode_base64_padded(bytes: &[u8]) -> (r: String)
    ensures
        r@ == base64_padded(bytes@),
        base64_padded_bytes(r@) == Some(bytes@),
{
    base64::engine::general_purpose::URL_SAFE.encode(bytes)
}

/// `URL_SAFE.decode`: the bytes of the text, or nothing where the engine refuses it.
#[verifier::external_body]
pub(crate) fn decode_base64_padded(text: &str) -> (r: Option<Vec<u8>>)
    ensures
        r is Some <==> base64_padded_bytes(text@) is Some,
        r matches Some(bytes) ==> base64_padded_bytes(text@) == Some(bytes@),
{
    base64::engine::general_purpose::URL_SAFE.decode(text).ok()
}

/// `STANDARD.decode`: the bytes of the text, or nothing where the engine refuses it.
#[verifier::external_body]
pub(crate) fn decode_base64_standard(text: &str) -> (r: Option<Vec<u8>>)
    ensures
        r is Some <==> base64_standard_bytes(text@) is Some,
        r matches Some(bytes) ==> base64_standard_bytes(text@) == Some(bytes@),
{
    base64::engine::general_purpose::STANDARD.decode(text).ok()
}

// ---------------------------------------------------------------------------------------------
// Bytes as text
// ---------------------------------------------------------------------------------------------

/// `String::from_utf8`: the text that the bytes encode, or nothing where they are no UTF-8.
#[verifier::external_body]
pub(crate) fn text_from_utf8(bytes: Vec<u8>) -> (r: Option<String>)
    ensures
        r is Some <==> valid_utf8(bytes@),
        r matches Some(text) ==> text@ == decode_utf8(bytes@),
{
    String::from_utf8(bytes).ok()
}

/// The text that `String::from_utf8_lossy` makes of the bytes.
pub uninterp spec fn lossy_text(bytes: Seq<u8>) -> Seq<char>;

/// `String::from_utf8_lossy`: bytes that are UTF-8 give the text that they encode.
#[verifier::external_body]
pub(crate) fn text_from_utf8_lossy(bytes: &[u8]) -> (r: String)
    ensures
        r@ == lossy_text(bytes@),
        valid_utf8(bytes@) ==> r@ == decode_utf8(bytes@),
{
    String::from_utf8_lossy(bytes).into_owned()
}

/// The text that `str::to_lowercase` makes of the text.
pub uninterp spec fn lowercase(text: Seq<char>) -> Seq<char>;

/// `str::to_lowercase`.
#[verifier::external_body]
pub(crate) fn text_to_lowercase(text: &str) -> (r: String)
    ensures
        r@ == lowercase(text@),
{
    text.to_lowercase()
}

// ---------------------------------------------------------------------------------------------
// Time
// ---------------------------------------------------------------------------------------------

/// The first second that a `chrono::DateTime<Utc>` can hold, counted from 1970.
pub const FIRST_SECOND: i64 = -8_334_601_228_800;

/// The last second that a `chrono::DateTime<Utc>` can hold, counted from 1970.
pub const LAST_SECOND: i64 = 8_210_266_876_799;

/// Whether seconds since 1970 and nanoseconds in the second are an instant of chrono. A leap second
/// is the last second of a minute with a second more of nanoseconds.
pub open spec fn valid_instant(seconds: i64, nanos: u32) -> bool {
    &&& FIRST_SECOND <= seconds <= LAST_SECOND
    &&& nanos < 2_000_000_000
    &&& nanos >= 1_000_000_000 ==> seconds % 60 == 59
}

/// The instant that `chrono::DateTime::parse_from_rfc3339` reads from the text, if it does: seconds
/// since 1970 and nanoseconds in the second.
pub uninterp spec fn rfc3339_instant(text: Seq<char>) -> Option<(i64, u32)>;

/// The instant that `chrono::DateTime::checked_add_signed` gives for an instant and a number of
/// milliseconds, if it does.
pub uninterp spec fn instant_after(seconds: i64, nanos: u32, millis: i64) -> Option<(i64, u32)>;

/// The instant a number of milliseconds after another, where chrono can hold it.
pub open spec fn summed_instant(seconds: i64, nanos: u32, millis: i64) -> Option<(i64, u32)> {
    let total = seconds * 1_000_000_000 + nanos + millis * 1_000_000;
    let second = total / 1_000_000_000;
    if FIRST_SECOND <= second <= LAST_SECOND {
        Some((second as i64, (total % 1_000_000_000) as u32))
    } else {
        None
    }
}

/// `chrono::DateTime::parse_from_rfc3339`: the instant in UTC, or nothing where chrono refuses the
/// text.
#[verifier::external_body]
pub(crate) fn parse_rfc3339(text: &str) -> (r: Option<(i64, u32)>)
    ensures
        r == rfc3339_instant(text@),
        r matches Some((seconds, nanos)) ==> valid_instant(seconds, nanos),
{
    let parsed = chrono::DateTime::parse_from_rfc3339(text).ok();
    parsed.map(|instant| (instant.timestamp(), instant.timestamp_subsec_nanos()))
}

/// `chrono::DateTime::checked_add_signed` with `chrono::TimeDelta::milliseconds`, which refuses the
/// least 64-bit number. From an instant that is no leap second, the sum of the two, or nothing where
/// chrono cannot hold it.
#[verifier::external_body]
pub(crate) fn add_millis(seconds: i64, nanos: u32, millis: i64) -> (r: Option<(i64, u32)>)
    requires
        valid_instant(seconds, nanos),
        millis != i64::MIN,
    ensures
        r == instant_after(seconds, nanos, millis),
        r matches Some((later, rest)) ==> valid_instant(later, rest),
        nanos < 1_000_000_000 ==> r == summed_instant(seconds, nanos, millis),
{
    let start = chrono::DateTime::<chrono::Utc>::from_timestamp(seconds, nanos)?;
    let end = start.checked_add_signed(chrono::TimeDelta::milliseconds(millis))?;
    Some((end.timestamp(), end.timestamp_subsec_nanos()))
}

/// Whether the clock can show the instant: it starts in 1970 and shows no leap second.
pub open spec fn clock_instant(at: (i64, u32)) -> bool {
    valid_instant(at.0, at.1) && 0 <= at.0 && at.1 < 1_000_000_000
}

/// `chrono::Utc::now`: an instant since 1970 that is no leap second. Which one it is rests on the
/// clock.
#[verifier::external_body]
pub(crate) fn now() -> (r: (i64, u32))
    ensures
        clock_instant(r),
{
    let instant = chrono::Utc::now();
    (instant.timestamp(), instant.timestamp_subsec_nanos())
}

/// The last second of the year 9999, counted from 1970.
pub const LAST_PLAIN_SECOND: i64 = 253_402_300_799;

/// The text that `chrono::DateTime::to_rfc3339_opts` makes of an instant in UTC, to the second.
pub uninterp spec fn instant_text(seconds: i64, nanos: u32) -> Seq<char>;

/// The text that `chrono::DateTime::to_rfc3339_opts` makes of an instant in UTC, to the millisecond.
pub uninterp spec fn instant_millis_text(seconds: i64, nanos: u32) -> Seq<char>;

/// A decimal digit.
pub open spec fn decimal_digit(c: char) -> bool {
    '0' <= c <= '9'
}

/// A year: four digits, or a sign and at least four digits.
pub open spec fn year_shape(text: Seq<char>) -> bool {
    let digits = if text.len() > 4 {
        text.drop_first()
    } else {
        text
    };
    &&& text.len() >= 4
    &&& text.len() > 4 ==> text[0] == '+' || text[0] == '-'
    &&& forall|i: int| 0 <= i < digits.len() ==> decimal_digit(#[trigger] digits[i])
}

/// A month, a day, an hour, a minute and a second of two digits each, with what separates them.
pub open spec fn day_and_time_shape(text: Seq<char>) -> bool {
    &&& text.len() == 15
    &&& text[0] == '-' && decimal_digit(text[1]) && decimal_digit(text[2])
    &&& text[3] == '-' && decimal_digit(text[4]) && decimal_digit(text[5])
    &&& text[6] == 'T' && decimal_digit(text[7]) && decimal_digit(text[8])
    &&& text[9] == ':' && decimal_digit(text[10]) && decimal_digit(text[11])
    &&& text[12] == ':' && decimal_digit(text[13]) && decimal_digit(text[14])
}

/// A date and a time to the second, in UTC.
pub open spec fn timestamp_shape(text: Seq<char>) -> bool {
    let n = text.len() as int;
    &&& n >= 20
    &&& year_shape(text.take(n - 16))
    &&& day_and_time_shape(text.subrange(n - 16, n - 1))
    &&& text[n - 1] == 'Z'
}

/// A date and a time to the millisecond, in UTC.
pub open spec fn millis_timestamp_shape(text: Seq<char>) -> bool {
    let n = text.len() as int;
    &&& n >= 24
    &&& year_shape(text.take(n - 20))
    &&& day_and_time_shape(text.subrange(n - 20, n - 5))
    &&& text[n - 5] == '.'
    &&& decimal_digit(text[n - 4]) && decimal_digit(text[n - 3]) && decimal_digit(text[n - 2])
    &&& text[n - 1] == 'Z'
}

/// `chrono::DateTime::to_rfc3339_opts` to the second, of an instant in UTC: a date and a time. From
/// 1970 to 9999 and without leap seconds, `chrono::DateTime::parse_from_rfc3339` reads the second
/// back from it.
#[verifier::external_body]
pub(crate) fn instant_to_text(seconds: i64, nanos: u32) -> (r: String)
    requires
        valid_instant(seconds, nanos),
    ensures
        r@ == instant_text(seconds, nanos),
        timestamp_shape(r@),
        0 <= seconds <= LAST_PLAIN_SECOND && nanos < 1_000_000_000 ==> rfc3339_instant(r@) == Some(
            (seconds, 0u32),
        ),
{
    let instant = chrono::DateTime::<chrono::Utc>::from_timestamp(seconds, nanos);
    instant.unwrap_or_default().to_rfc3339_opts(chrono::SecondsFormat::Secs, true)
}

/// `chrono::DateTime::to_rfc3339_opts` to the millisecond, of an instant in UTC: a date and a time.
/// From 1970 to 9999 and without leap seconds, `chrono::DateTime::parse_from_rfc3339` reads the
/// millisecond back from it.
#[verifier::external_body]
pub(crate) fn instant_to_millis_text(seconds: i64, nanos: u32) -> (r: String)
    requires
        valid_instant(seconds, nanos),
    ensures
        r@ == instant_millis_text(seconds, nanos),
        millis_timestamp_shape(r@),
        0 <= seconds <= LAST_PLAIN_SECOND && nanos < 1_000_000_000 ==> rfc3339_instant(r@) == Some(
            (seconds, (nanos - nanos % 1_000_000) as u32),
        ),
{
    let instant = chrono::DateTime::<chrono::Utc>::from_timestamp(seconds, nanos);
    instant.unwrap_or_default().to_rfc3339_opts(chrono::SecondsFormat::Millis, true)
}

// ---------------------------------------------------------------------------------------------
// Random names
// ---------------------------------------------------------------------------------------------

/// A random name: groups of lower-case hexadecimal digits with hyphens between them, where the third
/// group starts with the version and the fourth with the variant.
pub open spec fn uuid_shape(text: Seq<char>) -> bool {
    &&& text.len() == 36
    &&& text[14] == '4'
    &&& text[19] == '8' || text[19] == '9' || text[19] == 'a' || text[19] == 'b'
    &&& forall|i: int|
        0 <= i < 36 ==> if i == 8 || i == 13 || i == 18 || i == 23 {
            #[trigger] text[i] == '-'
        } else {
            '0' <= text[i] <= '9' || 'a' <= text[i] <= 'f'
        }
}

/// `uuid::Uuid::new_v4` in its hyphenated form. Which digits the text has rests on chance.
#[verifier::external_body]
pub(crate) fn new_uuid_text() -> (r: String)
    ensures
        uuid_shape(r@),
{
    uuid::Uuid::new_v4().to_string()
}

} // verus!
