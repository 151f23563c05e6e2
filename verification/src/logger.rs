//! Log records: one raw-data record per received frame.
//!
//! Writing the records (CSV, flushing) is I/O and happens in the application;
//! here the records are built.

use vstd::prelude::*;
use vstd::string::StringSliceAdditionalSpecFns;

use crate::errors::FrameParseError;

verus! {

/// The lowercase hex digit of a nibble `0..=15`.
pub open spec fn hex_lower_digit(v: u8) -> char {
    if v <= 9 {
        (48 + v) as char
    } else {
        (87 + v) as char
    }
}

/// The lowercase hex text of a byte sequence: two digits per byte, high nibble first.
pub open spec fn hex_lower(bytes: Seq<u8>) -> Seq<char>
    decreases bytes.len(),
{
    if bytes.len() == 0 {
        Seq::empty()
    } else {
        seq![hex_lower_digit(bytes[0] / 16), hex_lower_digit(bytes[0] % 16)] + hex_lower(
            bytes.drop_first(),
        )
    }
}

/// Lowercase hex encoding of bytes.
///
/// Trusted: `hex::encode` maps every byte to two characters from the table
/// `0123456789abcdef`, first `byte >> 4`, then `byte & 0x0F`; the contract
/// states that text.
#[verifier::external_body]
pub(crate) fn hex_encode(data: &[u8]) -> (r: String)
    ensures
        r@ == hex_lower(data@),
{
    hex::encode(data)
}

/// An ASCII decimal digit.
pub open spec fn dec_digit(c: char) -> bool {
    '0' <= c && c <= '9'
}

/// Every character is an ASCII decimal digit.
pub open spec fn dec_digits(s: Seq<char>) -> bool {
    forall|i: int| 0 <= i < s.len() ==> dec_digit(#[trigger] s[i])
}

/// The year field: four digits, or a sign and at least four digits.
pub open spec fn rfc3339_year(t: Seq<char>) -> bool {
    ||| t.len() == 4 && dec_digits(t)
    ||| t.len() >= 5 && (t[0] == '+' || t[0] == '-') && dec_digits(t.drop_first())
}

/// The text is a date and time in the form that `to_rfc3339` writes:
/// `YYYY-MM-DDTHH:MM:SS`, then a fraction of 3, 6 or 9 digits when the
/// time has one, then the offset `+HH:MM` or `-HH:MM`. The year has `y`
/// characters and the fraction, with its dot, `f`.
pub open spec fn rfc3339_shape(s: Seq<char>, y: int, f: int) -> bool {
    &&& rfc3339_year(s.take(y))
    &&& f == 0 || f == 4 || f == 7 || f == 10
    &&& s.len() == y + 15 + f + 6
    &&& s[y] == '-' && s[y + 3] == '-' && s[y + 6] == 'T' && s[y + 9] == ':' && s[y + 12] == ':'
    &&& dec_digits(s.subrange(y + 1, y + 3)) && dec_digits(s.subrange(y + 4, y + 6))
    &&& dec_digits(s.subrange(y + 7, y + 9)) && dec_digits(s.subrange(y + 10, y + 12))
    &&& dec_digits(s.subrange(y + 13, y + 15))
    &&& f > 0 ==> s[y + 15] == '.' && dec_digits(s.subrange(y + 16, y + 15 + f))
    &&& (s[y + 15 + f] == '+' || s[y + 15 + f] == '-') && s[y + 18 + f] == ':'
    &&& dec_digits(s.subrange(y + 16 + f, y + 18 + f)) && dec_digits(s.subrange(y + 19 + f, y + 21 + f))
}

/// The text is an RFC 3339 date and time as `to_rfc3339` writes it.
pub open spec fn is_rfc3339(s: Seq<char>) -> bool {
    exists|y: int, f: int| rfc3339_shape(s, y, f)
}

/// The current local time in RFC 3339 form.
///
/// Trusted: `chrono::Local::now().to_rfc3339()`. The time read from the
/// clock is not stated; the text always has the shape that chrono's
/// `write_rfc3339` gives it with whole-minute offset and `+HH:MM` (never
/// `Z`): a four-digit year (or a signed one outside `0..=9999`), month,
/// day, hours, minutes, seconds, an optional fraction of 3, 6 or 9 digits,
/// and the offset.
#[verifier::external_body]
pub(crate) fn local_timestamp() -> (r: String)
    ensures
        is_rfc3339(r@),
{
    chrono::Local::now().to_rfc3339()
}

/// One record of the raw-data log.
#[derive(Debug)]
pub struct RxDataLog {
    pub timestamp: String,
    pub raw_len: usize,
    pub raw_data: String,
    pub error_log: Option<FrameParseError>,
}

impl RxDataLog {
    /// Record of a text frame: its byte length and the text itself.
    pub fn new_str(raw: &str) -> (r: Self)
        ensures
            r.raw_len == raw.spec_bytes().len() as usize,
            r.raw_data@ == raw@,
            r.error_log is None,
            is_rfc3339(r.timestamp@),
    {
        Self {
            timestamp: local_timestamp(),
            raw_len: raw.len(),
            raw_data: raw.to_owned(),
            error_log: None,
        }
    }

    /// Record of a binary frame: its byte length and its lowercase hex text.
    pub fn new_bin(raw: &[u8]) -> (r: Self)
        ensures
            r.raw_len == raw@.len(),
            r.raw_data@ == hex_lower(raw@),
            r.error_log is None,
            is_rfc3339(r.timestamp@),
    {
        Self { timestamp: local_timestamp(), raw_len: raw.len(), raw_data: hex_encode(raw), error_log: None }
    }
}

} // verus!
