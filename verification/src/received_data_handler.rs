//! Decoding of received transport frames and the raw-log records kept for them.
//!
//! The application's receive loop decodes every frame here, writes the raw
//! record, and on success logs and forwards the measurement.

use vstd::prelude::*;
use vstd::string::StringSliceAdditionalSpecFns;
use vstd::utf8::{decode_utf8, encode_utf8, valid_utf8};

use crate::errors::FrameParseError;
use crate::config::FrameFormat;
use crate::frame::{
    all_bcd, digits_value, BitMode, DigimaticFrame, Measurement, PointPosition, Sign, TransportFrame,
    Unit,
};
use crate::frame_array_builder::{
    frame_bits, frame_nibbles, frame_text_bytes, is_payload, lemma_bits_roundtrip, lemma_frame_text_of_nibbles,
    lemma_frame_digits_value,
};
use crate::logger::{hex_encode, hex_lower, is_rfc3339, RxDataLog};
use crate::parser::{
    frame_error, frame_matches, hex_text, lemma_first_non_bcd, lemma_text_frame_roundtrip,
    lemma_valid_frame_fields, nibbles_of_text, parse_bits, spec_parse_bits, spec_parse_text,
    spec_validate, validator_bits,
};
use crate::text::{string_from_chars, trim, trim_bounds};

verus! {

/// Every byte is ASCII.
pub open spec fn all_ascii(bytes: Seq<u8>) -> bool {
    forall|i: int| 0 <= i < bytes.len() ==> bytes[i] < 128
}

/// ASCII bytes read as characters.
pub open spec fn ascii_chars(bytes: Seq<u8>) -> Seq<char> {
    bytes.map_values(|b: u8| b as char)
}

/// The measurement that a frame result gives.
pub open spec fn measurement_of(r: Result<DigimaticFrame, FrameParseError>) -> Result<Measurement, FrameParseError> {
    match r {
        Ok(f) => Ok(Measurement::spec_from_frame(f)),
        Err(e) => Err(e),
    }
}

/// What decoding a binary frame (52 bits, LSB first) gives.
pub open spec fn spec_decode_bits(bits: Seq<u8>) -> Result<DigimaticFrame, FrameParseError> {
    match spec_parse_bits(bits, BitMode::Lsb) {
        Ok(n) => spec_validate(n),
        Err(e) => Err(e),
    }
}

/// What `decode_raw_data` gives for a transport frame: an error for a text
/// frame with non-ASCII bytes, else the decode result and the text kept for
/// the log (the trimmed text, or the lowercase hex of a binary frame).
pub open spec fn spec_decode_raw(
    frame: TransportFrame,
) -> Result<(Result<Measurement, FrameParseError>, Seq<char>), FrameParseError> {
    match frame {
        TransportFrame::Str(v) => if !all_ascii(v@) {
            Err(FrameParseError::NonAscii)
        } else {
            Ok((measurement_of(spec_parse_text(ascii_chars(v@))), trim(ascii_chars(v@))))
        },
        TransportFrame::Bin(v) => Ok((measurement_of(spec_decode_bits(v@)), hex_lower(v@))),
    }
}

/// Whether every byte is ASCII.
fn bytes_are_ascii(bytes: &[u8]) -> (r: bool)
    ensures
        r == all_ascii(bytes@),
{
    let mut i: usize = 0;
    while i < bytes.len()
        invariant
            i <= bytes@.len(),
            forall|j: int| 0 <= j < i ==> bytes@[j] < 128,
        decreases bytes@.len() - i,
    {
        if bytes[i] >= 128 {
            return false;
        }
        i = i + 1;
    }
    true
}

/// ASCII bytes as characters.
fn chars_of_ascii(bytes: &[u8]) -> (r: Vec<char>)
    requires
        all_ascii(bytes@),
    ensures
        r@ == ascii_chars(bytes@),
{
    let mut out: Vec<char> = Vec::new();
    let mut i: usize = 0;
    while i < bytes.len()
        invariant
            i <= bytes@.len(),
            all_ascii(bytes@),
            out@ == ascii_chars(bytes@.take(i as int)),
        decreases bytes@.len() - i,
    {
        let c = bytes[i] as char;
        out.push(c);
        proof {
            assert(ascii_chars(bytes@.take(i + 1)) =~= ascii_chars(bytes@.take(i as int)).push(c));
        }
        i = i + 1;
    }
    proof {
        assert(bytes@.take(i as int) =~= bytes@);
    }
    out
}

/// Turns a frame result into a measurement result.
fn to_measurement(r: Result<DigimaticFrame, FrameParseError>) -> (m: Result<Measurement, FrameParseError>)
    ensures
        m == measurement_of(r),
{
    match r {
        Ok(f) => Measurement::try_from(f),
        Err(e) => Err(e),
    }
}

/// Validates and decodes a received frame.
///
/// A text frame must be ASCII (else `NonAscii` is returned at once); it is
/// trimmed and parsed as hex nibbles. A binary frame is read as 52 bits,
/// LSB first. The inner result is the decoded measurement or the parse
/// error; the string is what the log shows of the frame.
pub fn decode_raw_data(raw_frame: &TransportFrame) -> (r: Result<(Result<Measurement, FrameParseError>, String), FrameParseError>)
    ensures
        match r {
            Ok((m, s)) => spec_decode_raw(*raw_frame) == Ok::<
                (Result<Measurement, FrameParseError>, Seq<char>),
                FrameParseError,
            >((m, s@)),
            Err(e) => spec_decode_raw(*raw_frame) == Err::<
                (Result<Measurement, FrameParseError>, Seq<char>),
                FrameParseError,
            >(e),
        },
{
    match raw_frame {
        TransportFrame::Str(v) => {
            if !bytes_are_ascii(v.as_slice()) {
                return Err(FrameParseError::NonAscii);
            }
            let chars = chars_of_ascii(v.as_slice());
            let (start, end) = trim_bounds(chars.as_slice());
            let text = string_from_chars(chars.as_slice(), start, end);
            let frame = match nibbles_of_text(chars.as_slice(), start, end) {
                Ok(n) => validator_bits(n.as_slice()),
                Err(e) => Err(e),
            };
            Ok((to_measurement(frame), text))
        },
        TransportFrame::Bin(v) => {
            let frame = match parse_bits(v.as_slice(), BitMode::Lsb) {
                Ok(nibbles) => validator_bits(&nibbles),
                Err(e) => Err(e),
            };
            Ok((to_measurement(frame), hex_encode(v.as_slice())))
        },
    }
}

/// UTF-8 bytes as a string slice, or `None` when they are not valid UTF-8.
///
/// Trusted: `std::str::from_utf8` succeeds exactly on valid UTF-8 and then
/// views the same bytes as a `str`.
#[verifier::external_body]
fn utf8_str(bytes: &[u8]) -> (r: Option<&str>)
    ensures
        r is Some <==> valid_utf8(bytes@),
        r matches Some(s) ==> s.spec_bytes() == bytes@,
{
    std::str::from_utf8(bytes).ok()
}

/// The text that the raw log keeps of a text frame: the trimmed UTF-8 text,
/// or the empty text when the bytes are not UTF-8.
pub open spec fn raw_log_text(bytes: Seq<u8>) -> Seq<char> {
    if valid_utf8(bytes) {
        trim(decode_utf8(bytes))
    } else {
        Seq::empty()
    }
}

/// `r` is the raw-log record of `frame` with the error `err`: a text frame
/// is logged as its trimmed UTF-8 text (empty if the bytes are not UTF-8)
/// with that text's byte length; a binary frame as lowercase hex with the
/// number of bytes. The timestamp is the local time in RFC 3339 form.
pub open spec fn is_raw_log(r: RxDataLog, frame: TransportFrame, err: Option<FrameParseError>) -> bool {
    &&& r.error_log == err
    &&& is_rfc3339(r.timestamp@)
    &&& match frame {
        TransportFrame::Str(v) => r.raw_data@ == raw_log_text(v@) && r.raw_len == encode_utf8(
            raw_log_text(v@),
        ).len() as usize,
        TransportFrame::Bin(v) => r.raw_data@ == hex_lower(v@) && r.raw_len == v@.len(),
    }
}

/// The raw-log record of a received frame, with the parse error if one is given.
pub fn raw_log_entry(raw_frame: &TransportFrame, err: Option<&FrameParseError>) -> (r: RxDataLog)
    ensures
        is_raw_log(
            r,
            *raw_frame,
            match err {
                Some(e) => Some(*e),
                None => None::<FrameParseError>,
            },
        ),
{
    let mut rx_log = match raw_frame {
        TransportFrame::Str(bytes) => {
            let text = match utf8_str(bytes.as_slice()) {
                Some(s) => {
                    let chars = crate::text::chars_of(s);
                    proof {
                        vstd::utf8::encode_utf8_decode_utf8(s@);
                    }
                    let (start, end) = trim_bounds(chars.as_slice());
                    string_from_chars(chars.as_slice(), start, end)
                },
                None => String::new(),
            };
            RxDataLog::new_str(text.as_str())
        },
        TransportFrame::Bin(bytes) => RxDataLog::new_bin(bytes.as_slice()),
    };
    if let Some(e) = err {
        rx_log.error_log = Some(*e);
    }
    rx_log
}


/// What the receive loop does with one frame, decided in advance: the raw
/// record to write, the decoded measurement or parse error, the second raw
/// record (with the error) to write when decoding failed, and the text that
/// an error message shows of the frame.
#[derive(Debug)]
pub struct ReceiveOutcome {
    pub raw_log: RxDataLog,
    pub result: Result<Measurement, FrameParseError>,
    pub error_log: Option<RxDataLog>,
    pub raw_text: String,
}

/// Handles one received frame.
///
/// A text frame with non-ASCII bytes is an error at once. Otherwise the frame
/// is decoded; its raw record (without error) is always written first. On
/// success the measurement is then saved and forwarded; on failure a second
/// raw record carrying the parse error is written and the error is reported.
pub fn handle_received_data(receive_frame: &TransportFrame) -> (r: Result<ReceiveOutcome, FrameParseError>)
    ensures
        match spec_decode_raw(*receive_frame) {
            Err(e) => r == Err::<ReceiveOutcome, FrameParseError>(e),
            Ok((m, text)) => r matches Ok(o) && o.result == m && o.raw_text@ == text && is_raw_log(
                o.raw_log,
                *receive_frame,
                None,
            ) && match m {
                Ok(_) => o.error_log is None,
                Err(e) => o.error_log matches Some(l) && is_raw_log(l, *receive_frame, Some(e)),
            },
        },
{
    let (result, raw_text) = match decode_raw_data(receive_frame) {
        Ok(pair) => pair,
        Err(e) => {
            return Err(e);
        },
    };
    let raw_log = raw_log_entry(receive_frame, None);
    let error_log = match &result {
        Ok(_) => None,
        Err(e) => Some(raw_log_entry(receive_frame, Some(e))),
    };
    Ok(ReceiveOutcome { raw_log, result, error_log, raw_text })
}


/// Text and bits agree: for thirteen nibbles `0..=15`, the text line and the
/// LSB-first bit stream written for them decode to the same result, the one
/// that validating the nibbles gives.
pub proof fn lemma_text_and_bits_agree(n: Seq<u8>)
    requires
        n.len() == 13,
        forall|i: int| 0 <= i < n.len() ==> n[i] <= 15,
    ensures
        all_ascii(frame_text_bytes(n)),
        spec_parse_text(ascii_chars(frame_text_bytes(n))) == spec_validate(n),
        spec_decode_bits(frame_bits(n, BitMode::Lsb)) == spec_validate(n),
{
    lemma_frame_text_of_nibbles(n);
    assert(ascii_chars(frame_text_bytes(n)) =~= hex_text(n));
    lemma_text_frame_roundtrip(n);
    lemma_bits_roundtrip(n, BitMode::Lsb);
}

/// Simulator round trip: the payload built for a value in hundredths, in
/// either format, decodes to a measurement with that value (its last six
/// digits), the given sign, two decimals and unit mm.
pub proof fn lemma_payload_decodes(scaled: u32, negative: bool, format: FrameFormat, p: TransportFrame)
    requires
        is_payload(p, scaled, negative, format),
    ensures
        spec_decode_raw(p) matches Ok((Ok(m), _)) && m.spec_val() == scaled % 1_000_000
            && m.spec_sign() == (if negative {
            Sign::Minus
        } else {
            Sign::Plus
        }) && m.spec_point() == PointPosition::Two && m.spec_unit() == Unit::Mm,
{
    let n = frame_nibbles(scaled, negative);
    lemma_frame_digits_value(scaled, negative);
    assert forall|i: int| 0 <= i < 13 implies n[i] <= 15 by {
        if 5 <= i < 11 {
            assert(n.subrange(5, 11)[i - 5] == n[i]);
        }
    }
    lemma_first_non_bcd(n.subrange(5, 11));
    assert(frame_error(n) is None);
    lemma_valid_frame_fields(n);
    lemma_text_and_bits_agree(n);
    let f = spec_validate(n)->Ok_0;
    assert(f.data@ =~= n.subrange(5, 11));
    Measurement::lemma_spec_new(digits_value(f.data@) as u32, f.sign, f.point_pos, f.unit);
}

} // verus!
