//! Checking of text frames as the Pico sends them, e.g. `FFFF001234520`.
//!
//! Unlike the nibble parser, this checker works on the characters and keeps
//! the six data characters as ASCII bytes.

use vstd::prelude::*;

use crate::frame::{
    spec_point_code, DigimaticFrame, PointPosition, Sign, Unit, D1, D12, D13, D5, D6, FRAME_LENGTH,
};
use crate::text::{chars_of, trim, trim_bounds};

verus! {

/// Every character is ASCII.
pub open spec fn ascii_text(s: Seq<char>) -> bool {
    forall|i: int| 0 <= i < s.len() ==> s[i] <= '\u{7f}'
}

/// Why a text frame was rejected.
#[derive(Debug, Clone, Copy, PartialEq, Eq)]
pub enum RxFrameError {
    /// The frame holds a non-ASCII character.
    NonAscii,
    /// The trimmed frame does not have thirteen characters (the length found).
    InvalidLength(usize),
    /// The header is not `FFFF`.
    InvalidFormat,
    /// The sign character is neither `0` nor `8`.
    UnknownSign,
    /// The point character is not `0`..`5`.
    IllegalPoint,
    /// The unit character is neither `0` nor `1`.
    UnknownUnit,
    /// A data character is not an ASCII digit.
    InvalidNumeric,
}

/// The sign that a character encodes.
pub open spec fn sign_of_char(c: char) -> Result<Sign, RxFrameError> {
    if c == '0' {
        Ok(Sign::Plus)
    } else if c == '8' {
        Ok(Sign::Minus)
    } else {
        Err(RxFrameError::UnknownSign)
    }
}

/// The point position that a character encodes.
pub open spec fn point_of_char(c: char) -> Result<PointPosition, RxFrameError> {
    if c == '0' {
        Ok(PointPosition::Zero)
    } else if c == '1' {
        Ok(PointPosition::One)
    } else if c == '2' {
        Ok(PointPosition::Two)
    } else if c == '3' {
        Ok(PointPosition::Three)
    } else if c == '4' {
        Ok(PointPosition::Four)
    } else if c == '5' {
        Ok(PointPosition::Five)
    } else {
        Err(RxFrameError::IllegalPoint)
    }
}

/// The unit that a character encodes.
pub open spec fn unit_of_char(c: char) -> Result<Unit, RxFrameError> {
    if c == '0' {
        Ok(Unit::Mm)
    } else if c == '1' {
        Ok(Unit::Inch)
    } else {
        Err(RxFrameError::UnknownUnit)
    }
}

/// The characters of a text frame mean what they say: a point character
/// `'0'..='5'` gives the position with that many decimals (any other
/// character is refused); the sign is plus for `'0'` and minus for `'8'`
/// only; the unit is mm for `'0'` and inch for `'1'` only.
pub proof fn lemma_char_codes()
    ensures
        forall|c: char|
            #![trigger point_of_char(c)]
            ('0' <= c && c <= '5') ==> (point_of_char(c) matches Ok(p) && spec_point_code(p) == c as int
                - 48),
        forall|c: char| #![trigger point_of_char(c)] !('0' <= c && c <= '5') ==> point_of_char(c) is Err,
        forall|c: char|
            #![trigger sign_of_char(c)]
            (sign_of_char(c) == Ok::<Sign, RxFrameError>(Sign::Plus)) == (c == '0') && (sign_of_char(c)
                == Ok::<Sign, RxFrameError>(Sign::Minus)) == (c == '8'),
        forall|c: char|
            #![trigger unit_of_char(c)]
            (unit_of_char(c) == Ok::<Unit, RxFrameError>(Unit::Mm)) == (c == '0') && (unit_of_char(c)
                == Ok::<Unit, RxFrameError>(Unit::Inch)) == (c == '1'),
{
    assert forall|c: char| ('0' <= c && c <= '5') implies #[trigger] point_of_char(c) matches Ok(p)
        && spec_point_code(p) == c as int - 48 by {
        if c == '0' {
        } else if c == '1' {
        } else if c == '2' {
        } else if c == '3' {
        } else if c == '4' {
        } else {
            assert(c == '5');
        }
    }
}

/// An accepted text frame carries what its characters encode: thirteen
/// characters after trimming, the header `FFFF`, the sign of the fifth
/// character (`'8'` minus, `'0'` plus), the six data characters as bytes,
/// the point position with as many decimals as the twelfth character's digit
/// and the unit of the last character (`'1'` inch, `'0'` mm).
pub proof fn lemma_rx_frame_string_fields(s: Seq<char>)
    requires
        spec_parse_rx_frame_string(s) is Ok,
    ensures
        ({
            let t = trim(s);
            let f = spec_parse_rx_frame_string(s)->Ok_0;
            &&& t.len() == FRAME_LENGTH
            &&& t[0] == 'F' && t[1] == 'F' && t[2] == 'F' && t[3] == 'F'
            &&& (f.sign == Sign::Minus) == (t[4] == '8')
            &&& (f.sign == Sign::Plus) == (t[4] == '0')
            &&& forall|i: int| 0 <= i < 6 ==> f.data@[i] == t[5 + i] as u8
            &&& spec_point_code(f.point_pos) == t[11] as int - 48
            &&& (f.unit == Unit::Inch) == (t[12] == '1')
            &&& (f.unit == Unit::Mm) == (t[12] == '0')
        }),
{
    lemma_char_codes();
    let t = trim(s);
    let f = spec_parse_rx_frame_string(s)->Ok_0;
    assert(sign_of_char(t[4]) == Ok::<Sign, RxFrameError>(f.sign));
    assert(point_of_char(t[11]) == Ok::<PointPosition, RxFrameError>(f.point_pos));
    assert(unit_of_char(t[12]) == Ok::<Unit, RxFrameError>(f.unit));
    if '0' <= t[11] && t[11] <= '5' {
    } else {
        assert(point_of_char(t[11]) is Err);
    }
}

/// A trimmed ASCII frame is at least thirteen characters long or not ASCII;
/// shorter ASCII frames are outside what the checkers accept.
pub open spec fn checkable(s: Seq<char>) -> bool {
    ascii_text(trim(s)) ==> trim(s).len() >= FRAME_LENGTH
}

/// What `parse_rx_frame_string` gives: the first failure in the order
/// ASCII, length, header, sign, point, unit; else the frame with the data
/// characters kept as ASCII bytes.
pub open spec fn spec_parse_rx_frame_string(s: Seq<char>) -> Result<DigimaticFrame, RxFrameError> {
    let t = trim(s);
    if !ascii_text(t) {
        Err(RxFrameError::NonAscii)
    } else if t.len() != FRAME_LENGTH {
        Err(RxFrameError::InvalidLength(t.len() as usize))
    } else if !(t[0] == 'F' && t[1] == 'F' && t[2] == 'F' && t[3] == 'F') {
        Err(RxFrameError::InvalidFormat)
    } else {
        match sign_of_char(t[4]) {
            Err(e) => Err(e),
            Ok(sign) => match point_of_char(t[11]) {
                Err(e) => Err(e),
                Ok(point_pos) => match unit_of_char(t[12]) {
                    Err(e) => Err(e),
                    Ok(unit) => Ok(
                        DigimaticFrame {
                            header: [70u8, 70, 70, 70],
                            sign,
                            data: [
                                t[5] as u8,
                                t[6] as u8,
                                t[7] as u8,
                                t[8] as u8,
                                t[9] as u8,
                                t[10] as u8,
                            ],
                            point_pos,
                            unit,
                        },
                    ),
                },
            },
        }
    }
}

/// Whether all characters are ASCII.
pub(crate) fn chars_are_ascii(s: &[char], from: usize, to: usize) -> (r: bool)
    requires
        from <= to <= s@.len(),
    ensures
        r == ascii_text(s@.subrange(from as int, to as int)),
{
    let mut i = from;
    while i < to
        invariant
            from <= i <= to,
            to <= s@.len(),
            forall|j: int| from <= j < i ==> s@[j] <= '\u{7f}',
        decreases to - i,
    {
        if s[i] > '\u{7f}' {
            assert(s@.subrange(from as int, to as int)[i - from] == s@[i as int]);
            return false;
        }
        i = i + 1;
    }
    assert forall|j: int| 0 <= j < s@.subrange(from as int, to as int).len() implies #[trigger] s@.subrange(
        from as int,
        to as int,
    )[j] <= '\u{7f}' by {
        assert(s@.subrange(from as int, to as int)[j] == s@[from + j]);
        assert(s@[from + j] <= '\u{7f}');
    }
    true
}

pub(crate) fn convert_sign(s: char) -> (r: Result<Sign, RxFrameError>)
    ensures
        r == sign_of_char(s),
{
    if s == '0' {
        Ok(Sign::Plus)
    } else if s == '8' {
        Ok(Sign::Minus)
    } else {
        Err(RxFrameError::UnknownSign)
    }
}

pub(crate) fn convert_point(p: char) -> (r: Result<PointPosition, RxFrameError>)
    ensures
        r == point_of_char(p),
        r matches Ok(pp) ==> spec_point_code(pp) == p as int - 48,
{
    if p == '0' {
        Ok(PointPosition::Zero)
    } else if p == '1' {
        Ok(PointPosition::One)
    } else if p == '2' {
        Ok(PointPosition::Two)
    } else if p == '3' {
        Ok(PointPosition::Three)
    } else if p == '4' {
        Ok(PointPosition::Four)
    } else if p == '5' {
        Ok(PointPosition::Five)
    } else {
        Err(RxFrameError::IllegalPoint)
    }
}

pub(crate) fn convert_unit(u: char) -> (r: Result<Unit, RxFrameError>)
    ensures
        r == unit_of_char(u),
{
    if u == '0' {
        Ok(Unit::Mm)
    } else if u == '1' {
        Ok(Unit::Inch)
    } else {
        Err(RxFrameError::UnknownUnit)
    }
}

/// Checks a text frame and splits it into a [`DigimaticFrame`] whose data
/// holds the six data characters as ASCII bytes (they are not checked).
///
/// The frame is trimmed first. Requires that a trimmed ASCII frame has at
/// least thirteen characters.
pub fn parse_rx_frame_string(rx_frame: &str) -> (r: Result<DigimaticFrame, RxFrameError>)
    requires
        checkable(rx_frame@),
    ensures
        r == spec_parse_rx_frame_string(rx_frame@),
        r matches Ok(f) ==> (f.sign == Sign::Minus) == (trim(rx_frame@)[4] == '8') && spec_point_code(
            f.point_pos,
        ) == trim(rx_frame@)[11] as int - 48 && (f.unit == Unit::Inch) == (trim(rx_frame@)[12] == '1'),
{
    proof {
        if spec_parse_rx_frame_string(rx_frame@) is Ok {
            lemma_rx_frame_string_fields(rx_frame@);
        }
    }
    let chars = chars_of(rx_frame);
    let (start, end) = trim_bounds(chars.as_slice());
    let ghost t = trim(rx_frame@);
    if !chars_are_ascii(chars.as_slice(), start, end) {
        return Err(RxFrameError::NonAscii);
    }
    let len = end - start;
    if len != FRAME_LENGTH {
        return Err(RxFrameError::InvalidLength(len));
    }
    assert(forall|k: int| 0 <= k < 13 ==> t[k] == chars@[start + k]);
    if !(chars[start + D1] == 'F' && chars[start + D1 + 1] == 'F' && chars[start + D1 + 2] == 'F'
        && chars[start + D1 + 3] == 'F') {
        return Err(RxFrameError::InvalidFormat);
    }
    let sign = match convert_sign(chars[start + D5]) {
        Ok(s) => s,
        Err(e) => {
            return Err(e);
        },
    };
    let data = [
        chars[start + D6] as u8,
        chars[start + D6 + 1] as u8,
        chars[start + D6 + 2] as u8,
        chars[start + D6 + 3] as u8,
        chars[start + D6 + 4] as u8,
        chars[start + D6 + 5] as u8,
    ];
    let point_pos = match convert_point(chars[start + D12]) {
        Ok(p) => p,
        Err(e) => {
            return Err(e);
        },
    };
    let unit = match convert_unit(chars[start + D13]) {
        Ok(u) => u,
        Err(e) => {
            return Err(e);
        },
    };
    Ok(DigimaticFrame { header: [70u8, 70, 70, 70], sign, data, point_pos, unit })
}

/// `s` without line feeds and carriage returns.
pub open spec fn without_newlines(s: Seq<u8>) -> Seq<u8>
    decreases s.len(),
{
    if s.len() == 0 {
        Seq::empty()
    } else if s.last() == 10 || s.last() == 13 {
        without_newlines(s.drop_last())
    } else {
        without_newlines(s.drop_last()).push(s.last())
    }
}

/// The received bytes with every `\n` and `\r` removed, order kept.
pub fn trim_bytes(rx_stream: &Vec<u8>) -> (r: Vec<u8>)
    ensures
        r@ == without_newlines(rx_stream@),
{
    let mut out: Vec<u8> = Vec::new();
    let mut i: usize = 0;
    while i < rx_stream.len()
        invariant
            i <= rx_stream@.len(),
            out@ == without_newlines(rx_stream@.take(i as int)),
        decreases rx_stream@.len() - i,
    {
        let b = rx_stream[i];
        proof {
            assert(rx_stream@.take(i + 1).drop_last() =~= rx_stream@.take(i as int));
        }
        if b != 10 && b != 13 {
            out.push(b);
        }
        i = i + 1;
    }
    proof {
        assert(rx_stream@.take(i as int) =~= rx_stream@);
    }
    out
}

/// Binary frame reception: strips line endings; decoding binary frames here
/// is not implemented, so nothing is returned.
pub fn parse_rx_frame_bin(rx_stream: &Vec<u8>) {
    let _bin_frame = trim_bytes(rx_stream);
}

} // verus!
