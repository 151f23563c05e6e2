//! Checking of text frames straight into a [`Measurement`].

use vstd::prelude::*;

use crate::frame::{
    digits_value, spec_point_code, DigimaticFrame, Measurement, PointPosition, Sign, Unit, D1, D12, D13, D5, D6,
    FRAME_LENGTH,
};
use crate::text::{chars_of, trim, trim_bounds};
use crate::validater::{
    ascii_text, chars_are_ascii, convert_point, convert_sign, convert_unit, lemma_char_codes,
    point_of_char, sign_of_char, unit_of_char, RxFrameError,
};

verus! {

/// Every character is an ASCII digit.
pub open spec fn all_digits(s: Seq<char>) -> bool {
    forall|i: int| 0 <= i < s.len() ==> '0' <= #[trigger] s[i] <= '9'
}

/// The value of the six data characters `t[5..11]`, read as decimal digits.
pub open spec fn data_value(t: Seq<char>) -> int {
    digits_value(t.subrange(5, 11).map_values(|c: char| (c as u32 - 48) as u8))
}

/// What `parse_rx_frame` gives: the first failure in the order ASCII,
/// length, header, data digits, sign, point, unit; else the measurement.
pub open spec fn spec_parse_rx_frame(s: Seq<char>) -> Result<Measurement, RxFrameError> {
    let t = trim(s);
    if !ascii_text(t) {
        Err(RxFrameError::NonAscii)
    } else if t.len() != FRAME_LENGTH {
        Err(RxFrameError::InvalidLength(t.len() as usize))
    } else if !(t[0] == 'F' && t[1] == 'F' && t[2] == 'F' && t[3] == 'F') {
        Err(RxFrameError::InvalidFormat)
    } else if !all_digits(t.subrange(5, 11)) {
        Err(RxFrameError::InvalidNumeric)
    } else {
        match sign_of_char(t[4]) {
            Err(e) => Err(e),
            Ok(sign) => match point_of_char(t[11]) {
                Err(e) => Err(e),
                Ok(point) => match unit_of_char(t[12]) {
                    Err(e) => Err(e),
                    Ok(unit) => Ok(Measurement::spec_new(data_value(t) as u32, sign, point, unit)),
                },
            },
        }
    }
}

/// The decimal value of six digit characters, most significant first.
pub open spec fn six_digit_value(t: Seq<char>) -> int {
    (t[0] as int - 48) * 100000 + (t[1] as int - 48) * 10000 + (t[2] as int - 48) * 1000 + (t[3] as int
        - 48) * 100 + (t[4] as int - 48) * 10 + (t[5] as int - 48)
}

/// An accepted text frame gives the measurement its characters encode: the
/// six data characters are decimal digits and the value is the number they
/// write; the sign is minus exactly for `'8'` and plus exactly for `'0'`; the
/// point position has as many decimals as the twelfth character's digit; the
/// unit is inch exactly for `'1'` and mm exactly for `'0'`.
pub proof fn lemma_rx_frame_fields(s: Seq<char>)
    requires
        spec_parse_rx_frame(s) is Ok,
    ensures
        ({
            let t = trim(s);
            let m = spec_parse_rx_frame(s)->Ok_0;
            &&& t.len() == FRAME_LENGTH
            &&& t[0] == 'F' && t[1] == 'F' && t[2] == 'F' && t[3] == 'F'
            &&& all_digits(t.subrange(5, 11))
            &&& m.spec_val() == six_digit_value(t.subrange(5, 11))
            &&& (m.spec_sign() == Sign::Minus) == (t[4] == '8')
            &&& (m.spec_sign() == Sign::Plus) == (t[4] == '0')
            &&& spec_point_code(m.spec_point()) == t[11] as int - 48
            &&& (m.spec_unit() == Unit::Inch) == (t[12] == '1')
            &&& (m.spec_unit() == Unit::Mm) == (t[12] == '0')
        }),
{
    lemma_char_codes();
    let t = trim(s);
    let d = t.subrange(5, 11);
    let sign = sign_of_char(t[4])->Ok_0;
    let point = point_of_char(t[11])->Ok_0;
    let unit = unit_of_char(t[12])->Ok_0;
    let dm = d.map_values(|c: char| (c as u32 - 48) as u8);
    assert forall|i: int| 0 <= i < 6 implies dm[i] as int == d[i] as int - 48 by {
        assert('0' <= d[i] <= '9');
    }
    reveal_with_fuel(digits_value, 7);
    assert(dm.drop_last().drop_last().drop_last().drop_last().drop_last().drop_last() =~= Seq::<u8>::empty());
    assert(digits_value(dm) == six_digit_value(d));
    assert(0 <= six_digit_value(d) < 1000000) by {
        assert forall|i: int| 0 <= i < 6 implies 0 <= #[trigger] d[i] as int - 48 <= 9 by {
            assert('0' <= d[i] <= '9');
        }
    }
    Measurement::lemma_spec_new(data_value(t) as u32, sign, point, unit);
    if !('0' <= t[11] && t[11] <= '5') {
        assert(point_of_char(t[11]) is Err);
    }
}

/// The six data characters `chars[from..from+6]` as digit values, if all are digits.
fn convert_val(chars: &[char], from: usize) -> (r: Result<[u8; 6], RxFrameError>)
    requires
        from + 6 <= chars@.len(),
    ensures
        match r {
            Ok(d) => all_digits(chars@.subrange(from as int, from + 6)) && d@ == chars@.subrange(
                from as int,
                from + 6,
            ).map_values(|c: char| (c as u32 - 48) as u8),
            Err(e) => !all_digits(chars@.subrange(from as int, from + 6)) && e
                == RxFrameError::InvalidNumeric,
        },
{
    let ghost t = chars@.subrange(from as int, from + 6);
    let n = chars.len();
    let mut out = [0u8; 6];
    let mut i: usize = 0;
    while i < 6
        invariant
            i <= 6,
            from + 6 <= chars@.len(),
            n == chars@.len(),
            t == chars@.subrange(from as int, from + 6),
            forall|j: int| 0 <= j < i ==> '0' <= #[trigger] t[j] <= '9' && out@[j] == (t[j] as u32 - 48) as u8,
        decreases 6 - i,
    {
        let c = chars[from + i];
        assert(t[i as int] == c);
        if !('0' <= c && c <= '9') {
            return Err(RxFrameError::InvalidNumeric);
        }
        out[i] = (c as u32 - 48) as u8;
        i = i + 1;
    }
    assert(out@ =~= t.map_values(|c: char| (c as u32 - 48) as u8));
    Ok(out)
}

/// Checks a text frame and turns it into a [`Measurement`].
///
/// The frame is trimmed first. Requires that a trimmed ASCII frame has at
/// least thirteen characters.
pub fn parse_rx_frame(rx_frame: &str) -> (r: Result<Measurement, RxFrameError>)
    requires
        ascii_text(trim(rx_frame@)) ==> trim(rx_frame@).len() >= FRAME_LENGTH,
    ensures
        r == spec_parse_rx_frame(rx_frame@),
        r matches Ok(m) ==> m.spec_val() == six_digit_value(trim(rx_frame@).subrange(5, 11)) && (
        m.spec_sign() == Sign::Minus) == (trim(rx_frame@)[4] == '8') && spec_point_code(m.spec_point())
            == trim(rx_frame@)[11] as int - 48 && (m.spec_unit() == Unit::Inch) == (trim(
            rx_frame@,
        )[12] == '1'),
{
    proof {
        if spec_parse_rx_frame(rx_frame@) is Ok {
            lemma_rx_frame_fields(rx_frame@);
        }
    }
    let chars = chars_of(rx_frame);
    let (start, end) = trim_bounds(chars.as_slice());
    let ghost t = trim(rx_frame@);
    if !chars_are_ascii(chars.as_slice(), start, end) {
        return Err(RxFrameError::NonAscii);
    }
    let len = end - start;
    if len != FRAME_LENGTH {
        return Err(RxFrameError::InvalidLength(len));
    }
    assert(forall|k: int| 0 <= k < 13 ==> t[k] == chars@[start + k]);
    if !(chars[start + D1] == 'F' && chars[start + D1 + 1] == 'F' && chars[start + D1 + 2] == 'F'
        && chars[start + D1 + 3] == 'F') {
        return Err(RxFrameError::InvalidFormat);
    }
    assert(t.subrange(5, 11) =~= chars@.subrange(start + 5, start + 11));
    let data = match convert_val(chars.as_slice(), start + D6) {
        Ok(d) => d,
        Err(e) => {
            return Err(e);
        },
    };
    let sign = match convert_sign(chars[start + D5]) {
        Ok(s) => s,
        Err(e) => {
            return Err(e);
        },
    };
    let point_pos = match convert_point(chars[start + D12]) {
        Ok(p) => p,
        Err(e) => {
            return Err(e);
        },
    };
    let unit = match convert_unit(chars[start + D13]) {
        Ok(u) => u,
        Err(e) => {
            return Err(e);
        },
    };
    let frame = DigimaticFrame { header: [0x0F, 0x0F, 0x0F, 0x0F], sign, data, point_pos, unit };
    match Measurement::try_from(frame) {
        Ok(m) => {
            proof {
                Measurement::lemma_spec_new(data_value(t) as u32, sign, point_pos, unit);
            }
            Ok(m)
        },
        Err(_) => Err(RxFrameError::InvalidNumeric),
    }
}

} // verus!
