//! Parsing of nibble frames: raw bits to nibbles, nibbles to a validated
//! [`DigimaticFrame`], and conversions between nibbles and hex characters.

use vstd::prelude::*;

use crate::errors::FrameParseError;
use crate::frame::{
    all_bcd, lemma_nibble_codes, spec_point_code, spec_point_from, spec_sign_code, spec_unit_code, spec_sign_from, spec_unit_from, BitMode, DigimaticFrame,
    PointPosition, Sign, Unit, BITS_PER_NIBBLE, D1, D12, D13, D5, D6, FRAME_LENGTH,
};
use crate::text::{chars_of, is_ws, push_char, trim, trim_bounds, trim_end, trim_start};

verus! {

/// Number of raw bits in a binary frame.
pub const FRAME_BITS: usize = 52;

/// The weight of bit `j` (`0..4`, in arrival order) of a nibble.
pub open spec fn bit_weight(mode: BitMode, j: int) -> int {
    match mode {
        BitMode::Lsb => if j == 0 { 1 } else if j == 1 { 2 } else if j == 2 { 4 } else { 8 },
        BitMode::Msb => if j == 0 { 8 } else if j == 1 { 4 } else if j == 2 { 2 } else { 1 },
    }
}

/// Nibble `i` of a bit stream: the low bit of each of the four bytes
/// `bits[4i..4i+4]`, weighted according to the bit order.
pub open spec fn nibble_at(bits: Seq<u8>, i: int, mode: BitMode) -> u8 {
    ((bits[4 * i] % 2) * bit_weight(mode, 0) + (bits[4 * i + 1] % 2) * bit_weight(mode, 1) + (
    bits[4 * i + 2] % 2) * bit_weight(mode, 2) + (bits[4 * i + 3] % 2) * bit_weight(mode, 3)) as u8
}

/// The thirteen nibbles that a 52-bit stream encodes.
pub open spec fn nibbles_of_bits(bits: Seq<u8>, mode: BitMode) -> Seq<u8> {
    Seq::new(FRAME_LENGTH as nat, |i: int| nibble_at(bits, i, mode))
}

/// What `parse_bits` gives for a bit stream.
pub open spec fn spec_parse_bits(bits: Seq<u8>, mode: BitMode) -> Result<Seq<u8>, FrameParseError> {
    if bits.len() != FRAME_BITS {
        Err(FrameParseError::InvalidBitLength { expected: FRAME_BITS, found: bits.len() as usize })
    } else {
        Ok(nibbles_of_bits(bits, mode))
    }
}

/// Converts a received bit stream into thirteen nibbles.
pub fn parse_bits(bits: &[u8], mode: BitMode) -> (r: Result<[u8; FRAME_LENGTH], FrameParseError>)
    ensures
        match r {
            Ok(a) => spec_parse_bits(bits@, mode) == Ok::<Seq<u8>, FrameParseError>(a@),
            Err(e) => spec_parse_bits(bits@, mode) == Err::<Seq<u8>, FrameParseError>(e),
        },
{
    nibble_maker(bits, mode)
}

/// Reads the four bits at `k..k+4` into one nibble.
fn nibble_from_bits(bits: &[u8], k: usize, mode: BitMode) -> (r: u8)
    requires
        k + 4 <= bits@.len(),
        k % 4 == 0,
    ensures
        r == nibble_at(bits@, k as int / 4, mode),
        r <= 15,
{
    let b0 = bits[k] & 1;
    let b1 = bits[k + 1] & 1;
    let b2 = bits[k + 2] & 1;
    let b3 = bits[k + 3] & 1;
    proof {
        let (x0, x1, x2, x3) = (bits[k as int], bits[k + 1], bits[k + 2], bits[k + 3]);
        assert(x0 & 1 == x0 % 2) by (bit_vector);
        assert(x1 & 1 == x1 % 2) by (bit_vector);
        assert(x2 & 1 == x2 % 2) by (bit_vector);
        assert(x3 & 1 == x3 % 2) by (bit_vector);
        assert(4 * (k as int / 4) == k);
    }
    match mode {
        BitMode::Lsb => b0 + b1 * 2 + b2 * 4 + b3 * 8,
        BitMode::Msb => b0 * 8 + b1 * 4 + b2 * 2 + b3,
    }
}

/// Bit stream to nibbles: checks only the length, interprets nothing.
fn nibble_maker(bits: &[u8], mode: BitMode) -> (r: Result<[u8; FRAME_LENGTH], FrameParseError>)
    ensures
        match r {
            Ok(a) => spec_parse_bits(bits@, mode) == Ok::<Seq<u8>, FrameParseError>(a@),
            Err(e) => spec_parse_bits(bits@, mode) == Err::<Seq<u8>, FrameParseError>(e),
        },
{
    if bits.len() != FRAME_LENGTH * BITS_PER_NIBBLE {
        return Err(
            FrameParseError::InvalidBitLength {
                expected: FRAME_LENGTH * BITS_PER_NIBBLE,
                found: bits.len(),
            },
        );
    }
    let mut out = [0u8; FRAME_LENGTH];
    let mut i: usize = 0;
    while i < FRAME_LENGTH
        invariant
            i <= FRAME_LENGTH,
            bits@.len() == FRAME_BITS,
            forall|j: int| 0 <= j < i ==> out@[j] == nibble_at(bits@, j, mode),
        decreases FRAME_LENGTH - i,
    {
        let v = nibble_from_bits(bits, 4 * i, mode);
        out[i] = v;
        i = i + 1;
    }
    proof {
        assert(out@ =~= nibbles_of_bits(bits@, mode));
    }
    Ok(out)
}

/// The first element of `s` that is not a BCD digit, if any.
pub open spec fn first_non_bcd(s: Seq<u8>) -> Option<u8>
    decreases s.len(),
{
    if s.len() == 0 {
        None
    } else if s[0] > 9 {
        Some(s[0])
    } else {
        first_non_bcd(s.drop_first())
    }
}

/// `first_non_bcd` is `None` exactly when all elements are digits.
pub proof fn lemma_first_non_bcd(s: Seq<u8>)
    ensures
        first_non_bcd(s) is None <==> all_bcd(s),
        first_non_bcd(s) matches Some(v) ==> v > 9 && s.contains(v),
    decreases s.len(),
{
    if s.len() > 0 {
        lemma_first_non_bcd(s.drop_first());
        if s[0] <= 9 && first_non_bcd(s.drop_first()) is Some {
            let v = first_non_bcd(s.drop_first())->0;
            let k = choose|k: int| 0 <= k < s.drop_first().len() && s.drop_first()[k] == v;
            assert(s[k + 1] == v);
        }
        if !all_bcd(s) && s[0] <= 9 {
            let k = choose|k: int| 0 <= k < s.len() && !(s[k] <= 9);
            assert(s.drop_first()[k - 1] == s[k]);
        }
    }
}

proof fn lemma_first_non_bcd_step(s: Seq<u8>, i: int)
    requires
        0 <= i < s.len(),
        s[i] <= 9,
    ensures
        first_non_bcd(s.skip(i)) == first_non_bcd(s.skip(i + 1)),
{
    assert(s.skip(i).drop_first() =~= s.skip(i + 1));
}

/// Checks the data digits `D6..D11`: each must be `0..=9`.
///
/// A slice shorter than six is padded with zeros; a longer one is only
/// accepted up to the point where a bad digit stops the scan.
fn validate_bcd_slice(data: &[u8]) -> (r: Result<[u8; 6], FrameParseError>)
    requires
        data@.len() <= 6 || first_non_bcd(data@.take(6)) is Some,
    ensures
        match first_non_bcd(data@) {
            Some(v) => r == Err::<[u8; 6], FrameParseError>(FrameParseError::NibbleOutOfRange(v)),
            None => r matches Ok(out) && out@ == data@ + Seq::new(
                (6 - data@.len()) as nat,
                |k: int| 0u8,
            ),
        },
{
    let mut out = [0u8; 6];
    let mut i: usize = 0;
    proof {
        assert(data@.skip(0) =~= data@);
    }
    while i < data.len()
        invariant
            i <= data@.len(),
            data@.len() <= 6 || first_non_bcd(data@.take(6)) is Some,
            i <= 6,
            first_non_bcd(data@) == first_non_bcd(data@.skip(i as int)),
            forall|j: int| 0 <= j < i ==> out@[j] == data@[j],
            forall|j: int| i <= j < 6 ==> out@[j] == 0,
            forall|j: int| 0 <= j < i ==> data@[j] <= 9,
        decreases data@.len() - i,
    {
        let v = data[i];
        if v > 9 {
            proof {
                assert(data@.skip(i as int)[0] == v);
            }
            return Err(FrameParseError::NibbleOutOfRange(v));
        }
        proof {
            lemma_first_non_bcd_step(data@, i as int);
            if i == 6 {
                lemma_first_non_bcd(data@.take(6));
                assert(false);
            }
        }
        if i < 6 {
            out[i] = v;
        }
        i = i + 1;
    }
    proof {
        assert(data@.skip(i as int) =~= Seq::<u8>::empty());
        assert(out@ =~= data@ + Seq::new((6 - data@.len()) as nat, |k: int| 0u8));
    }
    Ok(out)
}

/// The first reason, in checking order, why thirteen nibbles are not a
/// valid frame: length, header, sign, data digits, point position, unit.
pub open spec fn frame_error(n: Seq<u8>) -> Option<FrameParseError> {
    if n.len() != FRAME_LENGTH {
        Some(FrameParseError::InvalidBitLength { expected: FRAME_LENGTH, found: n.len() as usize })
    } else if !(n[0] == 0x0F && n[1] == 0x0F && n[2] == 0x0F && n[3] == 0x0F) {
        Some(FrameParseError::HeaderMismatch)
    } else if spec_sign_from(n[4]) is Err {
        Some(FrameParseError::InvalidSign)
    } else if first_non_bcd(n.subrange(5, 11)) is Some {
        Some(FrameParseError::NibbleOutOfRange(first_non_bcd(n.subrange(5, 11))->0))
    } else if spec_point_from(n[11]) is Err {
        Some(FrameParseError::InvalidPoint)
    } else if spec_unit_from(n[12]) is Err {
        Some(FrameParseError::InvalidUnit)
    } else {
        None
    }
}

/// `f` holds exactly the parts of the nibble sequence `n`.
pub open spec fn frame_matches(f: DigimaticFrame, n: Seq<u8>) -> bool {
    &&& n.len() == FRAME_LENGTH
    &&& f.header@ == n.subrange(0, 4)
    &&& Ok::<Sign, FrameParseError>(f.sign) == spec_sign_from(n[4])
    &&& f.data@ == n.subrange(5, 11)
    &&& Ok::<PointPosition, FrameParseError>(f.point_pos) == spec_point_from(n[11])
    &&& Ok::<Unit, FrameParseError>(f.unit) == spec_unit_from(n[12])
}

/// What validating a nibble sequence gives: the first error, or the frame
/// that holds its parts.
pub open spec fn spec_validate(n: Seq<u8>) -> Result<DigimaticFrame, FrameParseError> {
    match frame_error(n) {
        Some(e) => Err(e),
        None => Ok(choose|f: DigimaticFrame| frame_matches(f, n)),
    }
}

/// At most one frame holds the parts of a nibble sequence.
pub proof fn lemma_frame_matches_unique(f1: DigimaticFrame, f2: DigimaticFrame, n: Seq<u8>)
    requires
        frame_matches(f1, n),
        frame_matches(f2, n),
    ensures
        f1 == f2,
{
    assert(f1.header@ =~= f2.header@);
    assert(f1.data@ =~= f2.data@);
    vstd::array::axiom_array_ext_equal(f1.header, f2.header);
    vstd::array::axiom_array_ext_equal(f1.data, f2.data);
}

/// A valid frame satisfies everything the Digimatic format demands.
pub proof fn lemma_valid_frame_fields(n: Seq<u8>)
    requires
        frame_error(n) is None,
    ensures
        spec_validate(n) matches Ok(f) && frame_matches(f, n) && f.header@ == seq![
            0x0Fu8,
            0x0F,
            0x0F,
            0x0F,
        ] && all_bcd(f.data@),
{
    let f = spec_validate(n)->Ok_0;
    // a witness exists: build it from the nibbles
    assert(exists|g: DigimaticFrame| frame_matches(g, n)) by {
        let g = DigimaticFrame {
            header: [0x0Fu8, 0x0F, 0x0F, 0x0F],
            sign: spec_sign_from(n[4])->Ok_0,
            data: [n[5], n[6], n[7], n[8], n[9], n[10]],
            point_pos: spec_point_from(n[11])->Ok_0,
            unit: spec_unit_from(n[12])->Ok_0,
        };
        assert(g.header@ =~= n.subrange(0, 4));
        assert(g.data@ =~= n.subrange(5, 11));
        assert(frame_matches(g, n));
    }
    assert(f.header@ =~= seq![0x0Fu8, 0x0F, 0x0F, 0x0F]);
    lemma_first_non_bcd(n.subrange(5, 11));
}

/// Validates thirteen nibbles and splits them into a [`DigimaticFrame`].
///
/// Checks, in this order: the length, the `FFFF` header, the sign, the six
/// BCD digits, the point position and the unit; the first failure is returned.
pub fn validator_bits(nibbles: &[u8]) -> (r: Result<DigimaticFrame, FrameParseError>)
    ensures
        r == spec_validate(nibbles@),
        r is Ok <==> frame_error(nibbles@) is None,
        r matches Ok(f) ==> frame_matches(f, nibbles@) && all_bcd(f.data@),
        r matches Ok(f) ==> spec_sign_code(f.sign) == nibbles@[4] && spec_point_code(f.point_pos)
            == nibbles@[11] && spec_unit_code(f.unit) == nibbles@[12] && f.data@ == nibbles@.subrange(5, 11),
{
    proof {
        lemma_nibble_codes();
    }
    if nibbles.len() != FRAME_LENGTH {
        return Err(
            FrameParseError::InvalidBitLength { expected: FRAME_LENGTH, found: nibbles.len() },
        );
    }
    if !(nibbles[D1] == 0x0F && nibbles[D1 + 1] == 0x0F && nibbles[D1 + 2] == 0x0F && nibbles[D1
        + 3] == 0x0F) {
        return Err(FrameParseError::HeaderMismatch);
    }
    let sign = match Sign::try_from(nibbles[D5]) {
        Ok(s) => s,
        Err(e) => {
            return Err(e);
        },
    };
    let data_slice = slice_range(nibbles, D6, D12);
    proof {
        assert(data_slice@.len() <= 6);
    }
    let data = match validate_bcd_slice(data_slice) {
        Ok(d) => d,
        Err(e) => {
            return Err(e);
        },
    };
    let point_pos = match PointPosition::try_from(nibbles[D12]) {
        Ok(p) => p,
        Err(e) => {
            return Err(e);
        },
    };
    let unit = match Unit::try_from(nibbles[D13]) {
        Ok(u) => u,
        Err(e) => {
            return Err(e);
        },
    };
    let frame = DigimaticFrame { header: [0x0F, 0x0F, 0x0F, 0x0F], sign, data, point_pos, unit };
    proof {
        assert(frame.header@ =~= nibbles@.subrange(0, 4));
        assert(frame.data@ =~= nibbles@.subrange(5, 11));
        lemma_valid_frame_fields(nibbles@);
        lemma_frame_matches_unique(frame, spec_validate(nibbles@)->Ok_0, nibbles@);
    }
    Ok(frame)
}

/// The sub-slice `s[from..to]`.
fn slice_range(s: &[u8], from: usize, to: usize) -> (r: &[u8])
    requires
        from <= to <= s@.len(),
    ensures
        r@ == s@.subrange(from as int, to as int),
{
    vstd::slice::slice_subrange(s, from, to)
}

/// The uppercase hex digit of a nibble `0..=15`.
pub open spec fn hex_digit(v: u8) -> char {
    if v <= 9 {
        (48 + v) as char
    } else {
        (55 + v) as char
    }
}

/// What `nibble_to_char` gives: the hex digit of a nibble, or an error
/// carrying the character `'0' + v`.
pub open spec fn spec_nibble_to_char(v: u8) -> Result<char, FrameParseError> {
    if v <= 15 {
        Ok(hex_digit(v))
    } else {
        Err(FrameParseError::InvalidChar((48 + v) as char))
    }
}

/// Nibble value to an uppercase ASCII hex character.
///
/// Requires `v < 208`: for larger values the error character `'0' + v`
/// would overflow a byte.
fn nibble_to_char(v: u8) -> (r: Result<char, FrameParseError>)
    requires
        v < 208,
    ensures
        r == spec_nibble_to_char(v),
{
    if v <= 0x09 {
        Ok((48u8 + v) as char)
    } else if v <= 0x0F {
        Ok((65u8 + v - 10) as char)
    } else {
        Err(FrameParseError::InvalidChar((48u8 + v) as char))
    }
}

/// The value of a hex character, either case.
pub open spec fn hex_value(c: char) -> Option<u8> {
    if '0' <= c && c <= '9' {
        Some((c as u32 - 48) as u8)
    } else if 'A' <= c && c <= 'F' {
        Some((c as u32 - 55) as u8)
    } else if 'a' <= c && c <= 'f' {
        Some((c as u32 - 87) as u8)
    } else {
        None
    }
}

/// What `char_to_nibble` gives.
pub open spec fn spec_char_to_nibble(c: char) -> Result<u8, FrameParseError> {
    match hex_value(c) {
        Some(v) => Ok(v),
        None => Err(FrameParseError::InvalidChar(c)),
    }
}

/// ASCII hex character (either case) to its nibble value.
pub fn char_to_nibble(c: char) -> (r: Result<u8, FrameParseError>)
    ensures
        r == spec_char_to_nibble(c),
        r matches Ok(v) ==> v <= 15,
{
    if '0' <= c && c <= '9' {
        Ok((c as u32 - 48) as u8)
    } else if 'A' <= c && c <= 'F' {
        Ok((c as u32 - 55) as u8)
    } else if 'a' <= c && c <= 'f' {
        Ok((c as u32 - 87) as u8)
    } else {
        Err(FrameParseError::InvalidChar(c))
    }
}

/// The first nibble above `0xF`, if any.
pub open spec fn first_non_nibble(s: Seq<u8>) -> Option<u8>
    decreases s.len(),
{
    if s.len() == 0 {
        None
    } else if s[0] > 15 {
        Some(s[0])
    } else {
        first_non_nibble(s.drop_first())
    }
}

/// The hex text of a nibble sequence whose elements are all `0..=15`.
pub open spec fn hex_text(n: Seq<u8>) -> Seq<char> {
    n.map_values(|v: u8| hex_digit(v))
}

/// What `decode_frame` gives.
pub open spec fn spec_decode_frame(n: Seq<u8>) -> Result<Seq<char>, FrameParseError> {
    if n.len() != FRAME_LENGTH {
        Err(FrameParseError::IncompleteNibble(n.len() as usize))
    } else {
        match first_non_nibble(n) {
            Some(v) => Err(FrameParseError::InvalidChar((48 + v) as char)),
            None => Ok(hex_text(n)),
        }
    }
}

/// The first nibble above `0xF` in `n`, if it exists, is below 208.
pub open spec fn decodable(n: Seq<u8>) -> bool {
    first_non_nibble(n) matches Some(v) ==> v < 208
}

proof fn lemma_first_non_nibble_step(s: Seq<u8>, i: int)
    requires
        0 <= i < s.len(),
        s[i] <= 15,
    ensures
        first_non_nibble(s.skip(i)) == first_non_nibble(s.skip(i + 1)),
{
    assert(s.skip(i).drop_first() =~= s.skip(i + 1));
}

/// Thirteen nibbles to the text frame, e.g. `FFFF001257720`.
///
/// Requires that the first nibble above `0xF`, if any, is below 208
/// (for a larger one the error character would overflow a byte).
pub fn decode_frame(nibbles: &[u8]) -> (r: Result<String, FrameParseError>)
    requires
        nibbles@.len() != FRAME_LENGTH || decodable(nibbles@),
    ensures
        match r {
            Ok(s) => spec_decode_frame(nibbles@) == Ok::<Seq<char>, FrameParseError>(s@),
            Err(e) => spec_decode_frame(nibbles@) == Err::<Seq<char>, FrameParseError>(e),
        },
{
    if nibbles.len() != FRAME_LENGTH {
        return Err(FrameParseError::IncompleteNibble(nibbles.len()));
    }
    let mut out = String::new();
    let mut i: usize = 0;
    proof {
        assert(nibbles@.skip(0) =~= nibbles@);
    }
    while i < nibbles.len()
        invariant
            i <= nibbles@.len(),
            nibbles@.len() == FRAME_LENGTH,
            decodable(nibbles@),
            first_non_nibble(nibbles@) == first_non_nibble(nibbles@.skip(i as int)),
            out@ == hex_text(nibbles@.take(i as int)),
        decreases nibbles@.len() - i,
    {
        let v = nibbles[i];
        proof {
            assert(nibbles@.skip(i as int)[0] == v);
        }
        match nibble_to_char(v) {
            Ok(c) => {
                push_char(&mut out, c);
                proof {
                    lemma_first_non_nibble_step(nibbles@, i as int);
                    assert(hex_text(nibbles@.take(i + 1)) =~= hex_text(nibbles@.take(i as int)).push(c));
                }
            },
            Err(e) => {
                proof {
                    assert(first_non_nibble(nibbles@.skip(i as int)) == Some(v));
                }
                return Err(e);
            },
        }
        i = i + 1;
    }
    proof {
        assert(nibbles@.skip(i as int) =~= Seq::<u8>::empty());
        assert(nibbles@.take(i as int) =~= nibbles@);
    }
    Ok(out)
}


/// The first character that is not a hex digit, if any.
pub open spec fn first_non_hex(s: Seq<char>) -> Option<char>
    decreases s.len(),
{
    if s.len() == 0 {
        None
    } else if hex_value(s[0]) is None {
        Some(s[0])
    } else {
        first_non_hex(s.drop_first())
    }
}

/// The nibble values of hex characters.
pub open spec fn hex_values(s: Seq<char>) -> Seq<u8> {
    s.map_values(|c: char| hex_value(c)->Some_0)
}

/// What parsing a text frame gives: trim it, turn every character into a
/// nibble (the first non-hex character is the error), then validate.
pub open spec fn spec_parse_text(s: Seq<char>) -> Result<DigimaticFrame, FrameParseError> {
    let t = trim(s);
    match first_non_hex(t) {
        Some(c) => Err(FrameParseError::InvalidChar(c)),
        None => spec_validate(hex_values(t)),
    }
}

proof fn lemma_first_non_hex_step(s: Seq<char>, i: int)
    requires
        0 <= i < s.len(),
        hex_value(s[i]) is Some,
    ensures
        first_non_hex(s.skip(i)) == first_non_hex(s.skip(i + 1)),
{
    assert(s.skip(i).drop_first() =~= s.skip(i + 1));
}

/// A nibble sequence parsed from text characters.
pub fn nibbles_of_text(chars: &[char], from: usize, to: usize) -> (r: Result<Vec<u8>, FrameParseError>)
    requires
        from <= to <= chars@.len(),
    ensures
        ({
            let t = chars@.subrange(from as int, to as int);
            match first_non_hex(t) {
                Some(c) => r == Err::<Vec<u8>, FrameParseError>(FrameParseError::InvalidChar(c)),
                None => r matches Ok(v) && v@ == hex_values(t),
            }
        }),
{
    let ghost t = chars@.subrange(from as int, to as int);
    let mut out: Vec<u8> = Vec::new();
    let mut i = from;
    proof {
        assert(t.skip(0) =~= t);
    }
    while i < to
        invariant
            from <= i <= to,
            to <= chars@.len(),
            t == chars@.subrange(from as int, to as int),
            first_non_hex(t) == first_non_hex(t.skip(i - from)),
            out@ == hex_values(t.take(i - from)),
        decreases to - i,
    {
        let c = chars[i];
        proof {
            assert(t[i - from] == c);
            assert(t.skip(i - from)[0] == c);
        }
        match char_to_nibble(c) {
            Ok(v) => {
                out.push(v);
                proof {
                    lemma_first_non_hex_step(t, i - from);
                    assert(hex_values(t.take(i - from + 1)) =~= hex_values(t.take(i - from)).push(v));
                }
            },
            Err(e) => {
                return Err(e);
            },
        }
        i = i + 1;
    }
    proof {
        assert(t.skip(i - from) =~= Seq::<char>::empty());
        assert(t.take(i - from) =~= t);
    }
    Ok(out)
}

/// Binary nibbles to a frame: validation is [`validator_bits`].
impl<'a> TryFrom<&'a [u8]> for DigimaticFrame {
    type Error = FrameParseError;

    fn try_from(nibble: &'a [u8]) -> (r: Result<Self, Self::Error>)
        ensures
            r == spec_validate(nibble@),
    {
        validator_bits(nibble)
    }
}

impl<'a> vstd::std_specs::convert::TryFromSpecImpl<&'a [u8]> for DigimaticFrame {
    open spec fn obeys_try_from_spec() -> bool {
        true
    }

    open spec fn try_from_spec(v: &'a [u8]) -> Result<Self, FrameParseError> {
        spec_validate(v@)
    }
}

/// Text frame to a frame: trims whitespace, reads each character as a hex
/// nibble, then validates with [`validator_bits`].
impl<'a> TryFrom<&'a str> for DigimaticFrame {
    type Error = FrameParseError;

    fn try_from(rx_frame: &'a str) -> (r: Result<Self, Self::Error>)
        ensures
            r == spec_parse_text(rx_frame@),
            r matches Ok(f) ==> (f.sign == Sign::Minus) == (trim(rx_frame@)[4] == '8') && spec_point_code(
                f.point_pos,
            ) == trim(rx_frame@)[11] as int - 48 && (f.unit == Unit::Inch) == (trim(rx_frame@)[12]
                == '1'),
    {
        proof {
            if spec_parse_text(rx_frame@) is Ok {
                lemma_text_frame_fields(rx_frame@);
            }
        }
        let chars = chars_of(rx_frame);
        let (start, end) = trim_bounds(chars.as_slice());
        let nibbles = match nibbles_of_text(chars.as_slice(), start, end) {
            Ok(n) => n,
            Err(e) => {
                return Err(e);
            },
        };
        validator_bits(nibbles.as_slice())
    }
}

impl<'a> vstd::std_specs::convert::TryFromSpecImpl<&'a str> for DigimaticFrame {
    open spec fn obeys_try_from_spec() -> bool {
        true
    }

    open spec fn try_from_spec(v: &'a str) -> Result<Self, FrameParseError> {
        spec_parse_text(v@)
    }
}


/// Every hex digit reads back as the nibble it was written from.
pub proof fn lemma_hex_digit_roundtrip(v: u8)
    requires
        v <= 15,
    ensures
        hex_value(hex_digit(v)) == Some(v),
        !is_ws(hex_digit(v)),
{
}

proof fn lemma_hex_text_reads_back(n: Seq<u8>)
    requires
        first_non_nibble(n) is None,
    ensures
        first_non_hex(hex_text(n)) is None,
        hex_values(hex_text(n)) == n,
        forall|i: int| 0 <= i < n.len() ==> n[i] <= 15,
    decreases n.len(),
{
    if n.len() > 0 {
        lemma_hex_text_reads_back(n.drop_first());
        lemma_hex_digit_roundtrip(n[0]);
        assert(hex_text(n).drop_first() =~= hex_text(n.drop_first()));
        assert(hex_values(hex_text(n)) =~= n) by {
            assert forall|i: int| 0 <= i < n.len() implies hex_values(hex_text(n))[i] == n[i] by {
                if i > 0 {
                    assert(n.drop_first()[i - 1] == n[i]);
                }
            }
        }
        assert forall|i: int| 0 <= i < n.len() implies n[i] <= 15 by {
            if i > 0 {
                assert(n.drop_first()[i - 1] == n[i]);
            }
        }
    }
}

/// Text round trip: the text that [`decode_frame`] writes for thirteen
/// nibbles parses (as `DigimaticFrame::try_from(&str)`) to exactly what
/// [`validator_bits`] gives for those nibbles.
pub proof fn lemma_text_frame_roundtrip(n: Seq<u8>)
    requires
        n.len() == FRAME_LENGTH,
        forall|i: int| 0 <= i < n.len() ==> n[i] <= 15,
    ensures
        spec_decode_frame(n) == Ok::<Seq<char>, FrameParseError>(hex_text(n)),
        spec_parse_text(hex_text(n)) == spec_validate(n),
{
    assert(first_non_nibble(n) is None) by {
        lemma_no_big_nibble(n);
    }
    lemma_hex_text_reads_back(n);
    let t = hex_text(n);
    lemma_hex_digit_roundtrip(n[0]);
    lemma_hex_digit_roundtrip(n[12]);
    assert(trim_start(t) == t);
    assert(trim_end(t) == t);
}

proof fn lemma_no_big_nibble(n: Seq<u8>)
    requires
        forall|i: int| 0 <= i < n.len() ==> n[i] <= 15,
    ensures
        first_non_nibble(n) is None,
    decreases n.len(),
{
    if n.len() > 0 {
        assert forall|i: int| 0 <= i < n.drop_first().len() implies n.drop_first()[i] <= 15 by {
            assert(n.drop_first()[i] == n[i + 1]);
        }
        lemma_no_big_nibble(n.drop_first());
    }
}

proof fn lemma_all_hex(s: Seq<char>)
    requires
        first_non_hex(s) is None,
    ensures
        forall|i: int| 0 <= i < s.len() ==> (#[trigger] hex_value(s[i])) is Some,
    decreases s.len(),
{
    if s.len() > 0 {
        lemma_all_hex(s.drop_first());
        assert forall|i: int| 0 <= i < s.len() implies (#[trigger] hex_value(s[i])) is Some by {
            if i > 0 {
                assert(s.drop_first()[i - 1] == s[i]);
            }
        }
    }
}

/// An accepted text frame carries what its characters encode: thirteen hex
/// characters after trimming, `FFFF` first (either case); the sign is minus
/// exactly for `'8'` and plus exactly for `'0'`; the six data characters are
/// the decimal digits of the value; the point position has as many decimals
/// as the twelfth character's digit; the unit is inch exactly for `'1'` and
/// mm exactly for `'0'`.
pub proof fn lemma_text_frame_fields(s: Seq<char>)
    requires
        spec_parse_text(s) is Ok,
    ensures
        ({
            let t = trim(s);
            let f = spec_parse_text(s)->Ok_0;
            &&& t.len() == FRAME_LENGTH
            &&& forall|i: int| 0 <= i < 4 ==> #[trigger] t[i] == 'F' || t[i] == 'f'
            &&& (f.sign == Sign::Minus) == (t[4] == '8')
            &&& (f.sign == Sign::Plus) == (t[4] == '0')
            &&& forall|i: int| 0 <= i < 6 ==> '0' <= #[trigger] t[5 + i] <= '9' && f.data@[i] == t[5 + i] as int - 48
            &&& spec_point_code(f.point_pos) == t[11] as int - 48
            &&& (f.unit == Unit::Inch) == (t[12] == '1')
            &&& (f.unit == Unit::Mm) == (t[12] == '0')
        }),
{
    let t = trim(s);
    lemma_all_hex(t);
    let n = hex_values(t);
    lemma_valid_frame_fields(n);
    lemma_nibble_codes();
    lemma_first_non_bcd(n.subrange(5, 11));
    let f = spec_parse_text(s)->Ok_0;
    assert forall|i: int| 0 <= i < 13 implies #[trigger] n[i] == hex_value(t[i])->Some_0 by {}
    assert forall|i: int| 0 <= i < 4 implies #[trigger] t[i] == 'F' || t[i] == 'f' by {
        assert(n[i] == 15);
        assert(hex_value(t[i]) is Some);
    }
    assert forall|i: int| 0 <= i < 6 implies '0' <= #[trigger] t[5 + i] <= '9' && f.data@[i] == t[5 + i] as int - 48 by {
        assert(f.data@[i] == n.subrange(5, 11)[i]);
        assert(n.subrange(5, 11)[i] <= 9);
        assert(hex_value(t[5 + i]) is Some);
    }
    assert(hex_value(t[4]) is Some);
    assert(hex_value(t[11]) is Some);
    assert(hex_value(t[12]) is Some);
}

} // verus!
