//! Core domain types of a Digimatic frame and of a decoded measurement.
//!
//! A Digimatic frame is thirteen nibbles `D1..D13`:
//! four header nibbles (`0xF`), a sign nibble (`0` or `8`), six BCD digits,
//! the decimal point position (`0..=5`) and the unit (`0` mm, `1` inch).

use vstd::prelude::*;

use crate::errors::FrameParseError;

verus! {

pub const D1: usize = 0;
pub const D2: usize = 1;
pub const D3: usize = 2;
pub const D4: usize = 3;
pub const D5: usize = 4;
pub const D6: usize = 5;
pub const D7: usize = 6;
pub const D8: usize = 7;
pub const D9: usize = 8;
pub const D10: usize = 9;
pub const D11: usize = 10;
pub const D12: usize = 11;
pub const D13: usize = 12;

/// A Digimatic frame is always thirteen nibbles long.
pub const FRAME_LENGTH: usize = 13;

/// Each element of a frame is one nibble of four bits.
pub const BITS_PER_NIBBLE: usize = 4;

/// Sign of a measurement (nibble `0` is plus, nibble `8` is minus).
#[derive(Debug, Clone, Copy, PartialEq, Eq)]
pub enum Sign {
    Plus,
    Minus,
}

/// Unit of a measurement (nibble `0` is mm, nibble `1` is inch).
#[derive(Debug, Clone, Copy, PartialEq, Eq, Default)]
pub enum Unit {
    #[default]
    Mm,
    Inch,
}

/// Number of digits after the decimal point (nibble `0..=5`).
#[derive(Debug, Clone, Copy, PartialEq, Eq)]
pub enum PointPosition {
    Zero,
    One,
    Two,
    Three,
    Four,
    Five,
}

/// The sign that a nibble encodes, or the error for any other nibble.
pub open spec fn spec_sign_from(val: u8) -> Result<Sign, FrameParseError> {
    if val == 0x00 {
        Ok(Sign::Plus)
    } else if val == 0x08 {
        Ok(Sign::Minus)
    } else {
        Err(FrameParseError::InvalidSign)
    }
}

/// The unit that a nibble encodes, or the error for any other nibble.
pub open spec fn spec_unit_from(val: u8) -> Result<Unit, FrameParseError> {
    if val == 0x00 {
        Ok(Unit::Mm)
    } else if val == 0x01 {
        Ok(Unit::Inch)
    } else {
        Err(FrameParseError::InvalidUnit)
    }
}

/// The point position that a nibble encodes, or the error for any other nibble.
pub open spec fn spec_point_from(val: u8) -> Result<PointPosition, FrameParseError> {
    if val == 0x00 {
        Ok(PointPosition::Zero)
    } else if val == 0x01 {
        Ok(PointPosition::One)
    } else if val == 0x02 {
        Ok(PointPosition::Two)
    } else if val == 0x03 {
        Ok(PointPosition::Three)
    } else if val == 0x04 {
        Ok(PointPosition::Four)
    } else if val == 0x05 {
        Ok(PointPosition::Five)
    } else {
        Err(FrameParseError::InvalidPoint)
    }
}

/// The nibble that encodes a sign.
pub open spec fn spec_sign_code(s: Sign) -> u8 {
    match s {
        Sign::Plus => 0x00,
        Sign::Minus => 0x08,
    }
}

/// The nibble that encodes a unit.
pub open spec fn spec_unit_code(u: Unit) -> u8 {
    match u {
        Unit::Mm => 0x00,
        Unit::Inch => 0x01,
    }
}

/// The nibble that encodes a point position (the number of decimals).
pub open spec fn spec_point_code(p: PointPosition) -> u8 {
    match p {
        PointPosition::Zero => 0x00,
        PointPosition::One => 0x01,
        PointPosition::Two => 0x02,
        PointPosition::Three => 0x03,
        PointPosition::Four => 0x04,
        PointPosition::Five => 0x05,
    }
}

/// Decoding a nibble and encoding the result agree: a point nibble `v` in
/// `0..=5` decodes to the position with `v` decimals (and every other nibble
/// is refused); a sign nibble decodes only from `0` (plus) and `8` (minus);
/// a unit nibble only from `0` (mm) and `1` (inch). Every position, sign and
/// unit is decoded from its own code.
pub proof fn lemma_nibble_codes()
    ensures
        forall|v: u8|
            #![trigger spec_point_from(v)]
            v <= 5 ==> (spec_point_from(v) matches Ok(p) && spec_point_code(p) == v),
        forall|v: u8| #![trigger spec_point_from(v)] v > 5 ==> spec_point_from(v) is Err,
        forall|p: PointPosition| #[trigger] spec_point_from(spec_point_code(p)) == Ok::<PointPosition, FrameParseError>(p),
        forall|v: u8|
            #![trigger spec_sign_from(v)]
            spec_sign_from(v) matches Ok(sg) ==> spec_sign_code(sg) == v,
        spec_sign_from(0) == Ok::<Sign, FrameParseError>(Sign::Plus),
        spec_sign_from(8) == Ok::<Sign, FrameParseError>(Sign::Minus),
        forall|v: u8| #![trigger spec_sign_from(v)] v != 0 && v != 8 ==> spec_sign_from(v) is Err,
        forall|v: u8|
            #![trigger spec_unit_from(v)]
            spec_unit_from(v) matches Ok(u) ==> spec_unit_code(u) == v,
        spec_unit_from(0) == Ok::<Unit, FrameParseError>(Unit::Mm),
        spec_unit_from(1) == Ok::<Unit, FrameParseError>(Unit::Inch),
        forall|v: u8| #![trigger spec_unit_from(v)] v > 1 ==> spec_unit_from(v) is Err,
{
    assert forall|p: PointPosition| #[trigger] spec_point_from(spec_point_code(p)) == Ok::<PointPosition, FrameParseError>(p) by {
        match p {
            PointPosition::Zero => {},
            PointPosition::One => {},
            PointPosition::Two => {},
            PointPosition::Three => {},
            PointPosition::Four => {},
            PointPosition::Five => {},
        }
    }
}

impl Sign {
    /// The nibble value of this sign.
    pub fn code(self) -> (r: u8)
        ensures
            r == spec_sign_code(self),
    {
        match self {
            Sign::Plus => 0x00,
            Sign::Minus => 0x08,
        }
    }
}

impl Unit {
    /// The nibble value of this unit.
    pub fn code(self) -> (r: u8)
        ensures
            r == spec_unit_code(self),
    {
        match self {
            Unit::Mm => 0x00,
            Unit::Inch => 0x01,
        }
    }
}

impl PointPosition {
    /// The nibble value of this point position, which is the number of decimals.
    pub fn code(self) -> (r: u8)
        ensures
            r == spec_point_code(self),
    {
        match self {
            PointPosition::Zero => 0x00,
            PointPosition::One => 0x01,
            PointPosition::Two => 0x02,
            PointPosition::Three => 0x03,
            PointPosition::Four => 0x04,
            PointPosition::Five => 0x05,
        }
    }
}

impl TryFrom<u8> for Sign {
    type Error = FrameParseError;

    fn try_from(val: u8) -> (r: Result<Self, Self::Error>)
        ensures
            r == spec_sign_from(val),
            r matches Ok(sg) ==> spec_sign_code(sg) == val,
    {
        match val {
            0x00 => Ok(Sign::Plus),
            0x08 => Ok(Sign::Minus),
            _ => Err(FrameParseError::InvalidSign),
        }
    }
}

impl vstd::std_specs::convert::TryFromSpecImpl<u8> for Sign {
    open spec fn obeys_try_from_spec() -> bool {
        true
    }

    open spec fn try_from_spec(v: u8) -> Result<Self, FrameParseError> {
        spec_sign_from(v)
    }
}

impl TryFrom<u8> for Unit {
    type Error = FrameParseError;

    fn try_from(val: u8) -> (r: Result<Self, Self::Error>)
        ensures
            r == spec_unit_from(val),
            r matches Ok(u) ==> spec_unit_code(u) == val,
    {
        match val {
            0x00 => Ok(Unit::Mm),
            0x01 => Ok(Unit::Inch),
            _ => Err(FrameParseError::InvalidUnit),
        }
    }
}

impl vstd::std_specs::convert::TryFromSpecImpl<u8> for Unit {
    open spec fn obeys_try_from_spec() -> bool {
        true
    }

    open spec fn try_from_spec(v: u8) -> Result<Self, FrameParseError> {
        spec_unit_from(v)
    }
}

impl TryFrom<u8> for PointPosition {
    type Error = FrameParseError;

    fn try_from(val: u8) -> (r: Result<Self, Self::Error>)
        ensures
            r == spec_point_from(val),
            r matches Ok(p) ==> spec_point_code(p) == val,
    {
        match val {
            0x00 => Ok(PointPosition::Zero),
            0x01 => Ok(PointPosition::One),
            0x02 => Ok(PointPosition::Two),
            0x03 => Ok(PointPosition::Three),
            0x04 => Ok(PointPosition::Four),
            0x05 => Ok(PointPosition::Five),
            _ => Err(FrameParseError::InvalidPoint),
        }
    }
}

impl vstd::std_specs::convert::TryFromSpecImpl<u8> for PointPosition {
    open spec fn obeys_try_from_spec() -> bool {
        true
    }

    open spec fn try_from_spec(v: u8) -> Result<Self, FrameParseError> {
        spec_point_from(v)
    }
}


/// A frame after validation: header, sign, six BCD digits, point position and unit.
#[derive(Debug, Clone, Copy, PartialEq, Eq)]
pub struct DigimaticFrame {
    pub header: [u8; 4],
    pub sign: Sign,
    pub data: [u8; 6],
    pub point_pos: PointPosition,
    pub unit: Unit,
}

/// The value of a sequence of decimal digits, most significant first
/// (each element taken as a digit weight, as a left fold `acc * 10 + d`).
pub open spec fn digits_value(digits: Seq<u8>) -> int
    decreases digits.len(),
{
    if digits.len() == 0 {
        0
    } else {
        digits_value(digits.drop_last()) * 10 + digits.last()
    }
}

/// Every element is a BCD digit `0..=9`.
pub open spec fn all_bcd(digits: Seq<u8>) -> bool {
    forall|i: int| 0 <= i < digits.len() ==> digits[i] <= 9
}

/// The largest value a left fold over `n` bytes can reach.
pub open spec fn fold_bound(n: nat) -> int
    decreases n,
{
    if n == 0 {
        0
    } else {
        fold_bound((n - 1) as nat) * 10 + 255
    }
}

/// The value of BCD digits is below `10^len`.
pub proof fn lemma_bcd_value_bound(digits: Seq<u8>)
    requires
        all_bcd(digits),
    ensures
        0 <= digits_value(digits) < vstd::arithmetic::power::pow(10, digits.len()),
    decreases digits.len(),
{
    reveal(vstd::arithmetic::power::pow);
    if digits.len() > 0 {
        lemma_bcd_value_bound(digits.drop_last());
    }
}

/// Any fold over bytes stays below `fold_bound(len)`.
proof fn lemma_fold_bound(digits: Seq<u8>)
    ensures
        0 <= digits_value(digits) <= fold_bound(digits.len()),
    decreases digits.len(),
{
    if digits.len() > 0 {
        lemma_fold_bound(digits.drop_last());
    }
}

/// A decoded measurement: the six-digit value, its sign, point position and unit.
///
/// The fields are private: a measurement comes out of frame parsing
/// (`TryFrom<DigimaticFrame>`) or is the placeholder [`Measurement::dummy`].
#[derive(Debug, Clone, Copy, PartialEq, Eq)]
pub struct Measurement {
    val: u32,
    sign: Sign,
    point: PointPosition,
    unit: Unit,
}

impl Measurement {
    /// The digit value carried by the placeholder measurement.
    pub const DUMMY_VALUE: u32 = 999_999;

    pub closed spec fn spec_val(self) -> u32 {
        self.val
    }

    pub closed spec fn spec_sign(self) -> Sign {
        self.sign
    }

    pub closed spec fn spec_point(self) -> PointPosition {
        self.point
    }

    pub closed spec fn spec_unit(self) -> Unit {
        self.unit
    }

    /// The measurement that a validated frame denotes.
    pub open spec fn spec_from_frame(frame: DigimaticFrame) -> Measurement {
        Measurement::spec_new(
            digits_value(frame.data@) as u32,
            frame.sign,
            frame.point_pos,
            frame.unit,
        )
    }

    /// The measurement with the given parts.
    pub closed spec fn spec_new(val: u32, sign: Sign, point: PointPosition, unit: Unit) -> Measurement {
        Measurement { val, sign, point, unit }
    }

    pub proof fn lemma_spec_new(val: u32, sign: Sign, point: PointPosition, unit: Unit)
        ensures
            Measurement::spec_new(val, sign, point, unit).spec_val() == val,
            Measurement::spec_new(val, sign, point, unit).spec_sign() == sign,
            Measurement::spec_new(val, sign, point, unit).spec_point() == point,
            Measurement::spec_new(val, sign, point, unit).spec_unit() == unit,
    {
    }

    /// Placeholder shown before any data has arrived: `9999.99 mm`.
    pub fn dummy() -> (r: Self)
        ensures
            r.spec_val() == Self::DUMMY_VALUE,
            r.spec_sign() == Sign::Plus,
            r.spec_point() == PointPosition::Two,
            r.spec_unit() == Unit::Mm,
    {
        Self { val: Self::DUMMY_VALUE, sign: Sign::Plus, point: PointPosition::Two, unit: Unit::Mm }
    }

    pub fn val(&self) -> (r: u32)
        ensures
            r == self.spec_val(),
    {
        self.val
    }

    pub fn sign(&self) -> (r: Sign)
        ensures
            r == self.spec_sign(),
    {
        self.sign
    }

    pub fn point(&self) -> (r: PointPosition)
        ensures
            r == self.spec_point(),
    {
        self.point
    }

    pub fn unit(&self) -> (r: Unit)
        ensures
            r == self.spec_unit(),
    {
        self.unit
    }
}

impl TryFrom<DigimaticFrame> for Measurement {
    type Error = FrameParseError;

    /// Folds the six data digits into the value; sign, point and unit are copied.
    /// This conversion never fails.
    fn try_from(frame: DigimaticFrame) -> (r: Result<Self, Self::Error>)
        ensures
            r == Ok::<Measurement, FrameParseError>(Measurement::spec_from_frame(frame)),
            r matches Ok(m) && m.spec_val() == digits_value(frame.data@) && m.spec_sign()
                == frame.sign && m.spec_point() == frame.point_pos && m.spec_unit() == frame.unit,
            all_bcd(frame.data@) ==> (r matches Ok(m) && m.spec_val() < 1_000_000),
    {
        let mut val: u32 = 0;
        let mut i: usize = 0;
        proof {
            reveal_with_fuel(fold_bound, 7);
            assert(frame.data@.take(0) =~= Seq::<u8>::empty());
        }
        while i < 6
            invariant
                i <= 6,
                val == digits_value(frame.data@.take(i as int)),
                val <= fold_bound(i as nat),
                fold_bound(6) == 28333305,
            decreases 6 - i,
        {
            proof {
                lemma_fold_bound(frame.data@.take(i as int));
                assert(frame.data@.take(i + 1).drop_last() =~= frame.data@.take(i as int));
                assert(fold_bound((i + 1) as nat) == fold_bound(i as nat) * 10 + 255);
                assert(fold_bound(i as nat) <= fold_bound(6)) by {
                    reveal_with_fuel(fold_bound, 7);
                }
            }
            val = val * 10 + frame.data[i] as u32;
            i = i + 1;
        }
        proof {
            assert(frame.data@.take(6) =~= frame.data@);
            if all_bcd(frame.data@) {
                lemma_bcd_value_bound(frame.data@);
                assert(vstd::arithmetic::power::pow(10, 6) == 1_000_000) by {
                    reveal_with_fuel(vstd::arithmetic::power::pow, 7);
                }
            }
        }
        Ok(Measurement { val, sign: frame.sign, point: frame.point_pos, unit: frame.unit })
    }
}

impl vstd::std_specs::convert::TryFromSpecImpl<DigimaticFrame> for Measurement {
    open spec fn obeys_try_from_spec() -> bool {
        true
    }

    open spec fn try_from_spec(v: DigimaticFrame) -> Result<Self, FrameParseError> {
        Ok(Measurement::spec_from_frame(v))
    }
}

/// Bit order inside a nibble of a binary frame (Digimatic itself uses LSB first).
#[derive(Debug, Clone, Copy, PartialEq, Eq)]
pub enum BitMode {
    Lsb,
    Msb,
}

/// A received frame as it came from the transport.
#[derive(Debug, Clone)]
pub enum TransportFrame {
    Str(Vec<u8>),
    Bin(Vec<u8>),
}

} // verus!
