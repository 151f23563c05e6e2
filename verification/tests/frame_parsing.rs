use digimatic::errors::FrameParseError;
use digimatic::frame::{
    BitMode, DigimaticFrame, Measurement, PointPosition, Sign, Unit, D12, D13, D5, D7,
};
use digimatic::parser::{char_to_nibble, decode_frame, nibbles_of_text, parse_bits, validator_bits};

#[test]
fn parse_nibbles_should_return_frame() {
    let nibbles = [
        0x0F, 0x0F, 0x0F, 0x0F, // header
        0x00, // sign
        0, 1, 2, 3, 4, 5, // data
        0x02, // point
        0x00, // unit
    ];

    let frame = validator_bits(&nibbles).unwrap();

    assert_eq!(frame.header, [0x0F; 4]);
    assert_eq!(frame.sign, Sign::Plus);
    assert_eq!(frame.point_pos, PointPosition::Two);
    assert_eq!(frame.unit, Unit::Mm);
}

#[test]
fn except_illigal_length_nibbles() {
    let nibbles = [
        0x0F, 0x0F, 0x0F, 0x0F, // header
        0x00, // sign
        0, 1, 2, 3, 4, 5, // data
        0x02, // point
        0x00, // unit
        0x10, // extra nibble
    ];

    assert!(validator_bits(&nibbles).is_err());
}

#[test]
fn test_invalid_values() {
    let nibbles = [
        0x0F, 0x0F, 0x0F, 0x0F, // header
        0x00, // sign (D5)
        0, 1, 2, 3, 4, 5, // data
        0x02, // point (D12)
        0x00, // unit (D13)
    ];

    let valid_d5 = [0x00, 0x08];
    let invalid_d5 = [
        0x01, 0x02, 0x03, 0x04, 0x05, 0x06, 0x07, 0x09, 0x0A, 0x0B, 0x0C, 0x0D, 0x0E, 0x0F,
    ];
    for &valid in &valid_d5 {
        let mut nibbles_clone = nibbles.clone();
        nibbles_clone[D5] = valid;
        assert!(validator_bits(&nibbles_clone).is_ok());
    }
    for &invalid in &invalid_d5 {
        let mut nibbles_clone = nibbles.clone();
        nibbles_clone[D5] = invalid;
        assert!(validator_bits(&nibbles_clone).is_err());
    }

    let valid_d12 = [0x00, 0x01, 0x02, 0x03, 0x04, 0x05];
    let invalid_d12 = [0x06, 0x07, 0x08, 0x09, 0x0A, 0x0B, 0x0C, 0x0D, 0x0E, 0x0F];
    for &valid in &valid_d12 {
        let mut nibbles_clone = nibbles.clone();
        nibbles_clone[D12] = valid;
        assert!(validator_bits(&nibbles_clone).is_ok());
    }
    for &invalid in &invalid_d12 {
        let mut nibbles_clone = nibbles.clone();
        nibbles_clone[D12] = invalid;
        assert!(validator_bits(&nibbles_clone).is_err());
    }

    let valid_d13 = [0x00, 0x01];
    let invalid_d13 = [
        0x02, 0x03, 0x04, 0x05, 0x06, 0x07, 0x08, 0x09, 0x0A, 0x0B, 0x0C, 0x0D, 0x0E, 0x0F,
    ];
    for &valid in &valid_d13 {
        let mut nibbles_clone = nibbles.clone();
        nibbles_clone[D13] = valid;
        assert!(validator_bits(&nibbles_clone).is_ok());
    }
    for &invalid in &invalid_d13 {
        let mut nibbles_clone = nibbles.clone();
        nibbles_clone[D13] = invalid;
        assert!(validator_bits(&nibbles_clone).is_err());
    }
}

#[test]
fn test_bcd_rejects_invalid_data() {
    let mut nibbles = [0x0F, 0x0F, 0x0F, 0x0F, 0x00, 1, 2, 3, 4, 5, 6, 0x02, 0x00];

    nibbles[D7] = 0x0A;

    assert!(validator_bits(&nibbles).is_err());
}

#[test]
fn test_string_to_nibbles_conversion() {
    let input_str = "FFFF001257720";

    let nibbles: Vec<u8> = input_str
        .chars()
        .map(char_to_nibble)
        .collect::<Result<Vec<_>, FrameParseError>>()
        .unwrap();

    let expected_nibbles: Vec<u8> = vec![
        0xF, 0xF, 0xF, 0xF, // FFFF
        0x0, 0x0, // 00
        0x1, 0x2, // 12
        0x5, 0x7, // 57
        0x7, 0x2, // 72
        0x0, // 0
    ];

    assert_eq!(nibbles, expected_nibbles);
}

#[test]
fn test_nibbles_to_string_conversion() {
    let nibbles: Vec<u8> = vec![
        0xF, 0xF, 0xF, 0xF, // FFFF
        0x0, 0x0, // 00
        0x1, 0x2, // 12
        0x5, 0x7, // 57
        0x7, 0x2, // 72
        0x0, // 0
    ];

    let result = decode_frame(&nibbles).unwrap();

    let expected_str = "FFFF001257720".to_string();

    assert_eq!(result, expected_str);
}

fn frame_of(nibbles: [u8; 13]) -> Result<DigimaticFrame, FrameParseError> {
    validator_bits(&nibbles)
}

#[test]
fn validator_reports_each_error() {
    let good = [0xF, 0xF, 0xF, 0xF, 0, 1, 2, 3, 4, 5, 6, 2, 0];
    assert_eq!(
        validator_bits(&good[..12]),
        Err(FrameParseError::InvalidBitLength { expected: 13, found: 12 })
    );
    let mut n = good;
    n[2] = 0xE;
    assert_eq!(frame_of(n), Err(FrameParseError::HeaderMismatch));
    let mut n = good;
    n[D5] = 3;
    assert_eq!(frame_of(n), Err(FrameParseError::InvalidSign));
    let mut n = good;
    n[D12] = 7;
    assert_eq!(frame_of(n), Err(FrameParseError::InvalidPoint));
    let mut n = good;
    n[D13] = 2;
    assert_eq!(frame_of(n), Err(FrameParseError::InvalidUnit));
    let mut n = good;
    n[9] = 0xB;
    assert_eq!(frame_of(n), Err(FrameParseError::NibbleOutOfRange(0xB)));
}

#[test]
fn validator_copies_fields() {
    let f = frame_of([0xF, 0xF, 0xF, 0xF, 8, 9, 8, 7, 6, 5, 4, 5, 1]).unwrap();
    assert_eq!(f.sign, Sign::Minus);
    assert_eq!(f.data, [9, 8, 7, 6, 5, 4]);
    assert_eq!(f.point_pos, PointPosition::Five);
    assert_eq!(f.unit, Unit::Inch);
}

#[test]
fn measurement_folds_digits() {
    let f = frame_of([0xF, 0xF, 0xF, 0xF, 0, 0, 0, 9, 4, 5, 5, 2, 0]).unwrap();
    let m = Measurement::try_from(f).unwrap();
    assert_eq!(m.val(), 9455);
    assert_eq!(m.sign(), Sign::Plus);
    assert_eq!(m.point(), PointPosition::Two);
    assert_eq!(m.unit(), Unit::Mm);
}

#[test]
fn text_frame_to_measurement() {
    let frame = DigimaticFrame::try_from("FFFF000945520").unwrap();
    let m = Measurement::try_from(frame).unwrap();
    assert_eq!(m.val(), 9455);
    assert_eq!(m.point(), PointPosition::Two);
    assert_eq!(DigimaticFrame::try_from("FFFF00094552"), Err(FrameParseError::InvalidBitLength { expected: 13, found: 12 }));
    assert_eq!(DigimaticFrame::try_from("FFFF00094552G"), Err(FrameParseError::InvalidChar('G')));
}

#[test]
fn byte_frame_to_measurement() {
    let bytes: [u8; 13] = [0xF, 0xF, 0xF, 0xF, 8, 1, 2, 3, 4, 5, 6, 3, 1];
    let f = DigimaticFrame::try_from(&bytes[..]).unwrap();
    assert_eq!(f.sign, Sign::Minus);
    assert_eq!(f.unit, Unit::Inch);
}

#[test]
fn hex_characters() {
    assert_eq!(char_to_nibble('0'), Ok(0));
    assert_eq!(char_to_nibble('9'), Ok(9));
    assert_eq!(char_to_nibble('a'), Ok(10));
    assert_eq!(char_to_nibble('F'), Ok(15));
    assert_eq!(char_to_nibble('g'), Err(FrameParseError::InvalidChar('g')));
    assert_eq!(char_to_nibble(' '), Err(FrameParseError::InvalidChar(' ')));
}

#[test]
fn nibbles_of_text_slice() {
    let chars: Vec<char> = "  fF09\n".chars().collect();
    assert_eq!(nibbles_of_text(&chars, 2, 6), Ok(vec![15, 15, 0, 9]));
    assert_eq!(nibbles_of_text(&chars, 0, 6), Err(FrameParseError::InvalidChar(' ')));
}

#[test]
fn decode_frame_errors_and_text() {
    assert_eq!(decode_frame(&[1, 2, 3]), Err(FrameParseError::IncompleteNibble(3)));
    assert_eq!(decode_frame(&[0xF, 0xF, 0xF, 0xF, 8, 1, 2, 3, 4, 5, 6, 3, 1]).unwrap(), "FFFF812345631");
}

fn lsb_bits(nibbles: &[u8]) -> Vec<u8> {
    let mut bits = Vec::new();
    for &n in nibbles {
        for k in 0..4 {
            bits.push((n >> k) & 1);
        }
    }
    bits
}

fn msb_bits(nibbles: &[u8]) -> Vec<u8> {
    let mut bits = Vec::new();
    for &n in nibbles {
        for k in (0..4).rev() {
            bits.push((n >> k) & 1);
        }
    }
    bits
}

#[test]
fn bits_to_nibbles_both_orders() {
    let nibbles = [0xF, 0xF, 0xF, 0xF, 0, 0, 0, 1, 2, 3, 4, 2, 0];
    assert_eq!(parse_bits(&lsb_bits(&nibbles), BitMode::Lsb), Ok(nibbles));
    assert_eq!(parse_bits(&msb_bits(&nibbles), BitMode::Msb), Ok(nibbles));
    let f = validator_bits(&parse_bits(&lsb_bits(&nibbles), BitMode::Lsb).unwrap()).unwrap();
    assert_eq!(Measurement::try_from(f).unwrap().val(), 1234);
}

#[test]
fn bits_length_error() {
    let bits = vec![0u8; 51];
    assert_eq!(
        parse_bits(&bits, BitMode::Lsb),
        Err(FrameParseError::InvalidBitLength { expected: 52, found: 51 })
    );
}

#[test]
fn decoded_text_parses_back() {
    for nibbles in [
        [0xF, 0xF, 0xF, 0xF, 0, 1, 2, 3, 4, 5, 6, 2, 0],
        [0xF, 0xF, 0xF, 0xF, 8, 9, 9, 9, 9, 9, 9, 5, 1],
        [0xF, 0xF, 0xF, 0xE, 0, 0, 0, 0, 0, 0, 0, 0, 0],
        [0xF, 0xF, 0xF, 0xF, 0, 0, 0xA, 0, 0, 0, 0, 0, 0],
    ] {
        let text = decode_frame(&nibbles).unwrap();
        assert_eq!(DigimaticFrame::try_from(text.as_str()), validator_bits(&nibbles));
    }
}
