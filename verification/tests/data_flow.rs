use std::sync::mpsc;

use digimatic::communicator::{
    line_to_frame, push_measurement_to_gui, wait_step, GuiLink, SimReceiver, WaitStep, MAX_LINE_LEN, MAX_WAIT_SECS,
};
use digimatic::scanner::{find_pico_port, PortInfo, PICO_PID, PICO_VID};
use digimatic::config::{AppConfig, ConnectionInfo, ConsoleMode, DataSource, FrameFormat, SimModeArg, UiMode};
use digimatic::errors::{is_fatal, ErrorKind, FrameParseError};
use digimatic::frame::{BitMode, DigimaticFrame, Measurement, PointPosition, Sign, TransportFrame, Unit};
use digimatic::parser::parse_bits;
use digimatic::frame_array_builder::{build_frame_array, build_simulator_payload, frame_to_bits, frame_to_text};
use digimatic::logger::RxDataLog;
use digimatic::measurement_history::{MeasurementHistory, HISTORY_SIZE};
use digimatic::presentation::{display_precision, unit_label};
use digimatic::received_data_handler::{decode_raw_data, handle_received_data, raw_log_entry};
use digimatic::text::{chars_of, is_whitespace, string_from_chars, trim_bounds};
use digimatic::validater::{parse_rx_frame_string, trim_bytes, RxFrameError};
use digimatic::validater_rx_frame::parse_rx_frame;

fn measurement(text: &str) -> Measurement {
    Measurement::try_from(DigimaticFrame::try_from(text).unwrap()).unwrap()
}

fn str_bytes(t: &TransportFrame) -> Vec<u8> {
    match t {
        TransportFrame::Str(v) => v.clone(),
        TransportFrame::Bin(_) => panic!("expected a text frame"),
    }
}

fn bin_bytes(t: &TransportFrame) -> Vec<u8> {
    match t {
        TransportFrame::Bin(v) => v.clone(),
        TransportFrame::Str(_) => panic!("expected a binary frame"),
    }
}

#[test]
fn frame_array_layout() {
    assert_eq!(build_frame_array(12345, false), [0xF, 0xF, 0xF, 0xF, 0, 0, 1, 2, 3, 4, 5, 2, 0]);
    assert_eq!(build_frame_array(1234567, true), [0xF, 0xF, 0xF, 0xF, 8, 2, 3, 4, 5, 6, 7, 2, 0]);
    assert_eq!(build_frame_array(0, true), [0xF, 0xF, 0xF, 0xF, 8, 0, 0, 0, 0, 0, 0, 2, 0]);
}

#[test]
fn frame_text_and_bits() {
    assert_eq!(frame_to_text(&[0xF, 0, 9, 0xA]), b"F09A".to_vec());
    assert_eq!(frame_to_bits(&[0x1, 0x8]), vec![1, 0, 0, 0, 0, 0, 0, 1]);
}

#[test]
fn text_payload_round_trip() {
    let p = build_simulator_payload(945520, false, FrameFormat::Str);
    assert_eq!(str_bytes(&p), b"FFFF094552020".to_vec());
    let (m, text) = decode_raw_data(&p).unwrap();
    let m = m.unwrap();
    assert_eq!(text, "FFFF094552020");
    assert_eq!(m.val(), 945520);
    assert_eq!(m.sign(), Sign::Plus);
    assert_eq!(m.point(), PointPosition::Two);
    assert_eq!(m.unit(), Unit::Mm);
}

#[test]
fn binary_payload_round_trip() {
    let p = build_simulator_payload(2_001_234, true, FrameFormat::Bin);
    let bits = bin_bytes(&p);
    assert_eq!(bits.len(), 52);
    let (m, text) = decode_raw_data(&p).unwrap();
    let m = m.unwrap();
    assert_eq!(m.val(), 1234);
    assert_eq!(m.sign(), Sign::Minus);
    let expected: String = bits.iter().map(|b| format!("{:02x}", b)).collect();
    assert_eq!(text, expected);
}

#[test]
fn decode_reports_errors() {
    assert_eq!(
        decode_raw_data(&TransportFrame::Str(vec![0xC3, 0xA9])).unwrap_err(),
        FrameParseError::NonAscii
    );
    let (m, text) = decode_raw_data(&TransportFrame::Str(b" FFFF00094552X\n".to_vec())).unwrap();
    assert_eq!(m.unwrap_err(), FrameParseError::InvalidChar('X'));
    assert_eq!(text, "FFFF00094552X");
    let (m, _) = decode_raw_data(&TransportFrame::Str(b"EFFF000945520".to_vec())).unwrap();
    assert_eq!(m.unwrap_err(), FrameParseError::HeaderMismatch);
    let (m, text) = decode_raw_data(&TransportFrame::Bin(vec![1, 0, 255])).unwrap();
    assert_eq!(m.unwrap_err(), FrameParseError::InvalidBitLength { expected: 52, found: 3 });
    assert_eq!(text, "0100ff");
}

#[test]
fn raw_log_records() {
    let e = FrameParseError::HeaderMismatch;
    let log = raw_log_entry(&TransportFrame::Str(b"  FFFF \r\n".to_vec()), Some(&e));
    assert_eq!(log.raw_data, "FFFF");
    assert_eq!(log.raw_len, 4);
    assert_eq!(log.error_log, Some(FrameParseError::HeaderMismatch));
    let log = raw_log_entry(&TransportFrame::Str(vec![0xFF, 0x41]), None);
    assert_eq!(log.raw_data, "");
    assert_eq!(log.raw_len, 0);
    assert_eq!(log.error_log, None);
    let log = raw_log_entry(&TransportFrame::Bin(vec![0x0F, 0xAB, 0x00]), None);
    assert_eq!(log.raw_data, "0fab00");
    assert_eq!(log.raw_len, 3);
}

#[test]
fn log_record_constructors() {
    let log = RxDataLog::new_bin(&[0x12, 0xEF]);
    assert_eq!(log.raw_data, "12ef");
    assert_eq!(log.raw_len, 2);
    assert!(log.error_log.is_none());
    let log = RxDataLog::new_str("héllo");
    assert_eq!(log.raw_data, "héllo");
    assert_eq!(log.raw_len, 6);
    assert!(!log.timestamp.is_empty());
}

#[test]
fn device_lines() {
    assert!(matches!(line_to_frame(b""), Ok(None)));
    match line_to_frame(b"FFFF000945520\r\n") {
        Ok(Some(TransportFrame::Str(v))) => assert_eq!(v, b"FFFF000945520".to_vec()),
        _ => panic!("expected a text frame"),
    }
    match line_to_frame(b"\n") {
        Ok(Some(TransportFrame::Str(v))) => assert!(v.is_empty()),
        _ => panic!("expected an empty text frame"),
    }
    let long = vec![b'F'; MAX_LINE_LEN + 1];
    assert_eq!(
        line_to_frame(&long).unwrap_err(),
        FrameParseError::InvalidBitLength { expected: 13, found: 65 }
    );
    assert!(matches!(line_to_frame(&vec![b'F'; MAX_LINE_LEN]), Ok(Some(_))));
}

#[test]
fn text_frame_checker() {
    let f = parse_rx_frame_string("  FFFF012345620\n").unwrap();
    assert_eq!(f.header, [70, 70, 70, 70]);
    assert_eq!(f.data, *b"123456");
    assert_eq!(f.sign, Sign::Plus);
    assert_eq!(f.point_pos, PointPosition::Two);
    assert_eq!(f.unit, Unit::Mm);
    assert_eq!(parse_rx_frame_string("FFFF0123456200"), Err(RxFrameError::InvalidLength(14)));
    assert_eq!(parse_rx_frame_string("GFFF012345620"), Err(RxFrameError::InvalidFormat));
    assert_eq!(parse_rx_frame_string("FFFF312345620"), Err(RxFrameError::UnknownSign));
    assert_eq!(parse_rx_frame_string("FFFF012345670"), Err(RxFrameError::IllegalPoint));
    assert_eq!(parse_rx_frame_string("FFFF012345622"), Err(RxFrameError::UnknownUnit));
    assert_eq!(parse_rx_frame_string("FFFF0é2345620"), Err(RxFrameError::NonAscii));
}

#[test]
fn text_frame_to_measurement_checker() {
    let m = parse_rx_frame("FFFF812345631").unwrap();
    assert_eq!(m.val(), 123456);
    assert_eq!(m.sign(), Sign::Minus);
    assert_eq!(m.point(), PointPosition::Three);
    assert_eq!(m.unit(), Unit::Inch);
    assert_eq!(parse_rx_frame("FFFF01234A620"), Err(RxFrameError::InvalidNumeric));
    assert_eq!(parse_rx_frame("FFFF912345620"), Err(RxFrameError::UnknownSign));
}

#[test]
fn newline_stripping() {
    assert_eq!(trim_bytes(&vec![b'a', 13, 10, b'b', 10]), b"ab".to_vec());
    assert_eq!(trim_bytes(&Vec::new()), Vec::<u8>::new());
}

#[test]
fn display_rules() {
    assert_eq!(unit_label(Unit::Mm), "mm");
    assert_eq!(unit_label(Unit::Inch), "inch");
    let mm = measurement("FFFF000945520");
    assert_eq!(display_precision(&mm, Unit::Mm), 2);
    assert_eq!(display_precision(&mm, Unit::Inch), 4);
    let inch2 = measurement("FFFF000945521");
    assert_eq!(display_precision(&inch2, Unit::Mm), 1);
    let inch5 = measurement("FFFF000945551");
    assert_eq!(display_precision(&inch5, Unit::Mm), 3);
    assert_eq!(display_precision(&inch5, Unit::Inch), 5);
}

#[test]
fn history_keeps_latest() {
    let mut h = MeasurementHistory::new();
    assert!(h.is_empty());
    for i in 0..(HISTORY_SIZE + 5) {
        h.add(measurement(&format!("FFFF0{:06}20", i)));
    }
    assert!(h.is_full());
    let oldest = h.iter_oldest();
    assert_eq!(oldest.len(), HISTORY_SIZE);
    assert_eq!(oldest[0].val(), 5);
    assert_eq!(h.iter_newest()[0].val(), (HISTORY_SIZE + 4) as u32);
    h.clear();
    assert!(h.is_empty());
    assert!(MeasurementHistory::default().is_empty());
}

#[test]
fn dummy_measurement() {
    let d = Measurement::dummy();
    assert_eq!(d.val(), Measurement::DUMMY_VALUE);
    assert_eq!(d.sign(), Sign::Plus);
}

#[test]
fn config_building() {
    let c = AppConfig::build(DataSource::Actual, UiMode::Gui, true, SimModeArg::Seed(3));
    assert_eq!(c.format, FrameFormat::Bin);
    assert_eq!(c.console_mode, ConsoleMode::Silent);
    assert_eq!(c.sim_mode, SimModeArg::Seed(3));
    assert_eq!(ConnectionInfo::new(FrameFormat::Str).mode, FrameFormat::Str);
}

#[test]
fn simulator_channel() {
    let (tx, rx) = mpsc::channel();
    let mut r = SimReceiver::new(rx);
    tx.send(TransportFrame::Str(b"FFFF000000020".to_vec())).unwrap();
    match r.read_measurement() {
        Some(TransportFrame::Str(v)) => assert_eq!(v, b"FFFF000000020".to_vec()),
        _ => panic!("expected the frame that was sent"),
    }
    drop(tx);
    assert!(r.read_measurement().is_none());
}

#[test]
fn gui_hand_over() {
    let m = measurement("FFFF000945520");
    let mut none: Option<GuiLink> = None;
    assert!(push_measurement_to_gui(&m, &mut none).is_ok());
    assert!(none.is_none());
    let (tx, rx) = mpsc::channel();
    let mut link = Some(GuiLink::new(tx));
    assert!(push_measurement_to_gui(&m, &mut link).is_ok());
    assert_eq!(rx.recv().unwrap(), m);
    drop(rx);
    let e = push_measurement_to_gui(&m, &mut link).unwrap_err();
    assert_eq!(e.code, 99);
    assert_eq!(e.message, "Channel closed");
    assert!(link.is_some());
}

#[test]
fn text_helpers() {
    assert!(is_whitespace(' '));
    assert!(is_whitespace('\u{3000}'));
    assert!(!is_whitespace('x'));
    let chars = chars_of(" \tab c\n");
    assert_eq!(chars, vec![' ', '\t', 'a', 'b', ' ', 'c', '\n']);
    let (s, e) = trim_bounds(&chars);
    assert_eq!((s, e), (2, 6));
    assert_eq!(string_from_chars(&chars, s, e), "ab c");
}

#[test]
fn received_frame_outcomes() {

    let ok = handle_received_data(&TransportFrame::Str(b"FFFF812345631".to_vec())).unwrap();
    let m = ok.result.unwrap();
    assert_eq!(m.val(), 123456);
    assert_eq!(m.sign(), Sign::Minus);
    assert_eq!(ok.raw_text, "FFFF812345631");
    assert_eq!(ok.raw_log.raw_data, "FFFF812345631");
    assert_eq!(ok.raw_log.raw_len, 13);
    assert_eq!(ok.raw_log.error_log, None);
    assert!(ok.error_log.is_none());

    let bad = handle_received_data(&TransportFrame::Str(b"FFFF812345691\r".to_vec())).unwrap();
    assert_eq!(bad.result.unwrap_err(), FrameParseError::InvalidPoint);
    assert_eq!(bad.raw_log.error_log, None);
    let second = bad.error_log.unwrap();
    assert_eq!(second.error_log, Some(FrameParseError::InvalidPoint));
    assert_eq!(second.raw_data, "FFFF812345691");

    assert_eq!(
        handle_received_data(&TransportFrame::Str(vec![b'F', 0x80])).err(),
        Some(FrameParseError::NonAscii)
    );
}

fn port(name: &str, usb_ids: Option<(u16, u16)>) -> PortInfo {
    PortInfo { port_name: name.to_string(), usb_ids }
}

#[test]
fn pico_search() {
    let ports = vec![
        port("/dev/ttyS0", None),
        port("/dev/ttyUSB0", Some((0x0403, 0x6001))),
        port("/dev/ttyACM0", Some((PICO_VID, PICO_PID))),
        port("/dev/ttyACM1", Some((0x2E8A, 0x0005))),
    ];
    assert_eq!(find_pico_port(&ports), Some("/dev/ttyACM0".to_string()));
    assert_eq!(find_pico_port(&ports[..2].to_vec()), None);
    assert_eq!(find_pico_port(&vec![port("x", Some((0x2E8A, 0x0003)))]), None);
    assert_eq!(find_pico_port(&Vec::new()), None);
}

#[test]
fn waiting_for_the_device() {
    assert!(matches!(wait_step(Some("/dev/ttyACM0".to_string()), 900, 0), WaitStep::Connected(p) if p == "/dev/ttyACM0"));
    assert!(matches!(wait_step(None, 0, 0), WaitStep::KeepWaiting));
    assert!(matches!(wait_step(None, MAX_WAIT_SECS, 0), WaitStep::KeepWaiting));
    assert!(matches!(wait_step(None, MAX_WAIT_SECS, 1), WaitStep::GiveUp));
    assert!(matches!(wait_step(None, 601, 0), WaitStep::GiveUp));
}

fn is_rfc3339_text(s: &str) -> bool {
    let b = s.as_bytes();
    let digits = |r: std::ops::Range<usize>| b[r].iter().all(|c| c.is_ascii_digit());
    let y = match b.iter().position(|&c| c == b'-' ) {
        Some(0) => 1 + b[1..].iter().position(|&c| c == b'-').unwrap(),
        Some(p) => p,
        None => return false,
    };
    let n = b.len();
    n >= y + 21
        && b[y + 6] == b'T'
        && digits(y + 1..y + 3)
        && digits(y + 4..y + 6)
        && digits(y + 7..y + 9)
        && digits(y + 10..y + 12)
        && digits(y + 13..y + 15)
        && (b[n - 6] == b'+' || b[n - 6] == b'-')
        && b[n - 3] == b':'
        && digits(n - 5..n - 3)
        && digits(n - 2..n)
}

#[test]
fn log_timestamps_are_rfc3339() {
    assert!(is_rfc3339_text(&RxDataLog::new_str("x").timestamp));
    assert!(is_rfc3339_text(&RxDataLog::new_bin(&[1]).timestamp));
    let log = raw_log_entry(&TransportFrame::Bin(vec![0]), None);
    assert!(is_rfc3339_text(&log.timestamp));
}

#[test]
fn frame_text_of_any_bytes() {
    assert_eq!(frame_to_text(&[0x10, 0xFF, 0x0A, 0x2B]), b"10FFA2B".to_vec());
    assert_eq!(frame_to_text(&[]), Vec::<u8>::new());
}

#[test]
fn error_kinds_that_end_the_application() {
    assert!(!is_fatal(ErrorKind::CommTimeout));
    assert!(!is_fatal(ErrorKind::Parse));
    for k in [
        ErrorKind::CommIo,
        ErrorKind::CommSerial,
        ErrorKind::CommProtocol,
        ErrorKind::CommConnectionClosed,
        ErrorKind::System,
        ErrorKind::Argument,
        ErrorKind::Gui,
    ] {
        assert!(is_fatal(k));
    }
}

#[test]
fn history_fill_count_after_adds() {
    for k in [0usize, 1, 49, 50, 51, 120] {
        let mut h = MeasurementHistory::new();
        for i in 0..k {
            h.add(measurement(&format!("FFFF0{:06}20", i)));
        }
        assert_eq!(h.is_full(), k >= 50);
        assert_eq!(h.is_empty(), k == 0);
        let kept = h.iter_oldest();
        assert_eq!(kept.len(), k.min(50));
        let first = k - k.min(50);
        for (j, m) in kept.iter().enumerate() {
            assert_eq!(m.val() as usize, first + j);
        }
    }
}

fn value_of(m: &Measurement) -> f64 {
    let digits = match m.point() {
        PointPosition::Zero => 0,
        PointPosition::One => 1,
        PointPosition::Two => 2,
        PointPosition::Three => 3,
        PointPosition::Four => 4,
        PointPosition::Five => 5,
    };
    let sign = match m.sign() {
        Sign::Plus => 1.0,
        Sign::Minus => -1.0,
    };
    m.val() as f64 / 10f64.powi(digits) * sign
}

#[test]
fn test_build_frame() {
    let val = 123.456f64;
    let frame = build_frame_array((val.abs() * 100.0 + 1E-5).round() as u32, val < 0.0);

    assert_eq!(frame[11], PointPosition::Two.code());
    assert_eq!(frame[12], Unit::Mm.code());

    assert_eq!(frame[10], 6);
}

#[test]
fn test_simulator_string_to_value() {
    let input = "FFFF000945520";
    let frame = DigimaticFrame::try_from(input).unwrap();
    let m = Measurement::try_from(frame).unwrap();
    assert_eq!(m.val(), 9455);
    assert_eq!(value_of(&m), 94.55);
}

#[test]
fn test_binary_to_measurement_flow() {
    let mut bits = Vec::new();
    for _ in 0..4 {
        bits.extend_from_slice(&[1, 1, 1, 1]);
    }
    bits.extend_from_slice(&[0, 0, 0, 0]);
    bits.extend_from_slice(&[0, 0, 0, 0]);
    bits.extend_from_slice(&[0, 0, 0, 0]);
    bits.extend_from_slice(&[1, 0, 0, 0]);
    bits.extend_from_slice(&[0, 1, 0, 0]);
    bits.extend_from_slice(&[1, 1, 0, 0]);
    bits.extend_from_slice(&[0, 0, 1, 0]);
    bits.extend_from_slice(&[0, 1, 0, 0]);
    bits.extend_from_slice(&[0, 0, 0, 0]);

    let nibbles_lsb = parse_bits(&bits, BitMode::Lsb).unwrap();
    let frame_lsb = DigimaticFrame::try_from(&nibbles_lsb[..]).unwrap();
    let m_lsb = Measurement::try_from(frame_lsb).unwrap();
    assert_eq!(m_lsb.val(), 1234);
    assert_eq!(value_of(&m_lsb), 12.34, "LSB failed: got {}", value_of(&m_lsb));
}

#[test]
fn test_full_chain_decoding_debug() {
    let input = "FFFF000945520";

    let frame_res = DigimaticFrame::try_from(input);
    println!("Step 1 (String -> Frame): {:?}", frame_res);
    let frame = frame_res.expect("Step 1 failed");

    let meas_res = Measurement::try_from(frame);
    println!("Step 2 (Frame -> Measurement): {:?}", meas_res);
    let m = meas_res.expect("Step 2 failed");

    assert_eq!(value_of(&m), 94.55);
}
