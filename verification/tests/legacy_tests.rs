use drone_tuner_core::blackbox::legacy::{BlackboxParser, DataFrame};
use drone_tuner_core::domain::FlightEventType;
use drone_tuner_core::error::DronetunerError;
use std::io::Write;

#[test]
fn test_parser_creation() {
    let parser = BlackboxParser::new();
    assert_eq!(parser.stats().total_frames, 0);
    assert!(parser.header().is_none());
}

#[test]
fn test_compression_detection() {
    let parser = BlackboxParser::new();

    // Test gzip magic number
    let gzip_data = [0x1f, 0x8b, 0x08, 0x00];
    assert!(parser.is_compressed(&gzip_data).unwrap());

    // Test non-compressed data
    let plain_data = [0x48, 0x20, 0x50, 0x72];
    assert!(!parser.is_compressed(&plain_data).unwrap());
}

#[test]
fn test_variable_byte_parsing() {
    let parser = BlackboxParser::new();

    // Test single byte positive value
    let data = [0x2A]; // 42
    let (_, value) = parser.parse_signed_vb(&data).unwrap();
    assert_eq!(value, 42);

    // Test single byte negative value
    let data = [0x6A]; // -42 (with sign bit)
    let (_, value) = parser.parse_signed_vb(&data).unwrap();
    assert_eq!(value, -42);
}

#[test]
fn blackbox_old_test_empty_data_handling() {
    let mut parser = BlackboxParser::new();
    let result = parser.parse_file(&[]);
    assert!(result.is_err());
}

fn sample_log() -> Vec<u8> {
    let mut data = b"H Data version:2\nH Firmware revision:Betaflight 4.4.0\nH Board information:STM32F405\nH Field I name:a\nH Field I name:b\n".to_vec();
    data.extend_from_slice(b"I\x2a\x6a");
    data.extend_from_slice(b"P\x01\x00");
    data.extend_from_slice(b"EARMED\n");
    data.extend_from_slice(b"X");
    data.extend_from_slice(b"P\x81\x01\x00");
    data
}

fn frame_values(f: &DataFrame) -> (char, Vec<i32>) {
    match f {
        DataFrame::I(v) => ('I', v.clone()),
        DataFrame::P(v) => ('P', v.clone()),
        DataFrame::Event(_, _) => ('E', Vec::new()),
    }
}

fn check_sample(parser: &BlackboxParser) {
    let frames: Vec<(char, Vec<i32>)> = parser.frames().iter().map(frame_values).collect();
    assert_eq!(
        frames,
        vec![
            ('I', vec![42, -42]),
            ('P', vec![43, -42]),
            ('E', vec![]),
            ('P', vec![172, -42]),
        ]
    );
    let stats = parser.stats();
    assert_eq!(stats.total_frames, 4);
    assert_eq!(stats.i_frames, 1);
    assert_eq!(stats.p_frames, 2);
    assert_eq!(stats.event_frames, 1);
    assert_eq!(stats.corrupted_frames, 1);
    let events = parser.build_flight_events();
    assert_eq!(events.len(), 1);
    assert!(matches!(events[0].event_type, FlightEventType::Armed));
    assert_eq!(events[0].timestamp_ms, 0);
}

#[test]
fn decodes_frames_after_header() {
    let data = sample_log();
    let mut parser = BlackboxParser::new();
    let header = parser.parse_file(&data).unwrap();
    assert_eq!(header.firmware_info, "Firmware revision:Betaflight 4.4.0");
    assert_eq!(header.hardware_info, "Board information:STM32F405");
    let names: Vec<&str> = header.fields.iter().map(|f| f.name.as_str()).collect();
    assert_eq!(names, vec!["a", "b"]);
    assert_eq!(header.rates.pid_rate, 8000);
    assert_eq!(parser.stats().bytes_processed, data.len());
    check_sample(&parser);
}

#[test]
fn decodes_gzip_compressed_logs() {
    let data = sample_log();
    let mut enc = flate2::write::GzEncoder::new(Vec::new(), flate2::Compression::default());
    enc.write_all(&data).unwrap();
    let compressed = enc.finish().unwrap();
    let mut parser = BlackboxParser::new();
    assert!(parser.is_compressed(&compressed).unwrap());
    let decompressed = parser.decompress(&compressed).unwrap();
    assert_eq!(decompressed, data);
    parser.parse_file(&compressed).unwrap();
    assert_eq!(parser.stats().bytes_processed, data.len());
    check_sample(&parser);
}

#[test]
fn broken_gzip_is_a_decompression_error() {
    let mut parser = BlackboxParser::new();
    match parser.parse_file(&[0x1f, 0x8b, 0x00, 0x00, 0x01]) {
        Err(DronetunerError::ParseError { message, position }) => {
            assert!(message.starts_with("Decompression failed: "), "{}", message);
            assert_eq!(position, None);
        }
        _ => panic!("expected a decompression error"),
    }
}

#[test]
fn unrecognized_header_reports_nom_error() {
    let mut parser = BlackboxParser::new();
    match parser.parse_file(b"garbage") {
        Err(DronetunerError::ParseError { message, .. }) => {
            assert!(message.starts_with("Header parsing failed: Parsing Error: "), "{}", message);
            assert!(message.contains("Tag"), "{}", message);
        }
        _ => panic!("expected a header error"),
    }
    match parser.parse_file(b"H no line end") {
        Err(DronetunerError::ParseError { message, .. }) => {
            assert!(message.contains("TakeUntil"), "{}", message);
        }
        _ => panic!("expected a header error"),
    }
}

#[test]
fn product_header_line_leaves_no_fields() {
    let mut parser = BlackboxParser::new();
    match parser.parse_file(b"H Product:Blackbox flight data recorder\nH Field I name:a\nI\x01") {
        Err(DronetunerError::ParseError { message, .. }) => {
            assert_eq!(message, "No field definitions found in header - cannot parse frames");
        }
        _ => panic!("expected a missing-fields error"),
    }
    assert!(parser.header().is_some());
}

#[test]
fn skip_to_next_frame_finds_next_marker() {
    let parser = BlackboxParser::new();
    assert_eq!(parser.skip_to_next_frame(b"XYZP12"), 3);
    assert_eq!(parser.skip_to_next_frame(b"III"), 1);
    assert_eq!(parser.skip_to_next_frame(b"X12"), 3);
    assert!(parser.is_recoverable_error());
}

#[test]
fn unsigned_and_two_byte_values() {
    let parser = BlackboxParser::new();
    assert_eq!(parser.parse_unsigned_vb(&[0x7f]), Some((1, 127)));
    assert_eq!(parser.parse_unsigned_vb(&[0xff, 0x7f]), Some((2, 16383)));
    assert_eq!(parser.parse_signed_vb(&[0x81, 0x01]), Some((2, 129)));
    assert_eq!(parser.parse_signed_vb(&[0x81]), None);
    assert_eq!(parser.parse_signed_vb(&[]), None);
}

#[test]
fn parse_frame_decodes_with_the_header_layout() {
    let mut parser = BlackboxParser::new();
    parser.parse_file(&sample_log()).unwrap();
    let before = parser.stats().i_frames;
    match parser.parse_frame(b"I\x02\x04") {
        Some((n, DataFrame::I(values))) => {
            assert_eq!(n, 3);
            assert_eq!(values, vec![2, 4]);
        }
        _ => panic!("expected an intra frame"),
    }
    assert_eq!(parser.stats().i_frames, before + 1);
    assert!(parser.parse_frame(b"Z").is_none());
}

#[test]
fn parse_frame_without_layout_reads_the_marker_only() {
    let mut parser = BlackboxParser::new();
    match parser.parse_frame(b"I") {
        Some((1, DataFrame::I(values))) => assert!(values.is_empty()),
        _ => panic!("expected an empty intra frame"),
    }
    assert_eq!(parser.stats().i_frames, 1);
}

#[test]
fn empty_input_has_no_frame() {
    let mut parser = BlackboxParser::new();
    assert_eq!(parser.skip_to_next_frame(b""), 0);
    assert!(parser.parse_frame(b"").is_none());
    assert_eq!(parser.stats().total_frames, 0);
    assert_eq!(parser.stats().i_frames, 0);
}
