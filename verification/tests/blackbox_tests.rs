use drone_tuner_core::blackbox::fields::{
    classify_field, create_field_mappings, extract_field_mappings, field_names_from_headers,
    FieldRole,
};
use drone_tuner_core::blackbox::intervals::{
    extract_frame_intervals_from_raw_data, extract_pid_process_denom, parse_i_interval_value,
    parse_p_interval_value, FrameIntervals,
};
use drone_tuner_core::blackbox::session::{
    round_to_ms, select_session, DurationBasis, ScanAction, ScanEvent, SessionScan,
    SessionSurvey,
};
use drone_tuner_core::blackbox::stream::{FrameStream, StreamItem, StreamStep};
use drone_tuner_core::blackbox::timing::{EventBackfiller, FrameAction, TimeSemantics};
use drone_tuner_core::blackbox::utils::{extract_basic_info, is_blackbox_file};
use drone_tuner_core::blackbox::{
    BlackboxError, FieldMappings, ParsingConfig, ParsingStats, SessionStrategy,
};
use drone_tuner_core::error::{DronetunerError, ParseErrorContext};

// ---------------------------------------------------------------------------
// Types and defaults
// ---------------------------------------------------------------------------

#[test]
fn test_parsing_stats_default() {
    let stats = ParsingStats::default();
    assert_eq!(stats.total_frames, 0);
    assert_eq!(stats.bytes_processed, 0);
}

#[test]
fn test_field_mappings_default() {
    let mappings = FieldMappings::default();
    assert!(mappings.gyro_indices.is_none());
    assert!(mappings.motor_indices.is_empty());
}

#[test]
fn test_parsing_config_default() {
    let config = ParsingConfig::default();
    assert!(config.max_frames.is_none());
    assert_eq!(config.skip_frames, 0);
    assert!(!config.strict_parsing);
    assert!(config.progress_reporting);
}

#[test]
fn test_blackbox_file_detection() {
    // Valid blackbox header
    let valid_data =
        b"H Product:Blackbox flight data recorder by Nicholas Sherlock\nH Data version:2\n";
    assert!(is_blackbox_file(valid_data));

    // Invalid data
    let invalid_data = b"This is not a blackbox file";
    assert!(!is_blackbox_file(invalid_data));

    // Empty data
    assert!(!is_blackbox_file(&[]));
}

#[test]
fn test_basic_info_extraction() {
    let test_data = b"H Product:Betaflight flight data recorder\nH Firmware revision: Betaflight 4.4.0\nH Blackbox version: 1\nEnd of header\nI frame data...";
    let info = extract_basic_info(test_data).unwrap();

    assert!(info.contains_key("product"));
    assert!(info.get("product").unwrap().contains("Betaflight"));
}

#[test]
fn test_error_conversion() {
    let blackbox_err = BlackboxError::InvalidFormat("test".to_string());
    let drone_err: DronetunerError = DronetunerError::from_blackbox(blackbox_err);

    match drone_err {
        DronetunerError::ParseError { message, .. } => {
            assert!(message.contains("Invalid blackbox format"));
        }
        _ => panic!("Expected ParseError"),
    }
}

#[test]
fn error_conversion_keeps_frame_index_as_position() {
    let err = BlackboxError::DataCorruption { frame_index: 17, details: "bad crc".to_string() };
    match DronetunerError::from_blackbox(err) {
        DronetunerError::ParseError { message, position } => {
            assert_eq!(message, "Data corruption at frame 17: bad crc");
            assert_eq!(position, Some(17));
        }
        _ => panic!("Expected ParseError"),
    }
}

#[test]
fn error_conversion_joins_missing_fields() {
    let err = BlackboxError::MissingFields {
        missing_fields: vec!["gyroADC[0]".to_string(), "motor[0]".to_string()],
    };
    match DronetunerError::from_blackbox(err) {
        DronetunerError::ParseError { message, position } => {
            assert_eq!(message, "Missing required fields: gyroADC[0], motor[0]");
            assert_eq!(position, None);
        }
        _ => panic!("Expected ParseError"),
    }
}

#[test]
fn basic_info_rejects_data_without_header() {
    assert!(extract_basic_info(b"no header here").is_err());
}

// ---------------------------------------------------------------------------
// Frame intervals
// ---------------------------------------------------------------------------

fn effective_rate(intervals: &FrameIntervals, base_rate: f32) -> f32 {
    let frames_in_cycle = intervals.count_expected_frames(0, intervals.frame_interval_i);
    let cycle_duration_s = intervals.frame_interval_i as f32 / base_rate;
    frames_in_cycle as f32 / cycle_duration_s
}

#[test]
fn test_frame_intervals_defaults() {
    let intervals = FrameIntervals::default();
    assert_eq!(intervals.frame_interval_i, 32);
    assert_eq!(intervals.frame_interval_p_num, 1);
    assert_eq!(intervals.frame_interval_p_denom, 1);
}

#[test]
fn test_should_have_frame_logic() {
    let intervals = FrameIntervals::default();
    assert!(intervals.should_have_frame(0));
    assert!(intervals.should_have_frame(1));
    assert!(intervals.should_have_frame(31));
    assert!(intervals.should_have_frame(32));
    assert!(intervals.should_have_frame(33));
    assert!(intervals.should_have_frame(64));

    let intervals_p4 =
        FrameIntervals { frame_interval_i: 32, frame_interval_p_num: 1, frame_interval_p_denom: 4 };
    assert!(intervals_p4.should_have_frame(0));
    assert!(!intervals_p4.should_have_frame(1));
    assert!(!intervals_p4.should_have_frame(2));
    assert!(!intervals_p4.should_have_frame(3));
    assert!(intervals_p4.should_have_frame(4));
    assert!(intervals_p4.should_have_frame(32));
    assert!(intervals_p4.should_have_frame(36));

    let count_32 = intervals_p4.count_expected_frames(0, 32);
    assert_eq!(count_32, 8, "Expected 8 frames in 32-frame cycle with P=1/4, got {}", count_32);
}

#[test]
fn zero_p_numerator_logs_no_p_frames() {
    let intervals =
        FrameIntervals { frame_interval_i: 4, frame_interval_p_num: 0, frame_interval_p_denom: 2 };
    assert!(!intervals.should_have_frame(1));
    assert!(!intervals.should_have_frame(2));
    assert!(!intervals.should_have_frame(3));
    assert_eq!(intervals.count_expected_frames(1, 4), 0);
}

#[test]
fn test_effective_rate_calculation() {
    let intervals =
        FrameIntervals { frame_interval_i: 32, frame_interval_p_num: 1, frame_interval_p_denom: 1 };
    let rate = effective_rate(&intervals, 8000.0);
    assert!((rate - 8000.0).abs() < 0.1, "Expected 8000Hz (all frames), got {}", rate);

    let intervals_p4 =
        FrameIntervals { frame_interval_i: 32, frame_interval_p_num: 1, frame_interval_p_denom: 4 };
    let rate_p4 = effective_rate(&intervals_p4, 8000.0);
    assert!((rate_p4 - 2000.0).abs() < 0.1, "Expected 2000Hz (1/4 frames), got {}", rate_p4);
}

#[test]
fn test_p_interval_parsing() {
    assert_eq!(parse_p_interval_value("P interval:1/4").unwrap(), (1, 4));
    assert_eq!(parse_p_interval_value("P interval:4").unwrap(), (1, 4));
    assert_eq!(parse_p_interval_value("P interval:2/8").unwrap(), (2, 8));
    assert!(parse_p_interval_value("P interval:0/4").is_none());
    assert!(parse_p_interval_value("P interval:1/0").is_none());
    assert!(parse_p_interval_value("P interval:abc").is_none());
}

#[test]
fn i_interval_parsing_accepts_positive_values_only() {
    assert_eq!(parse_i_interval_value("I interval:32"), Some(32));
    assert_eq!(parse_i_interval_value("I interval: 128 "), Some(128));
    assert_eq!(parse_i_interval_value("I interval:0"), None);
    assert_eq!(parse_i_interval_value("I interval:x"), None);
}

#[test]
fn test_frame_interval_extraction() {
    let test_data = b"H Product:Blackbox flight data recorder\nH looptime:125\nH I interval:32\nH P interval:1/4\nH Firmware revision:Betaflight 4.4.0\n";
    let headers = extract_frame_intervals_from_raw_data(test_data);
    assert!(headers.found_intervals, "Should have found interval configuration");
    let intervals = headers.intervals;
    assert_eq!(intervals.frame_interval_i, 32);
    assert_eq!(intervals.frame_interval_p_num, 1);
    assert_eq!(intervals.frame_interval_p_denom, 4);
    let looptime: f32 = headers.looptime_values[0].trim().parse().unwrap();
    let base_rate = 1_000_000.0 / looptime;
    assert!((base_rate - 8000.0).abs() < 0.1);

    let effective = effective_rate(&intervals, base_rate);
    assert!((effective - 2000.0).abs() < 0.1, "Expected 2000Hz, got {}", effective);

    let frames = 30_000u64;
    let duration_s = frames as f32 / effective;
    assert!(
        (duration_s - 15.0).abs() < 0.1,
        "Expected 15s duration for 30k frames, got {:.1}s",
        duration_s
    );
}

#[test]
fn test_frame_counting_with_p_interval() {
    let intervals_p4 =
        FrameIntervals { frame_interval_i: 32, frame_interval_p_num: 1, frame_interval_p_denom: 4 };
    let frames_in_cycle = intervals_p4.count_expected_frames(0, 32);
    assert_eq!(
        frames_in_cycle, 8,
        "Expected 8 frames out of 32 with P=1/4, got {}",
        frames_in_cycle
    );
    let rate = effective_rate(&intervals_p4, 8000.0);
    assert!((rate - 2000.0).abs() < 0.1, "Expected 2000Hz, got {}", rate);
}

#[test]
fn pid_process_denom_is_read_from_headers() {
    let data = b"H Product:Blackbox flight data recorder\nH pid_process_denom:2\nH looptime:125\n";
    assert_eq!(extract_pid_process_denom(data), Some(2));
    assert_eq!(extract_pid_process_denom(b"H Product:Blackbox\n"), None);
}

#[test]
fn full_p_interval_logs_every_frame_of_a_cycle() {
    let intervals =
        FrameIntervals { frame_interval_i: 16, frame_interval_p_num: 3, frame_interval_p_denom: 3 };
    assert_eq!(intervals.count_expected_frames(0, 16), 16);
}

// ---------------------------------------------------------------------------
// Frame-time semantics and event backfilling
// ---------------------------------------------------------------------------

#[test]
fn time_semantics_accepts_drops_and_splits_periods() {
    let mut t = TimeSemantics::new();
    assert_eq!(t.on_time(1_000), FrameAction::AcceptNewPeriod);
    assert_eq!(t.on_time(2_000), FrameAction::AcceptSamePeriod);
    assert_eq!(t.on_time(1_500), FrameAction::Skip);
    assert_eq!(t.on_time(2_000), FrameAction::AcceptSamePeriod);
    // A jump of more than 10 s starts a new period.
    assert_eq!(t.on_time(20_000_000), FrameAction::AcceptNewPeriod);
    assert_eq!(t.best_period(), (Some(1_000), Some(2_000)));
    assert_eq!(t.on_time(21_000_000), FrameAction::AcceptSamePeriod);
    t.finalize_at_end();
    assert_eq!(t.best_period(), (Some(20_000_000), Some(21_000_000)));
}

#[test]
fn backfill_assigns_next_main_frame_time() {
    let mut b = EventBackfiller::new();
    b.on_event_without_time();
    b.on_event_without_time();
    b.on_main_frame_time(500);
    b.on_event_without_time();
    b.finalize_end(Some(900));
    assert_eq!(b.take_times(), vec![Some(500), Some(500), Some(900)]);

    let mut b = EventBackfiller::new();
    b.on_event_without_time();
    b.finalize_end(None);
    assert_eq!(b.take_times(), vec![None]);
}

// ---------------------------------------------------------------------------
// Session scanning and selection
// ---------------------------------------------------------------------------

#[test]
fn session_scan_counts_and_rounds_duration() {
    let mut scan = SessionScan::new(None, ParsingStats::default());
    assert_eq!(scan.on_event(ScanEvent::Event), ScanAction::Ignore);
    assert_eq!(scan.on_event(ScanEvent::Main(1_000)), ScanAction::Extract);
    assert_eq!(scan.on_event(ScanEvent::Main(900)), ScanAction::Skip);
    assert_eq!(scan.on_event(ScanEvent::Slow), ScanAction::Ignore);
    assert_eq!(scan.on_event(ScanEvent::Gps), ScanAction::Ignore);
    assert_eq!(scan.on_event(ScanEvent::Main(1_501_600)), ScanAction::Extract);
    let out = scan.finish();
    assert_eq!(out.main_frame_count, 3);
    assert_eq!(out.stats.total_frames, 3);
    assert_eq!(out.stats.main_frames, 3);
    assert_eq!(out.stats.slow_frames, 1);
    assert_eq!(out.stats.gps_frames, 1);
    assert_eq!(out.stats.event_frames, 1);
    // The event waited for the first main frame.
    assert_eq!(out.event_times, vec![Some(1_000)]);
    // 1 500 600 µs rounds to 1501 ms.
    assert_eq!(out.duration_ms, Some(1_501));
    assert_eq!(out.min_time, Some(1_000));
    assert_eq!(out.max_time, Some(1_501_600));
}

#[test]
fn session_scan_stops_at_frame_limit() {
    let mut scan = SessionScan::new(Some(2), ParsingStats::default());
    assert_eq!(scan.on_event(ScanEvent::Main(10)), ScanAction::Extract);
    assert_eq!(scan.on_event(ScanEvent::Main(20)), ScanAction::ExtractAndStop);
}

#[test]
fn rounding_to_milliseconds_rounds_halves_up() {
    assert_eq!(round_to_ms(0), 0);
    assert_eq!(round_to_ms(499), 0);
    assert_eq!(round_to_ms(500), 1);
    assert_eq!(round_to_ms(1_499), 1);
    assert_eq!(round_to_ms(u64::MAX), 18_446_744_073_709_552);
}

#[test]
fn session_survey_prefers_best_period() {
    let mut s = SessionSurvey::new();
    s.on_main(1_000_000, Some(10));
    s.on_main(3_000_000, Some(20));
    s.on_main(2_000_000, Some(30));
    let (frames, basis) = s.finish();
    assert_eq!(frames, 3);
    assert_eq!(basis, DurationBasis::BestPeriodUs(2_000_000));

    let empty = SessionSurvey::new();
    assert_eq!(empty.finish(), (0, DurationBasis::Frames(0)));
}

#[test]
fn session_selection_follows_config() {
    let mut config = ParsingConfig::default();
    assert_eq!(select_session(&config, 3, 1).unwrap(), 2);
    config.session_strategy = Some(SessionStrategy::First);
    assert_eq!(select_session(&config, 3, 1).unwrap(), 0);
    config.session_strategy = Some(SessionStrategy::Longest);
    assert_eq!(select_session(&config, 3, 1).unwrap(), 1);
    config.selected_session = Some(5);
    match select_session(&config, 3, 1) {
        Err(BlackboxError::Parse(m)) => assert_eq!(
            m,
            "Invalid session index 5. File contains 3 session(s) (valid range: 0-2)"
        ),
        _ => panic!("expected an out-of-range error"),
    }
    let none = ParsingConfig::default();
    assert!(select_session(&none, 0, 0).is_err());
}

#[test]
fn frame_stream_counts_and_stops() {
    let mut s = FrameStream::new(Some(1), 0, false, ParsingStats::default());
    assert_eq!(s.on_item(StreamItem::Event), StreamStep::Continue);
    assert_eq!(s.on_item(StreamItem::Corrupt), StreamStep::Continue);
    assert_eq!(s.on_item(StreamItem::MainFrame), StreamStep::ExtractMain);
    assert_eq!(s.on_item(StreamItem::SlowFrame), StreamStep::Stop);
    assert_eq!(s.stats.event_frames, 1);
    assert_eq!(s.stats.corrupted_frames, 1);
    assert_eq!(s.stats.total_frames, 1);

    let mut strict = FrameStream::new(None, 0, true, ParsingStats::default());
    assert_eq!(strict.on_item(StreamItem::Corrupt), StreamStep::Fail);
}

// ---------------------------------------------------------------------------
// Field mappings
// ---------------------------------------------------------------------------

fn names(v: &[&str]) -> Vec<String> {
    v.iter().map(|s| s.to_string()).collect()
}

#[test]
fn field_mappings_from_betaflight_names() {
    let fields = names(&[
        "loopIteration",
        "time",
        "gyroADC[0]",
        "gyroADC[1]",
        "gyroADC[2]",
        "accSmooth[0]",
        "accSmooth[1]",
        "motor[0]",
        "motor[1]",
        "rcCommand[0]",
        "rcCommand[1]",
        "rcCommand[2]",
        "rcCommand[3]",
    ]);
    let mut m = FieldMappings::default();
    extract_field_mappings(&fields, &mut m);
    assert_eq!(m.iteration_idx, Some(0));
    assert_eq!(m.gyro_indices, Some((2, 3, 4)));
    // Only two accelerometer axes: the channel stays unset.
    assert_eq!(m.accel_indices, None);
    assert_eq!(m.motor_indices, vec![7, 8]);
    assert_eq!(m.rc_command_indices, Some((9, 10, 11, 12)));
}

#[test]
fn iteration_field_name_is_normalized() {
    assert_eq!(classify_field("Loop_Iteration"), FieldRole::Iteration);
    assert_eq!(classify_field("iteration"), FieldRole::Iteration);
    assert_eq!(classify_field("gyroADC[1]"), FieldRole::Gyro(1));
    assert_eq!(classify_field("motor[3]"), FieldRole::Motor);
    assert_eq!(classify_field("gyroadc[1]"), FieldRole::Other);
}

#[test]
fn header_driven_mapping_fills_axes_one_at_a_time() {
    let fields = names(&["gyroUnfilt[1]", "acc[2]", "motor[0]", "rcCommand[3]", "foo"]);
    let m = create_field_mappings(&fields);
    assert_eq!(m.gyro_indices, Some((0, 0, 0)));
    assert_eq!(m.accel_indices, Some((0, 0, 1)));
    assert_eq!(m.motor_indices, vec![2]);
    assert_eq!(m.rc_command_indices, Some((0, 0, 0, 3)));
    assert_eq!(m.iteration_idx, None);
}

#[test]
fn field_names_come_from_field_definition_headers() {
    let entries = vec![
        ("Field I name".to_string(), "x: gyroADC[0] :y".to_string()),
        ("Field I signed".to_string(), "no colon".to_string()),
        ("Firmware".to_string(), "a:b".to_string()),
        ("Field I predictor".to_string(), "p:motor[0]".to_string()),
    ];
    assert_eq!(field_names_from_headers(&entries), names(&["gyroADC[0]", "motor[0]"]));
}

#[test]
fn parse_error_context_describes_what_was_expected() {
    let input: &[u8] = b"abc";
    let ctx = ParseErrorContext::from_error_kind(input);
    assert_eq!(ctx.input, b"abc");
    assert_eq!(ctx.expected, "valid data");
    assert_eq!(ctx.describe(), "Expected valid data at position in data");
    let outer = ParseErrorContext::append(b"xyz", ParseErrorContext { input: b"q", expected: "a digit" });
    assert_eq!(outer.input, b"q");
    assert_eq!(outer.expected, "a digit");
    match DronetunerError::from_parse_context(Some(&outer)) {
        DronetunerError::ParseError { message, position } => {
            assert_eq!(message, "Parse error: Expected a digit at position in data");
            assert_eq!(position, None);
        }
        _ => panic!("expected a parse error"),
    }
    match DronetunerError::from_parse_context(None) {
        DronetunerError::ParseError { message, .. } => assert_eq!(message, "Incomplete data"),
        _ => panic!("expected a parse error"),
    }
}

#[test]
fn nom_errors_become_parse_errors_by_variant() {
    let ctx = ParseErrorContext { input: b"q", expected: "a digit" };
    let expected = "Parse error: Expected a digit at position in data";
    match DronetunerError::from_nom(nom::Err::Error(ctx.clone())) {
        DronetunerError::ParseError { message, position } => {
            assert_eq!(message, expected);
            assert_eq!(position, None);
        }
        _ => panic!("expected a parse error"),
    }
    match DronetunerError::from_nom(nom::Err::Failure(ctx)) {
        DronetunerError::ParseError { message, .. } => assert_eq!(message, expected),
        _ => panic!("expected a parse error"),
    }
    match DronetunerError::from_nom(nom::Err::Incomplete(nom::Needed::Unknown)) {
        DronetunerError::ParseError { message, .. } => assert_eq!(message, "Incomplete data"),
        _ => panic!("expected a parse error"),
    }
}

#[test]
fn communication_error_keeps_its_message() {
    match DronetunerError::communication_error("link lost".to_string()) {
        DronetunerError::CommunicationError { message } => assert_eq!(message, "link lost"),
        _ => panic!("expected a communication error"),
    }
}

#[test]
fn initial_items_are_skipped_uncounted() {
    let mut s = FrameStream::new(Some(1), 2, true, ParsingStats::default());
    assert_eq!(s.on_item(StreamItem::Corrupt), StreamStep::Continue);
    assert_eq!(s.on_item(StreamItem::MainFrame), StreamStep::Continue);
    assert_eq!(s.frame_count, 0);
    assert_eq!(s.stats.total_frames, 0);
    assert_eq!(s.on_item(StreamItem::MainFrame), StreamStep::ExtractMain);
    assert_eq!(s.on_item(StreamItem::MainFrame), StreamStep::Stop);
}
