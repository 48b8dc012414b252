use drone_tuner_core::blackbox::reader::{
    log_config, read_selected_session, scan_events, survey_events, survey_sessions, LogEvent,
};
use drone_tuner_core::blackbox::session::DurationBasis;
use drone_tuner_core::blackbox::{BlackboxError, ParsingConfig, ParsingStats, SessionStrategy};

fn main_at(time_us: u64) -> LogEvent {
    LogEvent::Main { time_us, iteration: None }
}

#[test]
fn survey_counts_dropped_frames_and_uses_best_period() {
    let events = vec![
        main_at(1_000),
        LogEvent::Slow,
        LogEvent::Main { time_us: 2_000, iteration: Some(5) },
        main_at(1_500),
        LogEvent::Event,
        main_at(3_000),
    ];
    let (frames, basis) = survey_events(&events);
    assert_eq!(frames, 4);
    assert_eq!(basis, DurationBasis::BestPeriodUs(2_000));
}

#[test]
fn survey_of_log_without_main_frames_falls_back_to_frame_count() {
    assert_eq!(survey_events(&vec![]), (0, DurationBasis::Frames(0)));
    assert_eq!(survey_events(&vec![LogEvent::Gps, LogEvent::Event]), (0, DurationBasis::Frames(0)));
}

#[test]
fn survey_keeps_the_longest_period_across_a_time_jump() {
    let events = vec![main_at(0), main_at(1_000_000), main_at(20_000_000), main_at(20_500_000)];
    assert_eq!(survey_events(&events), (4, DurationBasis::BestPeriodUs(1_000_000)));
}

#[test]
fn scan_stops_after_the_frame_reaching_the_limit() {
    let events = vec![
        main_at(1_000),
        LogEvent::Slow,
        main_at(2_600),
        LogEvent::Gps,
        main_at(3_000),
        LogEvent::Event,
    ];
    let (report, read) = scan_events(&events, Some(2), ParsingStats::default());
    assert_eq!(read, 3);
    assert_eq!(report.main_frame_count, 2);
    assert_eq!(report.extracted, vec![0, 1]);
    assert_eq!(report.stats.main_frames, 2);
    assert_eq!(report.stats.slow_frames, 1);
    assert_eq!(report.stats.gps_frames, 0);
    assert_eq!(report.stats.total_frames, 2);
    assert_eq!(report.min_time, Some(1_000));
    assert_eq!(report.max_time, Some(2_600));
    assert_eq!(report.duration_ms, Some(2));
}

#[test]
fn scan_drops_frames_going_back_in_time() {
    let events = vec![main_at(5_000), main_at(4_000), LogEvent::Event, main_at(6_000)];
    let (report, read) = scan_events(&events, None, ParsingStats::default());
    assert_eq!(read, 4);
    assert_eq!(report.main_frame_count, 3);
    assert_eq!(report.extracted, vec![0, 2]);
    assert_eq!(report.stats.event_frames, 1);
    assert_eq!(report.min_time, Some(5_000));
    assert_eq!(report.max_time, Some(6_000));
    assert_eq!(report.duration_ms, Some(1));
}

#[test]
fn scan_with_zero_limit_extracts_the_first_accepted_frame() {
    let events = vec![main_at(10), main_at(20)];
    let (report, read) = scan_events(&events, Some(0), ParsingStats::default());
    assert_eq!(read, 1);
    assert_eq!(report.extracted, vec![0]);
}

#[test]
fn scan_adds_to_earlier_statistics() {
    let mut stats = ParsingStats::default();
    stats.main_frames = 5;
    stats.bytes_processed = 77;
    let (report, _) = scan_events(&vec![main_at(1), LogEvent::Slow], None, stats);
    assert_eq!(report.stats.main_frames, 6);
    assert_eq!(report.stats.slow_frames, 1);
    assert_eq!(report.stats.bytes_processed, 77);
    assert_eq!(report.stats.total_frames, 1);
}

#[test]
fn scan_without_main_frames_has_no_length() {
    let (report, read) = scan_events(&vec![LogEvent::Slow, LogEvent::Event], Some(3), ParsingStats::default());
    assert_eq!(read, 2);
    assert_eq!(report.main_frame_count, 0);
    assert_eq!(report.duration_ms, None);
    assert!(report.extracted.is_empty());
}

#[test]
fn data_without_logs_has_no_sessions_and_no_configuration() {
    let data = b"This is not a blackbox file";
    assert!(survey_sessions(data).is_empty());
    assert!(log_config(data).is_none());
}

#[test]
fn selecting_a_session_in_a_file_without_sessions_fails() {
    let config = ParsingConfig::default();
    match read_selected_session(b"no logs here", &config, 0, 0, ParsingStats::default()) {
        Err(BlackboxError::Parse(m)) => assert_eq!(
            m,
            "Invalid session index 0. File contains 0 session(s) (valid range: 0-0)"
        ),
        other => panic!("unexpected result: {:?}", other.is_ok()),
    }
}

#[test]
fn selected_session_missing_from_the_file_reads_nothing() {
    let mut config = ParsingConfig::default();
    config.session_strategy = Some(SessionStrategy::First);
    let res = read_selected_session(b"no logs here", &config, 1, 0, ParsingStats::default());
    assert!(matches!(res, Ok(None)));
}

fn push_unsigned(out: &mut Vec<u8>, mut v: u32) {
    while v >= 0x80 {
        out.push((v as u8 & 0x7f) | 0x80);
        v >>= 7;
    }
    out.push(v as u8);
}

/// The header lines of a small Betaflight log.
fn log_header_lines() -> Vec<u8> {
    let headers = "H Product:Blackbox flight data recorder by Nicholas Sherlock\n\
H Data version:2\n\
H I interval:32\n\
H Field I name:loopIteration,time,gyroADC[0],gyroADC[1],gyroADC[2]\n\
H Field I signed:0,0,1,1,1\n\
H Field I predictor:0,0,0,0,0\n\
H Field I encoding:1,1,0,0,0\n\
H Field P predictor:6,2,1,1,1\n\
H Field P encoding:9,0,0,0,0\n\
H Field S name:flightModeFlags\n\
H Field S signed:0\n\
H Field S predictor:0\n\
H Field S encoding:1\n\
H Firmware type:Cleanflight\n\
H Firmware revision:Betaflight 4.4.0 (8d4f005) STM32F7X2\n\
H Board information:SPBE STM32F7X2\n\
H motor_pwm_protocol:0\n\
H rollPID:45,80,30\n";
    headers.as_bytes().to_vec()
}

fn push_intra(data: &mut Vec<u8>, iteration: u32, time: u32) {
    data.push(b'I');
    push_unsigned(data, iteration);
    push_unsigned(data, time);
    data.extend_from_slice(&[0, 0, 0]);
}

/// A one-session Betaflight log: four intra frames (the third one going
/// back in time) and a slow frame.
fn small_log() -> Vec<u8> {
    let mut data = log_header_lines();
    push_intra(&mut data, 0, 1_000);
    push_intra(&mut data, 32, 2_600);
    data.push(b'S');
    push_unsigned(&mut data, 0);
    push_intra(&mut data, 64, 1_500);
    push_intra(&mut data, 96, 3_000);
    data
}

#[test]
fn survey_of_a_real_log_reads_its_frames() {
    let data = small_log();
    let sessions = survey_sessions(&data);
    assert_eq!(sessions.len(), 1);
    assert_eq!(sessions[0].index, 0);
    assert_eq!(sessions[0].main_frames, 4);
    assert_eq!(sessions[0].basis, DurationBasis::BestPeriodUs(2_000));
}

#[test]
fn selected_session_of_a_real_log_is_scanned() {
    let data = small_log();
    let config = ParsingConfig::default();
    let read = match read_selected_session(&data, &config, 1, 0, ParsingStats::default()) {
        Ok(Some(r)) => r,
        _ => panic!("expected the session to be read"),
    };
    assert_eq!(read.index, 0);
    assert_eq!(read.field_names, vec!["loopIteration", "gyroADC[0]", "gyroADC[1]", "gyroADC[2]"]);
    assert_eq!(read.mappings.gyro_indices, Some((1, 2, 3)));
    assert_eq!(read.mappings.iteration_idx, Some(0));
    assert_eq!(read.report.main_frame_count, 4);
    assert_eq!(read.report.extracted, vec![0, 1, 3]);
    assert_eq!(read.report.stats.main_frames, 4);
    assert_eq!(read.report.stats.slow_frames, 1);
    assert_eq!(read.report.stats.total_frames, 4);
    assert_eq!(read.report.min_time, Some(1_000));
    assert_eq!(read.report.max_time, Some(3_000));
    assert_eq!(read.report.duration_ms, Some(2));
}

#[test]
fn frame_limit_stops_the_scan_of_a_real_log() {
    let data = small_log();
    let mut config = ParsingConfig::default();
    config.max_frames = Some(2);
    match read_selected_session(&data, &config, 1, 0, ParsingStats::default()) {
        Ok(Some(r)) => {
            assert_eq!(r.report.extracted, vec![0, 1]);
            assert_eq!(r.report.main_frame_count, 2);
            assert_eq!(r.report.stats.slow_frames, 0);
        }
        _ => panic!("expected the session to be read"),
    }
}

#[test]
fn configuration_headers_of_a_real_log() {
    let data = small_log();
    let config = log_config(&data).expect("headers should parse");
    let headers = &config.headers;
    assert_eq!(headers.get("rollPID").map(|s| s.as_str()), Some("45,80,30"));
    assert_eq!(headers.get("I interval").map(|s| s.as_str()), Some("32"));
    assert!(headers.get("Firmware revision").is_none());
    assert_eq!(headers.len(), 2);
}

#[test]
fn reading_stops_after_the_largest_loop_iteration() {
    let mut data = log_header_lines();
    push_intra(&mut data, u32::MAX, 1_000);
    data.push(b'P');
    data.extend_from_slice(&[2, 0, 0, 0]);
    let sessions = survey_sessions(&data);
    assert_eq!(sessions.len(), 1);
    assert_eq!(sessions[0].main_frames, 1);
    let config = ParsingConfig::default();
    match read_selected_session(&data, &config, 1, 0, ParsingStats::default()) {
        Ok(Some(r)) => {
            assert_eq!(r.report.main_frame_count, 1);
            assert_eq!(r.report.extracted, vec![0]);
        }
        _ => panic!("expected the session to be read"),
    }
}
