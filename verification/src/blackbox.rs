//! Blackbox log types: parsing configuration, statistics, field mappings and
//! errors, together with the header utilities and the integer side of the
//! log decoders.

use crate::error::{is_parse_error, DronetunerError};
use crate::text::{chars_of, concat, decimal, decimal_spec, starts_with_spec, string_of};
use vstd::prelude::*;

pub mod config;
pub mod fields;
pub mod intervals;
pub mod legacy;
pub mod reader;
pub mod session;
pub mod stream;
pub mod timing;
pub mod utils;

verus! {

/// Strategy for selecting which session to analyze in multi-session blackbox files
#[derive(Debug, Clone, Copy, PartialEq, Eq, Structural)]
pub enum SessionStrategy {
    /// Use the last session (most recent flight)
    Last,
    /// Use the first session
    First,
    /// Use the longest session (by estimated duration)
    Longest,
}

/// Statistics collected during parsing
#[derive(Debug, Clone, Copy, PartialEq, Eq, Structural)]
pub struct ParsingStats {
    /// Total frames parsed
    pub total_frames: u64,
    /// Number of main frames
    pub main_frames: u64,
    /// Number of slow frames
    pub slow_frames: u64,
    /// Number of GPS frames
    pub gps_frames: u64,
    /// Number of event frames
    pub event_frames: u64,
    /// Number of corrupted frames skipped
    pub corrupted_frames: u64,
    /// Total bytes processed
    pub bytes_processed: usize,
    /// Parsing duration in milliseconds
    pub parse_duration_ms: u64,
}

/// All counters at zero.
pub open spec fn zero_stats() -> ParsingStats {
    ParsingStats {
        total_frames: 0,
        main_frames: 0,
        slow_frames: 0,
        gps_frames: 0,
        event_frames: 0,
        corrupted_frames: 0,
        bytes_processed: 0,
        parse_duration_ms: 0,
    }
}

impl Default for ParsingStats {
    fn default() -> (res: Self)
        ensures
            res == zero_stats(),
    {
        ParsingStats {
            total_frames: 0,
            main_frames: 0,
            slow_frames: 0,
            gps_frames: 0,
            event_frames: 0,
            corrupted_frames: 0,
            bytes_processed: 0,
            parse_duration_ms: 0,
        }
    }
}

/// Field mappings from blackbox log to our domain model
#[derive(Debug, Clone)]
pub struct FieldMappings {
    /// Gyro field indices
    pub gyro_indices: Option<(usize, usize, usize)>,
    /// Accelerometer field indices
    pub accel_indices: Option<(usize, usize, usize)>,
    /// Motor output field indices
    pub motor_indices: Vec<usize>,
    /// RC command field indices (roll, pitch, yaw, throttle)
    pub rc_command_indices: Option<(usize, usize, usize, usize)>,
    /// PID error field indices
    pub pid_error_indices: Option<(usize, usize, usize)>,
    /// PID output field indices
    pub pid_output_indices: Option<(usize, usize, usize)>,
    /// Setpoint field indices
    pub setpoint_indices: Option<(usize, usize, usize)>,
    /// Iteration field index (fallback for duration calculation)
    pub iteration_idx: Option<usize>,
}

impl Default for FieldMappings {
    fn default() -> (res: Self)
        ensures
            res.gyro_indices is None,
            res.accel_indices is None,
            res.motor_indices@.len() == 0,
            res.rc_command_indices is None,
            res.pid_error_indices is None,
            res.pid_output_indices is None,
            res.setpoint_indices is None,
            res.iteration_idx is None,
    {
        FieldMappings {
            gyro_indices: None,
            accel_indices: None,
            motor_indices: Vec::new(),
            rc_command_indices: None,
            pid_error_indices: None,
            pid_output_indices: None,
            setpoint_indices: None,
            iteration_idx: None,
        }
    }
}

/// Configuration for blackbox parsing
#[derive(Debug, Clone, Copy, PartialEq, Eq, Structural)]
pub struct ParsingConfig {
    /// Maximum number of frames to parse (None for all)
    pub max_frames: Option<u64>,
    /// Skip frames at the beginning
    pub skip_frames: u64,
    /// Enable strict parsing (fail on any error)
    pub strict_parsing: bool,
    /// Enable progress reporting
    pub progress_reporting: bool,
    /// Progress reporting interval in frames
    pub progress_interval: u64,
    /// Selected session to analyze (0-based index, None for first session)
    pub selected_session: Option<usize>,
    /// List all sessions instead of analyzing (for session discovery)
    pub list_sessions_only: bool,
    /// Optional strategy for selecting a session when `selected_session` is not provided
    pub session_strategy: Option<SessionStrategy>,
}

/// The default parsing configuration.
pub open spec fn default_parsing_config() -> ParsingConfig {
    ParsingConfig {
        max_frames: None,
        skip_frames: 0,
        strict_parsing: false,
        progress_reporting: true,
        progress_interval: 1000,
        selected_session: None,
        list_sessions_only: false,
        session_strategy: Some(SessionStrategy::Last),
    }
}

impl Default for ParsingConfig {
    fn default() -> (res: Self)
        ensures
            res == default_parsing_config(),
    {
        ParsingConfig {
            max_frames: None,
            skip_frames: 0,
            strict_parsing: false,
            progress_reporting: true,
            progress_interval: 1000,
            selected_session: None,
            list_sessions_only: false,
            session_strategy: Some(SessionStrategy::Last),
        }
    }
}

/// High-level error types for blackbox parsing
#[derive(Debug)]
pub enum BlackboxError {
    /// Invalid or unrecognized blackbox file format
    InvalidFormat(String),
    /// Blackbox version is not supported by this parser
    UnsupportedVersion(String),
    /// Required fields are missing from the blackbox data
    MissingFields {
        /// List of missing field names
        missing_fields: Vec<String>,
    },
    /// Data corruption detected during parsing
    DataCorruption {
        /// Frame index where corruption was detected
        frame_index: u64,
        /// Details about the corruption
        details: String,
    },
    /// I/O error occurred during file operations
    Io(std::io::Error),
    /// Generic parsing error
    Parse(String),
}

/// `parts` joined with `sep` between consecutive parts.
pub open spec fn join_spec(parts: Seq<Seq<char>>, sep: Seq<char>) -> Seq<char>
    decreases parts.len(),
{
    if parts.len() == 0 {
        Seq::empty()
    } else if parts.len() == 1 {
        parts[0]
    } else {
        join_spec(parts.drop_last(), sep) + sep + parts.last()
    }
}

/// `[String]::join`.
pub fn join_strings(parts: &Vec<String>, sep: &str) -> (res: Vec<char>)
    ensures
        res@ == join_spec(parts@.map_values(|p: String| p@), sep@),
{
    let ghost views = parts@.map_values(|p: String| p@);
    let sep_chars = chars_of(sep);
    let mut res: Vec<char> = Vec::new();
    let mut i: usize = 0;
    while i < parts.len()
        invariant
            0 <= i <= parts@.len(),
            views == parts@.map_values(|p: String| p@),
            sep_chars@ == sep@,
            res@ == join_spec(views.take(i as int), sep@),
        decreases parts@.len() - i,
    {
        let part = chars_of(parts[i].as_str());
        assert(views.take(i + 1).drop_last() =~= views.take(i as int));
        if i == 0 {
            res = part;
            assert(views.take(1) =~= seq![views[0]]);
        } else {
            let with_sep = concat(&res, &sep_chars);
            res = concat(&with_sep, &part);
        }
        i = i + 1;
    }
    assert(views.take(parts@.len() as int) =~= views);
    res
}

/// The message a blackbox error carries into the main error type.
pub open spec fn blackbox_error_message(err: BlackboxError) -> Seq<char> {
    match err {
        BlackboxError::InvalidFormat(msg) => "Invalid blackbox format: "@ + msg@,
        BlackboxError::UnsupportedVersion(v) => "Unsupported blackbox version: "@ + v@,
        BlackboxError::MissingFields { missing_fields } => "Missing required fields: "@
            + join_spec(missing_fields@.map_values(|p: String| p@), ", "@),
        BlackboxError::DataCorruption { frame_index, details } => "Data corruption at frame "@
            + decimal_spec(frame_index as nat) + ": "@ + details@,
        BlackboxError::Io(_) => "IO error: "@,
        BlackboxError::Parse(p) => "Parsing error: "@ + p@,
    }
}

impl DronetunerError {
    /// Converts a blackbox error into a parse error of the main error type.
    ///
    /// The message is the variant's description followed by its payload;
    /// a corruption error keeps its frame index as the position. For an I/O
    /// error the message is `"IO error: "` followed by the error's display
    /// text, which depends on the platform and is not stated here.
    pub fn from_blackbox(err: BlackboxError) -> (res: Self)
        ensures
            !(err is Io) ==> is_parse_error(
                res,
                blackbox_error_message(err),
                match err {
                    BlackboxError::DataCorruption { frame_index, .. } => Some(
                        frame_index as usize,
                    ),
                    _ => None,
                },
            ),
            err is Io ==> (res matches DronetunerError::ParseError { message, position }
                && position is None && starts_with_spec(message@, "IO error: "@)),
    {
        match err {
            BlackboxError::InvalidFormat(msg) => {
                let m = concat(&chars_of("Invalid blackbox format: "), &chars_of(msg.as_str()));
                DronetunerError::parse_error(string_of(&m), None)
            },
            BlackboxError::UnsupportedVersion(version) => {
                let m = concat(
                    &chars_of("Unsupported blackbox version: "),
                    &chars_of(version.as_str()),
                );
                DronetunerError::parse_error(string_of(&m), None)
            },
            BlackboxError::MissingFields { missing_fields } => {
                let joined = join_strings(&missing_fields, ", ");
                let m = concat(&chars_of("Missing required fields: "), &joined);
                DronetunerError::parse_error(string_of(&m), None)
            },
            BlackboxError::DataCorruption { frame_index, details } => {
                let a = concat(&chars_of("Data corruption at frame "), &decimal(frame_index));
                let b = concat(&a, &chars_of(": "));
                let m = concat(&b, &chars_of(details.as_str()));
                DronetunerError::parse_error(string_of(&m), Some(frame_index as usize))
            },
            BlackboxError::Io(io_err) => {
                let text = io_err.to_string();
                let prefix = chars_of("IO error: ");
                let m = concat(&prefix, &chars_of(text.as_str()));
                assert(m@.take(prefix@.len() as int) =~= prefix@);
                DronetunerError::parse_error(string_of(&m), None)
            },
            BlackboxError::Parse(parse_err) => {
                let m = concat(&chars_of("Parsing error: "), &chars_of(parse_err.as_str()));
                DronetunerError::parse_error(string_of(&m), None)
            },
        }
    }
}

} // verus!
