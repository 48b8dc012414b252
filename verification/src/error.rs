//! Error types of the library.

use crate::text::{chars_of, concat, string_of};
use vstd::prelude::*;

verus! {

/// `std::io::Error`, carried through the library's error values.
#[verifier::external_type_specification]
#[verifier::external_body]
pub struct ExIoError(std::io::Error);

/// `serde_json::Error`, carried through the library's error values.
#[verifier::external_type_specification]
#[verifier::external_body]
pub struct ExJsonError(serde_json::Error);

/// `nom::Needed`, how much more input an incomplete nom parse wanted.
#[verifier::external_type_specification]
#[verifier::external_body]
pub struct ExNomNeeded(nom::Needed);

/// `nom::Err`, the error of a nom parser: incomplete input, or a
/// recoverable error or failure carrying the parser's error value. Its
/// variants are public and visible to Verus.
#[verifier::external_type_specification]
#[verifier::reject_recursive_types(E)]
pub struct ExNomErr<E>(nom::Err<E>);

/// Main error type for all drone tuner operations.
#[derive(Debug)]
pub enum DronetunerError {
    /// Blackbox parsing errors
    ParseError {
        /// Description of the parsing error
        message: String,
        /// Optional position in the data where the error occurred
        position: Option<usize>,
    },
    /// Analysis computation errors
    AnalysisError {
        /// Description of the analysis error
        message: String,
    },
    /// I/O related errors
    IoError(std::io::Error),
    /// Serialization errors
    SerializationError(serde_json::Error),
    /// Invalid configuration or parameters
    ConfigError {
        /// Description of the configuration error
        message: String,
    },
    /// Real-time communication errors
    CommunicationError {
        /// Description of the communication error
        message: String,
    },
    /// Data validation errors
    ValidationError {
        /// Description of the validation error
        message: String,
    },
}

/// Whether `e` is a parse error with the given message text and position.
pub open spec fn is_parse_error(e: DronetunerError, message: Seq<char>, position: Option<usize>) -> bool {
    e matches DronetunerError::ParseError { message: m, position: p } && m@ == message && p
        == position
}

impl DronetunerError {
    /// Creates a new parse error with a message and optional position.
    pub fn parse_error(message: String, position: Option<usize>) -> (res: Self)
        ensures
            is_parse_error(res, message@, position),
    {
        DronetunerError::ParseError { message, position }
    }

    /// Creates a new analysis error with a message.
    pub fn analysis_error(message: String) -> (res: Self)
        ensures
            res matches DronetunerError::AnalysisError { message: m } && m@ == message@,
    {
        DronetunerError::AnalysisError { message }
    }

    /// Creates a new configuration error with a message.
    pub fn config_error(message: String) -> (res: Self)
        ensures
            res matches DronetunerError::ConfigError { message: m } && m@ == message@,
    {
        DronetunerError::ConfigError { message }
    }

    /// Creates a new validation error with a message.
    pub fn validation_error(message: String) -> (res: Self)
        ensures
            res matches DronetunerError::ValidationError { message: m } && m@ == message@,
    {
        DronetunerError::ValidationError { message }
    }

    /// Creates a new communication error with a message.
    pub fn communication_error(message: String) -> (res: Self)
        ensures
            res matches DronetunerError::CommunicationError { message: m } && m@ == message@,
    {
        DronetunerError::CommunicationError { message }
    }
}

/// Error context for byte-level parsers: where parsing stopped and what was
/// expected there.
#[derive(Debug, Clone)]
pub struct ParseErrorContext<'a> {
    /// Input data where the error occurred
    pub input: &'a [u8],
    /// Description of what was expected
    pub expected: &'static str,
}

impl<'a> ParseErrorContext<'a> {
    /// The context recorded for a failure at `input`: "valid data" was expected.
    pub fn from_error_kind(input: &'a [u8]) -> (res: Self)
        ensures
            res.input@ == input@,
            res.expected@ == "valid data"@,
    {
        ParseErrorContext { input, expected: "valid data" }
    }

    /// Combining a context with an outer one keeps the inner context.
    pub fn append(_input: &'a [u8], other: Self) -> (res: Self)
        ensures
            res.input@ == other.input@,
            res.expected@ == other.expected@,
    {
        other
    }

    /// The human-readable description: `Expected {expected} at position in data`.
    pub fn describe(&self) -> (res: String)
        ensures
            res@ == "Expected "@ + self.expected@ + " at position in data"@,
    {
        let a = chars_of("Expected ");
        let b = chars_of(self.expected);
        let c = chars_of(" at position in data");
        let ab = concat(&a, &b);
        let abc = concat(&ab, &c);
        string_of(&abc)
    }
}

/// The message a nom error becomes: `Incomplete data` without a context,
/// `Parse error: ` and the context's description with one.
pub open spec fn parse_context_message(expected: Option<Seq<char>>) -> Seq<char> {
    match expected {
        None => "Incomplete data"@,
        Some(e) => "Parse error: "@ + "Expected "@ + e + " at position in data"@,
    }
}

impl DronetunerError {
    /// The parse error for a nom error's context (none when the input was
    /// incomplete).
    pub fn from_parse_context(ctx: Option<&ParseErrorContext>) -> (res: Self)
        ensures
            is_parse_error(
                res,
                parse_context_message(
                    match ctx {
                        Some(c) => Some(c.expected@),
                        None => None,
                    },
                ),
                None,
            ),
    {
        match ctx {
            None => DronetunerError::parse_error("Incomplete data".to_string(), None),
            Some(c) => {
                let d = c.describe();
                let m = concat(&chars_of("Parse error: "), &chars_of(d.as_str()));
                assert(m@ =~= parse_context_message(Some(c.expected@)));
                DronetunerError::parse_error(string_of(&m), None)
            },
        }
    }

    /// Converts a nom parse error into a parse error of the main error type:
    /// `Incomplete data` for incomplete input, `Parse error: ` and the
    /// context's description for an error or a failure.
    pub fn from_nom(err: nom::Err<ParseErrorContext>) -> (res: Self)
        ensures
            is_parse_error(
                res,
                parse_context_message(
                    match err {
                        nom::Err::Incomplete(_) => None,
                        nom::Err::Error(c) => Some(c.expected@),
                        nom::Err::Failure(c) => Some(c.expected@),
                    },
                ),
                None,
            ),
    {
        match err {
            nom::Err::Incomplete(_) => Self::from_parse_context(None),
            nom::Err::Error(c) => Self::from_parse_context(Some(&c)),
            nom::Err::Failure(c) => Self::from_parse_context(Some(&c)),
        }
    }
}

} // verus!
