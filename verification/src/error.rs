//! Errors.
use vstd::prelude::*;

use crate::text::{decimal, decimal_string, texts};

verus! {

/// An input or output error of the standard library.
#[verifier::external_type_specification]
#[verifier::external_body]
pub struct ExIoError(std::io::Error);

/// An error of the JSON parser.
#[verifier::external_type_specification]
#[verifier::external_body]
pub struct ExJsonError(serde_json::Error);

/// An error in a glob pattern.
#[verifier::external_type_specification]
#[verifier::external_body]
pub struct ExGlobError(globset::Error);

/// An error in a regular expression.
#[verifier::external_type_specification]
#[verifier::external_body]
pub struct ExRegexError(regex::Error);

/// Why a run failed.
#[derive(Debug)]
#[allow(inconsistent_fields)]
pub enum AppError {
    /// A rule of this library was broken.
    Message(String),
    /// A file could not be read, written or found.
    Io(std::io::Error),
    /// The configuration is not the JSON that is expected.
    Json(serde_json::Error),
    /// An ignore pattern is no glob.
    Glob { pattern: String, source: globset::Error },
    /// A pattern is no regular expression.
    Regex { pattern: String, source: regex::Error },
    /// Files without the license were found.
    CheckFailed { count: usize, missing: Vec<String> },
}

/// What a contract says of an error: its kind and its texts.
pub enum Fault {
    Message(Seq<char>),
    Io,
    Json,
    Glob(Seq<char>),
    Regex(Seq<char>),
    CheckFailed(nat, Seq<Seq<char>>),
}

impl View for AppError {
    type V = Fault;

    open spec fn view(&self) -> Fault {
        match self {
            AppError::Message(text) => Fault::Message(text@),
            AppError::Io(_) => Fault::Io,
            AppError::Json(_) => Fault::Json,
            AppError::Glob { pattern, .. } => Fault::Glob(pattern@),
            AppError::Regex { pattern, .. } => Fault::Regex(pattern@),
            AppError::CheckFailed { count, missing } => Fault::CheckFailed(
                *count as nat,
                texts(missing@),
            ),
        }
    }
}

/// What a contract says of a result: the value, or the fault.
pub open spec fn outcome<T>(result: Result<T, AppError>) -> Result<T, Fault> {
    match result {
        Ok(value) => Ok(value),
        Err(error) => Err(error@),
    }
}

/// What a contract says of a result that is a text.
pub open spec fn text_outcome(result: Result<String, AppError>) -> Result<Seq<char>, Fault> {
    match result {
        Ok(text) => Ok(text@),
        Err(error) => Err(error@),
    }
}

/// The line that tells a user of a fault. `cause` is the text of the error
/// that an input, JSON, glob or regex error was made from.
pub open spec fn fault_text(fault: Fault, cause: Seq<char>) -> Seq<char> {
    match fault {
        Fault::Message(text) => text,
        Fault::Io => "I/O error: "@ + cause,
        Fault::Json => "Invalid JSON: "@ + cause,
        Fault::Glob(pattern) => "Invalid glob pattern `"@ + pattern + "`: "@ + cause,
        Fault::Regex(pattern) => "Invalid regex `"@ + pattern + "`: "@ + cause,
        Fault::CheckFailed(count, _) => "License check failed. "@ + decimal(count)
            + " file(s) did not have the license."@,
    }
}

impl AppError {
    /// The line that tells a user of the error. `cause` is the text of the
    /// wrapped error, where there is one.
    pub fn message(&self, cause: &str) -> (text: String)
        ensures
            text@ == fault_text(self@, cause@),
    {
        match self {
            AppError::Message(text) => text.clone(),
            AppError::Io(_) => "I/O error: ".to_owned().concat(cause),
            AppError::Json(_) => "Invalid JSON: ".to_owned().concat(cause),
            AppError::Glob { pattern, .. } => "Invalid glob pattern `".to_owned().concat(
                pattern.as_str(),
            ).concat("`: ").concat(cause),
            AppError::Regex { pattern, .. } => "Invalid regex `".to_owned().concat(
                pattern.as_str(),
            ).concat("`: ").concat(cause),
            AppError::CheckFailed { count, .. } => "License check failed. ".to_owned().concat(
                decimal_string(*count as u128).as_str(),
            ).concat(" file(s) did not have the license."),
        }
    }
}

// ---- Laws ----

/// What the user is told of a fault: the message as it is; the cause of a fault
/// that another error caused, behind what the fault is and the pattern it is
/// in; and how many files a failed check found.
pub proof fn what_a_fault_says(
    cause: Seq<char>,
    text: Seq<char>,
    missing: Seq<Seq<char>>,
    count: nat,
)
    ensures
        fault_text(Fault::Message(text), cause) == text,
        fault_text(Fault::Io, cause) == "I/O error: "@ + cause,
        fault_text(Fault::Json, cause) == "Invalid JSON: "@ + cause,
        fault_text(Fault::Glob(text), cause) == "Invalid glob pattern `"@ + text + "`: "@ + cause,
        fault_text(Fault::Regex(text), cause) == "Invalid regex `"@ + text + "`: "@ + cause,
        fault_text(Fault::CheckFailed(count, missing), cause) == "License check failed. "@
            + decimal(count) + " file(s) did not have the license."@,
{
}

} // verus!
