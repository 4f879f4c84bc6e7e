use vstd::prelude::*;

use crate::text::{decode_utf8_lossy, push_char, utf8_lossy};

verus! {

/// The ways the library refuses its input.
#[derive(Debug)]
pub enum SweepyError {
    /// The `--older-than` value is empty.
    EmptyOlderThan,
    /// The `--older-than` value ends in a digit, so it names no time unit.
    MissingTimeUnit { value: String },
    /// The `--older-than` value ends in a character that is not a time unit.
    UnexpectedTimeUnit { unit: char, value: String },
    /// The `--older-than` value has a time unit but no valid number before it.
    InvalidNumber { value: String },
    /// The workspace path, given by its bytes, does not exist.
    PathDoesNotExist { path: Vec<u8> },
    /// The workspace path, given by its bytes, exists but is not a directory.
    PathNotDirectory { path: Vec<u8> },
}

/// A `SweepyError` with its strings taken as character sequences.
pub enum ErrorView {
    EmptyOlderThan,
    MissingTimeUnit(Seq<char>),
    UnexpectedTimeUnit(char, Seq<char>),
    InvalidNumber(Seq<char>),
    PathDoesNotExist(Seq<u8>),
    PathNotDirectory(Seq<u8>),
}

impl View for SweepyError {
    type V = ErrorView;

    open spec fn view(&self) -> ErrorView {
        match self {
            SweepyError::EmptyOlderThan => ErrorView::EmptyOlderThan,
            SweepyError::MissingTimeUnit { value } => ErrorView::MissingTimeUnit(value@),
            SweepyError::UnexpectedTimeUnit { unit, value } => ErrorView::UnexpectedTimeUnit(
                *unit,
                value@,
            ),
            SweepyError::InvalidNumber { value } => ErrorView::InvalidNumber(value@),
            SweepyError::PathDoesNotExist { path } => ErrorView::PathDoesNotExist(path@),
            SweepyError::PathNotDirectory { path } => ErrorView::PathNotDirectory(path@),
        }
    }
}

/// The text that describes an error to the user.
pub open spec fn message_of(e: ErrorView) -> Seq<char> {
    match e {
        ErrorView::EmptyOlderThan => "older_than value is empty"@,
        ErrorView::MissingTimeUnit(v) => "No time unit provided in '"@ + v
            + "': expected d, m or y"@,
        ErrorView::UnexpectedTimeUnit(u, v) => "Unexpected time unit '"@ + seq![u] + "' in '"@
            + v + "': expected d, m or y"@,
        ErrorView::InvalidNumber(v) => "Invalid number in '"@ + v
            + "': expected format like 180d, 6m, 2y"@,
        ErrorView::PathDoesNotExist(p) => "Path does not exists: "@ + utf8_lossy(p),
        ErrorView::PathNotDirectory(p) => "Path is not a directory: "@ + utf8_lossy(p),
    }
}

impl SweepyError {
    /// Describes the error to the user.
    pub fn message(&self) -> (m: String)
        ensures
            m@ == message_of(self@),
    {
        let mut m = String::new();
        match self {
            SweepyError::EmptyOlderThan => {
                m.append("older_than value is empty");
            },
            SweepyError::MissingTimeUnit { value } => {
                m.append("No time unit provided in '");
                m.append(value.as_str());
                m.append("': expected d, m or y");
            },
            SweepyError::UnexpectedTimeUnit { unit, value } => {
                m.append("Unexpected time unit '");
                push_char(&mut m, *unit);
                m.append("' in '");
                m.append(value.as_str());
                m.append("': expected d, m or y");
            },
            SweepyError::InvalidNumber { value } => {
                m.append("Invalid number in '");
                m.append(value.as_str());
                m.append("': expected format like 180d, 6m, 2y");
            },
            SweepyError::PathDoesNotExist { path } => {
                m.append("Path does not exists: ");
                let shown = decode_utf8_lossy(path.as_slice());
                m.append(shown.as_str());
            },
            SweepyError::PathNotDirectory { path } => {
                m.append("Path is not a directory: ");
                let shown = decode_utf8_lossy(path.as_slice());
                m.append(shown.as_str());
            },
        }
        m
    }
}

} // verus!
