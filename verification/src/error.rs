//! The failures the updater reports.

use vstd::prelude::*;
use vstd::string::StringExecFns;

verus! {

/// The operating system's I/O error. The library never looks inside one: it
/// only carries it from the place where an operation failed to the outcome of
/// the batch.
#[verifier::external_type_specification]
#[verifier::external_body]
pub struct ExIoError(std::io::Error);

/// Everything that can stop the updater.
#[derive(Debug)]
pub enum SpindleSpeedUpdaterError {
    /// Reading, writing or inspecting a file failed.
    Io(std::io::Error),
    /// The directory to scan could not be determined.
    NoParentDirectory,
    /// The shared progress counter could not be accessed.
    ProgressLockFailure(String),
    /// The requested speed is not a number in the accepted range.
    InvalidSpindleSpeed(String),
    /// A backup copy could not be made.
    BackupFailure(String),
    /// A cancellation request could not be delivered.
    CancelError(String),
    /// A file holds no line that starts with `S`.
    NoSpindleCommand,
}

/// Calls `to_string` on a `std::io::Error`, which gives the text that the
/// error displays. The text comes from the operating system and differs
/// between machines, so nothing is claimed of it.
#[verifier::external_body]
fn io_error_text(error: &std::io::Error) -> (text: String) {
    error.to_string()
}

impl SpindleSpeedUpdaterError {
    /// The fixed part of the message, which stands before the detail.
    pub open spec fn prefix(&self) -> Seq<char> {
        match self {
            SpindleSpeedUpdaterError::Io(_) => "IO error: "@,
            SpindleSpeedUpdaterError::NoParentDirectory => "No parent directory found"@,
            SpindleSpeedUpdaterError::ProgressLockFailure(_) => "Failed to lock progress: "@,
            SpindleSpeedUpdaterError::InvalidSpindleSpeed(_) => "Invalid spindle speed: "@,
            SpindleSpeedUpdaterError::BackupFailure(_) => "Backup failure: "@,
            SpindleSpeedUpdaterError::CancelError(_) => "Operation cancelled: "@,
            SpindleSpeedUpdaterError::NoSpindleCommand => "Invalid spindle speed: "@,
        }
    }

    /// Whether `text` is the message of this error: the prefix of the
    /// variant followed by its detail. For an I/O error the detail is the
    /// system's own text, of which only its place after the prefix is stated.
    pub open spec fn has_message(&self, text: Seq<char>) -> bool {
        match self {
            SpindleSpeedUpdaterError::Io(_) => self.prefix().is_prefix_of(text),
            SpindleSpeedUpdaterError::NoParentDirectory => text == self.prefix(),
            SpindleSpeedUpdaterError::ProgressLockFailure(detail) => text == self.prefix()
                + detail@,
            SpindleSpeedUpdaterError::InvalidSpindleSpeed(detail) => text == self.prefix()
                + detail@,
            SpindleSpeedUpdaterError::BackupFailure(detail) => text == self.prefix() + detail@,
            SpindleSpeedUpdaterError::CancelError(detail) => text == self.prefix() + detail@,
            SpindleSpeedUpdaterError::NoSpindleCommand => text == self.prefix()
                + "No S command found in file"@,
        }
    }

    /// The message shown to the user.
    pub fn message(&self) -> (text: String)
        ensures
            self.has_message(text@),
    {
        match self {
            SpindleSpeedUpdaterError::Io(error) => {
                let detail = io_error_text(error);
                String::from_str("IO error: ").concat(detail.as_str())
            },
            SpindleSpeedUpdaterError::NoParentDirectory => String::from_str(
                "No parent directory found",
            ),
            SpindleSpeedUpdaterError::ProgressLockFailure(detail) => String::from_str(
                "Failed to lock progress: ",
            ).concat(detail.as_str()),
            SpindleSpeedUpdaterError::InvalidSpindleSpeed(detail) => String::from_str(
                "Invalid spindle speed: ",
            ).concat(detail.as_str()),
            SpindleSpeedUpdaterError::BackupFailure(detail) => String::from_str(
                "Backup failure: ",
            ).concat(detail.as_str()),
            SpindleSpeedUpdaterError::CancelError(detail) => String::from_str(
                "Operation cancelled: ",
            ).concat(detail.as_str()),
            SpindleSpeedUpdaterError::NoSpindleCommand => String::from_str(
                "Invalid spindle speed: ",
            ).concat("No S command found in file"),
        }
    }
}

impl From<std::io::Error> for SpindleSpeedUpdaterError {
    /// A failed file operation is an `Io` error.
    fn from(error: std::io::Error) -> (res: Self) {
        SpindleSpeedUpdaterError::Io(error)
    }
}

impl vstd::std_specs::convert::FromSpecImpl<std::io::Error> for SpindleSpeedUpdaterError {
    open spec fn obeys_from_spec() -> bool {
        true
    }

    open spec fn from_spec(error: std::io::Error) -> Self {
        SpindleSpeedUpdaterError::Io(error)
    }
}

impl From<String> for SpindleSpeedUpdaterError {
    /// A bare text stands for a refused speed.
    fn from(s: String) -> (res: Self) {
        SpindleSpeedUpdaterError::InvalidSpindleSpeed(s)
    }
}

impl vstd::std_specs::convert::FromSpecImpl<String> for SpindleSpeedUpdaterError {
    open spec fn obeys_from_spec() -> bool {
        true
    }

    open spec fn from_spec(s: String) -> Self {
        SpindleSpeedUpdaterError::InvalidSpindleSpeed(s)
    }
}

impl From<SpindleSpeedUpdaterError> for String {
    /// An error turns into its message.
    fn from(error: SpindleSpeedUpdaterError) -> (text: Self)
        ensures
            error.has_message(text@),
    {
        error.message()
    }
}

impl vstd::std_specs::convert::FromSpecImpl<SpindleSpeedUpdaterError> for String {
    /// The message of an I/O error is not fixed by the error alone, so the
    /// conversion is described by `has_message` and not by a function.
    open spec fn obeys_from_spec() -> bool {
        false
    }

    open spec fn from_spec(error: SpindleSpeedUpdaterError) -> Self {
        arbitrary()
    }
}

} // verus!
