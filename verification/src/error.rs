//! Errors of the tool and the process exit code that each one maps to.

use vstd::prelude::*;

verus! {

/// `std::io::Error`, carried as it is.
#[verifier::external_type_specification]
#[verifier::external_body]
pub struct ExIoError(std::io::Error);

/// Any error of the tool.
#[derive(Debug)]
pub enum Error {
    Config(ConfigError),
    File(FileError),
    Parser(ParserError),
    Export(ExportError),
    Update(UpdateError),
    Io(std::io::Error),
    /// The user interrupted the run (Ctrl+C).
    Interrupted,
}

#[derive(Debug)]
pub enum UpdateError {
    UpdateFailed(String),
    CheckFailed(String),
}

#[derive(Debug)]
pub enum ConfigError {
    NotFound(String),
    ParseFailed { path: String, reason: String },
    InvalidLogLevel { level: String, valid_levels: Vec<String> },
    InvalidValue { field: String, value: String, reason: String },
    NoExporters,
}

#[derive(Debug)]
pub enum FileError {
    AlreadyExists { path: String },
    WriteFailed { path: String, reason: String },
    CreateDirectoryFailed { path: String, reason: String },
}

#[derive(Debug)]
pub enum ParserError {
    PathNotFound { path: String },
    InvalidPath { path: String, reason: String },
    ReadDirFailed { path: String, reason: String },
}

#[derive(Debug)]
pub enum ExportError {
    /// Writing an output file failed.
    WriteFailed { path: String, reason: String },
    /// A database operation failed.
    DatabaseFailed { reason: String },
}

/// Exit code of a configuration error.
pub const EXIT_CONFIG: i32 = 2;
/// Exit code of an input, file or parse error.
pub const EXIT_IO: i32 = 3;
/// Exit code of an export error.
pub const EXIT_EXPORT: i32 = 4;
/// Exit code of a run interrupted by the user (128 + SIGINT).
pub const EXIT_INTERRUPTED: i32 = 130;

/// The exit code for an error.
pub open spec fn spec_exit_code(e: Error) -> i32 {
    match e {
        Error::Config(_) => EXIT_CONFIG,
        Error::File(_) | Error::Parser(_) | Error::Io(_) => EXIT_IO,
        Error::Export(_) => EXIT_EXPORT,
        Error::Interrupted => EXIT_INTERRUPTED,
        Error::Update(_) => 1,
    }
}

/// The process exit code for an error: 2 for configuration errors, 3 for
/// input, file, parse and I/O errors, 4 for export errors, 130 for an
/// interrupted run and 1 for update errors.
pub fn exit_code_for(e: &Error) -> (code: i32)
    ensures
        code == spec_exit_code(*e),
{
    match e {
        Error::Config(_) => EXIT_CONFIG,
        Error::File(_) | Error::Parser(_) | Error::Io(_) => EXIT_IO,
        Error::Export(_) => EXIT_EXPORT,
        Error::Interrupted => EXIT_INTERRUPTED,
        Error::Update(_) => 1,
    }
}

} // verus!
