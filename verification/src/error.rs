//! The crate's error type and its wire representation.

use vstd::prelude::*;
use vstd::string::StringExecFns;

verus! {

/// Everything that can go wrong in the dashboard's file commands.
#[derive(Debug, Clone)]
pub enum AppError {
    /// The user's home directory could not be determined.
    HomeNotFound,
    /// The configuration directory does not exist.
    ConfigDirNotFound,
    /// The path lies outside the configuration directory.
    AccessDenied(String),
    /// No file at the given path.
    FileNotFound(String),
    /// A file already exists at the given path.
    FileAlreadyExists(String),
    /// A file operation failed.
    IoError(String),
    /// An archive operation failed.
    ZipError(String),
    /// A path could not be handled.
    PathError(String),
    /// A time computation failed.
    TimeError(String),
    /// The file's extension is not an editable kind.
    InvalidFileType(String),
}

/// Result alias of the command surface: failures travel as plain text.
pub type AppResult<T> = Result<T, String>;

/// The stable machine-readable code of each error.
pub open spec fn spec_code(e: AppError) -> Seq<char> {
    match e {
        AppError::HomeNotFound => "HOME_NOT_FOUND"@,
        AppError::ConfigDirNotFound => "CONFIG_DIR_NOT_FOUND"@,
        AppError::AccessDenied(_) => "ACCESS_DENIED"@,
        AppError::FileNotFound(_) => "FILE_NOT_FOUND"@,
        AppError::FileAlreadyExists(_) => "FILE_ALREADY_EXISTS"@,
        AppError::IoError(_) => "IO_ERROR"@,
        AppError::ZipError(_) => "ZIP_ERROR"@,
        AppError::PathError(_) => "PATH_ERROR"@,
        AppError::TimeError(_) => "TIME_ERROR"@,
        AppError::InvalidFileType(_) => "INVALID_FILE_TYPE"@,
    }
}

/// The human-readable message of each error.
pub open spec fn spec_message(e: AppError) -> Seq<char> {
    match e {
        AppError::HomeNotFound => "Could not find home directory"@,
        AppError::ConfigDirNotFound => "~/.dashboard directory not found"@,
        AppError::AccessDenied(m) => "Access denied: "@ + m@,
        AppError::FileNotFound(p) => "File not found: "@ + p@,
        AppError::FileAlreadyExists(p) => "File already exists: "@ + p@
            + ". Use write_file to update existing files."@,
        AppError::IoError(m) => m@,
        AppError::ZipError(m) => m@,
        AppError::PathError(m) => m@,
        AppError::TimeError(m) => m@,
        AppError::InvalidFileType(x) => "Invalid file type: "@ + x@
            + ". Only .md, .json, .jsonl are allowed"@,
    }
}

impl AppError {
    /// Render the error's message.
    pub fn message(&self) -> (r: String)
        ensures
            r@ == spec_message(*self),
    {
        match self {
            AppError::HomeNotFound => String::from_str("Could not find home directory"),
            AppError::ConfigDirNotFound => String::from_str("~/.dashboard directory not found"),
            AppError::AccessDenied(m) => {
                let mut s = String::from_str("Access denied: ");
                s.append(m.as_str());
                s
            },
            AppError::FileNotFound(p) => {
                let mut s = String::from_str("File not found: ");
                s.append(p.as_str());
                s
            },
            AppError::FileAlreadyExists(p) => {
                let mut s = String::from_str("File already exists: ");
                s.append(p.as_str());
                s.append(". Use write_file to update existing files.");
                s
            },
            AppError::IoError(m) => m.clone(),
            AppError::ZipError(m) => m.clone(),
            AppError::PathError(m) => m.clone(),
            AppError::TimeError(m) => m.clone(),
            AppError::InvalidFileType(x) => {
                let mut s = String::from_str("Invalid file type: ");
                s.append(x.as_str());
                s.append(". Only .md, .json, .jsonl are allowed");
                s
            },
        }
    }

    /// Render the error's stable code.
    pub fn code(&self) -> (r: String)
        ensures
            r@ == spec_code(*self),
    {
        match self {
            AppError::HomeNotFound => String::from_str("HOME_NOT_FOUND"),
            AppError::ConfigDirNotFound => String::from_str("CONFIG_DIR_NOT_FOUND"),
            AppError::AccessDenied(_) => String::from_str("ACCESS_DENIED"),
            AppError::FileNotFound(_) => String::from_str("FILE_NOT_FOUND"),
            AppError::FileAlreadyExists(_) => String::from_str("FILE_ALREADY_EXISTS"),
            AppError::IoError(_) => String::from_str("IO_ERROR"),
            AppError::ZipError(_) => String::from_str("ZIP_ERROR"),
            AppError::PathError(_) => String::from_str("PATH_ERROR"),
            AppError::TimeError(_) => String::from_str("TIME_ERROR"),
            AppError::InvalidFileType(_) => String::from_str("INVALID_FILE_TYPE"),
        }
    }
}

/// An error as delivered to the user interface: a stable code and the
/// rendered message.
#[derive(Debug, Clone)]
pub struct ErrorResponse {
    pub code: String,
    pub message: String,
}

impl ErrorResponse {
    /// Build the wire form of an error.
    pub fn from_error(e: &AppError) -> (r: ErrorResponse)
        ensures
            r.code@ == spec_code(*e),
            r.message@ == spec_message(*e),
    {
        ErrorResponse { code: e.code(), message: e.message() }
    }
}

} // verus!
