//! The application error type of the dataset-graph service, with its
//! numeric codes, HTTP statuses and detailed reports.

use vstd::prelude::*;
use vstd::string::StringExecFns;

verus! {

/// One application error with its human-readable message.
#[derive(Debug)]
pub enum AppError {
    Database(String),
    Io(String),
    Parse(String),
    Validation(String),
    Configuration(String),
    FileUpload(String),
    TileGeneration(String),
    NotFound(String),
    Internal(String),
}

/// The numeric code of each error kind.
pub open spec fn spec_error_code(e: AppError) -> u16 {
    match e {
        AppError::Database(_) => 5000,
        AppError::Io(_) => 5001,
        AppError::Parse(_) => 5002,
        AppError::Validation(_) => 4000,
        AppError::Configuration(_) => 5003,
        AppError::FileUpload(_) => 5004,
        AppError::TileGeneration(_) => 5005,
        AppError::NotFound(_) => 4004,
        AppError::Internal(_) => 5006,
    }
}

/// The HTTP status of each error kind: validation and parse problems are
/// the caller's fault, a missing resource is not found, everything else is
/// internal.
pub open spec fn spec_http_status(e: AppError) -> u16 {
    match e {
        AppError::Validation(_) => 400,
        AppError::Parse(_) => 400,
        AppError::NotFound(_) => 404,
        _ => 500,
    }
}

/// The message carried inside each variant.
pub open spec fn spec_error_message(e: AppError) -> Seq<char> {
    match e {
        AppError::Database(m) => m@,
        AppError::Io(m) => m@,
        AppError::Parse(m) => m@,
        AppError::Validation(m) => m@,
        AppError::Configuration(m) => m@,
        AppError::FileUpload(m) => m@,
        AppError::TileGeneration(m) => m@,
        AppError::NotFound(m) => m@,
        AppError::Internal(m) => m@,
    }
}

/// The detailed report of each error kind.
pub open spec fn spec_error_detail(e: AppError) -> Seq<char> {
    match e {
        AppError::Database(m) => "DB operation failed: "@ + m@,
        AppError::Io(m) => "File operation failed: "@ + m@,
        AppError::Parse(m) => "Parsing failed: "@ + m@,
        AppError::Validation(m) => "Validation failed: "@ + m@,
        AppError::Configuration(m) => "Configuration error: "@ + m@,
        AppError::FileUpload(m) => "Upload failed: "@ + m@,
        AppError::TileGeneration(m) => "Tile generation failed: "@ + m@,
        AppError::NotFound(m) => "Resource not found: "@ + m@,
        AppError::Internal(m) => "Internal error: "@ + m@,
    }
}

impl AppError {
    /// The numeric application code.
    pub fn code(&self) -> (r: u16)
        ensures
            r == spec_error_code(*self),
    {
        match self {
            AppError::Database(_) => 5000,
            AppError::Io(_) => 5001,
            AppError::Parse(_) => 5002,
            AppError::Validation(_) => 4000,
            AppError::Configuration(_) => 5003,
            AppError::FileUpload(_) => 5004,
            AppError::TileGeneration(_) => 5005,
            AppError::NotFound(_) => 4004,
            AppError::Internal(_) => 5006,
        }
    }

    /// The raw message.
    pub fn message(&self) -> (r: &str)
        ensures
            r@ == spec_error_message(*self),
    {
        match self {
            AppError::Database(m) => m.as_str(),
            AppError::Io(m) => m.as_str(),
            AppError::Parse(m) => m.as_str(),
            AppError::Validation(m) => m.as_str(),
            AppError::Configuration(m) => m.as_str(),
            AppError::FileUpload(m) => m.as_str(),
            AppError::TileGeneration(m) => m.as_str(),
            AppError::NotFound(m) => m.as_str(),
            AppError::Internal(m) => m.as_str(),
        }
    }

    /// The HTTP status this error maps to.
    pub fn http_status(&self) -> (r: u16)
        ensures
            r == spec_http_status(*self),
    {
        match self {
            AppError::Validation(_) => 400,
            AppError::Parse(_) => 400,
            AppError::NotFound(_) => 404,
            AppError::Database(_) => 500,
            AppError::Io(_) => 500,
            AppError::Configuration(_) => 500,
            AppError::FileUpload(_) => 500,
            AppError::TileGeneration(_) => 500,
            AppError::Internal(_) => 500,
        }
    }

    /// The detailed report, always present.
    pub fn detail(&self) -> (r: Option<String>)
        ensures
            r matches Some(d) && d@ == spec_error_detail(*self),
    {
        let d = match self {
            AppError::Database(m) => "DB operation failed: ".to_owned().concat(m.as_str()),
            AppError::Io(m) => "File operation failed: ".to_owned().concat(m.as_str()),
            AppError::Parse(m) => "Parsing failed: ".to_owned().concat(m.as_str()),
            AppError::Validation(m) => "Validation failed: ".to_owned().concat(m.as_str()),
            AppError::Configuration(m) => "Configuration error: ".to_owned().concat(m.as_str()),
            AppError::FileUpload(m) => "Upload failed: ".to_owned().concat(m.as_str()),
            AppError::TileGeneration(m) => "Tile generation failed: ".to_owned().concat(
                m.as_str(),
            ),
            AppError::NotFound(m) => "Resource not found: ".to_owned().concat(m.as_str()),
            AppError::Internal(m) => "Internal error: ".to_owned().concat(m.as_str()),
        };
        Some(d)
    }
}

} // verus!
