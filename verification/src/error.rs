//! Errors raised while building or loading infrastructure configuration.

use vstd::prelude::*;
use vstd::string::*;
use crate::text::owned;

verus! {

/// An I/O error of the standard library, carried through unchanged.
#[verifier::external_type_specification]
#[verifier::external_body]
pub struct ExIoError(std::io::Error);

/// Result type for infrastructure configuration operations.
pub type Result<T> = std::result::Result<T, InfraError>;

/// Infrastructure configuration errors.
#[derive(Debug)]
pub enum InfraError {
    /// Configuration validation failed
    Validation(String),
    /// Missing required configuration field
    MissingField(String),
    /// Invalid configuration value
    InvalidValue { field: String, reason: String },
    /// I/O error during configuration loading
    Io(std::io::Error),
    /// TOML parsing error
    TomlParse(String),
    /// Path error
    Path(String),
}

/// The text the standard library gives for an I/O error (`Display`).
///
/// The text depends on the operating system's error descriptions, so nothing
/// is stated of it.
#[verifier::external_body]
fn io_error_text(e: &std::io::Error) -> String {
    format!("{}", e)
}

impl InfraError {
    /// Create a validation error carrying `msg`.
    pub fn validation(msg: &str) -> (r: Self)
        ensures
            r matches InfraError::Validation(m) && m@ == msg@,
    {
        InfraError::Validation(owned(msg))
    }

    /// Create a missing-field error naming `field`.
    pub fn missing(field: &str) -> (r: Self)
        ensures
            r matches InfraError::MissingField(f) && f@ == field@,
    {
        InfraError::MissingField(owned(field))
    }

    /// Create an invalid-value error for `field` with the given `reason`.
    pub fn invalid(field: &str, reason: &str) -> (r: Self)
        ensures
            r matches InfraError::InvalidValue { field: f, reason: why } && f@ == field@ && why@
                == reason@,
    {
        InfraError::InvalidValue { field: owned(field), reason: owned(reason) }
    }

    /// The human-readable message of this error.
    pub fn message(&self) -> (r: String)
        ensures
            match self {
                InfraError::Validation(m) => r@ == "validation error: "@ + m@,
                InfraError::MissingField(f) => r@ == "missing required field: "@ + f@,
                InfraError::InvalidValue { field, reason } => r@ == "invalid "@ + field@ + ": "@
                    + reason@,
                InfraError::Io(_) => exists|t: Seq<char>| r@ == "io error: "@ + t,
                InfraError::TomlParse(m) => r@ == "toml parse error: "@ + m@,
                InfraError::Path(m) => r@ == "path error: "@ + m@,
            },
    {
        match self {
            InfraError::Validation(m) => {
                let mut s = owned("validation error: ");
                s.append(m.as_str());
                s
            },
            InfraError::MissingField(f) => {
                let mut s = owned("missing required field: ");
                s.append(f.as_str());
                s
            },
            InfraError::InvalidValue { field, reason } => {
                let mut s = owned("invalid ");
                s.append(field.as_str());
                s.append(": ");
                s.append(reason.as_str());
                s
            },
            InfraError::Io(e) => {
                let t = io_error_text(e);
                let mut s = owned("io error: ");
                s.append(t.as_str());
                s
            },
            InfraError::TomlParse(m) => {
                let mut s = owned("toml parse error: ");
                s.append(m.as_str());
                s
            },
            InfraError::Path(m) => {
                let mut s = owned("path error: ");
                s.append(m.as_str());
                s
            },
        }
    }
}

/// An I/O error becomes an `Io` error carrying it.
impl From<std::io::Error> for InfraError {
    fn from(e: std::io::Error) -> (r: Self) {
        InfraError::Io(e)
    }
}

impl vstd::std_specs::convert::FromSpecImpl<std::io::Error> for InfraError {
    open spec fn obeys_from_spec() -> bool {
        true
    }

    open spec fn from_spec(e: std::io::Error) -> Self {
        InfraError::Io(e)
    }
}

} // verus!
