//! The library's error type. Variants map onto the CLI exit codes:
//! Config → 2, Connectivity → 3, Auth → 4, Plugin → 5, anything else → 1.
use vstd::prelude::*;

verus! {

/// `std::io::Error`, carried opaquely.
#[verifier::external_type_specification]
#[verifier::external_body]
pub struct ExIoError(std::io::Error);

#[derive(Debug)]
pub enum Error {
    Config(String),
    Connectivity(String),
    Auth(String),
    Plugin { plugin: String, message: String },
    SqlParse(String),
    Storage(String),
    Replay(String),
    Evidence(String),
    Io(std::io::Error),
    /// A JSON (de)serialization failure, by its message.
    Serde(String),
    /// A YAML parse failure, by its message.
    Yaml(String),
}

pub open spec fn spec_exit_code(e: &Error) -> i32 {
    match e {
        Error::Config(_) | Error::Yaml(_) => 2,
        Error::Connectivity(_) => 3,
        Error::Auth(_) => 4,
        Error::Plugin { .. } => 5,
        _ => 1,
    }
}

impl Error {
    /// CLI exit code for this error.
    pub fn exit_code(&self) -> (r: i32)
        ensures
            r == spec_exit_code(self),
    {
        match self {
            Error::Config(_) | Error::Yaml(_) => 2,
            Error::Connectivity(_) => 3,
            Error::Auth(_) => 4,
            Error::Plugin { .. } => 5,
            _ => 1,
        }
    }
}

pub type Result<T> = std::result::Result<T, Error>;

} // verus!
