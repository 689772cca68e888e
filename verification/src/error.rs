//! The error taxonomy of the package format: a missing path, a directory
//! that is not a package, a malformed manifest, a failed integrity check,
//! and an underlying I/O failure reported by the caller's environment.

use vstd::prelude::*;

verus! {

#[derive(Debug, PartialEq, Eq)]
pub enum PvkrError {
    FileNotFound(String),
    NotAPvkrPackage(String),
    InvalidPvkrPackage(String),
    ValidationError(String),
    IOError(String),
}

pub type PvkrResult<T> = Result<T, PvkrError>;

impl PvkrError {
    pub fn validation_error<T>(msg: &str) -> (r: PvkrResult<T>)
        ensures
            r matches Err(PvkrError::ValidationError(m)) && m@ == msg@,
    {
        Err(PvkrError::ValidationError(msg.to_owned()))
    }

    pub fn file_not_found<T>(msg: &str) -> (r: PvkrResult<T>)
        ensures
            r matches Err(PvkrError::FileNotFound(m)) && m@ == msg@,
    {
        Err(PvkrError::FileNotFound(msg.to_owned()))
    }

    pub fn not_a_pvkr_package<T>(msg: &str) -> (r: PvkrResult<T>)
        ensures
            r matches Err(PvkrError::NotAPvkrPackage(m)) && m@ == msg@,
    {
        Err(PvkrError::NotAPvkrPackage(msg.to_owned()))
    }

    pub fn invalid_pvkr_package<T>(msg: &str) -> (r: PvkrResult<T>)
        ensures
            r matches Err(PvkrError::InvalidPvkrPackage(m)) && m@ == msg@,
    {
        Err(PvkrError::InvalidPvkrPackage(msg.to_owned()))
    }
}

} // verus!
