//! The errors a request can end in.

use vstd::prelude::*;

verus! {

/// A failure reported by the platform's transport, carried without interpretation.
#[derive(Debug, PartialEq, Eq)]
pub struct NativeError {
    /// The platform's numeric code for the failure, where it gives one.
    pub code: Option<i64>,
    /// The platform's own words for the failure.
    pub description: String,
}

/// Why a request did not produce what was asked of it.
#[derive(Debug, PartialEq, Eq)]
#[non_exhaustive]
pub enum Error {
    /// The text is not a URL; it is carried as it was given.
    InvalidURL(String),
    /// The platform's transport failed.
    PlatformError(NativeError),
    /// The status code lies outside the success class.
    StatusCode(u16),
}

impl Clone for NativeError {
    fn clone(&self) -> (copy: Self)
        ensures
            copy == *self,
    {
        NativeError { code: self.code, description: self.description.clone() }
    }
}

impl Clone for Error {
    fn clone(&self) -> (copy: Self)
        ensures
            copy == *self,
    {
        match self {
            Error::InvalidURL(url) => Error::InvalidURL(url.clone()),
            Error::PlatformError(native) => Error::PlatformError(native.clone()),
            Error::StatusCode(status) => Error::StatusCode(*status),
        }
    }
}

impl Error {
    /// Wraps a transport failure, unchanged, as an error of this library.
    pub fn from_native(native: NativeError) -> (e: Error)
        ensures
            e == Error::PlatformError(native),
    {
        Error::PlatformError(native)
    }
}

} // verus!
