//! The ways in which a download run fails.

use vstd::prelude::*;

verus! {

/// The standard library's I/O error: carried in `TaError::Io`, never looked
/// into.
#[verifier::external_type_specification]
#[verifier::external_body]
pub struct ExIoError(std::io::Error);

/// The `curl` crate's transfer error: carried in `TaError::Curl`, never looked
/// into.
#[verifier::external_type_specification]
#[verifier::external_body]
pub struct ExCurlError(curl::Error);

/// Why a run was given up.
#[derive(Debug)]
pub enum TaError {
    /// Reading or writing a file failed.
    Io(std::io::Error),
    /// The transfer itself failed.
    Curl(curl::Error),
    /// The transfer ended with a response code outside 200 to 399.
    DownloadFailed(u32),
    /// A text that should be a hash is not sixty-four hexadecimal digits.
    BadHashFormat,
}

impl From<std::io::Error> for TaError {
    fn from(err: std::io::Error) -> (e: TaError) {
        TaError::Io(err)
    }
}

impl vstd::std_specs::convert::FromSpecImpl<std::io::Error> for TaError {
    open spec fn obeys_from_spec() -> bool {
        true
    }

    open spec fn from_spec(err: std::io::Error) -> TaError {
        TaError::Io(err)
    }
}

impl From<curl::Error> for TaError {
    fn from(err: curl::Error) -> (e: TaError) {
        TaError::Curl(err)
    }
}

impl vstd::std_specs::convert::FromSpecImpl<curl::Error> for TaError {
    open spec fn obeys_from_spec() -> bool {
        true
    }

    open spec fn from_spec(err: curl::Error) -> TaError {
        TaError::Curl(err)
    }
}

} // verus!
