//! The error kinds a transfer can end with. Every kind is terminal for the
//! operation it occurs in; nothing is retried.

use vstd::prelude::*;

verus! {

/// Why a transfer failed.
#[derive(Clone, Copy, Debug, PartialEq, Eq, Structural)]
pub enum DownloadError {
    /// A probe or fetch response had a non-success status.
    RequestFailed,
    /// The probe response carried no content length that reads as a
    /// non-negative integer.
    LengthUnavailable,
    /// An I/O failure while a response body was streamed.
    TransportError,
    /// A create, seek, write or delete failure on the destination file.
    FileError,
}

impl DownloadError {
    /// A short description of the error, for the caller's diagnostics.
    pub fn message(&self) -> (r: &'static str)
        ensures
            self is RequestFailed ==> r@ == "request fail"@,
            self is LengthUnavailable ==> r@ == "get length fail"@,
            self is TransportError ==> r@ == "download file error"@,
            self is FileError ==> r@ == "download file error"@,
    {
        match self {
            DownloadError::RequestFailed => "request fail",
            DownloadError::LengthUnavailable => "get length fail",
            DownloadError::TransportError => "download file error",
            DownloadError::FileError => "download file error",
        }
    }
}

} // verus!
