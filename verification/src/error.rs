//! The ways a download can fail.

use vstd::prelude::*;

verus! {

/// Every failure is fatal to the run it occurs in; nothing is retried.
#[derive(Clone, Copy, Debug, PartialEq, Eq, Structural)]
pub enum DownloadError {
    /// The link is no absolute URL, or it has no path to take a file name from.
    InvalidUrlError,
    /// A request or the reading of its body failed in transport.
    NetworkError,
    /// The server answered with a status that rules the request out.
    RemoteError(u16),
    /// The answer to the metadata probe carries no content length.
    MissingLengthError,
    /// The content length is not a non-negative decimal number.
    MalformedLengthError,
    /// Fewer than one part was asked for.
    InvalidPartCountError,
    /// The resource is empty, so there is nothing to divide.
    InvalidSizeError,
    /// A local file could not be written or read.
    IOError,
    /// The part with this index was not there when the parts were merged.
    MissingPartError(i64),
}

} // verus!
