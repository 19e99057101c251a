//! The classes of HTTP status codes that the download tells apart.

use vstd::prelude::*;

verus! {

/// The status is a success: 200 to 299.
pub open spec fn is_success(status: u16) -> bool {
    200 <= status < 300
}

/// The status blames the request: 400 to 499.
pub open spec fn is_client_error(status: u16) -> bool {
    400 <= status < 500
}

/// The status blames the server: 500 to 599.
pub open spec fn is_server_error(status: u16) -> bool {
    500 <= status < 600
}

/// Whether `status` is a success.
pub fn status_is_success(status: u16) -> (yes: bool)
    ensures
        yes == is_success(status),
{
    200 <= status && status < 300
}

/// Whether `status` blames the request.
pub fn status_is_client_error(status: u16) -> (yes: bool)
    ensures
        yes == is_client_error(status),
{
    400 <= status && status < 500
}

/// Whether `status` blames the server.
pub fn status_is_server_error(status: u16) -> (yes: bool)
    ensures
        yes == is_server_error(status),
{
    500 <= status && status < 600
}

} // verus!
