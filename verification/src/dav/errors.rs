//! Turning a failed call to the other device into the status line the bridge
//! answers with.

use crate::core_errors::{OpError, RpcError};
use vstd::prelude::*;

verus! {

/// The status for a failed `stat`, `list` or `read`.
pub open spec fn read_status(error: RpcError) -> Seq<char> {
    match error {
        RpcError::Remote(OpError::NotFound) => "404 Not Found"@,
        RpcError::Remote(OpError::PermissionDenied) => "503 Service Unavailable"@,
        RpcError::Remote(_) => "500 Internal Server Error"@,
        _ => "503 Service Unavailable"@,
    }
}

/// Whether a failed `stat`, `list` or `read` means that its connection must
/// not be used again. None of these three is refused by the other device for
/// a reason of its own, so being refused means that it went away.
pub open spec fn read_breaks(error: RpcError) -> bool {
    match error {
        RpcError::Remote(OpError::PermissionDenied) => true,
        RpcError::Remote(_) => false,
        _ => true,
    }
}

/// What to answer for one failed read of the other device, and whether its
/// connection should be dropped rather than used again.
pub fn map_rpc_error(error: &RpcError) -> (answer: (&'static str, bool))
    ensures
        answer.0@ == read_status(*error),
        answer.1 == read_breaks(*error),
{
    match error {
        RpcError::Remote(OpError::NotFound) => ("404 Not Found", false),
        RpcError::Remote(OpError::PermissionDenied) => ("503 Service Unavailable", true),
        RpcError::Remote(_) => ("500 Internal Server Error", false),
        _ => ("503 Service Unavailable", true),
    }
}

/// The status for a failed write. Here a refusal is what it says: the folder
/// is not writable.
pub open spec fn write_status(error: RpcError) -> Seq<char> {
    match error {
        RpcError::Remote(OpError::NotFound) => "404 Not Found"@,
        RpcError::Remote(OpError::PermissionDenied) => "403 Forbidden"@,
        RpcError::Remote(OpError::AlreadyExists) => "405 Method Not Allowed"@,
        RpcError::Remote(OpError::NotADirectory) => "409 Conflict"@,
        RpcError::Remote(OpError::IsADirectory) => "409 Conflict"@,
        RpcError::Remote(OpError::NotEmpty) => "409 Conflict"@,
        RpcError::Remote(OpError::Unsupported) => "502 Bad Gateway"@,
        RpcError::Remote(OpError::RangeTooLarge) => "500 Internal Server Error"@,
        RpcError::Remote(OpError::Internal) => "500 Internal Server Error"@,
        _ => "503 Service Unavailable"@,
    }
}

/// Whether a failed write means that its connection must not be used again.
pub open spec fn write_breaks(error: RpcError) -> bool {
    match error {
        RpcError::Remote(OpError::InvalidPath) => true,
        RpcError::Remote(_) => false,
        _ => true,
    }
}

/// What to answer for one failed write to the other device, and whether its
/// connection should be dropped rather than used again.
pub fn map_write_error(error: &RpcError) -> (answer: (&'static str, bool))
    ensures
        answer.0@ == write_status(*error),
        answer.1 == write_breaks(*error),
{
    match error {
        RpcError::Remote(OpError::NotFound) => ("404 Not Found", false),
        RpcError::Remote(OpError::PermissionDenied) => ("403 Forbidden", false),
        RpcError::Remote(OpError::AlreadyExists) => ("405 Method Not Allowed", false),
        RpcError::Remote(OpError::NotADirectory) => ("409 Conflict", false),
        RpcError::Remote(OpError::IsADirectory) => ("409 Conflict", false),
        RpcError::Remote(OpError::NotEmpty) => ("409 Conflict", false),
        RpcError::Remote(OpError::Unsupported) => ("502 Bad Gateway", false),
        RpcError::Remote(OpError::RangeTooLarge) => ("500 Internal Server Error", false),
        RpcError::Remote(OpError::Internal) => ("500 Internal Server Error", false),
        _ => ("503 Service Unavailable", true),
    }
}

/// A connection is kept after an answer of the other device that says why,
/// and dropped after anything else.
pub proof fn lemma_broken_connection_is_dropped(error: RpcError)
    requires
        !(error is Remote),
    ensures
        read_breaks(error),
        write_breaks(error),
        read_status(error) == "503 Service Unavailable"@,
        write_status(error) == "503 Service Unavailable"@,
{
}

/// A read is answered with nothing found exactly where the other device found
/// nothing, and with an error of the server's own for nothing but a refusal
/// that it gave.
pub proof fn lemma_read_errors_are_told(error: &RpcError, answer: (&'static str, bool))
    requires
        call_ensures(map_rpc_error, (error,), answer),
    ensures
        answer.0@ == "404 Not Found"@ <==> *error == RpcError::Remote(OpError::NotFound),
        answer.0@ == "503 Service Unavailable"@ <==> !(*error is Remote) || *error
            == RpcError::Remote(OpError::PermissionDenied),
        answer.0@ == "404 Not Found"@ || answer.0@ == "503 Service Unavailable"@ || answer.0@
            == "500 Internal Server Error"@,
        answer.1 <==> answer.0@ == "503 Service Unavailable"@,
{
    reveal_strlit("404 Not Found");
    assert("404 Not Found"@[0] == '4' && "404 Not Found"@[1] == '0' && "404 Not Found"@[2] == '4');
    reveal_strlit("503 Service Unavailable");
    assert("503 Service Unavailable"@[0] == '5' && "503 Service Unavailable"@[1] == '0' && "503 Service Unavailable"@[2] == '3');
    reveal_strlit("500 Internal Server Error");
    assert("500 Internal Server Error"@[0] == '5' && "500 Internal Server Error"@[1] == '0' && "500 Internal Server Error"@[2] == '0');
}

/// Each refusal of a write has the status that HTTP has for it, and a broken
/// connection has none of them.
pub proof fn lemma_write_errors_are_told(error: &RpcError, answer: (&'static str, bool))
    requires
        call_ensures(map_write_error, (error,), answer),
    ensures
        answer.0@ == "404 Not Found"@ <==> *error == RpcError::Remote(OpError::NotFound),
        answer.0@ == "403 Forbidden"@ <==> *error == RpcError::Remote(OpError::PermissionDenied),
        answer.0@ == "405 Method Not Allowed"@ <==> *error == RpcError::Remote(
            OpError::AlreadyExists,
        ),
        answer.0@ == "409 Conflict"@ <==> *error == RpcError::Remote(OpError::NotADirectory)
            || *error == RpcError::Remote(OpError::IsADirectory) || *error == RpcError::Remote(
            OpError::NotEmpty,
        ),
        answer.0@ == "502 Bad Gateway"@ <==> *error == RpcError::Remote(OpError::Unsupported),
        !(*error is Remote) ==> answer.1 && answer.0@ == "503 Service Unavailable"@,
        answer.1 <==> answer.0@ == "503 Service Unavailable"@,
{
    reveal_strlit("404 Not Found");
    assert("404 Not Found"@[0] == '4' && "404 Not Found"@[1] == '0' && "404 Not Found"@[2] == '4');
    reveal_strlit("403 Forbidden");
    assert("403 Forbidden"@[0] == '4' && "403 Forbidden"@[1] == '0' && "403 Forbidden"@[2] == '3');
    reveal_strlit("405 Method Not Allowed");
    assert("405 Method Not Allowed"@[0] == '4' && "405 Method Not Allowed"@[1] == '0' && "405 Method Not Allowed"@[2] == '5');
    reveal_strlit("409 Conflict");
    assert("409 Conflict"@[0] == '4' && "409 Conflict"@[1] == '0' && "409 Conflict"@[2] == '9');
    reveal_strlit("502 Bad Gateway");
    assert("502 Bad Gateway"@[0] == '5' && "502 Bad Gateway"@[1] == '0' && "502 Bad Gateway"@[2] == '2');
    reveal_strlit("500 Internal Server Error");
    assert("500 Internal Server Error"@[0] == '5' && "500 Internal Server Error"@[1] == '0' && "500 Internal Server Error"@[2] == '0');
    reveal_strlit("503 Service Unavailable");
    assert("503 Service Unavailable"@[0] == '5' && "503 Service Unavailable"@[1] == '0' && "503 Service Unavailable"@[2] == '3');
}

} // verus!
