//! Status-line helpers shared by the demo servers built on the runtime.

use vstd::prelude::*;

verus! {

/// Request methods the demo servers route on.
#[derive(Clone, Copy, Debug, PartialEq, Eq, Hash, Structural)]
pub enum Method {
    GET,
}

/// The status codes the servers emit; anything else collapses to 501.
pub open spec fn spec_status_code(code: i32) -> i32 {
    if code == 200 || code == 400 || code == 404 {
        code
    } else {
        501
    }
}

/// Clamp a status code to the set the servers know how to phrase.
pub fn status_code(code: i32) -> (r: i32)
    ensures
        r == spec_status_code(code),
{
    match code {
        200 | 400 | 404 => code,
        _ => 501,
    }
}

/// Reason phrase for each supported status code.
pub open spec fn spec_status(code: i32) -> Seq<char> {
    if code == 200 {
        "OK"@
    } else if code == 400 {
        "BAD REQUEST"@
    } else if code == 404 {
        "NOT FOUND"@
    } else {
        "NOT IMPLEMENTED"@
    }
}

/// Reason phrase belonging to a status code.
pub fn status(code: i32) -> (r: &'static str)
    ensures
        r@ == spec_status(code),
{
    match code {
        200 => "OK",
        400 => "BAD REQUEST",
        404 => "NOT FOUND",
        _ => "NOT IMPLEMENTED",
    }
}

} // verus!
