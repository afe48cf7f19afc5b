//! The mapping from HTTP-level rejections to status codes and reply
//! bodies.

use vstd::prelude::*;
use crate::encode::detail_json;
use crate::encode::encode_detail;

verus! {

/// The classes of HTTP-level rejection the server answers.
#[derive(Clone, Copy, PartialEq, Eq, Structural, Debug)]
pub enum RejectionKind {
    /// No route matched.
    NotFound,
    /// The request body could not be read.
    InvalidBody,
    /// The route exists but not for this method.
    MethodNotAllowed,
    /// Anything else.
    Other,
}

/// The status code answered for each rejection class.
pub open spec fn rejection_status_spec(k: RejectionKind) -> int {
    match k {
        RejectionKind::NotFound => 404,
        RejectionKind::InvalidBody => 400,
        RejectionKind::MethodNotAllowed => 405,
        RejectionKind::Other => 500,
    }
}

/// The detail message answered for each rejection class.
pub open spec fn rejection_message(k: RejectionKind) -> Seq<char> {
    match k {
        RejectionKind::NotFound => "Not found"@,
        RejectionKind::InvalidBody => "Invalid Body"@,
        RejectionKind::MethodNotAllowed => "Method not allowed"@,
        RejectionKind::Other => "Internal server error"@,
    }
}

/// The status code sent for rejection class `k`.
pub fn rejection_status(k: RejectionKind) -> (c: u16)
    ensures
        c == rejection_status_spec(k),
{
    match k {
        RejectionKind::NotFound => 404,
        RejectionKind::InvalidBody => 400,
        RejectionKind::MethodNotAllowed => 405,
        RejectionKind::Other => 500,
    }
}

/// The JSON body sent for rejection class `k`.
pub fn rejection_body(k: RejectionKind) -> (s: String)
    ensures
        s@ == detail_json(rejection_message(k)),
{
    match k {
        RejectionKind::NotFound => encode_detail("Not found"),
        RejectionKind::InvalidBody => encode_detail("Invalid Body"),
        RejectionKind::MethodNotAllowed => encode_detail("Method not allowed"),
        RejectionKind::Other => encode_detail("Internal server error"),
    }
}

} // verus!
