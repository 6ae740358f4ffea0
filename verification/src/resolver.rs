//! The public-address resolver's reply.
//!
//! The resolver is asked over HTTPS what the caller's public address is; a
//! good reply has the canonical success status and a bare dotted-quad address
//! as its whole body. Judging the reply is the resolver's only logic; the
//! request itself is I/O and stays outside the library.

use vstd::prelude::*;

use crate::addr::{ipv4_bytes, parse_ipv4, Ipv4};
use crate::SUCCESS_STATUS;

verus! {

/// How address resolution fails.
#[derive(Clone, Copy, PartialEq, Eq, Debug)]
pub enum ResolveError {
    /// The reply's status was not the canonical success code.
    UnexpectedResponse { status: u16 },
    /// The reply's body was not a dotted-quad address.
    ParseError,
    /// The request could not be sent or the reply not received.
    TransportError,
}

/// Judges the resolver's reply: the status must be the canonical success code
/// and the whole body a dotted-quad address.
pub fn interpret_resolve_response(status: u16, body: &[u8]) -> (r: Result<Ipv4, ResolveError>)
    ensures
        status != SUCCESS_STATUS ==> (r matches Err(ResolveError::UnexpectedResponse {
            status: st,
        }) && st == status),
        status == SUCCESS_STATUS ==> match r {
            Ok(ip) => body@ == ipv4_bytes(ip),
            Err(e) => e is ParseError && (forall|ip: Ipv4| body@ != ipv4_bytes(ip)),
        },
{
    if status != SUCCESS_STATUS {
        return Err(ResolveError::UnexpectedResponse { status });
    }
    match parse_ipv4(body) {
        Some(ip) => Ok(ip),
        None => Err(ResolveError::ParseError),
    }
}

} // verus!
