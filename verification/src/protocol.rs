//! The decoded client protocol and the planner that answers it. Framing —
//! line-delimited JSON over a socket or standard streams — belongs to the
//! transport layer; the core only sees decoded values.

use vstd::prelude::*;

verus! {

/// One decoded client request.
#[derive(Debug, Clone, PartialEq, Eq, Structural)]
pub enum Request {
    /// Liveness probe.
    Ping,
}

/// One decoded answer to the client.
#[derive(Debug)]
pub enum Response {
    /// The answer to a ping.
    Pong,
    /// A terminal error signal.
    Error { message: String },
}

/// Answer one request: a ping gets a pong, never an error.
pub fn handle(msg: &Request) -> (r: Response)
    ensures
        msg == Request::Ping ==> r is Pong,
{
    match msg {
        Request::Ping => Response::Pong,
    }
}

} // verus!
