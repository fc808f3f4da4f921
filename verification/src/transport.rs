//! Decisions of the transport bridges, separated from their I/O.
//!
//! Two bridges surround the core: a relay that carries a terminal's
//! standard streams over a websocket, and a listener that echoes frames
//! back while the protocol loop is wired up. Both walk a stream of frames
//! and decide, frame by frame, what to send on and when to stop; those
//! decisions live here, and the runtime performs the sends.

use vstd::prelude::*;

verus! {

/// One decoded websocket frame.
#[derive(Debug)]
pub enum WsFrame {
    Text(String),
    Binary(Vec<u8>),
    Close,
    Ping(Vec<u8>),
    Pong(Vec<u8>),
}

/// What the stdio relay does with one inbound frame.
#[derive(Debug)]
pub enum RelayStep {
    /// Write this line to the local output.
    WriteText(String),
    /// Decode these bytes leniently and write them as a line.
    WriteBytes(Vec<u8>),
    /// The peer closed: stop relaying.
    Stop,
    /// Control frame; nothing to write.
    Skip,
}

/// Decide what the websocket-to-stdout direction of the relay does with
/// one frame: text and binary payloads become output lines, a close ends
/// the relay, control frames pass silently.
pub fn relay_step(frame: WsFrame) -> (r: RelayStep)
    ensures
        match frame {
            WsFrame::Text(s) => r matches RelayStep::WriteText(t) && t@ == s@,
            WsFrame::Binary(b) => r matches RelayStep::WriteBytes(t) && t@ == b@,
            WsFrame::Close => r is Stop,
            WsFrame::Ping(_) => r is Skip,
            WsFrame::Pong(_) => r is Skip,
        },
{
    match frame {
        WsFrame::Text(s) => RelayStep::WriteText(s),
        WsFrame::Binary(b) => RelayStep::WriteBytes(b),
        WsFrame::Close => RelayStep::Stop,
        WsFrame::Ping(_) => RelayStep::Skip,
        WsFrame::Pong(_) => RelayStep::Skip,
    }
}

/// What the echo listener answers to one inbound frame.
#[derive(Debug)]
pub enum EchoStep {
    /// Send this frame back.
    Send(WsFrame),
    /// Acknowledge the close and stop serving this connection.
    SendCloseAndStop,
    /// Nothing to send.
    Skip,
}

/// Decide what the echo listener answers: payload frames come straight
/// back, a ping gets the matching pong, a close is acknowledged and ends
/// the connection.
pub fn echo_step(frame: WsFrame) -> (r: EchoStep)
    ensures
        match frame {
            WsFrame::Text(s) => r matches EchoStep::Send(f) && (f matches WsFrame::Text(t) && t@
                == s@),
            WsFrame::Binary(b) => r matches EchoStep::Send(f) && (f matches WsFrame::Binary(t)
                && t@ == b@),
            WsFrame::Close => r is SendCloseAndStop,
            WsFrame::Ping(p) => r matches EchoStep::Send(f) && (f matches WsFrame::Pong(t) && t@
                == p@),
            WsFrame::Pong(_) => r is Skip,
        },
{
    match frame {
        WsFrame::Text(s) => EchoStep::Send(WsFrame::Text(s)),
        WsFrame::Binary(b) => EchoStep::Send(WsFrame::Binary(b)),
        WsFrame::Close => EchoStep::SendCloseAndStop,
        WsFrame::Ping(p) => EchoStep::Send(WsFrame::Pong(p)),
        WsFrame::Pong(_) => EchoStep::Skip,
    }
}

} // verus!
