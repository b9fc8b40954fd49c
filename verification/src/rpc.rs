//! The client side of the control link: one generic call primitive over
//! one duplex channel, with at most one request in flight at a time.
//!
//! The channel carries no request identifiers, so a second request before
//! the first answer would make the two answers indistinguishable. The
//! session is therefore a two-phase machine: `send_ipc` builds the one
//! request frame and moves the session into the awaiting phase, and
//! `recv_ipc` consumes what the transport read and moves it back. The
//! phases are enforced by contract, so a verified caller cannot interleave
//! two calls on one session.
//!
//! The unverified transport layer performs the write and the read between
//! the two phases and reports what it observed as a [`ReadOutcome`]; a
//! failed or closed read resolves to a transport error, an answer that is
//! not a genuine frame of the expected shape to a protocol error — the two
//! classes are never collapsed, so a caller can tell whether retrying the
//! same call might help.

use vstd::prelude::*;
use vstd::string::StringExecFns;

use crate::codec;
use crate::protocol::CommandArgs;
use crate::protocol::CommandRequest;
use crate::protocol::ReadOutcome;
use crate::protocol::RequestView;
use crate::protocol::RpcError;
use crate::protocol::ScanState;

verus! {

/// Size ceiling of one response frame: the transport reads at most this
/// many bytes for one answer, and a larger answer is a protocol violation
/// of the remote side, surfaced as a decode failure, never silently
/// truncated into a value.
pub const RESPONSE_BUFFER_LEN: usize = 1024;

/// The result shape the caller of a command expects: commands either
/// return nothing or return the engine's scan state.
#[derive(Debug, Clone, Copy, PartialEq, Eq)]
pub enum ResponseShape {
    Unit,
    State,
}

/// A decoded answer, tagged by its shape.
#[derive(Debug, Clone, PartialEq, Eq)]
pub enum Response {
    Unit,
    State(ScanState),
}

/// Where one session stands: free for a request, or holding exactly one
/// request whose answer has not been read yet.
#[derive(Debug, Clone, Copy, PartialEq, Eq)]
pub enum CallPhase {
    Ready,
    Awaiting(ResponseShape),
}

/// The client session over one connection to the engine's endpoint.
///
/// The connection itself is owned by the transport layer; this session
/// machine owns the ordering guarantee: requests on one connection are
/// strictly sequential.
#[derive(Debug, Clone, PartialEq, Eq)]
pub struct IpcClient {
    pub phase: CallPhase,
}

impl IpcClient {
    /// No request is in flight; a new call may begin.
    pub open spec fn ready(&self) -> bool {
        self.phase == CallPhase::Ready
    }

    /// Exactly one request is in flight, expecting an answer of `shape`.
    pub open spec fn awaiting(&self, shape: ResponseShape) -> bool {
        self.phase == CallPhase::Awaiting(shape)
    }

    /// Opens a session: no request is in flight yet.
    pub fn new() -> (c: Self)
        ensures
            c.ready(),
    {
        IpcClient { phase: CallPhase::Ready }
    }

    /// Whether a new call may begin now.
    pub fn is_ready(&self) -> (r: bool)
        ensures
            r == self.ready(),
    {
        match self.phase {
            CallPhase::Ready => true,
            CallPhase::Awaiting(_) => false,
        }
    }

    /// The request leg of one call: serializes the command and its
    /// arguments into the one frame to write to the channel, and records
    /// that the session now awaits an answer of `shape`.
    ///
    /// The command name must be non-empty; an unrecognized name is a
    /// remote-side outcome, not a local error.
    pub fn send_ipc(&mut self, command: &str, args: CommandArgs, shape: ResponseShape) -> (frame:
        String)
        requires
            old(self).ready(),
            command@.len() > 0,
        ensures
            final(self).awaiting(shape),
            frame@ == codec::enc_request(RequestView { command: command@, args: args@ }),
    {
        let req = CommandRequest { command: String::from_str(command), args };
        let frame = codec::encode_request(&req);
        self.phase = CallPhase::Awaiting(shape);
        frame
    }

    /// The response leg of one call: resolves what the transport read into
    /// the caller's typed result, and frees the session for the next call.
    ///
    /// A failed or closed read is a transport error; an answer that is not
    /// a genuine frame of the awaited shape is a protocol error; the unit
    /// frame answered to a unit-shaped call — as the engine answers every
    /// cancel, also when no scan was active — resolves to success.
    pub fn recv_ipc(&mut self, outcome: ReadOutcome) -> (r: Result<Response, RpcError>)
        requires
            !old(self).ready(),
        ensures
            final(self).ready(),
            (match outcome {
                ReadOutcome::Fault(m) => r matches Err(RpcError::Transport(fm)) && fm@ == m@,
                ReadOutcome::Closed => r matches Err(RpcError::Transport(_)),
                ReadOutcome::Data(d) => (match old(self).phase {
                    CallPhase::Awaiting(ResponseShape::Unit) => {
                        if d@ == codec::unit_wire() {
                            r matches Ok(Response::Unit)
                        } else {
                            r matches Err(RpcError::Protocol(_))
                        }
                    },
                    CallPhase::Awaiting(ResponseShape::State) => {
                        match codec::dec_state(d@) {
                            Some(sv) => r matches Ok(Response::State(st)) && st@ == sv,
                            None => r matches Err(RpcError::Protocol(_)),
                        }
                    },
                    CallPhase::Ready => true,
                }),
            }),
    {
        let phase = self.phase;
        self.phase = CallPhase::Ready;
        match outcome {
            ReadOutcome::Fault(m) => Err(RpcError::Transport(m)),
            ReadOutcome::Closed => Err(
                RpcError::Transport(String::from_str("connection closed mid-call")),
            ),
            ReadOutcome::Data(d) => {
                match phase {
                    CallPhase::Awaiting(ResponseShape::Unit) => {
                        if codec::decode_unit(d.as_str()) {
                            Ok(Response::Unit)
                        } else {
                            Err(
                                RpcError::Protocol(
                                    String::from_str("answer is not the unit frame"),
                                ),
                            )
                        }
                    },
                    CallPhase::Awaiting(ResponseShape::State) => {
                        match codec::decode_state(d.as_str()) {
                            Some(st) => Ok(Response::State(st)),
                            None => Err(
                                RpcError::Protocol(
                                    String::from_str("answer is not a scan state frame"),
                                ),
                            ),
                        }
                    },
                    CallPhase::Ready => {
                        proof {
                            assert(false);
                        }
                        Err(RpcError::Protocol(String::new()))
                    },
                }
            },
        }
    }
}

} // verus!
