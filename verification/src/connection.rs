//! One connection from its first byte to its last.
//!
//! A connection starts in the handshake. The read that completes the
//! handshake opens the session and sends the engine's opening messages;
//! whatever arrived behind the handshake in the same read is the first input
//! of the session. From then on every read is input of the session. A read
//! of no bytes means the peer has closed: an error during the handshake, the
//! normal end afterwards.
//!
//! The caller owns the socket and makes the one call that can unwind. It
//! hands each read to [`Connection::on_read`]. Where that asks to feed bytes
//! to the session, the caller feeds them to the engine it gets from
//! [`Connection::engine_mut`] and hands what the engine gave to
//! [`Connection::on_answer`]. After each read it transmits what the calls
//! appended to the outbound buffer.

use vstd::prelude::*;
use bytes::Bytes;
use rml_rtmp::sessions::{ServerSession, ServerSessionResult};
use crate::byte_buffer::{bytes_as_slice, bytes_contents};
use crate::handshake::{HandshakeError, HandshakeState};
use crate::session::{lemma_prefix_chain, same_value, RtmpSession, SessionError, VideoSink};

verus! {

/// Why a connection ended in failure.
#[derive(Debug, Clone, PartialEq, Eq)]
pub enum ConnectionError {
    /// The peer closed the connection before the handshake was done.
    ClosedDuringHandshake,
    /// The handshake failed.
    Handshake(HandshakeError),
    /// The session failed.
    Session(SessionError),
    /// An answer of the engine was handed in while no session was open.
    NotStreaming,
}

/// What the caller does after a read was handled.
#[derive(Debug, Clone, PartialEq, Eq)]
pub enum ReadOutcome {
    /// Read on.
    Continue,
    /// The peer closed the connection in good order; stop.
    Closed,
    /// Feed these bytes to the session's engine, hand its answer to
    /// [`Connection::on_answer`], then read on.
    Feed(Vec<u8>),
}

/// The state of one connection: its handshake, and its session once the
/// handshake is done.
pub struct Connection {
    handshake: HandshakeState,
    session: Option<RtmpSession>,
}

impl Connection {
    /// Whether the session is open.
    pub closed spec fn streaming(&self) -> bool {
        self.session is Some
    }

    /// The handshake of this connection.
    pub closed spec fn handshake(&self) -> HandshakeState {
        self.handshake
    }

    /// The session of this connection, once it is open.
    pub closed spec fn session(&self) -> Option<RtmpSession> {
        self.session
    }

    /// A connection is its handshake and its session, nothing more.
    pub proof fn lemma_same_parts(self, other: Connection)
        requires
            self.handshake() == other.handshake(),
            self.session() == other.session(),
        ensures
            self == other,
            self.streaming() == (self.session() is Some),
    {
    }

    /// A connection that awaits the peer's handshake.
    pub fn new() -> (connection: Connection)
        ensures
            !connection.streaming(),
            connection.session() is None,
            !connection.handshake().completed(),
    {
        Connection { handshake: HandshakeState::new(), session: None }
    }

    /// Whether the session is open.
    pub fn is_streaming(&self) -> (open: bool)
        ensures
            open == self.streaming(),
            open == (self.session() is Some),
    {
        self.session.is_some()
    }

    /// Handles the bytes of one read; `data` is empty where the read found
    /// the connection closed. Bytes to transmit are appended to `outbound`.
    ///
    /// A closed connection is an error during the handshake and the normal
    /// end of a session; either way nothing is sent and nothing changes.
    /// Once the session is open, a read is input of the session: the call
    /// asks to feed exactly `data`, and changes nothing. Before that, exactly
    /// `data` goes to the handshake, once. Where the handshake fails, its
    /// error ends the connection. Where it goes on, its response is appended
    /// to `outbound`. Where it completes, its response is appended to
    /// `outbound` and the session is opened as
    /// [`Connection::open_session`] says, with the bytes that arrived behind
    /// the handshake, all of them and before anything else.
    pub fn on_read(&mut self, data: &[u8], outbound: &mut Vec<u8>) -> (handled: Result<
        ReadOutcome,
        ConnectionError,
    >)
        ensures
            old(outbound)@.is_prefix_of(final(outbound)@),
            old(self).streaming() ==> *final(self) == *old(self) && final(outbound)@ == old(outbound)@,
            data@.len() == 0 ==> final(outbound)@ == old(outbound)@ && *final(self) == *old(self),
            data@.len() == 0 && !old(self).streaming() ==> handled == Err::<
                ReadOutcome,
                ConnectionError,
            >(ConnectionError::ClosedDuringHandshake),
            data@.len() == 0 && old(self).streaming() ==> handled == Ok::<
                ReadOutcome,
                ConnectionError,
            >(ReadOutcome::Closed),
            data@.len() > 0 && old(self).streaming() ==> (handled matches Ok(
                ReadOutcome::Feed(bytes),
            ) && bytes@ == data@),
            data@.len() > 0 && !old(self).streaming() ==> exists|
                handshake: &mut HandshakeState,
                step: Result<(Bytes, Option<Bytes>), HandshakeError>,
            |
                *handshake == old(self).handshake() && #[trigger] call_ensures(
                    HandshakeState::process,
                    (handshake, data),
                    step,
                ) && match step {
                    Err(e) => handled == Err::<ReadOutcome, ConnectionError>(
                        ConnectionError::Handshake(e),
                    ) && final(self).handshake() == *final(handshake) && final(self).session()
                        is None && final(outbound)@ == old(outbound)@,
                    Ok((response, None)) => handled == Ok::<ReadOutcome, ConnectionError>(
                        ReadOutcome::Continue,
                    ) && final(self).handshake() == *final(handshake) && final(self).session()
                        is None && final(outbound)@ == old(outbound)@ + bytes_contents(response),
                    Ok((response, Some(rest))) => exists|
                        connection: &mut Connection,
                        out: &mut Vec<u8>,
                    |
                        connection.handshake() == *final(handshake) && connection.session()
                            is None && *final(connection) == *final(self) && out@ == old(outbound)@ + bytes_contents(response) && *final(out) == *final(outbound)
                            && #[trigger] call_ensures(
                            Connection::open_session,
                            (connection, rest, out),
                            handled,
                        ),
                },
    {
        let ghost before = outbound@;
        if self.session.is_some() {
            if data.len() == 0 {
                return Ok(ReadOutcome::Closed);
            }
            return Ok(ReadOutcome::Feed(vstd::slice::slice_to_vec(data)));
        }
        if data.len() == 0 {
            return Err(ConnectionError::ClosedDuringHandshake);
        }
        let step: Result<(Bytes, Option<Bytes>), HandshakeError> = self.handshake.process(data);
        match step {
            Err(e) => Err(ConnectionError::Handshake(e)),
            Ok((response, leftover)) => {
                outbound.extend_from_slice(bytes_as_slice(&response));
                assert(before.is_prefix_of(outbound@)) by {
                    assert(before =~= outbound@.subrange(0, before.len() as int));
                }
                match leftover {
                    None => Ok(ReadOutcome::Continue),
                    Some(rest) => {
                        let ghost answered = outbound@;
                        let handled: Result<ReadOutcome, ConnectionError> = self.open_session(
                            rest,
                            outbound,
                        );
                        proof {
                            lemma_prefix_chain(before, answered, outbound@);
                        }
                        handled
                    },
                }
            },
        }
    }

    /// Opens the session after the handshake, with `rest` being the bytes
    /// that arrived behind the handshake.
    ///
    /// The session is created first, as [`RtmpSession::new`] says, which
    /// appends the engine's opening messages to `outbound`. Where that
    /// fails, its error ends the connection and nothing was kept. Otherwise
    /// the session is kept, and the call asks to feed `rest`, whole, as the
    /// session's first input; where `rest` is empty it asks to read on.
    pub fn open_session(&mut self, rest: Bytes, outbound: &mut Vec<u8>) -> (handled: Result<
        ReadOutcome,
        ConnectionError,
    >)
        ensures
            old(outbound)@.is_prefix_of(final(outbound)@),
            final(self).handshake() == old(self).handshake(),
            exists|out: &mut Vec<u8>, created: Result<RtmpSession, SessionError>|
                *out == *old(outbound) && *final(out) == *final(outbound) && #[trigger] call_ensures(
                    RtmpSession::new,
                    (out,),
                    created,
                ) && match created {
                    Err(e) => handled == Err::<ReadOutcome, ConnectionError>(
                        ConnectionError::Session(e),
                    ) && final(self).session() == old(self).session(),
                    Ok(session) => final(self).session() == Some(session) && if bytes_contents(
                        rest,
                    ).len() == 0 {
                        handled == Ok::<ReadOutcome, ConnectionError>(ReadOutcome::Continue)
                    } else {
                        (handled matches Ok(ReadOutcome::Feed(bytes)) && bytes@
                            == bytes_contents(rest))
                    },
                },
    {
        let created: Result<RtmpSession, SessionError> = RtmpSession::new(outbound);
        match created {
            Err(e) => Err(ConnectionError::Session(e)),
            Ok(session) => {
                self.session = Some(session);
                let remaining: &[u8] = bytes_as_slice(&rest);
                if remaining.len() == 0 {
                    Ok(ReadOutcome::Continue)
                } else {
                    Ok(ReadOutcome::Feed(vstd::slice::slice_to_vec(remaining)))
                }
            },
        }
    }

    /// Handles what the engine gave for the bytes that
    /// [`Connection::on_read`] asked to feed, as
    /// [`RtmpSession::handle_input`] says. Bytes to transmit are appended to
    /// `outbound`. While no session is open there is nothing an answer could
    /// belong to: the call fails and changes nothing.
    pub fn on_answer<S: VideoSink + ?Sized>(
        &mut self,
        answer: Result<Vec<ServerSessionResult>, String>,
        outbound: &mut Vec<u8>,
        sink: &mut S,
    ) -> (handled: Result<(), ConnectionError>)
        ensures
            old(outbound)@.is_prefix_of(final(outbound)@),
            final(self).handshake() == old(self).handshake(),
            final(self).streaming() == old(self).streaming(),
            !old(self).streaming() ==> handled == Err::<(), ConnectionError>(
                ConnectionError::NotStreaming,
            ) && *final(self) == *old(self) && final(outbound)@ == old(outbound)@ && same_value(
                &*final(sink),
                &*old(sink),
            ),
            old(self).streaming() ==> exists|
                session: &mut RtmpSession,
                out: &mut Vec<u8>,
                handed: &mut S,
                outcome: Result<(), SessionError>,
            |
                Some(*session) == old(self).session() && Some(*final(session)) == final(self).session() && *out == *old(outbound) && *final(out) == *final(outbound)
                    && same_value(&*handed, &*old(sink)) && same_value(
                    &*final(handed),
                    &*final(sink),
                ) && #[trigger] call_ensures(
                    RtmpSession::handle_input::<S>,
                    (session, answer, out, handed),
                    outcome,
                ) && match outcome {
                    Err(e) => handled == Err::<(), ConnectionError>(ConnectionError::Session(e)),
                    Ok(()) => handled == Ok::<(), ConnectionError>(()),
                },
    {
        match &mut self.session {
            None => Err(ConnectionError::NotStreaming),
            Some(session) => {
                match session.handle_input(answer, outbound, sink) {
                    Err(e) => Err(ConnectionError::Session(e)),
                    Ok(()) => Ok(()),
                }
            },
        }
    }

    /// The engine of the open session, for the caller to feed input to; none
    /// while no session is open.
    pub fn engine_mut(&mut self) -> (engine: Option<&mut ServerSession>)
        ensures
            engine is Some == old(self).streaming(),
            engine is None ==> *final(self) == *old(self),
            engine matches Some(inner) ==> (old(self).session() matches Some(before) && (final(self).session() matches Some(after) && *inner == before.engine() && after.engine()
                == *final(inner) && final(self).handshake() == old(self).handshake())),
    {
        match &mut self.session {
            None => None,
            Some(session) => Some(session.engine_mut()),
        }
    }
}

} // verus!
