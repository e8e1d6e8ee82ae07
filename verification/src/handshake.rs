//! The handshake that opens a streaming session.
//!
//! The byte exchange itself (version byte, two 1536-byte packets each way,
//! digest checks) is the protocol engine's. This module owns what surrounds
//! it: feeding fragments in, handing responses out, keeping the bytes that
//! arrive behind the handshake, and refusing to run twice.

use vstd::prelude::*;
use bytes::Bytes;
use rml_rtmp::handshake::{Handshake, HandshakeProcessResult, PeerType};
use crate::byte_buffer::{bytes_contents, bytes_from_vec};

verus! {

/// The protocol engine's handshake: its stage, its input buffer and the
/// random packet it sent. Carried, never looked into.
#[verifier::external_type_specification]
#[verifier::external_body]
pub struct ExHandshake(rml_rtmp::handshake::Handshake);

/// What the protocol engine made of one batch of input.
#[derive(Debug, Clone, PartialEq, Eq)]
pub enum HandshakeStep {
    /// More input is needed; `response_bytes` go to the peer.
    InProgress { response_bytes: Vec<u8> },
    /// The exchange is done; `remaining_bytes` arrived behind it and belong
    /// to the session.
    Completed { response_bytes: Vec<u8>, remaining_bytes: Vec<u8> },
    /// The peer broke the protocol; `reason` says how.
    Failed { reason: String },
}

/// Why a handshake call failed. Either way the connection is to be closed.
#[derive(Debug, Clone, PartialEq, Eq)]
pub enum HandshakeError {
    /// The handshake had completed before this call.
    AlreadyCompleted,
    /// The peer's bytes were not a valid handshake.
    Rejected(String),
}

/// What a handshake call hands back, as plain values: the bytes to send, and
/// the leftover bytes on the call that completes the exchange.
pub type StepView = Result<(Seq<u8>, Option<Seq<u8>>), HandshakeError>;

/// The plain content of what a handshake call hands back.
pub open spec fn outcome_view(outcome: Result<(Bytes, Option<Bytes>), HandshakeError>) -> StepView {
    match outcome {
        Ok((response, None)) => Ok((bytes_contents(response), None)),
        Ok((response, Some(remaining))) => Ok(
            (bytes_contents(response), Some(bytes_contents(remaining))),
        ),
        Err(e) => Err(e),
    }
}

/// What a step of the engine means for the caller.
pub open spec fn step_outcome(step: HandshakeStep) -> StepView {
    match step {
        HandshakeStep::InProgress { response_bytes } => Ok((response_bytes@, None)),
        HandshakeStep::Completed { response_bytes, remaining_bytes } => Ok(
            (response_bytes@, Some(remaining_bytes@)),
        ),
        HandshakeStep::Failed { reason } => Err(HandshakeError::Rejected(reason)),
    }
}

/// `Handshake::new(PeerType::Server)`: a handshake that has exchanged nothing
/// yet, taking the server's side.
#[verifier::external_body]
fn engine_new_server() -> Handshake {
    Handshake::new(PeerType::Server)
}

/// `Handshake::process_bytes`: feeds `data` to the exchange. The outcome
/// depends on the engine's state and on the random packet it generated, so
/// nothing is claimed of it; the three outcomes are carried over one for one,
/// an error as its debug text.
#[verifier::external_body]
fn engine_process_bytes(engine: &mut Handshake, data: &[u8]) -> HandshakeStep {
    match engine.process_bytes(data) {
        Ok(HandshakeProcessResult::InProgress { response_bytes }) => HandshakeStep::InProgress {
            response_bytes,
        },
        Ok(HandshakeProcessResult::Completed { response_bytes, remaining_bytes }) => {
            HandshakeStep::Completed { response_bytes, remaining_bytes }
        },
        Err(e) => HandshakeStep::Failed { reason: format!("handshake error: {e:?}") },
    }
}

/// Whether `step` is what the engine made of `data` when it was fed to
/// `engine`.
pub closed spec fn engine_stepped(engine: &mut Handshake, data: &[u8], step: HandshakeStep) -> bool {
    call_ensures(engine_process_bytes, (engine, data), step)
}

/// Drives the handshake to completion, returning any leftover bytes that
/// belong to the session (post-handshake data).
pub struct HandshakeState {
    inner: Handshake,
    completed: bool,
}

impl HandshakeState {
    /// Whether the exchange has completed.
    pub closed spec fn completed(&self) -> bool {
        self.completed
    }

    /// The engine's handshake that this one drives.
    pub closed spec fn engine(&self) -> Handshake {
        self.inner
    }

    /// A handshake that awaits the peer's first bytes.
    pub fn new() -> (state: HandshakeState)
        ensures
            !state.completed(),
    {
        HandshakeState { inner: engine_new_server(), completed: false }
    }

    /// Takes in what the engine made of one batch of input.
    ///
    /// While the exchange is in progress the response goes out and there is
    /// no leftover. On the step that completes it, the state becomes
    /// completed and the bytes that arrived behind the handshake are handed
    /// over, all of them and in order. A failure is passed on and leaves the
    /// state as it was.
    pub fn conclude(&mut self, step: HandshakeStep) -> (outcome: Result<
        (Bytes, Option<Bytes>),
        HandshakeError,
    >)
        ensures
            outcome_view(outcome) == step_outcome(step),
            final(self).completed() == (old(self).completed() || step is Completed),
            final(self).engine() == old(self).engine(),
    {
        match step {
            HandshakeStep::InProgress { response_bytes } => Ok(
                (bytes_from_vec(response_bytes), None),
            ),
            HandshakeStep::Completed { response_bytes, remaining_bytes } => {
                self.completed = true;
                Ok((bytes_from_vec(response_bytes), Some(bytes_from_vec(remaining_bytes))))
            },
            HandshakeStep::Failed { reason } => Err(HandshakeError::Rejected(reason)),
        }
    }

    /// Process incoming bytes. Returns the bytes to send back and, once the
    /// handshake is complete, the leftover bytes to feed into the session.
    ///
    /// After completion every call fails with `AlreadyCompleted` and feeds
    /// nothing to the engine. Before it, exactly `data` is fed to the engine,
    /// once, and the call hands back what [`HandshakeState::conclude`] makes
    /// of the engine's step: leftover bytes are handed over on exactly the
    /// call that completes the exchange, and an error leaves the handshake
    /// incomplete.
    pub fn process(&mut self, data: &[u8]) -> (outcome: Result<
        (Bytes, Option<Bytes>),
        HandshakeError,
    >)
        ensures
            old(self).completed() ==> outcome == Err::<(Bytes, Option<Bytes>), HandshakeError>(
                HandshakeError::AlreadyCompleted,
            ) && *final(self) == *old(self),
            !old(self).completed() ==> {
                &&& outcome matches Err(e) ==> e is Rejected
                &&& final(self).completed() <==> (outcome matches Ok((_, Some(_))))
            },
            !old(self).completed() ==> exists|engine: &mut Handshake, step: HandshakeStep|
                *engine == old(self).engine() && *final(engine) == final(self).engine()
                    && #[trigger] engine_stepped(engine, data, step) && outcome_view(outcome)
                    == step_outcome(step),
    {
        if self.completed {
            return Err(HandshakeError::AlreadyCompleted);
        }
        let step: HandshakeStep = engine_process_bytes(&mut self.inner, data);
        proof {
            let engine = choose|engine: &mut Handshake|
                *engine == old(self).inner && *final(engine) == self.inner
                    && #[trigger] call_ensures(engine_process_bytes, (engine, data), step);
            assert(engine_stepped(engine, data, step));
        }
        self.conclude(step)
    }

    pub fn is_completed(&self) -> (done: bool)
        ensures
            done == self.completed(),
    {
        self.completed
    }
}

} // verus!
