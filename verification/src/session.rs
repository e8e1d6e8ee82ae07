//! One publishing session on top of the protocol engine.
//!
//! The engine turns input bytes into an ordered list of results: packets to
//! send, events, and messages it could not handle. The session walks that
//! list in order. Packets are appended to the caller's outbound buffer,
//! connect, publish and release requests are accepted through the engine and
//! its answer is appended too, video data goes through the demultiplexer to
//! the sink, and everything else is passed over. The caller transmits the
//! outbound buffer once per call, after the call returns.
//!
//! Feeding input to the engine is the caller's part. The engine can unwind
//! on input it does not expect, and only the caller can catch that; so the
//! caller feeds the bytes to [`RtmpSession::engine_mut`] and hands what came
//! back to [`RtmpSession::handle_input`].

use vstd::prelude::*;
use bytes::Bytes;
use rml_rtmp::sessions::{
    ServerSession,
    ServerSessionConfig,
    ServerSessionEvent,
    ServerSessionResult,
};
use crate::byte_buffer::bytes_contents;
use crate::flv::{parse_video_data, parse_spec, AvcDecoderConfig, ConfigView, PacketView, VideoPacket};

verus! {

/// The protocol engine's server session: chunk streams, outstanding
/// requests and the clock it stamps messages with. Carried, never looked
/// into.
#[verifier::external_type_specification]
#[verifier::external_body]
pub struct ExServerSession(rml_rtmp::sessions::ServerSession);

/// One result of the engine as the engine made it.
#[verifier::external_type_specification]
#[verifier::external_body]
pub struct ExServerSessionResult(rml_rtmp::sessions::ServerSessionResult);

/// One event of the engine as the engine made it.
#[verifier::external_type_specification]
#[verifier::external_body]
pub struct ExServerSessionEvent(rml_rtmp::sessions::ServerSessionEvent);

/// Callback for receiving video data from the session.
pub trait VideoSink: Send + 'static {
    /// Called when an AVC sequence header (SPS/PPS) is received.
    fn on_decoder_config(&mut self, config: AvcDecoderConfig);

    /// Called with the length-prefixed NAL units of a single video frame.
    fn on_video_data(&mut self, data: Bytes, timestamp: u32);
}

/// An event of the engine, reduced to what the session acts on.
#[derive(Debug)]
pub enum SessionEvent {
    /// The client asks to connect to an application.
    ConnectionRequested { request_id: u32 },
    /// The client asks to publish on a stream key.
    PublishStreamRequested { request_id: u32 },
    /// The client asks for a stream key to be released.
    ReleaseStreamRequested { request_id: u32 },
    /// One video tag body, with its timestamp in milliseconds.
    VideoDataReceived { data: Bytes, timestamp: u32 },
    /// Audio data; not handled.
    AudioDataReceived,
    /// The stream's metadata changed; observed only.
    StreamMetadataChanged,
    /// The client finished publishing; observed only.
    PublishStreamFinished,
    /// Any other event; observed only.
    Other,
}

/// One result of the engine, reduced to what the session acts on.
#[derive(Debug)]
pub enum SessionResult {
    /// Bytes of a packet to send to the peer, in the order produced.
    OutboundResponse(Vec<u8>),
    /// An event for the session to act on.
    RaisedEvent(SessionEvent),
    /// A message the engine could not handle, by its type id.
    UnhandleableMessageReceived { type_id: u8 },
}

/// Why a session call failed. Each is fatal to the connection.
#[derive(Debug, Clone, PartialEq, Eq)]
pub enum SessionError {
    /// The engine could not set up a session.
    Create(String),
    /// The engine could not make sense of the input.
    Input(String),
    /// The engine refused to accept a request it had raised.
    Accept(String),
}

/// What the session does about one event.
#[derive(Debug)]
pub enum EventAction {
    /// Accept the request through the engine and send its answer.
    Accept { request_id: u32 },
    /// Hand a new decoder configuration to the sink.
    Configure(AvcDecoderConfig),
    /// Hand one frame's NAL units to the sink.
    Decode { data: Bytes, timestamp: u32 },
    /// Pass over the event.
    Nothing,
}

/// Mathematical content of an [`EventAction`].
pub enum ActionView {
    Accept { request_id: u32 },
    Configure(ConfigView),
    Decode { payload: Seq<u8>, timestamp: u32 },
    Nothing,
}

impl View for EventAction {
    type V = ActionView;

    open spec fn view(&self) -> ActionView {
        match *self {
            EventAction::Accept { request_id } => ActionView::Accept { request_id },
            EventAction::Configure(config) => ActionView::Configure(config@),
            EventAction::Decode { data, timestamp } => ActionView::Decode {
                payload: bytes_contents(data),
                timestamp,
            },
            EventAction::Nothing => ActionView::Nothing,
        }
    }
}

/// What a parsed video packet calls for: a configuration record configures
/// the decoder, NAL data is decoded, the rest is passed over.
pub open spec fn packet_action(packet: PacketView) -> ActionView {
    match packet {
        PacketView::SequenceHeader(config) => ActionView::Configure(config),
        PacketView::NaluData { avcc_payload, timestamp } => ActionView::Decode {
            payload: avcc_payload,
            timestamp,
        },
        PacketView::EndOfSequence => ActionView::Nothing,
        PacketView::Unsupported => ActionView::Nothing,
    }
}

/// What an event calls for. Connect, publish and release requests are
/// accepted unconditionally; video data is demultiplexed; audio, metadata,
/// the end of publishing and anything else call for nothing.
pub open spec fn event_action(event: SessionEvent) -> ActionView {
    match event {
        SessionEvent::ConnectionRequested { request_id } => ActionView::Accept { request_id },
        SessionEvent::PublishStreamRequested { request_id } => ActionView::Accept { request_id },
        SessionEvent::ReleaseStreamRequested { request_id } => ActionView::Accept { request_id },
        SessionEvent::VideoDataReceived { data, timestamp } => packet_action(
            parse_spec(bytes_contents(data), timestamp),
        ),
        SessionEvent::AudioDataReceived => ActionView::Nothing,
        SessionEvent::StreamMetadataChanged => ActionView::Nothing,
        SessionEvent::PublishStreamFinished => ActionView::Nothing,
        SessionEvent::Other => ActionView::Nothing,
    }
}

/// Decides what to do about one event.
pub fn plan_event(event: SessionEvent) -> (action: EventAction)
    ensures
        action@ == event_action(event),
{
    match event {
        SessionEvent::ConnectionRequested { request_id } => EventAction::Accept { request_id },
        SessionEvent::PublishStreamRequested { request_id } => EventAction::Accept { request_id },
        SessionEvent::ReleaseStreamRequested { request_id } => EventAction::Accept { request_id },
        SessionEvent::VideoDataReceived { data, timestamp } => {
            match parse_video_data(&data, timestamp) {
                VideoPacket::SequenceHeader(config) => EventAction::Configure(config),
                VideoPacket::NaluData { avcc_payload, timestamp } => EventAction::Decode {
                    data: avcc_payload,
                    timestamp,
                },
                VideoPacket::EndOfSequence => EventAction::Nothing,
                VideoPacket::Unsupported => EventAction::Nothing,
            }
        },
        SessionEvent::AudioDataReceived => EventAction::Nothing,
        SessionEvent::StreamMetadataChanged => EventAction::Nothing,
        SessionEvent::PublishStreamFinished => EventAction::Nothing,
        SessionEvent::Other => EventAction::Nothing,
    }
}

/// One engine result with its event still as the engine made it.
enum SplitResult {
    Outbound(Vec<u8>),
    Raised(ServerSessionEvent),
    Unhandled { type_id: u8 },
}

/// `ServerSession::new` with the engine's default configuration: a session
/// and the results that carry its opening control messages. What they hold
/// depends on the clock, so nothing is claimed of them; an error is carried
/// over as its debug text.
#[verifier::external_body]
fn engine_create() -> Result<(ServerSession, Vec<ServerSessionResult>), String> {
    ServerSession::new(ServerSessionConfig::new()).map_err(
        |e| format!("failed to create ServerSession: {e:?}"),
    )
}

/// `ServerSession::accept_request`: accepts an outstanding request and
/// returns the results that carry the answer. Fails where the engine knows
/// no such request.
#[verifier::external_body]
fn engine_accept_request(session: &mut ServerSession, request_id: u32) -> Result<
    Vec<ServerSessionResult>,
    String,
> {
    session.accept_request(request_id).map_err(|e| format!("accept_request error: {e:?}"))
}

/// Tells the three kinds of `ServerSessionResult` apart and moves out what
/// each holds: a packet's bytes, the event, a message's type id.
#[verifier::external_body]
fn split_result(result: ServerSessionResult) -> SplitResult {
    match result {
        ServerSessionResult::OutboundResponse(packet) => SplitResult::Outbound(packet.bytes),
        ServerSessionResult::RaisedEvent(event) => SplitResult::Raised(event),
        ServerSessionResult::UnhandleableMessageReceived(message) => SplitResult::Unhandled {
            type_id: message.type_id,
        },
    }
}

/// Tells the kinds of `ServerSessionEvent` apart and moves out the fields
/// the session acts on: the request id of a request, the data and the
/// timestamp's value of video data.
#[verifier::external_body]
fn read_event(event: ServerSessionEvent) -> SessionEvent {
    match event {
        ServerSessionEvent::ConnectionRequested { request_id, .. } => SessionEvent::ConnectionRequested { request_id },
        ServerSessionEvent::PublishStreamRequested { request_id, .. } => SessionEvent::PublishStreamRequested { request_id },
        ServerSessionEvent::ReleaseStreamRequested { request_id, .. } => SessionEvent::ReleaseStreamRequested { request_id },
        ServerSessionEvent::VideoDataReceived { data, timestamp, .. } => SessionEvent::VideoDataReceived { data, timestamp: timestamp.value },
        ServerSessionEvent::AudioDataReceived { .. } => SessionEvent::AudioDataReceived,
        ServerSessionEvent::StreamMetadataChanged { .. } => SessionEvent::StreamMetadataChanged,
        ServerSessionEvent::PublishStreamFinished { .. } => SessionEvent::PublishStreamFinished,
        _ => SessionEvent::Other,
    }
}

/// Whether `result` is what `raw` holds, brought into the library's own
/// form: the bytes of its packet, its event with the fields the session acts
/// on, or the type id of its message.
pub closed spec fn read_as(raw: ServerSessionResult, result: SessionResult) -> bool {
    exists|split: SplitResult| #[trigger]
        call_ensures(split_result, (raw,), split) && match split {
            SplitResult::Outbound(bytes) => result == SessionResult::OutboundResponse(bytes),
            SplitResult::Raised(outside) => exists|event: SessionEvent| #[trigger]
                call_ensures(read_event, (outside,), event) && result
                    == SessionResult::RaisedEvent(event),
            SplitResult::Unhandled { type_id } => result
                == (SessionResult::UnhandleableMessageReceived { type_id }),
        }
}

/// Whether `results` are the engine's results `raw`, each brought into the
/// library's own form, one for one and in order.
pub open spec fn all_read_as(raw: Seq<ServerSessionResult>, results: Seq<SessionResult>) -> bool {
    &&& results.len() == raw.len()
    &&& forall|i: int| 0 <= i < raw.len() ==> read_as(raw[i], #[trigger] results[i])
}

/// Brings the engine's results into the library's own form, one for one
/// and in order.
fn read_results(raw: Vec<ServerSessionResult>) -> (results: Vec<SessionResult>)
    ensures
        all_read_as(raw@, results@),
{
    let ghost all = raw@;
    let mut pending: Vec<ServerSessionResult> = raw;
    let mut results: Vec<SessionResult> = Vec::new();
    while pending.len() > 0
        invariant
            results@.len() <= all.len(),
            pending@ == all.skip(results@.len() as int),
            forall|i: int| 0 <= i < results@.len() ==> read_as(all[i], #[trigger] results@[i]),
        decreases pending@.len(),
    {
        let ghost done = results@.len() as int;
        let item: ServerSessionResult = pending.remove(0);
        assert(item == all[done]);
        let split: SplitResult = split_result(item);
        let result: SessionResult = match split {
            SplitResult::Outbound(bytes) => SessionResult::OutboundResponse(bytes),
            SplitResult::Raised(event) => SessionResult::RaisedEvent(read_event(event)),
            SplitResult::Unhandled { type_id } => SessionResult::UnhandleableMessageReceived {
                type_id,
            },
        };
        assert(read_as(all[done], result));
        results.push(result);
        assert(pending@ =~= all.skip(done + 1));
    }
    results
}

/// One step of handling the engine's results: a packet to put on the wire,
/// or what an event calls for.
#[derive(Debug)]
pub enum SessionStep {
    /// Append these bytes to the outbound buffer.
    Send(Vec<u8>),
    /// Carry out this action.
    Act(EventAction),
}

/// Mathematical content of a [`SessionStep`].
pub enum StepView {
    Send(Seq<u8>),
    Act(ActionView),
}

impl View for SessionStep {
    type V = StepView;

    open spec fn view(&self) -> StepView {
        match *self {
            SessionStep::Send(bytes) => StepView::Send(bytes@),
            SessionStep::Act(action) => StepView::Act(action@),
        }
    }
}

/// The plain content of a list of steps.
pub open spec fn steps_view(steps: Seq<SessionStep>) -> Seq<StepView> {
    Seq::new(steps.len(), |i: int| steps[i]@)
}

/// The step that one result calls for: a packet is sent, an event is acted
/// on as [`event_action`] says, a message the engine could not handle is
/// passed over.
pub open spec fn step_of(result: SessionResult) -> StepView {
    match result {
        SessionResult::OutboundResponse(bytes) => StepView::Send(bytes@),
        SessionResult::RaisedEvent(event) => StepView::Act(event_action(event)),
        SessionResult::UnhandleableMessageReceived { type_id } => StepView::Act(
            ActionView::Nothing,
        ),
    }
}

/// The steps that a list of results calls for: one per result, in the order
/// of the results.
pub open spec fn plan_of(results: Seq<SessionResult>) -> Seq<StepView> {
    Seq::new(results.len(), |i: int| step_of(results[i]))
}

/// The bytes that a list of steps puts on the wire: those of its packets, in
/// order, one after the other.
pub open spec fn sent_bytes(steps: Seq<StepView>) -> Seq<u8>
    decreases steps.len(),
{
    if steps.len() == 0 {
        Seq::empty()
    } else {
        sent_bytes(steps.drop_last()) + match steps.last() {
            StepView::Send(bytes) => bytes,
            StepView::Act(_) => Seq::empty(),
        }
    }
}

/// The bytes that a list of results puts on the wire.
pub open spec fn wire_bytes(results: Seq<SessionResult>) -> Seq<u8> {
    sent_bytes(plan_of(results))
}

/// Whether a step is answered through the engine.
pub open spec fn is_request(step: StepView) -> bool {
    step matches StepView::Act(ActionView::Accept { .. })
}

/// What a single step puts on the wire: the bytes of its packet, none for
/// an action.
pub proof fn lemma_sent_bytes_of_one(step: StepView)
    ensures
        sent_bytes(seq![step]) == match step {
            StepView::Send(bytes) => bytes,
            StepView::Act(_) => Seq::<u8>::empty(),
        },
{
    let one = seq![step];
    assert(one.drop_last() =~= Seq::<StepView>::empty());
    assert(one.last() == step);
    assert(sent_bytes(one.drop_last()) =~= Seq::<u8>::empty());
    assert(sent_bytes(one) =~= sent_bytes(one.drop_last()) + match step {
        StepView::Send(bytes) => bytes,
        StepView::Act(_) => Seq::<u8>::empty(),
    });
}

/// The packets of two lists of steps, one carried out after the other, go on
/// the wire in that order.
pub proof fn lemma_sent_bytes_in_order(first: Seq<StepView>, second: Seq<StepView>)
    ensures
        sent_bytes(first + second) == sent_bytes(first) + sent_bytes(second),
    decreases second.len(),
{
    if second.len() == 0 {
        assert(first + second =~= first);
    } else {
        lemma_sent_bytes_in_order(first, second.drop_last());
        assert((first + second).drop_last() =~= first + second.drop_last());
        assert(sent_bytes(first + second) =~= sent_bytes(first) + sent_bytes(second));
    }
}

/// Plans the handling of the engine's results: one step per result, in the
/// order of the results. Video data is demultiplexed here, so that each step
/// names exactly what it will hand on.
pub fn plan_results(results: Vec<SessionResult>) -> (steps: Vec<SessionStep>)
    ensures
        steps_view(steps@) == plan_of(results@),
{
    let ghost all = results@;
    let mut pending: Vec<SessionResult> = results;
    let mut steps: Vec<SessionStep> = Vec::new();
    assert(steps_view(steps@) =~= plan_of(all.take(0)));
    while pending.len() > 0
        invariant
            steps@.len() <= all.len(),
            pending@ == all.skip(steps@.len() as int),
            steps_view(steps@) == plan_of(all.take(steps@.len() as int)),
        decreases pending@.len(),
    {
        let ghost done = steps@.len() as int;
        let ghost planned = steps@;
        let result: SessionResult = pending.remove(0);
        assert(result == all[done]);
        let step: SessionStep = match result {
            SessionResult::OutboundResponse(bytes) => SessionStep::Send(bytes),
            SessionResult::RaisedEvent(event) => SessionStep::Act(plan_event(event)),
            SessionResult::UnhandleableMessageReceived { type_id } => SessionStep::Act(
                EventAction::Nothing,
            ),
        };
        assert(step@ == step_of(all[done]));
        steps.push(step);
        proof {
            assert(pending@ =~= all.skip(done + 1));
            assert forall|i: int| 0 <= i <= done implies steps_view(steps@)[i] == plan_of(
                all.take(done + 1),
            )[i] by {
                if i < done {
                    assert(steps@[i] == planned[i]);
                    assert(steps_view(planned)[i] == plan_of(all.take(done))[i]);
                }
            }
            assert(steps_view(steps@) =~= plan_of(all.take(done + 1)));
        }
    }
    assert(all.take(all.len() as int) =~= all);
    steps
}

/// Appends the packets among `results` to `outbound`, in order. Events and
/// unhandled messages among them are passed over.
pub fn send_results(results: &Vec<SessionResult>, outbound: &mut Vec<u8>)
    ensures
        final(outbound)@ == old(outbound)@ + wire_bytes(results@),
{
    let ghost before = outbound@;
    let mut i: usize = 0;
    assert(outbound@ =~= before + wire_bytes(results@.take(0)));
    while i < results.len()
        invariant
            i <= results@.len(),
            outbound@ == before + wire_bytes(results@.take(i as int)),
        decreases results@.len() - i,
    {
        assert(plan_of(results@.take(i + 1)).drop_last() =~= plan_of(results@.take(i as int)));
        match &results[i] {
            SessionResult::OutboundResponse(bytes) => {
                outbound.extend_from_slice(bytes.as_slice());
            },
            _ => {},
        }
        assert(outbound@ =~= before + wire_bytes(results@.take(i + 1)));
        i = i + 1;
    }
    assert(results@.take(results@.len() as int) =~= results@);
}

/// What was appended to something appended to a buffer was appended to the
/// buffer.
pub proof fn lemma_prefix_chain(a: Seq<u8>, b: Seq<u8>, c: Seq<u8>)
    requires
        a.is_prefix_of(b),
        b.is_prefix_of(c),
    ensures
        a.is_prefix_of(c),
{
    assert(a =~= c.subrange(0, a.len() as int)) by {
        assert forall|i: int| 0 <= i < a.len() implies a[i] == c[i] by {
            assert(a[i] == b.subrange(0, a.len() as int)[i]);
            assert(b[i] == c.subrange(0, b.len() as int)[i]);
        }
    }
}

/// Whether two borrowed values are the same value.
pub open spec fn same_value<T: ?Sized>(a: &T, b: &T) -> bool {
    a == b
}

/// Whether `made` is what the engine gave when asked for a new session
/// with its default configuration.
pub closed spec fn engine_made(
    made: Result<(ServerSession, Vec<ServerSessionResult>), String>,
) -> bool {
    call_ensures(engine_create, (), made)
}

/// Whether `raw` is what the engine gave when `engine` was asked to accept
/// the request `request_id`.
pub closed spec fn engine_accepted(
    engine: &mut ServerSession,
    request_id: u32,
    raw: Result<Vec<ServerSessionResult>, String>,
) -> bool {
    call_ensures(engine_accept_request, (engine, request_id), raw)
}

/// Manages one publishing session.
pub struct RtmpSession {
    session: ServerSession,
}

impl RtmpSession {
    /// The engine's session that this one drives.
    pub closed spec fn engine(&self) -> ServerSession {
        self.session
    }

    /// Create a new session. The engine's opening control messages (chunk
    /// size, window acknowledgement and the like) are appended to
    /// `outbound`; the caller transmits them before it reads further input.
    ///
    /// The session drives the engine's session that the engine made for its
    /// default configuration, and `outbound` grows by exactly the packets
    /// among the results the engine made with it, in order. Where the engine
    /// fails, its message is the `Create` error and `outbound` is as it was.
    pub fn new(outbound: &mut Vec<u8>) -> (created: Result<RtmpSession, SessionError>)
        ensures
            old(outbound)@.is_prefix_of(final(outbound)@),
            created matches Err(e) ==> e is Create && final(outbound)@ == old(outbound)@,
            exists|made: Result<(ServerSession, Vec<ServerSessionResult>), String>| #[trigger]
                engine_made(made) && match made {
                    Err(message) => created == Err::<RtmpSession, SessionError>(
                        SessionError::Create(message),
                    ),
                    Ok((engine, initial)) => created matches Ok(session) && session.engine()
                        == engine && exists|results: Seq<SessionResult>| #[trigger]
                        all_read_as(initial@, results) && final(outbound)@ == old(outbound)@
                            + wire_bytes(results),
                },
    {
        let made: Result<(ServerSession, Vec<ServerSessionResult>), String> = engine_create();
        assert(engine_made(made));
        match made {
            Err(message) => Err(SessionError::Create(message)),
            Ok((session, initial)) => {
                let results: Vec<SessionResult> = read_results(initial);
                send_results(&results, outbound);
                Ok(RtmpSession { session })
            },
        }
    }

    /// The engine's session, for the caller to feed input to. The engine
    /// can unwind on malformed input, so the call into it is the caller's to
    /// make, where an unwind can be caught; what the engine gave goes to
    /// [`RtmpSession::handle_input`].
    pub fn engine_mut(&mut self) -> (engine: &mut ServerSession)
        ensures
            *engine == old(self).engine(),
            final(self).engine() == *final(engine),
    {
        &mut self.session
    }

    /// Handles what the engine gave for one input and dispatches the events
    /// it raised. Bytes to send back to the client are appended to
    /// `outbound`.
    ///
    /// Where the engine could not make sense of the input, its message is
    /// the `Input` error, and the session, `outbound` and the sink are as
    /// they were. Otherwise the engine's results are brought into the
    /// library's form, one for one, and handled strictly in the order the
    /// engine produced them, as [`RtmpSession::dispatch`] says. Nothing
    /// already in `outbound` is changed. An error is fatal to the
    /// connection.
    pub fn handle_input<S: VideoSink + ?Sized>(
        &mut self,
        answer: Result<Vec<ServerSessionResult>, String>,
        outbound: &mut Vec<u8>,
        sink: &mut S,
    ) -> (handled: Result<(), SessionError>)
        ensures
            old(outbound)@.is_prefix_of(final(outbound)@),
            answer matches Err(message) ==> handled == Err::<(), SessionError>(
                SessionError::Input(message),
            ) && *final(self) == *old(self) && final(outbound)@ == old(outbound)@ && same_value(
                &*final(sink),
                &*old(sink),
            ),
            answer matches Ok(list) ==> exists|
                results: Vec<SessionResult>,
                session: &mut RtmpSession,
                out: &mut Vec<u8>,
                handed: &mut S,
            |
                all_read_as(list@, results@) && *session == *old(self) && *final(session)
                    == *final(self) && *out == *old(outbound) && *final(out) == *final(outbound)
                    && same_value(&*handed, &*old(sink)) && same_value(
                    &*final(handed),
                    &*final(sink),
                ) && #[trigger] call_ensures(
                    RtmpSession::dispatch::<S>,
                    (session, results, out, handed),
                    handled,
                ),
    {
        match answer {
            Err(message) => Err(SessionError::Input(message)),
            Ok(list) => {
                let results: Vec<SessionResult> = read_results(list);
                self.dispatch(results, outbound, sink)
            },
        }
    }

    /// Handles a list of results: plans one step per result, as
    /// [`plan_results`] says, and carries the steps out in order, as
    /// [`RtmpSession::run_steps`] says.
    ///
    /// Where no event among the results is a request, nothing can fail: the
    /// call succeeds, the session is as it was, and `outbound` grows by
    /// exactly the packets, in order.
    pub fn dispatch<S: VideoSink + ?Sized>(
        &mut self,
        results: Vec<SessionResult>,
        outbound: &mut Vec<u8>,
        sink: &mut S,
    ) -> (handled: Result<(), SessionError>)
        ensures
            old(outbound)@.is_prefix_of(final(outbound)@),
            handled matches Err(e) ==> e is Accept && exists|i: int|
                0 <= i < results@.len() && is_request(#[trigger] plan_of(results@)[i]),
            (forall|i: int| 0 <= i < results@.len() ==> !is_request(#[trigger] plan_of(results@)[i]))
                ==> handled is Ok && final(outbound)@ == old(outbound)@ + wire_bytes(results@)
                && *final(self) == *old(self),
            exists|
                steps: Vec<SessionStep>,
                session: &mut RtmpSession,
                out: &mut Vec<u8>,
                handed: &mut S,
            |
                steps_view(steps@) == plan_of(results@) && *session == *old(self)
                    && *final(session) == *final(self) && *out == *old(outbound)
                    && *final(out) == *final(outbound)
                    && same_value(&*handed, &*old(sink)) && same_value(
                    &*final(handed),
                    &*final(sink),
                ) && #[trigger] call_ensures(
                    RtmpSession::run_steps::<S>,
                    (session, steps, out, handed),
                    handled,
                ),
    {
        let steps: Vec<SessionStep> = plan_results(results);
        proof {
            assert(steps_view(steps@).len() == steps@.len());
            assert(plan_of(results@).len() == results@.len());
        }
        self.run_steps(steps, outbound, sink)
    }

    /// Carries out a list of steps, strictly in order, each as
    /// [`RtmpSession::run_step`] says: the first step starts from the state
    /// the call was made in, each later step from the state the step before
    /// it left, and the call ends in the state the last step left. Only a
    /// request can fail, and the first one that does ends the call with its
    /// error: the steps before it have been carried out, the steps after it
    /// have not. Where every step succeeds, all of them were carried out.
    ///
    /// Where no step is a request, the call succeeds, the session is as it
    /// was, and `outbound` grows by exactly the packets.
    pub fn run_steps<S: VideoSink + ?Sized>(
        &mut self,
        steps: Vec<SessionStep>,
        outbound: &mut Vec<u8>,
        sink: &mut S,
    ) -> (handled: Result<(), SessionError>)
        ensures
            old(outbound)@.is_prefix_of(final(outbound)@),
            handled matches Err(e) ==> e is Accept && exists|i: int|
                0 <= i < steps@.len() && is_request(#[trigger] steps_view(steps@)[i]),
            (forall|i: int| 0 <= i < steps@.len() ==> !is_request(#[trigger] steps_view(steps@)[i]))
                ==> handled is Ok && final(outbound)@ == old(outbound)@ + sent_bytes(
                steps_view(steps@),
            ) && *final(self) == *old(self),
            exists|
                sessions: Seq<&mut RtmpSession>,
                outs: Seq<&mut Vec<u8>>,
                sinks: Seq<&mut S>,
                outcomes: Seq<Result<(), SessionError>>,
            |
                #![trigger sessions.len(), outs.len(), sinks.len(), outcomes.len()]
                {
                    &&& outcomes.len() <= steps@.len()
                    &&& sessions.len() == outcomes.len()
                    &&& outs.len() == outcomes.len()
                    &&& sinks.len() == outcomes.len()
                    &&& forall|i: int|
                        0 <= i < outcomes.len() ==> #[trigger] call_ensures(
                            RtmpSession::run_step::<S>,
                            (sessions[i], steps@[i], outs[i], sinks[i]),
                            outcomes[i],
                        )
                    &&& forall|i: int|
                        0 <= i < outcomes.len() - 1 ==> (#[trigger] outcomes[i]) is Ok && *sessions[i + 1] == *final(sessions[i])
                            && *outs[i + 1] == *final(outs[i]) && same_value(&*sinks[i + 1], &*final(sinks[i]))
                    &&& if outcomes.len() == 0 {
                        steps@.len() == 0 && handled is Ok && *final(self) == *old(self) && *final(outbound) == *old(outbound) && same_value(&*final(sink), &*old(sink))
                    } else {
                        &&& *sessions[0] == *old(self)
                        &&& *outs[0] == *old(outbound)
                        &&& same_value(&*sinks[0], &*old(sink))
                        &&& *final(sessions[outcomes.len() - 1]) == *final(self)
                        &&& *final(outs[outcomes.len() - 1]) == *final(outbound)
                        &&& same_value(&*final(sinks[outcomes.len() - 1]), &*final(sink))
                        &&& handled == outcomes[outcomes.len() - 1]
                        &&& outcomes[outcomes.len() - 1] is Ok ==> outcomes.len() == steps@.len()
                    }
                },
        decreases steps@.len(),
    {
        let ghost given = steps@;
        let ghost all = steps_view(given);
        let ghost before = outbound@;
        let mut rest: Vec<SessionStep> = steps;
        if rest.len() == 0 {
            proof {
                assert(all =~= Seq::<StepView>::empty());
                assert(outbound@ =~= before + sent_bytes(all));
                let sessions = Seq::<&mut RtmpSession>::empty();
                let outs = Seq::<&mut Vec<u8>>::empty();
                let sinks = Seq::<&mut S>::empty();
                let outcomes = Seq::<Result<(), SessionError>>::empty();
                assert(sessions.len() == 0 && outs.len() == 0 && sinks.len() == 0 && outcomes.len()
                    == 0);
            }
            return Ok(());
        }
        let ghost session_then = *self;
        let ghost out_then = *outbound;
        let ghost sink_then: &S = &*sink;
        let step: SessionStep = rest.remove(0);
        let ghost tail = rest@;
        proof {
            assert(step == given[0]);
            assert(tail =~= given.skip(1));
            assert(all =~= seq![step@] + steps_view(tail));
            lemma_sent_bytes_in_order(seq![step@], steps_view(tail));
        }
        let first: Result<(), SessionError> = self.run_step(step, outbound, sink);
        let ghost session_mid = *self;
        let ghost out_mid = *outbound;
        let ghost sink_mid: &S = &*sink;
        proof {
            let (session0, out0, sink0) = choose|
                session: &mut RtmpSession,
                out: &mut Vec<u8>,
                handed: &mut S,
            |
                *session == session_then && *final(session) == session_mid && *out == out_then
                    && *final(out) == out_mid && same_value(&*handed, sink_then) && same_value(
                    &*final(handed),
                    sink_mid,
                ) && #[trigger] call_ensures(
                    RtmpSession::run_step::<S>,
                    (session, step, out, handed),
                    first,
                );
            if first is Err {
                let sessions = seq![session0];
                let outs = seq![out0];
                let sinks = seq![sink0];
                let outcomes = seq![first];
                assert(sessions.len() == 1 && outs.len() == 1 && sinks.len() == 1 && outcomes.len()
                    == 1);
                assert(sessions[0] == session0 && outs[0] == out0 && sinks[0] == sink0
                    && outcomes[0] == first);
                assert(is_request(all[0]));
            }
        }
        if first.is_err() {
            return first;
        }
        let handled: Result<(), SessionError> = self.run_steps(rest, outbound, sink);
        proof {
            lemma_prefix_chain(before, out_mid@, outbound@);
            let (session0, out0, sink0) = choose|
                session: &mut RtmpSession,
                out: &mut Vec<u8>,
                handed: &mut S,
            |
                *session == session_then && *final(session) == session_mid && *out == out_then
                    && *final(out) == out_mid && same_value(&*handed, sink_then) && same_value(
                    &*final(handed),
                    sink_mid,
                ) && #[trigger] call_ensures(
                    RtmpSession::run_step::<S>,
                    (session, step, out, handed),
                    first,
                );
            let (tail_sessions, tail_outs, tail_sinks, tail_outcomes) = choose|
                sessions: Seq<&mut RtmpSession>,
                outs: Seq<&mut Vec<u8>>,
                sinks: Seq<&mut S>,
                outcomes: Seq<Result<(), SessionError>>,
            |
                #![trigger sessions.len(), outs.len(), sinks.len(), outcomes.len()]
                    {
                        &&& outcomes.len() <= tail.len()
                        &&& sessions.len() == outcomes.len()
                        &&& outs.len() == outcomes.len()
                        &&& sinks.len() == outcomes.len()
                        &&& forall|i: int|
                            0 <= i < outcomes.len() ==> #[trigger] call_ensures(
                                RtmpSession::run_step::<S>,
                                (sessions[i], tail[i], outs[i], sinks[i]),
                                outcomes[i],
                            )
                        &&& forall|i: int|
                            0 <= i < outcomes.len() - 1 ==> (#[trigger] outcomes[i]) is Ok && *sessions[i + 1] == *final(sessions[i])
                                && *outs[i + 1] == *final(outs[i]) && same_value(&*sinks[i + 1], &*final(sinks[i]))
                        &&& if outcomes.len() == 0 {
                            tail.len() == 0 && handled is Ok && *self == session_mid && *outbound == out_mid && same_value(&*sink, sink_mid)
                        } else {
                            &&& *sessions[0] == session_mid
                            &&& *outs[0] == out_mid
                            &&& same_value(&*sinks[0], sink_mid)
                            &&& *final(sessions[outcomes.len() - 1]) == *self
                            &&& *final(outs[outcomes.len() - 1]) == *outbound
                            &&& same_value(&*final(sinks[outcomes.len() - 1]), &*sink)
                            &&& handled == outcomes[outcomes.len() - 1]
                            &&& outcomes[outcomes.len() - 1] is Ok ==> outcomes.len() == tail.len()
                        }
                    };
            let sessions = seq![session0] + tail_sessions;
            let outs = seq![out0] + tail_outs;
            let sinks = seq![sink0] + tail_sinks;
            let outcomes = seq![first] + tail_outcomes;
            assert(sessions.len() == outcomes.len() && outs.len() == outcomes.len() && sinks.len()
                == outcomes.len() && outcomes.len() == tail_outcomes.len() + 1);
            assert(sessions[0] == session0 && outs[0] == out0 && sinks[0] == sink0 && outcomes[0]
                == first);
            assert forall|i: int| 0 <= i < outcomes.len() implies #[trigger] call_ensures(
                RtmpSession::run_step::<S>,
                (sessions[i], given[i], outs[i], sinks[i]),
                outcomes[i],
            ) by {
                if i > 0 {
                    assert(sessions[i] == tail_sessions[i - 1] && outs[i] == tail_outs[i - 1]
                        && sinks[i] == tail_sinks[i - 1] && outcomes[i] == tail_outcomes[i - 1]
                        && given[i] == tail[i - 1]);
                    assert(call_ensures(
                        RtmpSession::run_step::<S>,
                        (tail_sessions[i - 1], tail[i - 1], tail_outs[i - 1], tail_sinks[i - 1]),
                        tail_outcomes[i - 1],
                    ));
                }
            }
            assert forall|i: int| 0 <= i < outcomes.len() - 1 implies (#[trigger] outcomes[i])
                is Ok && *sessions[i + 1] == *final(sessions[i]) && *outs[i + 1] == *final(outs[i]) && same_value(&*sinks[i + 1], &*final(sinks[i])) by {
                assert(sessions[i + 1] == tail_sessions[i] && outs[i + 1] == tail_outs[i]
                    && sinks[i + 1] == tail_sinks[i] && outcomes[i + 1] == tail_outcomes[i]);
                if i > 0 {
                    assert(sessions[i] == tail_sessions[i - 1] && outs[i] == tail_outs[i - 1]
                        && sinks[i] == tail_sinks[i - 1] && outcomes[i] == tail_outcomes[i - 1]);
                    assert(tail_outcomes[i - 1] is Ok);
                }
            }
            let last = outcomes.len() - 1;
            if tail_outcomes.len() > 0 {
                assert(sessions[last] == tail_sessions[last - 1] && outs[last] == tail_outs[last
                    - 1] && sinks[last] == tail_sinks[last - 1] && outcomes[last]
                    == tail_outcomes[last - 1]);
            } else {
                assert(first is Ok && handled is Ok);
                assert(first->Ok_0 == () && handled->Ok_0 == ());
                assert(handled == first);
            }
            assert(given.len() == tail.len() + 1);
            assert(outcomes.len() <= given.len());
            assert(*sessions[0] == *old(self));
            assert(*outs[0] == *old(outbound));
            assert(same_value(&*sinks[0], &*old(sink)));
            assert(*final(sessions[last]) == *self);
            assert(*final(outs[last]) == *outbound);
            assert(same_value(&*final(sinks[last]), &*sink));
            assert(handled == outcomes[last]);
            assert(outcomes[last] is Ok ==> outcomes.len() == given.len());
            if handled is Err {
                let i = choose|i: int|
                    0 <= i < tail.len() && is_request(#[trigger] steps_view(tail)[i]);
                assert(all[i + 1] == steps_view(tail)[i]);
            }
            if forall|i: int| 0 <= i < given.len() ==> !is_request(#[trigger] all[i]) {
                assert forall|i: int| 0 <= i < tail.len() implies !is_request(
                    #[trigger] steps_view(tail)[i],
                ) by {
                    assert(all[i + 1] == steps_view(tail)[i]);
                }
                assert(!is_request(all[0]));
                assert(outbound@ =~= before + sent_bytes(all));
            }
        }
        handled
    }

    /// Carries out one step: appends a packet to `outbound` and touches
    /// nothing else, or carries out an action as [`RtmpSession::act`] says.
    pub fn run_step<S: VideoSink + ?Sized>(
        &mut self,
        step: SessionStep,
        outbound: &mut Vec<u8>,
        sink: &mut S,
    ) -> (handled: Result<(), SessionError>)
        ensures
            old(outbound)@.is_prefix_of(final(outbound)@),
            handled matches Err(e) ==> e is Accept && is_request(step@),
            !is_request(step@) ==> handled is Ok && final(outbound)@ == old(outbound)@
                + sent_bytes(seq![step@]) && *final(self) == *old(self),
            step matches SessionStep::Send(bytes) ==> handled is Ok && final(outbound)@ == old(outbound)@ + bytes@ && *final(self) == *old(self) && same_value(&*final(sink), &*old(sink)),
            step matches SessionStep::Act(action) ==> exists|
                session: &mut RtmpSession,
                out: &mut Vec<u8>,
                handed: &mut S,
            |
                *session == *old(self) && *final(session) == *final(self) && *out == *old(outbound)
                    && *final(out) == *final(outbound) && same_value(&*handed, &*old(sink))
                    && same_value(&*final(handed), &*final(sink)) && #[trigger] call_ensures(
                    RtmpSession::act::<S>,
                    (session, action, out, handed),
                    handled,
                ),
    {
        let ghost before = outbound@;
        proof {
            lemma_sent_bytes_of_one(step@);
        }
        match step {
            SessionStep::Send(bytes) => {
                outbound.extend_from_slice(bytes.as_slice());
                assert(before.is_prefix_of(outbound@)) by {
                    assert(before =~= outbound@.subrange(0, before.len() as int));
                }
                assert(outbound@ =~= before + sent_bytes(seq![step@]));
                Ok(())
            },
            SessionStep::Act(action) => {
                let handled: Result<(), SessionError> = self.act(action, outbound, sink);
                assert(outbound@ =~= before + sent_bytes(seq![step@]) || is_request(step@));
                handled
            },
        }
    }

    /// Handles one event: decides what it calls for, as [`plan_event`] says,
    /// and carries that out, as [`RtmpSession::act`] says.
    ///
    /// Video data that holds a configuration record is handed to the sink's
    /// `on_decoder_config`, in one call, as the configuration the record
    /// holds; video data that holds NAL units is handed to its
    /// `on_video_data`, in one call, as the bytes behind the tag's prefix and
    /// with the event's timestamp. The sink is then as that call left it.
    /// Any other event leaves the sink as it was. A connect, publish or
    /// release request is put to the engine under its request id; the
    /// engine's refusal is the call's error, its answer goes to `outbound`.
    /// Only a request can fail.
    pub fn handle_event<S: VideoSink + ?Sized>(
        &mut self,
        event: SessionEvent,
        outbound: &mut Vec<u8>,
        sink: &mut S,
    ) -> (handled: Result<(), SessionError>)
        ensures
            old(outbound)@.is_prefix_of(final(outbound)@),
            handled matches Err(e) ==> e is Accept && event_action(event) is Accept
                && final(outbound)@ == old(outbound)@,
            !(event_action(event) is Accept) ==> handled is Ok && final(outbound)@ == old(outbound)@ && *final(self) == *old(self),
            event_action(event) matches ActionView::Configure(parsed) ==> exists|
                handed: &mut S,
                config: AvcDecoderConfig,
            |
                config@ == parsed && same_value(&*handed, &*old(sink)) && same_value(
                    &*final(handed),
                    &*final(sink),
                ) && #[trigger] call_ensures(S::on_decoder_config, (handed, config), ()),
            event_action(event) matches ActionView::Decode { payload, timestamp } ==> exists|
                handed: &mut S,
                data: Bytes,
            |
                bytes_contents(data) == payload && same_value(&*handed, &*old(sink))
                    && same_value(&*final(handed), &*final(sink)) && #[trigger] call_ensures(
                    S::on_video_data,
                    (handed, data, timestamp),
                    (),
                ),
            event_action(event) is Accept || event_action(event) is Nothing ==> same_value(
                &*final(sink),
                &*old(sink),
            ),
            event_action(event) matches ActionView::Accept { request_id } ==> exists|
                engine: &mut ServerSession,
                raw: Result<Vec<ServerSessionResult>, String>,
            |
                *engine == old(self).engine() && *final(engine) == final(self).engine()
                    && #[trigger] engine_accepted(engine, request_id, raw) && match raw {
                    Err(message) => handled == Err::<(), SessionError>(
                        SessionError::Accept(message),
                    ),
                    Ok(list) => handled is Ok && exists|results: Seq<SessionResult>|
                        #[trigger] all_read_as(list@, results) && final(outbound)@ == old(outbound)@ + wire_bytes(results),
                },
    {
        let action: EventAction = plan_event(event);
        let ghost planned = action;
        let handled: Result<(), SessionError> = self.act(action, outbound, sink);
        proof {
            match planned {
                EventAction::Configure(config) => {
                    assert(event_action(event) == ActionView::Configure(config@));
                },
                EventAction::Decode { data, timestamp } => {
                    assert(event_action(event)->timestamp == timestamp);
                    assert(event_action(event)->payload == bytes_contents(data));
                },
                EventAction::Accept { request_id } => {
                    assert(event_action(event)->request_id == request_id);
                },
                EventAction::Nothing => {},
            }
        }
        handled
    }

    /// Carries out one action.
    ///
    /// A request is put to the engine under its request id, whatever it asks
    /// for: where the engine refuses, its message is the call's error; where
    /// it accepts, the packets of its answer are appended to `outbound`, in
    /// order. The sink is not touched. A configuration is handed to the
    /// sink's `on_decoder_config`, a frame with its timestamp to its
    /// `on_video_data`, each in one call that takes exactly what the action
    /// holds; the sink is then as that call left it, and neither the session
    /// nor `outbound` is touched. Nothing but a request can fail.
    pub fn act<S: VideoSink + ?Sized>(
        &mut self,
        action: EventAction,
        outbound: &mut Vec<u8>,
        sink: &mut S,
    ) -> (handled: Result<(), SessionError>)
        ensures
            old(outbound)@.is_prefix_of(final(outbound)@),
            handled matches Err(e) ==> e is Accept && action@ is Accept && final(outbound)@
                == old(outbound)@,
            !(action@ is Accept) ==> handled is Ok && final(outbound)@ == old(outbound)@
                && *final(self) == *old(self),
            action matches EventAction::Configure(config) ==> exists|handed: &mut S|
                same_value(&*handed, &*old(sink)) && same_value(&*final(handed), &*final(sink))
                    && #[trigger] call_ensures(S::on_decoder_config, (handed, config), ()),
            action matches EventAction::Decode { data, timestamp } ==> exists|handed: &mut S|
                same_value(&*handed, &*old(sink)) && same_value(&*final(handed), &*final(sink))
                    && #[trigger] call_ensures(S::on_video_data, (handed, data, timestamp), ()),
            action is Accept || action is Nothing ==> same_value(&*final(sink), &*old(sink)),
            action matches EventAction::Accept { request_id } ==> exists|
                engine: &mut ServerSession,
                raw: Result<Vec<ServerSessionResult>, String>,
            |
                *engine == old(self).engine() && *final(engine) == final(self).engine()
                    && #[trigger] engine_accepted(engine, request_id, raw) && match raw {
                    Err(message) => handled == Err::<(), SessionError>(
                        SessionError::Accept(message),
                    ),
                    Ok(list) => handled is Ok && exists|results: Seq<SessionResult>|
                        #[trigger] all_read_as(list@, results) && final(outbound)@ == old(outbound)@ + wire_bytes(results),
                },
    {
        match action {
            EventAction::Accept { request_id } => {
                let results: Vec<SessionResult> = match self.accept(request_id) {
                    Err(e) => {
                        return Err(e);
                    },
                    Ok(results) => results,
                };
                send_results(&results, outbound);
                Ok(())
            },
            EventAction::Configure(config) => {
                sink.on_decoder_config(config);
                Ok(())
            },
            EventAction::Decode { data, timestamp } => {
                sink.on_video_data(data, timestamp);
                Ok(())
            },
            EventAction::Nothing => Ok(()),
        }
    }

    /// Puts the request `request_id` to the engine. Where the engine refuses,
    /// its message comes back as an `Accept` error; where it accepts, its
    /// answer comes back in the library's own form, one result for each of
    /// the engine's and in the same order.
    fn accept(&mut self, request_id: u32) -> (answer: Result<Vec<SessionResult>, SessionError>)
        ensures
            answer matches Err(e) ==> e is Accept,
            exists|engine: &mut ServerSession, raw: Result<Vec<ServerSessionResult>, String>|
                *engine == old(self).engine() && *final(engine) == final(self).engine()
                    && #[trigger] engine_accepted(engine, request_id, raw) && match raw {
                    Err(message) => answer == Err::<Vec<SessionResult>, SessionError>(
                        SessionError::Accept(message),
                    ),
                    Ok(list) => answer matches Ok(results) && all_read_as(list@, results@),
                },
    {
        let raw: Result<Vec<ServerSessionResult>, String> = engine_accept_request(
            &mut self.session,
            request_id,
        );
        proof {
            let engine = choose|engine: &mut ServerSession|
                *engine == old(self).session && *final(engine) == self.session
                    && #[trigger] call_ensures(engine_accept_request, (engine, request_id), raw);
            assert(engine_accepted(engine, request_id, raw));
        }
        match raw {
            Err(message) => Err(SessionError::Accept(message)),
            Ok(list) => Ok(read_results(list)),
        }
    }
}

} // verus!
