use bytes::Bytes;
use rml_rtmp::handshake::{Handshake, HandshakeProcessResult, PeerType};
use rml_rtmp::sessions::{ClientSession, ClientSessionConfig, ClientSessionResult};
use rtmp_vcam::connection::{Connection, ConnectionError, ReadOutcome};
use rtmp_vcam::flv::AvcDecoderConfig;
use rtmp_vcam::handshake::HandshakeError;
use rtmp_vcam::session::{RtmpSession, SessionError, VideoSink};

struct Ignore;

impl VideoSink for Ignore {
    fn on_decoder_config(&mut self, _config: AvcDecoderConfig) {}

    fn on_video_data(&mut self, _data: Bytes, _timestamp: u32) {}
}

/// Hands one read to the connection the way the owner of the socket does:
/// where the connection asks to feed bytes, they go to the engine and the
/// engine's answer goes back to the connection. Returns what was fed.
fn read(
    connection: &mut Connection,
    data: &[u8],
    outbound: &mut Vec<u8>,
) -> (Result<ReadOutcome, ConnectionError>, Option<Vec<u8>>) {
    match connection.on_read(data, outbound) {
        Ok(ReadOutcome::Feed(bytes)) => {
            let answer = connection
                .engine_mut()
                .unwrap()
                .handle_input(&bytes)
                .map_err(|e| format!("session handle_input error: {e:?}"));
            let handled = connection.on_answer(answer, outbound, &mut Ignore);
            (handled.map(|_| ReadOutcome::Continue), Some(bytes))
        }
        other => (other, None),
    }
}

/// Takes a connection through the handshake; `behind` rides along with the
/// client's closing packet. Returns what the connection sent on that read
/// and what it asked to feed.
fn shake_hands(connection: &mut Connection, behind: &[u8]) -> (Vec<u8>, Option<Vec<u8>>) {
    let mut client = Handshake::new(PeerType::Client);
    let c0_c1 = client.generate_outbound_p0_and_p1().unwrap();
    let mut outbound = Vec::new();
    assert_eq!(read(connection, &c0_c1, &mut outbound), (Ok(ReadOutcome::Continue), None));
    assert!(!connection.is_streaming());
    assert_eq!(outbound.len(), 1 + 1536 + 1536);
    let mut c2 = match client.process_bytes(&outbound).unwrap() {
        HandshakeProcessResult::Completed { response_bytes, .. } => response_bytes,
        other => panic!("client did not complete: {:?}", other),
    };
    c2.extend_from_slice(behind);
    let mut outbound = Vec::new();
    let (handled, fed) = read(connection, &c2, &mut outbound);
    assert_eq!(handled, Ok(ReadOutcome::Continue));
    (outbound, fed)
}

#[test]
fn new_connection_is_not_streaming() {
    let mut connection = Connection::new();
    assert!(!connection.is_streaming());
    assert!(connection.engine_mut().is_none());
}

#[test]
fn close_during_handshake_is_an_error() {
    let mut connection = Connection::new();
    let mut outbound = vec![1];
    assert_eq!(
        connection.on_read(&[], &mut outbound),
        Err(ConnectionError::ClosedDuringHandshake)
    );
    assert_eq!(outbound, vec![1]);
    assert!(!connection.is_streaming());
}

#[test]
fn handshake_opens_the_session_and_sends_its_opening_messages() {
    let mut connection = Connection::new();
    let (sent, fed) = shake_hands(&mut connection, &[]);
    assert!(connection.is_streaming());
    assert!(fed.is_none());
    // the engine's opening messages went out on the completing read
    let mut expected_opening = Vec::new();
    RtmpSession::new(&mut expected_opening).unwrap();
    assert_eq!(sent.len(), expected_opening.len());
}

#[test]
fn bytes_behind_the_handshake_are_the_first_input_of_the_session() {
    let (mut client, _) = ClientSession::new(ClientSessionConfig::new()).unwrap();
    let connect = match client.request_connection(String::from("live")).unwrap() {
        ClientSessionResult::OutboundResponse(packet) => packet.bytes,
        other => panic!("expected a packet, got {:?}", other),
    };
    let mut connection = Connection::new();
    let (with_leftover, fed) = shake_hands(&mut connection, &connect);
    // all of them, and nothing else
    assert_eq!(fed, Some(connect));
    let mut quiet = Connection::new();
    let (without, _) = shake_hands(&mut quiet, &[]);
    // the connect request was answered on the same read
    assert!(with_leftover.len() > without.len());
    assert!(connection.is_streaming());
}

#[test]
fn a_read_of_an_open_session_is_fed_whole() {
    let mut connection = Connection::new();
    shake_hands(&mut connection, &[]);
    let mut outbound = vec![9];
    assert_eq!(
        connection.on_read(&[1, 2, 3, 4], &mut outbound),
        Ok(ReadOutcome::Feed(vec![1, 2, 3, 4]))
    );
    assert_eq!(outbound, vec![9]);
}

#[test]
fn close_after_handshake_is_the_normal_end() {
    let mut connection = Connection::new();
    shake_hands(&mut connection, &[]);
    let mut outbound = vec![2, 3];
    assert_eq!(connection.on_read(&[], &mut outbound), Ok(ReadOutcome::Closed));
    assert_eq!(outbound, vec![2, 3]);
    assert!(connection.is_streaming());
}

#[test]
fn bad_handshake_is_a_handshake_error() {
    let mut connection = Connection::new();
    let mut bytes = vec![0u8; 1537];
    bytes[0] = 9;
    let mut outbound = Vec::new();
    match connection.on_read(&bytes, &mut outbound) {
        Err(ConnectionError::Handshake(HandshakeError::Rejected(_))) => {}
        other => panic!("expected a rejected handshake, got {:?}", other),
    }
    assert!(outbound.is_empty());
    assert!(!connection.is_streaming());
}

#[test]
fn bad_session_bytes_are_a_session_error() {
    let mut connection = Connection::new();
    shake_hands(&mut connection, &[]);
    let mut outbound = Vec::new();
    let (handled, fed) = read(&mut connection, &[0xC5, 0, 0, 0], &mut outbound);
    match handled {
        Err(ConnectionError::Session(SessionError::Input(_))) => {}
        other => panic!("expected a session input error, got {:?}", other),
    }
    assert_eq!(fed, Some(vec![0xC5, 0, 0, 0]));
    assert!(connection.is_streaming());
}

#[test]
fn an_answer_without_a_session_is_refused() {
    let mut connection = Connection::new();
    let mut outbound = vec![4];
    assert_eq!(
        connection.on_answer(Ok(Vec::new()), &mut outbound, &mut Ignore),
        Err(ConnectionError::NotStreaming)
    );
    assert_eq!(outbound, vec![4]);
    assert!(!connection.is_streaming());
}

#[test]
fn open_session_asks_to_feed_what_came_behind_the_handshake() {
    let mut connection = Connection::new();
    let mut outbound = vec![7];
    assert_eq!(
        connection.open_session(Bytes::from(vec![1, 2, 3]), &mut outbound),
        Ok(ReadOutcome::Feed(vec![1, 2, 3]))
    );
    assert!(connection.is_streaming());
    assert_eq!(outbound[0], 7);
    assert!(outbound.len() > 1);
    let mut other = Connection::new();
    assert_eq!(other.open_session(Bytes::new(), &mut Vec::new()), Ok(ReadOutcome::Continue));
}
