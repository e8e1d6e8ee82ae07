use rml_rtmp::handshake::{Handshake, HandshakeProcessResult, PeerType};
use rtmp_vcam::handshake::{HandshakeError, HandshakeState, HandshakeStep};

/// Runs the client's side up to its last packet: returns the client's first
/// bytes' answer from the server and the client's closing packet.
fn client_closing_packet(server: &mut HandshakeState) -> Vec<u8> {
    let mut client = Handshake::new(PeerType::Client);
    let c0_c1 = client.generate_outbound_p0_and_p1().unwrap();
    let (s0_s1_s2, leftover) = server.process(&c0_c1).unwrap();
    assert!(leftover.is_none());
    assert_eq!(s0_s1_s2.len(), 1 + 1536 + 1536);
    assert!(!server.is_completed());
    match client.process_bytes(&s0_s1_s2).unwrap() {
        HandshakeProcessResult::Completed { response_bytes, .. } => response_bytes,
        other => panic!("client did not complete: {:?}", other),
    }
}

#[test]
fn new_handshake_is_not_completed() {
    let state = HandshakeState::new();
    assert!(!state.is_completed());
}

#[test]
fn handshake_completes_and_hands_over_leftover() {
    let mut server = HandshakeState::new();
    let mut c2 = client_closing_packet(&mut server);
    c2.extend_from_slice(&[0xDE, 0xAD, 0xBE, 0xEF, 0x01]);
    let (response, leftover) = server.process(&c2).unwrap();
    assert!(response.is_empty());
    assert_eq!(&leftover.unwrap()[..], &[0xDE, 0xAD, 0xBE, 0xEF, 0x01]);
    assert!(server.is_completed());
}

#[test]
fn handshake_completes_with_empty_leftover() {
    let mut server = HandshakeState::new();
    let c2 = client_closing_packet(&mut server);
    let (_, leftover) = server.process(&c2).unwrap();
    assert_eq!(leftover.unwrap().len(), 0);
    assert!(server.is_completed());
}

#[test]
fn handshake_takes_fragments() {
    let mut server = HandshakeState::new();
    let mut client = Handshake::new(PeerType::Client);
    let c0_c1 = client.generate_outbound_p0_and_p1().unwrap();
    let mut answer: Vec<u8> = Vec::new();
    for piece in c0_c1.chunks(500) {
        let (response, leftover) = server.process(piece).unwrap();
        assert!(leftover.is_none());
        answer.extend_from_slice(&response);
    }
    assert_eq!(answer.len(), 1 + 1536 + 1536);
    let c2 = match client.process_bytes(&answer).unwrap() {
        HandshakeProcessResult::Completed { response_bytes, .. } => response_bytes,
        other => panic!("client did not complete: {:?}", other),
    };
    let (first, second) = c2.split_at(1000);
    let (_, leftover) = server.process(first).unwrap();
    assert!(leftover.is_none());
    assert!(!server.is_completed());
    let (_, leftover) = server.process(second).unwrap();
    assert!(leftover.is_some());
    assert!(server.is_completed());
}

#[test]
fn process_after_completion_fails() {
    let mut server = HandshakeState::new();
    let c2 = client_closing_packet(&mut server);
    server.process(&c2).unwrap();
    assert_eq!(server.process(&[1, 2, 3]).unwrap_err(), HandshakeError::AlreadyCompleted);
    assert_eq!(server.process(&[]).unwrap_err(), HandshakeError::AlreadyCompleted);
    assert!(server.is_completed());
}

#[test]
fn bad_version_byte_is_rejected() {
    let mut server = HandshakeState::new();
    let mut bytes = vec![0u8; 1537];
    bytes[0] = 4;
    match server.process(&bytes) {
        Err(HandshakeError::Rejected(reason)) => {
            assert!(reason.starts_with("handshake error: "), "{}", reason);
            assert!(reason.contains("BadVersionId"), "{}", reason);
        }
        other => panic!("expected a rejection, got {:?}", other),
    }
    assert!(!server.is_completed());
}

#[test]
fn conclude_in_progress_sends_the_response() {
    let mut state = HandshakeState::new();
    let outcome = state.conclude(HandshakeStep::InProgress { response_bytes: vec![1, 2, 3] });
    let (response, leftover) = outcome.unwrap();
    assert_eq!(&response[..], &[1, 2, 3]);
    assert!(leftover.is_none());
    assert!(!state.is_completed());
}

#[test]
fn conclude_completed_hands_over_everything_in_order() {
    let mut state = HandshakeState::new();
    let outcome = state.conclude(HandshakeStep::Completed {
        response_bytes: vec![9],
        remaining_bytes: vec![5, 6, 7, 8],
    });
    let (response, leftover) = outcome.unwrap();
    assert_eq!(&response[..], &[9]);
    assert_eq!(&leftover.unwrap()[..], &[5, 6, 7, 8]);
    assert!(state.is_completed());
    assert_eq!(state.process(&[0]).unwrap_err(), HandshakeError::AlreadyCompleted);
}

#[test]
fn conclude_failed_passes_the_reason_on() {
    let mut state = HandshakeState::new();
    let outcome = state.conclude(HandshakeStep::Failed { reason: String::from("no") });
    assert_eq!(outcome.unwrap_err(), HandshakeError::Rejected(String::from("no")));
    assert!(!state.is_completed());
}
