use filesync::error::Error;
use filesync::identity::Fingerprint;
use filesync::pairing::{
    display_name, initiator_start, initiator_step, pairing_header, pairing_length, read_peer_identity,
    responder_step, Initiator, LocalIdentity, PairingEvent, Responder, Transition,
};
use filesync::wire::PairingMessage;

const ID_A: u128 = 0x1111_2222_3333_4444_5555_6666_7777_8888;
const ID_B: u128 = 0x9999_aaaa_bbbb_cccc_dddd_eeee_ffff_0000;

// "AQID" is the base64 of the bytes 1, 2, 3; "BAUG" of 4, 5, 6.
const CERT_A: &str = "-----BEGIN CERTIFICATE-----\nAQID\n-----END CERTIFICATE-----\n";
const CERT_B: &str = "-----BEGIN CERTIFICATE-----\nBAUG\n-----END CERTIFICATE-----\n";

fn me(id: u128, cert: &str, name: &str) -> LocalIdentity {
    LocalIdentity { id, cert_pem: cert.to_string(), name: name.to_string() }
}

fn pairing_error<S>(t: Transition<S>) -> (Option<PairingMessage>, String) {
    match t {
        Transition::End { send, result: Err(Error::Pairing(m)) } => (send, m),
        _ => panic!("expected the handshake to fail"),
    }
}

#[test]
fn both_sides_pair_after_both_users_confirm() {
    let a = me(ID_A, CERT_A, "alpha");
    let b = me(ID_B, CERT_B, "beta");
    let (request, ini) = initiator_start(&a);
    match &request {
        PairingMessage::Request { id, name, .. } => {
            assert_eq!(id, "11112222-3333-4444-5555-666677778888");
            assert_eq!(name, "alpha");
        },
        _ => panic!("expected a request"),
    }
    let (response, ask_b, res) = match responder_step(&b, Responder::AwaitRequest, PairingEvent::Received(request)) {
        Transition::Wait { send: Some(m), ask: Some(a), next } => (m, a, next),
        _ => panic!("responder should answer and ask"),
    };
    assert_eq!(ask_b, Fingerprint::from_cert_der(&[1, 2, 3]).short());
    let (ask_a, ini) = match initiator_step(ini, PairingEvent::Received(response)) {
        Transition::Wait { send: None, ask: Some(a), next } => (a, next),
        _ => panic!("initiator should ask"),
    };
    assert_eq!(ask_a, Fingerprint::from_cert_der(&[4, 5, 6]).short());
    let (confirm, ini) = match initiator_step(ini, PairingEvent::Answered(true)) {
        Transition::Wait { send: Some(m), ask: None, next } => (m, next),
        _ => panic!("initiator should confirm"),
    };
    assert!(matches!(confirm, PairingMessage::Confirm));
    let res = match responder_step(&b, res, PairingEvent::Answered(true)) {
        Transition::Wait { send: None, ask: None, next } => next,
        _ => panic!("responder should wait for the confirmation"),
    };
    let (back, peer_a) = match responder_step(&b, res, PairingEvent::Received(confirm)) {
        Transition::End { send: Some(m), result: Ok(p) } => (m, p),
        _ => panic!("responder should pair"),
    };
    assert_eq!(peer_a.peer_id, ID_A);
    assert_eq!(peer_a.peer_name, "alpha");
    assert_eq!(peer_a.peer_cert_pem, CERT_A);
    let peer_b = match initiator_step(ini, PairingEvent::Received(back)) {
        Transition::End { send: None, result: Ok(p) } => p,
        _ => panic!("initiator should pair"),
    };
    assert_eq!(peer_b.peer_id, ID_B);
    assert_eq!(peer_b.peer_name, "beta");
    assert_eq!(peer_b.peer_fingerprint, Fingerprint::from_cert_der(&[4, 5, 6]));
}

#[test]
fn a_user_who_refuses_sends_a_rejection() {
    let peer = read_peer_identity("11112222-3333-4444-5555-666677778888", CERT_A, "alpha").unwrap();
    let (send, m) = pairing_error(initiator_step(Initiator::AwaitUser(peer), PairingEvent::Answered(false)));
    assert!(matches!(send, Some(PairingMessage::Reject)));
    assert_eq!(m, "user rejected pairing");
    let peer = read_peer_identity("11112222-3333-4444-5555-666677778888", CERT_A, "alpha").unwrap();
    let b = me(ID_B, CERT_B, "beta");
    let (send, m) = pairing_error(responder_step(&b, Responder::AwaitUser(peer), PairingEvent::Answered(false)));
    assert!(matches!(send, Some(PairingMessage::Reject)));
    assert_eq!(m, "user rejected pairing");
}

#[test]
fn out_of_turn_messages_end_the_handshake() {
    let b = me(ID_B, CERT_B, "beta");
    let (send, m) = pairing_error(responder_step(&b, Responder::AwaitRequest, PairingEvent::Received(PairingMessage::Confirm)));
    assert!(send.is_none());
    assert_eq!(m, "expected PairRequest, got something else");
    let (_, m) = pairing_error(initiator_step(Initiator::AwaitResponse, PairingEvent::Received(PairingMessage::Reject)));
    assert_eq!(m, "peer rejected pairing");
    let (_, m) = pairing_error(initiator_step(Initiator::AwaitResponse, PairingEvent::Received(PairingMessage::Confirm)));
    assert_eq!(m, "unexpected message during pairing");
    let peer = read_peer_identity("11112222-3333-4444-5555-666677778888", CERT_A, "alpha").unwrap();
    let (send, m) = pairing_error(initiator_step(Initiator::AwaitConfirm(peer), PairingEvent::Received(PairingMessage::Reject)));
    assert!(send.is_none());
    assert_eq!(m, "peer rejected after confirm");
    let peer = read_peer_identity("11112222-3333-4444-5555-666677778888", CERT_A, "alpha").unwrap();
    let (send, m) = pairing_error(responder_step(&b, Responder::AwaitConfirm(peer), PairingEvent::Received(PairingMessage::Reject)));
    assert!(matches!(send, Some(PairingMessage::Reject)));
    assert_eq!(m, "initiator rejected pairing");
}

#[test]
fn a_peer_identity_needs_a_uuid_and_a_pem_certificate() {
    let e = read_peer_identity("not-a-uuid", CERT_A, "x").err().unwrap();
    assert!(e.starts_with("invalid UUID: "));
    let e = read_peer_identity("11112222-3333-4444-5555-666677778888", "garbage", "x").err().unwrap();
    assert!(e.starts_with("parse peer cert: "));
    let p = read_peer_identity("11112222-3333-4444-5555-666677778888", CERT_A, "x").unwrap();
    assert_eq!(p.peer_fingerprint, Fingerprint::from_cert_der(&[1, 2, 3]));
}

#[test]
fn pairing_messages_are_length_prefixed_and_capped() {
    assert_eq!(pairing_header(0x0102_0304), [1, 2, 3, 4]);
    assert_eq!(pairing_length([0, 0, 1, 0]).unwrap(), 256);
    assert_eq!(pairing_length([0, 0x10, 0, 0]).unwrap(), 1_048_576);
    match pairing_length([0, 0x10, 0, 1]) {
        Err(Error::Pairing(m)) => assert_eq!(m, "message too large"),
        _ => panic!("a message over the cap is refused"),
    }
}

#[test]
fn an_instance_without_a_host_name_is_unknown() {
    assert_eq!(display_name(None), "Unknown");
    assert_eq!(display_name(Some("desk".to_string())), "desk");
}
