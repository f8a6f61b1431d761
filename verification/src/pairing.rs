//! The pairing handshake, as decisions. Each step takes what arrived (a
//! message from the peer, or the user's answer) and says what to send, what
//! to ask the user, and whether the handshake goes on or ends. Moving the
//! messages and asking the user are left to the caller.
//!
//! The initiator sends a request; the responder answers with its own
//! identity; each user compares the peer's fingerprint; the initiator
//! confirms and the responder confirms back.
use vstd::prelude::*;

use crate::error::Error;
use crate::identity::{colon_hex, pem_contents, pem_parse, sha256_digest, Fingerprint};
use crate::profiles::{parse_uuid_text, uuid_parse, uuid_string, uuid_text};
use crate::text::{chars_of, push_str, string_from_chars};
use crate::transport::{be_bytes, be_value, lemma_be_roundtrip};
use crate::wire::PairingMessage;

verus! {

/// The largest pairing message accepted, in bytes.
pub const MAX_PAIRING_MESSAGE: u32 = 1048576;

/// The four-byte length prefix that goes before a pairing message of `len`
/// bytes, most significant byte first.
pub fn pairing_header(len: u32) -> (r: [u8; 4])
    ensures
        r@ == be_bytes(len),
{
    let r = [(len >> 24u32) as u8, (len >> 16u32) as u8, (len >> 8u32) as u8, len as u8];
    assert(r@ =~= be_bytes(len));
    r
}

/// The length that a pairing message's prefix announces, when it is no more
/// than the largest accepted.
pub fn pairing_length(header: [u8; 4]) -> (r: Result<usize, Error>)
    ensures
        ({
            let n = be_value(header@[0], header@[1], header@[2], header@[3]);
            &&& n <= MAX_PAIRING_MESSAGE ==> (r matches Ok(k) && k == n)
            &&& n > MAX_PAIRING_MESSAGE ==> (r matches Err(Error::Pairing(m)) && m@ == "message too large"@)
        }),
{
    let n: u32 = ((header[0] as u32) << 24u32) | ((header[1] as u32) << 16u32) | ((header[2] as u32) << 8u32) | (
    header[3] as u32);
    if n > MAX_PAIRING_MESSAGE {
        Err(Error::Pairing("message too large".to_owned()))
    } else {
        Ok(n as usize)
    }
}

/// The length prefix of a message reads back as the message's length.
pub proof fn law_pairing_length_roundtrip(len: u32)
    ensures
        ({
            let h = be_bytes(len);
            be_value(h[0], h[1], h[2], h[3]) == len
        }),
{
    lemma_be_roundtrip(len);
}

/// A peer that completed pairing.
#[derive(Debug)]
pub struct PairingResult {
    pub peer_id: u128,
    pub peer_name: String,
    pub peer_cert_pem: String,
    pub peer_fingerprint: Fingerprint,
}

/// Where a pairing stands, as the interface shows it.
#[derive(Debug, Clone)]
pub enum PairingState {
    Idle,
    AwaitingConfirmation { peer_fingerprint: String },
    Confirmed { peer_id: u128 },
    Rejected,
}

/// This instance as it presents itself when pairing.
#[derive(Debug)]
pub struct LocalIdentity {
    pub id: u128,
    pub cert_pem: String,
    pub name: String,
}

/// The name an instance goes by when pairing: its host name, or `Unknown`
/// when that cannot be read.
pub fn display_name(host_name: Option<String>) -> (r: String)
    ensures
        r@ == match host_name {
            Some(h) => h@,
            None => "Unknown"@,
        },
{
    match host_name {
        Some(h) => h,
        None => "Unknown".to_owned(),
    }
}

/// What a peer's id and certificate read as: the id's number and the
/// certificate's fingerprint, or the text of the first failure.
pub open spec fn read_peer(id: Seq<char>, cert_pem: Seq<char>) -> Result<(u128, Seq<u8>), Seq<char>> {
    match uuid_parse(id) {
        Err(e) => Err("invalid UUID: "@ + e),
        Ok(u) => match pem_parse(cert_pem) {
            Err(e) => Err("parse peer cert: "@ + e),
            Ok(der) => Ok((u, sha256_digest(der))),
        },
    }
}

/// `p` is the peer that presented `id`, `cert_pem` and `name`.
pub open spec fn presented(p: PairingResult, id: Seq<char>, cert_pem: Seq<char>, name: Seq<char>) -> bool {
    &&& read_peer(id, cert_pem) matches Ok((u, fp))
    &&& p.peer_id == u
    &&& p.peer_fingerprint@ == fp
    &&& p.peer_name@ == name
    &&& p.peer_cert_pem@ == cert_pem
}

/// `a` and `b` describe the same peer.
pub open spec fn same_peer(a: PairingResult, b: PairingResult) -> bool {
    &&& a.peer_id == b.peer_id
    &&& a.peer_name@ == b.peer_name@
    &&& a.peer_cert_pem@ == b.peer_cert_pem@
    &&& a.peer_fingerprint@ == b.peer_fingerprint@
}

fn prefixed(prefix: &str, text: &str) -> (r: String)
    ensures
        r@ == prefix@ + text@,
{
    let mut v = chars_of(prefix);
    push_str(&mut v, text);
    string_from_chars(&v)
}

/// Reads the identity a peer presents: the id must be a UUID and the
/// certificate PEM-encoded; the fingerprint is that of the certificate.
pub fn read_peer_identity(id: &str, cert_pem: &str, name: &str) -> (r: Result<PairingResult, String>)
    ensures
        match read_peer(id@, cert_pem@) {
            Ok(_) => r matches Ok(p) && presented(p, id@, cert_pem@, name@),
            Err(m) => r matches Err(e) && e@ == m,
        },
{
    let peer_id = match parse_uuid_text(id) {
        Ok(u) => u,
        Err(e) => return Err(prefixed("invalid UUID: ", e.as_str())),
    };
    let der = match pem_contents(cert_pem) {
        Ok(d) => d,
        Err(e) => return Err(prefixed("parse peer cert: ", e.as_str())),
    };
    Ok(
        PairingResult {
            peer_id,
            peer_name: name.to_owned(),
            peer_cert_pem: cert_pem.to_owned(),
            peer_fingerprint: Fingerprint::from_cert_der(der.as_slice()),
        },
    )
}

/// Where the initiator of a pairing stands.
#[derive(Debug)]
pub enum Initiator {
    AwaitResponse,
    AwaitUser(PairingResult),
    AwaitConfirm(PairingResult),
}

/// Where the responder to a pairing stands.
#[derive(Debug)]
pub enum Responder {
    AwaitRequest,
    AwaitUser(PairingResult),
    AwaitConfirm(PairingResult),
}

/// What happened: a message arrived, or the user answered.
#[derive(Debug)]
pub enum PairingEvent {
    Received(PairingMessage),
    Answered(bool),
}

/// What to do next.
#[derive(Debug)]
pub enum Transition<S> {
    /// Send `send` if there is one, ask the user to confirm the fingerprint
    /// `ask` if there is one, and wait in state `next`.
    Wait { send: Option<PairingMessage>, ask: Option<String>, next: S },
    /// Send `send` if there is one, then end with `result`.
    End { send: Option<PairingMessage>, result: Result<PairingResult, Error> },
}

/// The event is one a state waits for: an answer when the user is asked,
/// a message otherwise.
pub open spec fn initiator_expects(s: Initiator, e: PairingEvent) -> bool {
    (s is AwaitUser) == (e is Answered)
}

/// The event is one a state waits for: an answer when the user is asked,
/// a message otherwise.
pub open spec fn responder_expects(s: Responder, e: PairingEvent) -> bool {
    (s is AwaitUser) == (e is Answered)
}

/// `t` ends the handshake with a pairing error whose text is `msg`, after
/// sending a rejection when `reject` holds and nothing otherwise.
pub open spec fn ends_failing<S>(t: Transition<S>, reject: bool, msg: Seq<char>) -> bool {
    match t {
        Transition::End { send, result } => {
            &&& (if reject {
                send matches Some(PairingMessage::Reject)
            } else {
                send is None
            })
            &&& result matches Err(Error::Pairing(m)) && m@ == msg
        },
        _ => false,
    }
}

/// `t` waits for the user to compare the fingerprint of peer `p`, who
/// presented `id`, `cert_pem` and `name`, in state `AwaitUser`.
pub open spec fn asks_about<S>(t: Transition<S>, id: Seq<char>, cert_pem: Seq<char>, name: Seq<char>, next_user: spec_fn(
    S,
) -> Option<PairingResult>) -> bool {
    match t {
        Transition::Wait { ask, next, .. } => {
            &&& next_user(next) matches Some(p)
            &&& presented(p, id, cert_pem, name)
            &&& ask matches Some(a) && a@ == colon_hex(p.peer_fingerprint@.take(8))
        },
        _ => false,
    }
}

/// The peer an initiator state waits for the user about.
pub open spec fn initiator_user(s: Initiator) -> Option<PairingResult> {
    match s {
        Initiator::AwaitUser(p) => Some(p),
        _ => None,
    }
}

/// The peer a responder state waits for the user about.
pub open spec fn responder_user(s: Responder) -> Option<PairingResult> {
    match s {
        Responder::AwaitUser(p) => Some(p),
        _ => None,
    }
}

/// `m` is the request `me` opens a pairing with.
pub open spec fn is_request_of(m: PairingMessage, me: LocalIdentity) -> bool {
    m matches PairingMessage::Request { id, cert_pem, name } && id@ == uuid_text(me.id) && cert_pem@
        == me.cert_pem@ && name@ == me.name@
}

/// `m` is the response `me` answers a request with.
pub open spec fn is_response_of(m: PairingMessage, me: LocalIdentity) -> bool {
    m matches PairingMessage::Response { id, cert_pem, name } && id@ == uuid_text(me.id) && cert_pem@
        == me.cert_pem@ && name@ == me.name@
}

/// What the initiator does in state `s` on event `e`.
pub open spec fn initiator_does(s: Initiator, e: PairingEvent, t: Transition<Initiator>) -> bool {
    match s {
        Initiator::AwaitResponse => match e {
            PairingEvent::Received(PairingMessage::Response { id, cert_pem, name }) => match read_peer(
                id@,
                cert_pem@,
            ) {
                Ok(_) => t matches Transition::Wait { send: None, .. } && asks_about(
                    t,
                    id@,
                    cert_pem@,
                    name@,
                    |n: Initiator| initiator_user(n),
                ),
                Err(m) => ends_failing(t, false, m),
            },
            PairingEvent::Received(PairingMessage::Reject) => ends_failing(t, false, "peer rejected pairing"@),
            _ => ends_failing(t, false, "unexpected message during pairing"@),
        },
        Initiator::AwaitUser(p) => match e {
            PairingEvent::Answered(true) => t matches Transition::Wait {
                send: Some(PairingMessage::Confirm),
                ask: None,
                next: Initiator::AwaitConfirm(q),
            } && same_peer(q, p),
            _ => ends_failing(t, true, "user rejected pairing"@),
        },
        Initiator::AwaitConfirm(p) => match e {
            PairingEvent::Received(PairingMessage::Confirm) => t matches Transition::End {
                send: None,
                result: Ok(q),
            } && same_peer(q, p),
            PairingEvent::Received(PairingMessage::Reject) => ends_failing(t, false, "peer rejected after confirm"@),
            _ => ends_failing(t, false, "unexpected message"@),
        },
    }
}

/// What the responder `me` does in state `s` on event `e`.
pub open spec fn responder_does(me: LocalIdentity, s: Responder, e: PairingEvent, t: Transition<Responder>) -> bool {
    match s {
        Responder::AwaitRequest => match e {
            PairingEvent::Received(PairingMessage::Request { id, cert_pem, name }) => match read_peer(
                id@,
                cert_pem@,
            ) {
                Ok(_) => t matches Transition::Wait { send: Some(r), .. } && is_response_of(r, me) && asks_about(
                    t,
                    id@,
                    cert_pem@,
                    name@,
                    |n: Responder| responder_user(n),
                ),
                Err(m) => ends_failing(t, false, m),
            },
            _ => ends_failing(t, false, "expected PairRequest, got something else"@),
        },
        Responder::AwaitUser(p) => match e {
            PairingEvent::Answered(true) => t matches Transition::Wait {
                send: None,
                ask: None,
                next: Responder::AwaitConfirm(q),
            } && same_peer(q, p),
            _ => ends_failing(t, true, "user rejected pairing"@),
        },
        Responder::AwaitConfirm(p) => match e {
            PairingEvent::Received(PairingMessage::Confirm) => t matches Transition::End {
                send: Some(PairingMessage::Confirm),
                result: Ok(q),
            } && same_peer(q, p),
            PairingEvent::Received(PairingMessage::Reject) => ends_failing(t, true, "initiator rejected pairing"@),
            _ => ends_failing(t, false, "unexpected message"@),
        },
    }
}

fn fail<S>(reject: bool, msg: &str) -> (t: Transition<S>)
    ensures
        ends_failing(t, reject, msg@),
{
    let send = if reject {
        Some(PairingMessage::Reject)
    } else {
        None
    };
    Transition::End { send, result: Err(Error::Pairing(msg.to_owned())) }
}

/// How the initiator `me` opens a pairing: the request to send, and the
/// state to wait in.
pub fn initiator_start(me: &LocalIdentity) -> (r: (PairingMessage, Initiator))
    ensures
        is_request_of(r.0, *me),
        r.1 is AwaitResponse,
{
    let request = PairingMessage::Request {
        id: uuid_string(me.id),
        cert_pem: me.cert_pem.clone(),
        name: me.name.clone(),
    };
    (request, Initiator::AwaitResponse)
}

/// One step of the initiator.
pub fn initiator_step(state: Initiator, event: PairingEvent) -> (t: Transition<Initiator>)
    requires
        initiator_expects(state, event),
    ensures
        initiator_does(state, event, t),
{
    match state {
        Initiator::AwaitResponse => match event {
            PairingEvent::Received(PairingMessage::Response { id, cert_pem, name }) => {
                match read_peer_identity(id.as_str(), cert_pem.as_str(), name.as_str()) {
                    Ok(p) => {
                        let ask = p.peer_fingerprint.short();
                        Transition::Wait { send: None, ask: Some(ask), next: Initiator::AwaitUser(p) }
                    },
                    Err(m) => fail(false, m.as_str()),
                }
            },
            PairingEvent::Received(PairingMessage::Reject) => fail(false, "peer rejected pairing"),
            _ => fail(false, "unexpected message during pairing"),
        },
        Initiator::AwaitUser(p) => match event {
            PairingEvent::Answered(true) => Transition::Wait {
                send: Some(PairingMessage::Confirm),
                ask: None,
                next: Initiator::AwaitConfirm(p),
            },
            _ => fail(true, "user rejected pairing"),
        },
        Initiator::AwaitConfirm(p) => match event {
            PairingEvent::Received(PairingMessage::Confirm) => Transition::End { send: None, result: Ok(p) },
            PairingEvent::Received(PairingMessage::Reject) => fail(false, "peer rejected after confirm"),
            _ => fail(false, "unexpected message"),
        },
    }
}

/// One step of the responder `me`.
pub fn responder_step(me: &LocalIdentity, state: Responder, event: PairingEvent) -> (t: Transition<Responder>)
    requires
        responder_expects(state, event),
    ensures
        responder_does(*me, state, event, t),
{
    match state {
        Responder::AwaitRequest => match event {
            PairingEvent::Received(PairingMessage::Request { id, cert_pem, name }) => {
                match read_peer_identity(id.as_str(), cert_pem.as_str(), name.as_str()) {
                    Ok(p) => {
                        let ask = p.peer_fingerprint.short();
                        let response = PairingMessage::Response {
                            id: uuid_string(me.id),
                            cert_pem: me.cert_pem.clone(),
                            name: me.name.clone(),
                        };
                        Transition::Wait { send: Some(response), ask: Some(ask), next: Responder::AwaitUser(p) }
                    },
                    Err(m) => fail(false, m.as_str()),
                }
            },
            _ => fail(false, "expected PairRequest, got something else"),
        },
        Responder::AwaitUser(p) => match event {
            PairingEvent::Answered(true) => Transition::Wait {
                send: None,
                ask: None,
                next: Responder::AwaitConfirm(p),
            },
            _ => fail(true, "user rejected pairing"),
        },
        Responder::AwaitConfirm(p) => match event {
            PairingEvent::Received(PairingMessage::Confirm) => Transition::End {
                send: Some(PairingMessage::Confirm),
                result: Ok(p),
            },
            PairingEvent::Received(PairingMessage::Reject) => fail(true, "initiator rejected pairing"),
            _ => fail(false, "unexpected message"),
        },
    }
}

/// A handshake succeeds only on a confirmation that arrives after the
/// local user accepted, and it pairs with the peer the user was shown; a
/// user who refuses always sends a rejection.
pub proof fn law_pairing_needs_both_confirmations(
    me: LocalIdentity,
    si: Initiator,
    sr: Responder,
    e: PairingEvent,
    ti: Transition<Initiator>,
    tr: Transition<Responder>,
)
    requires
        initiator_does(si, e, ti),
        responder_does(me, sr, e, tr),
    ensures
        ti matches Transition::End { result: Ok(q), .. } ==> (si matches Initiator::AwaitConfirm(p) && same_peer(q, p)
            && e matches PairingEvent::Received(PairingMessage::Confirm)),
        tr matches Transition::End { result: Ok(q), .. } ==> (sr matches Responder::AwaitConfirm(p) && same_peer(q, p)
            && e matches PairingEvent::Received(PairingMessage::Confirm)),
        e matches PairingEvent::Answered(false) && si is AwaitUser ==> ti matches Transition::End {
            send: Some(PairingMessage::Reject),
            result: Err(_),
        },
        e matches PairingEvent::Answered(false) && sr is AwaitUser ==> tr matches Transition::End {
            send: Some(PairingMessage::Reject),
            result: Err(_),
        },
{
}

/// The fingerprint each user is asked to compare is the one the peer's own
/// certificate gives, the one the peer shows for itself: the first eight
/// bytes of the SHA-256 digest of what its certificate text decodes to.
pub proof fn law_users_compare_the_peer_fingerprint(
    me: LocalIdentity,
    m: PairingMessage,
    der: Seq<u8>,
    ti: Transition<Initiator>,
    tr: Transition<Responder>,
)
    requires
        match m {
            PairingMessage::Request { id, cert_pem, .. } | PairingMessage::Response { id, cert_pem, .. } => {
                &&& uuid_parse(id@) is Ok
                &&& pem_parse(cert_pem@) matches Ok(d) && d == der
            },
            _ => false,
        },
        initiator_does(Initiator::AwaitResponse, PairingEvent::Received(m), ti),
        responder_does(me, Responder::AwaitRequest, PairingEvent::Received(m), tr),
    ensures
        m is Response ==> (ti matches Transition::Wait { ask: Some(a), .. } && a@ == colon_hex(
            sha256_digest(der).take(8),
        )),
        m is Request ==> (tr matches Transition::Wait { ask: Some(a), .. } && a@ == colon_hex(
            sha256_digest(der).take(8),
        )),
{
}

} // verus!
