//! Errors of the network layer.
use vstd::prelude::*;

use crate::text::{chars_contain, chars_of, contains, push_str, string_from_chars};

verus! {

/// The kinds of I/O failure that the network layer tells apart.
#[derive(Debug, Clone, Copy, PartialEq, Eq, Structural)]
pub enum IoKind {
    UnexpectedEof,
    ConnectionReset,
    BrokenPipe,
    Other,
}

/// An I/O failure: its kind and its message.
#[derive(Debug)]
pub struct IoFailure {
    pub kind: IoKind,
    pub message: String,
}

/// Errors of identity, TLS, discovery, pairing, transport, RPC and sessions.
#[derive(Debug)]
pub enum Error {
    Identity(String),
    Tls(String),
    Discovery(String),
    Pairing(String),
    Transport(String),
    Rpc(String),
    Session(String),
    Io(IoFailure),
}

/// The text of an error, as it is displayed.
pub open spec fn error_text(e: Error) -> Seq<char> {
    match e {
        Error::Identity(m) => "identity error: "@ + m@,
        Error::Tls(m) => "TLS error: "@ + m@,
        Error::Discovery(m) => "discovery error: "@ + m@,
        Error::Pairing(m) => "pairing error: "@ + m@,
        Error::Transport(m) => "transport error: "@ + m@,
        Error::Rpc(m) => "RPC error: "@ + m@,
        Error::Session(m) => "session error: "@ + m@,
        Error::Io(f) => "I/O error: "@ + f.message@,
    }
}

/// Whether an error means that the peer closed the connection: an I/O
/// failure of kind end-of-file, reset or broken pipe, or any other error
/// whose text mentions `close_notify` or `UnexpectedEof`.
pub open spec fn connection_closed(e: Error) -> bool {
    match e {
        Error::Io(f) => f.kind == IoKind::UnexpectedEof || f.kind == IoKind::ConnectionReset || f.kind
            == IoKind::BrokenPipe,
        _ => contains(error_text(e), "close_notify"@) || contains(error_text(e), "UnexpectedEof"@),
    }
}

impl Error {
    /// The text of the error, as it is displayed.
    pub fn message(&self) -> (r: String)
        ensures
            r@ == error_text(*self),
    {
        let mut v: Vec<char> = Vec::new();
        match self {
            Error::Identity(m) => {
                push_str(&mut v, "identity error: ");
                push_str(&mut v, m.as_str());
            },
            Error::Tls(m) => {
                push_str(&mut v, "TLS error: ");
                push_str(&mut v, m.as_str());
            },
            Error::Discovery(m) => {
                push_str(&mut v, "discovery error: ");
                push_str(&mut v, m.as_str());
            },
            Error::Pairing(m) => {
                push_str(&mut v, "pairing error: ");
                push_str(&mut v, m.as_str());
            },
            Error::Transport(m) => {
                push_str(&mut v, "transport error: ");
                push_str(&mut v, m.as_str());
            },
            Error::Rpc(m) => {
                push_str(&mut v, "RPC error: ");
                push_str(&mut v, m.as_str());
            },
            Error::Session(m) => {
                push_str(&mut v, "session error: ");
                push_str(&mut v, m.as_str());
            },
            Error::Io(f) => {
                push_str(&mut v, "I/O error: ");
                push_str(&mut v, f.message.as_str());
            },
        }
        string_from_chars(&v)
    }
}

/// Whether an error means that the peer closed the connection.
pub fn is_connection_closed(e: &Error) -> (r: bool)
    ensures
        r == connection_closed(*e),
{
    match e {
        Error::Io(f) => match f.kind {
            IoKind::UnexpectedEof | IoKind::ConnectionReset | IoKind::BrokenPipe => true,
            IoKind::Other => false,
        },
        _ => {
            let msg = chars_of(e.message().as_str());
            let a = chars_of("close_notify");
            let b = chars_of("UnexpectedEof");
            chars_contain(msg.as_slice(), a.as_slice()) || chars_contain(msg.as_slice(), b.as_slice())
        },
    }
}

} // verus!
