//! The frame format of the wire protocol.
//!
//! A frame is a 4-byte big-endian payload length, a 1-byte message type and
//! the payload. The codec decodes frames from, and encodes them into, a
//! `bytes::BytesMut` buffer.
use bytes::{Buf, BufMut, BytesMut};
use vstd::prelude::*;

use crate::error::Error;
use crate::text::{decimal_text, hex_digit, hex_digit_lower, push_decimal, push_str, string_from_chars};

verus! {

/// The largest payload a frame may carry: 16 MiB.
pub const MAX_FRAME_SIZE: usize = 16777216;

/// The length of a frame header: 4 bytes of length and 1 byte of type.
pub const HEADER_SIZE: usize = 5;

/// The kind of message a frame carries.
#[derive(Debug, Clone, Copy, PartialEq, Eq, Structural)]
pub enum MessageType {
    RpcRequest,
    RpcResponse,
    FileData,
    Error,
    Shutdown,
}

/// The byte that stands for a message type on the wire.
pub open spec fn type_code(t: MessageType) -> u8 {
    match t {
        MessageType::RpcRequest => 0x01,
        MessageType::RpcResponse => 0x02,
        MessageType::FileData => 0x03,
        MessageType::Error => 0x04,
        MessageType::Shutdown => 0xFF,
    }
}

/// The message type a byte stands for, if any.
pub open spec fn type_of_code(v: u8) -> Option<MessageType> {
    if v == 0x01 {
        Some(MessageType::RpcRequest)
    } else if v == 0x02 {
        Some(MessageType::RpcResponse)
    } else if v == 0x03 {
        Some(MessageType::FileData)
    } else if v == 0x04 {
        Some(MessageType::Error)
    } else if v == 0xFF {
        Some(MessageType::Shutdown)
    } else {
        None
    }
}

impl MessageType {
    /// The message type a byte stands for, if any.
    pub fn from_u8(v: u8) -> (r: Option<Self>)
        ensures
            r == type_of_code(v),
    {
        match v {
            0x01 => Some(MessageType::RpcRequest),
            0x02 => Some(MessageType::RpcResponse),
            0x03 => Some(MessageType::FileData),
            0x04 => Some(MessageType::Error),
            0xFF => Some(MessageType::Shutdown),
            _ => None,
        }
    }

    /// The byte that stands for this message type.
    pub fn to_u8(self) -> (r: u8)
        ensures
            r == type_code(self),
    {
        match self {
            MessageType::RpcRequest => 0x01,
            MessageType::RpcResponse => 0x02,
            MessageType::FileData => 0x03,
            MessageType::Error => 0x04,
            MessageType::Shutdown => 0xFF,
        }
    }
}

/// One message of the wire protocol.
#[derive(Debug)]
pub struct Frame {
    pub msg_type: MessageType,
    pub payload: Vec<u8>,
}

impl Clone for Frame {
    fn clone(&self) -> (r: Self)
        ensures
            r.msg_type == self.msg_type,
            r.payload@ == self.payload@,
    {
        Frame { msg_type: self.msg_type, payload: self.payload.clone() }
    }
}

/// The codec that turns bytes into frames and frames into bytes.
pub struct SyncCodec;

#[verifier::external_type_specification]
#[verifier::external_body]
pub struct ExBytesMut(BytesMut);

/// The bytes a `BytesMut` holds, in order.
pub uninterp spec fn buffer_bytes(b: BytesMut) -> Seq<u8>;

/// Calls `BytesMut::len`, the number of bytes the buffer holds.
#[verifier::external_body]
fn buffer_len(b: &BytesMut) -> (n: usize)
    ensures
        n == buffer_bytes(*b).len(),
{
    b.len()
}

/// Reads byte `i` of the buffer through `BytesMut`'s `Deref` to `[u8]`.
#[verifier::external_body]
fn buffer_at(b: &BytesMut, i: usize) -> (r: u8)
    requires
        i < buffer_bytes(*b).len(),
    ensures
        r == buffer_bytes(*b)[i as int],
{
    b[i]
}

/// Calls `BytesMut::reserve`, which changes the capacity and leaves the
/// bytes as they are; it panics only when the new capacity overflows.
#[verifier::external_body]
fn buffer_reserve(b: &mut BytesMut, additional: usize)
    requires
        buffer_bytes(*old(b)).len() + additional <= isize::MAX,
    ensures
        buffer_bytes(*final(b)) == buffer_bytes(*old(b)),
{
    b.reserve(additional)
}

/// Calls `Buf::advance` on the buffer, which drops its first `n` bytes; it
/// panics when `n` exceeds the length.
#[verifier::external_body]
fn buffer_advance(b: &mut BytesMut, n: usize)
    requires
        n <= buffer_bytes(*old(b)).len(),
    ensures
        buffer_bytes(*final(b)) == buffer_bytes(*old(b)).skip(n as int),
{
    b.advance(n)
}

/// Calls `BytesMut::split_to`, which takes the first `n` bytes out of the
/// buffer, and copies them into a vector; it panics when `n` exceeds the
/// length.
#[verifier::external_body]
fn buffer_take_front(b: &mut BytesMut, n: usize) -> (r: Vec<u8>)
    requires
        n <= buffer_bytes(*old(b)).len(),
    ensures
        r@ == buffer_bytes(*old(b)).take(n as int),
        buffer_bytes(*final(b)) == buffer_bytes(*old(b)).skip(n as int),
{
    b.split_to(n).to_vec()
}

/// The four bytes of `n`, most significant first.
pub open spec fn be_bytes(n: u32) -> Seq<u8> {
    seq![(n >> 24u32) as u8, (n >> 16u32) as u8, (n >> 8u32) as u8, n as u8]
}

/// The number that four bytes stand for, most significant first.
pub open spec fn be_value(b0: u8, b1: u8, b2: u8, b3: u8) -> u32 {
    ((b0 as u32) << 24u32) | ((b1 as u32) << 16u32) | ((b2 as u32) << 8u32) | (b3 as u32)
}

/// Calls `BufMut::put_u32`, which appends `n` in big-endian byte order; it
/// panics only when the buffer cannot grow.
#[verifier::external_body]
fn buffer_put_u32(b: &mut BytesMut, n: u32)
    requires
        buffer_bytes(*old(b)).len() + 4 <= isize::MAX,
    ensures
        buffer_bytes(*final(b)) == buffer_bytes(*old(b)) + be_bytes(n),
{
    b.put_u32(n)
}

/// Calls `BufMut::put_u8`, which appends one byte; it panics only when the
/// buffer cannot grow.
#[verifier::external_body]
fn buffer_put_u8(b: &mut BytesMut, n: u8)
    requires
        buffer_bytes(*old(b)).len() + 1 <= isize::MAX,
    ensures
        buffer_bytes(*final(b)) == buffer_bytes(*old(b)).push(n),
{
    b.put_u8(n)
}

/// Calls `BufMut::put_slice`, which appends the bytes of `s`; it panics only
/// when the buffer cannot grow.
#[verifier::external_body]
fn buffer_put_slice(b: &mut BytesMut, s: &[u8])
    requires
        buffer_bytes(*old(b)).len() + s@.len() <= isize::MAX,
    ensures
        buffer_bytes(*final(b)) == buffer_bytes(*old(b)) + s@,
{
    b.put_slice(s)
}

/// What decoding the front of a buffer gives.
pub enum Decoded {
    /// More bytes are needed.
    Incomplete,
    /// A whole frame.
    Frame(MessageType, Seq<u8>),
    /// A malformed frame, with the message of the transport error.
    Fail(Seq<char>),
}

/// The message for a frame whose announced length is too large.
pub open spec fn frame_too_large_text(len: nat) -> Seq<char> {
    "frame too large: "@ + decimal_text(len) + " bytes (max "@ + decimal_text(MAX_FRAME_SIZE as nat) + ")"@
}

/// The message for a payload too large to send.
pub open spec fn payload_too_large_text(len: nat) -> Seq<char> {
    "payload too large: "@ + decimal_text(len) + " bytes (max "@ + decimal_text(MAX_FRAME_SIZE as nat)
        + ")"@
}

/// The message for an unknown message type byte, in two lowercase hex digits.
pub open spec fn unknown_type_text(b: u8) -> Seq<char> {
    "unknown message type: 0x"@ + seq![hex_digit_lower(b / 16), hex_digit_lower(b % 16)]
}

/// Decoding the front of `buf`: the outcome and the bytes left in the buffer.
///
/// Fewer bytes than a header, or than the frame announces, wait for more and
/// leave the buffer as it is; an announced length above the limit fails and
/// leaves the buffer as it is; an unknown type byte fails after the header
/// is consumed; otherwise the frame is taken off the front.
pub open spec fn decode_spec(buf: Seq<u8>) -> (Decoded, Seq<u8>) {
    if buf.len() < HEADER_SIZE {
        (Decoded::Incomplete, buf)
    } else {
        let len = be_value(buf[0], buf[1], buf[2], buf[3]);
        if len > MAX_FRAME_SIZE {
            (Decoded::Fail(frame_too_large_text(len as nat)), buf)
        } else if buf.len() < HEADER_SIZE + len {
            (Decoded::Incomplete, buf)
        } else {
            match type_of_code(buf[4]) {
                None => (Decoded::Fail(unknown_type_text(buf[4])), buf.skip(HEADER_SIZE as int)),
                Some(t) => (
                    Decoded::Frame(t, buf.subrange(HEADER_SIZE as int, HEADER_SIZE + len)),
                    buf.skip(HEADER_SIZE + len),
                ),
            }
        }
    }
}

/// The bytes of a frame of type `t` carrying `payload`.
pub open spec fn encode_spec(t: MessageType, payload: Seq<u8>) -> Seq<u8> {
    be_bytes(payload.len() as u32) + seq![type_code(t)] + payload
}

/// A decoding result agrees with a decoded outcome.
pub open spec fn decode_result_matches(r: Result<Option<Frame>, Error>, d: Decoded) -> bool {
    match (r, d) {
        (Ok(None), Decoded::Incomplete) => true,
        (Ok(Some(f)), Decoded::Frame(t, p)) => f.msg_type == t && f.payload@ == p,
        (Err(Error::Transport(m)), Decoded::Fail(text)) => m@ == text,
        _ => false,
    }
}

fn transport_error(prefix: &str, len: u64) -> (e: Error)
    ensures
        e matches Error::Transport(m) && m@ == prefix@ + decimal_text(len as nat) + " bytes (max "@
            + decimal_text(MAX_FRAME_SIZE as nat) + ")"@,
{
    let mut v: Vec<char> = Vec::new();
    push_str(&mut v, prefix);
    push_decimal(&mut v, len);
    push_str(&mut v, " bytes (max ");
    push_decimal(&mut v, 16777216u64);
    push_str(&mut v, ")");
    Error::Transport(string_from_chars(&v))
}

impl SyncCodec {
    /// Decode one frame from the front of `src`, if a whole one is there.
    pub fn decode(&mut self, src: &mut BytesMut) -> (r: Result<Option<Frame>, Error>)
        ensures
            decode_result_matches(r, decode_spec(buffer_bytes(*old(src))).0),
            buffer_bytes(*final(src)) == decode_spec(buffer_bytes(*old(src))).1,
    {
        let ghost buf = buffer_bytes(*src);
        let n = buffer_len(src);
        if n < HEADER_SIZE {
            return Ok(None);
        }
        let b0 = buffer_at(src, 0);
        let b1 = buffer_at(src, 1);
        let b2 = buffer_at(src, 2);
        let b3 = buffer_at(src, 3);
        let len32: u32 = ((b0 as u32) << 24u32) | ((b1 as u32) << 16u32) | ((b2 as u32) << 8u32) | (b3 as u32);
        assert(len32 == be_value(buf[0], buf[1], buf[2], buf[3]));
        if len32 > 16777216u32 {
            return Err(transport_error("frame too large: ", len32 as u64));
        }
        let len = len32 as usize;
        let total = HEADER_SIZE + len;
        if n < total {
            buffer_reserve(src, total - n);
            return Ok(None);
        }
        buffer_advance(src, 4);
        let msg_type_byte = buffer_at(src, 0);
        buffer_advance(src, 1);
        assert(buf.skip(4).skip(1) =~= buf.skip(5));
        match MessageType::from_u8(msg_type_byte) {
            None => {
                let mut v: Vec<char> = Vec::new();
                push_str(&mut v, "unknown message type: 0x");
                v.push(hex_digit(msg_type_byte / 16, false));
                v.push(hex_digit(msg_type_byte % 16, false));
                assert(v@ =~= unknown_type_text(buf[4]));
                Err(Error::Transport(string_from_chars(&v)))
            },
            Some(msg_type) => {
                let payload = buffer_take_front(src, len);
                assert(buf.skip(5).take(len as int) =~= buf.subrange(5, 5 + len));
                assert(buf.skip(5).skip(len as int) =~= buf.skip(5 + len));
                Ok(Some(Frame { msg_type, payload }))
            },
        }
    }

    /// Encode `item` onto the end of `dst`; a payload above the limit is
    /// refused and `dst` is left as it is.
    pub fn encode(&mut self, item: Frame, dst: &mut BytesMut) -> (r: Result<(), Error>)
        requires
            item.payload@.len() <= MAX_FRAME_SIZE ==> buffer_bytes(*old(dst)).len() + HEADER_SIZE
                + item.payload@.len() <= isize::MAX,
        ensures
            item.payload@.len() > MAX_FRAME_SIZE ==> (r matches Err(Error::Transport(m)) && m@
                == payload_too_large_text(item.payload@.len()) && buffer_bytes(*final(dst))
                == buffer_bytes(*old(dst))),
            item.payload@.len() <= MAX_FRAME_SIZE ==> (r is Ok && buffer_bytes(*final(dst))
                == buffer_bytes(*old(dst)) + encode_spec(item.msg_type, item.payload@)),
    {
        let len = item.payload.len();
        if len > MAX_FRAME_SIZE {
            return Err(transport_error("payload too large: ", len as u64));
        }
        let ghost start = buffer_bytes(*dst);
        buffer_reserve(dst, HEADER_SIZE + len);
        buffer_put_u32(dst, len as u32);
        buffer_put_u8(dst, item.msg_type.to_u8());
        buffer_put_slice(dst, item.payload.as_slice());
        assert(buffer_bytes(*dst) =~= start + encode_spec(item.msg_type, item.payload@));
        Ok(())
    }
}


/// Every message type is read back from its byte, and a byte that is read
/// as a type is that type's byte.
pub proof fn law_type_code_roundtrip(t: MessageType, v: u8)
    ensures
        type_of_code(type_code(t)) == Some(t),
        type_of_code(v) matches Some(u) ==> type_code(u) == v,
{
}

pub proof fn lemma_be_roundtrip(n: u32)
    ensures
        be_value((n >> 24u32) as u8, (n >> 16u32) as u8, (n >> 8u32) as u8, n as u8) == n,
{
    assert(((((n >> 24u32) as u8) as u32) << 24u32) | ((((n >> 16u32) as u8) as u32) << 16u32) | ((((n
        >> 8u32) as u8) as u32) << 8u32) | ((n as u8) as u32) == n) by (bit_vector);
}

/// Decoding an encoded frame, whatever follows it in the buffer, gives the
/// frame back and leaves exactly what followed.
pub proof fn law_frame_roundtrip(t: MessageType, payload: Seq<u8>, rest: Seq<u8>)
    requires
        payload.len() <= MAX_FRAME_SIZE,
    ensures
        decode_spec(encode_spec(t, payload) + rest) == (Decoded::Frame(t, payload), rest),
{
    let enc = encode_spec(t, payload);
    let buf = enc + rest;
    let n = payload.len() as u32;
    lemma_be_roundtrip(n);
    assert(buf[0] == (n >> 24u32) as u8 && buf[1] == (n >> 16u32) as u8);
    assert(buf[2] == (n >> 8u32) as u8 && buf[3] == n as u8);
    assert(buf[4] == type_code(t));
    assert(buf.subrange(5, 5 + payload.len() as int) =~= payload);
    assert(buf.skip(5 + payload.len() as int) =~= rest);
}

/// A buffer holding only the start of a frame decodes to nothing yet and is
/// left as it is.
pub proof fn law_partial_frame_waits(t: MessageType, payload: Seq<u8>, k: int)
    requires
        payload.len() <= MAX_FRAME_SIZE,
        0 <= k < encode_spec(t, payload).len(),
    ensures
        decode_spec(encode_spec(t, payload).take(k)) == (Decoded::Incomplete, encode_spec(t, payload).take(k)),
{
    let enc = encode_spec(t, payload);
    let buf = enc.take(k);
    let n = payload.len() as u32;
    lemma_be_roundtrip(n);
    if k >= 5 {
        assert(buf[0] == (n >> 24u32) as u8 && buf[1] == (n >> 16u32) as u8);
        assert(buf[2] == (n >> 8u32) as u8 && buf[3] == n as u8);
    }
}

} // verus!
