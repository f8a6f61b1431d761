//! Moving a file's contents over the wire: the data goes in `FileData`
//! frames of bounded size, and an empty `FileData` frame ends the file.
use vstd::prelude::*;

use crate::transport::{Frame, MessageType};
use crate::text::{push_str, string_from_chars};

verus! {

/// The largest payload of a file data frame: 256 KiB.
pub const FILE_CHUNK_SIZE: usize = 262144;

/// The payloads that carry `data`: chunks of `FILE_CHUNK_SIZE` bytes (the
/// last one possibly shorter), then an empty payload that ends the file.
pub open spec fn chunk_payloads(data: Seq<u8>) -> Seq<Seq<u8>>
    decreases data.len(),
{
    if data.len() == 0 {
        seq![Seq::<u8>::empty()]
    } else if data.len() <= FILE_CHUNK_SIZE {
        seq![data, Seq::<u8>::empty()]
    } else {
        seq![data.take(FILE_CHUNK_SIZE as int)] + chunk_payloads(data.skip(FILE_CHUNK_SIZE as int))
    }
}

/// What a receiver makes of a run of payloads: the bytes before the first
/// empty payload, or nothing when no payload ends the file.
pub open spec fn reassemble(ps: Seq<Seq<u8>>) -> Option<Seq<u8>>
    decreases ps.len(),
{
    if ps.len() == 0 {
        None
    } else if ps[0].len() == 0 {
        Some(Seq::empty())
    } else {
        match reassemble(ps.drop_first()) {
            Some(rest) => Some(ps[0] + rest),
            None => None,
        }
    }
}

fn copy_range(data: &[u8], a: usize, b: usize) -> (r: Vec<u8>)
    requires
        a <= b <= data@.len(),
    ensures
        r@ == data@.subrange(a as int, b as int),
{
    let mut r: Vec<u8> = Vec::new();
    let mut i = a;
    while i < b
        invariant
            a <= i <= b <= data@.len(),
            r@ == data@.subrange(a as int, i as int),
        decreases b - i,
    {
        r.push(data[i]);
        assert(data@.subrange(a as int, i + 1) =~= data@.subrange(a as int, i as int).push(data@[i as int]));
        i = i + 1;
    }
    r
}

/// The frames that carry the file `data`.
pub fn file_data_frames(data: &[u8]) -> (frames: Vec<Frame>)
    ensures
        frames@.len() == chunk_payloads(data@).len(),
        forall|i: int|
            0 <= i < frames@.len() ==> (#[trigger] frames@[i]).msg_type == MessageType::FileData
                && frames@[i].payload@ == chunk_payloads(data@)[i],
{
    let mut frames: Vec<Frame> = Vec::new();
    let mut start: usize = 0;
    let n = data.len();
    assert(data@.skip(0) =~= data@);
    assert(frames@.map_values(|f: Frame| f.payload@) + chunk_payloads(data@) =~= chunk_payloads(data@));
    while start < n
        invariant
            n == data@.len(),
            start <= n,
            chunk_payloads(data@) == frames@.map_values(|f: Frame| f.payload@) + chunk_payloads(data@.skip(start as int)),
            forall|i: int| 0 <= i < frames@.len() ==> (#[trigger] frames@[i]).msg_type == MessageType::FileData,
        decreases n - start,
    {
        let end = if n - start > FILE_CHUNK_SIZE {
            start + FILE_CHUNK_SIZE
        } else {
            n
        };
        let payload = copy_range(data, start, end);
        let f = Frame { msg_type: MessageType::FileData, payload };
        let ghost before = frames@;
        frames.push(f);
        proof {
            let rest = data@.skip(start as int);
            assert(frames@.map_values(|f: Frame| f.payload@) =~= before.map_values(|f: Frame| f.payload@).push(
                f.payload@,
            ));
            if n - start > FILE_CHUNK_SIZE {
                assert(f.payload@ =~= rest.take(FILE_CHUNK_SIZE as int));
                assert(rest.skip(FILE_CHUNK_SIZE as int) =~= data@.skip(end as int));
            } else {
                assert(f.payload@ =~= rest);
                assert(data@.skip(end as int) =~= Seq::<u8>::empty());
            }
        }
        start = end;
    }
    let ghost before = frames@;
    frames.push(Frame { msg_type: MessageType::FileData, payload: Vec::new() });
    proof {
        assert(data@.skip(start as int) =~= Seq::<u8>::empty());
        assert(frames@.map_values(|f: Frame| f.payload@) =~= before.map_values(|f: Frame| f.payload@).push(
            Seq::<u8>::empty(),
        ));
    }
    frames
}


/// A receiver gets back exactly the data that was sent, and only the last
/// payload ends the file.
pub proof fn law_chunks_reassemble(data: Seq<u8>)
    ensures
        reassemble(chunk_payloads(data)) == Some(data),
        forall|i: int| 0 <= i < chunk_payloads(data).len() - 1 ==> (#[trigger] chunk_payloads(data)[i]).len() > 0,
        chunk_payloads(data).last().len() == 0,
        forall|i: int| 0 <= i < chunk_payloads(data).len() ==> (#[trigger] chunk_payloads(data)[i]).len() <= FILE_CHUNK_SIZE,
    decreases data.len(),
{
    let ps = chunk_payloads(data);
    let e = Seq::<u8>::empty();
    if data.len() == 0 {
        assert(reassemble(ps) == Some(e));
        assert(data =~= e);
    } else if data.len() <= FILE_CHUNK_SIZE {
        assert(ps.drop_first() =~= seq![e]);
        assert(reassemble(seq![e]) == Some(e));
        assert(data + e =~= data);
    } else {
        let rest = data.skip(FILE_CHUNK_SIZE as int);
        law_chunks_reassemble(rest);
        let head = data.take(FILE_CHUNK_SIZE as int);
        assert(ps.drop_first() =~= chunk_payloads(rest));
        assert(head + rest =~= data);
        assert forall|i: int| 0 <= i < ps.len() - 1 implies (#[trigger] ps[i]).len() > 0 by {
            if i > 0 {
                assert(ps[i] == chunk_payloads(rest)[i - 1]);
            }
        }
        assert forall|i: int| 0 <= i < ps.len() implies (#[trigger] ps[i]).len() <= FILE_CHUNK_SIZE by {
            if i > 0 {
                assert(ps[i] == chunk_payloads(rest)[i - 1]);
            }
        }
        assert(ps.last() == chunk_payloads(rest).last());
    }
}

/// What a received frame does to a file being received.
#[derive(Debug, Clone, Copy, PartialEq, Eq, Structural)]
pub enum Received {
    /// The frame carried more of the file.
    More,
    /// The frame ended the file.
    End,
    /// The frame was not file data.
    Unexpected,
}

/// Take one frame of a file being received into `data`: a file data frame
/// with a payload appends it, an empty one ends the file, any other frame
/// is unexpected; only an appended payload changes `data`.
pub fn receive_frame(data: &mut Vec<u8>, frame: &Frame) -> (r: Received)
    ensures
        frame.msg_type != MessageType::FileData ==> r == Received::Unexpected && final(data)@ == old(data)@,
        frame.msg_type == MessageType::FileData && frame.payload@.len() == 0 ==> r == Received::End
            && final(data)@ == old(data)@,
        frame.msg_type == MessageType::FileData && frame.payload@.len() > 0 ==> r == Received::More
            && final(data)@ == old(data)@ + frame.payload@,
{
    if frame.msg_type != MessageType::FileData {
        return Received::Unexpected;
    }
    if frame.payload.len() == 0 {
        return Received::End;
    }
    let mut i: usize = 0;
    while i < frame.payload.len()
        invariant
            i <= frame.payload@.len(),
            data@ == old(data)@ + frame.payload@.take(i as int),
        decreases frame.payload@.len() - i,
    {
        data.push(frame.payload[i]);
        assert(frame.payload@.take(i + 1) =~= frame.payload@.take(i as int).push(frame.payload@[i as int]));
        i = i + 1;
    }
    assert(frame.payload@.take(i as int) =~= frame.payload@);
    Received::More
}

/// The name of a message type, as it is shown.
pub open spec fn message_type_name(t: MessageType) -> Seq<char> {
    match t {
        MessageType::RpcRequest => "RpcRequest"@,
        MessageType::RpcResponse => "RpcResponse"@,
        MessageType::FileData => "FileData"@,
        MessageType::Error => "Error"@,
        MessageType::Shutdown => "Shutdown"@,
    }
}

/// The message for a frame of type `t` where file data was expected.
pub fn unexpected_frame_message(t: MessageType) -> (r: String)
    ensures
        r@ == "expected FileData, got "@ + message_type_name(t),
{
    let mut v: Vec<char> = Vec::new();
    push_str(&mut v, "expected FileData, got ");
    push_str(
        &mut v,
        match t {
            MessageType::RpcRequest => "RpcRequest",
            MessageType::RpcResponse => "RpcResponse",
            MessageType::FileData => "FileData",
            MessageType::Error => "Error",
            MessageType::Shutdown => "Shutdown",
        },
    );
    string_from_chars(&v)
}

} // verus!
