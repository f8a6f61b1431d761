use bytes::{BufMut, BytesMut};
use filesync::error::Error;
use filesync::transport::{Frame, MessageType, SyncCodec, MAX_FRAME_SIZE};

#[test]
fn roundtrip_frame() {
    let mut codec = SyncCodec;
    let frame = Frame {
        msg_type: MessageType::RpcRequest,
        payload: b"hello".to_vec(),
    };

    let mut buf = BytesMut::new();
    codec.encode(frame.clone(), &mut buf).unwrap();

    let decoded = codec.decode(&mut buf).unwrap().unwrap();
    assert_eq!(decoded.msg_type, MessageType::RpcRequest);
    assert_eq!(decoded.payload, b"hello");
}

#[test]
fn partial_read() {
    let mut codec = SyncCodec;
    let frame = Frame {
        msg_type: MessageType::RpcResponse,
        payload: vec![1, 2, 3, 4, 5],
    };

    let mut full = BytesMut::new();
    codec.encode(frame, &mut full).unwrap();

    // Feed only partial data
    let mut partial = full.split_to(3);
    assert!(codec.decode(&mut partial).unwrap().is_none());

    // Feed the rest
    partial.unsplit(full);
    let decoded = codec.decode(&mut partial).unwrap().unwrap();
    assert_eq!(decoded.msg_type, MessageType::RpcResponse);
    assert_eq!(decoded.payload, vec![1, 2, 3, 4, 5]);
}

#[test]
fn rejects_oversized_frame() {
    let mut codec = SyncCodec;
    let mut buf = BytesMut::new();
    // Write a length that exceeds MAX_FRAME_SIZE
    buf.put_u32((MAX_FRAME_SIZE + 1) as u32);
    buf.put_u8(0x01);
    buf.put_bytes(0, 10);

    let result = codec.decode(&mut buf);
    assert!(result.is_err());
}

#[test]
fn rejects_unknown_message_type() {
    let mut codec = SyncCodec;
    let mut buf = BytesMut::new();
    buf.put_u32(3); // payload length
    buf.put_u8(0xAB); // unknown type
    buf.put_slice(&[1, 2, 3]);

    let result = codec.decode(&mut buf);
    assert!(result.is_err());
}

#[test]
fn encoding_is_length_type_payload() {
    let mut codec = SyncCodec;
    let mut buf = BytesMut::new();
    buf.put_u8(9);
    codec
        .encode(Frame { msg_type: MessageType::Shutdown, payload: vec![7, 8] }, &mut buf)
        .unwrap();
    assert_eq!(&buf[..], &[9, 0, 0, 0, 2, 0xFF, 7, 8]);
    let empty = Frame { msg_type: MessageType::FileData, payload: vec![] };
    let mut b2 = BytesMut::new();
    codec.encode(empty, &mut b2).unwrap();
    assert_eq!(&b2[..], &[0, 0, 0, 0, 0x03]);
}

#[test]
fn decode_leaves_what_follows() {
    let mut codec = SyncCodec;
    let mut buf = BytesMut::new();
    codec.encode(Frame { msg_type: MessageType::Error, payload: vec![1] }, &mut buf).unwrap();
    codec.encode(Frame { msg_type: MessageType::FileData, payload: vec![2, 3] }, &mut buf).unwrap();
    buf.put_u8(0);
    let first = codec.decode(&mut buf).unwrap().unwrap();
    assert_eq!(first.msg_type, MessageType::Error);
    assert_eq!(first.payload, vec![1]);
    let second = codec.decode(&mut buf).unwrap().unwrap();
    assert_eq!(second.msg_type, MessageType::FileData);
    assert_eq!(second.payload, vec![2, 3]);
    assert!(codec.decode(&mut buf).unwrap().is_none());
    assert_eq!(&buf[..], &[0]);
}

#[test]
fn decode_errors_name_the_problem() {
    let mut codec = SyncCodec;
    let mut buf = BytesMut::new();
    buf.put_u32((MAX_FRAME_SIZE + 1) as u32);
    buf.put_u8(0x01);
    match codec.decode(&mut buf) {
        Err(Error::Transport(m)) => assert_eq!(m, "frame too large: 16777217 bytes (max 16777216)"),
        other => panic!("unexpected {:?}", other),
    }
    // The oversized header is left in the buffer.
    assert_eq!(buf.len(), 5);

    let mut buf = BytesMut::new();
    buf.put_u32(3);
    buf.put_u8(0xAB);
    buf.put_slice(&[1, 2, 3]);
    match codec.decode(&mut buf) {
        Err(Error::Transport(m)) => assert_eq!(m, "unknown message type: 0xab"),
        other => panic!("unexpected {:?}", other),
    }
    // The header was consumed, the payload is left.
    assert_eq!(&buf[..], &[1, 2, 3]);
}

#[test]
fn encode_refuses_oversized_payload() {
    let mut codec = SyncCodec;
    let mut buf = BytesMut::new();
    let big = Frame { msg_type: MessageType::FileData, payload: vec![0; MAX_FRAME_SIZE + 1] };
    match codec.encode(big, &mut buf) {
        Err(Error::Transport(m)) => assert_eq!(m, "payload too large: 16777217 bytes (max 16777216)"),
        other => panic!("unexpected {:?}", other),
    }
    assert!(buf.is_empty());
}

#[test]
fn message_type_bytes_roundtrip() {
    for t in [
        MessageType::RpcRequest,
        MessageType::RpcResponse,
        MessageType::FileData,
        MessageType::Error,
        MessageType::Shutdown,
    ] {
        assert_eq!(MessageType::from_u8(t.to_u8()), Some(t));
    }
    assert_eq!(MessageType::Shutdown.to_u8(), 0xFF);
    assert_eq!(MessageType::from_u8(0x05), None);
    assert_eq!(MessageType::from_u8(0x00), None);
}
