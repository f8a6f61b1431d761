use filesync::transfer::{file_data_frames, receive_frame, unexpected_frame_message, Received, FILE_CHUNK_SIZE};
use filesync::transport::{Frame, MessageType};

fn receive_all(frames: &[Frame]) -> (Vec<u8>, usize) {
    let mut data = Vec::new();
    for (i, f) in frames.iter().enumerate() {
        match receive_frame(&mut data, f) {
            Received::More => {}
            Received::End => return (data, i),
            Received::Unexpected => panic!("unexpected frame"),
        }
    }
    panic!("no end frame")
}

#[test]
fn file_frames_reassemble_to_the_data() {
    for len in [0usize, 1, 10, FILE_CHUNK_SIZE - 1, FILE_CHUNK_SIZE, FILE_CHUNK_SIZE + 1, 2 * FILE_CHUNK_SIZE + 7] {
        let data: Vec<u8> = (0..len).map(|i| (i % 251) as u8).collect();
        let frames = file_data_frames(&data);
        assert!(frames.iter().all(|f| f.msg_type == MessageType::FileData));
        assert!(frames.iter().all(|f| f.payload.len() <= FILE_CHUNK_SIZE));
        assert_eq!(frames.len(), len.div_ceil(FILE_CHUNK_SIZE) + 1);
        let (got, end) = receive_all(&frames);
        assert_eq!(end, frames.len() - 1);
        assert_eq!(got, data);
    }
}

#[test]
fn receiving_stops_at_other_frames() {
    let mut data = vec![1u8];
    let f = Frame { msg_type: MessageType::RpcResponse, payload: vec![9] };
    assert_eq!(receive_frame(&mut data, &f), Received::Unexpected);
    assert_eq!(data, vec![1]);
    assert_eq!(unexpected_frame_message(MessageType::RpcResponse), "expected FileData, got RpcResponse");
}
