use websocket_stream::reader::{FrameReader, ReadResult};
use websocket_stream::util::{OpCode, ReadError, WriteError, SetFdError, OP_TEXT, OP_PONG};
use websocket_stream::writer::{encode_frame, set_op_code, set_payload_info};
use websocket_stream::State;

/// The frame a client would send: the writer's frame with the mask bit set
/// and the payload masked.
fn client_frame(op: OpCode, mask: [u8; 4], payload: &[u8]) -> Vec<u8> {
    let mut p = payload.to_vec();
    let frame = encode_frame(&op, &mut p);
    let header_len = frame.len() - payload.len();
    let mut out = frame[..header_len].to_vec();
    out[1] |= 0x80;
    out.extend_from_slice(&mask);
    for (i, b) in payload.iter().enumerate() {
        out.push(b ^ mask[i % 4]);
    }
    out
}

/// Feeds `input` to the reader, each read giving at most `chunk` bytes and
/// no more than the reader asks for; returns what the reading ended with and
/// how many bytes were used.
fn read_from(reader: &mut FrameReader, input: &[u8], chunk: usize) -> (Option<ReadResult>, usize) {
    let mut pos = 0;
    loop {
        let n = reader.wanted().min(chunk).min(input.len() - pos);
        if n == 0 {
            return (None, pos);
        }
        let got = input[pos..pos + n].to_vec();
        pos += n;
        if let Some(r) = reader.feed(Ok(got)) {
            return (Some(r), pos);
        }
    }
}

#[test]
fn op_code_bits_and_back() {
    let all = [
        OpCode::Continuation,
        OpCode::Text,
        OpCode::Binary,
        OpCode::Close,
        OpCode::Ping,
        OpCode::Pong,
    ];
    let bits = [0x0u8, 0x1, 0x2, 0x8, 0x9, 0xA];
    for (op, b) in all.iter().zip(bits.iter()) {
        assert_eq!(op.bits(), *b);
        assert_eq!(OpCode::from_first_byte(*b | 0x80), Some(*op));
        assert_eq!(OpCode::from_first_byte(*b | 0x70), Some(*op));
    }
    for b in [0x3u8, 0x4, 0x5, 0x6, 0x7, 0xB, 0xC, 0xD, 0xE, 0xF] {
        assert_eq!(OpCode::from_first_byte(b), None);
        assert_eq!(OpCode::from_first_byte(b | 0x80), None);
    }
    assert_eq!(OP_TEXT, 1);
    assert_eq!(OP_PONG, 0xA);
}

#[test]
fn error_and_state_names() {
    assert_eq!(ReadError::EBADF.to_string(), "EBADF");
    assert_eq!(ReadError::OpCode.to_string(), "OpCode");
    assert_eq!(ReadError::DataStop.to_string(), "DataStop");
    assert_eq!(ReadError::NoData.to_string(), "NoData");
    assert_eq!(ReadError::EAGAIN.to_string(), "EAGAIN");
    assert_eq!(WriteError::EPIPE.to_string(), "EPIPE");
    assert_eq!(WriteError::ENOSPC.to_string(), "ENOSPC");
    assert_eq!(SetFdError::EDEADLK.to_string(), "EDEADLK");
    assert_eq!(SetFdError::EPERM.to_string(), "EPERM");
    assert_eq!(State::PayloadLength.to_string(), "PayloadLength");
    assert_eq!(State::MaskingKey.to_string(), "MaskingKey");
}

#[test]
fn writer_short_frame() {
    let mut payload = b"hello".to_vec();
    let frame = encode_frame(&OpCode::Text, &mut payload);
    assert_eq!(frame, vec![0x81, 5, b'h', b'e', b'l', b'l', b'o']);
    assert!(payload.is_empty());
}

#[test]
fn writer_sixteen_bit_length() {
    let mut payload = vec![7u8; 300];
    let frame = encode_frame(&OpCode::Binary, &mut payload);
    assert_eq!(&frame[..4], &[0x82, 126, 0x01, 0x2C]);
    assert_eq!(frame.len(), 304);
    let mut buf = Vec::new();
    set_payload_info(125, &mut buf);
    set_payload_info(126, &mut buf);
    set_payload_info(65535, &mut buf);
    assert_eq!(buf, vec![125, 126, 0x00, 126, 126, 0xFF, 0xFF]);
}

#[test]
fn writer_sixty_four_bit_length() {
    let mut payload = vec![1u8; 65536];
    let frame = encode_frame(&OpCode::Ping, &mut payload);
    assert_eq!(&frame[..10], &[0x89, 127, 0, 0, 0, 0, 0, 0x01, 0x00, 0x00]);
    assert_eq!(frame.len(), 65546);
    let mut buf = vec![9u8];
    set_op_code(&OpCode::Close, &mut buf);
    set_payload_info(0x0102_0304_0506, &mut buf);
    assert_eq!(buf, vec![9, 0x88, 127, 0, 0, 0x01, 0x02, 0x03, 0x04, 0x05, 0x06]);
}

#[test]
fn reader_decodes_client_frames() {
    for &len in &[0usize, 1, 5, 125, 126, 300, 65535, 65536, 70000] {
        let payload: Vec<u8> = (0..len).map(|i| (i * 7 % 251) as u8).collect();
        let frame = client_frame(OpCode::Binary, [0x12, 0x34, 0x56, 0x78], &payload);
        let mut reader = FrameReader::new();
        let (r, used) = read_from(&mut reader, &frame, usize::MAX);
        assert_eq!(used, frame.len());
        assert_eq!(r, Some(Ok((OpCode::Binary, payload.clone()))));
        assert_eq!(reader.state(), State::OpCode);
    }
}

#[test]
fn reader_short_reads_lose_nothing() {
    let payload: Vec<u8> = (0..1000).map(|i| (i % 256) as u8).collect();
    let frame = client_frame(OpCode::Text, [1, 2, 3, 4], &payload);
    for chunk in [1usize, 2, 3, 7, 64] {
        let mut reader = FrameReader::new();
        let (r, used) = read_from(&mut reader, &frame, chunk);
        assert_eq!(used, frame.len());
        assert_eq!(r, Some(Ok((OpCode::Text, payload.clone()))));
    }
}

#[test]
fn reader_reads_frames_back_to_back() {
    let mut input = client_frame(OpCode::Ping, [9, 9, 9, 9], b"ping");
    input.extend(client_frame(OpCode::Close, [0, 0, 0, 0], b""));
    let mut reader = FrameReader::new();
    let (r1, used1) = read_from(&mut reader, &input, usize::MAX);
    assert_eq!(r1, Some(Ok((OpCode::Ping, b"ping".to_vec()))));
    let (r2, used2) = read_from(&mut reader, &input[used1..], usize::MAX);
    assert_eq!(r2, Some(Ok((OpCode::Close, Vec::new()))));
    assert_eq!(used1 + used2, input.len());
}

#[test]
fn reader_wants() {
    let mut reader = FrameReader::new();
    assert_eq!(reader.wanted(), 1);
    assert_eq!(reader.feed(Ok(vec![0x81])), None);
    assert_eq!(reader.state(), State::PayloadKey);
    assert_eq!(reader.wanted(), 1);
    assert_eq!(reader.feed(Ok(vec![0x80 | 127])), None);
    assert_eq!(reader.state(), State::PayloadLength);
    assert_eq!(reader.wanted(), 8);
    assert_eq!(reader.feed(Ok(vec![0, 0, 0])), None);
    assert_eq!(reader.wanted(), 5);
    assert_eq!(reader.feed(Ok(vec![0, 0, 0, 0x01, 0x00])), None);
    assert_eq!(reader.state(), State::MaskingKey);
    assert_eq!(reader.wanted(), 4);
    assert_eq!(reader.feed(Ok(vec![0, 0, 0, 0])), None);
    assert_eq!(reader.state(), State::Payload);
    assert_eq!(reader.wanted(), 256);
    assert_eq!(reader.feed(Ok(vec![5; 100])), None);
    assert_eq!(reader.wanted(), 156);
}

#[test]
fn reader_invalid_op_code_fails_connection() {
    let mut reader = FrameReader::new();
    assert_eq!(reader.feed(Ok(vec![0x83])), Some(Err(ReadError::OpCode)));
    assert_eq!(reader.state(), State::OpCode);
    assert_eq!(reader.wanted(), 1);
    // A valid op code afterwards does not revive the connection.
    assert_eq!(reader.feed(Ok(vec![0x81])), Some(Err(ReadError::OpCode)));
    assert_eq!(reader.feed(Ok(vec![0x82])), Some(Err(ReadError::OpCode)));
}

#[test]
fn reader_no_data_in_header_keeps_progress() {
    let mut reader = FrameReader::new();
    assert_eq!(reader.feed(Ok(vec![0x81])), None);
    assert_eq!(reader.feed(Err(ReadError::EAGAIN)), Some(Err(ReadError::EAGAIN)));
    assert_eq!(reader.state(), State::PayloadKey);
    assert_eq!(reader.feed(Ok(vec![0x80 | 2])), None);
    assert_eq!(reader.feed(Err(ReadError::EAGAIN)), Some(Err(ReadError::EAGAIN)));
    assert_eq!(reader.state(), State::MaskingKey);
    assert_eq!(reader.feed(Ok(vec![1, 1])), None);
    assert_eq!(reader.feed(Err(ReadError::EINTR)), Some(Err(ReadError::EINTR)));
    assert_eq!(reader.wanted(), 2);
    assert_eq!(reader.feed(Ok(vec![1, 1])), None);
    assert_eq!(reader.feed(Ok(vec![0x69 ^ 1, 0x21 ^ 1])), Some(Ok((OpCode::Text, b"i!".to_vec()))));
}

#[test]
fn reader_errors_are_handed_on() {
    let mut reader = FrameReader::new();
    assert_eq!(reader.feed(Err(ReadError::EBADF)), Some(Err(ReadError::EBADF)));
    assert_eq!(reader.feed(Err(ReadError::ENOMEM)), Some(Err(ReadError::ENOMEM)));
    assert_eq!(reader.state(), State::OpCode);
    assert_eq!(reader.wanted(), 1);
}

#[test]
fn reader_gives_up_on_stalled_payload() {
    let mut reader = FrameReader::new();
    for b in [0x82u8, 0x80 | 10, 0, 0, 0, 0] {
        assert_eq!(reader.feed(Ok(vec![b])), None);
    }
    assert_eq!(reader.state(), State::Payload);
    assert_eq!(reader.feed(Ok(vec![1, 2, 3])), None);
    assert_eq!(reader.feed(Err(ReadError::EAGAIN)), None);
    assert_eq!(reader.feed(Err(ReadError::EAGAIN)), None);
    assert_eq!(reader.feed(Err(ReadError::EAGAIN)), None);
    assert_eq!(reader.feed(Err(ReadError::EAGAIN)), Some(Err(ReadError::EAGAIN)));
    assert_eq!(reader.state(), State::OpCode);
    assert_eq!(reader.wanted(), 1);
}

#[test]
fn reader_data_resets_the_retries() {
    let mut reader = FrameReader::new();
    for b in [0x82u8, 0x80 | 4, 0, 0, 0, 0] {
        assert_eq!(reader.feed(Ok(vec![b])), None);
    }
    for _ in 0..3 {
        assert_eq!(reader.feed(Err(ReadError::EAGAIN)), None);
    }
    assert_eq!(reader.feed(Ok(vec![1])), None);
    for _ in 0..3 {
        assert_eq!(reader.feed(Err(ReadError::EAGAIN)), None);
    }
    assert_eq!(reader.feed(Ok(vec![2, 3, 4])), Some(Ok((OpCode::Binary, vec![1, 2, 3, 4]))));
}

#[test]
fn reader_clone_is_independent() {
    let mut reader = FrameReader::new();
    assert_eq!(reader.feed(Ok(vec![0x81])), None);
    let mut copy = reader.clone();
    assert_eq!(copy.feed(Ok(vec![0x80])), None);
    assert_eq!(copy.state(), State::MaskingKey);
    assert_eq!(reader.state(), State::PayloadKey);
}

#[test]
fn reader_zero_byte_read_is_data_stop() {
    let mut reader = FrameReader::new();
    assert_eq!(reader.feed(Ok(vec![])), Some(Err(ReadError::DataStop)));
    assert_eq!(reader.state(), State::OpCode);
    for b in [0x81u8, 0x80 | 3, 7, 7, 7, 7] {
        assert_eq!(reader.feed(Ok(vec![b])), None);
    }
    assert_eq!(reader.feed(Ok(vec![b'a' ^ 7])), None);
    // The peer stops sending in the middle of the payload: the reading ends
    // with DataStop, every time, and nothing that came in is lost.
    for _ in 0..5 {
        assert_eq!(reader.feed(Ok(vec![])), Some(Err(ReadError::DataStop)));
        assert_eq!(reader.state(), State::Payload);
        assert_eq!(reader.wanted(), 2);
    }
    assert_eq!(reader.feed(Ok(vec![b'b' ^ 7, b'c' ^ 7])), Some(Ok((OpCode::Text, b"abc".to_vec()))));
}

#[test]
fn reader_frame_across_calls() {
    // A frame whose pieces arrive between calls: each call that finds no
    // data outside the payload ends with EAGAIN and the next one goes on.
    let payload = b"across calls".to_vec();
    let frame = client_frame(OpCode::Text, [3, 1, 4, 1], &payload);
    let mut reader = FrameReader::new();
    let mut pos = 0;
    let mut results = Vec::new();
    while pos < frame.len() {
        let n = reader.wanted().min(2).min(frame.len() - pos);
        let got = frame[pos..pos + n].to_vec();
        pos += n;
        if let Some(r) = reader.feed(Ok(got)) {
            results.push(r);
            break;
        }
        if reader.state() != State::Payload {
            results.push(reader.feed(Err(ReadError::EAGAIN)).unwrap());
        }
    }
    let last = results.pop().unwrap();
    assert!(results.iter().all(|r| *r == Err(ReadError::EAGAIN)));
    assert_eq!(last, Ok((OpCode::Text, payload)));
}

#[test]
fn reader_ignores_fin_and_rsv_bits() {
    for first in [0x01u8, 0x00, 0x71, 0xF2, 0x8A] {
        let mut frame = client_frame(OpCode::Text, [5, 6, 7, 8], b"fragment");
        frame[0] = first;
        let mut reader = FrameReader::new();
        let (r, used) = read_from(&mut reader, &frame, 3);
        assert_eq!(used, frame.len());
        let op = OpCode::from_first_byte(first).unwrap();
        assert_eq!(r, Some(Ok((op, b"fragment".to_vec()))));
    }
}
