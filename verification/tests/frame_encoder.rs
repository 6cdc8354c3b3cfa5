use wstcp::{
    ByteCount, CodecErrorKind, ErrorKind, Frame, FrameEncoder, ReadOutcome, StreamState,
};

fn drain(encoder: &mut FrameEncoder) -> Vec<u8> {
    let mut out = Vec::new();
    let mut buf = [0u8; 7];
    while !encoder.is_idle() {
        let n = encoder.encode(&mut buf);
        assert!(n > 0);
        out.extend_from_slice(&buf[..n]);
    }
    out
}

#[test]
fn encoder_starts_idle() {
    let mut encoder = FrameEncoder::default();
    assert!(encoder.is_idle());
    assert_eq!(encoder.requiring_bytes(), ByteCount::Finite(0));
    assert_eq!(encoder.read_room(), 4096);
    let mut buf = [9u8; 4];
    assert_eq!(encoder.encode(&mut buf), 0);
    assert_eq!(buf, [9u8; 4]);
    assert!(encoder.is_idle());
}

#[test]
fn encoder_pong_frame_bytes() {
    let mut encoder = FrameEncoder::new();
    assert_eq!(encoder.start_encoding(Frame::Pong { data: b"hi".to_vec() }), Ok(()));
    assert!(!encoder.is_idle());
    assert_eq!(encoder.requiring_bytes(), ByteCount::Finite(4));
    assert_eq!(encoder.read_room(), 0);
    let mut buf = [0u8; 16];
    assert_eq!(encoder.encode(&mut buf), 4);
    assert_eq!(&buf[..4], &[0x8A, 0x02, b'h', b'i']);
    assert_eq!(&buf[4..], &[0u8; 12]);
    assert!(encoder.is_idle());
}

#[test]
fn encoder_empty_pong_is_two_bytes() {
    let mut encoder = FrameEncoder::new();
    assert_eq!(encoder.start_encoding(Frame::Pong { data: Vec::new() }), Ok(()));
    assert!(!encoder.is_idle());
    let mut one = [0u8; 1];
    assert_eq!(encoder.encode(&mut one), 1);
    assert_eq!(one, [0x8A]);
    assert!(!encoder.is_idle());
    assert_eq!(encoder.encode(&mut one), 1);
    assert_eq!(one, [0x00]);
    assert!(encoder.is_idle());
}

#[test]
fn encoder_close_frame_bytes() {
    let mut encoder = FrameEncoder::new();
    let frame = Frame::ConnectionClose { code: 1000, reason: Vec::new() };
    assert_eq!(encoder.start_encoding(frame), Ok(()));
    assert_eq!(drain(&mut encoder), vec![0x88, 0x02, 0x03, 0xE8]);

    let frame = Frame::ConnectionClose { code: 1001, reason: b"bye".to_vec() };
    assert_eq!(encoder.start_encoding(frame), Ok(()));
    assert_eq!(drain(&mut encoder), vec![0x88, 0x05, 0x03, 0xE9, b'b', b'y', b'e']);
}

#[test]
fn encoder_is_full_while_a_frame_is_written() {
    let mut encoder = FrameEncoder::new();
    assert_eq!(encoder.start_encoding(Frame::Pong { data: b"abc".to_vec() }), Ok(()));
    assert_eq!(
        encoder.start_encoding(Frame::Pong { data: b"xyz".to_vec() }),
        Err(CodecErrorKind::EncoderFull)
    );
    let mut buf = [0u8; 3];
    assert_eq!(encoder.encode(&mut buf), 3);
    assert_eq!(
        encoder.start_encoding(Frame::ConnectionClose { code: 1000, reason: Vec::new() }),
        Err(CodecErrorKind::EncoderFull)
    );
    assert_eq!(drain(&mut encoder), vec![b'b', b'c']);
    assert!(encoder.is_idle());
}

#[test]
fn encoder_rejects_payloads_over_the_staging_buffer() {
    let mut encoder = FrameEncoder::new();
    assert_eq!(
        encoder.start_encoding(Frame::Pong { data: vec![1u8; 4097] }),
        Err(CodecErrorKind::InvalidInput)
    );
    assert!(encoder.is_idle());
    assert_eq!(
        encoder.start_encoding(Frame::ConnectionClose { code: 1000, reason: vec![1u8; 4095] }),
        Err(CodecErrorKind::InvalidInput)
    );
    assert!(encoder.is_idle());
    assert_eq!(encoder.start_encoding(Frame::Pong { data: vec![7u8; 4096] }), Ok(()));
    let bytes = drain(&mut encoder);
    assert_eq!(&bytes[..4], &[0x8A, 126, 0x10, 0x00]);
    assert_eq!(&bytes[4..], &vec![7u8; 4096][..]);
    assert_eq!(
        encoder.start_encoding(Frame::ConnectionClose { code: 1002, reason: vec![2u8; 4094] }),
        Ok(())
    );
    let bytes = drain(&mut encoder);
    assert_eq!(&bytes[..6], &[0x88, 126, 0x10, 0x00, 0x03, 0xEA]);
    assert_eq!(bytes.len(), 4 + 4096);
}

#[test]
fn encoder_takes_neither_ping_nor_data() {
    let mut encoder = FrameEncoder::new();
    assert_eq!(
        encoder.start_encoding(Frame::Ping { data: b"x".to_vec() }),
        Err(CodecErrorKind::InvalidInput)
    );
    assert_eq!(encoder.start_encoding(Frame::Data), Err(CodecErrorKind::InvalidInput));
    assert!(encoder.is_idle());
    assert_eq!(encoder.start_encoding(Frame::Pong { data: b"x".to_vec() }), Ok(()));
    assert_eq!(encoder.start_encoding(Frame::Data), Err(CodecErrorKind::EncoderFull));
    assert_eq!(drain(&mut encoder), vec![0x8A, 0x01, b'x']);
}

#[test]
fn encoder_header_grows_at_126_bytes() {
    let mut encoder = FrameEncoder::new();
    assert_eq!(encoder.start_encoding(Frame::Pong { data: vec![5u8; 125] }), Ok(()));
    assert_eq!(encoder.requiring_bytes(), ByteCount::Finite(127));
    let bytes = drain(&mut encoder);
    assert_eq!(&bytes[..2], &[0x8A, 125]);
    assert_eq!(bytes.len(), 127);

    assert_eq!(encoder.start_encoding(Frame::Pong { data: vec![5u8; 126] }), Ok(()));
    assert_eq!(encoder.requiring_bytes(), ByteCount::Finite(130));
    let bytes = drain(&mut encoder);
    assert_eq!(&bytes[..4], &[0x8A, 126, 0x00, 0x7E]);
    assert_eq!(bytes.len(), 130);

    assert_eq!(encoder.start_encoding(Frame::Pong { data: vec![5u8; 127] }), Ok(()));
    let bytes = drain(&mut encoder);
    assert_eq!(&bytes[..4], &[0x8A, 126, 0x00, 0x7F]);
    assert_eq!(bytes.len(), 131);
}

#[test]
fn encoder_data_becomes_one_binary_frame() {
    let mut encoder = FrameEncoder::new();
    assert_eq!(
        encoder.start_encoding_data(ReadOutcome::Data(b"0123456789")),
        Ok(StreamState::Normal)
    );
    assert!(!encoder.is_idle());
    let mut buf = [0u8; 32];
    assert_eq!(encoder.encode(&mut buf), 12);
    assert_eq!(&buf[..12], b"\x82\x0a0123456789");
    assert!(encoder.is_idle());
}

#[test]
fn encoder_data_of_a_full_read() {
    let mut encoder = FrameEncoder::new();
    let data: Vec<u8> = (0..4096u32).map(|i| (i % 251) as u8).collect();
    assert_eq!(encoder.start_encoding_data(ReadOutcome::Data(&data)), Ok(StreamState::Normal));
    let bytes = drain(&mut encoder);
    assert_eq!(&bytes[..4], &[0x82, 126, 0x10, 0x00]);
    assert_eq!(&bytes[4..], &data[..]);
}

#[test]
fn encoder_data_leaves_a_busy_encoder_alone() {
    let mut encoder = FrameEncoder::new();
    assert_eq!(encoder.start_encoding(Frame::Pong { data: b"p".to_vec() }), Ok(()));
    assert_eq!(encoder.start_encoding_data(ReadOutcome::Data(b"lost")), Ok(StreamState::Normal));
    assert_eq!(encoder.start_encoding_data(ReadOutcome::Failed), Ok(StreamState::Normal));
    assert_eq!(encoder.start_encoding_data(ReadOutcome::Data(b"")), Ok(StreamState::Normal));
    assert_eq!(drain(&mut encoder), vec![0x8A, 0x01, b'p']);
}

#[test]
fn encoder_data_eos_would_block_and_failure() {
    let mut encoder = FrameEncoder::new();
    assert_eq!(encoder.start_encoding_data(ReadOutcome::Data(b"")), Ok(StreamState::Eos));
    assert!(encoder.is_idle());
    assert_eq!(encoder.start_encoding_data(ReadOutcome::WouldBlock), Ok(StreamState::WouldBlock));
    assert!(encoder.is_idle());
    let e = encoder.start_encoding_data(ReadOutcome::Failed).unwrap_err();
    assert_eq!(e.kind(), ErrorKind::Other);
    assert!(encoder.is_idle());
    let big = vec![0u8; 4097];
    let e = encoder.start_encoding_data(ReadOutcome::Data(&big)).unwrap_err();
    assert_eq!(e.kind(), ErrorKind::Other);
    assert!(encoder.is_idle());
}

#[test]
fn encoder_writes_into_an_empty_buffer_nothing() {
    let mut encoder = FrameEncoder::new();
    assert_eq!(encoder.start_encoding(Frame::Pong { data: b"abc".to_vec() }), Ok(()));
    let mut none: [u8; 0] = [];
    assert_eq!(encoder.encode(&mut none), 0);
    assert_eq!(encoder.requiring_bytes(), ByteCount::Finite(5));
    assert_eq!(drain(&mut encoder), vec![0x8A, 0x03, b'a', b'b', b'c']);
}

#[test]
fn byte_count_add_for_decoding() {
    assert_eq!(
        ByteCount::Finite(2).add_for_decoding(ByteCount::Finite(3)),
        ByteCount::Finite(5)
    );
    assert_eq!(ByteCount::Infinite.add_for_decoding(ByteCount::Unknown), ByteCount::Infinite);
    assert_eq!(ByteCount::Finite(1).add_for_decoding(ByteCount::Infinite), ByteCount::Infinite);
    assert_eq!(ByteCount::Unknown.add_for_decoding(ByteCount::Unknown), ByteCount::Unknown);
    assert_eq!(ByteCount::Finite(0).add_for_decoding(ByteCount::Unknown), ByteCount::Unknown);
    assert_eq!(ByteCount::Unknown.add_for_decoding(ByteCount::Finite(0)), ByteCount::Unknown);
    assert_eq!(ByteCount::Finite(4).add_for_decoding(ByteCount::Unknown), ByteCount::Finite(4));
    assert_eq!(ByteCount::Unknown.add_for_decoding(ByteCount::Finite(6)), ByteCount::Finite(6));
    assert_eq!(ByteCount::Finite(6).to_u64(), Some(6));
    assert_eq!(ByteCount::Unknown.to_u64(), None);
    assert_eq!(ByteCount::Infinite.to_u64(), None);
}
