use wstcp::{
    ByteCount, CodecErrorKind, ErrorKind, Frame, FrameDecoder, FrameEncoder, FrameHeader,
    FrameHeaderDecoder, Opcode, StreamState, WriteOutcome,
};

const KEY: [u8; 4] = [0x37, 0xfa, 0x21, 0x3d];

fn header_bytes(first: u8, mask: Option<[u8; 4]>, len: u64) -> Vec<u8> {
    let flag = if mask.is_some() { 0x80 } else { 0 };
    let mut bytes = vec![first];
    if len < 126 {
        bytes.push(flag | len as u8);
    } else if len < 0x10000 {
        bytes.push(flag | 126);
        bytes.extend_from_slice(&(len as u16).to_be_bytes());
    } else {
        bytes.push(flag | 127);
        bytes.extend_from_slice(&len.to_be_bytes());
    }
    if let Some(key) = mask {
        bytes.extend_from_slice(&key);
    }
    bytes
}

fn masked(data: &[u8], key: [u8; 4]) -> Vec<u8> {
    data.iter().enumerate().map(|(i, b)| b ^ key[i % 4]).collect()
}

fn frame(first: u8, payload: &[u8]) -> Vec<u8> {
    let mut bytes = header_bytes(first, Some(KEY), payload.len() as u64);
    bytes.extend_from_slice(&masked(payload, KEY));
    bytes
}

fn decode_header(bytes: &[u8]) -> FrameHeader {
    let mut decoder = FrameHeaderDecoder::default();
    assert_eq!(decoder.decode(bytes, false), Ok(bytes.len()));
    assert!(decoder.is_idle());
    assert_eq!(decoder.requiring_bytes(), ByteCount::Finite(0));
    let header = decoder.finish_decoding().unwrap();
    assert!(!decoder.is_idle());
    header
}

#[test]
fn header_round_trip_over_lengths_opcodes_and_masks() {
    let opcodes = [
        Opcode::ContinuationFrame,
        Opcode::TextFrame,
        Opcode::BinaryFrame,
        Opcode::ConnectionClose,
        Opcode::Ping,
        Opcode::Pong,
    ];
    let lengths = [0u64, 125, 126, 127, 65535, 65536, 1 << 32];
    for opcode in opcodes {
        for mask in [None, Some(KEY)] {
            for len in lengths {
                let sent = FrameHeader { fin_flag: true, opcode, mask, payload_len: len };
                let bytes = sent.to_bytes();
                assert_eq!(bytes, header_bytes(0x80 | opcode.to_u8(), mask, len));
                let header = decode_header(&bytes);
                assert!(header.fin_flag);
                assert_eq!(header.opcode, opcode);
                assert_eq!(header.mask, mask);
                assert_eq!(header.payload_len, len);
            }
        }
    }
}

#[test]
fn header_to_bytes_on_the_wire() {
    let header = |opcode, mask, payload_len| FrameHeader { fin_flag: true, opcode, mask, payload_len };
    assert_eq!(header(Opcode::BinaryFrame, None, 0).to_bytes(), [0x82, 0x00]);
    assert_eq!(header(Opcode::BinaryFrame, None, 125).to_bytes(), [0x82, 0x7D]);
    assert_eq!(header(Opcode::Pong, None, 126).to_bytes(), [0x8A, 0x7E, 0x00, 0x7E]);
    assert_eq!(header(Opcode::Ping, None, 65535).to_bytes(), [0x89, 0x7E, 0xFF, 0xFF]);
    assert_eq!(
        header(Opcode::TextFrame, None, 65536).to_bytes(),
        [0x81, 0x7F, 0, 0, 0, 0, 0, 1, 0, 0]
    );
    assert_eq!(
        header(Opcode::ConnectionClose, None, 1 << 32).to_bytes(),
        [0x88, 0x7F, 0, 0, 0, 1, 0, 0, 0, 0]
    );
    assert_eq!(
        header(Opcode::BinaryFrame, Some(KEY), 0x0102_0304_0506_0708).to_bytes(),
        [0x82, 0xFF, 1, 2, 3, 4, 5, 6, 7, 8, 0x37, 0xfa, 0x21, 0x3d]
    );
    let open = FrameHeader {
        fin_flag: false,
        opcode: Opcode::ContinuationFrame,
        mask: Some(KEY),
        payload_len: 5,
    };
    assert_eq!(open.to_bytes(), [0x00, 0x85, 0x37, 0xfa, 0x21, 0x3d]);
}

#[test]
fn header_sizes_on_the_wire() {
    assert_eq!(decode_header(&[0x82, 0x00]).payload_len, 0);
    assert_eq!(decode_header(&[0x82, 0x7D]).payload_len, 125);
    assert_eq!(decode_header(&[0x82, 0x7E, 0x00, 0x7E]).payload_len, 126);
    assert_eq!(decode_header(&[0x82, 0x7E, 0xFF, 0xFF]).payload_len, 65535);
    assert_eq!(decode_header(&[0x82, 0x7F, 0, 0, 0, 0, 0, 1, 0, 0]).payload_len, 65536);
    assert_eq!(decode_header(&[0x82, 0x7F, 0, 0, 0, 1, 0, 0, 0, 0]).payload_len, 1 << 32);
    assert_eq!(
        decode_header(&[0x82, 0x7F, 0x7F, 0xFF, 0xFF, 0xFF, 0xFF, 0xFF, 0xFF, 0xFF]).payload_len,
        u64::MAX >> 1
    );
    let header = decode_header(&[0x02, 0x81, 1, 2, 3, 4]);
    assert!(!header.fin_flag);
    assert_eq!(header.mask, Some([1, 2, 3, 4]));
    assert_eq!(header.payload_len, 1);
}

#[test]
fn header_length_with_the_top_bit_set_is_invalid_input() {
    let mut decoder = FrameHeaderDecoder::new();
    assert_eq!(
        decoder.decode(&[0x82, 0x7F, 0x80, 0, 0, 0, 0, 0, 0, 0], false),
        Err(CodecErrorKind::InvalidInput)
    );
    assert!(!decoder.is_idle());
    assert_eq!(decoder.finish_decoding().unwrap_err(), CodecErrorKind::IncompleteDecoding);
    assert_eq!(
        decoder.decode(&[0x82, 0xFF, 0xFF, 0xFF, 0xFF, 0xFF, 0xFF, 0xFF, 0xFF, 0xFF, 1, 2, 3, 4], false),
        Err(CodecErrorKind::InvalidInput)
    );
    assert_eq!(decoder.decode(&[0x82, 0x7F, 0x80, 0, 0], false), Ok(5));
    assert_eq!(decoder.decode(&[0, 0, 0, 0, 0, 9], false), Err(CodecErrorKind::InvalidInput));
    assert_eq!(decoder.decode(&[0x8A, 0x00], false), Ok(2));
    assert_eq!(decoder.finish_decoding().unwrap().opcode, Opcode::Pong);
    let mut decoder = FrameDecoder::new();
    assert_eq!(
        decoder.decode(&[0x82, 0xFF, 0x80, 0, 0, 0, 0, 0, 0, 0, 1, 2, 3, 4, 5], false),
        Err(CodecErrorKind::InvalidInput)
    );
    assert!(decoder.is_data_empty());
}

#[test]
fn decoder_unmasked_frame_is_invalid_input() {
    let mut decoder = FrameDecoder::new();
    assert_eq!(decoder.decode(&[0x82, 0x01, 0x41], false), Err(CodecErrorKind::InvalidInput));
    assert!(decoder.is_data_empty());
    assert_eq!(decoder.decoded_data(), b"");
    assert!(!decoder.is_idle());
    assert_eq!(decoder.finish_decoding().unwrap_err(), CodecErrorKind::IncompleteDecoding);
    for first in [0x81u8, 0x80, 0x88, 0x89, 0x8A] {
        let mut decoder = FrameDecoder::new();
        assert_eq!(
            decoder.decode(&[first, 0x02, 0x03, 0xE8], false),
            Err(CodecErrorKind::InvalidInput)
        );
        assert_eq!(decoder.decode(&[first], false), Ok(1));
        assert_eq!(decoder.decode(&[0x00], false), Err(CodecErrorKind::InvalidInput));
        assert_eq!(decoder.decode(&frame(0x89, b"ok"), false), Ok(8));
        assert!(decoder.is_idle());
    }
}

#[test]
fn header_reserved_bits_are_not_looked_at() {
    let header = decode_header(&[0xF2, 0x05]);
    assert!(header.fin_flag);
    assert_eq!(header.opcode, Opcode::BinaryFrame);
    assert_eq!(header.payload_len, 5);
}

#[test]
fn header_from_bytes_reads_the_first_two_bytes() {
    let header = FrameHeader::from_bytes([0x89, 0xFE]).unwrap();
    assert!(header.fin_flag);
    assert_eq!(header.opcode, Opcode::Ping);
    assert_eq!(header.mask, Some([0, 0, 0, 0]));
    assert_eq!(header.payload_len, 126);
    let header = FrameHeader::from_bytes([0x01, 0x7F]).unwrap();
    assert!(!header.fin_flag);
    assert_eq!(header.opcode, Opcode::TextFrame);
    assert_eq!(header.mask, None);
    assert_eq!(header.payload_len, 127);
    assert_eq!(FrameHeader::from_bytes([0x83, 0x00]).unwrap_err(), CodecErrorKind::InvalidInput);
}

#[test]
fn header_decoder_reads_byte_by_byte() {
    let bytes = header_bytes(0x82, Some(KEY), 300);
    let mut decoder = FrameHeaderDecoder::new();
    assert_eq!(decoder.requiring_bytes(), ByteCount::Finite(2));
    for (i, b) in bytes.iter().enumerate() {
        assert!(!decoder.is_idle());
        assert_eq!(decoder.finish_decoding().unwrap_err(), CodecErrorKind::IncompleteDecoding);
        assert_eq!(decoder.decode(&[*b], false), Ok(1), "byte {}", i);
    }
    assert!(decoder.is_idle());
    assert_eq!(decoder.decode(&[1, 2, 3], false), Ok(0));
    let header = decoder.finish_decoding().unwrap();
    assert_eq!(header.payload_len, 300);
    assert_eq!(header.mask, Some(KEY));
}

#[test]
fn header_decoder_counts_the_bytes_it_asks_for() {
    let mut decoder = FrameHeaderDecoder::new();
    assert_eq!(decoder.decode(&[0x82], false), Ok(1));
    assert_eq!(decoder.requiring_bytes(), ByteCount::Finite(1));
    assert_eq!(decoder.decode(&[0xFE, 0x01], false), Ok(2));
    assert_eq!(decoder.requiring_bytes(), ByteCount::Finite(7));
    assert_eq!(decoder.decode(&[0x2C, 1, 2, 3, 4, 99], false), Ok(5));
    assert_eq!(decoder.requiring_bytes(), ByteCount::Finite(0));
    assert_eq!(decoder.finish_decoding().unwrap().payload_len, 300);
    assert_eq!(decoder.requiring_bytes(), ByteCount::Finite(8));
}

#[test]
fn header_decoder_stops_at_the_end_of_the_header() {
    let mut decoder = FrameHeaderDecoder::new();
    assert_eq!(decoder.decode(&[0x82, 0x7E, 0x01, 0x00, 9, 9, 9], false), Ok(4));
    assert_eq!(decoder.finish_decoding().unwrap().payload_len, 256);
}

#[test]
fn header_decoder_unknown_opcode_is_invalid_input() {
    let mut decoder = FrameHeaderDecoder::new();
    assert_eq!(decoder.decode(&[0x83, 0x00], false), Err(CodecErrorKind::InvalidInput));
    assert!(!decoder.is_idle());
    assert_eq!(decoder.decode(&[0x8A, 0x00], false), Ok(2));
    assert_eq!(decoder.finish_decoding().unwrap().opcode, Opcode::Pong);
}

#[test]
fn header_decoder_unexpected_eos() {
    let mut decoder = FrameHeaderDecoder::new();
    assert_eq!(decoder.decode(&[], true), Err(CodecErrorKind::UnexpectedEos));
    assert_eq!(decoder.decode(&[0x82], true), Err(CodecErrorKind::UnexpectedEos));
    assert_eq!(decoder.decode(&[0x7E, 0x00], true), Err(CodecErrorKind::UnexpectedEos));
    assert_eq!(decoder.decode(&[0x05], true), Ok(1));
    assert_eq!(decoder.finish_decoding().unwrap().payload_len, 5);
    let mut decoder = FrameHeaderDecoder::new();
    assert_eq!(decoder.decode(&[0x82, 0x05], true), Ok(2));
}

#[test]
fn decoder_masked_ping_restores_the_plaintext() {
    let mut decoder = FrameDecoder::default();
    let bytes = [0x89, 0x85, 0x37, 0xfa, 0x21, 0x3d, 0x7f, 0x9f, 0x4d, 0x51, 0x58];
    assert_eq!(decoder.decode(&bytes, false), Ok(11));
    assert!(decoder.is_idle());
    assert!(decoder.is_data_empty());
    match decoder.finish_decoding().unwrap() {
        Frame::Ping { data } => assert_eq!(data, b"Hello"),
        other => panic!("{:?}", other),
    }
    assert!(!decoder.is_idle());
}

#[test]
fn decoder_masked_pong_and_close_restore_the_plaintext() {
    let mut decoder = FrameDecoder::new();
    let mut bytes = header_bytes(0x8A, Some(KEY), 9);
    bytes.extend_from_slice(&masked(b"plaintext", KEY));
    assert_eq!(decoder.decode(&bytes, false), Ok(bytes.len()));
    match decoder.finish_decoding().unwrap() {
        Frame::Pong { data } => assert_eq!(data, b"plaintext"),
        other => panic!("{:?}", other),
    }
    let mut payload = vec![0x03, 0xE9];
    payload.extend_from_slice(b"going away");
    let mut bytes = header_bytes(0x88, Some(KEY), payload.len() as u64);
    bytes.extend_from_slice(&masked(&payload, KEY));
    assert_eq!(decoder.decode(&bytes, false), Ok(bytes.len()));
    match decoder.finish_decoding().unwrap() {
        Frame::ConnectionClose { code, reason } => {
            assert_eq!(code, 1001);
            assert_eq!(reason, b"going away");
        }
        other => panic!("{:?}", other),
    }
}

#[test]
fn decoder_masked_payload_in_pieces() {
    let mut decoder = FrameDecoder::new();
    let plain: Vec<u8> = (0..23u8).collect();
    let mut bytes = header_bytes(0x89, Some(KEY), plain.len() as u64);
    bytes.extend_from_slice(&masked(&plain, KEY));
    let mut at = 0;
    for size in [1usize, 1, 3, 2, 5, 1, 7, 9] {
        let end = (at + size).min(bytes.len());
        assert_eq!(decoder.decode(&bytes[at..end], false), Ok(end - at));
        at = end;
    }
    assert_eq!(at, bytes.len());
    assert!(decoder.is_idle());
    match decoder.finish_decoding().unwrap() {
        Frame::Ping { data } => assert_eq!(data, plain),
        other => panic!("{:?}", other),
    }
}

#[test]
fn decoder_close_without_reason_and_short_close() {
    let mut decoder = FrameDecoder::new();
    assert_eq!(decoder.decode(&frame(0x88, &[0x03, 0xE8]), false), Ok(8));
    match decoder.finish_decoding().unwrap() {
        Frame::ConnectionClose { code, reason } => {
            assert_eq!(code, 1000);
            assert!(reason.is_empty());
        }
        other => panic!("{:?}", other),
    }
    assert_eq!(decoder.decode(&frame(0x88, &[0x03]), false), Ok(7));
    assert!(decoder.is_idle());
    assert_eq!(decoder.finish_decoding().unwrap_err(), CodecErrorKind::InvalidInput);
    assert!(!decoder.is_idle());
    assert_eq!(decoder.decode(&frame(0x88, &[]), false), Ok(6));
    assert_eq!(decoder.finish_decoding().unwrap_err(), CodecErrorKind::InvalidInput);
    assert_eq!(decoder.decode(&frame(0x8A, &[]), false), Ok(6));
    match decoder.finish_decoding().unwrap() {
        Frame::Pong { data } => assert!(data.is_empty()),
        other => panic!("{:?}", other),
    }
}

#[test]
fn decoder_unknown_opcode_is_invalid_input() {
    let mut decoder = FrameDecoder::new();
    assert_eq!(decoder.decode(&frame(0x8B, &[]), false), Err(CodecErrorKind::InvalidInput));
    assert_eq!(decoder.decode(&frame(0x83, b"12345"), false), Err(CodecErrorKind::InvalidInput));
}

#[test]
fn decoder_finish_before_the_frame_is_complete() {
    let mut decoder = FrameDecoder::new();
    assert_eq!(decoder.finish_decoding().unwrap_err(), CodecErrorKind::IncompleteDecoding);
    assert_eq!(decoder.decode(&frame(0x89, b"abc")[..7], false), Ok(7));
    assert!(!decoder.is_idle());
    assert_eq!(decoder.finish_decoding().unwrap_err(), CodecErrorKind::IncompleteDecoding);
    let mut rest = frame(0x89, b"abc")[7..].to_vec();
    rest.push(b'd');
    assert_eq!(decoder.decode(&rest, false), Ok(2));
    match decoder.finish_decoding().unwrap() {
        Frame::Ping { data } => assert_eq!(data, b"abc"),
        other => panic!("{:?}", other),
    }
}

#[test]
fn decoder_unexpected_eos_in_the_payload() {
    let mut decoder = FrameDecoder::new();
    assert_eq!(
        decoder.decode(&frame(0x89, b"abc")[..7], true),
        Err(CodecErrorKind::UnexpectedEos)
    );
    let mut decoder = FrameDecoder::new();
    assert_eq!(decoder.decode(&frame(0x89, b"abc"), true), Ok(9));
    assert!(decoder.is_idle());
}

#[test]
fn decoder_data_frame_is_handed_on_before_it_is_taken() {
    let mut decoder = FrameDecoder::new();
    assert!(decoder.is_data_empty());
    assert_eq!(decoder.decoded_data(), b"");
    assert_eq!(decoder.write_decoded_data(WriteOutcome::Written(3)), Ok(StreamState::Normal));
    let mut bytes = header_bytes(0x82, Some(KEY), 5);
    bytes.extend_from_slice(&masked(b"hello", KEY));
    assert_eq!(decoder.decode(&bytes, false), Ok(bytes.len()));
    assert!(!decoder.is_idle());
    assert!(!decoder.is_data_empty());
    assert_eq!(decoder.decoded_data(), b"hello");
    assert_eq!(decoder.finish_decoding().unwrap_err(), CodecErrorKind::IncompleteDecoding);
    assert_eq!(decoder.write_decoded_data(WriteOutcome::WouldBlock), Ok(StreamState::WouldBlock));
    assert_eq!(decoder.write_decoded_data(WriteOutcome::Written(0)), Ok(StreamState::Eos));
    assert_eq!(decoder.decoded_data(), b"hello");
    assert_eq!(decoder.write_decoded_data(WriteOutcome::Written(2)), Ok(StreamState::Normal));
    assert_eq!(decoder.decoded_data(), b"llo");
    assert!(!decoder.is_idle());
    assert_eq!(
        decoder.write_decoded_data(WriteOutcome::Written(4)).unwrap_err().kind(),
        ErrorKind::Other
    );
    assert_eq!(
        decoder.write_decoded_data(WriteOutcome::Failed).unwrap_err().kind(),
        ErrorKind::Other
    );
    assert_eq!(decoder.write_decoded_data(WriteOutcome::Written(3)), Ok(StreamState::Normal));
    assert!(decoder.is_data_empty());
    assert!(decoder.is_idle());
    assert!(matches!(decoder.finish_decoding().unwrap(), Frame::Data));
    assert!(decoder.is_data_empty());
}

#[test]
fn decoder_text_and_continuation_are_data() {
    for first in [0x81u8, 0x80, 0x00, 0x01] {
        let mut decoder = FrameDecoder::new();
        assert_eq!(decoder.decode(&frame(first, b"ok"), false), Ok(8));
        assert_eq!(decoder.decoded_data(), b"ok");
        assert_eq!(decoder.write_decoded_data(WriteOutcome::Written(2)), Ok(StreamState::Normal));
        assert!(matches!(decoder.finish_decoding().unwrap(), Frame::Data));
    }
}

#[test]
fn decoder_empty_data_frame_is_complete_at_once() {
    let mut decoder = FrameDecoder::new();
    let mut bytes = frame(0x82, &[]);
    bytes.push(0x82);
    assert_eq!(decoder.decode(&bytes, false), Ok(6));
    assert!(decoder.is_idle());
    assert!(decoder.is_data_empty());
    assert!(matches!(decoder.finish_decoding().unwrap(), Frame::Data));
}

#[test]
fn decoder_large_data_frame_goes_through_the_window() {
    let plain: Vec<u8> = (0..10000u32).map(|i| (i % 253) as u8).collect();
    let mut bytes = header_bytes(0x82, Some(KEY), plain.len() as u64);
    bytes.extend_from_slice(&masked(&plain, KEY));
    let mut decoder = FrameDecoder::new();
    let mut written = Vec::new();
    let mut at = 0;
    let mut turns = 0;
    while !decoder.is_idle() || at == 0 {
        let n = decoder.decode(&bytes[at..], false).unwrap();
        at += n;
        let data = decoder.decoded_data().to_vec();
        assert!(data.len() <= 4096);
        let take = data.len().min(1000);
        if take > 0 {
            written.extend_from_slice(&data[..take]);
            assert_eq!(
                decoder.write_decoded_data(WriteOutcome::Written(take)),
                Ok(StreamState::Normal)
            );
        }
        turns += 1;
        assert!(turns < 100);
    }
    assert_eq!(at, bytes.len());
    assert_eq!(written, plain);
    assert!(matches!(decoder.finish_decoding().unwrap(), Frame::Data));
}

#[test]
fn decoder_asks_for_bytes() {
    let mut decoder = FrameDecoder::new();
    assert_eq!(decoder.requiring_bytes(), ByteCount::Finite(2));
    assert_eq!(decoder.decode(&[0x89, 0x83, 1, 2, 3, 4, b'a'], false), Ok(7));
    assert_eq!(decoder.requiring_bytes(), ByteCount::Finite(8));
}

#[test]
fn decoder_reads_the_payload_that_the_encoder_wrote() {
    let mut encoder = FrameEncoder::new();
    let mut decoder = FrameDecoder::new();
    for len in [0usize, 1, 125, 126, 127, 4094] {
        let reason: Vec<u8> = (0..len).map(|i| (i % 7) as u8).collect();
        let close = Frame::ConnectionClose { code: 4000, reason: reason.clone() };
        assert_eq!(encoder.start_encoding(close), Ok(()));
        let mut wire = vec![0u8; 5000];
        let n = encoder.encode(&mut wire);
        assert!(encoder.is_idle());

        let mut headers = FrameHeaderDecoder::new();
        let k = headers.decode(&wire[..n], false).unwrap();
        let header = headers.finish_decoding().unwrap();
        assert!(header.fin_flag);
        assert_eq!(header.opcode, Opcode::ConnectionClose);
        assert_eq!(header.mask, None);
        assert_eq!(header.payload_len as usize, n - k);
        assert_eq!(
            FrameDecoder::new().decode(&wire[..n], false),
            Err(CodecErrorKind::InvalidInput)
        );

        let sent = frame(wire[0], &wire[k..n]);
        assert_eq!(decoder.decode(&sent, false), Ok(sent.len()));
        match decoder.finish_decoding().unwrap() {
            Frame::ConnectionClose { code, reason: got } => {
                assert_eq!(code, 4000);
                assert_eq!(got, reason);
            }
            other => panic!("{:?}", other),
        }
    }
}

#[test]
fn decoder_run_of_frames_hands_on_the_data_payloads_in_order() {
    let first: Vec<u8> = (0..5000u32).map(|i| (i % 251) as u8).collect();
    let second: Vec<u8> = b"in between".to_vec();
    let third: Vec<u8> = (0..300u32).map(|i| (i % 7) as u8).collect();
    let mut bytes = frame(0x82, &first);
    bytes.extend_from_slice(&frame(0x89, b"not for the server"));
    bytes.extend_from_slice(&frame(0x81, &second));
    bytes.extend_from_slice(&frame(0x80, &third));
    let mut decoder = FrameDecoder::new();
    let mut written = Vec::new();
    let mut frames = Vec::new();
    let mut at = 0;
    let mut turns = 0;
    while at < bytes.len() || !decoder.is_data_empty() {
        let end = (at + 777).min(bytes.len());
        at += decoder.decode(&bytes[at..end], false).unwrap();
        let take = decoder.decoded_data().len().min(500);
        if take > 0 {
            written.extend_from_slice(&decoder.decoded_data()[..take]);
            assert_eq!(
                decoder.write_decoded_data(WriteOutcome::Written(take)),
                Ok(StreamState::Normal)
            );
        }
        if decoder.is_idle() {
            frames.push(decoder.finish_decoding().unwrap());
        }
        turns += 1;
        assert!(turns < 1000);
    }
    let mut expected = first.clone();
    expected.extend_from_slice(&second);
    expected.extend_from_slice(&third);
    assert_eq!(written, expected);
    assert_eq!(frames.len(), 4);
    assert!(matches!(frames[0], Frame::Data));
    match &frames[1] {
        Frame::Ping { data } => assert_eq!(data, b"not for the server"),
        other => panic!("{:?}", other),
    }
    assert!(matches!(frames[2], Frame::Data));
    assert!(matches!(frames[3], Frame::Data));
}
