use wstcp::{ErrorKind, ReadBuf, ReadOutcome, StreamState, WriteBuf, WriteOutcome};

#[test]
fn stream_state_predicates() {
    assert!(StreamState::Normal.is_normal());
    assert!(StreamState::Eos.is_eos());
    assert!(StreamState::WouldBlock.would_block());
    assert!(StreamState::Error.is_error());
    assert!(!StreamState::Normal.is_eos());
    assert!(!StreamState::Eos.would_block());
    assert!(!StreamState::WouldBlock.is_error());
    assert!(!StreamState::Error.is_normal());
}

#[test]
fn read_buf_starts_empty() {
    let buf = ReadBuf::new(8);
    assert_eq!(buf.len(), 0);
    assert_eq!(buf.room(), 8);
    assert_eq!(buf.capacity(), 8);
    assert!(buf.is_empty());
    assert!(!buf.is_full());
    assert_eq!(buf.stream_state(), StreamState::Normal);
    assert_eq!(buf.filled(), b"");
}

#[test]
fn read_buf_fill_takes_bytes_in_order() {
    let mut buf = ReadBuf::new(8);
    assert_eq!(buf.fill(ReadOutcome::Data(b"abc")), Ok(true));
    assert_eq!(buf.fill(ReadOutcome::Data(b"de")), Ok(true));
    assert_eq!(buf.filled(), b"abcde");
    assert_eq!(buf.len(), 5);
    assert_eq!(buf.room(), 3);
    assert_eq!(buf.stream_state(), StreamState::Normal);
    assert_eq!(buf.fill(ReadOutcome::Data(b"fgh")), Ok(false));
    assert!(buf.is_full());
    assert_eq!(buf.filled(), b"abcdefgh");
}

#[test]
fn read_buf_fill_on_a_full_buffer_changes_nothing() {
    let mut buf = ReadBuf::new(2);
    assert_eq!(buf.fill(ReadOutcome::Data(b"ab")), Ok(false));
    assert_eq!(buf.fill(ReadOutcome::Failed), Ok(false));
    assert_eq!(buf.fill(ReadOutcome::Data(b"")), Ok(false));
    assert_eq!(buf.stream_state(), StreamState::Normal);
    assert_eq!(buf.filled(), b"ab");
}

#[test]
fn read_buf_fill_would_block_eos_and_failure() {
    let mut buf = ReadBuf::new(4);
    assert_eq!(buf.fill(ReadOutcome::WouldBlock), Ok(false));
    assert_eq!(buf.stream_state(), StreamState::WouldBlock);
    assert_eq!(buf.fill(ReadOutcome::Data(b"")), Ok(false));
    assert_eq!(buf.stream_state(), StreamState::Eos);
    let e = buf.fill(ReadOutcome::Failed).unwrap_err();
    assert_eq!(e.kind(), ErrorKind::Other);
    assert_eq!(buf.stream_state(), StreamState::Error);
    assert_eq!(buf.len(), 0);
}

#[test]
fn read_buf_fill_rejects_more_bytes_than_room() {
    let mut buf = ReadBuf::new(4);
    assert_eq!(buf.fill(ReadOutcome::Data(b"abc")), Ok(true));
    let e = buf.fill(ReadOutcome::Data(b"de")).unwrap_err();
    assert_eq!(e.kind(), ErrorKind::Other);
    assert_eq!(buf.stream_state(), StreamState::Error);
    assert_eq!(buf.filled(), b"abc");
}

#[test]
fn read_buf_consume_starts_over_when_empty() {
    let mut buf = ReadBuf::new(4);
    assert_eq!(buf.fill(ReadOutcome::Data(b"abcd")), Ok(false));
    buf.consume(1);
    assert_eq!(buf.filled(), b"bcd");
    assert_eq!(buf.room(), 0);
    buf.consume(3);
    assert_eq!(buf.filled(), b"");
    assert_eq!(buf.room(), 4);
    assert!(buf.is_empty());
}

#[test]
fn write_buf_spare_and_advance() {
    let mut buf = WriteBuf::new(4);
    assert!(buf.is_empty());
    assert_eq!(buf.room(), 4);
    assert_eq!(buf.capacity(), 4);
    {
        let spare = buf.spare();
        assert_eq!(spare.len(), 4);
        spare[0] = b'x';
        spare[1] = b'y';
    }
    buf.advance(2);
    assert_eq!(buf.pending(), b"xy");
    assert_eq!(buf.len(), 2);
    assert_eq!(buf.room(), 2);
    assert!(!buf.is_full());
    assert_eq!(buf.spare().len(), 2);
}

#[test]
fn write_buf_flush_takes_prefix_and_starts_over() {
    let mut buf = WriteBuf::new(4);
    buf.spare().copy_from_slice(b"abcd");
    buf.advance(4);
    assert!(buf.is_full());
    assert_eq!(buf.flush(WriteOutcome::Written(1)), Ok(true));
    assert_eq!(buf.pending(), b"bcd");
    assert_eq!(buf.room(), 0);
    assert_eq!(buf.stream_state(), StreamState::Normal);
    assert_eq!(buf.flush(WriteOutcome::Written(3)), Ok(false));
    assert_eq!(buf.pending(), b"");
    assert_eq!(buf.room(), 4);
}

#[test]
fn write_buf_flush_would_block_eos_and_failure() {
    let mut buf = WriteBuf::new(4);
    assert_eq!(buf.flush(WriteOutcome::Failed), Ok(false));
    assert_eq!(buf.stream_state(), StreamState::Normal);
    buf.spare()[0] = 1;
    buf.advance(1);
    assert_eq!(buf.flush(WriteOutcome::WouldBlock), Ok(false));
    assert_eq!(buf.stream_state(), StreamState::WouldBlock);
    assert_eq!(buf.flush(WriteOutcome::Written(0)), Ok(false));
    assert_eq!(buf.stream_state(), StreamState::Eos);
    assert_eq!(buf.flush(WriteOutcome::Written(2)).unwrap_err().kind(), ErrorKind::Other);
    assert_eq!(buf.stream_state(), StreamState::Error);
    assert_eq!(buf.flush(WriteOutcome::Failed).unwrap_err().kind(), ErrorKind::Other);
    assert_eq!(buf.pending(), &[1u8][..]);
}
