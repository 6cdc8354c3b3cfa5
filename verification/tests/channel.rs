use wstcp::{
    Closing, ConnectOutcome, ErrorKind, Frame, HandshakeStep, PollStep, ProxyChannel, ReadOutcome,
    WriteOutcome,
};

const REQUEST: &[u8] = b"GET /chat HTTP/1.1\r\n\
Host: server.example.com\r\n\
Upgrade: websocket\r\n\
Connection: Upgrade\r\n\
Sec-WebSocket-Key: dGhlIHNhbXBsZSBub25jZQ==\r\n\
Origin: http://example.com\r\n\
Sec-WebSocket-Protocol: chat, superchat\r\n\
Sec-WebSocket-Version: 13\r\n\
\r\n";

const ACCEPTED: &[u8] = b"HTTP/1.1 101 Switching Protocols\r\n\
Upgrade: websocket\r\n\
Connection: Upgrade\r\n\
Sec-WebSocket-Accept: s3pPLMBiTxaQ9kYGzzhZRbK+xOo=\r\n\
\r\n";

const BAD_REQUEST: &[u8] = b"HTTP/1.1 400 Bad Request\r\nContent-Length: 0\r\n\r\n";

const UNAVAILABLE: &[u8] = b"HTTP/1.1 503 Service Unavailable\r\nContent-Length: 0\r\n\r\n";

const KEY: [u8; 4] = [0x37, 0xfa, 0x21, 0x3d];

fn client_frame(opcode: u8, payload: &[u8]) -> Vec<u8> {
    assert!(payload.len() < 126);
    let mut bytes = vec![0x80 | opcode, 0x80 | payload.len() as u8];
    bytes.extend_from_slice(&KEY);
    bytes.extend(payload.iter().enumerate().map(|(i, b)| b ^ KEY[i % 4]));
    bytes
}

fn feed(channel: &mut ProxyChannel, bytes: &[u8]) {
    assert!(channel.ws_read_room() >= bytes.len());
    channel.fill_ws(ReadOutcome::Data(bytes)).unwrap();
}

fn take_output(channel: &mut ProxyChannel) -> Vec<u8> {
    let out = channel.ws_output().to_vec();
    if !out.is_empty() {
        assert_eq!(channel.flush_ws(WriteOutcome::Written(out.len())), Ok(false));
    }
    out
}

/// One turn in which the real server neither sends nor takes anything new,
/// but takes what the connection had for it.
fn turn(channel: &mut ProxyChannel) -> (PollStep, Vec<u8>) {
    assert_eq!(channel.poll_handshake(None), PollStep::Relay);
    let upstream = channel.real_output().to_vec();
    let write = if upstream.is_empty() {
        WriteOutcome::WouldBlock
    } else {
        WriteOutcome::Written(upstream.len())
    };
    (channel.poll_relay(ReadOutcome::WouldBlock, write), upstream)
}

fn connected() -> ProxyChannel {
    let mut channel = ProxyChannel::new();
    feed(&mut channel, REQUEST);
    assert_eq!(channel.poll_handshake(None), PollStep::Connect);
    assert_eq!(channel.poll_handshake(Some(ConnectOutcome::Connected)), PollStep::Relay);
    assert_eq!(take_output(&mut channel), ACCEPTED);
    channel
}

#[test]
fn channel_starts_with_the_handshake() {
    let channel = ProxyChannel::new();
    assert_eq!(channel.ws_read_room(), 4096);
    assert_eq!(channel.ws_output(), b"");
    assert_eq!(channel.real_output(), b"");
    assert_eq!(channel.real_read_room(), 4096);
    assert!(!channel.has_real_stream());
    assert!(!channel.handshake_done());
    assert_eq!(channel.closing(), Closing::NotYet);
    assert!(!channel.is_ws_stream_eos());
    assert!(!channel.is_real_stream_eos());
    assert!(!channel.would_ws_stream_block());
    assert!(!channel.would_real_stream_block());
}

#[test]
fn scenario_happy_handshake() {
    let mut channel = ProxyChannel::new();
    feed(&mut channel, REQUEST);
    assert_eq!(channel.poll_handshake(None), PollStep::Connect);
    assert!(!channel.has_real_stream());
    assert_eq!(channel.ws_output(), b"");
    assert_eq!(channel.poll_handshake(Some(ConnectOutcome::Connected)), PollStep::Relay);
    assert!(channel.has_real_stream());
    assert!(channel.handshake_done());
    assert_eq!(channel.ws_output(), ACCEPTED);
    assert_eq!(channel.ws_read_room(), 4096);
}

#[test]
fn scenario_bad_version() {
    let mut channel = ProxyChannel::new();
    let request = String::from_utf8(REQUEST.to_vec()).unwrap().replace("Version: 13", "Version: 8");
    feed(&mut channel, request.as_bytes());
    assert_eq!(channel.poll_handshake(None), PollStep::Continue);
    assert!(!channel.has_real_stream());
    assert!(!channel.handshake_done());
    assert_eq!(take_output(&mut channel), BAD_REQUEST);
    assert_eq!(channel.poll_handshake(None), PollStep::Ready(Ok(())));
    assert_eq!(channel.ws_output(), b"");
}

#[test]
fn scenario_upstream_unreachable() {
    let mut channel = ProxyChannel::new();
    feed(&mut channel, REQUEST);
    assert_eq!(channel.poll_handshake(None), PollStep::Connect);
    assert_eq!(channel.poll_handshake(Some(ConnectOutcome::Failed)), PollStep::Continue);
    assert!(!channel.has_real_stream());
    assert_eq!(channel.ws_output(), UNAVAILABLE);
    assert_eq!(channel.flush_ws(WriteOutcome::WouldBlock), Ok(false));
    assert_eq!(channel.poll_handshake(None), PollStep::Pending);
    assert_eq!(channel.flush_ws(WriteOutcome::Written(10)), Ok(true));
    assert_eq!(channel.poll_handshake(None), PollStep::Continue);
    assert_eq!(take_output(&mut channel), &UNAVAILABLE[10..]);
    assert_eq!(channel.poll_handshake(None), PollStep::Ready(Ok(())));
}

#[test]
fn scenario_binary_round_trip() {
    let mut channel = connected();
    feed(&mut channel, &client_frame(0x2, b"hello"));
    let (step, upstream) = turn(&mut channel);
    assert_eq!(step, PollStep::Continue);
    assert_eq!(upstream, b"");
    assert_eq!(channel.real_output(), b"hello");
    let (_, upstream) = turn(&mut channel);
    assert_eq!(upstream, b"hello");
    assert_eq!(channel.real_output(), b"");
    assert_eq!(take_output(&mut channel), b"");
    assert_eq!(channel.closing(), Closing::NotYet);
}

#[test]
fn scenario_upstream_to_client() {
    let mut channel = connected();
    assert_eq!(channel.poll_handshake(None), PollStep::Relay);
    assert_eq!(channel.real_read_room(), 4096);
    let step = channel.poll_relay(ReadOutcome::Data(b"0123456789"), WriteOutcome::WouldBlock);
    assert_eq!(step, PollStep::Continue);
    assert_eq!(take_output(&mut channel), b"\x82\x0a0123456789");
    assert_eq!(channel.real_read_room(), 4096);
}

#[test]
fn scenario_graceful_close() {
    let mut channel = connected();
    feed(&mut channel, &client_frame(0x8, &[0x03, 0xE8]));
    let (step, _) = turn(&mut channel);
    assert_eq!(step, PollStep::Continue);
    assert_eq!(channel.closing(), Closing::InProgress { client_closed: true });
    assert!(!channel.has_real_stream());
    assert!(channel.is_real_stream_eos());
    assert_eq!(channel.ws_output(), b"");
    let (step, _) = turn(&mut channel);
    assert_eq!(step, PollStep::Continue);
    assert_eq!(channel.closing(), Closing::Closed);
    assert_eq!(take_output(&mut channel), [0x88, 0x02, 0x03, 0xE8]);
    assert_eq!(channel.poll_handshake(None), PollStep::Ready(Ok(())));
}

#[test]
fn channel_close_echoes_the_code_of_the_client() {
    let mut channel = connected();
    feed(&mut channel, &client_frame(0x8, &[0x0F, 0xA0, b'x']));
    turn(&mut channel);
    turn(&mut channel);
    assert_eq!(take_output(&mut channel), [0x88, 0x02, 0x0F, 0xA0]);
}

#[test]
fn channel_ping_is_answered_with_its_data() {
    let mut channel = connected();
    feed(&mut channel, &client_frame(0x9, b"Hello"));
    turn(&mut channel);
    assert_eq!(channel.ws_output(), b"");
    turn(&mut channel);
    assert_eq!(take_output(&mut channel), b"\x8a\x05Hello");
    assert_eq!(channel.closing(), Closing::NotYet);
    turn(&mut channel);
    assert_eq!(take_output(&mut channel), b"");
}

#[test]
fn channel_later_ping_replaces_the_one_that_waits() {
    let mut channel = connected();
    assert_eq!(channel.handle_frame(Frame::Ping { data: b"one".to_vec() }), Ok(()));
    assert_eq!(channel.handle_frame(Frame::Ping { data: b"two".to_vec() }), Ok(()));
    assert_eq!(channel.handle_ws_stream(), Ok(()));
    assert_eq!(take_output(&mut channel), b"\x8a\x03two");
    assert_eq!(channel.handle_ws_stream(), Ok(()));
    assert_eq!(take_output(&mut channel), b"");
}

#[test]
fn channel_pong_and_data_frames_change_nothing() {
    let mut channel = connected();
    assert_eq!(channel.handle_frame(Frame::Pong { data: b"x".to_vec() }), Ok(()));
    assert_eq!(channel.handle_frame(Frame::Data), Ok(()));
    assert_eq!(channel.handle_ws_stream(), Ok(()));
    assert_eq!(take_output(&mut channel), b"");
    assert_eq!(channel.closing(), Closing::NotYet);
}

#[test]
fn channel_pong_goes_before_close() {
    let mut channel = connected();
    assert_eq!(channel.handle_frame(Frame::Ping { data: b"p".to_vec() }), Ok(()));
    assert_eq!(channel.starts_closing(1001, false), Ok(()));
    assert_eq!(channel.handle_ws_stream(), Ok(()));
    assert_eq!(take_output(&mut channel), b"\x8a\x01p");
    assert_eq!(channel.handle_ws_stream(), Ok(()));
    assert_eq!(take_output(&mut channel), [0x88, 0x02, 0x03, 0xE9]);
}

#[test]
fn channel_ping_after_closing_began_is_not_answered() {
    let mut channel = connected();
    assert_eq!(channel.starts_closing(1000, false), Ok(()));
    assert_eq!(channel.handle_frame(Frame::Ping { data: b"late".to_vec() }), Ok(()));
    assert_eq!(channel.handle_ws_stream(), Ok(()));
    assert_eq!(take_output(&mut channel), [0x88, 0x02, 0x03, 0xE8]);
    assert_eq!(channel.handle_ws_stream(), Ok(()));
    assert_eq!(take_output(&mut channel), b"");
}

#[test]
fn channel_pong_too_long_for_the_encoder_is_a_failure() {
    let mut channel = connected();
    assert_eq!(channel.handle_frame(Frame::Ping { data: vec![0u8; 4097] }), Ok(()));
    assert_eq!(channel.handle_ws_stream().unwrap_err().kind(), ErrorKind::Other);
    assert_eq!(take_output(&mut channel), b"");
}

#[test]
fn channel_upstream_eos_closes_with_1000() {
    let mut channel = connected();
    assert_eq!(channel.poll_handshake(None), PollStep::Relay);
    let step = channel.poll_relay(ReadOutcome::Data(b""), WriteOutcome::WouldBlock);
    assert_eq!(step, PollStep::Continue);
    assert_eq!(channel.closing(), Closing::InProgress { client_closed: false });
    assert!(!channel.has_real_stream());
    turn(&mut channel);
    assert_eq!(take_output(&mut channel), [0x88, 0x02, 0x03, 0xE8]);
    assert_eq!(channel.closing(), Closing::InProgress { client_closed: false });
    feed(&mut channel, &client_frame(0x8, &[0x03, 0xE8]));
    turn(&mut channel);
    assert_eq!(channel.closing(), Closing::InProgress { client_closed: true });
    turn(&mut channel);
    assert_eq!(channel.closing(), Closing::Closed);
    assert_eq!(take_output(&mut channel), b"");
    assert_eq!(channel.poll_handshake(None), PollStep::Ready(Ok(())));
}

#[test]
fn channel_upstream_failure_closes_with_1001() {
    let mut channel = connected();
    assert_eq!(channel.poll_handshake(None), PollStep::Relay);
    let step = channel.poll_relay(ReadOutcome::Failed, WriteOutcome::WouldBlock);
    assert_eq!(step, PollStep::Continue);
    assert_eq!(take_output(&mut channel), [0x88, 0x02, 0x03, 0xE9]);
    assert_eq!(channel.closing(), Closing::InProgress { client_closed: false });
}

#[test]
fn channel_upstream_write_failure_closes_with_1001() {
    let mut channel = connected();
    feed(&mut channel, &client_frame(0x2, b"data"));
    turn(&mut channel);
    assert_eq!(channel.poll_handshake(None), PollStep::Relay);
    assert_eq!(channel.real_output(), b"data");
    let step = channel.poll_relay(ReadOutcome::WouldBlock, WriteOutcome::Failed);
    assert_eq!(step, PollStep::Continue);
    assert_eq!(take_output(&mut channel), [0x88, 0x02, 0x03, 0xE9]);
}

#[test]
fn channel_protocol_error_closes_with_1002() {
    let mut channel = connected();
    feed(&mut channel, &[0x83, 0x80, 1, 2, 3, 4]);
    let (step, _) = turn(&mut channel);
    assert_eq!(step, PollStep::Continue);
    assert_eq!(channel.closing(), Closing::InProgress { client_closed: false });
    let (step, _) = turn(&mut channel);
    assert_eq!(step, PollStep::Ready(Err(wstcp::Error::new(ErrorKind::Other))));
    assert_eq!(take_output(&mut channel), [0x88, 0x02, 0x03, 0xEA]);
}

#[test]
fn channel_unmasked_frame_closes_with_1002() {
    let mut channel = connected();
    feed(&mut channel, &[0x82, 0x01, 0x41]);
    let (step, upstream) = turn(&mut channel);
    assert_eq!(step, PollStep::Continue);
    assert_eq!(upstream, b"");
    assert_eq!(channel.real_output(), b"");
    assert_eq!(channel.closing(), Closing::InProgress { client_closed: false });
    assert!(!channel.has_real_stream());
}

#[test]
fn channel_length_with_the_top_bit_set_closes_with_1002() {
    let mut channel = connected();
    feed(&mut channel, &[0x82, 0xFF, 0x80, 0, 0, 0, 0, 0, 0, 0, 1, 2, 3, 4]);
    turn(&mut channel);
    assert_eq!(channel.closing(), Closing::InProgress { client_closed: false });
    assert_eq!(channel.real_output(), b"");
}

#[test]
fn channel_request_without_a_required_field() {
    for name in ["Upgrade: websocket\r\n", "Connection: Upgrade\r\n", "Sec-WebSocket-Version: 13\r\n"] {
        let mut channel = ProxyChannel::new();
        let request = String::from_utf8(REQUEST.to_vec()).unwrap().replace(name, "");
        assert!(request.len() < REQUEST.len());
        feed(&mut channel, request.as_bytes());
        assert_eq!(channel.poll_handshake(None), PollStep::Continue);
        assert!(!channel.has_real_stream());
        assert_eq!(take_output(&mut channel), BAD_REQUEST);
        assert_eq!(channel.poll_handshake(None), PollStep::Ready(Ok(())));
    }
}

#[test]
fn channel_short_close_closes_with_1002() {
    let mut channel = connected();
    feed(&mut channel, &client_frame(0x8, &[0x03]));
    turn(&mut channel);
    assert_eq!(channel.closing(), Closing::InProgress { client_closed: false });
    turn(&mut channel);
    assert_eq!(take_output(&mut channel), [0x88, 0x02, 0x03, 0xEA]);
}

#[test]
fn channel_sends_one_close_at_most() {
    let mut channel = connected();
    assert_eq!(channel.starts_closing(1001, false), Ok(()));
    assert_eq!(channel.starts_closing(1002, false).unwrap_err().kind(), ErrorKind::Other);
    assert_eq!(channel.starts_closing(1000, true).unwrap_err().kind(), ErrorKind::Other);
    let mut wire = Vec::new();
    for _ in 0..4 {
        assert_eq!(channel.handle_ws_stream(), Ok(()));
        wire.extend(take_output(&mut channel));
    }
    assert_eq!(wire, [0x88, 0x02, 0x03, 0xE9]);
    assert_eq!(
        channel.handle_frame(Frame::ConnectionClose { code: 1000, reason: Vec::new() }),
        Ok(())
    );
    assert_eq!(channel.closing(), Closing::InProgress { client_closed: true });
    assert_eq!(channel.handle_ws_stream(), Ok(()));
    assert_eq!(channel.closing(), Closing::Closed);
    assert_eq!(take_output(&mut channel), b"");
    assert_eq!(
        channel
            .handle_frame(Frame::ConnectionClose { code: 1000, reason: Vec::new() })
            .unwrap_err()
            .kind(),
        ErrorKind::Other
    );
}

#[test]
fn channel_ends_when_the_client_stream_ends() {
    let mut channel = connected();
    assert_eq!(channel.fill_ws(ReadOutcome::Data(b"")), Ok(false));
    assert!(channel.is_ws_stream_eos());
    assert_eq!(channel.poll_handshake(None), PollStep::Ready(Ok(())));
    let mut channel = ProxyChannel::new();
    feed(&mut channel, &REQUEST[..20]);
    assert_eq!(channel.fill_ws(ReadOutcome::Data(b"")), Ok(false));
    assert_eq!(channel.poll_handshake(None), PollStep::Ready(Ok(())));
    assert_eq!(channel.ws_read_room(), 4096 - 20);
}

#[test]
fn channel_failed_read_from_the_client() {
    let mut channel = ProxyChannel::new();
    assert_eq!(channel.fill_ws(ReadOutcome::Failed).unwrap_err().kind(), ErrorKind::Other);
    let mut channel = connected();
    feed(&mut channel, &client_frame(0x9, b"x"));
    turn(&mut channel);
    turn(&mut channel);
    assert_eq!(channel.flush_ws(WriteOutcome::Failed).unwrap_err().kind(), ErrorKind::Other);
}

#[test]
fn channel_request_in_pieces() {
    let mut channel = ProxyChannel::new();
    feed(&mut channel, &REQUEST[..50]);
    assert_eq!(channel.poll_handshake(None), PollStep::Continue);
    assert_eq!(channel.fill_ws(ReadOutcome::WouldBlock), Ok(false));
    assert_eq!(channel.poll_handshake(None), PollStep::Pending);
    assert!(channel.would_ws_stream_block());
    feed(&mut channel, &REQUEST[50..]);
    assert_eq!(channel.poll_handshake(None), PollStep::Connect);
    assert_eq!(channel.poll_handshake(Some(ConnectOutcome::Pending)), PollStep::Continue);
    assert_eq!(channel.fill_ws(ReadOutcome::WouldBlock), Ok(false));
    assert_eq!(channel.poll_handshake(None), PollStep::Connect);
    assert_eq!(channel.poll_handshake(Some(ConnectOutcome::Pending)), PollStep::Pending);
    assert_eq!(channel.poll_handshake(Some(ConnectOutcome::Connected)), PollStep::Relay);
    assert_eq!(take_output(&mut channel), ACCEPTED);
}

#[test]
fn channel_request_that_is_no_http() {
    let mut channel = ProxyChannel::new();
    feed(&mut channel, b"\x00\x01\x02 not http\r\n\r\n");
    assert_eq!(channel.poll_handshake(None), PollStep::Continue);
    assert_eq!(take_output(&mut channel), BAD_REQUEST);
    assert_eq!(channel.poll_handshake(None), PollStep::Ready(Ok(())));
}

#[test]
fn channel_request_with_another_method() {
    let mut channel = ProxyChannel::new();
    let request = String::from_utf8(REQUEST.to_vec()).unwrap().replace("GET", "PUT");
    feed(&mut channel, request.as_bytes());
    assert_eq!(channel.process_handshake(None), HandshakeStep::Abort);
    assert_eq!(channel.ws_output(), BAD_REQUEST);
    assert_eq!(channel.process_handshake(None), HandshakeStep::Abort);
    assert_eq!(channel.ws_output(), BAD_REQUEST);
}

#[test]
fn channel_frame_right_after_the_request() {
    let mut channel = ProxyChannel::new();
    let mut bytes = REQUEST.to_vec();
    bytes.extend(client_frame(0x2, b"early"));
    feed(&mut channel, &bytes);
    assert_eq!(channel.poll_handshake(None), PollStep::Connect);
    assert_eq!(channel.poll_handshake(Some(ConnectOutcome::Connected)), PollStep::Relay);
    assert_eq!(take_output(&mut channel), ACCEPTED);
    assert_eq!(
        channel.poll_relay(ReadOutcome::WouldBlock, WriteOutcome::WouldBlock),
        PollStep::Continue
    );
    assert_eq!(channel.real_output(), b"early");
}

#[test]
fn channel_flow_in_both_directions_keeps_the_order() {
    let mut channel = connected();
    let mut to_client = Vec::new();
    let mut to_server = Vec::new();
    let mut sent = Vec::new();
    let mut received = Vec::new();
    for round in 0u8..20 {
        let up: Vec<u8> = (0..(round as usize * 3 + 1)).map(|i| round ^ i as u8).collect();
        let down: Vec<u8> = (0..(round as usize * 5 + 2)).map(|i| round.wrapping_add(i as u8)).collect();
        feed(&mut channel, &client_frame(0x2, &up));
        sent.extend_from_slice(&up);
        assert_eq!(channel.poll_handshake(None), PollStep::Relay);
        let out = channel.real_output().to_vec();
        let write = if out.is_empty() {
            WriteOutcome::WouldBlock
        } else {
            to_server.extend_from_slice(&out[..out.len().min(7)]);
            WriteOutcome::Written(out.len().min(7))
        };
        let read = if channel.real_read_room() > 0 {
            received.extend_from_slice(&down);
            ReadOutcome::Data(&down)
        } else {
            ReadOutcome::WouldBlock
        };
        assert_eq!(channel.poll_relay(read, write), PollStep::Continue);
        to_client.extend(take_output(&mut channel));
    }
    for _ in 0..200 {
        let (_, out) = turn(&mut channel);
        to_server.extend(out);
        to_client.extend(take_output(&mut channel));
    }
    assert_eq!(to_server, sent);
    let mut payloads = Vec::new();
    let mut at = 0;
    while at < to_client.len() {
        assert_eq!(to_client[at], 0x82);
        let len = to_client[at + 1] as usize;
        assert!(len < 126);
        payloads.extend_from_slice(&to_client[at + 2..at + 2 + len]);
        at += 2 + len;
    }
    assert_eq!(payloads, received);
}

#[test]
fn channel_waits_when_neither_stream_can_go_on() {
    let mut channel = connected();
    assert_eq!(channel.fill_ws(ReadOutcome::WouldBlock), Ok(false));
    assert_eq!(channel.poll_handshake(None), PollStep::Relay);
    assert_eq!(
        channel.poll_relay(ReadOutcome::WouldBlock, WriteOutcome::WouldBlock),
        PollStep::Pending
    );
    assert!(channel.would_ws_stream_block());
    assert!(channel.would_real_stream_block());
    assert_eq!(channel.poll_handshake(None), PollStep::Relay);
    assert_eq!(
        channel.poll_relay(ReadOutcome::Data(b"a"), WriteOutcome::WouldBlock),
        PollStep::Continue
    );
    assert!(!channel.would_real_stream_block());
    assert!(!channel.would_ws_stream_block());
}

#[test]
fn channel_relay_steps_without_a_real_stream() {
    let mut channel = ProxyChannel::new();
    assert_eq!(channel.handle_real_stream(ReadOutcome::Failed, WriteOutcome::Failed), Ok(()));
    assert_eq!(channel.handle_real_stream(ReadOutcome::Data(b"x"), WriteOutcome::Failed), Ok(()));
    assert_eq!(channel.ws_output(), b"");
    assert_eq!(channel.process_relay(ReadOutcome::Data(b"x"), WriteOutcome::Failed), Ok(()));
    assert_eq!(channel.closing(), Closing::NotYet);
}

#[test]
fn closing_predicates() {
    assert!(Closing::NotYet.is_not_yet());
    assert!(!Closing::Closed.is_not_yet());
    assert!(!Closing::InProgress { client_closed: false }.is_not_yet());
    assert!(Closing::InProgress { client_closed: true }.is_client_closed());
    assert!(!Closing::InProgress { client_closed: false }.is_client_closed());
    assert!(!Closing::NotYet.is_client_closed());
    assert!(!Closing::Closed.is_client_closed());
}
