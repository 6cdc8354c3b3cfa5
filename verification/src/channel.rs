//! One proxied connection: the state that lives between two socket
//! operations, and what each of them does to it.
use crate::decoder::{
    data_is_empty, frame_decode_step, frame_decoder_empty, frame_decoder_inv, payload_finish_step,
    payload_is_idle, write_decoded_step, FrameDecoder, FrameDecoderView,
};
use crate::error::{CodecErrorKind, Error, ErrorKind};
use crate::frame::{
    control_payload, plain_header, start_data_step, start_frame_step, Frame, FrameEncoder,
    FrameView, BUF_SIZE,
};
use crate::handshake::{
    accepted_wire, bad_request_wire, unavailable_wire, Handshake, HandshakeView, PendingResponse,
    ACCEPTED_LEN,
};
use crate::header::at_most;
use crate::http::{
    handshake_key, request_complete, request_decode, request_decoded, request_finish,
    request_handed_out, request_is_idle, request_read, validate_request, Request,
};
use crate::io::{
    fill_goes_on, fill_step, flush_goes_on, flush_step, room_after_drain, BufView, ReadBuf,
    ReadEvent, ReadOutcome, StreamState, WriteBuf, WriteOutcome,
};
use crate::opcode::Opcode;
use crate::util::WebSocketKey;
use crate::wire::lemma_header_bytes_len;
use httpcodec::{NoBodyDecoder, RequestDecoder};
use vstd::prelude::*;

verus! {

/// How far the closing handshake has come.
#[derive(Debug, Clone, Copy, PartialEq, Eq, Structural)]
pub enum Closing {
    /// No Close frame has been received or sent.
    NotYet,
    /// The proxy has a Close frame to send or has sent it; the flag tells
    /// whether the client has sent one.
    InProgress { client_closed: bool },
    /// Both sides have sent their Close frame.
    Closed,
}

impl Closing {
    /// Returns `true` if the closing handshake has not begun.
    pub fn is_not_yet(&self) -> (b: bool)
        ensures
            b == (*self == Closing::NotYet),
    {
        *self == Closing::NotYet
    }

    /// Returns `true` if the client has sent its Close frame and the proxy
    /// has not yet seen its own go out.
    pub fn is_client_closed(&self) -> (b: bool)
        ensures
            b == (*self == Closing::InProgress { client_closed: true }),
    {
        *self == Closing::InProgress { client_closed: true }
    }
}

/// What one look at the attempt to connect to the real server found.
#[derive(Debug, Clone, Copy, PartialEq, Eq, Structural)]
pub enum ConnectOutcome {
    /// The attempt is still under way.
    Pending,
    /// The attempt has failed.
    Failed,
    /// The connection stands.
    Connected,
}

/// What `ProxyChannel::process_handshake` asks of its caller.
#[derive(Debug, Clone, Copy, PartialEq, Eq, Structural)]
pub enum HandshakeStep {
    /// The handshake has done what it could for now, or is done.
    Proceed,
    /// The connection to the real server is to be made: the caller starts
    /// the attempt if it has not, looks at it, and calls again with what
    /// it found.
    Connect,
    /// The handshake has failed, and the response that says so is in the
    /// buffer for the client; the connection ends once it has gone out.
    Abort,
}

/// A proxied connection as contracts see it.
pub ghost struct ChannelView {
    /// The bytes that came from the client and wait to be decoded.
    pub rbuf: BufView,
    /// The bytes that wait to be written to the client.
    pub wbuf: BufView,
    /// Whether the connection to the real server is open.
    pub real_stream: bool,
    /// What the last read from the real server came to.
    pub real_stream_rstate: StreamState,
    /// What the last write to the real server came to.
    pub real_stream_wstate: StreamState,
    pub handshake: HandshakeView,
    pub closing: Closing,
    /// The data of a Ping that waits for its Pong.
    pub pending_pong: Option<Seq<u8>>,
    /// The Close frame that waits for the encoder.
    pub pending_close: Option<FrameView>,
    pub decoder: FrameDecoderView,
    /// The bytes of the frame that the encoder is writing.
    pub encoder: Seq<u8>,
    /// How many Close frames the encoder has been given.
    pub closes: nat,
}

/// The view of an optional frame.
pub open spec fn frame_view(frame: Option<Frame>) -> Option<FrameView> {
    match frame {
        Some(f) => Some(f@),
        None => None,
    }
}

/// The view of optional bytes.
pub open spec fn bytes_view(bytes: Option<Vec<u8>>) -> Option<Seq<u8>> {
    match bytes {
        Some(b) => Some(b@),
        None => None,
    }
}

/// The Close frame by which the proxy ends a connection: the status code,
/// without a reason.
pub open spec fn close_frame(code: u16) -> FrameView {
    FrameView::ConnectionClose { code, reason: Seq::empty() }
}

/// A connection on which nothing has happened yet, and whose request the
/// decoder `decoder` is to read.
pub open spec fn channel_start(decoder: RequestDecoder<NoBodyDecoder>) -> ChannelView {
    ChannelView {
        rbuf: BufView { data: Seq::empty(), room: BUF_SIZE as nat, state: StreamState::Normal },
        wbuf: BufView { data: Seq::empty(), room: BUF_SIZE as nat, state: StreamState::Normal },
        real_stream: false,
        real_stream_rstate: StreamState::Normal,
        real_stream_wstate: StreamState::Normal,
        handshake: HandshakeView::RecvRequest { decoder },
        closing: Closing::NotYet,
        pending_pong: None,
        pending_close: None,
        decoder: frame_decoder_empty(),
        encoder: Seq::empty(),
        closes: 0,
    }
}

/// Whether the stream to the client has ended, in either direction.
pub open spec fn ws_stream_is_eos(v: ChannelView) -> bool {
    v.rbuf.state == StreamState::Eos || v.wbuf.state == StreamState::Eos
}

/// Whether the stream to the real server has ended, in either direction.
pub open spec fn real_stream_is_eos(v: ChannelView) -> bool {
    v.real_stream_rstate == StreamState::Eos || v.real_stream_wstate == StreamState::Eos
}

/// Whether nothing can be done on the stream to the client: no read is
/// possible, and either there is nothing to write or no write is possible.
pub open spec fn ws_stream_would_block(v: ChannelView) -> bool {
    v.rbuf.state == StreamState::WouldBlock && ((v.wbuf.data.len() == 0 && v.pending_close is None
        && v.pending_pong is None) || v.wbuf.state == StreamState::WouldBlock)
}

/// Whether nothing can be done on the stream to the real server: no read is
/// possible, and either there is nothing to write or no write is possible.
pub open spec fn real_stream_would_block(v: ChannelView) -> bool {
    v.real_stream_rstate == StreamState::WouldBlock && (data_is_empty(v.decoder.payload)
        || v.real_stream_wstate == StreamState::WouldBlock)
}

/// What `ProxyChannel::starts_closing` does: the connection to the real
/// server is given up, and a Close frame with the status code waits to be
/// sent.  The closing handshake can begin once only.
pub open spec fn starts_closing_step(pre: ChannelView, code: u16, client_closed: bool) -> (
    ChannelView,
    Result<(), Error>,
) {
    if pre.closing != Closing::NotYet {
        (pre, Err(Error { kind: ErrorKind::Other }))
    } else {
        (
            ChannelView {
                real_stream: false,
                real_stream_rstate: StreamState::Eos,
                real_stream_wstate: StreamState::Eos,
                closing: Closing::InProgress { client_closed },
                pending_close: Some(close_frame(code)),
                ..pre
            },
            Ok(()),
        )
    }
}

/// What `ProxyChannel::handle_frame` does with a frame from the client.  A
/// Close begins the closing handshake with the client's status code, or is
/// noted where the proxy had begun it; after both sides have closed it is
/// an error.  The data of a Ping waits for its Pong, in place of any that
/// waited before, unless the closing handshake has begun.  A Pong and a
/// data frame change nothing.
pub open spec fn handle_frame_step(pre: ChannelView, frame: FrameView) -> (
    ChannelView,
    Result<(), Error>,
) {
    match frame {
        FrameView::ConnectionClose { code, reason } => match pre.closing {
            Closing::NotYet => starts_closing_step(pre, code, true),
            Closing::InProgress { client_closed } => (
                ChannelView { closing: Closing::InProgress { client_closed: true }, ..pre },
                Ok(()),
            ),
            Closing::Closed => (pre, Err(Error { kind: ErrorKind::Other })),
        },
        FrameView::Ping { data } => if pre.closing == Closing::NotYet {
            (ChannelView { pending_pong: Some(data), ..pre }, Ok(()))
        } else {
            (pre, Ok(()))
        },
        FrameView::Pong { data } => (pre, Ok(())),
        FrameView::Data => (pre, Ok(())),
    }
}

/// The error as which every failure of a codec surfaces.
pub open spec fn codec_failure() -> Error {
    Error { kind: ErrorKind::Other }
}

/// The first step of `ProxyChannel::handle_ws_stream`: an idle encoder is
/// given the Pong for the data that waits.
pub open spec fn send_pending_pong(pre: ChannelView) -> (ChannelView, Result<(), Error>) {
    if pre.encoder.len() == 0 && pre.pending_pong is Some {
        let (encoder, r) = start_frame_step(
            pre.encoder,
            FrameView::Pong { data: pre.pending_pong->0 },
        );
        (
            ChannelView { pending_pong: None, encoder, ..pre },
            if r is Ok {
                Ok(())
            } else {
                Err(codec_failure())
            },
        )
    } else {
        (pre, Ok(()))
    }
}

/// The second step of `ProxyChannel::handle_ws_stream`: an idle encoder is
/// given the Close frame that waits.
pub open spec fn send_pending_close(pre: ChannelView) -> (ChannelView, Result<(), Error>) {
    if pre.encoder.len() == 0 && pre.pending_close is Some {
        let (encoder, r) = start_frame_step(pre.encoder, pre.pending_close->0);
        (
            ChannelView { pending_close: None, encoder, closes: pre.closes + 1, ..pre },
            if r is Ok {
                Ok(())
            } else {
                Err(codec_failure())
            },
        )
    } else {
        (pre, Ok(()))
    }
}

/// The third step of `ProxyChannel::handle_ws_stream`: the encoder writes
/// into the buffer for the client as much as the buffer takes.  Once the
/// encoder has nothing left and the client has sent its Close, both sides
/// have closed.
pub open spec fn write_frames(pre: ChannelView) -> ChannelView {
    let n = at_most(pre.wbuf.room as int, pre.encoder.len() as int);
    let encoder = pre.encoder.skip(n);
    ChannelView {
        wbuf: BufView {
            data: pre.wbuf.data + pre.encoder.take(n),
            room: (pre.wbuf.room - n) as nat,
            state: pre.wbuf.state,
        },
        encoder,
        closing: if encoder.len() == 0 && pre.closing == (Closing::InProgress {
            client_closed: true,
        }) {
            Closing::Closed
        } else {
            pre.closing
        },
        ..pre
    }
}

/// The connection after the first `n` bytes from the client have been
/// decoded.
pub open spec fn consumed(pre: ChannelView, n: nat) -> ChannelView {
    ChannelView {
        rbuf: BufView {
            data: pre.rbuf.data.skip(n as int),
            room: room_after_drain(BUF_SIZE as nat, pre.rbuf.room, (pre.rbuf.data.len() - n) as nat),
            state: pre.rbuf.state,
        },
        ..pre
    }
}

/// What follows a step of the decoder on the buffer of what the client
/// sent: the bytes that it read leave the buffer, and a frame that is
/// complete is taken and handled.  `decoder` is the decoder after its step
/// and `r` what the step came to.
pub open spec fn frame_decoded(
    pre: ChannelView,
    decoder: FrameDecoderView,
    r: Result<usize, CodecErrorKind>,
) -> (ChannelView, Result<(), Error>) {
    match r {
        Err(_) => (ChannelView { decoder, ..pre }, Err(codec_failure())),
        Ok(n) => {
            let read = ChannelView { decoder, ..consumed(pre, n as nat) };
            if payload_is_idle(decoder.payload) {
                let (payload, frame) = payload_finish_step(decoder.payload);
                let taken = ChannelView {
                    decoder: FrameDecoderView { header: decoder.header, payload },
                    ..read
                };
                match frame {
                    Err(_) => (taken, Err(codec_failure())),
                    Ok(frame) => handle_frame_step(taken, frame),
                }
            } else {
                (read, Ok(()))
            }
        },
    }
}

/// The fourth step of `ProxyChannel::handle_ws_stream`: the decoder reads
/// from the buffer of what the client sent, and what follows is as
/// `frame_decoded` says.
pub open spec fn read_frames(pre: ChannelView) -> (ChannelView, Result<(), Error>) {
    let step = frame_decode_step(pre.decoder, pre.rbuf.data, pre.rbuf.state == StreamState::Eos);
    frame_decoded(pre, step.0, step.1)
}

/// What `ProxyChannel::handle_ws_stream` does: its four steps in turn, up to
/// the first that fails.
pub open spec fn handle_ws_stream_step(pre: ChannelView) -> (ChannelView, Result<(), Error>) {
    let (pong, r1) = send_pending_pong(pre);
    if r1 is Err {
        (pong, r1)
    } else {
        let (close, r2) = send_pending_close(pong);
        if r2 is Err {
            (close, r2)
        } else {
            read_frames(write_frames(close))
        }
    }
}

/// What `ProxyChannel::handle_real_stream` does while the connection to the
/// real server is open: what was read becomes a frame for the client, and
/// what was written leaves the decoder.  A read that failed ends the step.
pub open spec fn handle_real_stream_step(pre: ChannelView, read: ReadEvent, write: WriteOutcome) -> (
    ChannelView,
    Result<(), Error>,
) {
    if !pre.real_stream {
        (pre, Ok(()))
    } else {
        let (encoder, r1) = start_data_step(pre.encoder, read);
        match r1 {
            Err(e) => (pre, Err(e)),
            Ok(rstate) => {
                let started = ChannelView { encoder, real_stream_rstate: rstate, ..pre };
                let (payload, r2) = write_decoded_step(pre.decoder.payload, write);
                match r2 {
                    Err(e) => (started, Err(e)),
                    Ok(wstate) => (
                        ChannelView {
                            decoder: FrameDecoderView { header: pre.decoder.header, payload },
                            real_stream_wstate: wstate,
                            ..started
                        },
                        Ok(()),
                    ),
                }
            },
        }
    }
}

/// What `ProxyChannel::process_relay` does: the step on the stream to the
/// real server, whose failure begins the closing handshake with status 1001,
/// then the step on the stream to the client, whose failure begins it with
/// status 1002.  Where the closing handshake had begun already, the failure
/// stands.
pub open spec fn process_relay_step(pre: ChannelView, read: ReadEvent, write: WriteOutcome) -> (
    ChannelView,
    Result<(), Error>,
) {
    let (upstream, r1) = handle_real_stream_step(pre, read, write);
    let (first, c1) = if r1 is Err {
        starts_closing_step(upstream, 1001, false)
    } else {
        (upstream, Ok(()))
    };
    if c1 is Err {
        (first, c1)
    } else {
        let (ws, r2) = handle_ws_stream_step(first);
        if r2 is Err {
            starts_closing_step(ws, 1002, false)
        } else {
            (ws, Ok(()))
        }
    }
}

/// The state in which the handshake goes on once the request has been read:
/// the connection to the real server is to be made for a valid request, and
/// any other is answered with `400 Bad Request`.  `request` is what the
/// decoder handed out, nothing where it failed.
pub open spec fn after_request(request: Option<Request>) -> HandshakeView {
    match request {
        Some(request) => match handshake_key(request) {
            Some(key) => HandshakeView::ConnectToRealServer { key },
            None => HandshakeView::SendResponse { pending: bad_request_wire(), succeeded: false },
        },
        None => HandshakeView::SendResponse { pending: bad_request_wire(), succeeded: false },
    }
}

/// How many bytes leave the buffer of what the client sent when `decoder`
/// reads on in the request: those that the decoder takes, and none where it
/// fails.
pub open spec fn request_bytes_taken(
    decoder: RequestDecoder<NoBodyDecoder>,
    data: Seq<u8>,
    eos: bool,
) -> nat {
    match request_decoded(decoder, data, eos).0 {
        Some(n) => n as nat,
        None => 0,
    }
}

/// The state of the handshake after `decoder` has read on in the request
/// with the bytes `data` before it.  A decoder that fails makes the request
/// a bad one.  While the request is incomplete, the decoder reads on, as it
/// is after this reading.  Once the request is complete, it is taken out of
/// the decoder, and the handshake goes on by what the decoder hands out.
pub open spec fn after_reading(
    decoder: RequestDecoder<NoBodyDecoder>,
    data: Seq<u8>,
    eos: bool,
) -> HandshakeView {
    let (taken, after) = request_decoded(decoder, data, eos);
    if taken is None {
        after_request(None)
    } else if !request_complete(after) {
        HandshakeView::RecvRequest { decoder: after }
    } else {
        after_request(request_handed_out(after))
    }
}

/// Writing a response: as much of it goes into the buffer for the client as
/// the buffer takes.  Once all of it is there, the handshake is done if the
/// response accepted it; if not, it has failed, and stays in the state in
/// which the response has been written.
pub open spec fn send_response_step(pre: ChannelView, pending: Seq<u8>, succeeded: bool) -> (
    ChannelView,
    HandshakeStep,
) {
    let n = at_most(pre.wbuf.room as int, pending.len() as int);
    let wbuf = BufView {
        data: pre.wbuf.data + pending.take(n),
        room: (pre.wbuf.room - n) as nat,
        state: pre.wbuf.state,
    };
    if n < pending.len() {
        (
            ChannelView {
                wbuf,
                handshake: HandshakeView::SendResponse { pending: pending.skip(n), succeeded },
                ..pre
            },
            HandshakeStep::Proceed,
        )
    } else if succeeded {
        (ChannelView { wbuf, handshake: HandshakeView::Done, ..pre }, HandshakeStep::Proceed)
    } else {
        (
            ChannelView {
                wbuf,
                handshake: HandshakeView::SendResponse { pending: Seq::empty(), succeeded },
                ..pre
            },
            HandshakeStep::Abort,
        )
    }
}

/// How the handshake goes on from the state `handshake`, in which it is
/// once the request has been dealt with.  While the connection to the real
/// server is to be made, the caller is asked for the outcome, and waits
/// while there is none; a failure is answered with `503 Service
/// Unavailable`, and a connection with `101 Switching Protocols`.  A
/// response is written as far as the buffer for the client takes it.
pub open spec fn handshake_goes_on(
    pre: ChannelView,
    handshake: HandshakeView,
    connect: Option<ConnectOutcome>,
) -> (ChannelView, HandshakeStep) {
    match handshake {
        HandshakeView::RecvRequest { .. } => (
            ChannelView { handshake, ..pre },
            HandshakeStep::Proceed,
        ),
        HandshakeView::ConnectToRealServer { key } => match connect {
            None => (ChannelView { handshake, ..pre }, HandshakeStep::Connect),
            Some(ConnectOutcome::Pending) => (
                ChannelView { handshake, ..pre },
                HandshakeStep::Proceed,
            ),
            Some(ConnectOutcome::Failed) => send_response_step(pre, unavailable_wire(), false),
            Some(ConnectOutcome::Connected) => send_response_step(
                ChannelView { real_stream: true, ..pre },
                accepted_wire(key),
                true,
            ),
        },
        HandshakeView::SendResponse { pending, succeeded } => send_response_step(
            pre,
            pending,
            succeeded,
        ),
        HandshakeView::Done => (ChannelView { handshake, ..pre }, HandshakeStep::Proceed),
    }
}

/// The connection after the response that accepts the handshake of the key
/// `key` has gone into the buffer for the client at once: the connection to
/// the real server is open, and the handshake is done.
pub open spec fn accepted_at_once(pre: ChannelView, key: Seq<char>) -> ChannelView {
    ChannelView {
        real_stream: true,
        handshake: HandshakeView::Done,
        wbuf: BufView {
            data: pre.wbuf.data + accepted_wire(key),
            room: (pre.wbuf.room - ACCEPTED_LEN) as nat,
            state: pre.wbuf.state,
        },
        ..pre
    }
}

/// What `ProxyChannel::process_handshake` does.  While the request is being
/// read, the decoder of HTTP requests reads on in the buffer of what the
/// client sent: the bytes that it takes leave the buffer, and the handshake
/// goes on from the state that `after_reading` names.  From any later state
/// the handshake goes on as `handshake_goes_on` says.
pub open spec fn process_handshake_step(pre: ChannelView, connect: Option<ConnectOutcome>) -> (
    ChannelView,
    HandshakeStep,
) {
    match pre.handshake {
        HandshakeView::RecvRequest { decoder } => {
            let eos = pre.rbuf.state == StreamState::Eos;
            handshake_goes_on(
                consumed(pre, request_bytes_taken(decoder, pre.rbuf.data, eos)),
                after_reading(decoder, pre.rbuf.data, eos),
                connect,
            )
        },
        _ => handshake_goes_on(pre, pre.handshake, connect),
    }
}

/// What the caller of `ProxyChannel::poll_handshake` and
/// `ProxyChannel::poll_relay` does next.
#[derive(Debug, Clone, Copy, PartialEq, Eq)]
pub enum PollStep {
    /// The connection has come to its end, well or not.
    Ready(Result<(), Error>),
    /// Nothing can be done before a socket is ready again.
    Pending,
    /// The next turn begins, with reads from and writes to the client.
    Continue,
    /// The connection to the real server is to be made: the caller starts
    /// the attempt if it has not, looks at it, and calls `poll_handshake`
    /// again with what it found.
    Connect,
    /// The relay has its turn: the caller reads from and writes to the real
    /// server as far as the connection asks, and calls `poll_relay`.
    Relay,
}

/// What follows the handshake in one turn of the connection.  A handshake
/// that has failed ends the connection once the buffer for the client has
/// run empty, and until then waits for the socket or takes the next turn;
/// one that is not done waits or takes the next turn; after it the
/// connection ends if both sides have closed, and else the relay has its
/// turn.
pub open spec fn after_handshake(post: ChannelView, step: HandshakeStep) -> PollStep {
    match step {
        HandshakeStep::Abort => if post.wbuf.data.len() == 0 {
            PollStep::Ready(Ok(()))
        } else if post.wbuf.state == StreamState::WouldBlock {
            PollStep::Pending
        } else {
            PollStep::Continue
        },
        HandshakeStep::Connect => PollStep::Connect,
        HandshakeStep::Proceed => if post.handshake != HandshakeView::Done {
            if ws_stream_would_block(post) {
                PollStep::Pending
            } else {
                PollStep::Continue
            }
        } else if post.closing == Closing::Closed {
            PollStep::Ready(Ok(()))
        } else {
            PollStep::Relay
        },
    }
}

/// What `ProxyChannel::poll_handshake` does: the connection ends if the
/// stream to the client has; else the handshake goes on, and what follows
/// it is decided.
pub open spec fn poll_handshake_step(pre: ChannelView, connect: Option<ConnectOutcome>) -> (
    ChannelView,
    PollStep,
) {
    if ws_stream_is_eos(pre) {
        (pre, PollStep::Ready(Ok(())))
    } else {
        let (post, step) = process_handshake_step(pre, connect);
        (post, after_handshake(post, step))
    }
}

/// What `ProxyChannel::poll_relay` does: one turn of the relay; then the
/// closing handshake begins with status 1000 if the stream to the real
/// server has ended; then the connection waits if nothing can be done on
/// either stream.
pub open spec fn poll_relay_step(pre: ChannelView, read: ReadEvent, write: WriteOutcome) -> (
    ChannelView,
    PollStep,
) {
    let (relayed, r) = process_relay_step(pre, read, write);
    match r {
        Err(e) => (relayed, PollStep::Ready(Err(e))),
        Ok(_) => {
            let (closed, c) = if real_stream_is_eos(relayed) && relayed.closing
                == Closing::NotYet {
                starts_closing_step(relayed, 1000, false)
            } else {
                (relayed, Ok(()))
            };
            (
                closed,
                if ws_stream_would_block(closed) && real_stream_would_block(closed) {
                    PollStep::Pending
                } else {
                    PollStep::Continue
                },
            )
        },
    }
}

/// One connection between a WebSocket client and the real server, without
/// its sockets: the caller reads and writes, and reports what came of it.
pub struct ProxyChannel {
    ws_rbuf: ReadBuf,
    ws_wbuf: WriteBuf,
    real_stream: bool,
    real_stream_rstate: StreamState,
    real_stream_wstate: StreamState,
    handshake: Handshake,
    closing: Closing,
    pending_pong: Option<Vec<u8>>,
    pending_close: Option<Frame>,
    frame_decoder: FrameDecoder,
    frame_encoder: FrameEncoder,
    closes: Ghost<nat>,
}

impl View for ProxyChannel {
    type V = ChannelView;

    closed spec fn view(&self) -> ChannelView {
        ChannelView {
            rbuf: self.ws_rbuf@,
            wbuf: self.ws_wbuf@,
            real_stream: self.real_stream,
            real_stream_rstate: self.real_stream_rstate,
            real_stream_wstate: self.real_stream_wstate,
            handshake: self.handshake@,
            closing: self.closing,
            pending_pong: bytes_view(self.pending_pong),
            pending_close: frame_view(self.pending_close),
            decoder: self.frame_decoder@,
            encoder: self.frame_encoder@,
            closes: self.closes@,
        }
    }
}

/// What holds of a connection at any time, as far as its view shows it: the
/// buffers keep their size; the proxy sends one Close frame at most, which
/// it has once the closing handshake has begun; and no Pong waits once the
/// Close frame has gone to the encoder.
pub open spec fn channel_inv(v: ChannelView) -> bool {
    &&& v.rbuf.data.len() + v.rbuf.room <= BUF_SIZE
    &&& v.wbuf.data.len() + v.wbuf.room <= BUF_SIZE
    &&& v.rbuf.data.len() == 0 ==> v.rbuf.room == BUF_SIZE
    &&& v.wbuf.data.len() == 0 ==> v.wbuf.room == BUF_SIZE
    &&& v.pending_close matches Some(frame) ==> frame is ConnectionClose && control_payload(
        frame,
    ).len() == 2
    &&& v.closing == Closing::NotYet ==> v.closes == 0 && v.pending_close is None
    &&& v.closing != Closing::NotYet ==> v.closes + (if v.pending_close is Some {
        1nat
    } else {
        0nat
    }) == 1
    &&& v.closes > 0 ==> v.pending_pong is None
}

impl ProxyChannel {
    /// Every part is well formed, and the invariant of the connection
    /// holds.
    pub closed spec fn wf(&self) -> bool {
        &&& self.ws_rbuf.wf()
        &&& self.ws_wbuf.wf()
        &&& self.ws_rbuf.spec_capacity() == BUF_SIZE
        &&& self.ws_wbuf.spec_capacity() == BUF_SIZE
        &&& self.handshake.wf()
        &&& self.frame_decoder.wf()
        &&& self.frame_encoder.wf()
        &&& channel_inv(self@)
    }

    /// A well-formed connection keeps the invariant, and so does its
    /// decoder.
    pub proof fn lemma_wf(&self)
        requires
            self.wf(),
        ensures
            channel_inv(self@),
            frame_decoder_inv(self@.decoder),
    {
        self.frame_decoder.lemma_wf();
    }

    /// Makes the state of a connection that has just been accepted.
    pub fn new() -> (channel: ProxyChannel)
        ensures
            channel.wf(),
            channel@.handshake is RecvRequest,
            request_read(channel@.handshake->decoder) == Seq::<u8>::empty(),
            channel@ == channel_start(channel@.handshake->decoder),
    {
        ProxyChannel {
            ws_rbuf: ReadBuf::new(BUF_SIZE),
            ws_wbuf: WriteBuf::new(BUF_SIZE),
            real_stream: false,
            real_stream_rstate: StreamState::Normal,
            real_stream_wstate: StreamState::Normal,
            handshake: Handshake::new(),
            closing: Closing::NotYet,
            pending_pong: None,
            pending_close: None,
            frame_decoder: FrameDecoder::new(),
            frame_encoder: FrameEncoder::new(),
            closes: Ghost(0),
        }
    }

    /// How many bytes the next read from the client may bring.
    pub fn ws_read_room(&self) -> (n: usize)
        requires
            self.wf(),
        ensures
            n == self@.rbuf.room,
    {
        self.ws_rbuf.room()
    }

    /// Takes in what one read from the client came to.  Reading goes on as
    /// long as this returns `Ok(true)`.
    pub fn fill_ws(&mut self, outcome: ReadOutcome<'_>) -> (r: Result<bool, Error>)
        requires
            old(self).wf(),
        ensures
            final(self).wf(),
            final(self)@ == (ChannelView {
                rbuf: fill_step(old(self)@.rbuf, outcome@).0,
                ..old(self)@
            }),
            fill_step(old(self)@.rbuf, outcome@).1 ==> r == Ok::<bool, Error>(
                fill_goes_on(old(self)@.rbuf, outcome@),
            ),
            !fill_step(old(self)@.rbuf, outcome@).1 ==> r == Err::<bool, Error>(
                Error { kind: ErrorKind::Other },
            ),
    {
        proof {
            self.ws_rbuf.lemma_wf();
        }
        let r = self.ws_rbuf.fill(outcome);
        proof {
            self.ws_rbuf.lemma_wf();
        }
        r
    }

    /// The bytes that wait to be written to the client.
    pub fn ws_output(&self) -> (bytes: &[u8])
        requires
            self.wf(),
        ensures
            bytes@ == self@.wbuf.data,
    {
        self.ws_wbuf.pending()
    }

    /// Takes in what one write of `ws_output` to the client came to.
    /// Writing goes on as long as this returns `Ok(true)`.
    pub fn flush_ws(&mut self, outcome: WriteOutcome) -> (r: Result<bool, Error>)
        requires
            old(self).wf(),
        ensures
            final(self).wf(),
            final(self)@ == (ChannelView {
                wbuf: flush_step(old(self)@.wbuf, BUF_SIZE as nat, outcome).0,
                ..old(self)@
            }),
            flush_step(old(self)@.wbuf, BUF_SIZE as nat, outcome).1 ==> r == Ok::<bool, Error>(
                flush_goes_on(old(self)@.wbuf, BUF_SIZE as nat, outcome),
            ),
            !flush_step(old(self)@.wbuf, BUF_SIZE as nat, outcome).1 ==> r == Err::<bool, Error>(
                Error { kind: ErrorKind::Other },
            ),
    {
        proof {
            self.ws_wbuf.lemma_wf();
        }
        let r = self.ws_wbuf.flush(outcome);
        proof {
            self.ws_wbuf.lemma_wf();
        }
        r
    }

    /// Returns `true` while the connection to the real server is open.  The
    /// caller gives up its socket once this returns `false`.
    pub fn has_real_stream(&self) -> (b: bool)
        ensures
            b == self@.real_stream,
    {
        self.real_stream
    }

    /// How far the closing handshake has come.
    pub fn closing(&self) -> (c: Closing)
        ensures
            c == self@.closing,
    {
        self.closing
    }

    /// Returns `true` if the opening handshake has succeeded.
    pub fn handshake_done(&self) -> (done: bool)
        ensures
            done == (self@.handshake == HandshakeView::Done),
    {
        self.handshake.done()
    }

    /// How many bytes the next read from the real server may bring: none
    /// while a frame is being written to the client.
    pub fn real_read_room(&self) -> (n: usize)
        requires
            self.wf(),
        ensures
            n == (if self@.encoder.len() == 0 {
                BUF_SIZE
            } else {
                0usize
            }),
    {
        self.frame_encoder.read_room()
    }

    /// The bytes that wait to be written to the real server.
    pub fn real_output(&self) -> (bytes: &[u8])
        requires
            self.wf(),
        ensures
            bytes@ == (if data_is_empty(self@.decoder.payload) {
                Seq::<u8>::empty()
            } else {
                self@.decoder.payload.window
            }),
    {
        self.frame_decoder.decoded_data()
    }

    /// Returns `true` if the stream to the client has ended.
    pub fn is_ws_stream_eos(&self) -> (b: bool)
        ensures
            b == ws_stream_is_eos(self@),
    {
        self.ws_rbuf.stream_state().is_eos() || self.ws_wbuf.stream_state().is_eos()
    }

    /// Returns `true` if the stream to the real server has ended.
    pub fn is_real_stream_eos(&self) -> (b: bool)
        ensures
            b == real_stream_is_eos(self@),
    {
        self.real_stream_rstate.is_eos() || self.real_stream_wstate.is_eos()
    }

    /// Returns `true` if nothing can be done on the stream to the client.
    pub fn would_ws_stream_block(&self) -> (b: bool)
        requires
            self.wf(),
        ensures
            b == ws_stream_would_block(self@),
    {
        let empty_write = self.ws_wbuf.is_empty() && self.pending_close.is_none()
            && self.pending_pong.is_none();
        self.ws_rbuf.stream_state().would_block() && (empty_write
            || self.ws_wbuf.stream_state().would_block())
    }

    /// Returns `true` if nothing can be done on the stream to the real
    /// server.
    pub fn would_real_stream_block(&self) -> (b: bool)
        requires
            self.wf(),
        ensures
            b == real_stream_would_block(self@),
    {
        self.real_stream_rstate.would_block() && (self.frame_decoder.is_data_empty()
            || self.real_stream_wstate.would_block())
    }

    /// Begins the closing handshake: gives up the connection to the real
    /// server and makes a Close frame with the status code `code` wait for
    /// the encoder.
    pub fn starts_closing(&mut self, code: u16, client_closed: bool) -> (r: Result<(), Error>)
        requires
            old(self).wf(),
        ensures
            final(self).wf(),
            final(self)@ == starts_closing_step(old(self)@, code, client_closed).0,
            r == starts_closing_step(old(self)@, code, client_closed).1,
    {
        if !self.closing.is_not_yet() {
            return Err(Error::new(ErrorKind::Other));
        }
        self.real_stream = false;
        self.real_stream_rstate = StreamState::Eos;
        self.real_stream_wstate = StreamState::Eos;
        self.closing = Closing::InProgress { client_closed };
        self.pending_close = Some(Frame::ConnectionClose { code, reason: Vec::new() });
        Ok(())
    }

    /// Acts on a frame that came from the client.
    pub fn handle_frame(&mut self, frame: Frame) -> (r: Result<(), Error>)
        requires
            old(self).wf(),
        ensures
            final(self).wf(),
            final(self)@ == handle_frame_step(old(self)@, frame@).0,
            r == handle_frame_step(old(self)@, frame@).1,
    {
        match frame {
            Frame::ConnectionClose { code, .. } => {
                match self.closing {
                    Closing::NotYet => self.starts_closing(code, true),
                    Closing::InProgress { .. } => {
                        self.closing = Closing::InProgress { client_closed: true };
                        Ok(())
                    },
                    Closing::Closed => Err(Error::new(ErrorKind::Other)),
                }
            },
            Frame::Ping { data } => {
                if self.closing.is_not_yet() {
                    self.pending_pong = Some(data);
                }
                Ok(())
            },
            Frame::Pong { .. } => Ok(()),
            Frame::Data => Ok(()),
        }
    }

    /// Gives an idle encoder the Pong for the data that waits.
    fn send_pending_pong(&mut self) -> (r: Result<(), Error>)
        requires
            old(self).wf(),
        ensures
            final(self).wf(),
            final(self)@ == send_pending_pong(old(self)@).0,
            r == send_pending_pong(old(self)@).1,
    {
        if self.frame_encoder.is_idle() {
            if let Some(data) = self.pending_pong.take() {
                return match self.frame_encoder.start_encoding(Frame::Pong { data }) {
                    Ok(()) => Ok(()),
                    Err(e) => Err(Error::from(e)),
                };
            }
        }
        Ok(())
    }

    /// Gives an idle encoder the Close frame that waits.
    fn send_pending_close(&mut self) -> (r: Result<(), Error>)
        requires
            old(self).wf(),
            old(self)@.encoder.len() == 0 ==> old(self)@.pending_pong is None,
        ensures
            final(self).wf(),
            final(self)@ == send_pending_close(old(self)@).0,
            r == send_pending_close(old(self)@).1,
    {
        if self.frame_encoder.is_idle() {
            if let Some(frame) = self.pending_close.take() {
                proof {
                    self.closes@ = self.closes@ + 1;
                }
                return match self.frame_encoder.start_encoding(frame) {
                    Ok(()) => Ok(()),
                    Err(e) => Err(Error::from(e)),
                };
            }
        }
        Ok(())
    }

    /// Lets the encoder write into the buffer for the client.
    fn write_frames(&mut self)
        requires
            old(self).wf(),
        ensures
            final(self).wf(),
            final(self)@ == write_frames(old(self)@),
    {
        proof {
            self.ws_wbuf.lemma_wf();
        }
        let ghost pre = self@;
        let size = self.frame_encoder.encode(self.ws_wbuf.spare());
        proof {
            self.ws_wbuf.lemma_wf();
            assert(self.ws_wbuf.spare_bytes().take(size as int) =~= pre.encoder.take(size as int));
        }
        self.ws_wbuf.advance(size);
        proof {
            self.ws_wbuf.lemma_wf();
            assert(self@.wbuf.data =~= pre.wbuf.data + pre.encoder.take(size as int));
            assert(self@.wbuf == write_frames(pre).wbuf);
        }
        if self.frame_encoder.is_idle() && self.closing.is_client_closed() {
            self.closing = Closing::Closed;
        }
    }

    /// Lets the decoder read from the buffer of what the client sent, and
    /// handles a frame that is complete.
    fn read_frames(&mut self) -> (r: Result<(), Error>)
        requires
            old(self).wf(),
        ensures
            final(self).wf(),
            final(self)@ == read_frames(old(self)@).0,
            r == read_frames(old(self)@).1,
    {
        proof {
            self.ws_rbuf.lemma_wf();
        }
        let eos = self.ws_rbuf.stream_state().is_eos();
        let size = match self.frame_decoder.decode(self.ws_rbuf.filled(), eos) {
            Ok(size) => size,
            Err(e) => {
                return Err(Error::from(e));
            },
        };
        self.ws_rbuf.consume(size);
        proof {
            self.ws_rbuf.lemma_wf();
        }
        if self.frame_decoder.is_idle() {
            let frame = match self.frame_decoder.finish_decoding() {
                Ok(frame) => frame,
                Err(e) => {
                    return Err(Error::from(e));
                },
            };
            return self.handle_frame(frame);
        }
        Ok(())
    }

    /// The step on the stream to the client: sends what waits, writes the
    /// frame in the encoder, reads what the client sent and acts on it.
    pub fn handle_ws_stream(&mut self) -> (r: Result<(), Error>)
        requires
            old(self).wf(),
        ensures
            final(self).wf(),
            final(self)@ == handle_ws_stream_step(old(self)@).0,
            r == handle_ws_stream_step(old(self)@).1,
    {
        match self.send_pending_pong() {
            Ok(()) => {},
            Err(e) => {
                return Err(e);
            },
        }
        proof {
            if old(self)@.encoder.len() == 0 && old(self)@.pending_pong is Some {
                let data = old(self)@.pending_pong->0;
                lemma_header_bytes_len(plain_header(Opcode::Pong, data.len()));
            }
        }
        match self.send_pending_close() {
            Ok(()) => {},
            Err(e) => {
                return Err(e);
            },
        }
        self.write_frames();
        self.read_frames()
    }

    /// The step on the stream to the real server.  `read` is what a read of
    /// up to `real_read_room` bytes came to, `write` what a write of
    /// `real_output` came to; neither is looked at where no read or write
    /// was due.
    pub fn handle_real_stream(&mut self, read: ReadOutcome<'_>, write: WriteOutcome) -> (r: Result<
        (),
        Error,
    >)
        requires
            old(self).wf(),
        ensures
            final(self).wf(),
            final(self)@ == handle_real_stream_step(old(self)@, read@, write).0,
            r == handle_real_stream_step(old(self)@, read@, write).1,
    {
        if self.real_stream {
            self.real_stream_rstate = match self.frame_encoder.start_encoding_data(read) {
                Ok(state) => state,
                Err(e) => {
                    return Err(e);
                },
            };
            self.real_stream_wstate = match self.frame_decoder.write_decoded_data(write) {
                Ok(state) => state,
                Err(e) => {
                    return Err(e);
                },
            };
        }
        Ok(())
    }

    /// One turn of the relay: the step on the stream to the real server and
    /// the step on the stream to the client.  A failure of either begins the
    /// closing handshake.
    pub fn process_relay(&mut self, read: ReadOutcome<'_>, write: WriteOutcome) -> (r: Result<
        (),
        Error,
    >)
        requires
            old(self).wf(),
        ensures
            final(self).wf(),
            final(self)@ == process_relay_step(old(self)@, read@, write).0,
            r == process_relay_step(old(self)@, read@, write).1,
    {
        if self.handle_real_stream(read, write).is_err() {
            match self.starts_closing(1001, false) {
                Ok(()) => {},
                Err(e) => {
                    return Err(e);
                },
            }
        }
        if self.handle_ws_stream().is_err() {
            match self.starts_closing(1002, false) {
                Ok(()) => {},
                Err(e) => {
                    return Err(e);
                },
            }
        }
        Ok(())
    }

    /// Validates a handshake request and hands out its key.
    pub fn handle_handshake_request(&self, request: &Request) -> (r: Result<WebSocketKey, Error>)
        ensures
            match handshake_key(*request) {
                Some(key) => r matches Ok(k) && k.0@ == key,
                None => r == Err::<WebSocketKey, Error>(Error { kind: ErrorKind::InvalidInput }),
            },
    {
        validate_request(request)
    }

    /// The state in which the handshake goes on once the request has been
    /// read.  `request` is what the decoder handed out, nothing where it
    /// failed.
    pub fn request_received(&self, request: Option<Request>) -> (handshake: Handshake)
        ensures
            handshake.wf(),
            handshake@ == after_request(request),
    {
        match request {
            Some(request) => match self.handle_handshake_request(&request) {
                Ok(key) => Handshake::ConnectToRealServer(key),
                Err(_) => Handshake::response_bad_request(),
            },
            None => Handshake::response_bad_request(),
        }
    }

    /// Writes the response `response` into the buffer for the client, as far
    /// as the buffer takes it.
    fn send_response(&mut self, response: PendingResponse, succeeded: bool) -> (step: HandshakeStep)
        requires
            old(self).wf(),
            response.wf(),
        ensures
            final(self).wf(),
            (final(self)@, step) == send_response_step(old(self)@, response@, succeeded),
    {
        let mut response = response;
        let ghost pre = self@;
        let ghost pending = response@;
        proof {
            self.ws_wbuf.lemma_wf();
        }
        let size = response.encode(self.ws_wbuf.spare());
        proof {
            self.ws_wbuf.lemma_wf();
            assert(self.ws_wbuf.spare_bytes().take(size as int) =~= pending.take(size as int));
        }
        self.ws_wbuf.advance(size);
        proof {
            self.ws_wbuf.lemma_wf();
            assert(self@.wbuf.data =~= pre.wbuf.data + pending.take(size as int));
            assert(self@.wbuf == send_response_step(pre, pending, succeeded).0.wbuf);
        }
        if response.is_idle() {
            if succeeded {
                self.handshake = Handshake::Done;
                HandshakeStep::Proceed
            } else {
                proof {
                    assert(response@ =~= Seq::<u8>::empty());
                }
                self.handshake = Handshake::SendResponse(response, succeeded);
                HandshakeStep::Abort
            }
        } else {
            self.handshake = Handshake::SendResponse(response, succeeded);
            HandshakeStep::Proceed
        }
    }

    /// Goes on with the handshake from a state in which the request has been
    /// dealt with.
    fn handshake_goes_on(&mut self, handshake: Handshake, connect: Option<ConnectOutcome>) -> (step:
        HandshakeStep)
        requires
            old(self).wf(),
            handshake.wf(),
            !(handshake@ is RecvRequest),
        ensures
            final(self).wf(),
            (final(self)@, step) == handshake_goes_on(old(self)@, handshake@, connect),
            handshake@ is ConnectToRealServer && connect == Some(ConnectOutcome::Connected)
                && old(self)@.wbuf.room >= ACCEPTED_LEN ==> step == HandshakeStep::Proceed
                && final(self)@ == accepted_at_once(old(self)@, handshake@->key),
    {
        match handshake {
            Handshake::RecvRequest(decoder) => {
                self.handshake = Handshake::RecvRequest(decoder);
                HandshakeStep::Proceed
            },
            Handshake::ConnectToRealServer(key) => match connect {
                None => {
                    self.handshake = Handshake::ConnectToRealServer(key);
                    HandshakeStep::Connect
                },
                Some(ConnectOutcome::Pending) => {
                    self.handshake = Handshake::ConnectToRealServer(key);
                    HandshakeStep::Proceed
                },
                Some(ConnectOutcome::Failed) => self.send_response(
                    PendingResponse::unavailable(),
                    false,
                ),
                Some(ConnectOutcome::Connected) => {
                    self.real_stream = true;
                    let response = PendingResponse::accepted(&key);
                    proof {
                        assert(response@.take(ACCEPTED_LEN as int) =~= response@);
                    }
                    self.send_response(response, true)
                },
            },
            Handshake::SendResponse(response, succeeded) => self.send_response(response, succeeded),
            Handshake::Done => {
                self.handshake = Handshake::Done;
                HandshakeStep::Proceed
            },
        }
    }

    /// Goes on with the opening handshake as far as it can.  `connect` is
    /// what the last look at the attempt to connect to the real server
    /// found, if the caller has been asked for one.  Where the connection
    /// stands and the buffer for the client has room for the response that
    /// accepts the handshake, the handshake is done at once.
    pub fn process_handshake(&mut self, connect: Option<ConnectOutcome>) -> (step: HandshakeStep)
        requires
            old(self).wf(),
        ensures
            final(self).wf(),
            (final(self)@, step) == process_handshake_step(old(self)@, connect),
            old(self)@.handshake is ConnectToRealServer && connect == Some(
                ConnectOutcome::Connected,
            ) && old(self)@.wbuf.room >= ACCEPTED_LEN ==> step == HandshakeStep::Proceed
                && final(self)@ == accepted_at_once(old(self)@, old(self)@.handshake->key),
    {
        let ghost pre = self@;
        let mut handshake = Handshake::Done;
        core::mem::swap(&mut self.handshake, &mut handshake);
        match handshake {
            Handshake::RecvRequest(mut decoder) => {
                proof {
                    self.ws_rbuf.lemma_wf();
                }
                let ghost before = decoder;
                let eos = self.ws_rbuf.stream_state().is_eos();
                let decoded = request_decode(&mut decoder, self.ws_rbuf.filled(), eos);
                let mut outcome: Option<Option<Request>> = Some(None);
                let mut reading: Option<RequestDecoder<NoBodyDecoder>> = None;
                match decoded {
                    Some(size) => {
                        self.ws_rbuf.consume(size);
                        if !request_is_idle(&decoder) {
                            outcome = None;
                            reading = Some(decoder);
                        } else {
                            outcome = Some(request_finish(decoder));
                        }
                    },
                    None => {},
                }
                proof {
                    self.ws_rbuf.lemma_wf();
                    assert(pre.rbuf.data.skip(0) =~= pre.rbuf.data);
                }
                let ghost n = request_bytes_taken(before, pre.rbuf.data, eos);
                let ghost mid = ChannelView { handshake: HandshakeView::Done, ..consumed(pre, n) };
                assert(self@ == mid);
                let step = match outcome {
                    None => {
                        match reading {
                            Some(decoder) => {
                                self.handshake = Handshake::RecvRequest(decoder);
                            },
                            None => {},
                        }
                        HandshakeStep::Proceed
                    },
                    Some(request) => {
                        let next = self.request_received(request);
                        self.handshake_goes_on(next, connect)
                    },
                };
                proof {
                    let goes = handshake_goes_on(
                        consumed(pre, n),
                        after_reading(before, pre.rbuf.data, eos),
                        connect,
                    );
                    assert((self@, step) == goes);
                }
                step
            },
            other => self.handshake_goes_on(other, connect),
        }
    }

    /// The first half of one turn of the connection, after the reads from
    /// and the writes to the client: the connection ends if the stream to
    /// the client has; else the opening handshake goes on, and what follows
    /// it is decided.
    pub fn poll_handshake(&mut self, connect: Option<ConnectOutcome>) -> (next: PollStep)
        requires
            old(self).wf(),
        ensures
            final(self).wf(),
            (final(self)@, next) == poll_handshake_step(old(self)@, connect),
    {
        if self.is_ws_stream_eos() {
            return PollStep::Ready(Ok(()));
        }
        let step = self.process_handshake(connect);
        match step {
            HandshakeStep::Abort => {
                if self.ws_wbuf.is_empty() {
                    return PollStep::Ready(Ok(()));
                }
                if self.ws_wbuf.stream_state().would_block() {
                    return PollStep::Pending;
                }
                return PollStep::Continue;
            },
            HandshakeStep::Connect => {
                return PollStep::Connect;
            },
            HandshakeStep::Proceed => {},
        }
        if !self.handshake.done() {
            if self.would_ws_stream_block() {
                return PollStep::Pending;
            }
            return PollStep::Continue;
        }
        if self.closing == Closing::Closed {
            return PollStep::Ready(Ok(()));
        }
        PollStep::Relay
    }

    /// The second half of one turn of the connection, after the read from
    /// and the write to the real server: the relay has its turn, and the
    /// closing handshake begins if the stream to the real server has ended.
    pub fn poll_relay(&mut self, read: ReadOutcome<'_>, write: WriteOutcome) -> (next: PollStep)
        requires
            old(self).wf(),
        ensures
            final(self).wf(),
            (final(self)@, next) == poll_relay_step(old(self)@, read@, write),
    {
        match self.process_relay(read, write) {
            Ok(()) => {},
            Err(e) => {
                return PollStep::Ready(Err(e));
            },
        }
        if self.is_real_stream_eos() && self.closing.is_not_yet() {
            match self.starts_closing(1000, false) {
                Ok(()) => {},
                Err(e) => {
                    return PollStep::Ready(Err(e));
                },
            }
        }
        if self.would_ws_stream_block() && self.would_real_stream_block() {
            return PollStep::Pending;
        }
        PollStep::Continue
    }
}

} // verus!
