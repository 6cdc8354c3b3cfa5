//! What holds of a connection in every step: its invariants, the one
//! Close frame, the Pong for a Ping, and the end of the closing handshake.
use crate::channel::{
    after_handshake, after_reading, after_request, channel_inv, close_frame, handle_frame_step,
    handle_real_stream_step, handle_ws_stream_step, poll_relay_step, process_handshake_step,
    process_relay_step, read_frames, real_stream_is_eos, send_pending_close, send_pending_pong,
    starts_closing_step, write_frames, ChannelView, Closing, ConnectOutcome, HandshakeStep,
    PollStep,
};
use crate::decoder::{
    data_is_empty, frame_decode_step, frame_decoder_inv, lemma_frame_decode_step,
    lemma_payload_steps, payload_is_idle,
};
use crate::error::Error;
use crate::frame::{frame_bytes, plain_header, start_frame_step, FrameView, BUF_SIZE};
use crate::handshake::{bad_request_wire, HandshakeView};
use crate::http::{
    handshake_key, request_complete, request_decoded, request_handed_out, Request,
};
use crate::header::at_most;
use crate::io::{ReadEvent, StreamState, WriteOutcome};
use crate::laws::codec::{data_taken, lemma_decode_step_appends, pending_data};
use crate::opcode::{lemma_opcode_roundtrip, Opcode};
use crate::wire::{lemma_header_bytes_len, u16_to_be};
use vstd::prelude::*;

verus! {

/// The bytes that the proxy has made for the client and that have not gone
/// to the socket yet: those in the buffer, then those in the encoder.
pub open spec fn outbound(v: ChannelView) -> Seq<u8> {
    v.wbuf.data + v.encoder
}

/// The frame that the step on the stream to the real server makes.
pub open spec fn frame_from_real_stream(pre: ChannelView, read: ReadEvent) -> Seq<u8> {
    match read {
        ReadEvent::Data(d) => if pre.real_stream && pre.encoder.len() == 0 && 0 < d.len()
            <= BUF_SIZE {
            frame_bytes(Opcode::BinaryFrame, d)
        } else {
            Seq::empty()
        },
        _ => Seq::empty(),
    }
}

/// Flow conservation on the way to the client: the step on the stream to
/// the real server adds to the bytes for the client one binary frame that
/// carries what was read, or nothing, and leaves what was there.
pub proof fn lemma_real_stream_adds_frame(pre: ChannelView, read: ReadEvent, write: WriteOutcome)
    ensures
        outbound(handle_real_stream_step(pre, read, write).0) == outbound(pre)
            + frame_from_real_stream(pre, read),
{
    let post = handle_real_stream_step(pre, read, write).0;
    assert(outbound(post) =~= outbound(pre) + frame_from_real_stream(pre, read));
}

/// The frames that the step on the stream to the client makes: the Pong
/// for the data that waits, if the encoder is idle, and else the Close
/// frame that waits, if the encoder is idle.
pub open spec fn frames_from_ws_stream(pre: ChannelView) -> Seq<u8> {
    if pre.encoder.len() > 0 {
        Seq::empty()
    } else if pre.pending_pong is Some {
        start_frame_step(pre.encoder, FrameView::Pong { data: pre.pending_pong->0 }).0
    } else if pre.pending_close is Some {
        start_frame_step(pre.encoder, pre.pending_close->0).0
    } else {
        Seq::empty()
    }
}

/// The step on the stream to the client adds to the bytes for the client
/// the frame that it makes, and leaves what was there.
pub proof fn lemma_ws_stream_adds_frames(pre: ChannelView)
    requires
        channel_inv(pre),
    ensures
        outbound(handle_ws_stream_step(pre).0) == outbound(pre) + frames_from_ws_stream(pre),
{
    let (pong, r1) = send_pending_pong(pre);
    if pre.encoder.len() == 0 && pre.pending_pong is Some {
        let data = pre.pending_pong->0;
        lemma_header_bytes_len(plain_header(Opcode::Pong, data.len()));
    }
    assert(outbound(pong) =~= outbound(pre) + (if pre.encoder.len() == 0 && pre.pending_pong
        is Some {
        frames_from_ws_stream(pre)
    } else {
        Seq::empty()
    }));
    if r1 is Err {
        assert(pong.encoder == pre.encoder);
        assert(outbound(pong) =~= outbound(pre) + frames_from_ws_stream(pre));
    } else {
        let (close, r2) = send_pending_close(pong);
        assert(r2 is Ok);
        assert(outbound(close) =~= outbound(pre) + frames_from_ws_stream(pre));
        let written = write_frames(close);
        let n = at_most(close.wbuf.room as int, close.encoder.len() as int);
        assert(close.encoder =~= close.encoder.take(n) + close.encoder.skip(n));
        assert(outbound(written) =~= outbound(close));
        let post = read_frames(written).0;
        assert(post.wbuf == written.wbuf && post.encoder == written.encoder);
    }
}

/// What the fourth step on the stream to the client leaves as it is, and
/// what it keeps: the bytes for the client, the count of Close frames, the
/// state of the handshake; the invariants; and a closing handshake that
/// has begun, with what waits to be sent.
pub proof fn lemma_read_frames(pre: ChannelView)
    requires
        channel_inv(pre),
        frame_decoder_inv(pre.decoder),
    ensures
        channel_inv(read_frames(pre).0),
        frame_decoder_inv(read_frames(pre).0.decoder),
        read_frames(pre).0.wbuf == pre.wbuf,
        read_frames(pre).0.encoder == pre.encoder,
        read_frames(pre).0.closes == pre.closes,
        read_frames(pre).0.handshake == pre.handshake,
        pre.closing != Closing::NotYet ==> read_frames(pre).0.closing != Closing::NotYet
            && read_frames(pre).0.pending_close == pre.pending_close && read_frames(
            pre,
        ).0.pending_pong == pre.pending_pong,
        pre.closing == Closing::Closed ==> read_frames(pre).0.closing == Closing::Closed,
{
    let eos = pre.rbuf.state == StreamState::Eos;
    lemma_frame_decode_step(pre.decoder, pre.rbuf.data, eos);
    let step = frame_decode_step(pre.decoder, pre.rbuf.data, eos);
    lemma_payload_steps(step.0.payload, Seq::empty(), false, WriteOutcome::WouldBlock);
}

/// What the step on the stream to the real server leaves as it is, and
/// what it keeps.
pub proof fn lemma_real_stream_step(pre: ChannelView, read: ReadEvent, write: WriteOutcome)
    requires
        channel_inv(pre),
        frame_decoder_inv(pre.decoder),
    ensures
        channel_inv(handle_real_stream_step(pre, read, write).0),
        frame_decoder_inv(handle_real_stream_step(pre, read, write).0.decoder),
        handle_real_stream_step(pre, read, write).0.closing == pre.closing,
        handle_real_stream_step(pre, read, write).0.closes == pre.closes,
        handle_real_stream_step(pre, read, write).0.pending_close == pre.pending_close,
        handle_real_stream_step(pre, read, write).0.pending_pong == pre.pending_pong,
        handle_real_stream_step(pre, read, write).0.handshake == pre.handshake,
        handle_real_stream_step(pre, read, write).0.wbuf == pre.wbuf,
        handle_real_stream_step(pre, read, write).0.rbuf == pre.rbuf,
{
    lemma_payload_steps(pre.decoder.payload, Seq::empty(), false, write);
}

/// The step on the stream to the client keeps the invariants of the
/// connection, and a closing handshake that has begun.
pub proof fn lemma_ws_stream_step(pre: ChannelView)
    requires
        channel_inv(pre),
        frame_decoder_inv(pre.decoder),
    ensures
        channel_inv(handle_ws_stream_step(pre).0),
        frame_decoder_inv(handle_ws_stream_step(pre).0.decoder),
        handle_ws_stream_step(pre).0.handshake == pre.handshake,
        pre.closing != Closing::NotYet ==> handle_ws_stream_step(pre).0.closing != Closing::NotYet,
{
    let (pong, r1) = send_pending_pong(pre);
    if pre.encoder.len() == 0 && pre.pending_pong is Some {
        let data = pre.pending_pong->0;
        lemma_header_bytes_len(plain_header(Opcode::Pong, data.len()));
    }
    assert(channel_inv(pong));
    if r1 is Ok {
        let (close, r2) = send_pending_close(pong);
        assert(close.encoder.len() == 0 ==> pong.pending_pong is None);
        assert(channel_inv(close));
        let written = write_frames(close);
        assert(channel_inv(written));
        lemma_read_frames(written);
    }
}

/// Beginning the closing handshake and handling a frame keep the
/// invariants of the connection.
pub proof fn lemma_closing_steps(pre: ChannelView, frame: FrameView, code: u16, client_closed: bool)
    requires
        channel_inv(pre),
        frame_decoder_inv(pre.decoder),
    ensures
        channel_inv(starts_closing_step(pre, code, client_closed).0),
        frame_decoder_inv(starts_closing_step(pre, code, client_closed).0.decoder),
        starts_closing_step(pre, code, client_closed).0.closing != Closing::NotYet,
        starts_closing_step(pre, code, client_closed).0.handshake == pre.handshake,
        channel_inv(handle_frame_step(pre, frame).0),
        frame_decoder_inv(handle_frame_step(pre, frame).0.decoder),
        pre.closing != Closing::NotYet ==> handle_frame_step(pre, frame).0.closing
            != Closing::NotYet,
{
}

/// One turn of the relay keeps the invariants of the connection, the state
/// of the handshake, and a closing handshake that has begun.
pub proof fn lemma_process_relay_step(pre: ChannelView, read: ReadEvent, write: WriteOutcome)
    requires
        channel_inv(pre),
        frame_decoder_inv(pre.decoder),
    ensures
        channel_inv(process_relay_step(pre, read, write).0),
        frame_decoder_inv(process_relay_step(pre, read, write).0.decoder),
        process_relay_step(pre, read, write).0.handshake == pre.handshake,
        pre.closing != Closing::NotYet ==> process_relay_step(pre, read, write).0.closing
            != Closing::NotYet,
{
    lemma_real_stream_step(pre, read, write);
    let upstream = handle_real_stream_step(pre, read, write);
    lemma_closing_steps(upstream.0, FrameView::Data, 1001, false);
    let first = if upstream.1 is Err {
        starts_closing_step(upstream.0, 1001, false)
    } else {
        (upstream.0, Ok(()))
    };
    if first.1 is Ok {
        lemma_ws_stream_step(first.0);
        let ws = handle_ws_stream_step(first.0);
        lemma_closing_steps(ws.0, FrameView::Data, 1002, false);
    }
}

/// The second half of a turn keeps the invariants of the connection, the
/// state of the handshake, and a closing handshake that has begun.
pub proof fn lemma_poll_relay_step(pre: ChannelView, read: ReadEvent, write: WriteOutcome)
    requires
        channel_inv(pre),
        frame_decoder_inv(pre.decoder),
    ensures
        channel_inv(poll_relay_step(pre, read, write).0),
        frame_decoder_inv(poll_relay_step(pre, read, write).0.decoder),
        poll_relay_step(pre, read, write).0.handshake == pre.handshake,
        pre.closing != Closing::NotYet ==> poll_relay_step(pre, read, write).0.closing
            != Closing::NotYet,
{
    lemma_process_relay_step(pre, read, write);
    let relayed = process_relay_step(pre, read, write);
    lemma_closing_steps(relayed.0, FrameView::Data, 1000, false);
}

/// At most one Close: the encoder of a connection is given one Close frame
/// at most, and none before the closing handshake has begun.
pub proof fn lemma_at_most_one_close(v: ChannelView)
    requires
        channel_inv(v),
    ensures
        v.closes <= 1,
        v.closing == Closing::NotYet ==> v.closes == 0,
        v.closes == 1 ==> v.pending_close is None && v.closing != Closing::NotYet,
{
}

/// At most one Close: the closing handshake never begins anew.  No step
/// takes a connection back to the state in which no Close frame has been
/// received or sent.
pub proof fn lemma_closing_goes_forward(
    pre: ChannelView,
    frame: FrameView,
    read: ReadEvent,
    write: WriteOutcome,
)
    requires
        channel_inv(pre),
        frame_decoder_inv(pre.decoder),
        pre.closing != Closing::NotYet,
    ensures
        handle_frame_step(pre, frame).0.closing != Closing::NotYet,
        handle_real_stream_step(pre, read, write).0.closing != Closing::NotYet,
        handle_ws_stream_step(pre).0.closing != Closing::NotYet,
        process_relay_step(pre, read, write).0.closing != Closing::NotYet,
        poll_relay_step(pre, read, write).0.closing != Closing::NotYet,
{
    lemma_closing_steps(pre, frame, 1000, false);
    lemma_real_stream_step(pre, read, write);
    lemma_ws_stream_step(pre);
    lemma_process_relay_step(pre, read, write);
    lemma_poll_relay_step(pre, read, write);
}

/// Pong identity: the data of a Ping that comes before the closing
/// handshake has begun is what waits for its Pong.
pub proof fn lemma_ping_waits_for_pong(pre: ChannelView, data: Seq<u8>)
    requires
        pre.closing == Closing::NotYet,
    ensures
        handle_frame_step(pre, FrameView::Ping { data }).1 is Ok,
        handle_frame_step(pre, FrameView::Ping { data }).0 == (ChannelView {
            pending_pong: Some(data),
            ..pre
        }),
{
}

/// Pong identity: once the encoder is idle, the step on the stream to the
/// client makes of the data that waits a Pong frame that carries it, and
/// no other frame; in particular no Close frame goes before it.  The data
/// is no longer than the encoder can stage.
pub proof fn lemma_pong_identity(pre: ChannelView, data: Seq<u8>)
    requires
        channel_inv(pre),
        frame_decoder_inv(pre.decoder),
        pre.pending_pong == Some(data),
        pre.encoder.len() == 0,
        data.len() <= BUF_SIZE,
    ensures
        outbound(handle_ws_stream_step(pre).0) == outbound(pre) + frame_bytes(Opcode::Pong, data),
        handle_ws_stream_step(pre).0.closes == pre.closes,
{
    lemma_ws_stream_adds_frames(pre);
    lemma_header_bytes_len(plain_header(Opcode::Pong, data.len()));
    let (pong, r1) = send_pending_pong(pre);
    assert(r1 is Ok);
    assert(pong.encoder.len() > 0);
    let (close, r2) = send_pending_close(pong);
    assert(close == pong);
    let written = write_frames(close);
    assert(channel_inv(written));
    lemma_read_frames(written);
}

/// Closing liveness: once the client has sent its Close and the Close frame
/// of the proxy has left the encoder, the step on the stream to the client
/// finds both sides closed.
pub proof fn lemma_both_sides_closed(pre: ChannelView)
    requires
        channel_inv(pre),
        frame_decoder_inv(pre.decoder),
        pre.closing == (Closing::InProgress { client_closed: true }),
        pre.pending_close is None,
        pre.encoder.len() == 0,
    ensures
        handle_ws_stream_step(pre).0.closing == Closing::Closed,
{
    let (pong, r1) = send_pending_pong(pre);
    assert(pong == pre);
    let (close, r2) = send_pending_close(pong);
    assert(close == pre);
    let written = write_frames(close);
    assert(written.encoder =~= Seq::<u8>::empty());
    assert(written.closing == Closing::Closed);
    assert(channel_inv(written));
    lemma_read_frames(written);
}

/// Closing liveness: once the client has sent its Close and the Close frame
/// of the proxy has left the encoder, the connection ends within two turns.
/// The relay finds both sides closed; and a connection whose handshake is
/// done and whose two sides have closed ends in the first half of its next
/// turn, if the relay has not ended it with a failure.  The connection to
/// the real server has been given up, as beginning the closing handshake
/// leaves it.
pub proof fn lemma_closing_liveness(pre: ChannelView, read: ReadEvent, write: WriteOutcome)
    requires
        channel_inv(pre),
        frame_decoder_inv(pre.decoder),
        pre.handshake == HandshakeView::Done,
        pre.closing == (Closing::InProgress { client_closed: true }),
        pre.pending_close is None,
        pre.encoder.len() == 0,
        !pre.real_stream,
    ensures
        poll_relay_step(pre, read, write).0.closing == Closing::Closed,
        poll_relay_step(pre, read, write).0.handshake == HandshakeView::Done,
        after_handshake(poll_relay_step(pre, read, write).0, HandshakeStep::Proceed)
            == PollStep::Ready(Ok(())),
{
    let upstream = handle_real_stream_step(pre, read, write);
    assert(upstream == (pre, Ok::<(), Error>(())));
    lemma_both_sides_closed(pre);
    lemma_ws_stream_step(pre);
    let ws = handle_ws_stream_step(pre);
    assert(process_relay_step(pre, read, write).0 == ws.0);
}

/// The fourth step on the stream to the client puts the bytes of payload of
/// a data frame that the decoder takes behind those that wait for the real
/// server.
pub proof fn lemma_read_frames_appends(pre: ChannelView)
    requires
        channel_inv(pre),
        frame_decoder_inv(pre.decoder),
    ensures
        pending_data(read_frames(pre).0.decoder) == pending_data(pre.decoder) + data_taken(
            pre.decoder,
            pre.rbuf.data,
            pre.rbuf.state == StreamState::Eos,
        ),
{
    let eos = pre.rbuf.state == StreamState::Eos;
    lemma_decode_step_appends(pre.decoder, pre.rbuf.data, eos);
    lemma_frame_decode_step(pre.decoder, pre.rbuf.data, eos);
    let step = frame_decode_step(pre.decoder, pre.rbuf.data, eos);
    lemma_payload_steps(step.0.payload, Seq::empty(), false, WriteOutcome::WouldBlock);
    let post = read_frames(pre).0;
    if step.1 is Ok && payload_is_idle(step.0.payload) {
        assert(pending_data(step.0).len() == 0);
        assert(pending_data(post.decoder) =~= Seq::<u8>::empty());
        assert(pending_data(pre.decoder) + data_taken(pre.decoder, pre.rbuf.data, eos)
            =~= Seq::<u8>::empty());
    } else {
        assert(post.decoder == step.0);
    }
}

/// The handshake from the request on: where the decoder takes bytes of the
/// buffer, has the request complete and hands out a request with a key, the
/// handshake asks for the connection to the real server, and keeps the
/// key; the bytes that the decoder took have left the buffer, and nothing
/// has been written.
pub proof fn lemma_valid_request_asks_for_connect(
    pre: ChannelView,
    request: Request,
    key: Seq<char>,
)
    requires
        pre.handshake is RecvRequest,
        request_decoded(
            pre.handshake->decoder,
            pre.rbuf.data,
            pre.rbuf.state == StreamState::Eos,
        ).0 is Some,
        request_complete(
            request_decoded(
                pre.handshake->decoder,
                pre.rbuf.data,
                pre.rbuf.state == StreamState::Eos,
            ).1,
        ),
        request_handed_out(
            request_decoded(
                pre.handshake->decoder,
                pre.rbuf.data,
                pre.rbuf.state == StreamState::Eos,
            ).1,
        ) == Some(request),
        handshake_key(request) == Some(key),
    ensures
        process_handshake_step(pre, None).1 == HandshakeStep::Connect,
        process_handshake_step(pre, None).0.handshake == (HandshakeView::ConnectToRealServer {
            key,
        }),
        process_handshake_step(pre, None).0.wbuf == pre.wbuf,
        process_handshake_step(pre, None).0.real_stream == pre.real_stream,
{
}

/// The handshake from the request on: where the decoder fails, or hands out
/// nothing, or hands out a request that is no valid handshake, the response
/// `400 Bad Request` goes into the buffer for the client, no connection to
/// the real server is asked for, and the handshake has failed once the
/// buffer has taken all of the response.
pub proof fn lemma_bad_request_is_refused(pre: ChannelView, connect: Option<ConnectOutcome>)
    requires
        pre.handshake is RecvRequest,
        after_reading(
            pre.handshake->decoder,
            pre.rbuf.data,
            pre.rbuf.state == StreamState::Eos,
        ) == after_request(None),
        pre.wbuf.room >= bad_request_wire().len(),
    ensures
        process_handshake_step(pre, connect).1 == HandshakeStep::Abort,
        process_handshake_step(pre, connect).0.wbuf.data == pre.wbuf.data + bad_request_wire(),
        process_handshake_step(pre, connect).0.real_stream == pre.real_stream,
        process_handshake_step(pre, connect).0.handshake == (HandshakeView::SendResponse {
            pending: Seq::empty(),
            succeeded: false,
        }),
{
    let wire = bad_request_wire();
    assert(wire.take(wire.len() as int) =~= wire);
    assert(wire.skip(wire.len() as int) =~= Seq::<u8>::empty());
}

/// The bytes of the Close frame by which the proxy ends a connection: a
/// final, unmasked Close with two bytes of payload, the status code with
/// its high byte first.
pub open spec fn close_wire(code: u16) -> Seq<u8> {
    seq![0x88u8, 0x02u8, (code / 0x100) as u8, (code % 0x100) as u8]
}

/// The closing handshake has just begun with the status `code`: the Close
/// frame with that code waits to be sent, none has been sent, and the
/// connection to the real server has been given up.
pub open spec fn closing_begun(v: ChannelView, code: u16, client_closed: bool) -> bool {
    &&& v.closing == (Closing::InProgress { client_closed })
    &&& v.pending_close == Some(close_frame(code))
    &&& v.closes == 0
    &&& !v.real_stream
    &&& v.real_stream_rstate == StreamState::Eos
    &&& v.real_stream_wstate == StreamState::Eos
}

/// Whether the step on the stream to the real server meets a failure: a
/// read that failed, where the encoder was free to take what is read, or a
/// write that failed, where bytes waited to be written.
pub open spec fn real_stream_fails(pre: ChannelView, read: ReadEvent, write: WriteOutcome) -> bool {
    pre.real_stream && pre.encoder.len() == 0 && (read == ReadEvent::Failed || (read
        == ReadEvent::WouldBlock && write == WriteOutcome::Failed && !data_is_empty(
        pre.decoder.payload,
    )))
}

/// Whether the step on the stream to the real server reads the end of the
/// stream: a read of no bytes, where the encoder was free to take what is
/// read.
pub open spec fn real_stream_ends(pre: ChannelView, read: ReadEvent) -> bool {
    pre.real_stream && pre.encoder.len() == 0 && read == ReadEvent::Data(Seq::empty())
}

/// The first cause for which the proxy begins the closing handshake: the
/// real server has ended the stream.  On a connection on which no Close
/// frame has been received or sent, and on which the step on the stream to
/// the client neither fails nor finds a Close of the client, the turn ends
/// with the closing handshake begun with status 1000.
pub proof fn lemma_close_on_upstream_end(pre: ChannelView, read: ReadEvent, write: WriteOutcome)
    requires
        channel_inv(pre),
        frame_decoder_inv(pre.decoder),
        pre.closing == Closing::NotYet,
    ensures
        real_stream_ends(pre, read) && handle_real_stream_step(pre, read, write).1 is Ok
            ==> real_stream_is_eos(handle_real_stream_step(pre, read, write).0),
        handle_real_stream_step(pre, read, write).1 is Ok && real_stream_is_eos(
            handle_real_stream_step(pre, read, write).0,
        ) && handle_ws_stream_step(handle_real_stream_step(pre, read, write).0).1 is Ok
            && handle_ws_stream_step(handle_real_stream_step(pre, read, write).0).0.closing
            == Closing::NotYet ==> closing_begun(poll_relay_step(pre, read, write).0, 1000, false),
{
    lemma_real_stream_step(pre, read, write);
    let upstream = handle_real_stream_step(pre, read, write);
    if upstream.1 is Ok {
        lemma_ws_stream_closing(upstream.0);
        let ws = handle_ws_stream_step(upstream.0);
        if ws.1 is Ok && ws.0.closing == Closing::NotYet && real_stream_is_eos(upstream.0) {
            assert(process_relay_step(pre, read, write) == (ws.0, Ok::<(), Error>(())));
            assert(real_stream_is_eos(ws.0));
        }
    }
}

/// The second cause: the step on the stream to the real server fails, as
/// it does on a read or a write that failed.  On a connection on which no
/// Close frame has been received or sent, the closing handshake then
/// begins with status 1001, and the turn goes on with the step on the
/// stream to the client, whose outcome is that of the turn.
pub proof fn lemma_close_on_upstream_failure(pre: ChannelView, read: ReadEvent, write: WriteOutcome)
    requires
        channel_inv(pre),
        frame_decoder_inv(pre.decoder),
        pre.closing == Closing::NotYet,
    ensures
        real_stream_fails(pre, read, write) ==> handle_real_stream_step(pre, read, write).1 is Err,
        handle_real_stream_step(pre, read, write).1 is Err ==> closing_begun(
            starts_closing_step(handle_real_stream_step(pre, read, write).0, 1001, false).0,
            1001,
            false,
        ) && process_relay_step(pre, read, write).0 == handle_ws_stream_step(
            starts_closing_step(handle_real_stream_step(pre, read, write).0, 1001, false).0,
        ).0 && (process_relay_step(pre, read, write).1 is Ok <==> handle_ws_stream_step(
            starts_closing_step(handle_real_stream_step(pre, read, write).0, 1001, false).0,
        ).1 is Ok),
{
    lemma_real_stream_step(pre, read, write);
    let upstream = handle_real_stream_step(pre, read, write);
    if upstream.1 is Err {
        let first = starts_closing_step(upstream.0, 1001, false);
        assert(first.1 is Ok);
        assert(closing_begun(first.0, 1001, false));
        lemma_closing_steps(upstream.0, FrameView::Data, 1001, false);
        lemma_ws_stream_step(first.0);
        let ws = handle_ws_stream_step(first.0);
        assert(ws.0.closing != Closing::NotYet);
        assert(starts_closing_step(ws.0, 1002, false).0 == ws.0);
    }
}

/// The third cause: the step on the stream to the client fails, as it does
/// where the decoder refuses what the client sent.  On a connection on
/// which no Close frame has been received or sent, the closing handshake
/// then begins with status 1002, and the turn does not fail.
pub proof fn lemma_close_on_protocol_error(pre: ChannelView, read: ReadEvent, write: WriteOutcome)
    requires
        channel_inv(pre),
        frame_decoder_inv(pre.decoder),
        pre.closing == Closing::NotYet,
    ensures
        frame_decode_step(pre.decoder, pre.rbuf.data, pre.rbuf.state == StreamState::Eos).1 is Err
            ==> read_frames(pre).1 is Err,
        handle_real_stream_step(pre, read, write).1 is Ok && handle_ws_stream_step(
            handle_real_stream_step(pre, read, write).0,
        ).1 is Err ==> process_relay_step(pre, read, write).1 is Ok && closing_begun(
            process_relay_step(pre, read, write).0,
            1002,
            false,
        ),
{
    lemma_real_stream_step(pre, read, write);
    let upstream = handle_real_stream_step(pre, read, write);
    if upstream.1 is Ok {
        lemma_ws_stream_closing(upstream.0);
        let ws = handle_ws_stream_step(upstream.0);
        if ws.1 is Err {
            assert(process_relay_step(pre, read, write) == starts_closing_step(ws.0, 1002, false));
        }
    }
}

/// The fourth cause: the client sends a Close.  On a connection on which
/// no Close frame has been received or sent, the closing handshake then
/// begins with the status code of the client, whatever its reason, and the
/// Close of the client is noted.
pub proof fn lemma_close_on_client_close(pre: ChannelView, code: u16, reason: Seq<u8>)
    requires
        channel_inv(pre),
        pre.closing == Closing::NotYet,
    ensures
        handle_frame_step(pre, FrameView::ConnectionClose { code, reason }).1 is Ok,
        closing_begun(
            handle_frame_step(pre, FrameView::ConnectionClose { code, reason }).0,
            code,
            true,
        ),
{
}

/// The four causes of the closing handshake in one: on a connection on
/// which no Close frame has been received or sent, the proxy begins the
/// closing handshake with status 1000 where the real server has ended the
/// stream, with 1001 where the step on the stream to the real server fails,
/// with 1002 where the step on the stream to the client fails, and with the
/// status code of the client where the client sends a Close.  Each time the
/// Close frame with that code waits to be sent, no Close frame has been
/// sent, and the connection to the real server has been given up.
pub proof fn lemma_closing_causes(
    pre: ChannelView,
    read: ReadEvent,
    write: WriteOutcome,
    code: u16,
    reason: Seq<u8>,
)
    requires
        channel_inv(pre),
        frame_decoder_inv(pre.decoder),
        pre.closing == Closing::NotYet,
    ensures
        handle_real_stream_step(pre, read, write).1 is Ok && real_stream_is_eos(
            handle_real_stream_step(pre, read, write).0,
        ) && handle_ws_stream_step(handle_real_stream_step(pre, read, write).0).1 is Ok
            && handle_ws_stream_step(handle_real_stream_step(pre, read, write).0).0.closing
            == Closing::NotYet ==> closing_begun(poll_relay_step(pre, read, write).0, 1000, false),
        handle_real_stream_step(pre, read, write).1 is Err ==> closing_begun(
            starts_closing_step(handle_real_stream_step(pre, read, write).0, 1001, false).0,
            1001,
            false,
        ),
        handle_real_stream_step(pre, read, write).1 is Ok && handle_ws_stream_step(
            handle_real_stream_step(pre, read, write).0,
        ).1 is Err ==> closing_begun(process_relay_step(pre, read, write).0, 1002, false),
        closing_begun(
            handle_frame_step(pre, FrameView::ConnectionClose { code, reason }).0,
            code,
            true,
        ),
{
    lemma_close_on_upstream_end(pre, read, write);
    lemma_close_on_upstream_failure(pre, read, write);
    lemma_close_on_protocol_error(pre, read, write);
    lemma_close_on_client_close(pre, code, reason);
}

/// The step on the stream to the client and the closing handshake.  Where no
/// Close frame has been received or sent and the step fails, none has been
/// afterwards; where none has been afterwards, the connection to the real
/// server is as it was.
pub proof fn lemma_ws_stream_closing(pre: ChannelView)
    requires
        channel_inv(pre),
        frame_decoder_inv(pre.decoder),
    ensures
        pre.closing == Closing::NotYet && handle_ws_stream_step(pre).1 is Err
            ==> handle_ws_stream_step(pre).0.closing == Closing::NotYet,
        pre.closing == Closing::NotYet && handle_ws_stream_step(pre).0.closing == Closing::NotYet
            ==> handle_ws_stream_step(pre).0.real_stream == pre.real_stream
            && handle_ws_stream_step(pre).0.real_stream_rstate == pre.real_stream_rstate
            && handle_ws_stream_step(pre).0.real_stream_wstate == pre.real_stream_wstate
            && handle_ws_stream_step(pre).0.pending_close is None && handle_ws_stream_step(
            pre,
        ).0.closes == 0,
{
    let (pong, r1) = send_pending_pong(pre);
    if pre.encoder.len() == 0 && pre.pending_pong is Some {
        let data = pre.pending_pong->0;
        lemma_header_bytes_len(plain_header(Opcode::Pong, data.len()));
    }
    if r1 is Ok {
        let (close, r2) = send_pending_close(pong);
        let written = write_frames(close);
        assert(channel_inv(written));
        lemma_read_frames(written);
        let eos = written.rbuf.state == StreamState::Eos;
        lemma_frame_decode_step(written.decoder, written.rbuf.data, eos);
        let step = frame_decode_step(written.decoder, written.rbuf.data, eos);
        lemma_payload_steps(step.0.payload, Seq::empty(), false, WriteOutcome::WouldBlock);
    }
}

/// The Close frame of the proxy on the wire: once the closing handshake has
/// begun with a status code, the encoder is idle and no Pong waits, the
/// step on the stream to the client adds to the bytes for the client the
/// four bytes of the Close frame with that code, and nothing else; this is
/// the one Close frame of the connection.
pub proof fn lemma_close_frame_goes_out(pre: ChannelView, code: u16, client_closed: bool)
    requires
        channel_inv(pre),
        frame_decoder_inv(pre.decoder),
        closing_begun(pre, code, client_closed),
        pre.encoder.len() == 0,
        pre.pending_pong is None,
    ensures
        outbound(handle_ws_stream_step(pre).0) == outbound(pre) + close_wire(code),
        handle_ws_stream_step(pre).0.closes == 1,
        handle_ws_stream_step(pre).0.pending_close is None,
        !handle_ws_stream_step(pre).0.real_stream,
{
    lemma_ws_stream_adds_frames(pre);
    lemma_ws_stream_step(pre);
    lemma_header_bytes_len(plain_header(Opcode::ConnectionClose, 2));
    assert(u16_to_be(code).len() == 2);
    assert(frames_from_ws_stream(pre) =~= close_wire(code)) by {
        lemma_opcode_roundtrip(Opcode::ConnectionClose);
    }
    let (pong, r1) = send_pending_pong(pre);
    let (close, r2) = send_pending_close(pong);
    let written = write_frames(close);
    assert(channel_inv(written));
    lemma_read_frames(written);
}

} // verus!
