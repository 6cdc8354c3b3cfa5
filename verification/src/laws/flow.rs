//! Flow conservation: what goes through a connection over any run of
//! turns, in both directions.
use crate::channel::{
    channel_inv, handle_real_stream_step, handle_ws_stream_step, poll_relay_step, read_frames,
    send_pending_close, send_pending_pong, starts_closing_step, write_frames, ChannelView,
};
use crate::decoder::{frame_decoder_inv, write_decoded_step};
use crate::frame::{
    control_payload, frame_bytes, plain_header, start_data_step, FrameView, BUF_SIZE,
};
use crate::io::{fill_step, flush_step, ReadEvent, StreamState, WriteOutcome};
use crate::laws::codec::{data_taken, lemma_write_step_takes, pending_data, write_taken};
use crate::laws::connection::{
    frame_from_real_stream, frames_from_ws_stream, lemma_closing_steps, lemma_poll_relay_step,
    lemma_read_frames, lemma_read_frames_appends, lemma_real_stream_adds_frame,
    lemma_real_stream_step, lemma_ws_stream_adds_frames, outbound,
};
use crate::opcode::Opcode;
use crate::wire::lemma_header_bytes_len;
use vstd::prelude::*;

verus! {

/// What happens to a connection whose handshake is done, seen from its
/// sockets.
pub ghost enum Turn {
    /// A read from the client came to this.
    Fill(ReadEvent),
    /// A write to the client came to this.
    Flush(WriteOutcome),
    /// The relay had its turn, with what a read from and a write to the real
    /// server came to.
    Relay(ReadEvent, WriteOutcome),
}

/// The connection after one turn.
#[verifier::opaque]
pub open spec fn after_turn(v: ChannelView, turn: Turn) -> ChannelView {
    match turn {
        Turn::Fill(event) => ChannelView { rbuf: fill_step(v.rbuf, event).0, ..v },
        Turn::Flush(outcome) => ChannelView {
            wbuf: flush_step(v.wbuf, BUF_SIZE as nat, outcome).0,
            ..v
        },
        Turn::Relay(read, write) => poll_relay_step(v, read, write).0,
    }
}

/// The connection after a run of turns.
pub open spec fn after_turns(v: ChannelView, turns: Seq<Turn>) -> ChannelView
    decreases turns.len(),
{
    if turns.len() == 0 {
        v
    } else {
        after_turn(after_turns(v, turns.drop_last()), turns.last())
    }
}

/// The bytes that one turn writes to the client.
#[verifier::opaque]
pub open spec fn turn_written(v: ChannelView, turn: Turn) -> Seq<u8> {
    match turn {
        Turn::Flush(WriteOutcome::Written(n)) => if 0 < n <= v.wbuf.data.len() {
            v.wbuf.data.take(n as int)
        } else {
            Seq::empty()
        },
        _ => Seq::empty(),
    }
}

/// The bytes that one turn takes from the real server.
#[verifier::opaque]
pub open spec fn turn_read(v: ChannelView, turn: Turn) -> Seq<u8> {
    match turn {
        Turn::Relay(ReadEvent::Data(d), _) => if v.real_stream && v.encoder.len() == 0 && 0
            < d.len() <= BUF_SIZE {
            d
        } else {
            Seq::empty()
        },
        _ => Seq::empty(),
    }
}

/// The frame that the step on the stream to the client gives the encoder,
/// by its opcode and its payload: the Pong for the data that waits, if the
/// encoder is idle and can stage the data, and else the Close frame that
/// waits, if the encoder is idle.
pub open spec fn ws_stream_frames(v: ChannelView) -> Seq<(Opcode, Seq<u8>)> {
    if v.encoder.len() > 0 {
        Seq::empty()
    } else if v.pending_pong is Some {
        if v.pending_pong->0.len() <= BUF_SIZE {
            seq![(Opcode::Pong, v.pending_pong->0)]
        } else {
            Seq::empty()
        }
    } else if v.pending_close is Some {
        seq![(Opcode::ConnectionClose, control_payload(v.pending_close->0))]
    } else {
        Seq::empty()
    }
}

/// The frames that one turn gives the encoder, by their opcodes and their
/// payloads: a binary frame for what was read from the real server, then
/// the frame of the step on the stream to the client.
#[verifier::opaque]
pub open spec fn turn_frames(v: ChannelView, turn: Turn) -> Seq<(Opcode, Seq<u8>)> {
    match turn {
        Turn::Relay(read, write) => {
            let (upstream, r1) = handle_real_stream_step(v, read, write);
            let (first, c1) = if r1 is Err {
                starts_closing_step(upstream, 1001, false)
            } else {
                (upstream, Ok(()))
            };
            (if turn_read(v, turn).len() > 0 {
                seq![(Opcode::BinaryFrame, turn_read(v, turn))]
            } else {
                Seq::empty()
            }) + (if c1 is Err {
                Seq::empty()
            } else {
                ws_stream_frames(first)
            })
        },
        _ => Seq::empty(),
    }
}

/// The bytes of a row of frames of the proxy.
pub open spec fn wire_of(frames: Seq<(Opcode, Seq<u8>)>) -> Seq<u8>
    decreases frames.len(),
{
    if frames.len() == 0 {
        Seq::empty()
    } else {
        wire_of(frames.drop_last()) + frame_bytes(frames.last().0, frames.last().1)
    }
}

/// The payloads of the binary frames in a row of frames, one after the
/// other.
pub open spec fn data_of(frames: Seq<(Opcode, Seq<u8>)>) -> Seq<u8>
    decreases frames.len(),
{
    if frames.len() == 0 {
        Seq::empty()
    } else {
        data_of(frames.drop_last()) + (if frames.last().0 == Opcode::BinaryFrame {
            frames.last().1
        } else {
            Seq::empty()
        })
    }
}

/// The bytes that a run of turns writes to the client.
pub open spec fn run_written(v: ChannelView, turns: Seq<Turn>) -> Seq<u8>
    decreases turns.len(),
{
    if turns.len() == 0 {
        Seq::empty()
    } else {
        run_written(v, turns.drop_last()) + turn_written(
            after_turns(v, turns.drop_last()),
            turns.last(),
        )
    }
}

/// The bytes that a run of turns takes from the real server.
pub open spec fn run_read(v: ChannelView, turns: Seq<Turn>) -> Seq<u8>
    decreases turns.len(),
{
    if turns.len() == 0 {
        Seq::empty()
    } else {
        run_read(v, turns.drop_last()) + turn_read(after_turns(v, turns.drop_last()), turns.last())
    }
}

/// The frames that a run of turns gives the encoder.
pub open spec fn run_frames(v: ChannelView, turns: Seq<Turn>) -> Seq<(Opcode, Seq<u8>)>
    decreases turns.len(),
{
    if turns.len() == 0 {
        Seq::empty()
    } else {
        run_frames(v, turns.drop_last()) + turn_frames(
            after_turns(v, turns.drop_last()),
            turns.last(),
        )
    }
}

/// The bytes and the data of two rows of frames, one after the other, are
/// those of the first row followed by those of the second.
pub proof fn lemma_frames_concat(a: Seq<(Opcode, Seq<u8>)>, b: Seq<(Opcode, Seq<u8>)>)
    ensures
        wire_of(a + b) == wire_of(a) + wire_of(b),
        data_of(a + b) == data_of(a) + data_of(b),
    decreases b.len(),
{
    if b.len() == 0 {
        assert(a + b =~= a);
        assert(wire_of(a) + wire_of(b) =~= wire_of(a));
        assert(data_of(a) + data_of(b) =~= data_of(a));
    } else {
        assert((a + b).drop_last() =~= a + b.drop_last());
        assert((a + b).last() == b.last());
        lemma_frames_concat(a, b.drop_last());
        assert(wire_of(a + b) =~= wire_of(a) + wire_of(b));
        assert(data_of(a + b) =~= data_of(a) + data_of(b));
    }
}

/// The bytes of a row of one frame are the bytes of the frame, and the
/// data of the row is the payload of a binary frame.
pub proof fn lemma_frames_single(opcode: Opcode, payload: Seq<u8>)
    ensures
        wire_of(seq![(opcode, payload)]) == frame_bytes(opcode, payload),
        data_of(seq![(opcode, payload)]) == (if opcode == Opcode::BinaryFrame {
            payload
        } else {
            Seq::empty()
        }),
        wire_of(Seq::empty()) == Seq::<u8>::empty(),
        data_of(Seq::empty()) == Seq::<u8>::empty(),
{
    let row = seq![(opcode, payload)];
    reveal_with_fuel(wire_of, 2);
    reveal_with_fuel(data_of, 2);
    assert(row.drop_last() =~= Seq::<(Opcode, Seq<u8>)>::empty());
    assert(wire_of(row) =~= frame_bytes(opcode, payload));
    assert(data_of(row) =~= (if opcode == Opcode::BinaryFrame {
        payload
    } else {
        Seq::empty()
    }));
}

/// The frame that the step on the stream to the client makes is the one
/// that `ws_stream_frames` names, and it carries no data of the real
/// server.
pub proof fn lemma_ws_stream_frames(v: ChannelView)
    requires
        channel_inv(v),
    ensures
        wire_of(ws_stream_frames(v)) == frames_from_ws_stream(v),
        data_of(ws_stream_frames(v)) == Seq::<u8>::empty(),
{
    lemma_frames_single(Opcode::Pong, Seq::empty());
    if v.encoder.len() == 0 {
        if v.pending_pong is Some {
            lemma_frames_single(Opcode::Pong, v.pending_pong->0);
        } else if v.pending_close is Some {
            lemma_frames_single(Opcode::ConnectionClose, control_payload(v.pending_close->0));
        }
    }
}

/// The turn of the relay: what is left for the client afterwards is what
/// was there and the frames that the turn made; and the binary frame among
/// these carries what the turn took from the real server.
#[verifier::rlimit(60)]
pub proof fn lemma_relay_turn(v: ChannelView, read: ReadEvent, write: WriteOutcome)
    requires
        channel_inv(v),
        frame_decoder_inv(v.decoder),
    ensures
        outbound(poll_relay_step(v, read, write).0) == outbound(v) + wire_of(
            turn_frames(v, Turn::Relay(read, write)),
        ),
        data_of(turn_frames(v, Turn::Relay(read, write))) == turn_read(
            v,
            Turn::Relay(read, write),
        ),
{
    reveal(turn_frames);
    reveal(turn_read);
    let turn = Turn::Relay(read, write);
    let post = poll_relay_step(v, read, write).0;
    let frames = turn_frames(v, turn);
    lemma_real_stream_step(v, read, write);
    lemma_real_stream_adds_frame(v, read, write);
    let (upstream, r1) = handle_real_stream_step(v, read, write);
    let (first, c1) = if r1 is Err {
        starts_closing_step(upstream, 1001, false)
    } else {
        (upstream, Ok(()))
    };
    assert(channel_inv(first) && frame_decoder_inv(first.decoder)) by {
        lemma_closing_steps(upstream, FrameView::Data, 1001, false);
    }
    let taken = turn_read(v, turn);
    let made: Seq<(Opcode, Seq<u8>)> = if taken.len() > 0 {
        seq![(Opcode::BinaryFrame, taken)]
    } else {
        Seq::empty()
    };
    lemma_frames_single(Opcode::BinaryFrame, taken);
    assert(wire_of(made) == frame_from_real_stream(v, read));
    assert(data_of(made) == taken);
    assert(outbound(first) == outbound(v) + wire_of(made));
    let second: Seq<(Opcode, Seq<u8>)> = if c1 is Err {
        Seq::empty()
    } else {
        ws_stream_frames(first)
    };
    assert(frames == made + second);
    assert(outbound(post) == outbound(first) + wire_of(second) && data_of(second) == Seq::<
        u8,
    >::empty()) by {
        if c1 is Err {
            assert(post == first);
            assert(outbound(first) + wire_of(second) =~= outbound(first));
        } else {
            lemma_ws_stream_adds_frames(first);
            lemma_ws_stream_frames(first);
            let ws = handle_ws_stream_step(first);
            assert(post.wbuf == ws.0.wbuf && post.encoder == ws.0.encoder);
        }
    }
    lemma_frames_concat(made, second);
    assert(outbound(post) =~= outbound(v) + wire_of(frames));
    assert(data_of(frames) =~= taken);
}

/// One turn keeps the invariants of the connection; what it wrote to the
/// client and what is left for the client are what was there and the
/// frames that it made; and the binary frames among these carry what it
/// took from the real server.
pub proof fn lemma_turn(v: ChannelView, turn: Turn)
    requires
        channel_inv(v),
        frame_decoder_inv(v.decoder),
    ensures
        channel_inv(after_turn(v, turn)),
        frame_decoder_inv(after_turn(v, turn).decoder),
        turn_written(v, turn) + outbound(after_turn(v, turn)) == outbound(v) + wire_of(
            turn_frames(v, turn),
        ),
        data_of(turn_frames(v, turn)) == turn_read(v, turn),
{
    reveal(after_turn);
    reveal(turn_written);
    let post = after_turn(v, turn);
    lemma_frames_single(Opcode::Pong, Seq::empty());
    if !(turn is Relay) {
        reveal(turn_frames);
        reveal(turn_read);
    }
    match turn {
        Turn::Fill(event) => {
            assert(turn_written(v, turn) + outbound(post) =~= outbound(v) + wire_of(
                turn_frames(v, turn),
            ));
        },
        Turn::Flush(outcome) => {
            match outcome {
                WriteOutcome::Written(n) => {
                    if 0 < n <= v.wbuf.data.len() {
                        assert(v.wbuf.data =~= v.wbuf.data.take(n as int) + v.wbuf.data.skip(
                            n as int,
                        ));
                    }
                },
                _ => {},
            }
            assert(turn_written(v, turn) + outbound(post) =~= outbound(v) + wire_of(
                turn_frames(v, turn),
            ));
        },
        Turn::Relay(read, write) => {
            lemma_poll_relay_step(v, read, write);
            lemma_relay_turn(v, read, write);
            assert(turn_written(v, turn) + outbound(post) =~= outbound(post));
        },
    }
}

/// Flow conservation: over any run of turns of a connection, what was
/// written to the client, followed by what is left for the client, is what
/// was there at first followed by the frames that the run made, in their
/// order; and the payloads of the binary frames among these, one after the
/// other, are the bytes that the run took from the real server, in their
/// order.
pub proof fn lemma_flow_conservation(v: ChannelView, turns: Seq<Turn>)
    requires
        channel_inv(v),
        frame_decoder_inv(v.decoder),
    ensures
        channel_inv(after_turns(v, turns)),
        frame_decoder_inv(after_turns(v, turns).decoder),
        run_written(v, turns) + outbound(after_turns(v, turns)) == outbound(v) + wire_of(
            run_frames(v, turns),
        ),
        data_of(run_frames(v, turns)) == run_read(v, turns),
    decreases turns.len(),
{
    if turns.len() == 0 {
        assert(run_written(v, turns) + outbound(v) =~= outbound(v) + wire_of(run_frames(v, turns)));
    } else {
        let before = turns.drop_last();
        let mid = after_turns(v, before);
        lemma_flow_conservation(v, before);
        lemma_turn(mid, turns.last());
        lemma_frames_concat(run_frames(v, before), turn_frames(mid, turns.last()));
        let post = after_turns(v, turns);
        assert(run_written(v, turns) + outbound(post) =~= run_written(v, before) + (turn_written(
            mid,
            turns.last(),
        ) + outbound(post)));
        assert(run_written(v, before) + (outbound(mid) + wire_of(turn_frames(mid, turns.last())))
            =~= (run_written(v, before) + outbound(mid)) + wire_of(
            turn_frames(mid, turns.last()),
        ));
        assert((outbound(v) + wire_of(run_frames(v, before))) + wire_of(
            turn_frames(mid, turns.last()),
        ) =~= outbound(v) + (wire_of(run_frames(v, before)) + wire_of(
            turn_frames(mid, turns.last()),
        )));
    }
}

/// The bytes that one turn writes to the real server.
#[verifier::opaque]
pub open spec fn turn_sent_on(v: ChannelView, turn: Turn) -> Seq<u8> {
    match turn {
        Turn::Relay(read, write) => if v.real_stream && start_data_step(v.encoder, read).1 is Ok {
            write_taken(v.decoder, write)
        } else {
            Seq::empty()
        },
        _ => Seq::empty(),
    }
}

/// The bytes of payload of data frames that the decoder takes from the
/// buffer of what the client sent in one turn, with the masking key taken
/// off.  The decoder has no step where the turn ends before it.
#[verifier::opaque]
pub open spec fn turn_decoded(v: ChannelView, turn: Turn) -> Seq<u8> {
    match turn {
        Turn::Relay(read, write) => {
            let (upstream, r1) = handle_real_stream_step(v, read, write);
            let (first, c1) = if r1 is Err {
                starts_closing_step(upstream, 1001, false)
            } else {
                (upstream, Ok(()))
            };
            if c1 is Err || send_pending_pong(first).1 is Err {
                Seq::empty()
            } else {
                data_taken(first.decoder, first.rbuf.data, first.rbuf.state == StreamState::Eos)
            }
        },
        _ => Seq::empty(),
    }
}

/// The bytes that a run of turns writes to the real server.
pub open spec fn run_sent_on(v: ChannelView, turns: Seq<Turn>) -> Seq<u8>
    decreases turns.len(),
{
    if turns.len() == 0 {
        Seq::empty()
    } else {
        run_sent_on(v, turns.drop_last()) + turn_sent_on(
            after_turns(v, turns.drop_last()),
            turns.last(),
        )
    }
}

/// The bytes of payload of data frames that the decoder takes in during a
/// run of turns, with the masking key taken off.
pub open spec fn run_decoded(v: ChannelView, turns: Seq<Turn>) -> Seq<u8>
    decreases turns.len(),
{
    if turns.len() == 0 {
        Seq::empty()
    } else {
        run_decoded(v, turns.drop_last()) + turn_decoded(
            after_turns(v, turns.drop_last()),
            turns.last(),
        )
    }
}

/// The turn of the relay: what it wrote to the real server and what waits
/// for it afterwards are what waited and what the decoder took in.
#[verifier::rlimit(60)]
pub proof fn lemma_relay_turn_back(v: ChannelView, read: ReadEvent, write: WriteOutcome)
    requires
        channel_inv(v),
        frame_decoder_inv(v.decoder),
    ensures
        turn_sent_on(v, Turn::Relay(read, write)) + pending_data(
            poll_relay_step(v, read, write).0.decoder,
        ) == pending_data(v.decoder) + turn_decoded(v, Turn::Relay(read, write)),
{
    reveal(turn_sent_on);
    reveal(turn_decoded);
    let turn = Turn::Relay(read, write);
    let post = poll_relay_step(v, read, write).0;
    lemma_real_stream_step(v, read, write);
    let (upstream, r1) = handle_real_stream_step(v, read, write);
    let (first, c1) = if r1 is Err {
        starts_closing_step(upstream, 1001, false)
    } else {
        (upstream, Ok(()))
    };
    assert(channel_inv(first) && frame_decoder_inv(first.decoder)) by {
        lemma_closing_steps(upstream, FrameView::Data, 1001, false);
    }
    assert(first.decoder == upstream.decoder && first.rbuf == v.rbuf);
    assert(turn_sent_on(v, turn) + pending_data(first.decoder) == pending_data(v.decoder)) by {
        lemma_write_step_takes(v.decoder.payload, v.decoder.header, write);
        if v.real_stream && start_data_step(v.encoder, read).1 is Ok {
            if write_decoded_step(v.decoder.payload, write).1 is Err {
                assert(write_taken(v.decoder, write) =~= Seq::<u8>::empty());
            }
        }
        assert(turn_sent_on(v, turn) + pending_data(first.decoder) =~= pending_data(v.decoder));
    }
    assert(pending_data(post.decoder) == pending_data(first.decoder) + turn_decoded(v, turn)) by {
        if c1 is Err {
            assert(post == first);
            assert(pending_data(first.decoder) + turn_decoded(v, turn) =~= pending_data(
                first.decoder,
            ));
        } else {
            let (pong, p1) = send_pending_pong(first);
            if first.encoder.len() == 0 && first.pending_pong is Some {
                lemma_header_bytes_len(plain_header(Opcode::Pong, first.pending_pong->0.len()));
            }
            if p1 is Err {
                assert(post.decoder == first.decoder);
                assert(pending_data(first.decoder) + turn_decoded(v, turn) =~= pending_data(
                    first.decoder,
                ));
            } else {
                let (close, p2) = send_pending_close(pong);
                let written = write_frames(close);
                assert(channel_inv(written)) by {
                    assert(channel_inv(pong));
                    assert(close.encoder.len() == 0 ==> pong.pending_pong is None);
                    assert(channel_inv(close));
                }
                assert(written.decoder == first.decoder && written.rbuf == first.rbuf);
                lemma_read_frames_appends(written);
                let ws = read_frames(written);
                assert(post.decoder == ws.0.decoder);
            }
        }
    }
    assert(turn_sent_on(v, turn) + pending_data(post.decoder) =~= pending_data(v.decoder)
        + turn_decoded(v, turn));
}

/// Reverse-flow conservation: over any run of turns of a connection, what
/// was written to the real server, followed by what waits for it, is what
/// waited at first followed by the payload of data frames that the decoder
/// took in, in its order.
pub proof fn lemma_reverse_flow_conservation(v: ChannelView, turns: Seq<Turn>)
    requires
        channel_inv(v),
        frame_decoder_inv(v.decoder),
    ensures
        run_sent_on(v, turns) + pending_data(after_turns(v, turns).decoder) == pending_data(
            v.decoder,
        ) + run_decoded(v, turns),
    decreases turns.len(),
{
    if turns.len() == 0 {
        assert(run_sent_on(v, turns) + pending_data(v.decoder) =~= pending_data(v.decoder)
            + run_decoded(v, turns));
    } else {
        let before = turns.drop_last();
        let mid = after_turns(v, before);
        let last = turns.last();
        lemma_reverse_flow_conservation(v, before);
        lemma_flow_conservation(v, before);
        let post = after_turns(v, turns);
        assert(turn_sent_on(mid, last) + pending_data(post.decoder) == pending_data(mid.decoder)
            + turn_decoded(mid, last)) by {
            reveal(after_turn);
            match last {
                Turn::Relay(read, write) => {
                    lemma_relay_turn_back(mid, read, write);
                },
                _ => {
                    reveal(turn_sent_on);
                    reveal(turn_decoded);
                    assert(post.decoder == mid.decoder);
                    assert(turn_sent_on(mid, last) + pending_data(post.decoder) =~= pending_data(
                        mid.decoder,
                    ) + turn_decoded(mid, last));
                },
            }
        }
        assert(run_sent_on(v, turns) + pending_data(post.decoder) =~= run_sent_on(v, before) + (
        turn_sent_on(mid, last) + pending_data(post.decoder)));
        assert(run_sent_on(v, before) + (pending_data(mid.decoder) + turn_decoded(mid, last))
            =~= (run_sent_on(v, before) + pending_data(mid.decoder)) + turn_decoded(mid, last));
        assert((pending_data(v.decoder) + run_decoded(v, before)) + turn_decoded(mid, last)
            =~= pending_data(v.decoder) + (run_decoded(v, before) + turn_decoded(mid, last)));
    }
}

/// How many Close frames a row of frames holds.
pub open spec fn close_count(frames: Seq<(Opcode, Seq<u8>)>) -> nat
    decreases frames.len(),
{
    if frames.len() == 0 {
        0
    } else {
        close_count(frames.drop_last()) + (if frames.last().0 == Opcode::ConnectionClose {
            1nat
        } else {
            0nat
        })
    }
}

/// The Close frames of two rows of frames, one after the other, are those
/// of the first row and those of the second.
pub proof fn lemma_close_count_concat(a: Seq<(Opcode, Seq<u8>)>, b: Seq<(Opcode, Seq<u8>)>)
    ensures
        close_count(a + b) == close_count(a) + close_count(b),
    decreases b.len(),
{
    if b.len() == 0 {
        assert(a + b =~= a);
    } else {
        assert((a + b).drop_last() =~= a + b.drop_last());
        assert((a + b).last() == b.last());
        lemma_close_count_concat(a, b.drop_last());
    }
}

/// The turn of the relay gives the encoder as many Close frames as the
/// count of the connection goes up by.
#[verifier::rlimit(60)]
pub proof fn lemma_relay_turn_closes(v: ChannelView, read: ReadEvent, write: WriteOutcome)
    requires
        channel_inv(v),
        frame_decoder_inv(v.decoder),
    ensures
        poll_relay_step(v, read, write).0.closes == v.closes + close_count(
            turn_frames(v, Turn::Relay(read, write)),
        ),
{
    reveal(turn_frames);
    reveal(turn_read);
    reveal_with_fuel(close_count, 2);
    let turn = Turn::Relay(read, write);
    let post = poll_relay_step(v, read, write).0;
    lemma_real_stream_step(v, read, write);
    let (upstream, r1) = handle_real_stream_step(v, read, write);
    let (first, c1) = if r1 is Err {
        starts_closing_step(upstream, 1001, false)
    } else {
        (upstream, Ok(()))
    };
    assert(channel_inv(first) && frame_decoder_inv(first.decoder)) by {
        lemma_closing_steps(upstream, FrameView::Data, 1001, false);
    }
    assert(first.closes == v.closes);
    let taken = turn_read(v, turn);
    let made: Seq<(Opcode, Seq<u8>)> = if taken.len() > 0 {
        seq![(Opcode::BinaryFrame, taken)]
    } else {
        Seq::empty()
    };
    assert(close_count(made) == 0) by {
        if taken.len() > 0 {
            assert(made.drop_last() =~= Seq::<(Opcode, Seq<u8>)>::empty());
        }
    }
    let second: Seq<(Opcode, Seq<u8>)> = if c1 is Err {
        Seq::empty()
    } else {
        ws_stream_frames(first)
    };
    assert(turn_frames(v, turn) == made + second);
    assert(post.closes == first.closes + close_count(second)) by {
        if c1 is Err {
            assert(post == first);
        } else {
            let (pong, p1) = send_pending_pong(first);
            if first.encoder.len() == 0 && first.pending_pong is Some {
                lemma_header_bytes_len(plain_header(Opcode::Pong, first.pending_pong->0.len()));
            }
            if second.len() > 0 {
                assert(second.drop_last() =~= Seq::<(Opcode, Seq<u8>)>::empty());
            }
            if p1 is Err {
                assert(post.closes == first.closes);
            } else {
                let (close, p2) = send_pending_close(pong);
                let written = write_frames(close);
                assert(channel_inv(written)) by {
                    assert(channel_inv(pong));
                    assert(close.encoder.len() == 0 ==> pong.pending_pong is None);
                    assert(channel_inv(close));
                }
                lemma_read_frames(written);
                let ws = read_frames(written);
                assert(post.closes == ws.0.closes);
                assert(ws.0.closes == close.closes);
            }
        }
    }
    lemma_close_count_concat(made, second);
}

/// At most one Close on the wire: over any run of turns of a connection
/// that has given its encoder no Close frame before, the frames that the
/// run gives the encoder, which are what goes to the client, hold one
/// Close frame at most.
pub proof fn lemma_one_close_frame(v: ChannelView, turns: Seq<Turn>)
    requires
        channel_inv(v),
        frame_decoder_inv(v.decoder),
    ensures
        after_turns(v, turns).closes == v.closes + close_count(run_frames(v, turns)),
        v.closes + close_count(run_frames(v, turns)) <= 1,
    decreases turns.len(),
{
    lemma_flow_conservation(v, turns);
    if turns.len() == 0 {
    } else {
        let before = turns.drop_last();
        let mid = after_turns(v, before);
        let last = turns.last();
        lemma_one_close_frame(v, before);
        lemma_flow_conservation(v, before);
        lemma_close_count_concat(run_frames(v, before), turn_frames(mid, last));
        assert(after_turn(mid, last).closes == mid.closes + close_count(turn_frames(mid, last)))
            by {
            reveal(after_turn);
            match last {
                Turn::Relay(read, write) => {
                    lemma_relay_turn_closes(mid, read, write);
                },
                _ => {
                    reveal(turn_frames);
                },
            }
        }
    }
}

} // verus!
