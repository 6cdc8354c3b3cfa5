//! The way of the frames of a client through the decoder, and of the
//! payload of data frames to the real server, over runs of any length.
use crate::decoder::{
    frame_decode_payload, frame_decode_step, frame_decoder_inv, frame_of,
    lemma_frame_decode_step, lemma_payload_steps, payload_decode_step, payload_decoder_empty,
    payload_finish_step, payload_is_idle, unmask, write_decoded_step, FrameDecoderView,
    PayloadDecoderView,
};
use crate::error::CodecErrorKind;
use crate::frame::BUF_SIZE;
use crate::header::{
    at_most, fixed_part, header_decode_step, header_finish_step, lemma_header_decode_step,
    HeaderDecoderView,
};
use crate::io::WriteOutcome;
use crate::laws::codec::{
    client_frame_bytes, data_taken, lemma_decode_step_appends, lemma_key_goes_round,
    lemma_write_step_takes, pending_data, write_taken,
};
use crate::opcode::Opcode;
use crate::wire::{
    extended_size, header_bytes, lemma_header_bytes_len, lemma_header_roundtrip, parse_header,
    FrameHeader, MAX_PAYLOAD_LEN,
};
use vstd::prelude::*;

verus! {

/// What happens to a frame decoder: it is given input, a write to the real
/// server is reported to it, or the frame is taken out of it.
pub ghost enum DecoderEvent {
    Decode(Seq<u8>, bool),
    Write(WriteOutcome),
    Finish,
}

/// The decoder after one event.
pub open spec fn decoder_after(v: FrameDecoderView, event: DecoderEvent) -> FrameDecoderView {
    match event {
        DecoderEvent::Decode(input, eos) => frame_decode_step(v, input, eos).0,
        DecoderEvent::Write(outcome) => FrameDecoderView {
            header: v.header,
            payload: write_decoded_step(v.payload, outcome).0,
        },
        DecoderEvent::Finish => FrameDecoderView {
            header: v.header,
            payload: payload_finish_step(v.payload).0,
        },
    }
}

/// The bytes that one event writes to the real server.
pub open spec fn event_written(v: FrameDecoderView, event: DecoderEvent) -> Seq<u8> {
    match event {
        DecoderEvent::Write(outcome) => write_taken(v, outcome),
        _ => Seq::empty(),
    }
}

/// The bytes of payload of data frames that the decoder takes in at one
/// event, with the masking key taken off.
pub open spec fn event_taken(v: FrameDecoderView, event: DecoderEvent) -> Seq<u8> {
    match event {
        DecoderEvent::Decode(input, eos) => data_taken(v, input, eos),
        _ => Seq::empty(),
    }
}

/// Whether every input of a run of events is one that a slice can hold.
pub open spec fn events_fit(events: Seq<DecoderEvent>) -> bool {
    forall|i: int|
        0 <= i < events.len() ==> ((#[trigger] events[i]) matches DecoderEvent::Decode(input, _)
            ==> input.len() <= usize::MAX)
}

/// The decoder after a run of events.
pub open spec fn decoder_after_run(v: FrameDecoderView, events: Seq<DecoderEvent>) -> FrameDecoderView
    decreases events.len(),
{
    if events.len() == 0 {
        v
    } else {
        decoder_after(decoder_after_run(v, events.drop_last()), events.last())
    }
}

/// The bytes that a run of events writes to the real server.
pub open spec fn events_written(v: FrameDecoderView, events: Seq<DecoderEvent>) -> Seq<u8>
    decreases events.len(),
{
    if events.len() == 0 {
        Seq::empty()
    } else {
        events_written(v, events.drop_last()) + event_written(
            decoder_after_run(v, events.drop_last()),
            events.last(),
        )
    }
}

/// The bytes of payload of data frames that the decoder takes in during a
/// run of events, with the masking key taken off.
pub open spec fn events_taken(v: FrameDecoderView, events: Seq<DecoderEvent>) -> Seq<u8>
    decreases events.len(),
{
    if events.len() == 0 {
        Seq::empty()
    } else {
        events_taken(v, events.drop_last()) + event_taken(
            decoder_after_run(v, events.drop_last()),
            events.last(),
        )
    }
}

/// One event keeps the invariant of the decoder; and what it wrote to the
/// real server and what waits for it afterwards are what waited and what
/// the decoder took in.
pub proof fn lemma_decoder_event(v: FrameDecoderView, event: DecoderEvent)
    requires
        frame_decoder_inv(v),
        event matches DecoderEvent::Decode(input, _) ==> input.len() <= usize::MAX,
    ensures
        frame_decoder_inv(decoder_after(v, event)),
        event_written(v, event) + pending_data(decoder_after(v, event)) == pending_data(v)
            + event_taken(v, event),
{
    let post = decoder_after(v, event);
    match event {
        DecoderEvent::Decode(input, eos) => {
            lemma_frame_decode_step(v, input, eos);
            lemma_decode_step_appends(v, input, eos);
            assert(event_written(v, event) + pending_data(post) =~= pending_data(post));
        },
        DecoderEvent::Write(outcome) => {
            lemma_payload_steps(v.payload, Seq::empty(), false, outcome);
            lemma_write_step_takes(v.payload, v.header, outcome);
            assert(pending_data(v) + event_taken(v, event) =~= pending_data(v));
        },
        DecoderEvent::Finish => {
            lemma_payload_steps(v.payload, Seq::empty(), false, WriteOutcome::WouldBlock);
            assert(event_written(v, event) + pending_data(post) =~= pending_data(v) + event_taken(
                v,
                event,
            ));
        },
    }
}

/// Reverse-flow conservation at the decoder: over any run in which the
/// decoder is given input, writes to the real server are reported to it and
/// frames are taken out of it, what was written to the real server,
/// followed by what waits for it, is what waited at first followed by the
/// payload of the data frames that the decoder took in, in its order and
/// with the masking key taken off.  Nothing of a control frame waits for
/// the real server.
pub proof fn lemma_decoder_run(v: FrameDecoderView, events: Seq<DecoderEvent>)
    requires
        frame_decoder_inv(v),
        events_fit(events),
    ensures
        frame_decoder_inv(decoder_after_run(v, events)),
        events_written(v, events) + pending_data(decoder_after_run(v, events)) == pending_data(v)
            + events_taken(v, events),
        decoder_after_run(v, events).payload.header matches Some(header)
            && header.opcode.spec_is_control() ==> pending_data(decoder_after_run(v, events)).len()
            == 0,
    decreases events.len(),
{
    if events.len() == 0 {
        assert(events_written(v, events) + pending_data(v) =~= pending_data(v) + events_taken(
            v,
            events,
        ));
    } else {
        let before = events.drop_last();
        let last = events.last();
        assert(events_fit(before)) by {
            assert forall|i: int| 0 <= i < before.len() implies ((#[trigger] before[i])
                matches DecoderEvent::Decode(input, _) ==> input.len() <= usize::MAX) by {
                assert(before[i] == events[i]);
            }
        }
        lemma_decoder_run(v, before);
        let mid = decoder_after_run(v, before);
        assert(events[events.len() - 1] == last);
        lemma_decoder_event(mid, last);
        let post = decoder_after_run(v, events);
        assert(events_written(v, events) + pending_data(post) =~= events_written(v, before) + (
        event_written(mid, last) + pending_data(post)));
        assert(events_written(v, before) + (pending_data(mid) + event_taken(mid, last))
            =~= (events_written(v, before) + pending_data(mid)) + event_taken(mid, last));
        assert((pending_data(v) + events_taken(v, before)) + event_taken(mid, last)
            =~= pending_data(v) + (events_taken(v, before) + event_taken(mid, last)));
    }
}

/// Whether `input` goes on in `bytes` at the place `at`: as far as both
/// reach, the bytes of `input` are those of `bytes` from `at` on.  What
/// `input` holds beyond the end of `bytes` is open: it belongs to what comes
/// next.
pub open spec fn goes_on_at(bytes: Seq<u8>, at: nat, input: Seq<u8>) -> bool {
    at <= bytes.len() && forall|i: int|
        0 <= i < input.len() && at + i < bytes.len() ==> #[trigger] input[i] == bytes[at + i]
}

/// Whether `header` and `plaintext` are the header of a frame from a client
/// and its payload before the masking key is put on.
pub open spec fn is_client_frame(header: FrameHeader, plaintext: Seq<u8>) -> bool {
    &&& header.mask is Some
    &&& header.payload_len == plaintext.len()
    &&& header.payload_len <= MAX_PAYLOAD_LEN
}

/// What a part of the payload of a frame holds for the real server: the
/// bytes of a data frame from `from` to `to`, and nothing of a control
/// frame.
pub open spec fn carried_between(
    header: FrameHeader,
    plaintext: Seq<u8>,
    from: nat,
    to: nat,
) -> Seq<u8> {
    if header.opcode.spec_is_control() {
        Seq::empty()
    } else {
        plaintext.subrange(from as int, to as int)
    }
}

/// Whether the decoder `v` is reading the payload of the frame with the
/// header `header` and the payload `plaintext`: it stands in the masking
/// key where it stands in the payload, and what it holds of the payload of
/// a control frame is what it has read of it, with the masking key taken
/// off.
pub open spec fn reads_payload(v: FrameDecoderView, header: FrameHeader, plaintext: Seq<u8>) -> bool {
    &&& frame_decoder_inv(v)
    &&& is_client_frame(header, plaintext)
    &&& v.header.read.len() == 0
    &&& v.payload.header == Some(header)
    &&& v.payload.payload_offset <= plaintext.len()
    &&& v.payload.mask_offset == v.payload.payload_offset % 4
    &&& header.opcode.spec_is_control() ==> v.payload.window == plaintext.take(
        v.payload.payload_offset as int,
    )
}

/// One step on the payload of a frame: the bytes that the decoder reads,
/// with the masking key taken off, are the next bytes of the payload as it
/// was before the masking key was put on.  Those of a data frame are taken
/// in for the real server, and those of a control frame are kept.
pub proof fn lemma_payload_step_restores(
    v: FrameDecoderView,
    header: FrameHeader,
    plaintext: Seq<u8>,
    input: Seq<u8>,
    eos: bool,
)
    requires
        reads_payload(v, header, plaintext),
        input.len() <= usize::MAX,
        goes_on_at(unmask(plaintext, header.mask, 0), v.payload.payload_offset, input),
    ensures
        reads_payload(frame_decode_step(v, input, eos).0, header, plaintext),
        v.payload.payload_offset <= frame_decode_step(v, input, eos).0.payload.payload_offset,
        data_taken(v, input, eos) == carried_between(
            header,
            plaintext,
            v.payload.payload_offset,
            frame_decode_step(v, input, eos).0.payload.payload_offset,
        ),
{
    reveal(payload_decode_step);
    lemma_frame_decode_step(v, input, eos);
    let at = v.payload.payload_offset;
    let post = frame_decode_step(v, input, eos).0;
    let masked = unmask(plaintext, header.mask, 0);
    let key = header.mask->0;
    if payload_is_idle(v.payload) {
        assert(data_taken(v, input, eos) =~= carried_between(header, plaintext, at, at));
    } else {
        assert(input.skip(0) =~= input);
        let size = at_most(
            at_most(header.payload_len - at, input.len() as int),
            BUF_SIZE - v.payload.drained - v.payload.window.len(),
        );
        let fresh = unmask(input.take(size), header.mask, v.payload.mask_offset);
        assert forall|i: int| 0 <= i < size implies fresh[i] == plaintext[at + i] by {
            let x = plaintext[at + i];
            let k = key@[(at + i) % 4];
            assert(input[i] == masked[at + i]);
            assert(masked[at + i] == x ^ k);
            lemma_key_goes_round(at, i as nat);
            assert(fresh[i] == (x ^ k) ^ k);
            assert((x ^ k) ^ k == x) by (bit_vector);
        }
        assert(fresh =~= plaintext.subrange(at as int, at + size));
        lemma_key_goes_round(at, size as nat);
        assert(post.payload.window == v.payload.window + fresh);
        if header.opcode.spec_is_control() {
            assert(plaintext.take(at as int) + plaintext.subrange(at as int, at + size)
                =~= plaintext.take(at + size));
        }
    }
}

/// The header decoder reads the bytes of a header in pieces as it reads
/// them whole.  `bytes` are as many as their second byte asks for, and
/// their first byte says a known opcode.  With the first of them read, and
/// given bytes that go on in them, the decoder reads on to their end or to
/// the end of the input, whichever comes first; at their end it holds the
/// header that they spell, or answers with invalid input where they spell
/// none.
pub proof fn lemma_header_bytes_in_pieces(
    pre: HeaderDecoderView,
    bytes: Seq<u8>,
    input: Seq<u8>,
    eos: bool,
)
    requires
        pre.header is None,
        bytes.len() >= 2,
        bytes.len() == 2 + extended_size(bytes[1]),
        fixed_part(bytes[0], bytes[1]) is Some,
        pre.read.len() < bytes.len(),
        pre.read == bytes.take(pre.read.len() as int),
        goes_on_at(bytes, pre.read.len(), input),
        input.len() <= usize::MAX,
    ensures
        ({
            let k = at_most(input.len() as int, bytes.len() - pre.read.len());
            let (post, r) = header_decode_step(pre, input, eos);
            if pre.read.len() + k == bytes.len() {
                &&& post.header == parse_header(bytes)
                &&& post.read.len() == 0
                &&& r == (if parse_header(bytes) is Some {
                    Ok::<usize, CodecErrorKind>(k as usize)
                } else {
                    Err::<usize, CodecErrorKind>(CodecErrorKind::InvalidInput)
                })
            } else {
                &&& post.header is None
                &&& post.read == bytes.take(pre.read.len() + k)
                &&& r == (if eos {
                    Err::<usize, CodecErrorKind>(CodecErrorKind::UnexpectedEos)
                } else {
                    Ok::<usize, CodecErrorKind>(k as usize)
                })
            }
        }),
{
    reveal(header_decode_step);
    let p = pre.read.len() as int;
    let k = at_most(input.len() as int, bytes.len() - p);
    let n1 = if p < 2 {
        at_most(input.len() as int, 2 - p)
    } else {
        0
    };
    let read1 = pre.read + input.take(n1);
    assert(read1 =~= bytes.take(p + n1));
    if read1.len() >= 2 {
        assert(read1[0] == bytes[0] && read1[1] == bytes[1]);
        let size = extended_size(read1[1]);
        let n2 = at_most(input.len() - n1, 2 + size - read1.len());
        let read2 = read1 + input.subrange(n1, n1 + n2);
        assert(n1 + n2 == k);
        assert(read2 =~= bytes.take(p + k));
        if p + k == bytes.len() {
            assert(read2 =~= bytes);
        }
    }
}

/// The header decoder reads a header in pieces as it reads it whole: with
/// the first bytes of a header read, and given bytes that go on in it, the
/// decoder reads on to the end of the header or of the input, whichever
/// comes first, and at the end of the header holds the header that the
/// bytes spell.
pub proof fn lemma_header_in_pieces(
    pre: HeaderDecoderView,
    header: FrameHeader,
    input: Seq<u8>,
    eos: bool,
)
    requires
        pre.header is None,
        header.payload_len <= MAX_PAYLOAD_LEN,
        pre.read.len() < header_bytes(header).len(),
        pre.read == header_bytes(header).take(pre.read.len() as int),
        goes_on_at(header_bytes(header), pre.read.len(), input),
        input.len() <= usize::MAX,
    ensures
        ({
            let bytes = header_bytes(header);
            let k = at_most(input.len() as int, bytes.len() - pre.read.len());
            let (post, r) = header_decode_step(pre, input, eos);
            if pre.read.len() + k == bytes.len() {
                &&& post.header == Some(header)
                &&& post.read.len() == 0
                &&& r == Ok::<usize, CodecErrorKind>(k as usize)
            } else {
                &&& post.header is None
                &&& post.read == bytes.take(pre.read.len() + k)
                &&& r == (if eos {
                    Err::<usize, CodecErrorKind>(CodecErrorKind::UnexpectedEos)
                } else {
                    Ok::<usize, CodecErrorKind>(k as usize)
                })
            }
        }),
{
    lemma_header_bytes_len(header);
    lemma_header_begins(header);
    lemma_header_roundtrip(header);
    lemma_header_bytes_in_pieces(pre, header_bytes(header), input, eos);
}

/// The first two bytes of a header say a known opcode.
pub proof fn lemma_header_begins(header: FrameHeader)
    ensures
        fixed_part(header_bytes(header)[0], header_bytes(header)[1]) is Some,
{
    let op = header.opcode.spec_to_u8();
    assert(Opcode::spec_from_u8(op) == Some(header.opcode) && op < 16);
}

/// Where a decoder stands in the bytes of a frame: in the header as far as
/// it has read of it, and behind the header as far as it has read of the
/// payload.
pub open spec fn place_in_frame(v: FrameDecoderView, header: FrameHeader) -> nat {
    if v.payload.header is Some {
        header_bytes(header).len() + v.payload.payload_offset
    } else {
        v.header.read.len()
    }
}

/// Whether the decoder `v` is reading the frame with the header `header`
/// and the payload `plaintext`: it has read a part of the header and
/// nothing else, or it is reading the payload.
pub open spec fn reads_frame(v: FrameDecoderView, header: FrameHeader, plaintext: Seq<u8>) -> bool {
    &&& frame_decoder_inv(v)
    &&& is_client_frame(header, plaintext)
    &&& if v.payload.header is Some {
        reads_payload(v, header, plaintext)
    } else {
        &&& v.payload == payload_decoder_empty()
        &&& v.header.read.len() < header_bytes(header).len()
        &&& v.header.read == header_bytes(header).take(v.header.read.len() as int)
    }
}

/// Whether a run of events gives the decoder the bytes `wire` of the frame
/// that it is reading: every input goes on in them where the decoder has
/// come to, and the frame is not taken out.
pub open spec fn feeds_frame(
    wire: Seq<u8>,
    header: FrameHeader,
    v: FrameDecoderView,
    events: Seq<DecoderEvent>,
) -> bool
    decreases events.len(),
{
    events.len() == 0 || (feeds_frame(wire, header, v, events.drop_last())
        && match events.last() {
        DecoderEvent::Decode(input, _) => input.len() <= usize::MAX && goes_on_at(
            wire,
            place_in_frame(decoder_after_run(v, events.drop_last()), header),
            input,
        ),
        DecoderEvent::Write(_) => true,
        DecoderEvent::Finish => false,
    })
}

/// One step on the bytes of a frame from a client: the decoder goes on
/// reading the frame, in the header or in the payload, and the bytes of
/// payload that it takes in for the real server are the next bytes of the
/// payload of a data frame as it was before the masking key was put on, and
/// none of a control frame.
pub proof fn lemma_frame_step_restores(
    v: FrameDecoderView,
    header: FrameHeader,
    plaintext: Seq<u8>,
    input: Seq<u8>,
    eos: bool,
)
    requires
        reads_frame(v, header, plaintext),
        input.len() <= usize::MAX,
        goes_on_at(client_frame_bytes(header, plaintext), place_in_frame(v, header), input),
    ensures
        reads_frame(frame_decode_step(v, input, eos).0, header, plaintext),
        v.payload.payload_offset <= frame_decode_step(v, input, eos).0.payload.payload_offset
            <= plaintext.len(),
        data_taken(v, input, eos) == carried_between(
            header,
            plaintext,
            v.payload.payload_offset,
            frame_decode_step(v, input, eos).0.payload.payload_offset,
        ),
{
    let bytes = header_bytes(header);
    let masked = unmask(plaintext, header.mask, 0);
    let wire = client_frame_bytes(header, plaintext);
    let post = frame_decode_step(v, input, eos).0;
    lemma_header_bytes_len(header);
    if v.payload.header is Some {
        let at = v.payload.payload_offset;
        assert(goes_on_at(masked, at, input)) by {
            assert forall|i: int| 0 <= i < input.len() && at + i < masked.len() implies input[i]
                == masked[at + i] by {
                assert(wire[bytes.len() + at + i] == masked[at + i]);
            }
        }
        lemma_payload_step_restores(v, header, plaintext, input, eos);
    } else {
        let p = v.header.read.len();
        assert(goes_on_at(bytes, p, input)) by {
            assert forall|i: int| 0 <= i < input.len() && p + i < bytes.len() implies input[i]
                == bytes[p + i] by {
                assert(wire[p + i] == bytes[p + i]);
            }
        }
        lemma_header_in_pieces(v.header, header, input, eos);
        lemma_header_decode_step(v.header, input, eos);
        lemma_frame_decode_step(v, input, eos);
        let k = at_most(input.len() as int, bytes.len() - p);
        let (decoded, r) = header_decode_step(v.header, input, eos);
        if p + k == bytes.len() {
            let m = k as usize;
            let rest = input.skip(k);
            let start = FrameDecoderView {
                header: header_finish_step(decoded).0,
                payload: PayloadDecoderView { header: Some(header), ..payload_decoder_empty() },
            };
            assert(start.payload.window =~= plaintext.take(0));
            assert(reads_payload(start, header, plaintext));
            assert(goes_on_at(masked, 0, rest)) by {
                assert forall|i: int| 0 <= i < rest.len() && i < masked.len() implies rest[i]
                    == masked[i] by {
                    assert(rest[i] == input[k + i]);
                    assert(wire[p + k + i] == masked[i]);
                }
            }
            lemma_payload_step_restores(start, header, plaintext, rest, eos);
            assert(rest.skip(0) =~= rest);
            assert(frame_decode_step(v, input, eos) == frame_decode_payload(
                start.header,
                start.payload,
                input,
                m,
                eos,
            ));
            assert(frame_decode_step(start, rest, eos) == frame_decode_payload(
                start.header,
                start.payload,
                rest,
                0,
                eos,
            ));
            assert(frame_decode_step(start, rest, eos).0 == post);
            assert(data_taken(start, rest, eos) == data_taken(v, input, eos));
        } else {
            assert(data_taken(v, input, eos) =~= carried_between(header, plaintext, 0, 0));
        }
    }
}

/// Reverse-flow conservation and masking over one frame: while a decoder
/// that stood between two frames is given the bytes of a masked frame of
/// any length, the header and the payload in pieces of any size and with
/// writes to the real server in between, it goes on reading that frame;
/// the bytes that it takes in for the real server are the first bytes of
/// the payload of a data frame as it was before the masking key was put on,
/// as many as the decoder has read of the payload; and what was written to
/// the real server, followed by what waits for it, are these bytes.
/// Nothing of a data frame is lost, doubled or left masked, and nothing of
/// a control frame goes to the real server.
pub proof fn lemma_frame_run(
    v: FrameDecoderView,
    header: FrameHeader,
    plaintext: Seq<u8>,
    events: Seq<DecoderEvent>,
)
    requires
        frame_decoder_inv(v),
        v.header.read.len() == 0,
        v.payload == payload_decoder_empty(),
        is_client_frame(header, plaintext),
        feeds_frame(client_frame_bytes(header, plaintext), header, v, events),
    ensures
        reads_frame(decoder_after_run(v, events), header, plaintext),
        decoder_after_run(v, events).payload.payload_offset <= plaintext.len(),
        events_taken(v, events) == carried_between(
            header,
            plaintext,
            0,
            decoder_after_run(v, events).payload.payload_offset,
        ),
        events_written(v, events) + pending_data(decoder_after_run(v, events)) == carried_between(
            header,
            plaintext,
            0,
            decoder_after_run(v, events).payload.payload_offset,
        ),
    decreases events.len(),
{
    lemma_header_bytes_len(header);
    if events.len() == 0 {
        assert(v.header.read =~= header_bytes(header).take(0));
        assert(events_taken(v, events) =~= carried_between(header, plaintext, 0, 0));
        assert(events_written(v, events) + pending_data(v) =~= carried_between(
            header,
            plaintext,
            0,
            0,
        ));
    } else {
        let before = events.drop_last();
        let last = events.last();
        lemma_frame_run(v, header, plaintext, before);
        let mid = decoder_after_run(v, before);
        let post = decoder_after_run(v, events);
        let to = mid.payload.payload_offset;
        lemma_decoder_event(mid, last);
        match last {
            DecoderEvent::Decode(input, eos) => {
                lemma_frame_step_restores(mid, header, plaintext, input, eos);
                assert(carried_between(header, plaintext, 0, to) + carried_between(
                    header,
                    plaintext,
                    to,
                    post.payload.payload_offset,
                ) =~= carried_between(header, plaintext, 0, post.payload.payload_offset));
            },
            DecoderEvent::Write(outcome) => {
                assert(events_taken(v, events) =~= events_taken(v, before));
            },
            DecoderEvent::Finish => {},
        }
        let taken = carried_between(header, plaintext, 0, post.payload.payload_offset);
        assert(events_taken(v, events) == taken);
        assert(events_written(v, events) + pending_data(post) =~= events_written(v, before) + (
        event_written(mid, last) + pending_data(post)));
        assert(events_written(v, before) + (pending_data(mid) + event_taken(mid, last))
            =~= (events_written(v, before) + pending_data(mid)) + event_taken(mid, last));
    }
}

/// The end of a frame: once the decoder has read all of the payload and
/// nothing waits for the real server, the frame is complete.  Taking it out
/// gives the frame that the opcode and the payload make, with the payload
/// as it was before the masking key was put on, and leaves the decoder
/// between two frames, where the next frame begins.
pub proof fn lemma_frame_ends(v: FrameDecoderView, header: FrameHeader, plaintext: Seq<u8>)
    requires
        reads_payload(v, header, plaintext),
        v.payload.payload_offset == plaintext.len(),
        pending_data(v).len() == 0,
    ensures
        payload_is_idle(v.payload),
        payload_finish_step(v.payload).1 == frame_of(header.opcode, plaintext),
        frame_decoder_inv(decoder_after(v, DecoderEvent::Finish)),
        decoder_after(v, DecoderEvent::Finish).header.read.len() == 0,
        decoder_after(v, DecoderEvent::Finish).payload == payload_decoder_empty(),
{
    lemma_decoder_event(v, DecoderEvent::Finish);
    assert(plaintext.take(plaintext.len() as int) =~= plaintext);
}

/// What a row of frames holds for the real server: the payloads of its data
/// frames, one after the other.
pub open spec fn payloads_of(frames: Seq<(FrameHeader, Seq<u8>)>) -> Seq<u8>
    decreases frames.len(),
{
    if frames.len() == 0 {
        Seq::empty()
    } else {
        payloads_of(frames.drop_last()) + carried_between(
            frames.last().0,
            frames.last().1,
            0,
            frames.last().1.len(),
        )
    }
}

/// The decoder after a row of frames, each of which its run of events has
/// given to the decoder before it was taken out.
pub open spec fn decoder_after_frames(
    v: FrameDecoderView,
    runs: Seq<Seq<DecoderEvent>>,
) -> FrameDecoderView
    decreases runs.len(),
{
    if runs.len() == 0 {
        v
    } else {
        decoder_after(
            decoder_after_run(decoder_after_frames(v, runs.drop_last()), runs.last()),
            DecoderEvent::Finish,
        )
    }
}

/// The bytes that the runs of events of a row of frames write to the real
/// server.
pub open spec fn frames_written(v: FrameDecoderView, runs: Seq<Seq<DecoderEvent>>) -> Seq<u8>
    decreases runs.len(),
{
    if runs.len() == 0 {
        Seq::empty()
    } else {
        frames_written(v, runs.drop_last()) + events_written(
            decoder_after_frames(v, runs.drop_last()),
            runs.last(),
        )
    }
}

/// Whether each run of events gives the decoder its frame and goes on until
/// all of the payload has been read and nothing waits for the real server.
pub open spec fn frames_fed(
    v: FrameDecoderView,
    frames: Seq<(FrameHeader, Seq<u8>)>,
    runs: Seq<Seq<DecoderEvent>>,
) -> bool
    decreases frames.len(),
{
    if frames.len() == 0 {
        runs.len() == 0
    } else {
        let (header, plaintext) = frames.last();
        let before = decoder_after_frames(v, runs.drop_last());
        let after = decoder_after_run(before, runs.last());
        &&& runs.len() == frames.len()
        &&& frames_fed(v, frames.drop_last(), runs.drop_last())
        &&& is_client_frame(header, plaintext)
        &&& feeds_frame(client_frame_bytes(header, plaintext), header, before, runs.last())
        &&& after.payload.header is Some
        &&& after.payload.payload_offset == plaintext.len()
        &&& pending_data(after).len() == 0
    }
}

/// Reverse-flow conservation over a row of frames: where a decoder that has
/// read nothing of a frame is given masked frames of any lengths one after
/// the other, each in pieces of any size and with writes to the real server
/// in between, and each is taken out once all of its payload has been read
/// and nothing waits for the real server, the bytes written to the real
/// server are the payloads of the data frames as they were before the
/// masking key was put on, one after the other, in their order.  The
/// payload of a control frame is not among them.
pub proof fn lemma_frames_run(
    v: FrameDecoderView,
    frames: Seq<(FrameHeader, Seq<u8>)>,
    runs: Seq<Seq<DecoderEvent>>,
)
    requires
        frame_decoder_inv(v),
        v.header.read.len() == 0,
        v.payload == payload_decoder_empty(),
        frames_fed(v, frames, runs),
    ensures
        frames_written(v, runs) == payloads_of(frames),
        frame_decoder_inv(decoder_after_frames(v, runs)),
        decoder_after_frames(v, runs).header.read.len() == 0,
        decoder_after_frames(v, runs).payload == payload_decoder_empty(),
    decreases frames.len(),
{
    if frames.len() > 0 {
        let (header, plaintext) = frames.last();
        lemma_frames_run(v, frames.drop_last(), runs.drop_last());
        let before = decoder_after_frames(v, runs.drop_last());
        lemma_frame_run(before, header, plaintext, runs.last());
        let after = decoder_after_run(before, runs.last());
        assert(events_written(before, runs.last()) =~= carried_between(
            header,
            plaintext,
            0,
            plaintext.len(),
        ));
        lemma_frame_ends(after, header, plaintext);
    }
}

} // verus!
