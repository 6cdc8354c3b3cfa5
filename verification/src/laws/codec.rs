//! What holds of the frame codecs whatever the input.
use crate::decoder::{
    data_is_empty, frame_decode_payload, frame_decode_step, frame_decoder_inv, frame_of,
    payload_decode_step, payload_decoder_empty, payload_decoder_inv, payload_finish_step,
    payload_is_idle, unmask, write_decoded_step, FrameDecoderView, PayloadDecoderView,
};
use crate::error::CodecErrorKind;
use crate::frame::{
    control_payload, frame_opcode, plain_header, start_data_step, FrameView, BUF_SIZE,
};
use crate::header::{
    at_most, header_decode_step, header_finish_step, lemma_header_decode_step, HeaderDecoderView,
};
use crate::io::{ReadEvent, WriteOutcome};
use crate::opcode::Opcode;
use crate::wire::{
    extended_size, header_bytes, lemma_header_bytes_len, lemma_header_roundtrip,
    lemma_u16_be_roundtrip, parse_header, u16_from_be, u16_to_be, FrameHeader, MAX_PAYLOAD_LEN,
};
use vstd::prelude::*;

verus! {

/// Frame header round trip through the decoder: a decoder that has no
/// header under way reads the bytes of a header to their end, whatever
/// follows them, and then holds a header with the same flags, opcode,
/// masking key and payload length.  The payload length is one that a header
/// can announce.
pub proof fn lemma_header_decoder_roundtrip(
    pre: HeaderDecoderView,
    header: FrameHeader,
    rest: Seq<u8>,
    eos: bool,
)
    requires
        pre.header is None,
        pre.read.len() == 0,
        header.payload_len <= MAX_PAYLOAD_LEN,
    ensures
        header_decode_step(pre, header_bytes(header) + rest, eos).1 == Ok::<
            usize,
            CodecErrorKind,
        >(header_bytes(header).len() as usize),
        header_decode_step(pre, header_bytes(header) + rest, eos).0.header == Some(header),
        header_decode_step(pre, header_bytes(header) + rest, eos).0.read.len() == 0,
{
    reveal(header_decode_step);
    let bytes = header_bytes(header);
    let input = bytes + rest;
    lemma_header_bytes_len(header);
    lemma_header_roundtrip(header);
    let read1 = pre.read + input.take(2);
    assert(read1 =~= bytes.take(2));
    assert(read1[0] == bytes[0] && read1[1] == bytes[1]);
    let size = extended_size(read1[1]);
    let n2 = at_most(input.len() - 2, 2 + size - read1.len());
    assert(n2 == size);
    let read2 = read1 + input.subrange(2, 2 + n2);
    assert(read2 =~= bytes);
}

/// Masking involution, byte by byte: applying the same key at the same
/// place twice gives the bytes back.
pub proof fn lemma_unmask_involution(data: Seq<u8>, key: [u8; 4], offset: nat)
    ensures
        unmask(unmask(data, Some(key), offset), Some(key), offset) == data,
{
    let once = unmask(data, Some(key), offset);
    let twice = unmask(once, Some(key), offset);
    assert forall|i: int| 0 <= i < data.len() implies twice[i] == data[i] by {
        let x = data[i];
        let k = key@[(offset + i) % 4];
        assert((x ^ k) ^ k == x) by (bit_vector);
    }
    assert(twice =~= data);
}

/// The bytes of a frame as a client sends it: the header, then the payload
/// with the masking key of the header put on.
pub open spec fn client_frame_bytes(header: FrameHeader, payload: Seq<u8>) -> Seq<u8> {
    header_bytes(header) + unmask(payload, header.mask, 0)
}

/// The decoder restores what a frame carries: a decoder between two frames
/// that is given the bytes of a masked frame, whose payload fits its buffer,
/// reads
/// all of them and then holds the header and the payload as they were before
/// the masking key was put on.
pub proof fn lemma_frame_decodes(pre: FrameDecoderView, header: FrameHeader, payload: Seq<u8>)
    requires
        pre.header.header is None,
        pre.header.read.len() == 0,
        pre.payload == payload_decoder_empty(),
        header.payload_len == payload.len(),
        payload.len() <= BUF_SIZE,
        header.mask is Some,
    ensures
        frame_decode_step(pre, client_frame_bytes(header, payload), false).1 == Ok::<
            usize,
            CodecErrorKind,
        >(client_frame_bytes(header, payload).len() as usize),
        frame_decode_step(pre, client_frame_bytes(header, payload), false).0.payload.header
            == Some(header),
        frame_decode_step(pre, client_frame_bytes(header, payload), false).0.payload.window
            == payload,
        frame_decode_step(pre, client_frame_bytes(header, payload), false).0.payload.payload_offset
            == payload.len(),
        frame_decode_step(pre, client_frame_bytes(header, payload), false).0.payload.drained == 0,
{
    reveal(payload_decode_step);
    let masked = unmask(payload, header.mask, 0);
    let input = client_frame_bytes(header, payload);
    lemma_header_decoder_roundtrip(pre.header, header, masked, false);
    lemma_header_bytes_len(header);
    let n = header_bytes(header).len() as usize;
    let (decoded, r) = header_decode_step(pre.header, input, false);
    let start = PayloadDecoderView { header: Some(header), ..payload_decoder_empty() };
    let (post, result) = frame_decode_payload(header_finish_step(decoded).0, start, input, n, false);
    assert(frame_decode_step(pre, input, false) == (post, result));
    assert(input.skip(n as int) =~= masked);
    if payload_is_idle(start) {
        assert(payload.len() == 0);
        assert(start.window =~= payload);
    } else {
        let size = at_most(
            at_most(header.payload_len - 0, masked.len() as int),
            BUF_SIZE - 0 - start.window.len(),
        );
        assert(size == payload.len());
        assert(masked.take(size) =~= masked);
        match header.mask {
            Some(key) => {
                lemma_unmask_involution(payload, key, 0);
            },
            None => {},
        }
        assert(start.window + unmask(masked, header.mask, 0) =~= payload);
    }
}

/// Masking involution: what the decoder hands out for a masked Close, Ping
/// or Pong from a client is the frame with its payload as it was before the
/// masking key was put on.
pub proof fn lemma_masked_control_frame(
    pre: FrameDecoderView,
    fin_flag: bool,
    opcode: Opcode,
    key: [u8; 4],
    plaintext: Seq<u8>,
)
    requires
        pre.header.header is None,
        pre.header.read.len() == 0,
        pre.payload == payload_decoder_empty(),
        opcode.spec_is_control(),
        plaintext.len() <= BUF_SIZE,
    ensures
        ({
            let header = FrameHeader {
                fin_flag,
                opcode,
                mask: Some(key),
                payload_len: plaintext.len() as u64,
            };
            let post = frame_decode_step(pre, client_frame_bytes(header, plaintext), false).0;
            &&& payload_is_idle(post.payload)
            &&& payload_finish_step(post.payload).1 == frame_of(opcode, plaintext)
            &&& payload_finish_step(post.payload).0 == payload_decoder_empty()
        }),
{
    let header = FrameHeader { fin_flag, opcode, mask: Some(key), payload_len: plaintext.len() as u64 };
    lemma_frame_decodes(pre, header, plaintext);
}

/// A Close, a Ping or a Pong is what its payload says: the decoder reads
/// back from the payload of a control frame the frame that the encoder made
/// the payload of.
pub proof fn lemma_control_payload_roundtrip(frame: FrameView)
    requires
        !(frame is Data),
    ensures
        frame_of(frame_opcode(frame), control_payload(frame)) == Ok::<
            FrameView,
            CodecErrorKind,
        >(frame),
{
    match frame {
        FrameView::ConnectionClose { code, reason } => {
            let payload = u16_to_be(code) + reason;
            lemma_u16_be_roundtrip(code);
            assert(u16_from_be(payload) == u16_from_be(u16_to_be(code)));
            assert(payload.skip(2) =~= reason);
        },
        _ => {},
    }
}

/// Flow conservation for one read: the frame that the encoder makes of the
/// bytes of one read from the real server carries exactly these bytes, in
/// their order.  Its bytes are a header and, behind it, the bytes that were
/// read; and the header spells a final, unmasked binary frame of as many
/// bytes of payload.
pub proof fn lemma_data_frame_carries(data: Seq<u8>)
    requires
        0 < data.len() <= BUF_SIZE,
    ensures
        start_data_step(Seq::empty(), ReadEvent::Data(data)).0 == header_bytes(
            plain_header(Opcode::BinaryFrame, data.len()),
        ) + data,
        parse_header(header_bytes(plain_header(Opcode::BinaryFrame, data.len()))) == Some(
            FrameHeader {
                fin_flag: true,
                opcode: Opcode::BinaryFrame,
                mask: None,
                payload_len: data.len() as u64,
            },
        ),
{
    lemma_header_roundtrip(plain_header(Opcode::BinaryFrame, data.len()));
}

/// A frame from a client is masked: a decoder between two frames that is
/// given a header without a masking key, whatever follows it, answers with
/// invalid input, takes no payload, and offers nothing to the real server.
pub proof fn lemma_unmasked_frame_refused(
    pre: FrameDecoderView,
    header: FrameHeader,
    rest: Seq<u8>,
    eos: bool,
)
    requires
        pre.header.header is None,
        pre.header.read.len() == 0,
        pre.payload == payload_decoder_empty(),
        header.payload_len <= MAX_PAYLOAD_LEN,
        header.mask is None,
    ensures
        frame_decode_step(pre, header_bytes(header) + rest, eos).1 == Err::<
            usize,
            CodecErrorKind,
        >(CodecErrorKind::InvalidInput),
        frame_decode_step(pre, header_bytes(header) + rest, eos).0.payload
            == payload_decoder_empty(),
        data_is_empty(frame_decode_step(pre, header_bytes(header) + rest, eos).0.payload),
{
    lemma_header_decoder_roundtrip(pre.header, header, rest, eos);
}

/// Taking a masking key off a payload piece by piece gives the same as
/// taking it off the whole: the second piece goes on where the first
/// ended in the key.
pub proof fn lemma_unmask_pieces(a: Seq<u8>, b: Seq<u8>, mask: Option<[u8; 4]>, offset: nat)
    ensures
        unmask(a + b, mask, offset) == unmask(a, mask, offset) + unmask(
            b,
            mask,
            ((offset + a.len()) % 4) as nat,
        ),
{
    match mask {
        None => {},
        Some(key) => {
            let whole = unmask(a + b, mask, offset);
            let first = unmask(a, mask, offset);
            let second = unmask(b, mask, ((offset + a.len()) % 4) as nat);
            assert forall|i: int| 0 <= i < whole.len() implies whole[i] == (first + second)[i] by {
                if i >= a.len() {
                    let j = i - a.len();
                    assert((a + b)[i] == b[j]);
                    assert((((offset + a.len()) % 4) + j) % 4 == (offset + i) % 4);
                }
            }
            assert(whole =~= first + second);
        },
    }
}

/// Going on in the masking key by `x` and then by `y` bytes is going on by
/// `x + y` bytes.
pub proof fn lemma_key_goes_round(x: nat, y: nat)
    ensures
        ((x % 4) + y) % 4 == (x + y) % 4,
{
}

/// Reverse-flow conservation while a payload is read: whether the bytes of
/// a payload come to the decoder at once or in two pieces, the decoder
/// holds the same bytes in the same order afterwards.
pub proof fn lemma_decode_in_pieces(pre: PayloadDecoderView, a: Seq<u8>, b: Seq<u8>)
    requires
        pre.header matches Some(header) && pre.payload_offset + a.len() + b.len()
            <= header.payload_len,
        pre.drained + pre.window.len() + a.len() + b.len() <= BUF_SIZE,
        pre.mask_offset < 4,
    ensures
        payload_decode_step(payload_decode_step(pre, a, false).0, b, false).0
            == payload_decode_step(pre, a + b, false).0,
{
    reveal(payload_decode_step);
    let header = pre.header->0;
    let mid = payload_decode_step(pre, a, false).0;
    let two = payload_decode_step(mid, b, false).0;
    let one = payload_decode_step(pre, a + b, false).0;
    assert(a.take(a.len() as int) =~= a);
    assert(b.take(b.len() as int) =~= b);
    assert((a + b).take((a + b).len() as int) =~= a + b);
    assert(mid.window == pre.window + unmask(a, header.mask, pre.mask_offset));
    assert(one.window == pre.window + unmask(a + b, header.mask, pre.mask_offset));
    assert(two.window == mid.window + unmask(b, header.mask, mid.mask_offset));
    lemma_unmask_pieces(a, b, header.mask, pre.mask_offset);
    lemma_key_goes_round(pre.mask_offset + a.len(), b.len());
    assert(unmask(b, header.mask, mid.mask_offset) == unmask(
        b,
        header.mask,
        ((pre.mask_offset + a.len()) % 4) as nat,
    )) by {
        if header.mask is None {
        }
    }
    assert(two.window =~= one.window);
    assert(two.mask_offset == one.mask_offset);
    assert(two.payload_offset == one.payload_offset);
}

/// Pieces of bytes, one after the other.
pub open spec fn joined(pieces: Seq<Seq<u8>>) -> Seq<u8>
    decreases pieces.len(),
{
    if pieces.len() == 0 {
        Seq::empty()
    } else {
        joined(pieces.drop_last()) + pieces.last()
    }
}

/// The payload decoder after it was given pieces of input in turn, on a
/// stream that has not ended.
pub open spec fn payload_decode_run(
    pre: PayloadDecoderView,
    pieces: Seq<Seq<u8>>,
) -> PayloadDecoderView
    decreases pieces.len(),
{
    if pieces.len() == 0 {
        pre
    } else {
        payload_decode_step(payload_decode_run(pre, pieces.drop_last()), pieces.last(), false).0
    }
}

/// Into however many pieces the bytes of a payload are cut, and wherever,
/// the decoder holds afterwards what it holds after it was given them at
/// once: the index into the masking key goes on from piece to piece.  The
/// bytes are not more than is left of the payload and than the buffer takes.
pub proof fn lemma_decode_in_any_pieces(pre: PayloadDecoderView, pieces: Seq<Seq<u8>>)
    requires
        pre.header matches Some(header) && pre.payload_offset + joined(pieces).len()
            <= header.payload_len,
        pre.drained + pre.window.len() + joined(pieces).len() <= BUF_SIZE,
        pre.mask_offset < 4,
    ensures
        payload_decode_run(pre, pieces) == payload_decode_step(pre, joined(pieces), false).0,
    decreases pieces.len(),
{
    if pieces.len() == 0 {
        reveal(payload_decode_step);
        let header = pre.header->0;
        let none = Seq::<u8>::empty();
        assert(none.take(0) =~= none);
        assert(pre.window + unmask(none, header.mask, pre.mask_offset) =~= pre.window);
    } else {
        let before = pieces.drop_last();
        lemma_decode_in_any_pieces(pre, before);
        lemma_decode_in_pieces(pre, joined(before), pieces.last());
    }
}

/// Masking involution for a payload that comes in pieces: a payload decoder
/// that has the header of a masked frame and nothing of its payload, and is
/// given the masked payload cut into pieces anywhere, holds the payload as it
/// was before the masking key was put on, all of it, and stands in the key
/// where the payload ended.
pub proof fn lemma_masked_payload_in_pieces(
    header: FrameHeader,
    key: [u8; 4],
    plaintext: Seq<u8>,
    pieces: Seq<Seq<u8>>,
)
    requires
        header.mask == Some(key),
        header.payload_len == plaintext.len(),
        plaintext.len() <= BUF_SIZE,
        joined(pieces) == unmask(plaintext, Some(key), 0),
    ensures
        payload_decode_run(
            PayloadDecoderView { header: Some(header), ..payload_decoder_empty() },
            pieces,
        ) == (PayloadDecoderView {
            header: Some(header),
            window: plaintext,
            drained: 0,
            payload_offset: plaintext.len(),
            mask_offset: plaintext.len() % 4,
        }),
{
    reveal(payload_decode_step);
    let start = PayloadDecoderView { header: Some(header), ..payload_decoder_empty() };
    let masked = joined(pieces);
    lemma_decode_in_any_pieces(start, pieces);
    lemma_unmask_involution(plaintext, key, 0);
    assert(masked.take(masked.len() as int) =~= masked);
    let post = payload_decode_step(start, masked, false).0;
    assert(post.window =~= plaintext);
}

/// The payload of a data frame that waits to be written to the real
/// server.
pub open spec fn pending_data(v: FrameDecoderView) -> Seq<u8> {
    if data_is_empty(v.payload) {
        Seq::empty()
    } else {
        v.payload.window
    }
}

/// The bytes of payload that the payload decoder takes from `input` in one
/// step, with the masking key taken off.
pub open spec fn payload_taken(pre: PayloadDecoderView, input: Seq<u8>) -> Seq<u8> {
    match pre.header {
        None => Seq::empty(),
        Some(header) => unmask(
            input.take(
                at_most(
                    at_most(header.payload_len - pre.payload_offset, input.len() as int),
                    BUF_SIZE - pre.drained - pre.window.len(),
                ),
            ),
            header.mask,
            pre.mask_offset,
        ),
    }
}

/// The bytes of payload of a data frame that the frame decoder takes from
/// `input` in one step, with the masking key taken off: what the payload
/// decoder takes once the header of a masked text, binary or continuation
/// frame is complete.
pub open spec fn data_taken(pre: FrameDecoderView, input: Seq<u8>, eos: bool) -> Seq<u8> {
    if pre.payload.header is Some {
        if payload_is_idle(pre.payload) || pre.payload.header->0.opcode.spec_is_control() {
            Seq::empty()
        } else {
            payload_taken(pre.payload, input)
        }
    } else {
        let (header, r) = header_decode_step(pre.header, input, eos);
        match (r, header.header) {
            (Ok(n), Some(h)) => {
                let start = PayloadDecoderView { header: Some(h), ..payload_decoder_empty() };
                if h.mask is None || payload_is_idle(start) || h.opcode.spec_is_control() {
                    Seq::empty()
                } else {
                    payload_taken(start, input.skip(n as int))
                }
            },
            _ => Seq::empty(),
        }
    }
}

/// Reverse-flow conservation in the decoder: one step of the decoder puts
/// the bytes of payload of a data frame that it takes behind those that
/// wait for the real server, and changes nothing else of what waits.
pub proof fn lemma_decode_step_appends(pre: FrameDecoderView, input: Seq<u8>, eos: bool)
    requires
        frame_decoder_inv(pre),
        input.len() <= usize::MAX,
    ensures
        pending_data(frame_decode_step(pre, input, eos).0) == pending_data(pre) + data_taken(
            pre,
            input,
            eos,
        ),
        payload_is_idle(frame_decode_step(pre, input, eos).0.payload) ==> pending_data(
            frame_decode_step(pre, input, eos).0,
        ).len() == 0,
{
    reveal(payload_decode_step);
    lemma_header_decode_step(pre.header, input, eos);
    let post = frame_decode_step(pre, input, eos).0;
    assert(pending_data(post) =~= pending_data(pre) + data_taken(pre, input, eos));
}

/// Reverse-flow conservation when bytes go to the real server: what a
/// write took are the first bytes of those that waited, and the rest wait
/// on in their order.
pub open spec fn write_taken(pre: FrameDecoderView, outcome: WriteOutcome) -> Seq<u8> {
    match outcome {
        WriteOutcome::Written(n) => if 0 < n <= pending_data(pre).len() {
            pending_data(pre).take(n as int)
        } else {
            Seq::empty()
        },
        _ => Seq::empty(),
    }
}

/// What a write to the real server took and what waits on are what
/// waited.
pub proof fn lemma_write_step_takes(pre: PayloadDecoderView, header: HeaderDecoderView, outcome: WriteOutcome)
    requires
        payload_decoder_inv(pre),
    ensures
        write_taken(FrameDecoderView { header, payload: pre }, outcome) + pending_data(
            FrameDecoderView { header, payload: write_decoded_step(pre, outcome).0 },
        ) == pending_data(FrameDecoderView { header, payload: pre }),
{
    let v = FrameDecoderView { header, payload: pre };
    let post = FrameDecoderView { header, payload: write_decoded_step(pre, outcome).0 };
    match outcome {
        WriteOutcome::Written(n) => {
            if 0 < n <= pending_data(v).len() {
                assert(pending_data(v) =~= pending_data(v).take(n as int) + pending_data(v).skip(
                    n as int,
                ));
            }
        },
        _ => {},
    }
    assert(write_taken(v, outcome) + pending_data(post) =~= pending_data(v));
}

} // verus!
