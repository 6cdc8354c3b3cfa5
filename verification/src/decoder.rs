//! Decoder of the frames that come from the client.
use crate::error::{CodecErrorKind, Error, ErrorKind};
use crate::frame::{ByteCount, Frame, FrameView, BUF_SIZE};
use crate::header::{
    at_most, header_decode_step, header_decoder_inv, header_finish_step,
    lemma_header_decode_step, FrameHeaderDecoder, HeaderDecoderView,
};
use crate::io::{StreamState, WriteOutcome};
use crate::opcode::Opcode;
use crate::wire::{read_u16_be, u16_from_be, FrameHeader};
use vstd::prelude::*;

verus! {

/// The payload bytes `data` with the masking key taken off, the first of
/// them standing at `offset` in the payload: each byte is combined by
/// exclusive or with the byte of the key whose turn it is.  Without a key
/// the bytes are as they are.
pub open spec fn unmask(data: Seq<u8>, mask: Option<[u8; 4]>, offset: nat) -> Seq<u8> {
    match mask {
        None => data,
        Some(key) => Seq::new(data.len(), |i: int| data[i] ^ key@[(offset + i) % 4]),
    }
}

/// A payload decoder as contracts see it.
pub ghost struct PayloadDecoderView {
    /// The header of the frame whose payload is being read.
    pub header: Option<FrameHeader>,
    /// The bytes of the payload that were read and not yet handed on.
    pub window: Seq<u8>,
    /// How many bytes of the buffer lie before the window, handed on
    /// already.
    pub drained: nat,
    /// How many bytes of the payload have been read.
    pub payload_offset: nat,
    /// Which byte of the masking key comes next.
    pub mask_offset: nat,
}

/// The state in which a payload decoder waits for a header.
pub open spec fn payload_decoder_empty() -> PayloadDecoderView {
    PayloadDecoderView {
        header: None,
        window: Seq::empty(),
        drained: 0,
        payload_offset: 0,
        mask_offset: 0,
    }
}

/// Whether the frame is complete and can be taken: all of its payload has
/// been read and, for a data frame, handed on.
pub open spec fn payload_is_idle(v: PayloadDecoderView) -> bool {
    match v.header {
        Some(header) => header.payload_len == v.payload_offset && (header.opcode.spec_is_control()
            || v.window.len() == 0),
        None => false,
    }
}

/// Whether there is no payload of a data frame to hand on.
pub open spec fn data_is_empty(v: PayloadDecoderView) -> bool {
    match v.header {
        Some(header) => header.opcode.spec_is_control() || v.window.len() == 0,
        None => true,
    }
}

/// What the payload decoder makes of the input `input`: its state
/// afterwards, and either the number of bytes that it read or the reason of
/// its failure.  It reads what is left of the payload, as far as the input
/// and the free end of its buffer reach, and takes the masking key off.
/// Where the stream has ended with the payload incomplete, the end is
/// unexpected.
#[verifier::opaque]
pub open spec fn payload_decode_step(pre: PayloadDecoderView, input: Seq<u8>, eos: bool) -> (
    PayloadDecoderView,
    Result<usize, CodecErrorKind>,
) {
    match pre.header {
        None => (pre, Ok(0)),
        Some(header) => {
            let size = at_most(
                at_most(header.payload_len - pre.payload_offset, input.len() as int),
                BUF_SIZE - pre.drained - pre.window.len(),
            );
            let post = PayloadDecoderView {
                header: pre.header,
                window: pre.window + unmask(input.take(size), header.mask, pre.mask_offset),
                drained: pre.drained,
                payload_offset: (pre.payload_offset + size) as nat,
                mask_offset: if header.mask is Some {
                    ((pre.mask_offset + size) % 4) as nat
                } else {
                    pre.mask_offset
                },
            };
            (
                post,
                if post.payload_offset != header.payload_len && eos {
                    Err(CodecErrorKind::UnexpectedEos)
                } else {
                    Ok(size as usize)
                },
            )
        },
    }
}

/// What holds of a payload decoder at any time: the window lies inside the
/// buffer and starts over at its beginning once it is empty; no more of a
/// payload is read than its header announced; nothing of a control frame is
/// handed on; and without a header nothing is held.
pub open spec fn payload_decoder_inv(v: PayloadDecoderView) -> bool {
    &&& v.drained + v.window.len() <= BUF_SIZE
    &&& v.window.len() == 0 ==> v.drained == 0
    &&& v.mask_offset < 4
    &&& v.header matches Some(header) ==> v.payload_offset <= header.payload_len && (
    header.opcode.spec_is_control() ==> v.drained == 0)
    &&& v.header is None ==> v == payload_decoder_empty()
}

/// The payload decoder keeps its invariant in every step, and reads no more
/// bytes than it is given.
pub proof fn lemma_payload_steps(pre: PayloadDecoderView, input: Seq<u8>, eos: bool, outcome: WriteOutcome)
    requires
        payload_decoder_inv(pre),
        input.len() <= usize::MAX,
    ensures
        payload_decoder_inv(payload_decode_step(pre, input, eos).0),
        payload_decode_step(pre, input, eos).1 matches Ok(n) ==> n <= input.len(),
        payload_decode_step(pre, input, eos).0.header == pre.header,
        payload_decoder_inv(payload_finish_step(pre).0),
        payload_decoder_inv(write_decoded_step(pre, outcome).0),
        write_decoded_step(pre, outcome).0.header == pre.header,
        write_decoded_step(pre, outcome).0.payload_offset == pre.payload_offset,
{
    reveal(payload_decode_step);
}

/// The frame that a complete payload makes under the opcode `opcode`: a
/// Close with the status code that the first two bytes spell and the rest as
/// its reason, a Ping or a Pong with the payload as its data, and for every
/// other opcode the mark of a data frame.  A Close of less than two bytes is
/// invalid input.
pub open spec fn frame_of(opcode: Opcode, payload: Seq<u8>) -> Result<FrameView, CodecErrorKind> {
    match opcode {
        Opcode::ConnectionClose => if payload.len() < 2 {
            Err(CodecErrorKind::InvalidInput)
        } else {
            Ok(FrameView::ConnectionClose { code: u16_from_be(payload), reason: payload.skip(2) })
        },
        Opcode::Ping => Ok(FrameView::Ping { data: payload }),
        Opcode::Pong => Ok(FrameView::Pong { data: payload }),
        _ => Ok(FrameView::Data),
    }
}

/// What taking the frame out of the decoder gives: the decoder afterwards,
/// and the frame.  A frame that is incomplete cannot be taken, and the
/// decoder keeps it; any other frame leaves the decoder, also where it is
/// invalid.
pub open spec fn payload_finish_step(pre: PayloadDecoderView) -> (
    PayloadDecoderView,
    Result<FrameView, CodecErrorKind>,
) {
    if !payload_is_idle(pre) {
        (pre, Err(CodecErrorKind::IncompleteDecoding))
    } else {
        (payload_decoder_empty(), frame_of(pre.header->0.opcode, pre.window))
    }
}

/// What `FrameDecoder::write_decoded_data` makes of one write to the real
/// server: the decoder afterwards, and the answer.  Where there is nothing
/// to hand on, no write is looked at; more bytes than were offered cannot
/// have been written and count as a failed write.
pub open spec fn write_decoded_step(pre: PayloadDecoderView, outcome: WriteOutcome) -> (
    PayloadDecoderView,
    Result<StreamState, Error>,
) {
    if data_is_empty(pre) {
        (pre, Ok(StreamState::Normal))
    } else {
        match outcome {
            WriteOutcome::WouldBlock => (pre, Ok(StreamState::WouldBlock)),
            WriteOutcome::Failed => (pre, Err(Error { kind: ErrorKind::Other })),
            WriteOutcome::Written(n) => if n == 0 {
                (pre, Ok(StreamState::Eos))
            } else if n > pre.window.len() {
                (pre, Err(Error { kind: ErrorKind::Other }))
            } else {
                (
                    PayloadDecoderView {
                        window: pre.window.skip(n as int),
                        drained: if n == pre.window.len() {
                            0nat
                        } else {
                            (pre.drained + n) as nat
                        },
                        ..pre
                    },
                    Ok(StreamState::Normal),
                )
            },
        }
    }
}

/// Decoder of frame payloads.
#[derive(Debug)]
pub struct FramePayloadDecoder {
    buf: Vec<u8>,
    buf_start: usize,
    buf_end: usize,
    payload_offset: u64,
    mask_offset: usize,
    header: Option<FrameHeader>,
}

impl View for FramePayloadDecoder {
    type V = PayloadDecoderView;

    closed spec fn view(&self) -> PayloadDecoderView {
        PayloadDecoderView {
            header: self.header,
            window: self.buf@.subrange(self.buf_start as int, self.buf_end as int),
            drained: self.buf_start as nat,
            payload_offset: self.payload_offset as nat,
            mask_offset: self.mask_offset as nat,
        }
    }
}

impl FramePayloadDecoder {
    /// The window lies inside the buffer and starts over at its beginning
    /// once it is empty; no more of a payload is read than its header
    /// announced; nothing of a control frame is handed on; and without a
    /// header nothing is held.
    pub closed spec fn wf(&self) -> bool {
        &&& self.buf@.len() == BUF_SIZE
        &&& self.buf_start <= self.buf_end <= BUF_SIZE
        &&& self.buf_start == self.buf_end ==> self.buf_end == 0
        &&& self.mask_offset < 4
        &&& match self.header {
            Some(header) => self.payload_offset <= header.payload_len && (
            header.opcode.spec_is_control() ==> self.buf_start == 0),
            None => self.buf_end == 0 && self.payload_offset == 0 && self.mask_offset == 0,
        }
    }

    /// A well-formed decoder keeps the invariant of its view.
    pub proof fn lemma_wf(&self)
        requires
            self.wf(),
        ensures
            payload_decoder_inv(self@),
    {
        if self.header is None {
            assert(self@.window =~= Seq::<u8>::empty());
        }
    }

    /// Makes a decoder that waits for a header.
    pub fn new() -> (decoder: FramePayloadDecoder)
        ensures
            decoder.wf(),
            decoder@ == payload_decoder_empty(),
    {
        let decoder = FramePayloadDecoder {
            buf: vec![0u8; BUF_SIZE],
            buf_start: 0,
            buf_end: 0,
            payload_offset: 0,
            mask_offset: 0,
            header: None,
        };
        assert(decoder@.window =~= Seq::<u8>::empty());
        decoder
    }

    /// Gives the decoder the header of the frame whose payload comes next.
    pub fn start(&mut self, header: FrameHeader)
        requires
            old(self).wf(),
            old(self)@.header is None,
        ensures
            final(self).wf(),
            final(self)@ == (PayloadDecoderView { header: Some(header), ..payload_decoder_empty() }),
    {
        self.header = Some(header);
        assert(self@.window =~= Seq::<u8>::empty());
    }

    /// Reads on in the payload.
    pub fn decode(&mut self, buf: &[u8], eos: bool) -> (r: Result<usize, CodecErrorKind>)
        requires
            old(self).wf(),
        ensures
            final(self).wf(),
            final(self)@ == payload_decode_step(old(self)@, buf@, eos).0,
            r == payload_decode_step(old(self)@, buf@, eos).1,
            r matches Ok(n) ==> n <= buf@.len(),
    {
        proof {
            reveal(payload_decode_step);
        }
        let header = match self.header {
            Some(header) => header,
            None => {
                return Ok(0);
            },
        };
        let left: u64 = header.payload_len - self.payload_offset;
        let mut size: usize = buf.len();
        if left < size as u64 {
            size = left as usize;
        }
        let free = self.buf.len() - self.buf_end;
        if free < size {
            size = free;
        }
        let ghost pre = self@;
        let ghost before = self.buf@;
        let start = self.buf_end;
        let first = self.mask_offset;
        let mut i: usize = 0;
        while i < size
            invariant
                i <= size <= buf@.len(),
                start + size <= BUF_SIZE,
                self.buf@.len() == BUF_SIZE,
                self.buf_start == old(self).buf_start,
                self.buf_end == start,
                self.payload_offset == old(self).payload_offset,
                self.header == Some(header),
                first < 4,
                self.mask_offset < 4,
                header.mask is Some ==> self.mask_offset == (first + i) % 4,
                header.mask is None ==> self.mask_offset == first,
                forall|k: int| 0 <= k < start ==> self.buf@[k] == before[k],
                forall|k: int|
                    start <= k < start + i ==> self.buf@[k] == unmask(
                        buf@.take(size as int),
                        header.mask,
                        first as nat,
                    )[k - start],
            decreases size - i,
        {
            match header.mask {
                Some(key) => {
                    self.buf[start + i] = buf[i] ^ key[self.mask_offset];
                    self.mask_offset = (self.mask_offset + 1) % 4;
                },
                None => {
                    self.buf[start + i] = buf[i];
                },
            }
            i = i + 1;
        }
        self.buf_end = start + size;
        self.payload_offset = self.payload_offset + size as u64;
        proof {
            assert(self@.window =~= pre.window + unmask(
                buf@.take(size as int),
                header.mask,
                first as nat,
            ));
        }
        if self.payload_offset != header.payload_len && eos {
            return Err(CodecErrorKind::UnexpectedEos);
        }
        Ok(size)
    }

    /// Returns `true` if the frame is complete and can be taken.
    pub fn is_idle(&self) -> (idle: bool)
        requires
            self.wf(),
        ensures
            idle == payload_is_idle(self@),
    {
        match self.header {
            Some(header) => {
                if header.payload_len == self.payload_offset {
                    match header.opcode {
                        Opcode::ConnectionClose | Opcode::Ping | Opcode::Pong => true,
                        _ => self.buf_start == self.buf_end,
                    }
                } else {
                    false
                }
            },
            None => false,
        }
    }

    /// Takes the frame out of the decoder.
    pub fn finish_decoding(&mut self) -> (r: Result<Frame, CodecErrorKind>)
        requires
            old(self).wf(),
        ensures
            final(self).wf(),
            final(self)@ == payload_finish_step(old(self)@).0,
            match payload_finish_step(old(self)@).1 {
                Ok(frame) => r matches Ok(f) && f@ == frame,
                Err(e) => r matches Err(f) && f == e,
            },
    {
        if !self.is_idle() {
            return Err(CodecErrorKind::IncompleteDecoding);
        }
        let header = match self.header {
            Some(header) => header,
            None => {
                return Err(CodecErrorKind::InconsistentState);
            },
        };
        let ghost payload = self@.window;
        let end = self.buf_end;
        self.header = None;
        self.buf_start = 0;
        self.buf_end = 0;
        self.payload_offset = 0;
        self.mask_offset = 0;
        assert(self@.window =~= Seq::<u8>::empty());
        match header.opcode {
            Opcode::ConnectionClose => {
                if end < 2 {
                    return Err(CodecErrorKind::InvalidInput);
                }
                let code = read_u16_be(self.buf.as_slice());
                let reason = vstd::slice::slice_to_vec(
                    vstd::slice::slice_subrange(self.buf.as_slice(), 2, end),
                );
                assert(reason@ =~= payload.skip(2));
                assert(u16_from_be(self.buf@) == u16_from_be(payload));
                Ok(Frame::ConnectionClose { code, reason })
            },
            Opcode::Ping => {
                let data = vstd::slice::slice_to_vec(
                    vstd::slice::slice_subrange(self.buf.as_slice(), 0, end),
                );
                Ok(Frame::Ping { data })
            },
            Opcode::Pong => {
                let data = vstd::slice::slice_to_vec(
                    vstd::slice::slice_subrange(self.buf.as_slice(), 0, end),
                );
                Ok(Frame::Pong { data })
            },
            _ => Ok(Frame::Data),
        }
    }

    /// The number of bytes of the payload that are still to come, as far as
    /// a header has told.
    pub open spec fn spec_requiring_bytes(v: PayloadDecoderView) -> ByteCount {
        match v.header {
            Some(header) => ByteCount::Finite((header.payload_len - v.payload_offset) as u64),
            None => ByteCount::Unknown,
        }
    }

    /// The number of bytes of the payload that are still to come, as far as
    /// a header has told.
    pub fn requiring_bytes(&self) -> (n: ByteCount)
        requires
            self.wf(),
        ensures
            n == Self::spec_requiring_bytes(self@),
    {
        match self.header {
            Some(header) => ByteCount::Finite(header.payload_len - self.payload_offset),
            None => ByteCount::Unknown,
        }
    }

    /// Returns `true` if there is no payload of a data frame to hand on.
    pub fn is_data_empty(&self) -> (empty: bool)
        requires
            self.wf(),
        ensures
            empty == data_is_empty(self@),
    {
        match self.header {
            Some(header) => header.opcode.is_control() || self.buf_start == self.buf_end,
            None => true,
        }
    }

    /// The payload of a data frame that waits to be handed on; nothing where
    /// `is_data_empty` holds.
    pub fn decoded_data(&self) -> (data: &[u8])
        requires
            self.wf(),
        ensures
            data@ == (if data_is_empty(self@) {
                Seq::<u8>::empty()
            } else {
                self@.window
            }),
    {
        if self.is_data_empty() {
            vstd::slice::slice_subrange(self.buf.as_slice(), 0, 0)
        } else {
            vstd::slice::slice_subrange(self.buf.as_slice(), self.buf_start, self.buf_end)
        }
    }

    /// Takes in what one write of `decoded_data` to the real server came to.
    pub fn write_decoded_data(&mut self, outcome: WriteOutcome) -> (r: Result<StreamState, Error>)
        requires
            old(self).wf(),
        ensures
            final(self).wf(),
            final(self)@ == write_decoded_step(old(self)@, outcome).0,
            r == write_decoded_step(old(self)@, outcome).1,
    {
        if self.is_data_empty() {
            return Ok(StreamState::Normal);
        }
        match outcome {
            WriteOutcome::WouldBlock => Ok(StreamState::WouldBlock),
            WriteOutcome::Failed => Err(Error::new(ErrorKind::Other)),
            WriteOutcome::Written(n) => {
                if n == 0 {
                    Ok(StreamState::Eos)
                } else if n > self.buf_end - self.buf_start {
                    Err(Error::new(ErrorKind::Other))
                } else {
                    self.buf_start = self.buf_start + n;
                    if self.buf_start == self.buf_end {
                        self.buf_start = 0;
                        self.buf_end = 0;
                    }
                    assert(self@.window =~= old(self)@.window.skip(n as int));
                    Ok(StreamState::Normal)
                }
            },
        }
    }
}

impl Default for FramePayloadDecoder {
    fn default() -> (decoder: FramePayloadDecoder)
        ensures
            decoder.wf(),
            decoder@ == payload_decoder_empty(),
    {
        FramePayloadDecoder::new()
    }
}

/// A frame decoder as contracts see it.
pub ghost struct FrameDecoderView {
    pub header: HeaderDecoderView,
    pub payload: PayloadDecoderView,
}

/// The state of a frame decoder that has read nothing.
pub open spec fn frame_decoder_empty() -> FrameDecoderView {
    FrameDecoderView {
        header: HeaderDecoderView { read: Seq::empty(), extended_size: 0, header: None },
        payload: payload_decoder_empty(),
    }
}

/// The second half of `frame_decode_step`: the payload decoder reads on,
/// after `offset` bytes that the header took.
pub open spec fn frame_decode_payload(
    header: HeaderDecoderView,
    payload: PayloadDecoderView,
    input: Seq<u8>,
    offset: usize,
    eos: bool,
) -> (FrameDecoderView, Result<usize, CodecErrorKind>) {
    if payload_is_idle(payload) {
        (FrameDecoderView { header, payload }, Ok(offset))
    } else {
        let (after, r) = payload_decode_step(payload, input.skip(offset as int), eos);
        (
            FrameDecoderView { header, payload: after },
            match r {
                Ok(n) => Ok((offset + n) as usize),
                Err(e) => Err(e),
            },
        )
    }
}

/// What the frame decoder makes of the input `input`: its state afterwards,
/// and either the number of bytes that it read or the reason of its failure.
/// As long as no header is complete it reads the header; once the header is
/// complete it reads the payload from the same input.  A frame from a client
/// is masked: a header without a masking key is invalid input, and the frame
/// is given up with its header.
pub open spec fn frame_decode_step(pre: FrameDecoderView, input: Seq<u8>, eos: bool) -> (
    FrameDecoderView,
    Result<usize, CodecErrorKind>,
) {
    if pre.payload.header is Some {
        frame_decode_payload(pre.header, pre.payload, input, 0, eos)
    } else {
        let (header, r) = header_decode_step(pre.header, input, eos);
        match r {
            Err(e) => (FrameDecoderView { header, payload: pre.payload }, Err(e)),
            Ok(n) => match header.header {
                None => (FrameDecoderView { header, payload: pre.payload }, Ok(n)),
                Some(h) => if h.mask is None {
                    (
                        FrameDecoderView {
                            header: header_finish_step(header).0,
                            payload: pre.payload,
                        },
                        Err(CodecErrorKind::InvalidInput),
                    )
                } else {
                    frame_decode_payload(
                        header_finish_step(header).0,
                        PayloadDecoderView { header: Some(h), ..payload_decoder_empty() },
                        input,
                        n,
                        eos,
                    )
                },
            },
        }
    }
}

/// What holds of a frame decoder at any time: both halves keep their
/// invariants, a complete header has gone to the payload half, and the frame
/// whose payload is read is masked.
pub open spec fn frame_decoder_inv(v: FrameDecoderView) -> bool {
    &&& header_decoder_inv(v.header)
    &&& v.header.header is None
    &&& payload_decoder_inv(v.payload)
    &&& v.payload.header matches Some(header) ==> header.mask is Some
}

/// The frame decoder keeps its invariant, and reads no more bytes than it
/// is given.
pub proof fn lemma_frame_decode_step(pre: FrameDecoderView, input: Seq<u8>, eos: bool)
    requires
        frame_decoder_inv(pre),
        input.len() <= usize::MAX,
    ensures
        frame_decoder_inv(frame_decode_step(pre, input, eos).0),
        frame_decode_step(pre, input, eos).1 matches Ok(n) ==> n <= input.len(),
{
    if pre.payload.header is Some {
        if !payload_is_idle(pre.payload) {
            assert(input.skip(0) =~= input);
            lemma_payload_steps(pre.payload, input, eos, WriteOutcome::WouldBlock);
        }
    } else {
        lemma_header_decode_step(pre.header, input, eos);
        let (header, r) = header_decode_step(pre.header, input, eos);
        match r {
            Err(_) => {},
            Ok(n) => match header.header {
                None => {},
                Some(h) => {
                    let start = PayloadDecoderView { header: Some(h), ..payload_decoder_empty() };
                    if h.mask is Some && !payload_is_idle(start) {
                        lemma_payload_steps(start, input.skip(n as int), eos, WriteOutcome::WouldBlock);
                    }
                },
            },
        }
    }
}

/// Decoder of the frames that come from the client.  The payload of a data
/// frame is handed on through `decoded_data` and `write_decoded_data`; the
/// frame itself can be taken once all of it has been handed on.
#[derive(Debug)]
pub struct FrameDecoder {
    header: FrameHeaderDecoder,
    payload: FramePayloadDecoder,
}

impl View for FrameDecoder {
    type V = FrameDecoderView;

    closed spec fn view(&self) -> FrameDecoderView {
        FrameDecoderView { header: self.header@, payload: self.payload@ }
    }
}

impl FrameDecoder {
    /// Both halves are well formed, and a complete header has gone to the
    /// payload half.
    pub closed spec fn wf(&self) -> bool {
        &&& self.header.wf()
        &&& self.payload.wf()
        &&& self.header@.header is None
        &&& self.payload@.header is None ==> self.payload@ == payload_decoder_empty()
        &&& self.payload@.header matches Some(header) ==> header.mask is Some
    }

    /// A well-formed decoder keeps the invariant of its view.
    pub proof fn lemma_wf(&self)
        requires
            self.wf(),
        ensures
            frame_decoder_inv(self@),
    {
        self.payload.lemma_wf();
        self.header.lemma_wf();
    }

    /// Makes a decoder that has read nothing.
    pub fn new() -> (decoder: FrameDecoder)
        ensures
            decoder.wf(),
            decoder@ == frame_decoder_empty(),
    {
        FrameDecoder { header: FrameHeaderDecoder::new(), payload: FramePayloadDecoder::new() }
    }

    /// Reads on in the frame.
    pub fn decode(&mut self, buf: &[u8], eos: bool) -> (r: Result<usize, CodecErrorKind>)
        requires
            old(self).wf(),
        ensures
            final(self).wf(),
            final(self)@ == frame_decode_step(old(self)@, buf@, eos).0,
            r == frame_decode_step(old(self)@, buf@, eos).1,
            r matches Ok(n) ==> n <= buf@.len(),
    {
        let mut offset: usize = 0;
        let total = buf.len();
        if self.payload.header.is_none() {
            proof {
                self.payload.lemma_wf();
                self.header.lemma_wf();
                lemma_header_decode_step(self.header@, buf@, eos);
            }
            offset = match self.header.decode(buf, eos) {
                Ok(n) => n,
                Err(e) => {
                    return Err(e);
                },
            };
            if !self.header.is_idle() {
                return Ok(offset);
            }
            let header = match self.header.finish_decoding() {
                Ok(header) => header,
                Err(e) => {
                    return Err(e);
                },
            };
            if header.mask.is_none() {
                return Err(CodecErrorKind::InvalidInput);
            }
            self.payload.start(header);
        }
        if !self.payload.is_idle() {
            let rest = vstd::slice::slice_subrange(buf, offset, total);
            assert(rest@ =~= buf@.skip(offset as int));
            proof {
                self.payload.lemma_wf();
                lemma_payload_steps(self.payload@, rest@, eos, WriteOutcome::WouldBlock);
            }
            match self.payload.decode(rest, eos) {
                Ok(n) => {
                    offset = offset + n;
                },
                Err(e) => {
                    return Err(e);
                },
            }
        }
        Ok(offset)
    }

    /// Takes the frame out of the decoder.
    pub fn finish_decoding(&mut self) -> (r: Result<Frame, CodecErrorKind>)
        requires
            old(self).wf(),
        ensures
            final(self).wf(),
            final(self)@.header == old(self)@.header,
            final(self)@.payload == payload_finish_step(old(self)@.payload).0,
            match payload_finish_step(old(self)@.payload).1 {
                Ok(frame) => r matches Ok(f) && f@ == frame,
                Err(e) => r matches Err(f) && f == e,
            },
    {
        proof {
            self.payload.lemma_wf();
        }
        self.payload.finish_decoding()
    }

    /// The number of bytes that the frame asks for as the decoder stands:
    /// what the header decoder and the payload decoder ask for, added up.
    pub open spec fn spec_requiring_bytes(v: FrameDecoderView) -> ByteCount {
        FrameHeaderDecoder::spec_requiring_bytes(v.header).spec_add_for_decoding(
            FramePayloadDecoder::spec_requiring_bytes(v.payload),
        )
    }

    /// The number of bytes that the frame still asks for.  The sum has to
    /// fit in 64 bits.
    pub fn requiring_bytes(&self) -> (n: ByteCount)
        requires
            self.wf(),
            self@.payload.header matches Some(header) ==> header.payload_len
                - self@.payload.payload_offset + 16 <= u64::MAX,
        ensures
            n == Self::spec_requiring_bytes(self@),
    {
        self.header.requiring_bytes().add_for_decoding(self.payload.requiring_bytes())
    }

    /// Returns `true` if the frame is complete and can be taken.
    pub fn is_idle(&self) -> (idle: bool)
        requires
            self.wf(),
        ensures
            idle == payload_is_idle(self@.payload),
    {
        self.payload.is_idle()
    }

    /// Returns `true` if there is no payload of a data frame to hand on: no
    /// frame is being read, or a control frame, or the payload that was read
    /// has been handed on.
    pub fn is_data_empty(&self) -> (empty: bool)
        requires
            self.wf(),
        ensures
            empty == data_is_empty(self@.payload),
    {
        self.payload.is_data_empty()
    }

    /// The payload of a data frame that waits to be written to the real
    /// server; nothing where `is_data_empty` holds.
    pub fn decoded_data(&self) -> (data: &[u8])
        requires
            self.wf(),
        ensures
            data@ == (if data_is_empty(self@.payload) {
                Seq::<u8>::empty()
            } else {
                self@.payload.window
            }),
    {
        self.payload.decoded_data()
    }

    /// Takes in what one write of `decoded_data` to the real server came to:
    /// what was written leaves the decoder.
    pub fn write_decoded_data(&mut self, outcome: WriteOutcome) -> (r: Result<StreamState, Error>)
        requires
            old(self).wf(),
        ensures
            final(self).wf(),
            final(self)@.header == old(self)@.header,
            final(self)@.payload == write_decoded_step(old(self)@.payload, outcome).0,
            r == write_decoded_step(old(self)@.payload, outcome).1,
    {
        proof {
            self.payload.lemma_wf();
        }
        self.payload.write_decoded_data(outcome)
    }
}

impl Default for FrameDecoder {
    fn default() -> (decoder: FrameDecoder)
        ensures
            decoder.wf(),
            decoder@ == frame_decoder_empty(),
    {
        FrameDecoder::new()
    }
}

} // verus!
