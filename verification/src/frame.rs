//! Frames, and the encoder of the frames that the proxy sends.
use crate::error::{CodecErrorKind, Error, ErrorKind};
use crate::io::{ReadEvent, ReadOutcome, StreamState};
use crate::opcode::Opcode;
use crate::wire::{header_bytes, lemma_header_bytes_len, u16_to_be, write_u16_be, FrameHeader};
use vstd::prelude::*;

verus! {

/// The size of the buffers in which payloads are staged.
pub const BUF_SIZE: usize = 4096;

/// A frame as the proxy handles it.  The payload of a data frame is not
/// part of it: the decoder hands it out separately.
#[derive(Debug)]
pub enum Frame {
    ConnectionClose { code: u16, reason: Vec<u8> },
    Ping { data: Vec<u8> },
    Pong { data: Vec<u8> },
    Data,
}

/// A frame as contracts see it.
pub ghost enum FrameView {
    ConnectionClose { code: u16, reason: Seq<u8> },
    Ping { data: Seq<u8> },
    Pong { data: Seq<u8> },
    Data,
}

impl View for Frame {
    type V = FrameView;

    open spec fn view(&self) -> FrameView {
        match *self {
            Frame::ConnectionClose { code, reason } => FrameView::ConnectionClose {
                code,
                reason: reason@,
            },
            Frame::Ping { data } => FrameView::Ping { data: data@ },
            Frame::Pong { data } => FrameView::Pong { data: data@ },
            Frame::Data => FrameView::Data,
        }
    }
}

/// Number of bytes of interest.
#[derive(Debug, Clone, Copy, PartialEq, Eq, Structural)]
#[allow(missing_docs)]
pub enum ByteCount {
    Finite(u64),
    Infinite,
    Unknown,
}

impl ByteCount {
    /// The sum of two counts of bytes that a decoder asks for.  A finite
    /// count and an unknown one give the finite count, unless that is zero;
    /// an infinite count makes the sum infinite.
    pub open spec fn spec_add_for_decoding(self, other: ByteCount) -> ByteCount {
        match (self, other) {
            (ByteCount::Finite(a), ByteCount::Finite(b)) => ByteCount::Finite((a + b) as u64),
            (ByteCount::Infinite, _) => ByteCount::Infinite,
            (_, ByteCount::Infinite) => ByteCount::Infinite,
            (ByteCount::Unknown, ByteCount::Unknown) => ByteCount::Unknown,
            (ByteCount::Finite(a), ByteCount::Unknown) => if a == 0 {
                ByteCount::Unknown
            } else {
                ByteCount::Finite(a)
            },
            (ByteCount::Unknown, ByteCount::Finite(b)) => if b == 0 {
                ByteCount::Unknown
            } else {
                ByteCount::Finite(b)
            },
        }
    }

    /// Tries to convert this `ByteCount` to an `u64` value.
    pub fn to_u64(self) -> (n: Option<u64>)
        ensures
            n == (match self {
                ByteCount::Finite(n) => Some(n),
                _ => None::<u64>,
            }),
    {
        match self {
            ByteCount::Finite(n) => Some(n),
            _ => None,
        }
    }

    /// Adds two `ByteCount` instances for decoding.
    pub fn add_for_decoding(self, other: ByteCount) -> (sum: ByteCount)
        requires
            self matches ByteCount::Finite(a) && other matches ByteCount::Finite(b) ==> a + b
                <= u64::MAX,
        ensures
            sum == self.spec_add_for_decoding(other),
    {
        match (self, other) {
            (ByteCount::Finite(a), ByteCount::Finite(b)) => ByteCount::Finite(a + b),
            (ByteCount::Infinite, _) => ByteCount::Infinite,
            (_, ByteCount::Infinite) => ByteCount::Infinite,
            (ByteCount::Unknown, ByteCount::Unknown) => ByteCount::Unknown,
            (ByteCount::Finite(a), ByteCount::Unknown) => if a == 0 {
                ByteCount::Unknown
            } else {
                ByteCount::Finite(a)
            },
            (ByteCount::Unknown, ByteCount::Finite(b)) => if b == 0 {
                ByteCount::Unknown
            } else {
                ByteCount::Finite(b)
            },
        }
    }
}

/// The payload of a control frame: the status code of a Close in two bytes,
/// big-endian, and its reason; the data of a Ping or a Pong.
pub open spec fn control_payload(frame: FrameView) -> Seq<u8> {
    match frame {
        FrameView::ConnectionClose { code, reason } => u16_to_be(code) + reason,
        FrameView::Ping { data } => data,
        FrameView::Pong { data } => data,
        FrameView::Data => Seq::empty(),
    }
}

/// The opcode under which a frame travels; a data frame of the proxy is
/// binary.
pub open spec fn frame_opcode(frame: FrameView) -> Opcode {
    match frame {
        FrameView::ConnectionClose { .. } => Opcode::ConnectionClose,
        FrameView::Ping { .. } => Opcode::Ping,
        FrameView::Pong { .. } => Opcode::Pong,
        FrameView::Data => Opcode::BinaryFrame,
    }
}

/// The header that the proxy gives a frame of its own: final, unmasked.
pub open spec fn plain_header(opcode: Opcode, payload_len: nat) -> FrameHeader {
    FrameHeader { fin_flag: true, opcode, mask: None, payload_len: payload_len as u64 }
}

/// The bytes of a frame of the proxy: its header, then its payload as it
/// is.
pub open spec fn frame_bytes(opcode: Opcode, payload: Seq<u8>) -> Seq<u8> {
    header_bytes(plain_header(opcode, payload.len())) + payload
}

/// What `FrameEncoder::start_encoding_data` makes of one read from the real
/// server: the bytes that the encoder holds afterwards, and the answer.  A
/// busy encoder takes nothing; more bytes than the staging buffer holds
/// cannot have come from a read into it and count as a failed read.
pub open spec fn start_data_step(pending: Seq<u8>, event: ReadEvent) -> (
    Seq<u8>,
    Result<StreamState, Error>,
) {
    if pending.len() > 0 {
        (pending, Ok(StreamState::Normal))
    } else {
        match event {
            ReadEvent::WouldBlock => (pending, Ok(StreamState::WouldBlock)),
            ReadEvent::Failed => (pending, Err(Error { kind: ErrorKind::Other })),
            ReadEvent::Data(d) => if d.len() == 0 {
                (pending, Ok(StreamState::Eos))
            } else if d.len() > BUF_SIZE {
                (pending, Err(Error { kind: ErrorKind::Other }))
            } else {
                (frame_bytes(Opcode::BinaryFrame, d), Ok(StreamState::Normal))
            },
        }
    }
}

/// What `FrameEncoder::start_encoding` makes of a frame: the bytes that the
/// encoder holds afterwards, and the answer.  An encoder that is busy is
/// full.  The proxy sends no Ping, and data goes another way: both are
/// invalid input, and so is a payload that the staging buffer cannot hold.
pub open spec fn start_frame_step(pending: Seq<u8>, frame: FrameView) -> (
    Seq<u8>,
    Result<(), CodecErrorKind>,
) {
    if pending.len() > 0 {
        (pending, Err(CodecErrorKind::EncoderFull))
    } else if frame is Ping || frame is Data || control_payload(frame).len() > BUF_SIZE {
        (pending, Err(CodecErrorKind::InvalidInput))
    } else {
        (frame_bytes(frame_opcode(frame), control_payload(frame)), Ok(()))
    }
}

/// Encoder of the frames that go to the client: binary frames that carry
/// what the real server sent, and the Pong and Close frames of the proxy.
#[derive(Debug)]
pub struct FrameEncoder {
    header: Vec<u8>,
    header_offset: usize,
    header_length: usize,
    payload: Vec<u8>,
    payload_offset: usize,
    payload_length: usize,
}

impl View for FrameEncoder {
    type V = Seq<u8>;

    /// The bytes of the current frame that are still to be written.
    closed spec fn view(&self) -> Seq<u8> {
        self.header@.subrange(self.header_offset as int, self.header_length as int)
            + self.payload@.subrange(self.payload_offset as int, self.payload_length as int)
    }
}

impl FrameEncoder {
    /// The cursors lie inside the staging buffers, and a frame that has been
    /// written out is gone from them.
    pub closed spec fn wf(&self) -> bool {
        &&& self.header@.len() == 10
        &&& self.payload@.len() == BUF_SIZE
        &&& self.header_offset <= self.header_length <= 10
        &&& self.payload_offset <= self.payload_length <= BUF_SIZE
        &&& self.header_offset < self.header_length ==> self.payload_offset == 0
        &&& (self.header_offset == self.header_length && self.payload_offset
            == self.payload_length) ==> self.header_length == 0 && self.payload_length == 0
    }

    /// An idle encoder in contracts: it holds nothing.
    pub open spec fn spec_is_idle(&self) -> bool {
        self@.len() == 0
    }

    /// Makes an idle encoder.
    pub fn new() -> (encoder: FrameEncoder)
        ensures
            encoder.wf(),
            encoder@ == Seq::<u8>::empty(),
    {
        let encoder = FrameEncoder {
            header: vec![0u8; 10],
            header_offset: 0,
            header_length: 0,
            payload: vec![0u8; BUF_SIZE],
            payload_offset: 0,
            payload_length: 0,
        };
        assert(encoder@ =~= Seq::<u8>::empty());
        encoder
    }

    /// Returns `true` if no frame is being written.
    #[verifier::when_used_as_spec(spec_is_idle)]
    pub fn is_idle(&self) -> (idle: bool)
        requires
            self.wf(),
        ensures
            idle == self.spec_is_idle(),
    {
        self.header_offset == self.header_length && self.payload_length == 0
    }

    /// The number of bytes that are still to be written.
    pub fn requiring_bytes(&self) -> (n: ByteCount)
        requires
            self.wf(),
        ensures
            n == ByteCount::Finite(self@.len() as u64),
    {
        let n = (self.header_length - self.header_offset) + (self.payload_length
            - self.payload_offset);
        ByteCount::Finite(n as u64)
    }

    /// How many bytes the next read from the real server may bring: the size
    /// of the staging buffer when the encoder is idle, else none.
    pub fn read_room(&self) -> (n: usize)
        requires
            self.wf(),
        ensures
            n == (if self@.len() == 0 {
                BUF_SIZE
            } else {
                0usize
            }),
    {
        if self.is_idle() {
            BUF_SIZE
        } else {
            0
        }
    }

    /// Stages the header of a final, unmasked frame.
    fn start_encoding_header(&mut self, opcode: Opcode, payload_len: usize)
        requires
            old(self).wf(),
            old(self)@.len() == 0,
            payload_len <= BUF_SIZE,
        ensures
            final(self).header@.len() == 10,
            final(self).header_offset == 0,
            final(self).header_length == header_bytes(plain_header(opcode, payload_len as nat)).len(),
            final(self).header@.subrange(0, final(self).header_length as int) == header_bytes(
                plain_header(opcode, payload_len as nat),
            ),
            final(self).payload == old(self).payload,
            final(self).payload_offset == 0,
            final(self).payload_length == payload_len,
    {
        let header = FrameHeader {
            fin_flag: true,
            opcode,
            mask: None,
            payload_len: payload_len as u64,
        };
        proof {
            lemma_header_bytes_len(header);
        }
        let bytes = header.to_bytes();
        let mut i: usize = 0;
        while i < bytes.len()
            invariant
                i <= bytes@.len() <= 10,
                self.header@.len() == 10,
                self.payload == old(self).payload,
                forall|k: int| 0 <= k < i ==> self.header@[k] == bytes@[k],
            decreases bytes@.len() - i,
        {
            self.header[i] = bytes[i];
            i = i + 1;
        }
        self.header_offset = 0;
        self.header_length = bytes.len();
        self.payload_offset = 0;
        self.payload_length = payload_len;
        assert(self.header@.subrange(0, bytes@.len() as int) =~= bytes@);
    }

    /// Takes in what one read from the real server came to.  An idle encoder
    /// turns the bytes that were read into one binary frame; a busy one
    /// leaves them.
    pub fn start_encoding_data(&mut self, outcome: ReadOutcome<'_>) -> (r: Result<
        StreamState,
        Error,
    >)
        requires
            old(self).wf(),
        ensures
            final(self).wf(),
            final(self)@ == start_data_step(old(self)@, outcome@).0,
            r == start_data_step(old(self)@, outcome@).1,
    {
        if !self.is_idle() {
            return Ok(StreamState::Normal);
        }
        match outcome {
            ReadOutcome::WouldBlock => Ok(StreamState::WouldBlock),
            ReadOutcome::Failed => Err(Error::new(ErrorKind::Other)),
            ReadOutcome::Data(d) => {
                if d.len() == 0 {
                    Ok(StreamState::Eos)
                } else if d.len() > BUF_SIZE {
                    Err(Error::new(ErrorKind::Other))
                } else {
                    self.stage_payload(0, d);
                    self.start_encoding_header(Opcode::BinaryFrame, d.len());
                    proof {
                        lemma_header_bytes_len(plain_header(Opcode::BinaryFrame, d@.len()));
                        assert(self@ =~= frame_bytes(Opcode::BinaryFrame, d@));
                    }
                    Ok(StreamState::Normal)
                }
            },
        }
    }

    /// Copies `data` into the payload staging buffer, from `at` on.
    fn stage_payload(&mut self, at: usize, data: &[u8])
        requires
            old(self).payload@.len() == BUF_SIZE,
            at + data@.len() <= BUF_SIZE,
        ensures
            final(self).payload@.len() == BUF_SIZE,
            final(self).payload@.subrange(0, at as int) == old(self).payload@.subrange(
                0,
                at as int,
            ),
            final(self).payload@.subrange(at as int, at + data@.len()) == data@,
            final(self).header == old(self).header,
            final(self).header_offset == old(self).header_offset,
            final(self).header_length == old(self).header_length,
            final(self).payload_offset == old(self).payload_offset,
            final(self).payload_length == old(self).payload_length,
    {
        let mut i: usize = 0;
        while i < data.len()
            invariant
                i <= data@.len(),
                at + data@.len() <= BUF_SIZE,
                self.payload@.len() == BUF_SIZE,
                forall|k: int| 0 <= k < at ==> self.payload@[k] == old(self).payload@[k],
                forall|k: int| 0 <= k < i ==> self.payload@[at + k] == data@[k],
                self.header == old(self).header,
                self.header_offset == old(self).header_offset,
                self.header_length == old(self).header_length,
                self.payload_offset == old(self).payload_offset,
                self.payload_length == old(self).payload_length,
            decreases data@.len() - i,
        {
            self.payload[at + i] = data[i];
            i = i + 1;
        }
        assert(self.payload@.subrange(0, at as int) =~= old(self).payload@.subrange(0, at as int));
        assert(self.payload@.subrange(at as int, at + data@.len()) =~= data@);
    }

    /// Starts writing a Close or a Pong frame.  The encoder is left as it
    /// was where the frame is not taken.
    pub fn start_encoding(&mut self, item: Frame) -> (r: Result<(), CodecErrorKind>)
        requires
            old(self).wf(),
        ensures
            final(self).wf(),
            final(self)@ == start_frame_step(old(self)@, item@).0,
            r == start_frame_step(old(self)@, item@).1,
    {
        if !self.is_idle() {
            return Err(CodecErrorKind::EncoderFull);
        }
        match item {
            Frame::ConnectionClose { code, reason } => {
                if reason.len() > BUF_SIZE - 2 {
                    return Err(CodecErrorKind::InvalidInput);
                }
                let (code_bytes, _) = self.payload.as_mut_slice().split_at_mut(2);
                write_u16_be(code_bytes, code);
                self.stage_payload(2, reason.as_slice());
                self.start_encoding_header(Opcode::ConnectionClose, 2 + reason.len());
                proof {
                    let payload = u16_to_be(code) + reason@;
                    lemma_header_bytes_len(plain_header(Opcode::ConnectionClose, payload.len()));
                    assert(self.payload@.subrange(0, 2 + reason@.len() as int) =~= payload);
                    assert(self@ =~= frame_bytes(Opcode::ConnectionClose, payload));
                }
                Ok(())
            },
            Frame::Pong { data } => {
                if data.len() > BUF_SIZE {
                    return Err(CodecErrorKind::InvalidInput);
                }
                self.stage_payload(0, data.as_slice());
                self.start_encoding_header(Opcode::Pong, data.len());
                proof {
                    lemma_header_bytes_len(plain_header(Opcode::Pong, data@.len()));
                    assert(self@ =~= frame_bytes(Opcode::Pong, data@));
                }
                Ok(())
            },
            Frame::Ping { .. } | Frame::Data => Err(CodecErrorKind::InvalidInput),
        }
    }

    /// Writes as much of the current frame into `buf` as `buf` takes: first
    /// what is left of the header, then what is left of the payload.  Once
    /// all is written the encoder is idle.
    pub fn encode(&mut self, buf: &mut [u8]) -> (size: usize)
        requires
            old(self).wf(),
        ensures
            final(self).wf(),
            size == vstd::math::min(old(buf)@.len() as int, old(self)@.len() as int),
            final(buf)@ == old(self)@.take(size as int) + old(buf)@.skip(size as int),
            final(self)@ == old(self)@.skip(size as int),
    {
        let ghost pending = self@;
        let ghost out = buf@;
        let header_left = self.header_length - self.header_offset;
        let header_size = if buf.len() < header_left {
            buf.len()
        } else {
            header_left
        };
        let mut i: usize = 0;
        while i < header_size
            invariant
                i <= header_size,
                self.wf(),
                *self == *old(self),
                header_size <= self.header_length - self.header_offset,
                header_size <= buf@.len(),
                buf@.len() == out.len(),
                forall|k: int| 0 <= k < i ==> buf@[k] == self.header@[self.header_offset + k],
                forall|k: int| i <= k < out.len() ==> buf@[k] == out[k],
            decreases header_size - i,
        {
            buf[i] = self.header[self.header_offset + i];
            i = i + 1;
        }
        self.header_offset = self.header_offset + header_size;
        if self.header_offset < self.header_length {
            proof {
                assert(buf@ =~= pending.take(header_size as int) + out.skip(header_size as int));
                assert(self@ =~= pending.skip(header_size as int));
            }
            return header_size;
        }
        let payload_left = self.payload_length - self.payload_offset;
        let room = buf.len() - header_size;
        let size = if room < payload_left {
            room
        } else {
            payload_left
        };
        let mut j: usize = 0;
        while j < size
            invariant
                j <= size,
                self.header@.len() == 10,
                self.payload@.len() == BUF_SIZE,
                self.payload_offset + size <= self.payload_length <= BUF_SIZE,
                self.payload == old(self).payload,
                self.payload_offset == old(self).payload_offset,
                self.payload_length == old(self).payload_length,
                self.header == old(self).header,
                self.header_length == old(self).header_length,
                self.header_offset == self.header_length,
                header_size + size <= buf@.len() <= usize::MAX,
                old(self).header_offset + header_size <= 10,
                old(self).header@.len() == 10,
                buf@.len() == out.len(),
                forall|k: int|
                    0 <= k < header_size ==> buf@[k] == old(self).header@[old(self).header_offset
                        + k],
                forall|k: int|
                    header_size <= k < header_size + j ==> buf@[k] == self.payload@[self.payload_offset
                        + k - header_size],
                forall|k: int| header_size + j <= k < out.len() ==> buf@[k] == out[k],
            decreases size - j,
        {
            buf[header_size + j] = self.payload[self.payload_offset + j];
            j = j + 1;
        }
        proof {
            assert(buf@ =~= pending.take(header_size + size) + out.skip(header_size + size));
        }
        self.payload_offset = self.payload_offset + size;
        if self.payload_offset == self.payload_length {
            self.payload_length = 0;
            self.payload_offset = 0;
            self.header_offset = 0;
            self.header_length = 0;
        }
        proof {
            assert(self@ =~= pending.skip(header_size + size));
        }
        header_size + size
    }
}

impl Default for FrameEncoder {
    fn default() -> (encoder: FrameEncoder)
        ensures
            encoder.wf(),
            encoder@ == Seq::<u8>::empty(),
    {
        FrameEncoder::new()
    }
}

} // verus!
