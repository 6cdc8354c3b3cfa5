//! Decoder of frame headers.
use crate::error::CodecErrorKind;
use crate::frame::ByteCount;
use crate::opcode::Opcode;
use crate::wire::{
    extended_size, parse_header, read_u16_be, read_u64_be, FrameHeader, FIN_FLAG, MASK_FLAG,
    MAX_PAYLOAD_LEN,
};
use vstd::prelude::*;

verus! {

/// What the first two bytes of a header say: the flags, the opcode and the
/// seven-bit length field, with a blank masking key where one is to follow.
/// Bytes with an unknown opcode say nothing.
pub open spec fn fixed_part(b0: u8, b1: u8) -> Option<FrameHeader> {
    match Opcode::spec_from_u8(b0 % 16) {
        None => None,
        Some(opcode) => Some(
            FrameHeader {
                fin_flag: b0 >= 128,
                opcode,
                mask: if b1 >= 128 {
                    Some([0u8, 0u8, 0u8, 0u8])
                } else {
                    None
                },
                payload_len: (b1 % 128) as u64,
            },
        ),
    }
}

impl FrameHeader {
    /// Reads the first two bytes of a header; an unknown opcode is invalid
    /// input.
    pub fn from_bytes(b: [u8; 2]) -> (r: Result<FrameHeader, CodecErrorKind>)
        ensures
            match fixed_part(b@[0], b@[1]) {
                Some(header) => r == Ok::<FrameHeader, CodecErrorKind>(header),
                None => r == Err::<FrameHeader, CodecErrorKind>(CodecErrorKind::InvalidInput),
            },
    {
        let b0 = b[0];
        let b1 = b[1];
        assert(b0 & 0x0F == b0 % 16) by (bit_vector);
        assert((b0 & 0x80 != 0) == (b0 >= 128)) by (bit_vector);
        assert((b1 & 0x80 != 0) == (b1 >= 128)) by (bit_vector);
        assert(b1 & 0x7F == b1 % 128) by (bit_vector);
        let opcode = match Opcode::from_u8(b0 & 0x0F) {
            Ok(opcode) => opcode,
            Err(e) => {
                return Err(e);
            },
        };
        let mask: Option<[u8; 4]> = if (b1 & MASK_FLAG) != 0 {
            Some([0u8, 0u8, 0u8, 0u8])
        } else {
            None
        };
        let header = FrameHeader {
            fin_flag: (b0 & FIN_FLAG) != 0,
            opcode,
            mask,
            payload_len: (b1 & 0x7F) as u64,
        };
        proof {
            let wanted = fixed_part(b@[0], b@[1])->0;
            assert(mask is Some ==> mask->0@ =~= wanted.mask->0@);
        }
        Ok(header)
    }
}

/// A header decoder as contracts see it.
pub ghost struct HeaderDecoderView {
    /// The bytes of the header that have been read, as long as it is
    /// incomplete.
    pub read: Seq<u8>,
    /// How many bytes follow the first two, as the last header whose first
    /// two bytes were read said.
    pub extended_size: nat,
    /// The header, once all its bytes have been read and until it is taken.
    pub header: Option<FrameHeader>,
}

/// The smaller of two numbers.
pub open spec fn at_most(a: int, b: int) -> int {
    if a <= b {
        a
    } else {
        b
    }
}

/// What the header decoder makes of the input `input`: its state
/// afterwards, and either the number of bytes that it read or the reason of
/// its failure.  It reads the first two bytes, which say how many follow,
/// then those; it stops where the input ends.  An unknown opcode in the first
/// byte is invalid input, and so is a payload length above
/// `MAX_PAYLOAD_LEN`; either makes the decoder start over.  Where the stream
/// has ended with the header incomplete, the end is unexpected.
#[verifier::opaque]
pub open spec fn header_decode_step(pre: HeaderDecoderView, input: Seq<u8>, eos: bool) -> (
    HeaderDecoderView,
    Result<usize, CodecErrorKind>,
) {
    if pre.header is Some {
        (pre, Ok(0))
    } else {
        let n1 = if pre.read.len() < 2 {
            at_most(input.len() as int, 2 - pre.read.len())
        } else {
            0
        };
        let read1 = pre.read + input.take(n1);
        if read1.len() < 2 {
            (
                HeaderDecoderView { read: read1, ..pre },
                if eos {
                    Err(CodecErrorKind::UnexpectedEos)
                } else {
                    Ok(n1 as usize)
                },
            )
        } else if fixed_part(read1[0], read1[1]) is None {
            (HeaderDecoderView { read: Seq::empty(), ..pre }, Err(CodecErrorKind::InvalidInput))
        } else {
            let size = extended_size(read1[1]);
            let n2 = at_most(input.len() - n1, 2 + size - read1.len());
            let read2 = read1 + input.subrange(n1, n1 + n2);
            if read2.len() < 2 + size {
                (
                    HeaderDecoderView { read: read2, extended_size: size, header: None },
                    if eos {
                        Err(CodecErrorKind::UnexpectedEos)
                    } else {
                        Ok((n1 + n2) as usize)
                    },
                )
            } else {
                (
                    HeaderDecoderView {
                        read: Seq::empty(),
                        extended_size: size,
                        header: parse_header(read2),
                    },
                    if parse_header(read2) is Some {
                        Ok((n1 + n2) as usize)
                    } else {
                        Err(CodecErrorKind::InvalidInput)
                    },
                )
            }
        }
    }
}

/// What holds of a header decoder at any time: a header that is complete
/// has left no bytes behind and announces no more than `MAX_PAYLOAD_LEN`
/// bytes of payload, and one that is incomplete has a known opcode and
/// fewer bytes than its first two ask for.
pub open spec fn header_decoder_inv(v: HeaderDecoderView) -> bool {
    &&& v.extended_size <= 12
    &&& v.header matches Some(header) ==> v.read.len() == 0 && header.payload_len
        <= MAX_PAYLOAD_LEN
    &&& v.read.len() >= 2 ==> fixed_part(v.read[0], v.read[1]) is Some && v.extended_size
        == extended_size(v.read[1]) && v.read.len() < 2 + v.extended_size
}

/// The header decoder keeps its invariant, and reads no more bytes than it
/// is given.
pub proof fn lemma_header_decode_step(pre: HeaderDecoderView, input: Seq<u8>, eos: bool)
    requires
        header_decoder_inv(pre),
        input.len() <= usize::MAX,
    ensures
        header_decoder_inv(header_decode_step(pre, input, eos).0),
        header_decode_step(pre, input, eos).1 matches Ok(n) ==> n <= input.len(),
        header_decode_step(pre, input, eos).0.header is Some ==> header_decode_step(
            pre,
            input,
            eos,
        ).1 is Ok,
{
    reveal(header_decode_step);
    if pre.header is None {
        let n1 = if pre.read.len() < 2 {
            at_most(input.len() as int, 2 - pre.read.len())
        } else {
            0
        };
        let read1 = pre.read + input.take(n1);
        if read1.len() >= 2 && fixed_part(read1[0], read1[1]) is Some {
            if pre.read.len() >= 2 {
                assert(read1 =~= pre.read);
            }
            let size = extended_size(read1[1]);
            let n2 = at_most(input.len() - n1, 2 + size - read1.len());
            let read2 = read1 + input.subrange(n1, n1 + n2);
            assert(read2[0] == read1[0] && read2[1] == read1[1]);
        }
    }
}

/// What taking the header out of the decoder gives: the decoder afterwards,
/// and the header if it was complete.
pub open spec fn header_finish_step(pre: HeaderDecoderView) -> (
    HeaderDecoderView,
    Result<FrameHeader, CodecErrorKind>,
) {
    match pre.header {
        Some(header) => (HeaderDecoderView { header: None, ..pre }, Ok(header)),
        None => (pre, Err(CodecErrorKind::IncompleteDecoding)),
    }
}

/// The bytes of the header that follow the first two.
#[derive(Debug)]
struct ExtendedHeaderBytes {
    bytes: Vec<u8>,
    size: usize,
}

/// Decoder of frame headers.
#[derive(Debug)]
pub struct FrameHeaderDecoder {
    fixed_bytes: Vec<u8>,
    fixed_offset: usize,
    extended_bytes: ExtendedHeaderBytes,
    extended_offset: usize,
    header: Option<FrameHeader>,
    completed: bool,
}

impl View for FrameHeaderDecoder {
    type V = HeaderDecoderView;

    closed spec fn view(&self) -> HeaderDecoderView {
        HeaderDecoderView {
            read: if self.completed {
                Seq::empty()
            } else if self.header is Some {
                self.fixed_bytes@ + self.extended_bytes.bytes@.take(self.extended_offset as int)
            } else {
                self.fixed_bytes@.take(self.fixed_offset as int)
            },
            extended_size: self.extended_bytes.size as nat,
            header: if self.completed {
                self.header
            } else {
                None
            },
        }
    }
}

impl FrameHeaderDecoder {
    /// The two parts of the header are read in turn, and what the first part
    /// said is kept while the second is read.
    pub closed spec fn wf(&self) -> bool {
        &&& self.fixed_bytes@.len() == 2
        &&& self.extended_bytes.bytes@.len() == 12
        &&& self.extended_bytes.size <= 12
        &&& self.completed ==> self.header is Some && self.fixed_offset == 0
            && self.extended_offset == 0 && self.header->0.payload_len <= MAX_PAYLOAD_LEN
        &&& !self.completed && self.header is None ==> self.fixed_offset < 2
            && self.extended_offset == 0
        &&& !self.completed && self.header is Some ==> {
            &&& self.fixed_offset == 0
            &&& self.extended_offset < self.extended_bytes.size
            &&& self.extended_bytes.size == extended_size(self.fixed_bytes@[1])
            &&& fixed_part(self.fixed_bytes@[0], self.fixed_bytes@[1]) == self.header
        }
    }

    /// A well-formed decoder keeps the invariant of its view.
    pub proof fn lemma_wf(&self)
        requires
            self.wf(),
        ensures
            header_decoder_inv(self@),
    {
    }

    /// Makes a decoder that has read nothing.
    pub fn new() -> (decoder: FrameHeaderDecoder)
        ensures
            decoder.wf(),
            decoder@ == (HeaderDecoderView { read: Seq::empty(), extended_size: 0, header: None }),
    {
        let decoder = FrameHeaderDecoder {
            fixed_bytes: vec![0u8; 2],
            fixed_offset: 0,
            extended_bytes: ExtendedHeaderBytes { bytes: vec![0u8; 12], size: 0 },
            extended_offset: 0,
            header: None,
            completed: false,
        };
        assert(decoder@.read =~= Seq::<u8>::empty());
        decoder
    }

    /// Copies bytes of `buf` into the first part of the header, as many as
    /// there are and as the part still takes.
    fn read_fixed(&mut self, buf: &[u8]) -> (n: usize)
        requires
            old(self).wf(),
            !old(self).completed,
            old(self).header is None,
        ensures
            n == at_most(buf@.len() as int, 2 - old(self).fixed_offset),
            final(self).fixed_bytes@.len() == 2,
            final(self).fixed_bytes@.take(old(self).fixed_offset + n)
                == old(self).fixed_bytes@.take(old(self).fixed_offset as int) + buf@.take(
                n as int,
            ),
            final(self).fixed_offset == old(self).fixed_offset + n,
            final(self).extended_bytes == old(self).extended_bytes,
            final(self).extended_offset == old(self).extended_offset,
            final(self).header == old(self).header,
            final(self).completed == old(self).completed,
    {
        let wanted = 2 - self.fixed_offset;
        let n = if buf.len() < wanted {
            buf.len()
        } else {
            wanted
        };
        let start = self.fixed_offset;
        let mut i: usize = 0;
        while i < n
            invariant
                i <= n <= buf@.len(),
                start + n <= 2,
                self.fixed_bytes@.len() == 2,
                self.fixed_offset == start,
                self.extended_bytes == old(self).extended_bytes,
                self.extended_offset == old(self).extended_offset,
                self.header == old(self).header,
                self.completed == old(self).completed,
                forall|k: int| 0 <= k < start ==> self.fixed_bytes@[k] == old(self).fixed_bytes@[k],
                forall|k: int| 0 <= k < i ==> self.fixed_bytes@[start + k] == buf@[k],
            decreases n - i,
        {
            self.fixed_bytes[start + i] = buf[i];
            i = i + 1;
        }
        self.fixed_offset = start + n;
        assert(self.fixed_bytes@.take(start + n) =~= old(self).fixed_bytes@.take(start as int)
            + buf@.take(n as int));
        n
    }

    /// Copies bytes of `buf`, from `offset` on, into the second part of the
    /// header, as many as there are and as the part still takes.
    fn read_extended(&mut self, buf: &[u8], offset: usize) -> (n: usize)
        requires
            old(self).extended_bytes.bytes@.len() == 12,
            old(self).extended_offset <= old(self).extended_bytes.size <= 12,
            offset <= buf@.len(),
        ensures
            n == at_most(
                buf@.len() - offset,
                old(self).extended_bytes.size - old(self).extended_offset,
            ),
            final(self).extended_bytes.bytes@.len() == 12,
            final(self).extended_bytes.size == old(self).extended_bytes.size,
            final(self).extended_bytes.bytes@.take(old(self).extended_offset + n)
                == old(self).extended_bytes.bytes@.take(old(self).extended_offset as int)
                + buf@.subrange(
                offset as int,
                offset + n,
            ),
            final(self).extended_offset == old(self).extended_offset + n,
            final(self).fixed_bytes == old(self).fixed_bytes,
            final(self).fixed_offset == old(self).fixed_offset,
            final(self).header == old(self).header,
            final(self).completed == old(self).completed,
    {
        let size = self.extended_bytes.size;
        let wanted = size - self.extended_offset;
        let room = buf.len() - offset;
        let n = if room < wanted {
            room
        } else {
            wanted
        };
        let start = self.extended_offset;
        let mut i: usize = 0;
        while i < n
            invariant
                i <= n,
                offset + n <= buf@.len() <= usize::MAX,
                start + n <= size <= 12,
                self.extended_bytes.bytes@.len() == 12,
                self.extended_bytes.size == size,
                self.extended_offset == start,
                self.fixed_bytes == old(self).fixed_bytes,
                self.fixed_offset == old(self).fixed_offset,
                self.header == old(self).header,
                self.completed == old(self).completed,
                forall|k: int|
                    0 <= k < start ==> self.extended_bytes.bytes@[k] == old(self).extended_bytes.bytes@[k],
                forall|k: int|
                    start <= k < start + i ==> self.extended_bytes.bytes@[k] == buf@[offset + k
                        - start],
            decreases n - i,
        {
            self.extended_bytes.bytes[start + i] = buf[offset + i];
            i = i + 1;
        }
        self.extended_offset = start + n;
        assert(self.extended_bytes.bytes@.take(start + n) =~= old(self).extended_bytes.bytes@.take(
            start as int,
        ) + buf@.subrange(offset as int, offset + n));
        n
    }

    /// What the first part of the header asks of the second, once it is
    /// complete: none where the opcode is unknown.
    fn fixed_complete(&mut self) -> (r: Result<(), CodecErrorKind>)
        requires
            old(self).fixed_bytes@.len() == 2,
            old(self).extended_bytes.bytes@.len() == 12,
            old(self).header is None,
            !old(self).completed,
            old(self).extended_offset == 0,
        ensures
            final(self).fixed_bytes == old(self).fixed_bytes,
            final(self).fixed_offset == 0,
            final(self).extended_bytes.bytes == old(self).extended_bytes.bytes,
            final(self).extended_offset == 0,
            !final(self).completed,
            match fixed_part(old(self).fixed_bytes@[0], old(self).fixed_bytes@[1]) {
                Some(header) => r is Ok && final(self).header == Some(header)
                    && final(self).extended_bytes.size == extended_size(
                    old(self).fixed_bytes@[1],
                ),
                None => r == Err::<(), CodecErrorKind>(CodecErrorKind::InvalidInput)
                    && final(self).header is None && final(self).extended_bytes.size
                    == old(self).extended_bytes.size,
            },
    {
        self.fixed_offset = 0;
        let b: [u8; 2] = [self.fixed_bytes[0], self.fixed_bytes[1]];
        let header = match FrameHeader::from_bytes(b) {
            Ok(header) => header,
            Err(e) => {
                return Err(e);
            },
        };
        let mut size: usize = 0;
        if header.mask.is_some() {
            size = 4;
        }
        if header.payload_len == 126 {
            size = size + 2;
        } else if header.payload_len == 127 {
            size = size + 8;
        }
        self.extended_bytes.size = size;
        self.header = Some(header);
        Ok(())
    }

    /// Reads the payload length and the masking key from the second part of
    /// the header, once it is complete.  A payload length that no header can
    /// announce is invalid input, and the header is given up.
    fn extended_complete(&mut self) -> (r: Result<(), CodecErrorKind>)
        requires
            old(self).fixed_bytes@.len() == 2,
            old(self).extended_bytes.bytes@.len() == 12,
            old(self).extended_bytes.size == extended_size(old(self).fixed_bytes@[1]),
            old(self).header == fixed_part(old(self).fixed_bytes@[0], old(self).fixed_bytes@[1]),
            old(self).header is Some,
            old(self).fixed_offset == 0,
        ensures
            final(self).fixed_bytes == old(self).fixed_bytes,
            final(self).fixed_offset == 0,
            final(self).extended_bytes == old(self).extended_bytes,
            final(self).extended_offset == 0,
            final(self).header == parse_header(
                old(self).fixed_bytes@ + old(self).extended_bytes.bytes@.take(
                    old(self).extended_bytes.size as int,
                ),
            ),
            final(self).completed == final(self).header is Some,
            r == (if final(self).header is Some {
                Ok::<(), CodecErrorKind>(())
            } else {
                Err::<(), CodecErrorKind>(CodecErrorKind::InvalidInput)
            }),
    {
        let size = self.extended_bytes.size;
        let ghost all = self.fixed_bytes@ + self.extended_bytes.bytes@.take(size as int);
        self.extended_offset = 0;
        let mut header = match self.header {
            Some(header) => header,
            None => {
                return Err(CodecErrorKind::InvalidInput);
            },
        };
        let extended = vstd::slice::slice_subrange(self.extended_bytes.bytes.as_slice(), 0, size);
        assert(extended@ =~= all.skip(2));
        let mut at: usize = 0;
        if header.payload_len == 126 {
            header.payload_len = read_u16_be(extended) as u64;
            at = 2;
        } else if header.payload_len == 127 {
            header.payload_len = read_u64_be(extended);
            at = 8;
        }
        if header.payload_len > MAX_PAYLOAD_LEN {
            self.header = None;
            self.completed = false;
            return Err(CodecErrorKind::InvalidInput);
        }
        if header.mask.is_some() {
            header.mask = Some([extended[at], extended[at + 1], extended[at + 2], extended[at + 3]]);
        }
        proof {
            let wanted = parse_header(all)->0;
            assert(header.mask is Some ==> header.mask->0@ =~= wanted.mask->0@);
        }
        self.header = Some(header);
        self.completed = true;
        Ok(())
    }

    /// Reads on in the header.
    pub fn decode(&mut self, buf: &[u8], eos: bool) -> (r: Result<usize, CodecErrorKind>)
        requires
            old(self).wf(),
        ensures
            final(self).wf(),
            final(self)@ == header_decode_step(old(self)@, buf@, eos).0,
            r == header_decode_step(old(self)@, buf@, eos).1,
            r matches Ok(n) ==> n <= buf@.len(),
    {
        proof {
            reveal(header_decode_step);
        }
        if self.completed {
            return Ok(0);
        }
        let ghost pre = self@;
        let mut offset: usize = 0;
        if self.header.is_none() {
            let n1 = self.read_fixed(buf);
            if self.fixed_offset != 2 {
                if eos {
                    return Err(CodecErrorKind::UnexpectedEos);
                }
                return Ok(n1);
            }
            assert(self.fixed_bytes@ =~= self.fixed_bytes@.take(2));
            match self.fixed_complete() {
                Ok(()) => {},
                Err(e) => {
                    assert(self@.read =~= Seq::<u8>::empty());
                    return Err(e);
                },
            }
            offset = n1;
        }
        let ghost read1 = self.fixed_bytes@ + self.extended_bytes.bytes@.take(
            self.extended_offset as int,
        );
        assert(read1 =~= pre.read + buf@.take(offset as int));
        let size = self.extended_bytes.size;
        let mut n2: usize = 0;
        if self.extended_offset != size {
            n2 = self.read_extended(buf, offset);
            assert(self.fixed_bytes@ + self.extended_bytes.bytes@.take(self.extended_offset as int)
                =~= read1 + buf@.subrange(offset as int, offset + n2));
            if self.extended_offset != size {
                if eos {
                    return Err(CodecErrorKind::UnexpectedEos);
                }
                return Ok(offset + n2);
            }
        }
        assert(self.extended_bytes.bytes@.take(size as int) =~= self.extended_bytes.bytes@.take(
            self.extended_offset as int,
        ));
        let completed = self.extended_complete();
        assert(self@.read =~= Seq::<u8>::empty());
        match completed {
            Ok(()) => Ok(offset + n2),
            Err(e) => Err(e),
        }
    }

    /// Takes the header out of the decoder; one that is incomplete cannot be
    /// taken.  No header that is taken announces more than
    /// `MAX_PAYLOAD_LEN` bytes of payload.
    pub fn finish_decoding(&mut self) -> (r: Result<FrameHeader, CodecErrorKind>)
        requires
            old(self).wf(),
        ensures
            final(self).wf(),
            final(self)@ == header_finish_step(old(self)@).0,
            r == header_finish_step(old(self)@).1,
            r matches Ok(header) ==> header.payload_len <= MAX_PAYLOAD_LEN,
    {
        if !self.completed {
            return Err(CodecErrorKind::IncompleteDecoding);
        }
        match self.header {
            Some(header) => {
                self.header = None;
                self.completed = false;
                assert(self@.read =~= Seq::<u8>::empty());
                Ok(header)
            },
            None => Err(CodecErrorKind::InconsistentState),
        }
    }

    /// Returns `true` if a header is complete and waits to be taken.
    pub fn is_idle(&self) -> (idle: bool)
        requires
            self.wf(),
        ensures
            idle == (self@.header is Some),
    {
        self.completed
    }

    /// The number of bytes that the two parts of the header ask for as the
    /// decoder stands.
    pub open spec fn spec_requiring_bytes(v: HeaderDecoderView) -> ByteCount {
        if v.header is Some {
            ByteCount::Finite(0)
        } else if v.read.len() < 2 {
            ByteCount::Finite((2 - v.read.len() + v.extended_size) as u64)
        } else {
            ByteCount::Finite((4 + v.extended_size - v.read.len()) as u64)
        }
    }

    /// The number of bytes that the two parts of the header still ask for:
    /// the first part for what it lacks of its two bytes, and for two again
    /// once it has had them; the second part for what it lacks of the size
    /// that the last first part named.
    pub fn requiring_bytes(&self) -> (n: ByteCount)
        requires
            self.wf(),
        ensures
            n == Self::spec_requiring_bytes(self@),
            n matches ByteCount::Finite(a) && a <= 16,
    {
        if self.completed {
            ByteCount::Finite(0)
        } else {
            let n = (2 - self.fixed_offset) + (self.extended_bytes.size - self.extended_offset);
            ByteCount::Finite(n as u64)
        }
    }
}

impl Default for FrameHeaderDecoder {
    fn default() -> (decoder: FrameHeaderDecoder)
        ensures
            decoder.wf(),
            decoder@ == (HeaderDecoderView { read: Seq::empty(), extended_size: 0, header: None }),
    {
        FrameHeaderDecoder::new()
    }
}

} // verus!
