//! The header of a WebSocket frame and its bytes on the wire
//! (RFC 6455, section 5.2).
use crate::opcode::Opcode;
use byteorder::{BigEndian, ByteOrder};
use vstd::prelude::*;

verus! {

/// The flag in the first byte of a header that marks the last frame of a
/// message.
pub const FIN_FLAG: u8 = 0x80;

/// The flag in the second byte of a header that says a masking key follows.
pub const MASK_FLAG: u8 = 0x80;

/// The longest payload that a header can announce: the most significant of
/// the 64 bits of a length is zero.
pub const MAX_PAYLOAD_LEN: u64 = 0x7FFF_FFFF_FFFF_FFFF;

/// The header of a frame.
#[derive(Debug, Clone, Copy)]
pub struct FrameHeader {
    /// Whether this frame is the last one of its message.
    pub fin_flag: bool,
    pub opcode: Opcode,
    /// The key by which the payload is masked, on frames from a client.
    pub mask: Option<[u8; 4]>,
    pub payload_len: u64,
}

/// The number that two bytes spell, the first being the more significant.
pub open spec fn u16_from_be(b: Seq<u8>) -> u16
    recommends
        b.len() >= 2,
{
    (b[0] as int * 0x100 + b[1] as int) as u16
}

/// The number that eight bytes spell, the first being the most significant.
pub open spec fn u64_from_be(b: Seq<u8>) -> u64
    recommends
        b.len() >= 8,
{
    (b[0] as int * 0x100_0000_0000_0000 + b[1] as int * 0x1_0000_0000_0000 + b[2] as int
        * 0x100_0000_0000 + b[3] as int * 0x1_0000_0000 + b[4] as int * 0x100_0000 + b[5] as int
        * 0x1_0000 + b[6] as int * 0x100 + b[7] as int) as u64
}

/// The two bytes that spell `v`, the more significant first.
pub open spec fn u16_to_be(v: u16) -> Seq<u8> {
    seq![(v / 0x100) as u8, (v % 0x100) as u8]
}

/// The eight bytes that spell `v`, the most significant first.
pub open spec fn u64_to_be(v: u64) -> Seq<u8> {
    seq![
        (v / 0x100_0000_0000_0000) as u8,
        (v / 0x1_0000_0000_0000 % 0x100) as u8,
        (v / 0x100_0000_0000 % 0x100) as u8,
        (v / 0x1_0000_0000 % 0x100) as u8,
        (v / 0x100_0000 % 0x100) as u8,
        (v / 0x1_0000 % 0x100) as u8,
        (v / 0x100 % 0x100) as u8,
        (v % 0x100) as u8,
    ]
}

/// `BigEndian::read_u16` of byteorder: the number that the first two bytes
/// of `buf` spell in big-endian order.
#[verifier::external_body]
pub(crate) fn read_u16_be(buf: &[u8]) -> (v: u16)
    requires
        buf@.len() >= 2,
    ensures
        v == u16_from_be(buf@),
{
    BigEndian::read_u16(buf)
}

/// `BigEndian::read_u64` of byteorder: the number that the first eight bytes
/// of `buf` spell in big-endian order.
#[verifier::external_body]
pub(crate) fn read_u64_be(buf: &[u8]) -> (v: u64)
    requires
        buf@.len() >= 8,
    ensures
        v == u64_from_be(buf@),
{
    BigEndian::read_u64(buf)
}

/// `BigEndian::write_u16` of byteorder: spells `v` in big-endian order on
/// the first two bytes of `buf`, and leaves the others.
#[verifier::external_body]
pub(crate) fn write_u16_be(buf: &mut [u8], v: u16)
    requires
        old(buf)@.len() >= 2,
    ensures
        final(buf)@ == u16_to_be(v) + old(buf)@.skip(2),
{
    BigEndian::write_u16(buf, v)
}

/// `BigEndian::write_u64` of byteorder: spells `v` in big-endian order on
/// the first eight bytes of `buf`, and leaves the others.
#[verifier::external_body]
pub(crate) fn write_u64_be(buf: &mut [u8], v: u64)
    requires
        old(buf)@.len() >= 8,
    ensures
        final(buf)@ == u64_to_be(v) + old(buf)@.skip(8),
{
    BigEndian::write_u64(buf, v)
}

/// Reading back what was spelt gives the number again.
pub proof fn lemma_u16_be_roundtrip(v: u16)
    ensures
        u16_to_be(v).len() == 2,
        u16_from_be(u16_to_be(v)) == v,
{
}

/// Reading back what was spelt gives the number again.
pub proof fn lemma_u64_be_roundtrip(v: u64)
    ensures
        u64_to_be(v).len() == 8,
        u64_from_be(u64_to_be(v)) == v,
{
    assert(v == (v / 0x100_0000_0000_0000) * 0x100_0000_0000_0000 + (v / 0x1_0000_0000_0000
        % 0x100) * 0x1_0000_0000_0000 + (v / 0x100_0000_0000 % 0x100) * 0x100_0000_0000 + (v
        / 0x1_0000_0000 % 0x100) * 0x1_0000_0000 + (v / 0x100_0000 % 0x100) * 0x100_0000 + (v
        / 0x1_0000 % 0x100) * 0x1_0000 + (v / 0x100 % 0x100) * 0x100 + v % 0x100)
        by (bit_vector);
    assert(v / 0x100_0000_0000_0000 < 0x100) by (bit_vector);
}

/// The seven-bit length field of a header for a payload of `payload_len`
/// bytes: the length itself below 126, else 126 where two bytes can spell
/// it, else 127.
pub open spec fn len7_of(payload_len: u64) -> u8 {
    if payload_len < 126 {
        payload_len as u8
    } else if payload_len < 0x10000 {
        126
    } else {
        127
    }
}

/// How many bytes spell the payload length after the second byte of a
/// header whose length field is `len7`.
pub open spec fn extended_len_size(len7: u8) -> nat {
    if len7 == 126 {
        2
    } else if len7 == 127 {
        8
    } else {
        0
    }
}

/// How many bytes follow the second byte `b1` in a header: those of the
/// extended payload length and the four of the masking key, if any.
pub open spec fn extended_size(b1: u8) -> nat {
    extended_len_size(b1 % 128) + if b1 >= 128 {
        4nat
    } else {
        0nat
    }
}

/// The bytes that spell the payload length after the second byte.
pub open spec fn extended_len_bytes(payload_len: u64) -> Seq<u8> {
    if payload_len < 126 {
        Seq::empty()
    } else if payload_len < 0x10000 {
        u16_to_be(payload_len as u16)
    } else {
        u64_to_be(payload_len)
    }
}

/// The bytes of a masking key, or none.
pub open spec fn mask_bytes(mask: Option<[u8; 4]>) -> Seq<u8> {
    match mask {
        Some(key) => key@,
        None => Seq::empty(),
    }
}

/// The first byte of a header: the FIN flag and the opcode, the three
/// reserved bits being zero.
pub open spec fn first_byte(fin_flag: bool, opcode: Opcode) -> u8 {
    ((if fin_flag {
        128int
    } else {
        0int
    }) + opcode.spec_to_u8()) as u8
}

/// The second byte of a header: the mask flag and the length field.
pub open spec fn second_byte(masked: bool, payload_len: u64) -> u8 {
    ((if masked {
        128int
    } else {
        0int
    }) + len7_of(payload_len)) as u8
}

/// The bytes of a header on the wire.
pub open spec fn header_bytes(header: FrameHeader) -> Seq<u8> {
    seq![
        first_byte(header.fin_flag, header.opcode),
        second_byte(header.mask is Some, header.payload_len),
    ] + extended_len_bytes(header.payload_len) + mask_bytes(header.mask)
}

/// The payload length that a header spells whose second byte is `b1` and
/// whose further bytes are `extended`.
pub open spec fn parsed_payload_len(b1: u8, extended: Seq<u8>) -> u64 {
    if b1 % 128 == 126 {
        u16_from_be(extended) as u64
    } else if b1 % 128 == 127 {
        u64_from_be(extended)
    } else {
        (b1 % 128) as u64
    }
}

/// The masking key in a header whose second byte is `b1` and whose further
/// bytes are `extended`.
pub open spec fn parsed_mask(b1: u8, extended: Seq<u8>) -> Option<[u8; 4]> {
    if b1 >= 128 {
        let at = extended_len_size(b1 % 128) as int;
        Some([extended[at], extended[at + 1], extended[at + 2], extended[at + 3]])
    } else {
        None
    }
}

/// The header that the bytes `bytes` spell, which are as many as their
/// second byte asks for; none where the opcode is unknown, and none where
/// the payload length is above `MAX_PAYLOAD_LEN`.  The three reserved bits
/// of the first byte are not looked at.
pub open spec fn parse_header(bytes: Seq<u8>) -> Option<FrameHeader>
    recommends
        bytes.len() >= 2,
        bytes.len() == 2 + extended_size(bytes[1]),
{
    match Opcode::spec_from_u8(bytes[0] % 16) {
        None => None,
        Some(opcode) => if parsed_payload_len(bytes[1], bytes.skip(2)) > MAX_PAYLOAD_LEN {
            None
        } else {
            Some(
                FrameHeader {
                    fin_flag: bytes[0] >= 128,
                    opcode,
                    mask: parsed_mask(bytes[1], bytes.skip(2)),
                    payload_len: parsed_payload_len(bytes[1], bytes.skip(2)),
                },
            )
        },
    }
}

impl FrameHeader {
    /// The bytes of the header on the wire.
    pub fn to_bytes(&self) -> (bytes: Vec<u8>)
        ensures
            bytes@ == header_bytes(*self),
    {
        let ghost wanted = header_bytes(*self);
        let op = self.opcode.to_u8();
        let payload_len = self.payload_len;
        let len7: u8 = if payload_len < 126 {
            payload_len as u8
        } else if payload_len < 0x10000 {
            126
        } else {
            127
        };
        assert(FIN_FLAG | op == 128 + op) by (bit_vector)
            requires
                op < 16,
                FIN_FLAG == 0x80,
        ;
        assert(MASK_FLAG | len7 == 128 + len7) by (bit_vector)
            requires
                len7 < 128,
                MASK_FLAG == 0x80,
        ;
        let mut bytes: Vec<u8> = vec![0u8; 14];
        bytes[0] = if self.fin_flag {
            FIN_FLAG | op
        } else {
            op
        };
        bytes[1] = if self.mask.is_some() {
            MASK_FLAG | len7
        } else {
            len7
        };
        let mut size: usize = 2;
        if len7 == 126 {
            let (_, rest) = bytes.as_mut_slice().split_at_mut(2);
            write_u16_be(rest, payload_len as u16);
            size = 4;
        } else if len7 == 127 {
            let (_, rest) = bytes.as_mut_slice().split_at_mut(2);
            write_u64_be(rest, payload_len);
            size = 10;
        }
        assert(bytes@.take(size as int) =~= seq![
            first_byte(self.fin_flag, self.opcode),
            second_byte(self.mask is Some, self.payload_len),
        ] + extended_len_bytes(self.payload_len));
        match self.mask {
            Some(key) => {
                let ghost before = bytes@;
                let mut i: usize = 0;
                while i < 4
                    invariant
                        i <= 4,
                        size <= 10,
                        bytes@.len() == 14,
                        key@.len() == 4,
                        bytes@.take(size as int) == before.take(size as int),
                        forall|k: int| 0 <= k < i ==> bytes@[size + k] == key@[k],
                    decreases 4 - i,
                {
                    bytes[size + i] = key[i];
                    i = i + 1;
                    assert(bytes@.take(size as int) =~= before.take(size as int));
                }
                assert(bytes@.take(size + 4) =~= before.take(size as int) + key@);
                size = size + 4;
            },
            None => {},
        }
        bytes.truncate(size);
        assert(bytes@ =~= wanted);
        bytes
    }
}

/// The length of the bytes of a header.
pub proof fn lemma_header_bytes_len(header: FrameHeader)
    ensures
        header_bytes(header).len() == 2 + extended_size(header_bytes(header)[1]),
        header_bytes(header).len() == 2 + extended_len_size(len7_of(header.payload_len)) + (
        if header.mask is Some {
            4nat
        } else {
            0nat
        }),
        2 <= header_bytes(header).len() <= 14,
{
}

/// Frame header round trip: the bytes of a header spell that header again,
/// whatever its flags, opcode and masking key, and whatever payload length
/// a header can announce.
pub proof fn lemma_header_roundtrip(header: FrameHeader)
    requires
        header.payload_len <= MAX_PAYLOAD_LEN,
    ensures
        parse_header(header_bytes(header)) == Some(header),
{
    let bytes = header_bytes(header);
    let op = header.opcode.spec_to_u8();
    assert(Opcode::spec_from_u8(op) == Some(header.opcode) && op < 16);
    lemma_header_bytes_len(header);
    let extended = bytes.skip(2);
    assert(extended =~= extended_len_bytes(header.payload_len) + mask_bytes(header.mask));
    if header.payload_len < 126 {
    } else if header.payload_len < 0x10000 {
        lemma_u16_be_roundtrip(header.payload_len as u16);
        assert(extended[0] == u16_to_be(header.payload_len as u16)[0]);
        assert(extended[1] == u16_to_be(header.payload_len as u16)[1]);
    } else {
        lemma_u64_be_roundtrip(header.payload_len);
        let spelt = u64_to_be(header.payload_len);
        assert(forall|i: int| 0 <= i < 8 ==> extended[i] == spelt[i]);
        assert(u64_from_be(extended) == u64_from_be(spelt));
    }
    match header.mask {
        Some(key) => {
            let parsed = parse_header(bytes)->0;
            assert(parsed.mask->0@ =~= key@);
            assert(parsed.mask->0 == key);
        },
        None => {},
    }
}

} // verus!
