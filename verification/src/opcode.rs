use crate::error::CodecErrorKind;
use vstd::prelude::*;

verus! {

/// Opcode of a WebSocket frame.
#[derive(Debug, Clone, Copy, PartialEq, Eq, Structural)]
pub enum Opcode {
    ContinuationFrame,
    TextFrame,
    BinaryFrame,
    ConnectionClose,
    Ping,
    Pong,
}

impl Opcode {
    /// The four-bit wire value of the opcode.
    pub open spec fn spec_to_u8(self) -> u8 {
        match self {
            Opcode::ContinuationFrame => 0x0,
            Opcode::TextFrame => 0x1,
            Opcode::BinaryFrame => 0x2,
            Opcode::ConnectionClose => 0x8,
            Opcode::Ping => 0x9,
            Opcode::Pong => 0xA,
        }
    }

    /// The opcode whose wire value is `n`, if there is one.
    pub open spec fn spec_from_u8(n: u8) -> Option<Opcode> {
        if n == 0x0 {
            Some(Opcode::ContinuationFrame)
        } else if n == 0x1 {
            Some(Opcode::TextFrame)
        } else if n == 0x2 {
            Some(Opcode::BinaryFrame)
        } else if n == 0x8 {
            Some(Opcode::ConnectionClose)
        } else if n == 0x9 {
            Some(Opcode::Ping)
        } else if n == 0xA {
            Some(Opcode::Pong)
        } else {
            None
        }
    }

    /// Whether the opcode belongs to a control frame.
    pub open spec fn spec_is_control(&self) -> bool {
        *self == Opcode::ConnectionClose || *self == Opcode::Ping || *self == Opcode::Pong
    }

    /// Reads an opcode from its wire value; any value without an opcode is
    /// invalid input.
    pub fn from_u8(n: u8) -> (r: Result<Opcode, CodecErrorKind>)
        ensures
            match Opcode::spec_from_u8(n) {
                Some(opcode) => r == Ok::<Opcode, CodecErrorKind>(opcode),
                None => r == Err::<Opcode, CodecErrorKind>(CodecErrorKind::InvalidInput),
            },
    {
        match n {
            0x0 => Ok(Opcode::ContinuationFrame),
            0x1 => Ok(Opcode::TextFrame),
            0x2 => Ok(Opcode::BinaryFrame),
            0x8 => Ok(Opcode::ConnectionClose),
            0x9 => Ok(Opcode::Ping),
            0xA => Ok(Opcode::Pong),
            _ => Err(CodecErrorKind::InvalidInput),
        }
    }

    /// The wire value of the opcode.
    #[verifier::when_used_as_spec(spec_to_u8)]
    pub fn to_u8(self) -> (n: u8)
        ensures
            n == self.spec_to_u8(),
    {
        match self {
            Opcode::ContinuationFrame => 0x0,
            Opcode::TextFrame => 0x1,
            Opcode::BinaryFrame => 0x2,
            Opcode::ConnectionClose => 0x8,
            Opcode::Ping => 0x9,
            Opcode::Pong => 0xA,
        }
    }

    /// `true` for Close, Ping and Pong.
    #[verifier::when_used_as_spec(spec_is_control)]
    pub fn is_control(&self) -> (b: bool)
        ensures
            b == self.spec_is_control(),
    {
        match *self {
            Opcode::ConnectionClose | Opcode::Ping | Opcode::Pong => true,
            _ => false,
        }
    }
}

/// Reading back the wire value of an opcode gives that opcode, and every
/// wire value is below sixteen.
pub proof fn lemma_opcode_roundtrip(opcode: Opcode)
    ensures
        Opcode::spec_from_u8(opcode.spec_to_u8()) == Some(opcode),
        opcode.spec_to_u8() < 16,
{
}

} // verus!
