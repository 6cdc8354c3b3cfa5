use wstcp::{CodecErrorKind, Opcode};

#[test]
fn opcode_from_u8_reads_the_six_opcodes() {
    assert_eq!(Opcode::from_u8(0x0), Ok(Opcode::ContinuationFrame));
    assert_eq!(Opcode::from_u8(0x1), Ok(Opcode::TextFrame));
    assert_eq!(Opcode::from_u8(0x2), Ok(Opcode::BinaryFrame));
    assert_eq!(Opcode::from_u8(0x8), Ok(Opcode::ConnectionClose));
    assert_eq!(Opcode::from_u8(0x9), Ok(Opcode::Ping));
    assert_eq!(Opcode::from_u8(0xA), Ok(Opcode::Pong));
}

#[test]
fn opcode_from_u8_rejects_every_other_value() {
    for n in 0u8..=255 {
        let known = matches!(n, 0x0 | 0x1 | 0x2 | 0x8 | 0x9 | 0xA);
        match Opcode::from_u8(n) {
            Ok(opcode) => {
                assert!(known);
                assert_eq!(opcode.to_u8(), n);
            }
            Err(e) => {
                assert!(!known);
                assert_eq!(e, CodecErrorKind::InvalidInput);
            }
        }
    }
}

#[test]
fn opcode_is_control_for_close_ping_pong() {
    assert!(Opcode::ConnectionClose.is_control());
    assert!(Opcode::Ping.is_control());
    assert!(Opcode::Pong.is_control());
    assert!(!Opcode::ContinuationFrame.is_control());
    assert!(!Opcode::TextFrame.is_control());
    assert!(!Opcode::BinaryFrame.is_control());
}

#[test]
fn opcode_wire_values() {
    assert_eq!(Opcode::ContinuationFrame.to_u8(), 0x0);
    assert_eq!(Opcode::TextFrame.to_u8(), 0x1);
    assert_eq!(Opcode::BinaryFrame.to_u8(), 0x2);
    assert_eq!(Opcode::ConnectionClose.to_u8(), 0x8);
    assert_eq!(Opcode::Ping.to_u8(), 0x9);
    assert_eq!(Opcode::Pong.to_u8(), 0xA);
}
