//! WebSocket to TCP proxy: the per-connection protocol logic.
//!
//! A client speaks WebSocket to the proxy, the proxy speaks plain TCP to a
//! real server and splices the two.  This crate holds everything that
//! decides or computes along the way: the frame codecs, the validation of
//! the opening handshake, and the state of one proxied connection.
//! Sockets are left to the caller, who reports what each read, write and
//! connect attempt came to.
//!
//! # References
//!
//! - [RFC 6455] The WebSocket Protocol
//!
//! [RFC 6455]: https://tools.ietf.org/html/rfc6455
pub mod channel;
pub mod decoder;
pub mod error;
pub mod frame;
pub mod handshake;
pub mod header;
pub mod http;
pub mod io;
pub mod laws;
pub mod opcode;
pub mod text;
pub mod util;
pub mod wire;

pub use channel::{Closing, ConnectOutcome, HandshakeStep, PollStep, ProxyChannel};
pub use decoder::{FrameDecoder, FramePayloadDecoder};
pub use error::{CodecErrorKind, Error, ErrorKind};
pub use frame::{ByteCount, Frame, FrameEncoder};
pub use header::FrameHeaderDecoder;
pub use io::{ReadBuf, ReadOutcome, StreamState, WriteBuf, WriteOutcome};
pub use opcode::Opcode;
pub use util::{accept_hash, calc_accept_hash, WebSocketKey};
pub use wire::FrameHeader;
