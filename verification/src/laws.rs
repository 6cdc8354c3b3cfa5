//! What holds of the codecs and of a connection whatever the input.
pub mod codec;
pub mod connection;
pub mod flow;
pub mod inbound;
