//! Host-side client for the Firmata wire protocol.
//!
//! The crate covers the protocol's codec and the in-memory board model:
//! encoding of outbound control messages (`board`), the one-message-at-a-time
//! decoder that applies inbound reports to the board state (`decode`), and the
//! proved round-trip properties that tie the two together (`laws`). Reading
//! and writing the transport itself is left to the caller, who hands each
//! complete inbound message to [`board::Board::decode_message`] and writes the
//! byte strings the encoder operations return.

pub mod protocol;
pub mod text;
pub mod board;
pub mod decode;
pub mod laws;
