//! A verified core for a single-threaded WebSocket server: the RFC 6455
//! frame codec, the handshake header accumulator, the accept-key
//! derivation, the per-connection protocol state machine, and the
//! reactor's connection table.

pub mod bytes;
pub mod codec;
pub mod conn;
pub mod handshake;
pub mod key;
pub mod reactor;

