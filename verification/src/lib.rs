//! A binary packet-framing codec: each packet carries a 32-bit signed
//! identifier and an opaque byte payload, is framed with a varint length
//! prefix, and may optionally be wrapped in zlib compression.

pub mod codec;
pub mod error;
pub mod packet;
pub mod stream;
pub mod varint;
