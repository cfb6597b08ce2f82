//! Wire-protocol core of a minimal Kafka-style broker endpoint.
//!
//! The crate decodes length-prefixed request frames, builds the matching
//! responses and encodes them, bit for bit. Every function is verified
//! against a mathematical model of the wire format over `Seq<u8>`.

pub mod api_keys;
pub mod buffer;
pub mod codec;
pub mod connection;
pub mod errors;
pub mod requests;
pub mod responses;
pub mod text;
