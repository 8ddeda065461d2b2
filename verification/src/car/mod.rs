//! Content-addressed archive (CAR) decoding: base32/multibase, multihash,
//! a minimal DAG-CBOR decoder and the CAR block reader.
pub mod base32;
pub mod cbor;
pub mod error;
pub mod multihash;
pub mod reader;
pub mod types;
