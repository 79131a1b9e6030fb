//! Deterministic replay containers: a simulation's initial state and its
//! turn-ordered input log, framed into a versioned big-endian binary format
//! and parsed back, in one shot or from a growing byte stream.
//!
//! Payloads (the initial state and each turn input) are carried as the bytes
//! of their structured encoding; this crate frames, checks and orders them.

pub mod bytes;
pub mod decoder;
pub mod encoder;
pub mod error;
pub mod laws;
pub mod load;
pub mod replay;

pub use bytes::{encode_be_u32, encode_be_u64};
pub use decoder::{decode_vec, length_decoding, Decode};
pub use encoder::{encode_vec, length_encoded, Encode};
pub use error::{ErrorBorrowed, ErrorKind, ErrorOwned, GenericError, Turn};
pub use load::{LoadStep, Loader};
pub use replay::{Replay, REPLAY_FORMAT_VERSION};
