//! BOCU-1: a binary-ordered, state-based compression scheme for Unicode text.
//!
//! An encoder turns a stream of Unicode scalar values into 1-4 byte groups,
//! each encoding the difference between the scalar and a rolling reference
//! value ("prev"); a decoder reverses the process exactly.  Encoder and
//! decoder agree only through the shared constants and the bias function
//! that updates the reference value, which is what makes the byte stream
//! reversible — a fact proved in the laws of `props`.

pub mod band;
pub mod error;
pub mod trail;
pub mod prev;
pub mod encode;
pub mod decode;
pub mod props;

pub use encode::Bocu1Tx;
pub use encode::encode_scalars;
pub use decode::Bocu1Rx;
pub use decode::decode_bytes;
pub use error::Bocu1Error;
