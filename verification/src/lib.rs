//! Bounds-checked sequential decoding of binary buffers: raw byte runs,
//! fixed-width big-endian integers, and a canonical variable-length integer
//! format, together with the matching minimal encoder.

pub mod bytes;
pub mod error;
pub mod reader;
pub mod transaction_signature;
pub mod var_int;
