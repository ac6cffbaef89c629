//! A small control-message protocol for device-to-host signalling, with
//! three interchangeable wire encodings: a self-describing text form and
//! two compact binary forms that differ in how the status-flag byte is
//! packed.
//!
//! Every encoder and decoder is a pure function with a full contract:
//! encodings are bounded by a compile-time maximum size, round trips are
//! lossless for every representable value, and a binary decoder hands back
//! the bytes it did not consume.

pub mod binary_raw;
pub mod binary_structured;
pub mod message;
pub mod text;
pub mod wire;
