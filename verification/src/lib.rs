//! SM3 cryptographic hash (256-bit digest) with a verified streaming engine.
//!
//! The digest of a byte sequence is defined mathematically in [`sm3_spec`];
//! [`sm3_digest`] holds the executable engine, proved to compute exactly that
//! digest for every input and every way of splitting it across `push_data`
//! calls. [`sm3_utils`] offers one-call digests and hex rendering.

pub mod sm3_constant;
pub mod sm3_digest;
pub mod sm3_spec;
pub mod sm3_utils;
