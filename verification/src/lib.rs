//! Streaming MD5 and SHA-1 digests behind a common `Hasher` trait, a
//! `Hashable` adapter for values that can feed themselves to a hasher, and a
//! Base58 encoder for byte buffers.

pub mod base58;
pub mod block;
pub mod hash;
pub mod md5;
pub mod sha1;
