//! Verified implementations of the RIPEMD (160, 256 and 320 bit) and
//! Streebog (256 and 512 bit) cryptographic hash functions.
//!
//! Each hasher buffers its input into 64-byte blocks, runs the algorithm's
//! compression function over every full block, and at finalization pads the
//! trailing bytes with the algorithm's length-encoding scheme.  The digest
//! returned by every hasher is proved equal to a purely mathematical
//! definition of the hash over the absorbed byte sequence.

pub mod blocks;
pub mod laws;
pub mod ripemd160;
pub mod ripemd256;
pub mod ripemd320;
pub mod ripemd_common;
pub mod streebog;
pub mod streebog256;
pub mod streebog512;
pub mod words;
