//! The compression function of the BLAKE3 hash.

pub mod g;
