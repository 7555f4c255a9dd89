//! The SHA-256 hash.

pub mod extend;
