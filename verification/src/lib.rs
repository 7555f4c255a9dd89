//! Witness generation and constraint evaluation for precompile chips of a
//! zero-knowledge virtual machine.
//!
//! Every chip has two sides that share one column layout: `populate` fills a
//! row of field values from a concrete execution event, and `eval` states,
//! over the same columns, the polynomial identities that a valid row
//! satisfies. The library proves that the rows it generates satisfy the
//! identities it states, and for the hash gadgets and the field operations
//! that rows which satisfy the identities hold what the operation computes.
//!
//! - [`builder`] is the interface through which `eval` states identities,
//!   lookups and memory accesses; [`evaluator`] implements it on the values
//!   of one concrete row.
//! - [`operations`] are the gadgets: addition, exclusive or, rotation and
//!   shift of words, and arithmetic of big integers modulo a prime.
//! - [`blake3`], [`sha256`] and [`weierstrass`] are the chips built of them.
//! - [`memory`] ties the accesses of a row to the argument that orders all
//!   accesses, and [`trace`] pads the rows of a chip to a power of two.

pub mod builder;
pub mod evaluator;
pub mod word;
pub mod bytes;
pub mod limbs;
pub mod record;
pub mod memory;
pub mod trace;
pub mod curve;
pub mod operations;
pub mod blake3;
pub mod sha256;
pub mod weierstrass;
mod bigint;
