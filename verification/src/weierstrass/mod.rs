//! Chips for curves in short Weierstrass form.

pub mod weierstrass_add;
