//! Arithmetic gadgets: sub-circuits with a witness side and a constraint side
//! over one column layout.

pub mod add;
pub mod xor;
pub mod rotate_right;
pub mod field_op;
pub mod shift_right;
pub mod add4;
pub mod limb_poly;
