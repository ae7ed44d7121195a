//! Single-parity striping over fixed-width binary chunks.
//!
//! A stripe holds a fixed number of members, each an exact-size byte
//! vector; the last member is a parity chunk kept equal to the bitwise
//! XOR of all data members, so that any single lost member can be
//! regenerated from the survivors.

pub mod bits;
pub mod raid3;
pub mod stripe;
