//! Verified building blocks for a small kernel: a buddy allocator over page
//! numbers and a scancode-to-ASCII keyboard table.

pub mod order;
pub mod area;
pub mod laws;
pub mod search;
pub mod effects;
pub mod buddy;
pub mod keycodes_ascii;
