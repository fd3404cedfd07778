//! Resets the hidden "blue level" of a Deep Rock Galactic character-progression
//! record held in a decoded save tree, while keeping every visible class at
//! a fixed, playable configuration.
//!
//! - [`tree`]: the part of the save tree that the edit reads, and field lookup.
//! - [`navigate`]: finding the class slot array and checking its shape.
//! - [`classify`]: telling the hidden slot from the visible ones.
//! - [`solver`]: the values that bring the blue level to a target.
//! - [`edit`]: writing them into the slots, as one all-or-nothing edit.
//! - [`level`]: reading the blue level a tree implies.
//! - [`laws`]: what holds of a reset as a whole.

mod opaque;

pub mod classify;
pub mod edit;
pub mod error;
pub mod laws;
pub mod level;
pub mod navigate;
pub mod solver;
pub mod tree;
