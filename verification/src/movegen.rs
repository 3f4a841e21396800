//! Move encoding, move lists and the pseudo-legal move generator.

pub mod gen;
pub mod info;
pub mod movedefs;
pub mod sound;
