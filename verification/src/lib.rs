//! Hex-and-ASCII memory dumps in seven word layouts.

pub mod dump;
pub mod history;
pub mod memory;
pub mod range;
pub mod row;
pub mod text;
pub mod variant;
pub mod word;
