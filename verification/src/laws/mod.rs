//! What the library does, said of what goes in and what comes out.

pub mod chunks;
pub mod decoding;
pub mod imports;
pub mod nodes;
pub mod numbers;
pub mod packs;
pub mod render;
pub mod sort;
pub mod streaming;
pub mod texts;
pub mod views;
