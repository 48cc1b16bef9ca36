//! The splat node: what it renders, and when.

pub mod chunk_streaming;
pub mod gpu_sort;
pub mod profile;
pub mod render_build;
pub mod render_state;
pub mod state;
