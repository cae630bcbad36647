//! Fuzzy colour and sub-bitmap search over rectangular pixel buffers.

pub mod buffer;
pub mod codec;
pub mod color;
pub mod error;
pub mod format;
pub mod geometry;
pub mod laws;
pub mod region;
pub mod search;
