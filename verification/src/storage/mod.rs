//! Storage back ends.

pub mod buffer;
pub mod files;
pub mod label;
pub mod layers;
pub mod memory;
