//! Parsing of Vulkan `debugPrintf`-style format strings into segments.

pub mod text;
pub mod types;
pub mod spec;
pub mod parse;
pub mod display;
pub mod laws;
pub mod grammar;
