//! Looking up what stands at a location of the source.
pub mod owner;
pub mod path;
pub mod ty;
