//! Flattening and summing of in-memory pixel data.
//!
//! Two containers are offered: [`BitmapData`], a list of packed 32-bit colours,
//! and [`NestedData`], a list of byte rows. Each has several interchangeable
//! ways to flatten it into one byte vector or to sum all its bytes with `u32`
//! wraparound; the contracts pin each of them to one mathematical model.
pub mod bitmap;
pub mod color;
pub mod nested;
pub mod sums;

pub use bitmap::BitmapData;
pub use color::Color;
pub use nested::NestedData;
