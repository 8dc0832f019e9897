//! Typed, bounds-checked encoding and decoding of primitive values over a
//! seekable byte medium.
pub mod buffer;
