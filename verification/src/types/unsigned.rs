//! Unsigned integers: fixed-width and variable-length.

pub mod uint16;
pub mod uint32;
pub mod uint64;
pub mod uint8;
pub mod ulong;
pub mod varint;
pub mod varlong;
