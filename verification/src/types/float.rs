//! IEEE 754 numbers, carried as their bit patterns.

pub mod float32;
pub mod float64;
