//! Formats that are neither numbers nor text.

pub mod uuid;
