//! Signed integers: fixed-width and zigzag variable-length.

pub mod byte;
pub mod int16;
pub mod int32;
pub mod int64;
pub mod int8;
pub mod zigzag;
pub mod zigzong;
