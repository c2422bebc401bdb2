//! The codecs, one type for each wire format.

pub mod boolean;
pub mod float;
pub mod misc;
pub mod signed;
pub mod strings;
pub mod unsigned;
