//! Length-prefixed UTF-8 text.

pub mod string16;
pub mod string32;
pub mod varstring;
