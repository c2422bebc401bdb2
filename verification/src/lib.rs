//! A cursor over a fixed byte buffer and the codecs that read and write typed
//! values through it: booleans, fixed-width integers in either byte order,
//! base-128 variable-length integers, their zigzag signed forms,
//! length-prefixed UTF-8 strings and 128-bit identifiers.
//!
//! Every codec states, over the stream's view, which bytes it consumes or
//! produces and where the cursor stands afterwards, on success and on failure.
//! A call that fails because the buffer is too short leaves the buffer and
//! the cursor as they were.

pub mod endianness;
pub mod error;
pub mod fixed;
pub mod base128;
pub mod stream;
pub mod text;
pub mod types;
pub mod zigzag;

pub use endianness::Endianness;
pub use error::CodecError;
pub use stream::{BinaryStream, StreamView};
pub use types::boolean::Bool;
pub use types::float::float32::Float32;
pub use types::float::float64::Float64;
pub use types::misc::uuid::Uuid;
pub use types::signed::byte::Byte;
pub use types::signed::int16::Int16;
pub use types::signed::int32::Int32;
pub use types::signed::int64::Int64;
pub use types::signed::int8::Int8;
pub use types::signed::zigzag::ZigZag;
pub use types::signed::zigzong::ZigZong;
pub use types::strings::string16::String16;
pub use types::strings::string32::String32;
pub use types::strings::varstring::VarString;
pub use types::unsigned::uint16::Uint16;
pub use types::unsigned::uint32::Uint32;
pub use types::unsigned::uint64::Uint64;
pub use types::unsigned::uint8::Uint8;
pub use types::unsigned::ulong::ULong;
pub use types::unsigned::varint::VarInt;
pub use types::unsigned::varlong::VarLong;
