use crate::endianness::Endianness;
use crate::error::CodecError;
use crate::fixed::{bytes_of, value_of};
use crate::stream::BinaryStream;
use crate::types::unsigned::uint64::Uint64;
use vstd::prelude::*;

verus! {

/// An unsigned 64-bit integer: [`Uint64`] under the name that some wire
/// formats give it.
pub struct ULong();

impl ULong {
    /// Reads the 8 bytes at the cursor as a number in the byte order `endian`,
    /// big-endian where none is given.
    pub fn read(
        stream: &mut BinaryStream,
        endian: Option<Endianness>,
    ) -> (r: Result<u64, CodecError>)
        ensures
            ({
                let before = old(stream)@;
                match r {
                    Ok(v) => before.fits(8) && v == value_of(before.window(8), Endianness::resolve(endian))
                        && final(stream)@ == before.skipped(8),
                    Err(e) => e == CodecError::OutOfBounds && !before.fits(8)
                        && final(stream)@ == before,
                }
            }),
    {
        Uint64::read(stream, endian)
    }

    /// Writes `value` as 8 bytes in the byte order `endian`, big-endian where
    /// none is given.
    pub fn write(
        stream: &mut BinaryStream,
        value: u64,
        endian: Option<Endianness>,
    ) -> (r: Result<(), CodecError>)
        ensures
            ({
                let before = old(stream)@;
                match r {
                    Ok(_) => before.fits(8) && final(stream)@ == before.wrote(
                        bytes_of(value as nat, 8, Endianness::resolve(endian)),
                    ),
                    Err(e) => e == CodecError::OutOfBounds && !before.fits(8)
                        && final(stream)@ == before,
                }
            }),
    {
        Uint64::write(stream, value, endian)
    }
}

} // verus!
