use crate::endianness::Endianness;
use crate::error::CodecError;
use crate::fixed::{bytes_of, value_of};
use crate::stream::BinaryStream;
use crate::types::unsigned::uint32::Uint32;
use vstd::prelude::*;

verus! {

/// An IEEE 754 single-precision number in four bytes.
///
/// The codec moves the 32 bits of the number and never looks into them:
/// a value is handed over as the bit pattern that `to_bits` gives and
/// `from_bits` takes, so that every number, every NaN included, comes back
/// bit for bit.
pub struct Float32();

impl Float32 {
    /// Reads the 4 bytes at the cursor as a bit pattern in the byte order
    /// `endian`, big-endian where none is given.
    pub fn read(
        stream: &mut BinaryStream,
        endian: Option<Endianness>,
    ) -> (r: Result<u32, CodecError>)
        ensures
            ({
                let before = old(stream)@;
                match r {
                    Ok(bits) => before.fits(4) && bits == value_of(before.window(4), Endianness::resolve(endian))
                        && final(stream)@ == before.skipped(4),
                    Err(e) => e == CodecError::OutOfBounds && !before.fits(4)
                        && final(stream)@ == before,
                }
            }),
    {
        Uint32::read(stream, endian)
    }

    /// Writes the bit pattern `bits` as 4 bytes in the byte order `endian`,
    /// big-endian where none is given.
    pub fn write(
        stream: &mut BinaryStream,
        bits: u32,
        endian: Option<Endianness>,
    ) -> (r: Result<(), CodecError>)
        ensures
            ({
                let before = old(stream)@;
                match r {
                    Ok(_) => before.fits(4) && final(stream)@ == before.wrote(
                        bytes_of(bits as nat, 4, Endianness::resolve(endian)),
                    ),
                    Err(e) => e == CodecError::OutOfBounds && !before.fits(4)
                        && final(stream)@ == before,
                }
            }),
    {
        Uint32::write(stream, bits, endian)
    }
}

} // verus!
