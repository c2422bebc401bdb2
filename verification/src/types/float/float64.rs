use crate::endianness::Endianness;
use crate::error::CodecError;
use crate::fixed::{bytes_of, value_of};
use crate::stream::BinaryStream;
use crate::types::unsigned::uint64::Uint64;
use vstd::prelude::*;

verus! {

/// An IEEE 754 double-precision number in eight bytes.
///
/// The codec moves the 64 bits of the number and never looks into them:
/// a value is handed over as the bit pattern that `to_bits` gives and
/// `from_bits` takes, so that every number, every NaN included, comes back
/// bit for bit.
pub struct Float64();

impl Float64 {
    /// Reads the 8 bytes at the cursor as a bit pattern in the byte order
    /// `endian`, big-endian where none is given.
    pub fn read(
        stream: &mut BinaryStream,
        endian: Option<Endianness>,
    ) -> (r: Result<u64, CodecError>)
        ensures
            ({
                let before = old(stream)@;
                match r {
                    Ok(bits) => before.fits(8) && bits == value_of(before.window(8), Endianness::resolve(endian))
                        && final(stream)@ == before.skipped(8),
                    Err(e) => e == CodecError::OutOfBounds && !before.fits(8)
                        && final(stream)@ == before,
                }
            }),
    {
        Uint64::read(stream, endian)
    }

    /// Writes the bit pattern `bits` as 8 bytes in the byte order `endian`,
    /// big-endian where none is given.
    pub fn write(
        stream: &mut BinaryStream,
        bits: u64,
        endian: Option<Endianness>,
    ) -> (r: Result<(), CodecError>)
        ensures
            ({
                let before = old(stream)@;
                match r {
                    Ok(_) => before.fits(8) && final(stream)@ == before.wrote(
                        bytes_of(bits as nat, 8, Endianness::resolve(endian)),
                    ),
                    Err(e) => e == CodecError::OutOfBounds && !before.fits(8)
                        && final(stream)@ == before,
                }
            }),
    {
        Uint64::write(stream, bits, endian)
    }
}

} // verus!
