use crate::error::CodecError;
use crate::fixed::{signed_of, unsigned_of};
use crate::stream::BinaryStream;
use crate::types::signed::int8::Int8;
use vstd::prelude::*;

verus! {

/// A signed byte: [`Int8`] under the name that some wire formats give it.
pub struct Byte();

impl Byte {
    /// Reads the byte at the cursor as a two's complement number.
    pub fn read(stream: &mut BinaryStream) -> (r: Result<i8, CodecError>)
        ensures
            ({
                let before = old(stream)@;
                match r {
                    Ok(v) => before.fits(1) && v == signed_of(before.window(1)[0] as nat, 1)
                        && final(stream)@ == before.skipped(1),
                    Err(e) => e == CodecError::OutOfBounds && !before.fits(1)
                        && final(stream)@ == before,
                }
            }),
    {
        Int8::read(stream)
    }

    /// Writes `value` as one byte of two's complement.
    pub fn write(stream: &mut BinaryStream, value: i8) -> (r: Result<(), CodecError>)
        ensures
            ({
                let before = old(stream)@;
                match r {
                    Ok(_) => before.fits(1) && final(stream)@ == before.wrote(
                        seq![unsigned_of(value as int, 1) as u8],
                    ),
                    Err(e) => e == CodecError::OutOfBounds && !before.fits(1)
                        && final(stream)@ == before,
                }
            }),
    {
        Int8::write(stream, value)
    }
}

} // verus!
